use vstd::prelude::*;
use crate::pci::{cap_walk, le16, le32, ConfigSpace, PciDevice, CAP_ID_MSI, CAP_ID_MSIX, MAX_CAPABILITY_HOPS, PCI_CAP_POINTER, PCI_STATUS, PCI_STATUS_CAP_LIST};

verus! {

/// Address of the local APIC that message-signalled interrupts are sent to.
pub const LAPIC_MSI_ADDRESS_BASE: u32 = 0xFEE0_0000;

/// Lowest vector a device may be given.
pub const MIN_MSI_VECTOR: u8 = 32;

/// Highest vector a device may be given.
pub const MAX_MSI_VECTOR: u8 = 239;

/// Offset of the command register.
pub const PCI_COMMAND: u16 = 0x04;

/// Command bit that turns the legacy interrupt line off.
pub const PCI_COMMAND_INTX_DISABLE: u16 = 0x400;

/// MSI message-control bit that enables MSI.
pub const MSI_ENABLE: u16 = 0x1;

/// MSI message-control bit telling a 64-bit message address.
pub const MSI_ADDR_64BIT: u16 = 0x80;

/// MSI-X message-control bit that enables MSI-X.
pub const MSIX_ENABLE: u16 = 0x8000;

#[derive(Debug, Clone, Copy, PartialEq, Eq, Structural)]
pub enum MsiError {
    NotSupported,
    InvalidVector { vector: u8 },
    InvalidEntry { index: u16, table_size: u16 },
    InvalidBar { bar_index: u8 },
    TooManyVectors { requested: usize, available: u16 },
    MappingFailed,
}

/// A device set up for MSI.
#[derive(Debug, Clone, Copy, PartialEq, Eq, Structural)]
pub struct MsiConfig {
    pub vector: u8,
    pub cap_offset: u16,
}

/// Where a device's MSI-X table and pending-bit array are.
#[derive(Debug, Clone, Copy, PartialEq, Eq, Structural)]
pub struct MsixCapability {
    pub cap_offset: u16,
    pub table_size: u16,
    pub table_bir: u8,
    pub table_offset: u32,
    pub pba_bir: u8,
    pub pba_offset: u32,
}

/// One write to configuration space: `width` bytes (2 or 4) at `offset`.
#[derive(Debug, Clone, Copy, PartialEq, Eq, Structural)]
pub struct ConfigWrite {
    pub offset: u16,
    pub width: u8,
    pub value: u32,
}

/// The 32-bit register holding write `w` after the write, given its value
/// `old` before: the written bytes replaced, the others kept.
pub open spec fn merged_register(old: u32, w: ConfigWrite) -> u32 {
    let shift = ((w.offset & 0x3) * 8) as u32;
    let mask: u32 = if w.width == 4 { 0xFFFF_FFFF } else { (0xFFFFu32 << shift) as u32 };
    (old & !mask) | (((w.value << shift) as u32) & mask)
}

/// The value to store in the 32-bit register at `offset & !3` so that it
/// carries write `w` (of 2 or 4 bytes) over its previous value `old`.
pub fn merge_config_write(old: u32, w: &ConfigWrite) -> (r: u32)
    ensures
        r == merged_register(old, *w),
{
    let off = w.offset;
    let low = off & 0x3;
    assert(off & 0x3 <= 3) by (bit_vector);
    let shift = (low * 8) as u32;
    let mask: u32 = if w.width == 4 { 0xFFFF_FFFF } else { 0xFFFFu32 << shift };
    (old & !mask) | ((w.value << shift) & mask)
}

/// Offset of the capability with id `id`, as `find_capability` finds it.
pub open spec fn capability(cfg: Seq<u8>, id: u8) -> Option<u16> {
    if cfg[PCI_STATUS as int] & PCI_STATUS_CAP_LIST == 0 {
        None
    } else {
        cap_walk(cfg, cfg[PCI_CAP_POINTER as int] & 0xFC, id, MAX_CAPABILITY_HOPS as nat)
    }
}

pub proof fn lemma_capability_offset(cfg: Seq<u8>, ptr: u8, id: u8, fuel: nat)
    requires
        ptr <= 0xFC,
        cfg.len() == 256,
    ensures
        cap_walk(cfg, ptr, id, fuel) matches Some(off) ==> off <= 0xFC,
    decreases fuel,
{
    if fuel > 0 && ptr != 0 && cfg[ptr as int] != id {
        let byte = cfg[ptr + 1];
        let next = byte & 0xFC;
        assert(byte & 0xFC <= 0xFC) by (bit_vector);
        lemma_capability_offset(cfg, next, id, (fuel - 1) as nat);
    }
}

/// The writes that switch a device with message control `ctrl` and
/// command `command`, MSI capability at `cap`, to MSI on `vector`: MSI off,
/// the APIC address (and a zero upper half for a 64-bit address), the
/// vector as data, MSI on, then the legacy line off.
pub open spec fn msi_enable_writes(cap: u16, ctrl: u16, command: u16, vector: u8) -> Seq<ConfigWrite> {
    let off = ConfigWrite { offset: (cap + 2) as u16, width: 2, value: (ctrl & !MSI_ENABLE) as u32 };
    let addr = ConfigWrite { offset: (cap + 4) as u16, width: 4, value: LAPIC_MSI_ADDRESS_BASE };
    let on = ConfigWrite { offset: (cap + 2) as u16, width: 2, value: (ctrl | MSI_ENABLE) as u32 };
    let intx = ConfigWrite { offset: PCI_COMMAND, width: 2, value: (command | PCI_COMMAND_INTX_DISABLE) as u32 };
    if ctrl & MSI_ADDR_64BIT != 0 {
        seq![off, addr, ConfigWrite { offset: (cap + 8) as u16, width: 4, value: 0 },
            ConfigWrite { offset: (cap + 0x0C) as u16, width: 2, value: vector as u32 }, on, intx]
    } else {
        seq![off, addr, ConfigWrite { offset: (cap + 8) as u16, width: 2, value: vector as u32 }, on, intx]
    }
}

/// Sets up MSI on `vector` (32 to 239) for `device`, whose configuration
/// space is `cfg`; returns the set-up and the register writes to make, in order.
pub fn configure_msi(device: &PciDevice, cfg: &ConfigSpace, vector: u8) -> (r: Result<(MsiConfig, Vec<ConfigWrite>), MsiError>)
    requires
        cfg.wf(),
    ensures
        !(MIN_MSI_VECTOR <= vector <= MAX_MSI_VECTOR) ==> r == Err::<(MsiConfig, Vec<ConfigWrite>), MsiError>(MsiError::InvalidVector { vector }),
        MIN_MSI_VECTOR <= vector <= MAX_MSI_VECTOR && capability(cfg.view_bytes(), CAP_ID_MSI) is None
            ==> r == Err::<(MsiConfig, Vec<ConfigWrite>), MsiError>(MsiError::NotSupported),
        MIN_MSI_VECTOR <= vector <= MAX_MSI_VECTOR ==> (capability(cfg.view_bytes(), CAP_ID_MSI) matches Some(cap) ==> {
            &&& r is Ok
            &&& r->Ok_0.0 == (MsiConfig { vector, cap_offset: cap })
            &&& r->Ok_0.1@ == msi_enable_writes(cap, le16(cfg.view_bytes(), cap + 2) as u16, le16(cfg.view_bytes(), PCI_COMMAND as int) as u16, vector)
        }),
{
    if vector < MIN_MSI_VECTOR || vector > MAX_MSI_VECTOR {
        return Err(MsiError::InvalidVector { vector });
    }
    let cap = match device.find_capability(cfg, CAP_ID_MSI) {
        Some(c) => c,
        None => {
            return Err(MsiError::NotSupported);
        },
    };
    proof {
        let b = cfg.view_bytes();
        let first = b[PCI_CAP_POINTER as int];
        assert(first & 0xFC <= 0xFC) by (bit_vector);
        lemma_capability_offset(b, first & 0xFC, CAP_ID_MSI, MAX_CAPABILITY_HOPS as nat);
    }
    let ctrl = cfg.read_u16(cap as usize + 2);
    let command = cfg.read_u16(PCI_COMMAND as usize);
    let mut writes: Vec<ConfigWrite> = Vec::new();
    writes.push(ConfigWrite { offset: cap + 2, width: 2, value: (ctrl & !MSI_ENABLE) as u32 });
    writes.push(ConfigWrite { offset: cap + 4, width: 4, value: LAPIC_MSI_ADDRESS_BASE });
    if ctrl & MSI_ADDR_64BIT != 0 {
        writes.push(ConfigWrite { offset: cap + 8, width: 4, value: 0 });
        writes.push(ConfigWrite { offset: cap + 0x0C, width: 2, value: vector as u32 });
    } else {
        writes.push(ConfigWrite { offset: cap + 8, width: 2, value: vector as u32 });
    }
    writes.push(ConfigWrite { offset: cap + 2, width: 2, value: (ctrl | MSI_ENABLE) as u32 });
    writes.push(ConfigWrite { offset: PCI_COMMAND, width: 2, value: (command | PCI_COMMAND_INTX_DISABLE) as u32 });
    proof {
        assert(writes@ =~= msi_enable_writes(cap, ctrl, command, vector));
    }
    Ok((MsiConfig { vector, cap_offset: cap }, writes))
}

/// Switches MSI off and the legacy line back on: the register writes, in order.
pub fn disable_msi(device: &PciDevice, cfg: &ConfigSpace) -> (r: Result<Vec<ConfigWrite>, MsiError>)
    requires
        cfg.wf(),
    ensures
        capability(cfg.view_bytes(), CAP_ID_MSI) is None ==> r == Err::<Vec<ConfigWrite>, MsiError>(MsiError::NotSupported),
        capability(cfg.view_bytes(), CAP_ID_MSI) matches Some(cap) ==> r is Ok && r->Ok_0@ == seq![
            ConfigWrite { offset: (cap + 2) as u16, width: 2, value: (le16(cfg.view_bytes(), cap + 2) as u16 & !MSI_ENABLE) as u32 },
            ConfigWrite { offset: PCI_COMMAND, width: 2, value: (le16(cfg.view_bytes(), PCI_COMMAND as int) as u16 & !PCI_COMMAND_INTX_DISABLE) as u32 },
        ],
{
    let cap = match device.find_capability(cfg, CAP_ID_MSI) {
        Some(c) => c,
        None => {
            return Err(MsiError::NotSupported);
        },
    };
    proof {
        let b = cfg.view_bytes();
        let first = b[PCI_CAP_POINTER as int];
        assert(first & 0xFC <= 0xFC) by (bit_vector);
        lemma_capability_offset(b, first & 0xFC, CAP_ID_MSI, MAX_CAPABILITY_HOPS as nat);
    }
    let ctrl = cfg.read_u16(cap as usize + 2);
    let command = cfg.read_u16(PCI_COMMAND as usize);
    let mut writes: Vec<ConfigWrite> = Vec::new();
    writes.push(ConfigWrite { offset: cap + 2, width: 2, value: (ctrl & !MSI_ENABLE) as u32 });
    writes.push(ConfigWrite { offset: PCI_COMMAND, width: 2, value: (command & !PCI_COMMAND_INTX_DISABLE) as u32 });
    proof {
        assert(writes@ =~= seq![
            ConfigWrite { offset: (cap + 2) as u16, width: 2, value: (ctrl & !MSI_ENABLE) as u32 },
            ConfigWrite { offset: PCI_COMMAND, width: 2, value: (command & !PCI_COMMAND_INTX_DISABLE) as u32 },
        ]);
    }
    Ok(writes)
}

/// The MSI-X capability that `detect_msix` reads from `cfg`.
pub open spec fn detect_msix_spec(cfg: Seq<u8>) -> Option<MsixCapability> {
    match capability(cfg, CAP_ID_MSIX) {
        None => None,
        Some(cap) => if cap > 0xF4 {
            None
        } else {
            Some(MsixCapability {
                cap_offset: cap,
                table_size: ((le16(cfg, cap + 2) as u16 & 0x07FF) + 1) as u16,
                table_bir: (le32(cfg, cap + 4) as u32 & 0x07) as u8,
                table_offset: le32(cfg, cap + 4) as u32 & 0xFFFF_FFF8,
                pba_bir: (le32(cfg, cap + 8) as u32 & 0x07) as u8,
                pba_offset: le32(cfg, cap + 8) as u32 & 0xFFFF_FFF8,
            })
        },
    }
}

/// Reads the MSI-X capability of `device`: table size (the field plus one),
/// and the BAR index and offset of the table and of the pending-bit array.
/// `None` without an MSI-X capability, or one too close to the end of the
/// header to hold its registers.
pub fn detect_msix(device: &PciDevice, cfg: &ConfigSpace) -> (r: Option<MsixCapability>)
    requires
        cfg.wf(),
    ensures
        r == detect_msix_spec(cfg.view_bytes()),
        (capability(cfg.view_bytes(), CAP_ID_MSIX) is None || capability(cfg.view_bytes(), CAP_ID_MSIX)->0 > 0xF4) ==> r is None,
        capability(cfg.view_bytes(), CAP_ID_MSIX) matches Some(cap) ==> (cap <= 0xF4 ==> r == Some(MsixCapability {
            cap_offset: cap,
            table_size: ((le16(cfg.view_bytes(), cap + 2) as u16 & 0x07FF) + 1) as u16,
            table_bir: (le32(cfg.view_bytes(), cap + 4) as u32 & 0x07) as u8,
            table_offset: le32(cfg.view_bytes(), cap + 4) as u32 & 0xFFFF_FFF8,
            pba_bir: (le32(cfg.view_bytes(), cap + 8) as u32 & 0x07) as u8,
            pba_offset: le32(cfg.view_bytes(), cap + 8) as u32 & 0xFFFF_FFF8,
        })),
{
    let cap = match device.find_capability(cfg, CAP_ID_MSIX) {
        Some(c) => c,
        None => {
            return None;
        },
    };
    if cap > 0xF4 {
        return None;
    }
    let ctrl = cfg.read_u16(cap as usize + 2);
    let table = cfg.read_u32(cap as usize + 4);
    let pba = cfg.read_u32(cap as usize + 8);
    assert((ctrl & 0x07FF) + 1 <= 0x800) by (bit_vector);
    Some(MsixCapability {
        cap_offset: cap,
        table_size: (ctrl & 0x07FF) + 1,
        table_bir: (table & 0x07) as u8,
        table_offset: table & 0xFFFF_FFF8,
        pba_bir: (pba & 0x07) as u8,
        pba_offset: pba & 0xFFFF_FFF8,
    })
}


/// Bytes per entry of an MSI-X table.
pub const MSIX_ENTRY_SIZE: u64 = 16;

/// Vector-control bit that masks an MSI-X entry.
pub const MSIX_VECTOR_MASK: u32 = 0x1;

/// One 32-bit write into an MSI-X table, at `offset` bytes from its start.
#[derive(Debug, Clone, Copy, PartialEq, Eq, Structural)]
pub struct TableWrite {
    pub offset: u64,
    pub value: u32,
}

/// A device's MSI-X table, at physical address `table_phys`.
#[derive(Debug, Clone, Copy, PartialEq, Eq, Structural)]
pub struct MsixConfig {
    pub capability: MsixCapability,
    pub table_phys: u64,
}

/// The writes that point MSI-X entry `index` at the APIC with `vector`.
pub open spec fn entry_writes(index: u16, vector: u8) -> Seq<TableWrite> {
    let base = index as int * 16;
    seq![
        TableWrite { offset: base as u64, value: LAPIC_MSI_ADDRESS_BASE },
        TableWrite { offset: (base + 4) as u64, value: 0 },
        TableWrite { offset: (base + 8) as u64, value: vector as u32 },
    ]
}

impl MsixConfig {
    pub fn new(capability: MsixCapability, table_phys: u64) -> (r: MsixConfig)
        ensures
            r == (MsixConfig { capability, table_phys }),
    {
        MsixConfig { capability, table_phys }
    }

    pub fn table_size(&self) -> (r: u16)
        ensures
            r == self.capability.table_size,
    {
        self.capability.table_size
    }

    /// The writes that set entry `index` to deliver `vector` (32 to 239).
    pub fn configure_entry(&self, index: u16, vector: u8) -> (r: Result<Vec<TableWrite>, MsiError>)
        ensures
            index >= self.capability.table_size ==> r == Err::<Vec<TableWrite>, MsiError>(MsiError::InvalidEntry { index, table_size: self.capability.table_size }),
            index < self.capability.table_size && !(MIN_MSI_VECTOR <= vector <= MAX_MSI_VECTOR)
                ==> r == Err::<Vec<TableWrite>, MsiError>(MsiError::InvalidVector { vector }),
            index < self.capability.table_size && MIN_MSI_VECTOR <= vector <= MAX_MSI_VECTOR
                ==> r is Ok && r->Ok_0@ == entry_writes(index, vector),
    {
        if index >= self.capability.table_size {
            return Err(MsiError::InvalidEntry { index, table_size: self.capability.table_size });
        }
        if vector < MIN_MSI_VECTOR || vector > MAX_MSI_VECTOR {
            return Err(MsiError::InvalidVector { vector });
        }
        let base = (index as u64) * MSIX_ENTRY_SIZE;
        let mut w: Vec<TableWrite> = Vec::new();
        w.push(TableWrite { offset: base, value: LAPIC_MSI_ADDRESS_BASE });
        w.push(TableWrite { offset: base + 4, value: 0 });
        w.push(TableWrite { offset: base + 8, value: vector as u32 });
        assert(w@ =~= entry_writes(index, vector));
        Ok(w)
    }

    /// The write that masks entry `index`, whose vector control reads `ctrl`.
    pub fn mask_entry(&self, index: u16, ctrl: u32) -> (r: Result<TableWrite, MsiError>)
        ensures
            index >= self.capability.table_size ==> r == Err::<TableWrite, MsiError>(MsiError::InvalidEntry { index, table_size: self.capability.table_size }),
            index < self.capability.table_size ==> r == Ok::<TableWrite, MsiError>(TableWrite { offset: (index as int * 16 + 12) as u64, value: ctrl | MSIX_VECTOR_MASK }),
    {
        if index >= self.capability.table_size {
            return Err(MsiError::InvalidEntry { index, table_size: self.capability.table_size });
        }
        Ok(TableWrite { offset: (index as u64) * MSIX_ENTRY_SIZE + 12, value: ctrl | MSIX_VECTOR_MASK })
    }

    /// The write that unmasks entry `index`, whose vector control reads `ctrl`.
    pub fn unmask_entry(&self, index: u16, ctrl: u32) -> (r: Result<TableWrite, MsiError>)
        ensures
            index >= self.capability.table_size ==> r == Err::<TableWrite, MsiError>(MsiError::InvalidEntry { index, table_size: self.capability.table_size }),
            index < self.capability.table_size ==> r == Ok::<TableWrite, MsiError>(TableWrite { offset: (index as int * 16 + 12) as u64, value: ctrl & !MSIX_VECTOR_MASK }),
    {
        if index >= self.capability.table_size {
            return Err(MsiError::InvalidEntry { index, table_size: self.capability.table_size });
        }
        Ok(TableWrite { offset: (index as u64) * MSIX_ENTRY_SIZE + 12, value: ctrl & !MSIX_VECTOR_MASK })
    }

    /// The writes that mask every entry, given each entry's vector control
    /// (`ctrls[i]` for entry `i`; entries beyond the table are ignored).
    pub fn mask_all(&self, ctrls: &Vec<u32>) -> (r: Vec<TableWrite>)
        ensures
            r@.len() == if ctrls@.len() < self.capability.table_size { ctrls@.len() as int } else { self.capability.table_size as int },
            forall|i: int| 0 <= i < r@.len() ==> #[trigger] r@[i] == (TableWrite { offset: (i * 16 + 12) as u64, value: ctrls@[i] | MSIX_VECTOR_MASK }),
    {
        let mut r: Vec<TableWrite> = Vec::new();
        let mut i: u16 = 0;
        while i < self.capability.table_size && (i as usize) < ctrls.len()
            invariant
                i <= self.capability.table_size,
                i <= ctrls@.len(),
                r@.len() == i,
                forall|j: int| 0 <= j < i ==> #[trigger] r@[j] == (TableWrite { offset: (j * 16 + 12) as u64, value: ctrls@[j] | MSIX_VECTOR_MASK }),
            decreases self.capability.table_size - i,
        {
            r.push(TableWrite { offset: (i as u64) * MSIX_ENTRY_SIZE + 12, value: ctrls[i as usize] | MSIX_VECTOR_MASK });
            i = i + 1;
        }
        r
    }
}

/// What switching a device to MSI-X takes: the table, the config write that
/// turns MSI-X off while the table is set, the table writes (each vector's
/// entry, then unmasked), and the config writes that turn MSI-X on and the
/// legacy line off.
pub struct MsixPlan {
    pub config: MsixConfig,
    pub disable: ConfigWrite,
    pub table: Vec<TableWrite>,
    pub enable: Vec<ConfigWrite>,
}

/// The first vector of `v` outside 32 to 239, if any.
pub open spec fn first_bad_vector(v: Seq<u8>) -> Option<u8>
    decreases v.len(),
{
    if v.len() == 0 {
        None
    } else if !(MIN_MSI_VECTOR <= v[0] <= MAX_MSI_VECTOR) {
        Some(v[0])
    } else {
        first_bad_vector(v.drop_first())
    }
}

/// The table writes for `vectors`: each entry's address, data and vector
/// control (zero: unmasked), entry by entry.
pub open spec fn msix_table_writes(vectors: Seq<u8>) -> Seq<TableWrite>
    decreases vectors.len(),
{
    if vectors.len() == 0 {
        Seq::empty()
    } else {
        let i = (vectors.len() - 1) as int;
        msix_table_writes(vectors.drop_last()) + entry_writes(i as u16, vectors.last())
            + seq![TableWrite { offset: (i * 16 + 12) as u64, value: 0 }]
    }
}

/// Plans MSI-X on `vectors` (entry `i` gets `vectors[i]`) for `device`.
pub fn configure_msix(device: &PciDevice, cfg: &ConfigSpace, vectors: &Vec<u8>) -> (r: Result<MsixPlan, MsiError>)
    requires
        cfg.wf(),
    ensures
        detect_msix_spec(cfg.view_bytes()) is None ==> r is Err && r->Err_0 == MsiError::NotSupported,
        detect_msix_spec(cfg.view_bytes()) matches Some(cap) ==> ({
            let bar = crate::pci::decode_bar(cfg.view_bytes(), cap.table_bir);
            &&& vectors@.len() > cap.table_size ==> r == Err::<MsixPlan, MsiError>(MsiError::TooManyVectors { requested: vectors@.len() as usize, available: cap.table_size })
            &&& vectors@.len() <= cap.table_size ==> (first_bad_vector(vectors@) matches Some(v) ==> r == Err::<MsixPlan, MsiError>(MsiError::InvalidVector { vector: v }))
            &&& vectors@.len() <= cap.table_size && first_bad_vector(vectors@) is None && (bar is None || !bar->0.is_memory
                || bar->0.base_address + cap.table_offset > u64::MAX) ==> r == Err::<MsixPlan, MsiError>(MsiError::InvalidBar { bar_index: cap.table_bir })
            &&& r matches Ok(plan) ==> {
                &&& plan.config == (MsixConfig { capability: cap, table_phys: (bar->0.base_address + cap.table_offset) as u64 })
                &&& plan.disable == (ConfigWrite { offset: (cap.cap_offset + 2) as u16, width: 2, value: (le16(cfg.view_bytes(), cap.cap_offset + 2) as u16 & !MSIX_ENABLE) as u32 })
                &&& plan.table@ == msix_table_writes(vectors@)
                &&& plan.enable@ == seq![
                    ConfigWrite { offset: (cap.cap_offset + 2) as u16, width: 2, value: (le16(cfg.view_bytes(), cap.cap_offset + 2) as u16 | MSIX_ENABLE) as u32 },
                    ConfigWrite { offset: PCI_COMMAND, width: 2, value: (le16(cfg.view_bytes(), PCI_COMMAND as int) as u16 | PCI_COMMAND_INTX_DISABLE) as u32 },
                ]
            }
            &&& (vectors@.len() <= cap.table_size && first_bad_vector(vectors@) is None && bar is Some && bar->0.is_memory
                && bar->0.base_address + cap.table_offset <= u64::MAX) ==> r is Ok
        }),
{
    let cap = match detect_msix(device, cfg) {
        Some(c) => c,
        None => {
            return Err(MsiError::NotSupported);
        },
    };
    if vectors.len() > cap.table_size as usize {
        return Err(MsiError::TooManyVectors { requested: vectors.len(), available: cap.table_size });
    }
    let mut i: usize = 0;
    proof {
        assert(vectors@.skip(0) =~= vectors@);
    }
    while i < vectors.len()
        invariant
            i <= vectors@.len(),
            cfg.wf(),
            detect_msix_spec(cfg.view_bytes()) == Some(cap),
            vectors@.len() <= cap.table_size,
            first_bad_vector(vectors@) == first_bad_vector(vectors@.skip(i as int)),
            forall|j: int| 0 <= j < i ==> MIN_MSI_VECTOR <= #[trigger] vectors@[j] <= MAX_MSI_VECTOR,
        decreases vectors@.len() - i,
    {
        proof {
            assert(vectors@.skip(i as int).drop_first() =~= vectors@.skip(i + 1));
        }
        let v = vectors[i];
        proof {
            assert(vectors@.skip(i as int)[0] == v);
        }
        if v < MIN_MSI_VECTOR || v > MAX_MSI_VECTOR {
            return Err(MsiError::InvalidVector { vector: v });
        }
        i = i + 1;
    }
    proof {
        assert(vectors@.skip(i as int) =~= Seq::<u8>::empty());
    }
    let bar = match device.read_bar(cfg, cap.table_bir) {
        Some(b) => b,
        None => {
            return Err(MsiError::InvalidBar { bar_index: cap.table_bir });
        },
    };
    if !bar.is_memory {
        return Err(MsiError::InvalidBar { bar_index: cap.table_bir });
    }
    let table_phys = match bar.base_address.checked_add(cap.table_offset as u64) {
        Some(a) => a,
        None => {
            return Err(MsiError::InvalidBar { bar_index: cap.table_bir });
        },
    };
    let ctrl = cfg.read_u16(cap.cap_offset as usize + 2);
    let command = cfg.read_u16(PCI_COMMAND as usize);
    let mut table: Vec<TableWrite> = Vec::new();
    let mut k: usize = 0;
    while k < vectors.len()
        invariant
            k <= vectors@.len(),
            vectors@.len() <= cap.table_size,
            table@ == msix_table_writes(vectors@.take(k as int)),
        decreases vectors@.len() - k,
    {
        let base = (k as u64) * MSIX_ENTRY_SIZE;
        table.push(TableWrite { offset: base, value: LAPIC_MSI_ADDRESS_BASE });
        table.push(TableWrite { offset: base + 4, value: 0 });
        table.push(TableWrite { offset: base + 8, value: vectors[k] as u32 });
        table.push(TableWrite { offset: base + 12, value: 0 });
        proof {
            let t = vectors@.take(k + 1);
            assert(t.drop_last() =~= vectors@.take(k as int));
            assert(t.last() == vectors@[k as int]);
            assert(table@ =~= msix_table_writes(t));
        }
        k = k + 1;
    }
    proof {
        assert(vectors@.take(k as int) =~= vectors@);
    }
    let mut enable: Vec<ConfigWrite> = Vec::new();
    enable.push(ConfigWrite { offset: cap.cap_offset + 2, width: 2, value: (ctrl | MSIX_ENABLE) as u32 });
    enable.push(ConfigWrite { offset: PCI_COMMAND, width: 2, value: (command | PCI_COMMAND_INTX_DISABLE) as u32 });
    proof {
        assert(enable@ =~= seq![
            ConfigWrite { offset: (cap.cap_offset + 2) as u16, width: 2, value: (ctrl | MSIX_ENABLE) as u32 },
            ConfigWrite { offset: PCI_COMMAND, width: 2, value: (command | PCI_COMMAND_INTX_DISABLE) as u32 },
        ]);
    }
    Ok(MsixPlan {
        config: MsixConfig { capability: cap, table_phys },
        disable: ConfigWrite { offset: cap.cap_offset + 2, width: 2, value: (ctrl & !MSIX_ENABLE) as u32 },
        table,
        enable,
    })
}

/// The config writes that turn MSI-X off and the legacy line back on.
pub fn disable_msix(device: &PciDevice, cfg: &ConfigSpace) -> (r: Result<Vec<ConfigWrite>, MsiError>)
    requires
        cfg.wf(),
    ensures
        detect_msix_spec(cfg.view_bytes()) is None ==> r == Err::<Vec<ConfigWrite>, MsiError>(MsiError::NotSupported),
        detect_msix_spec(cfg.view_bytes()) matches Some(cap) ==> r is Ok && r->Ok_0@ == seq![
            ConfigWrite { offset: (cap.cap_offset + 2) as u16, width: 2, value: (le16(cfg.view_bytes(), cap.cap_offset + 2) as u16 & !MSIX_ENABLE) as u32 },
            ConfigWrite { offset: PCI_COMMAND, width: 2, value: (le16(cfg.view_bytes(), PCI_COMMAND as int) as u16 & !PCI_COMMAND_INTX_DISABLE) as u32 },
        ],
{
    let cap = match detect_msix(device, cfg) {
        Some(c) => c,
        None => {
            return Err(MsiError::NotSupported);
        },
    };
    let ctrl = cfg.read_u16(cap.cap_offset as usize + 2);
    let command = cfg.read_u16(PCI_COMMAND as usize);
    let mut w: Vec<ConfigWrite> = Vec::new();
    w.push(ConfigWrite { offset: cap.cap_offset + 2, width: 2, value: (ctrl & !MSIX_ENABLE) as u32 });
    w.push(ConfigWrite { offset: PCI_COMMAND, width: 2, value: (command & !PCI_COMMAND_INTX_DISABLE) as u32 });
    proof {
        assert(w@ =~= seq![
            ConfigWrite { offset: (cap.cap_offset + 2) as u16, width: 2, value: (ctrl & !MSIX_ENABLE) as u32 },
            ConfigWrite { offset: PCI_COMMAND, width: 2, value: (command & !PCI_COMMAND_INTX_DISABLE) as u32 },
        ]);
    }
    Ok(w)
}

} // verus!
