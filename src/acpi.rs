use vstd::prelude::*;
use crate::paging::PagingError;
use crate::pci::le32;

verus! {

/// Errors of the ACPI table reader.
#[derive(Debug, Clone, Copy, PartialEq, Eq, Structural)]
pub enum AcpiError {
    AddressConversionFailed,
    ChecksumFailed,
    NotSupported,
    PagingError(PagingError),
}

impl From<PagingError> for AcpiError {
    fn from(e: PagingError) -> (r: AcpiError) {
        AcpiError::PagingError(e)
    }
}

impl vstd::std_specs::convert::FromSpecImpl<PagingError> for AcpiError {
    open spec fn obeys_from_spec() -> bool {
        true
    }

    open spec fn from_spec(v: PagingError) -> AcpiError {
        AcpiError::PagingError(v)
    }
}

/// One entry of the MCFG table: the memory-mapped configuration space of
/// the PCI buses `start_bus ..= end_bus` of a segment group.
#[derive(Debug, Clone, Copy, PartialEq, Eq, Structural)]
pub struct McfgEntry {
    pub base_address: u64,
    pub pci_segment_group: u16,
    pub start_bus: u8,
    pub end_bus: u8,
}

impl McfgEntry {
    /// Address of the configuration register at `offset` of function
    /// `function` of device `device` on bus `bus`:
    /// `base + (bus − start_bus)·2^20 + device·2^15 + function·2^12 + offset`.
    pub open spec fn spec_config_address(&self, bus: u8, device: u8, function: u8, offset: u16) -> int {
        self.base_address + (bus - self.start_bus) * 0x10_0000 + device * 0x8000 + function * 0x1000 + offset
    }

    /// The configuration address, or `None` when the bus is not in this
    /// entry's range, a field is out of range or the address overflows.
    pub fn config_address(&self, bus: u8, device: u8, function: u8, offset: u16) -> (r: Option<u64>)
        ensures
            (self.start_bus <= bus <= self.end_bus && device < 32 && function < 8 && offset < 4096
                && self.spec_config_address(bus, device, function, offset) <= u64::MAX)
                <==> r is Some,
            r matches Some(a) ==> a == self.spec_config_address(bus, device, function, offset),
    {
        if bus < self.start_bus || bus > self.end_bus || device >= 32 || function >= 8 || offset >= 4096 {
            return None;
        }
        let rel = ((bus - self.start_bus) as u64) * 0x10_0000 + (device as u64) * 0x8000 + (function as u64) * 0x1000
            + offset as u64;
        self.base_address.checked_add(rel)
    }
}

/// Sum of the bytes.
pub open spec fn byte_sum(s: Seq<u8>) -> nat
    decreases s.len(),
{
    if s.len() == 0 {
        0
    } else {
        byte_sum(s.drop_last()) + s.last() as nat
    }
}

/// Whether the bytes of a table sum to zero modulo 256, as every ACPI table's must.
pub fn verify_checksum(bytes: &[u8]) -> (r: bool)
    ensures
        r == (byte_sum(bytes@) % 256 == 0),
{
    let mut sum: u8 = 0;
    let mut i: usize = 0;
    while i < bytes.len()
        invariant
            i <= bytes@.len(),
            sum == byte_sum(bytes@.take(i as int)) % 256,
        decreases bytes@.len() - i,
    {
        proof {
            assert(bytes@.take(i + 1).drop_last() =~= bytes@.take(i as int));
        }
        sum = sum.wrapping_add(bytes[i]);
        i = i + 1;
    }
    proof {
        assert(bytes@.take(i as int) =~= bytes@);
    }
    sum == 0
}

/// What the ACPI tables tell the kernel.
pub struct AcpiInfo {
    pub local_apic_address: u64,
    pub io_apic_addresses: Vec<u64>,
    pub hpet_address: Option<u64>,
    pub mcfg: Vec<McfgEntry>,
}

/// Physical address of the local APIC, if the tables gave one.
pub fn get_local_apic_address(info: &AcpiInfo) -> (r: Option<u64>)
    ensures
        info.local_apic_address == 0 ==> r is None,
        info.local_apic_address != 0 ==> r == Some(info.local_apic_address),
{
    if info.local_apic_address == 0 {
        None
    } else {
        Some(info.local_apic_address)
    }
}


/// Size of the MADT before its entries: the common header, the local APIC
/// address and the flags.
pub const MADT_HEADER_SIZE: usize = 44;

/// An I/O APIC listed in the MADT.
#[derive(Debug, Clone, Copy, PartialEq, Eq, Structural)]
pub struct IoApicEntry {
    pub id: u8,
    pub address: u32,
    pub gsi_base: u32,
}

/// What the MADT says.
pub struct MadtInfo {
    pub local_apic_address: u32,
    pub flags: u32,
    /// APIC ids of the enabled processors, in table order.
    pub cpu_apic_ids: Vec<u8>,
    pub io_apics: Vec<IoApicEntry>,
}

/// The entries of a MADT from offset `off` to `end`, added to `cpus` and
/// `ios`: an enabled processor (type 0, flag bit 0) adds its APIC id, an
/// I/O APIC (type 1) its id, address and interrupt base; other types are
/// skipped. `None` when an entry is shorter than its header or runs past `end`.
pub open spec fn madt_from(b: Seq<u8>, off: int, end: int, cpus: Seq<u8>, ios: Seq<IoApicEntry>) -> Option<(Seq<u8>, Seq<IoApicEntry>)>
    decreases end - off,
{
    if off >= end {
        Some((cpus, ios))
    } else if off + 2 > end || b[off + 1] < 2 || off + b[off + 1] > end {
        None
    } else {
        let t = b[off];
        let len = b[off + 1] as int;
        let c2 = if t == 0 && len >= 8 && le32(b, off + 4) as u32 & 1 != 0 { cpus.push(b[off + 3]) } else { cpus };
        let i2 = if t == 1 && len >= 12 {
            ios.push(IoApicEntry { id: b[off + 2], address: le32(b, off + 4) as u32, gsi_base: le32(b, off + 8) as u32 })
        } else {
            ios
        };
        madt_from(b, off + len, end, c2, i2)
    }
}

fn read_le32(b: &[u8], off: usize) -> (r: u32)
    requires
        off + 4 <= b@.len(),
    ensures
        r == le32(b@, off as int),
{
    (b[off] as u32) + (b[off + 1] as u32) * 0x100 + (b[off + 2] as u32) * 0x1_0000 + (b[off + 3] as u32) * 0x100_0000
}

/// Parses a MADT held in `table`: its length must fit in `table` and be at
/// least the header, its bytes must sum to zero, and its entries must tile
/// the rest of it.
pub fn parse_madt(table: &[u8]) -> (r: Result<MadtInfo, AcpiError>)
    ensures
        ({
            let b = table@;
            let len = if b.len() >= 8 { le32(b, 4) } else { 0 };
            &&& (b.len() < MADT_HEADER_SIZE || len < MADT_HEADER_SIZE || len > b.len()) ==> r == Err::<MadtInfo, AcpiError>(AcpiError::NotSupported)
            &&& (b.len() >= MADT_HEADER_SIZE && MADT_HEADER_SIZE <= len <= b.len()) ==> {
                &&& byte_sum(b.take(len)) % 256 != 0 ==> r == Err::<MadtInfo, AcpiError>(AcpiError::ChecksumFailed)
                &&& byte_sum(b.take(len)) % 256 == 0 ==> match madt_from(b, MADT_HEADER_SIZE as int, len, Seq::empty(), Seq::empty()) {
                    None => r == Err::<MadtInfo, AcpiError>(AcpiError::NotSupported),
                    Some((cpus, ios)) => r is Ok && r->Ok_0.local_apic_address == le32(b, 36) && r->Ok_0.flags == le32(b, 40)
                        && r->Ok_0.cpu_apic_ids@ == cpus && r->Ok_0.io_apics@ == ios,
                }
            }
        }),
{
    if table.len() < MADT_HEADER_SIZE {
        return Err(AcpiError::NotSupported);
    }
    let length = read_le32(table, 4) as usize;
    if length < MADT_HEADER_SIZE || length > table.len() {
        return Err(AcpiError::NotSupported);
    }
    let mut body: Vec<u8> = Vec::new();
    let mut i: usize = 0;
    while i < length
        invariant
            i <= length <= table@.len(),
            length == le32(table@, 4),
            MADT_HEADER_SIZE <= length,
            body@ == table@.take(i as int),
        decreases length - i,
    {
        body.push(table[i]);
        i = i + 1;
        assert(body@ =~= table@.take(i as int));
    }
    if !verify_checksum(body.as_slice()) {
        return Err(AcpiError::ChecksumFailed);
    }
    let local_apic_address = read_le32(table, 36);
    let flags = read_le32(table, 40);
    let mut cpus: Vec<u8> = Vec::new();
    let mut ios: Vec<IoApicEntry> = Vec::new();
    let mut off: usize = MADT_HEADER_SIZE;
    while off < length
        invariant
            MADT_HEADER_SIZE <= off <= length,
            length <= table@.len(),
            length == le32(table@, 4),
            byte_sum(table@.take(length as int)) % 256 == 0,
            local_apic_address == le32(table@, 36),
            flags == le32(table@, 40),
            madt_from(table@, MADT_HEADER_SIZE as int, length as int, Seq::empty(), Seq::empty())
                == madt_from(table@, off as int, length as int, cpus@, ios@),
        decreases length - off,
    {
        if length - off < 2 || (table[off + 1] as usize) < 2 || table[off + 1] as usize > length - off {
            return Err(AcpiError::NotSupported);
        }
        let t = table[off];
        let len = table[off + 1] as usize;
        if t == 0 && len >= 8 && read_le32(table, off + 4) & 1 != 0 {
            cpus.push(table[off + 3]);
        }
        if t == 1 && len >= 12 {
            ios.push(IoApicEntry { id: table[off + 2], address: read_le32(table, off + 4), gsi_base: read_le32(table, off + 8) });
        }
        off = off + len;
    }
    Ok(MadtInfo { local_apic_address, flags, cpu_apic_ids: cpus, io_apics: ios })
}

} // verus!
