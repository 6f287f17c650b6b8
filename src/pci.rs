use vstd::prelude::*;

verus! {

/// Size of the configuration space that a device header occupies.
pub const CONFIG_SPACE_SIZE: usize = 256;

/// Offset of the status register.
pub const PCI_STATUS: usize = 0x06;

/// Status bit telling that the device has a capability list.
pub const PCI_STATUS_CAP_LIST: u8 = 0x10;

/// Offset of the pointer to the first capability.
pub const PCI_CAP_POINTER: usize = 0x34;

/// Capability id of MSI.
pub const CAP_ID_MSI: u8 = 0x05;

/// Capability id of MSI-X.
pub const CAP_ID_MSIX: u8 = 0x11;

/// Most capabilities followed before the walk gives up (a list may loop).
pub const MAX_CAPABILITY_HOPS: usize = 48;

/// A copy of the 256 bytes of a function's configuration space.
pub struct ConfigSpace {
    bytes: Vec<u8>,
}

/// Little-endian 16-bit value at `off`.
pub open spec fn le16(b: Seq<u8>, off: int) -> int {
    b[off] + b[off + 1] * 0x100
}

/// Little-endian 32-bit value at `off`.
pub open spec fn le32(b: Seq<u8>, off: int) -> int {
    le16(b, off) + le16(b, off + 2) * 0x1_0000
}

/// Capability id found by following the list from `ptr` for at most `fuel`
/// entries: the offset of the first entry with id `cap_id`.
pub open spec fn cap_walk(b: Seq<u8>, ptr: u8, cap_id: u8, fuel: nat) -> Option<u16>
    decreases fuel,
{
    if fuel == 0 || ptr == 0 {
        None
    } else if b[ptr as int] == cap_id {
        Some(ptr as u16)
    } else {
        cap_walk(b, b[ptr + 1] & 0xFC, cap_id, (fuel - 1) as nat)
    }
}

impl ConfigSpace {
    pub closed spec fn view_bytes(&self) -> Seq<u8> {
        self.bytes@
    }

    pub open spec fn wf(&self) -> bool {
        self.view_bytes().len() == CONFIG_SPACE_SIZE
    }

    /// The configuration space holding `bytes`; `None` unless there are 256.
    pub fn from_bytes(bytes: Vec<u8>) -> (r: Option<ConfigSpace>)
        ensures
            bytes@.len() == CONFIG_SPACE_SIZE <==> r is Some,
            r matches Some(c) ==> c.view_bytes() == bytes@,
    {
        if bytes.len() == CONFIG_SPACE_SIZE {
            Some(ConfigSpace { bytes })
        } else {
            None
        }
    }

    pub fn read_u8(&self, off: usize) -> (r: u8)
        requires
            self.wf(),
            off < CONFIG_SPACE_SIZE,
        ensures
            r == self.view_bytes()[off as int],
    {
        self.bytes[off]
    }

    pub fn read_u16(&self, off: usize) -> (r: u16)
        requires
            self.wf(),
            off + 1 < CONFIG_SPACE_SIZE,
        ensures
            r == le16(self.view_bytes(), off as int),
    {
        (self.bytes[off] as u16) + (self.bytes[off + 1] as u16) * 0x100
    }

    pub fn read_u32(&self, off: usize) -> (r: u32)
        requires
            self.wf(),
            off + 3 < CONFIG_SPACE_SIZE,
        ensures
            r == le32(self.view_bytes(), off as int),
    {
        (self.read_u16(off) as u32) + (self.read_u16(off + 2) as u32) * 0x1_0000
    }
}

/// What identifies a PCI function.
#[derive(Debug, Clone, Copy, PartialEq, Eq, Structural)]
pub struct PciDevice {
    pub bus: u8,
    pub device: u8,
    pub function: u8,
    pub vendor_id: u16,
    pub device_id: u16,
    pub class_code: u8,
    pub subclass: u8,
    pub prog_if: u8,
    pub revision: u8,
    pub header_type: u8,
}

/// A decoded base address register.
#[derive(Debug, Clone, Copy, PartialEq, Eq, Structural)]
pub struct BarInfo {
    pub base_address: u64,
    pub is_memory: bool,
    pub is_64bit: bool,
    pub prefetchable: bool,
}

impl PciDevice {
    /// The function at `bus:device.function` whose configuration space is
    /// `cfg`; `None` when no device answers (vendor id `0xFFFF`).
    pub fn from_config(bus: u8, device: u8, function: u8, cfg: &ConfigSpace) -> (r: Option<PciDevice>)
        requires
            cfg.wf(),
        ensures
            le16(cfg.view_bytes(), 0) == 0xFFFF <==> r is None,
            r matches Some(d) ==> d.bus == bus && d.device == device && d.function == function
                && d.vendor_id == le16(cfg.view_bytes(), 0) && d.device_id == le16(cfg.view_bytes(), 2)
                && d.revision == cfg.view_bytes()[8] && d.prog_if == cfg.view_bytes()[9]
                && d.subclass == cfg.view_bytes()[10] && d.class_code == cfg.view_bytes()[11]
                && d.header_type == cfg.view_bytes()[14],
    {
        let vendor_id = cfg.read_u16(0);
        if vendor_id == 0xFFFF {
            return None;
        }
        Some(PciDevice {
            bus,
            device,
            function,
            vendor_id,
            device_id: cfg.read_u16(2),
            class_code: cfg.read_u8(0x0B),
            subclass: cfg.read_u8(0x0A),
            prog_if: cfg.read_u8(0x09),
            revision: cfg.read_u8(0x08),
            header_type: cfg.read_u8(0x0E),
        })
    }

    /// Offset of the capability with id `cap_id`, following the list for at
    /// most 48 entries; `None` when the device has no list or no such entry.
    pub fn find_capability(&self, cfg: &ConfigSpace, cap_id: u8) -> (r: Option<u16>)
        requires
            cfg.wf(),
        ensures
            cfg.view_bytes()[PCI_STATUS as int] & PCI_STATUS_CAP_LIST == 0 ==> r is None,
            cfg.view_bytes()[PCI_STATUS as int] & PCI_STATUS_CAP_LIST != 0 ==> r == cap_walk(
                cfg.view_bytes(),
                cfg.view_bytes()[PCI_CAP_POINTER as int] & 0xFC,
                cap_id,
                MAX_CAPABILITY_HOPS as nat,
            ),
    {
        let status = cfg.read_u8(PCI_STATUS);
        if status & PCI_STATUS_CAP_LIST == 0 {
            return None;
        }
        let first = cfg.read_u8(PCI_CAP_POINTER);
        let mut cap_ptr = first & 0xFC;
        assert(first & 0xFC <= 0xFC) by (bit_vector);
        let mut hops: usize = 0;
        while hops < MAX_CAPABILITY_HOPS
            invariant
                cfg.wf(),
                hops <= MAX_CAPABILITY_HOPS,
                cap_ptr <= 0xFC,
                cfg.view_bytes()[PCI_STATUS as int] & PCI_STATUS_CAP_LIST != 0,
                cap_walk(cfg.view_bytes(), cfg.view_bytes()[PCI_CAP_POINTER as int] & 0xFC, cap_id, MAX_CAPABILITY_HOPS as nat)
                    == cap_walk(cfg.view_bytes(), cap_ptr, cap_id, (MAX_CAPABILITY_HOPS - hops) as nat),
            decreases MAX_CAPABILITY_HOPS - hops,
        {
            if cap_ptr == 0 {
                return None;
            }
            let current_id = cfg.read_u8(cap_ptr as usize);
            if current_id == cap_id {
                return Some(cap_ptr as u16);
            }
            let next = cfg.read_u8(cap_ptr as usize + 1);
            assert(next & 0xFC <= 0xFC) by (bit_vector);
            cap_ptr = next & 0xFC;
            hops = hops + 1;
        }
        None
    }

    /// Whether the device can signal MSI.
    pub fn supports_msi(&self, cfg: &ConfigSpace) -> (r: bool)
        requires
            cfg.wf(),
        ensures
            r == (cfg.view_bytes()[PCI_STATUS as int] & PCI_STATUS_CAP_LIST != 0 && cap_walk(
                cfg.view_bytes(),
                cfg.view_bytes()[PCI_CAP_POINTER as int] & 0xFC,
                CAP_ID_MSI,
                MAX_CAPABILITY_HOPS as nat,
            ) is Some),
    {
        self.find_capability(cfg, CAP_ID_MSI).is_some()
    }

    /// Whether the device can signal MSI-X.
    pub fn supports_msix(&self, cfg: &ConfigSpace) -> (r: bool)
        requires
            cfg.wf(),
        ensures
            r == (cfg.view_bytes()[PCI_STATUS as int] & PCI_STATUS_CAP_LIST != 0 && cap_walk(
                cfg.view_bytes(),
                cfg.view_bytes()[PCI_CAP_POINTER as int] & 0xFC,
                CAP_ID_MSIX,
                MAX_CAPABILITY_HOPS as nat,
            ) is Some),
    {
        self.find_capability(cfg, CAP_ID_MSIX).is_some()
    }

    /// Decodes base address register `bar_index` (0 to 5): `None` when it is
    /// unused (zero) or a 64-bit register would run past the last one.
    pub fn read_bar(&self, cfg: &ConfigSpace, bar_index: u8) -> (r: Option<BarInfo>)
        requires
            cfg.wf(),
        ensures
            r == decode_bar(cfg.view_bytes(), bar_index),
    {
        if bar_index > 5 {
            return None;
        }
        let bar_offset = 0x10 + (bar_index as usize) * 4;
        let bar_value = cfg.read_u32(bar_offset);
        if bar_value == 0 {
            return None;
        }
        if bar_value & 0x01 == 0 {
            let is_64bit = (bar_value >> 1) & 0x03 == 0x02;
            let prefetchable = bar_value & 0x08 != 0;
            let low = (bar_value & 0xFFFF_FFF0) as u64;
            let base_address = if is_64bit {
                if bar_index > 4 {
                    return None;
                }
                let upper = cfg.read_u32(bar_offset + 4) as u64;
                (upper << 32) | low
            } else {
                low
            };
            Some(BarInfo { base_address, is_memory: true, is_64bit, prefetchable })
        } else {
            Some(BarInfo { base_address: (bar_value & 0xFFFF_FFFC) as u64, is_memory: false, is_64bit: false, prefetchable: false })
        }
    }

    /// Name of the device's class.
    pub fn class_name(&self) -> (r: &'static str)
        ensures
            r == pci_class_name(self.class_code),
    {
        match self.class_code {
            0x00 => "Unclassified",
            0x01 => "Mass Storage Controller",
            0x02 => "Network Controller",
            0x03 => "Display Controller",
            0x04 => "Multimedia Controller",
            0x05 => "Memory Controller",
            0x06 => "Bridge Device",
            0x07 => "Simple Communication Controller",
            0x08 => "Base System Peripheral",
            0x09 => "Input Device Controller",
            0x0A => "Docking Station",
            0x0B => "Processor",
            0x0C => "Serial Bus Controller",
            0x0D => "Wireless Controller",
            0x0E => "Intelligent Controller",
            0x0F => "Satellite Communication Controller",
            0x10 => "Encryption Controller",
            0x11 => "Signal Processing Controller",
            0xFF => "Unknown",
            _ => "Reserved",
        }
    }
}

/// Name of PCI class `code`.
pub open spec fn pci_class_name(code: u8) -> &'static str {
    match code {
        0x00 => "Unclassified",
        0x01 => "Mass Storage Controller",
        0x02 => "Network Controller",
        0x03 => "Display Controller",
        0x04 => "Multimedia Controller",
        0x05 => "Memory Controller",
        0x06 => "Bridge Device",
        0x07 => "Simple Communication Controller",
        0x08 => "Base System Peripheral",
        0x09 => "Input Device Controller",
        0x0A => "Docking Station",
        0x0B => "Processor",
        0x0C => "Serial Bus Controller",
        0x0D => "Wireless Controller",
        0x0E => "Intelligent Controller",
        0x0F => "Satellite Communication Controller",
        0x10 => "Encryption Controller",
        0x11 => "Signal Processing Controller",
        0xFF => "Unknown",
        _ => "Reserved",
    }
}

/// Base address register `i` of configuration space `b`, decoded: bit 0
/// tells I/O from memory space; for memory, bits 1-2 give the width (`10`
/// is 64 bits, whose upper half is the next register) and bit 3 tells
/// prefetchable memory.
pub open spec fn decode_bar(b: Seq<u8>, i: u8) -> Option<BarInfo> {
    if i > 5 {
        None
    } else {
        let off = 0x10 + i * 4;
        let v = le32(b, off) as u32;
        if v == 0 {
            None
        } else if v & 0x01 == 0 {
            let is_64bit = (v >> 1) & 0x03 == 0x02;
            let low = (v & 0xFFFF_FFF0) as u64;
            if is_64bit && i > 4 {
                None
            } else {
                Some(BarInfo {
                    base_address: if is_64bit { ((le32(b, off + 4) as u32 as u64) << 32) | low } else { low },
                    is_memory: true,
                    is_64bit,
                    prefetchable: v & 0x08 != 0,
                })
            }
        } else {
            Some(BarInfo { base_address: (v & 0xFFFF_FFFC) as u64, is_memory: false, is_64bit: false, prefetchable: false })
        }
    }
}

/// The first device among `devices` with the given vendor and device ids.
pub fn find_device(devices: &Vec<PciDevice>, vendor_id: u16, device_id: u16) -> (r: Option<PciDevice>)
    ensures
        r is None <==> forall|i: int| 0 <= i < devices@.len() ==> !(#[trigger] devices@[i].vendor_id == vendor_id && devices@[i].device_id == device_id),
        r matches Some(d) ==> exists|i: int| 0 <= i < devices@.len() && #[trigger] devices@[i] == d && d.vendor_id == vendor_id && d.device_id == device_id
            && forall|j: int| 0 <= j < i ==> !(#[trigger] devices@[j].vendor_id == vendor_id && devices@[j].device_id == device_id),
{
    let mut i: usize = 0;
    while i < devices.len()
        invariant
            i <= devices@.len(),
            forall|j: int| 0 <= j < i ==> !(#[trigger] devices@[j].vendor_id == vendor_id && devices@[j].device_id == device_id),
        decreases devices@.len() - i,
    {
        let d = devices[i];
        if d.vendor_id == vendor_id && d.device_id == device_id {
            return Some(d);
        }
        i = i + 1;
    }
    None
}

} // verus!
