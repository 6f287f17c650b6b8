use vstd::prelude::*;

verus! {

/// Memory type of an MTRR or PAT entry.
#[derive(Debug, Clone, Copy, PartialEq, Eq, Structural)]
pub enum MemoryType {
    Uncacheable,
    WriteCombining,
    WriteThrough,
    WriteProtected,
    WriteBack,
    UncacheableMinus,
    Unknown,
}

impl MemoryType {
    pub open spec fn spec_from_u8(value: u8) -> MemoryType {
        match value {
            0 => MemoryType::Uncacheable,
            1 => MemoryType::WriteCombining,
            4 => MemoryType::WriteThrough,
            5 => MemoryType::WriteProtected,
            6 => MemoryType::WriteBack,
            7 => MemoryType::UncacheableMinus,
            _ => MemoryType::Unknown,
        }
    }

    /// The type encoded by `value` in a register field.
    pub fn from_u8(value: u8) -> (r: MemoryType)
        ensures
            r == MemoryType::spec_from_u8(value),
    {
        match value {
            0 => MemoryType::Uncacheable,
            1 => MemoryType::WriteCombining,
            4 => MemoryType::WriteThrough,
            5 => MemoryType::WriteProtected,
            6 => MemoryType::WriteBack,
            7 => MemoryType::UncacheableMinus,
            _ => MemoryType::Unknown,
        }
    }

    /// The register encoding of the type (`0xFF` for an unknown one).
    pub fn to_u8(&self) -> (r: u8)
        ensures
            *self != MemoryType::Unknown ==> MemoryType::spec_from_u8(r) == *self,
    {
        match self {
            MemoryType::Uncacheable => 0,
            MemoryType::WriteCombining => 1,
            MemoryType::WriteThrough => 4,
            MemoryType::WriteProtected => 5,
            MemoryType::WriteBack => 6,
            MemoryType::UncacheableMinus => 7,
            MemoryType::Unknown => 0xFF,
        }
    }

    pub open spec fn spec_name(self) -> &'static str {
        match self {
            MemoryType::Uncacheable => "UC (Uncacheable)",
            MemoryType::WriteCombining => "WC (Write-Combining)",
            MemoryType::WriteThrough => "WT (Write-Through)",
            MemoryType::WriteProtected => "WP (Write-Protected)",
            MemoryType::WriteBack => "WB (Write-Back)",
            MemoryType::UncacheableMinus => "UC- (Uncacheable Minus)",
            MemoryType::Unknown => "Unknown",
        }
    }

    /// A human-readable name.
    pub fn as_str(&self) -> (r: &'static str)
        ensures
            r == self.spec_name(),
    {
        match self {
            MemoryType::Uncacheable => "UC (Uncacheable)",
            MemoryType::WriteCombining => "WC (Write-Combining)",
            MemoryType::WriteThrough => "WT (Write-Through)",
            MemoryType::WriteProtected => "WP (Write-Protected)",
            MemoryType::WriteBack => "WB (Write-Back)",
            MemoryType::UncacheableMinus => "UC- (Uncacheable Minus)",
            MemoryType::Unknown => "Unknown",
        }
    }
}

} // verus!
