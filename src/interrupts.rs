use vstd::prelude::*;
use crate::paging::PAGE_SIZE;
use crate::stack::is_guard_page_fault;

verus! {

pub const VECTOR_DIVIDE_ERROR: u8 = 0;
pub const VECTOR_DEBUG: u8 = 1;
pub const VECTOR_BREAKPOINT: u8 = 3;
pub const VECTOR_INVALID_OPCODE: u8 = 6;
pub const VECTOR_DOUBLE_FAULT: u8 = 8;
pub const VECTOR_GENERAL_PROTECTION: u8 = 13;
pub const VECTOR_PAGE_FAULT: u8 = 14;

/// Vector of the timer interrupt, the first above the exceptions.
pub const VECTOR_TIMER: u8 = 32;

/// Number of gates in the table.
pub const IDT_ENTRIES: usize = 256;

/// Attribute bits of a present 64-bit interrupt gate.
pub const INTERRUPT_GATE: u8 = 0x8E;

/// One 16-byte gate of the interrupt descriptor table.
#[derive(Debug, Clone, Copy, PartialEq, Eq, Structural)]
pub struct IdtEntry {
    pub offset_low: u16,
    pub selector: u16,
    pub ist: u8,
    pub attributes: u8,
    pub offset_middle: u16,
    pub offset_high: u32,
    pub reserved: u32,
}

impl IdtEntry {
    /// The handler address held in the entry.
    pub open spec fn spec_handler(self) -> u64 {
        (self.offset_low as u64) | ((self.offset_middle as u64) << 16) | ((self.offset_high as u64) << 32)
    }

    /// A gate that is not present.
    pub fn null() -> (r: IdtEntry)
        ensures
            r == (IdtEntry { offset_low: 0, selector: 0, ist: 0, attributes: 0, offset_middle: 0, offset_high: 0, reserved: 0 }),
    {
        IdtEntry { offset_low: 0, selector: 0, ist: 0, attributes: 0, offset_middle: 0, offset_high: 0, reserved: 0 }
    }

    /// A present interrupt gate to `handler` through code segment `selector`,
    /// callable from privilege level `dpl`.
    pub fn new(handler: u64, selector: u16, dpl: u8) -> (r: IdtEntry)
        ensures
            r.spec_handler() == handler,
            r.selector == selector,
            r.ist == 0,
            r.attributes == (0x80u8 | ((dpl & 0b11) << 5u8) | 0x0Eu8),
            r.reserved == 0,
    {
        let r = IdtEntry {
            offset_low: (handler & 0xFFFF) as u16,
            selector,
            ist: 0,
            attributes: 0x80 | ((dpl & 0b11) << 5) | 0x0E,
            offset_middle: ((handler >> 16) & 0xFFFF) as u16,
            offset_high: ((handler >> 32) & 0xFFFF_FFFF) as u32,
            reserved: 0,
        };
        assert(((handler & 0xFFFF) as u16 as u64) | ((((handler >> 16) & 0xFFFF) as u16 as u64) << 16)
            | ((((handler >> 32) & 0xFFFF_FFFF) as u32 as u64) << 32) == handler) by (bit_vector);
        r
    }

    /// The handler address.
    pub fn handler(&self) -> (r: u64)
        ensures
            r == self.spec_handler(),
    {
        (self.offset_low as u64) | ((self.offset_middle as u64) << 16) | ((self.offset_high as u64) << 32)
    }
}

/// The interrupt descriptor table: 256 gates.
pub struct Idt {
    entries: Vec<IdtEntry>,
}

impl Idt {
    pub closed spec fn view_entries(&self) -> Seq<IdtEntry> {
        self.entries@
    }

    /// A table whose gates are all absent.
    pub fn new() -> (r: Idt)
        ensures
            r.view_entries().len() == IDT_ENTRIES,
            forall|i: int| 0 <= i < IDT_ENTRIES ==> (#[trigger] r.view_entries()[i]).attributes == 0,
    {
        let mut entries: Vec<IdtEntry> = Vec::new();
        let mut i: usize = 0;
        while i < IDT_ENTRIES
            invariant
                i <= IDT_ENTRIES,
                entries@.len() == i,
                forall|j: int| 0 <= j < i ==> (#[trigger] entries@[j]).attributes == 0,
            decreases IDT_ENTRIES - i,
        {
            entries.push(IdtEntry::null());
            i = i + 1;
        }
        Idt { entries }
    }

    /// Gate `vector`.
    pub fn entry(&self, vector: u8) -> (r: IdtEntry)
        requires
            self.view_entries().len() == IDT_ENTRIES,
        ensures
            r == self.view_entries()[vector as int],
    {
        self.entries[vector as usize]
    }
}

/// Installs a kernel interrupt gate to `handler` at `vector`.
pub fn set_idt_entry(idt: &mut Idt, vector: u8, handler: u64, selector: u16)
    requires
        old(idt).view_entries().len() == IDT_ENTRIES,
    ensures
        final(idt).view_entries() == old(idt).view_entries().update(vector as int, final(idt).view_entries()[vector as int]),
        final(idt).view_entries()[vector as int].spec_handler() == handler,
        final(idt).view_entries()[vector as int].selector == selector,
        final(idt).view_entries()[vector as int].attributes == INTERRUPT_GATE,
{
    let gate = IdtEntry::new(handler, selector, 0);
    assert((0x80u8 | ((0u8 & 0b11) << 5u8) | 0x0Eu8) == 0x8Eu8) by (bit_vector);
    idt.entries.set(vector as usize, gate);
}

/// Whether the CPU pushes an error code for exception `vector` (among the
/// handled ones: double fault, general protection, page fault).
pub fn has_error_code(vector: u8) -> (r: bool)
    ensures
        r == (vector == VECTOR_DOUBLE_FAULT || vector == VECTOR_GENERAL_PROTECTION || vector == VECTOR_PAGE_FAULT),
{
    vector == VECTOR_DOUBLE_FAULT || vector == VECTOR_GENERAL_PROTECTION || vector == VECTOR_PAGE_FAULT
}

/// What happens after an exception's diagnostic is printed.
#[derive(Debug, Clone, Copy, PartialEq, Eq, Structural)]
pub enum ExceptionAction {
    Resume,
    Halt,
}

/// A breakpoint returns to the interrupted code; every other exception halts.
pub fn exception_action(vector: u8) -> (r: ExceptionAction)
    ensures
        vector == VECTOR_BREAKPOINT ==> r == ExceptionAction::Resume,
        vector != VECTOR_BREAKPOINT ==> r == ExceptionAction::Halt,
{
    if vector == VECTOR_BREAKPOINT {
        ExceptionAction::Resume
    } else {
        ExceptionAction::Halt
    }
}

/// The bits of a page-fault error code.
#[derive(Debug, Clone, Copy, PartialEq, Eq, Structural)]
pub struct PageFaultError {
    /// The page was present (a protection violation), else not mapped.
    pub present: bool,
    /// The access was a write, else a read.
    pub write: bool,
    /// The access came from user mode.
    pub user: bool,
    /// A reserved bit was set in a table entry.
    pub reserved_bit: bool,
    /// The access was an instruction fetch.
    pub instruction_fetch: bool,
}

pub fn decode_page_fault_error(error_code: u64) -> (r: PageFaultError)
    ensures
        r.present == (error_code & 0x01 != 0),
        r.write == (error_code & 0x02 != 0),
        r.user == (error_code & 0x04 != 0),
        r.reserved_bit == (error_code & 0x08 != 0),
        r.instruction_fetch == (error_code & 0x10 != 0),
{
    PageFaultError {
        present: error_code & 0x01 != 0,
        write: error_code & 0x02 != 0,
        user: error_code & 0x04 != 0,
        reserved_bit: error_code & 0x08 != 0,
        instruction_fetch: error_code & 0x10 != 0,
    }
}


/// The fields of a selector error code (general protection).
#[derive(Debug, Clone, Copy, PartialEq, Eq, Structural)]
pub struct SelectorError {
    /// The fault came from outside the processor.
    pub external: bool,
    /// Descriptor table: 0 GDT, 1 or 3 IDT, 2 LDT.
    pub table: u8,
    /// Index of the descriptor in that table.
    pub index: u16,
}

pub fn decode_selector_error(error_code: u64) -> (r: SelectorError)
    ensures
        r.external == (error_code & 0x1 != 0),
        r.table == ((error_code >> 1) & 0x3) as u8,
        r.index == ((error_code >> 3) & 0x1FFF) as u16,
{
    SelectorError {
        external: error_code & 0x1 != 0,
        table: ((error_code >> 1) & 0x3) as u8,
        index: ((error_code >> 3) & 0x1FFF) as u16,
    }
}

/// What an exception handler reports before it halts or returns.
#[derive(Debug, Clone, Copy, PartialEq, Eq, Structural)]
pub struct ExceptionReport {
    pub vector: u8,
    /// The error code, for the vectors that push one.
    pub error_code: Option<u64>,
    /// The faulting address, for a page fault.
    pub fault_address: Option<u64>,
    /// The decoded error code of a page fault.
    pub page_fault: Option<PageFaultError>,
    /// The decoded selector error code of a general-protection fault.
    pub selector: Option<SelectorError>,
    /// Whether a page fault hit the guard page below the kernel stack.
    pub stack_overflow: bool,
    pub action: ExceptionAction,
}

/// The report of exception `vector` with `error_code` (ignored for vectors
/// without one) and, for a page fault, the faulting address `fault_addr`,
/// given the guard page of the kernel stack.
pub fn exception_report(vector: u8, error_code: u64, fault_addr: u64, guard_page: Option<u64>) -> (r: ExceptionReport)
    ensures
        r.vector == vector,
        r.error_code == if vector == VECTOR_DOUBLE_FAULT || vector == VECTOR_GENERAL_PROTECTION || vector == VECTOR_PAGE_FAULT {
            Some(error_code)
        } else {
            None::<u64>
        },
        vector == VECTOR_PAGE_FAULT ==> r.fault_address == Some(fault_addr) && r.page_fault is Some
            && r.page_fault->0.present == (error_code & 0x01 != 0) && r.page_fault->0.write == (error_code & 0x02 != 0)
            && r.page_fault->0.user == (error_code & 0x04 != 0) && r.page_fault->0.reserved_bit == (error_code & 0x08 != 0)
            && r.page_fault->0.instruction_fetch == (error_code & 0x10 != 0)
            && r.stack_overflow == match guard_page {
                Some(g) => g <= fault_addr < g + PAGE_SIZE,
                None => false,
            },
        vector != VECTOR_PAGE_FAULT ==> r.fault_address is None && r.page_fault is None && !r.stack_overflow,
        vector == VECTOR_GENERAL_PROTECTION ==> r.selector == Some(SelectorError {
            external: error_code & 0x1 != 0,
            table: ((error_code >> 1) & 0x3) as u8,
            index: ((error_code >> 3) & 0x1FFF) as u16,
        }),
        vector != VECTOR_GENERAL_PROTECTION ==> r.selector is None,
        vector == VECTOR_BREAKPOINT ==> r.action == ExceptionAction::Resume,
        vector != VECTOR_BREAKPOINT ==> r.action == ExceptionAction::Halt,
{
    let code = if has_error_code(vector) {
        Some(error_code)
    } else {
        None
    };
    let is_pf = vector == VECTOR_PAGE_FAULT;
    ExceptionReport {
        vector,
        error_code: code,
        fault_address: if is_pf { Some(fault_addr) } else { None },
        page_fault: if is_pf { Some(decode_page_fault_error(error_code)) } else { None },
        selector: if vector == VECTOR_GENERAL_PROTECTION { Some(decode_selector_error(error_code)) } else { None },
        stack_overflow: is_pf && is_guard_page_fault(guard_page, fault_addr),
        action: exception_action(vector),
    }
}

} // verus!
