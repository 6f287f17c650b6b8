use vitros_kernel::acpi::{get_local_apic_address, verify_checksum, AcpiError, AcpiInfo, McfgEntry};
use vitros_kernel::elf::{Elf64Header, Elf64ProgramHeader};
use vitros_kernel::mtrr::MemoryType;
use vitros_kernel::paging::PagingError;
use vitros_kernel::timer::{ms_to_ns, us_to_ns};

fn header(ident: [u8; 16]) -> Elf64Header {
    Elf64Header {
        e_ident: ident,
        e_type: 2,
        e_machine: 0x3e,
        e_version: 1,
        e_entry: 0x10_0000,
        e_phoff: 64,
        e_shoff: 0,
        e_flags: 0,
        e_ehsize: 64,
        e_phentsize: 56,
        e_phnum: 1,
        e_shentsize: 0,
        e_shnum: 0,
        e_shstrndx: 0,
    }
}

#[test]
fn elf_header_validity() {
    let mut ident = [0u8; 16];
    ident[..4].copy_from_slice(&[0x7f, b'E', b'L', b'F']);
    ident[4] = 2;
    assert!(header(ident).is_valid());
    ident[4] = 1;
    assert!(!header(ident).is_valid());
    ident[4] = 2;
    ident[1] = b'X';
    assert!(!header(ident).is_valid());
    let ph = Elf64ProgramHeader { p_type: 1, p_flags: 5, p_offset: 0, p_vaddr: 0, p_paddr: 0, p_filesz: 0, p_memsz: 0, p_align: 0x1000 };
    assert!(ph.is_load());
}

#[test]
fn memory_types() {
    assert_eq!(MemoryType::from_u8(0), MemoryType::Uncacheable);
    assert_eq!(MemoryType::from_u8(1), MemoryType::WriteCombining);
    assert_eq!(MemoryType::from_u8(6), MemoryType::WriteBack);
    assert_eq!(MemoryType::from_u8(2), MemoryType::Unknown);
    assert_eq!(MemoryType::WriteBack.as_str(), "WB (Write-Back)");
    assert_eq!(MemoryType::WriteThrough.to_u8(), 4);
}

#[test]
fn acpi_checksums() {
    assert!(verify_checksum(&[]));
    assert!(verify_checksum(&[0x10, 0xF0]));
    assert!(verify_checksum(&[0xFF, 0xFF, 0x02]));
    assert!(!verify_checksum(&[0x01]));
}

#[test]
fn acpi_errors_and_local_apic() {
    assert_eq!(AcpiError::from(PagingError::InvalidAddress), AcpiError::PagingError(PagingError::InvalidAddress));
    let info = AcpiInfo { local_apic_address: 0xFEE0_0000, io_apic_addresses: vec![0xFEC0_0000], hpet_address: None, mcfg: Vec::new() };
    assert_eq!(get_local_apic_address(&info), Some(0xFEE0_0000));
    let none = AcpiInfo { local_apic_address: 0, io_apic_addresses: Vec::new(), hpet_address: None, mcfg: Vec::new() };
    assert_eq!(get_local_apic_address(&none), None);
}

#[test]
fn mcfg_config_addresses() {
    let e = McfgEntry { base_address: 0xE000_0000, pci_segment_group: 0, start_bus: 0, end_bus: 255 };
    assert_eq!(e.config_address(0, 0, 0, 0), Some(0xE000_0000));
    assert_eq!(e.config_address(1, 2, 3, 0x10), Some(0xE000_0000 + 0x10_0000 + 2 * 0x8000 + 3 * 0x1000 + 0x10));
    assert_eq!(e.config_address(0, 32, 0, 0), None);
    let narrow = McfgEntry { base_address: 0xE000_0000, pci_segment_group: 0, start_bus: 2, end_bus: 3 };
    assert_eq!(narrow.config_address(1, 0, 0, 0), None);
    assert_eq!(narrow.config_address(3, 0, 0, 0), Some(0xE010_0000));
}

#[test]
fn timer_conversions() {
    assert_eq!(us_to_ns(5), 5000);
    assert_eq!(ms_to_ns(5), 5_000_000);
    assert_eq!(ms_to_ns(u64::MAX), u64::MAX);
}

use vitros_kernel::interrupts::{
    decode_page_fault_error, exception_action, has_error_code, set_idt_entry, ExceptionAction, Idt, IdtEntry,
};

#[test]
fn interrupt_gates_encode_the_handler() {
    let e = IdtEntry::new(0xFFFF_8000_0012_3456, 0x08, 0);
    assert_eq!(e.offset_low, 0x3456);
    assert_eq!(e.offset_middle, 0x0012);
    assert_eq!(e.offset_high, 0xFFFF_8000);
    assert_eq!(e.attributes, 0x8E);
    assert_eq!(e.handler(), 0xFFFF_8000_0012_3456);
    assert_eq!(IdtEntry::new(0x1000, 0x08, 3).attributes, 0xEE);
    let mut idt = Idt::new();
    assert_eq!(idt.entry(14), IdtEntry::null());
    set_idt_entry(&mut idt, 32, 0xFFFF_8000_0000_1000, 0x08);
    assert_eq!(idt.entry(32).handler(), 0xFFFF_8000_0000_1000);
    assert_eq!(idt.entry(32).selector, 0x08);
    assert_eq!(idt.entry(31), IdtEntry::null());
}

#[test]
fn exceptions_with_error_codes_and_outcomes() {
    assert!(has_error_code(8));
    assert!(has_error_code(13));
    assert!(has_error_code(14));
    assert!(!has_error_code(0));
    assert!(!has_error_code(3));
    assert_eq!(exception_action(3), ExceptionAction::Resume);
    assert_eq!(exception_action(14), ExceptionAction::Halt);
    assert_eq!(exception_action(8), ExceptionAction::Halt);
}

#[test]
fn page_fault_error_codes() {
    let e = decode_page_fault_error(0x02);
    assert!(!e.present && e.write && !e.user && !e.reserved_bit && !e.instruction_fetch);
    let e = decode_page_fault_error(0x15);
    assert!(e.present && !e.write && e.user && !e.reserved_bit && e.instruction_fetch);
}

use vitros_kernel::interrupts::exception_report;

#[test]
fn guard_page_fault_report() {
    let guard = Some(0x1F_F000);
    let r = exception_report(14, 0x02, 0x1F_FFF0, guard);
    assert_eq!(r.error_code, Some(0x02));
    assert_eq!(r.fault_address, Some(0x1F_FFF0));
    assert!(r.stack_overflow);
    let pf = r.page_fault.unwrap();
    assert!(!pf.present && pf.write);
    assert_eq!(r.action, ExceptionAction::Halt);
    let r = exception_report(14, 0x00, 0x40_0000, guard);
    assert!(!r.stack_overflow);
    let r = exception_report(3, 0x55, 0, guard);
    assert_eq!(r.error_code, None);
    assert_eq!(r.action, ExceptionAction::Resume);
    let r = exception_report(13, 0x1B, 0, guard);
    assert_eq!(r.error_code, Some(0x1B));
    assert_eq!(r.page_fault, None);
    let sel = r.selector.unwrap();
    assert!(sel.external);
    assert_eq!((sel.table, sel.index), (1, 3));
    assert_eq!(exception_report(14, 0, 0, guard).selector, None);
}

#[test]
fn class_and_memory_type_names() {
    assert_eq!(MemoryType::Uncacheable.as_str(), "UC (Uncacheable)");
    assert_eq!(MemoryType::Unknown.as_str(), "Unknown");
}

use vitros_kernel::acpi::{parse_madt, IoApicEntry};

fn madt() -> Vec<u8> {
    let mut t = vec![0u8; 44];
    t[0..4].copy_from_slice(b"APIC");
    t[36..40].copy_from_slice(&0xFEE0_0000u32.to_le_bytes());
    t[40..44].copy_from_slice(&1u32.to_le_bytes());
    t.extend_from_slice(&[0, 8, 0, 0, 1, 0, 0, 0]);
    t.extend_from_slice(&[0, 8, 1, 1, 0, 0, 0, 0]);
    t.extend_from_slice(&[1, 12, 2, 0, 0, 0, 0xC0, 0xFE, 0, 0, 0, 0]);
    t.extend_from_slice(&[2, 10, 0, 0, 0, 0, 0, 0, 0, 0]);
    let len = t.len() as u32;
    t[4..8].copy_from_slice(&len.to_le_bytes());
    let sum: u8 = t.iter().fold(0u8, |a, b| a.wrapping_add(*b));
    t[9] = 0u8.wrapping_sub(sum);
    t
}

#[test]
fn madt_lists_cpus_and_io_apics() {
    let info = parse_madt(&madt()).unwrap();
    assert_eq!(info.local_apic_address, 0xFEE0_0000);
    assert_eq!(info.flags, 1);
    assert_eq!(info.cpu_apic_ids, vec![0]);
    assert_eq!(info.io_apics, vec![IoApicEntry { id: 2, address: 0xFEC0_0000, gsi_base: 0 }]);
}

#[test]
fn madt_errors() {
    let mut t = madt();
    t[9] = t[9].wrapping_add(1);
    assert!(matches!(parse_madt(&t), Err(AcpiError::ChecksumFailed)));
    assert!(matches!(parse_madt(&t[..20]), Err(AcpiError::NotSupported)));
    let mut bad = madt();
    bad[45] = 1;
    bad[9] = bad[9].wrapping_add(7);
    assert!(matches!(parse_madt(&bad), Err(AcpiError::NotSupported)));
}
