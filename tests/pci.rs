use vitros_kernel::pci::{find_device, BarInfo, ConfigSpace, PciDevice};

fn config() -> Vec<u8> {
    let mut b = vec![0u8; 256];
    b[0..2].copy_from_slice(&0x8086u16.to_le_bytes());
    b[2..4].copy_from_slice(&0x100Eu16.to_le_bytes());
    b[8] = 3;
    b[0x0B] = 0x02;
    b[0x06] = 0x10;
    b[0x34] = 0x40;
    b[0x40] = 0x01;
    b[0x41] = 0x50;
    b[0x50] = 0x05;
    b[0x51] = 0x00;
    b[0x10..0x14].copy_from_slice(&0xFEBC_000Cu32.to_le_bytes());
    b[0x14..0x18].copy_from_slice(&0x0000_0001u32.to_le_bytes());
    b[0x18..0x1C].copy_from_slice(&0x0000_C001u32.to_le_bytes());
    b[0x24..0x28].copy_from_slice(&0xF000_0004u32.to_le_bytes());
    b
}

#[test]
fn device_identity_from_config_space() {
    let cfg = ConfigSpace::from_bytes(config()).unwrap();
    let d = PciDevice::from_config(0, 3, 0, &cfg).unwrap();
    assert_eq!((d.vendor_id, d.device_id, d.class_code, d.revision), (0x8086, 0x100E, 0x02, 3));
    assert_eq!(d.class_name(), "Network Controller");
    let mut other = d;
    other.class_code = 0x42;
    assert_eq!(other.class_name(), "Reserved");
    let empty = ConfigSpace::from_bytes(vec![0xFF; 256]).unwrap();
    assert!(PciDevice::from_config(0, 4, 0, &empty).is_none());
    assert!(ConfigSpace::from_bytes(vec![0; 10]).is_none());
}

#[test]
fn capability_list_walk() {
    let cfg = ConfigSpace::from_bytes(config()).unwrap();
    let d = PciDevice::from_config(0, 3, 0, &cfg).unwrap();
    assert_eq!(d.find_capability(&cfg, 0x05), Some(0x50));
    assert_eq!(d.find_capability(&cfg, 0x01), Some(0x40));
    assert_eq!(d.find_capability(&cfg, 0x11), None);
    assert!(d.supports_msi(&cfg));
    assert!(!d.supports_msix(&cfg));
    let mut looped = config();
    looped[0x51] = 0x40;
    let cfg = ConfigSpace::from_bytes(looped).unwrap();
    assert_eq!(d.find_capability(&cfg, 0x11), None);
}

#[test]
fn base_address_registers() {
    let cfg = ConfigSpace::from_bytes(config()).unwrap();
    let d = PciDevice::from_config(0, 3, 0, &cfg).unwrap();
    assert_eq!(
        d.read_bar(&cfg, 0),
        Some(BarInfo { base_address: 0x1_FEBC_0000, is_memory: true, is_64bit: true, prefetchable: true })
    );
    assert_eq!(
        d.read_bar(&cfg, 2),
        Some(BarInfo { base_address: 0xC000, is_memory: false, is_64bit: false, prefetchable: false })
    );
    assert_eq!(d.read_bar(&cfg, 3), None);
    assert_eq!(d.read_bar(&cfg, 5), None);
    assert_eq!(d.read_bar(&cfg, 6), None);
}

#[test]
fn device_lookup() {
    let cfg = ConfigSpace::from_bytes(config()).unwrap();
    let d = PciDevice::from_config(0, 3, 0, &cfg).unwrap();
    let devices = vec![d];
    assert_eq!(find_device(&devices, 0x8086, 0x100E), Some(d));
    assert_eq!(find_device(&devices, 0x8086, 0x0000), None);
}

use vitros_kernel::msi::{configure_msi, detect_msix, disable_msi, ConfigWrite, MsiConfig, MsiError};

fn msi_config(ctrl: u16) -> Vec<u8> {
    let mut b = config();
    b[0x04..0x06].copy_from_slice(&0x0007u16.to_le_bytes());
    b[0x52..0x54].copy_from_slice(&ctrl.to_le_bytes());
    b[0x51] = 0x60;
    b[0x60] = 0x11;
    b[0x61] = 0x00;
    b[0x62..0x64].copy_from_slice(&0x0003u16.to_le_bytes());
    b[0x64..0x68].copy_from_slice(&0x0000_2001u32.to_le_bytes());
    b[0x68..0x6C].copy_from_slice(&0x0000_3002u32.to_le_bytes());
    b
}

#[test]
fn msi_setup_writes_in_order() {
    let cfg = ConfigSpace::from_bytes(msi_config(0x0080)).unwrap();
    let d = PciDevice::from_config(0, 3, 0, &cfg).unwrap();
    assert_eq!(configure_msi(&d, &cfg, 10).unwrap_err(), MsiError::InvalidVector { vector: 10 });
    assert_eq!(configure_msi(&d, &cfg, 240).unwrap_err(), MsiError::InvalidVector { vector: 240 });
    let (c, writes) = configure_msi(&d, &cfg, 0x40).unwrap();
    assert_eq!(c, MsiConfig { vector: 0x40, cap_offset: 0x50 });
    assert_eq!(
        writes,
        vec![
            ConfigWrite { offset: 0x52, width: 2, value: 0x0080 },
            ConfigWrite { offset: 0x54, width: 4, value: 0xFEE0_0000 },
            ConfigWrite { offset: 0x58, width: 4, value: 0 },
            ConfigWrite { offset: 0x5C, width: 2, value: 0x40 },
            ConfigWrite { offset: 0x52, width: 2, value: 0x0081 },
            ConfigWrite { offset: 0x04, width: 2, value: 0x0407 },
        ]
    );
    let cfg32 = ConfigSpace::from_bytes(msi_config(0x0000)).unwrap();
    let (_, writes) = configure_msi(&d, &cfg32, 0x41).unwrap();
    assert_eq!(writes.len(), 5);
    assert_eq!(writes[2], ConfigWrite { offset: 0x58, width: 2, value: 0x41 });
    let off = disable_msi(&d, &cfg).unwrap();
    assert_eq!(off, vec![ConfigWrite { offset: 0x52, width: 2, value: 0x0080 }, ConfigWrite { offset: 0x04, width: 2, value: 0x0007 }]);
}

#[test]
fn msi_needs_the_capability() {
    let mut b = config();
    b[0x50] = 0x09;
    let cfg = ConfigSpace::from_bytes(b).unwrap();
    let d = PciDevice::from_config(0, 3, 0, &cfg).unwrap();
    assert_eq!(configure_msi(&d, &cfg, 0x40).unwrap_err(), MsiError::NotSupported);
    assert_eq!(disable_msi(&d, &cfg).unwrap_err(), MsiError::NotSupported);
    assert!(detect_msix(&d, &cfg).is_none());
}

#[test]
fn msix_capability_fields() {
    let cfg = ConfigSpace::from_bytes(msi_config(0)).unwrap();
    let d = PciDevice::from_config(0, 3, 0, &cfg).unwrap();
    let m = detect_msix(&d, &cfg).unwrap();
    assert_eq!(m.cap_offset, 0x60);
    assert_eq!(m.table_size, 4);
    assert_eq!((m.table_bir, m.table_offset), (1, 0x2000));
    assert_eq!((m.pba_bir, m.pba_offset), (2, 0x3000));
}

use vitros_kernel::msi::merge_config_write;

#[test]
fn config_writes_merge_into_their_register() {
    let w = ConfigWrite { offset: 0x52, width: 2, value: 0x0081 };
    assert_eq!(merge_config_write(0x1234_5678, &w), 0x0081_5678);
    let w = ConfigWrite { offset: 0x54, width: 4, value: 0xFEE0_0000 };
    assert_eq!(merge_config_write(0x1234_5678, &w), 0xFEE0_0000);
    let w = ConfigWrite { offset: 0x04, width: 2, value: 0x0407 };
    assert_eq!(merge_config_write(0xABCD_0003, &w), 0xABCD_0407);
}

use vitros_kernel::msi::{configure_msix, disable_msix, TableWrite};

#[test]
fn msix_plan() {
    let mut b = msi_config(0);
    b[0x64..0x68].copy_from_slice(&0x0000_2000u32.to_le_bytes());
    let cfg = ConfigSpace::from_bytes(b).unwrap();
    let d = PciDevice::from_config(0, 3, 0, &cfg).unwrap();
    let plan = configure_msix(&d, &cfg, &vec![0x40, 0x41]).unwrap();
    assert_eq!(plan.config.table_phys, 0x1_FEBC_2000);
    assert_eq!(plan.disable, ConfigWrite { offset: 0x62, width: 2, value: 0x0003 });
    assert_eq!(plan.table.len(), 8);
    assert_eq!(plan.table[4], TableWrite { offset: 0x10, value: 0xFEE0_0000 });
    assert_eq!(plan.table[6], TableWrite { offset: 0x18, value: 0x41 });
    assert_eq!(plan.table[7], TableWrite { offset: 0x1C, value: 0 });
    assert_eq!(plan.enable[0], ConfigWrite { offset: 0x62, width: 2, value: 0x8003 });
    assert!(matches!(configure_msix(&d, &cfg, &vec![0x40; 5]), Err(MsiError::TooManyVectors { requested: 5, available: 4 })));
    assert!(matches!(configure_msix(&d, &cfg, &vec![0x40, 10]), Err(MsiError::InvalidVector { vector: 10 })));
    let io_table = ConfigSpace::from_bytes(msi_config(0)).unwrap();
    assert!(matches!(configure_msix(&d, &io_table, &vec![0x40]), Err(MsiError::InvalidBar { bar_index: 1 })));
    assert_eq!(disable_msix(&d, &cfg).unwrap()[1], ConfigWrite { offset: 0x04, width: 2, value: 0x0007 });
    let m = plan.config;
    assert_eq!(m.table_size(), 4);
    assert!(m.configure_entry(4, 0x40).is_err());
    assert_eq!(m.mask_entry(1, 0).unwrap(), TableWrite { offset: 0x1C, value: 1 });
    assert_eq!(m.unmask_entry(1, 3).unwrap(), TableWrite { offset: 0x1C, value: 2 });
    assert_eq!(m.mask_all(&vec![0, 0, 0, 0, 0]).len(), 4);
}
