use hermit_entry::boot_info::{
    check_header_bytes, BootInfo, BootTime, CommandLine, HardwareInfo, HeaderError, LoadInfo,
    PlatformInfo, RawBootInfo, RawPlatformInfo, TlsInfo, LAYOUT_VERSION, MAGIC_NUMBER,
};

fn uhyve_info() -> BootInfo {
    BootInfo {
        hardware_info: HardwareInfo {
            phys_addr_range: 0..0x4000_0000,
            serial_port_base: Some(0x3f8),
            device_tree: None,
        },
        load_info: LoadInfo {
            kernel_image_addr_range: 0x40_0000..0x80_0000,
            tls_info: Some(TlsInfo { start: 0x40_1000, filesz: 0x10, memsz: 0x40, align: 8 }),
        },
        platform_info: PlatformInfo::Uhyve {
            has_pci: true,
            num_cpus: 4,
            cpu_freq: Some(2_400_000),
            boot_time: BootTime::from_unix_timestamp_nanos(1_546_300_800_000_000_000).unwrap(),
        },
    }
}

#[test]
fn round_trip_uhyve() {
    let info = uhyve_info();
    let raw = RawBootInfo::from_boot_info(&info);
    assert_eq!(raw.check_header(), Ok(()));
    assert_eq!(BootInfo::copy_from(&raw), Some(info));
}

#[test]
fn round_trip_multiboot_without_tls() {
    let info = BootInfo {
        hardware_info: HardwareInfo { phys_addr_range: 0..0x1000, serial_port_base: None, device_tree: Some(0x9000) },
        load_info: LoadInfo { kernel_image_addr_range: 0x10..0x20, tls_info: None },
        platform_info: PlatformInfo::Multiboot {
            command_line: Some(CommandLine { data: 0x7000, len: 12 }),
            multiboot_info_addr: 0x8000,
        },
    };
    let raw = RawBootInfo::from_boot_info(&info);
    assert_eq!(raw.load_info.tls_info, TlsInfo { start: 0, filesz: 0, memsz: 0, align: 0 });
    assert_eq!(raw.hardware_info.serial_port_base, 0);
    assert_eq!(BootInfo::copy_from(&raw), Some(info));
}

#[test]
fn round_trip_linux_boot_params_and_fdt() {
    for platform_info in [
        PlatformInfo::LinuxBootParams { command_line: None, boot_params_addr: 0x7000 },
        PlatformInfo::Fdt,
    ] {
        let info = BootInfo {
            hardware_info: HardwareInfo { phys_addr_range: 5..9, serial_port_base: None, device_tree: None },
            load_info: LoadInfo { kernel_image_addr_range: 1..2, tls_info: None },
            platform_info,
        };
        let raw = RawBootInfo::from_boot_info(&info);
        assert_eq!(BootInfo::copy_from(&raw), Some(info));
    }
}

#[test]
fn null_command_line_is_none() {
    let mut raw = RawBootInfo::invalid();
    raw.platform_info = RawPlatformInfo::Multiboot { command_line_data: 0, command_line_len: 5, multiboot_info_addr: 1 };
    let info = BootInfo::copy_from(&raw).unwrap();
    assert_eq!(info.platform_info, PlatformInfo::Multiboot { command_line: None, multiboot_info_addr: 1 });
}

#[test]
fn malformed_wire_values_are_refused() {
    let mut raw = RawBootInfo::invalid();
    raw.platform_info = RawPlatformInfo::Uhyve { has_pci: false, num_cpus: 0, cpu_freq: 0, boot_time: 0 };
    assert_eq!(BootInfo::copy_from(&raw), None);
    raw.platform_info = RawPlatformInfo::Uhyve { has_pci: false, num_cpus: 1, cpu_freq: 0, boot_time: i128::MAX };
    assert_eq!(BootInfo::copy_from(&raw), None);
    raw.platform_info = RawPlatformInfo::Uhyve { has_pci: false, num_cpus: 1, cpu_freq: 0, boot_time: -5 };
    let info = BootInfo::copy_from(&raw).unwrap();
    assert_eq!(
        info.platform_info,
        PlatformInfo::Uhyve { has_pci: false, num_cpus: 1, cpu_freq: None, boot_time: BootTime { unix_timestamp_nanos: -5 } }
    );
    // the all-zero wire form has a zero multiboot address
    assert_eq!(BootInfo::copy_from(&RawBootInfo::invalid()), None);
}

#[test]
fn boot_time_range() {
    assert!(BootTime::from_unix_timestamp_nanos(253_402_300_799_999_999_999).is_some());
    assert!(BootTime::from_unix_timestamp_nanos(253_402_300_800_000_000_000).is_none());
    assert!(BootTime::from_unix_timestamp_nanos(-377_705_116_800_000_000_000).is_some());
    assert!(BootTime::from_unix_timestamp_nanos(-377_705_116_800_000_000_001).is_none());
    assert_eq!(BootTime::from_unix_timestamp_nanos(0), Some(BootTime { unix_timestamp_nanos: 0 }));
}

#[test]
fn wrong_magic_number_is_refused() {
    let mut bytes = [0u8; 8];
    bytes[4..8].copy_from_slice(&LAYOUT_VERSION.to_ne_bytes());
    assert_eq!(check_header_bytes(&bytes), Err(HeaderError::InvalidMagicNumber));
    assert_eq!(check_header_bytes(&[0xff; 8]), Err(HeaderError::InvalidMagicNumber));
}

#[test]
fn wrong_version_is_refused() {
    let mut bytes = [0u8; 8];
    bytes[0..4].copy_from_slice(&MAGIC_NUMBER.to_ne_bytes());
    bytes[4..8].copy_from_slice(&2u32.to_ne_bytes());
    assert_eq!(check_header_bytes(&bytes), Err(HeaderError::InvalidVersion));
    bytes[4..8].copy_from_slice(&LAYOUT_VERSION.to_ne_bytes());
    assert_eq!(check_header_bytes(&bytes), Ok(()));
}

#[test]
fn invalid_wire_form() {
    let raw = RawBootInfo::invalid();
    assert_eq!(raw.check_header(), Err(HeaderError::InvalidMagicNumber));
    assert_eq!(raw.load_current_stack_address(), 0);
    assert_eq!(raw.load_cpu_online(), 0);
}

#[test]
fn atomic_counters() {
    let raw = RawBootInfo::from_boot_info(&uhyve_info());
    raw.increment_cpu_online();
    raw.increment_cpu_online();
    assert_eq!(raw.load_cpu_online(), 2);
    raw.store_current_stack_address(0xdead_b000);
    assert_eq!(raw.load_current_stack_address(), 0xdead_b000);
}
