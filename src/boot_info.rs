//! Boot information: the typed view used by loaders and kernels, and the flat wire form.
//!
//! Loaders assemble a [`BootInfo`] and flatten it into a [`RawBootInfo`] for the kernel;
//! the kernel checks the wire header and copies the typed view back out of it.

use vstd::prelude::*;

use core::ops::Range;
use core::sync::atomic::{AtomicU32, AtomicU64, Ordering};

use crate::bytes::{le_u32, read_u32};

verus! {

broadcast use vstd::slice::group_slice_axioms;

/// Magic number at the head of the wire form.
pub const MAGIC_NUMBER: u32 = 0xC0DE_CAFE;

/// Layout version of the wire form.
pub const LAYOUT_VERSION: u32 = 1;

/// Earliest boot time that can be represented: -9999-01-01T00:00:00Z, in nanoseconds.
pub const MIN_BOOT_NANOS: i128 = -377_705_116_800_000_000_000;

/// Latest boot time that can be represented: 9999-12-31T23:59:59.999999999Z, in nanoseconds.
pub const MAX_BOOT_NANOS: i128 = 253_402_300_799_999_999_999;

/// Thread-local storage image of the kernel, as given by its TLS program header.
#[derive(Clone, Copy, Debug, PartialEq, Eq)]
pub struct TlsInfo {
    /// Start address of the TLS image.
    pub start: u64,
    /// File size of the TLS segment.
    pub filesz: u64,
    /// Memory size of the TLS segment.
    pub memsz: u64,
    /// Alignment of the TLS segment.
    pub align: u64,
}

/// The all-zero descriptor, which stands for "no TLS segment".
pub open spec fn is_zero_tls(t: TlsInfo) -> bool {
    t.start == 0 && t.filesz == 0 && t.memsz == 0 && t.align == 0
}

/// Hardware information.
#[derive(Debug, PartialEq, Eq)]
pub struct HardwareInfo {
    /// The range of all possible physical memory addresses.
    pub phys_addr_range: Range<u64>,
    /// Serial I/O port base, never zero.
    pub serial_port_base: Option<u16>,
    /// Address of the device tree, never zero.
    pub device_tree: Option<u64>,
}

/// Where the kernel image was loaded.
#[derive(Debug, PartialEq, Eq)]
pub struct LoadInfo {
    /// Virtual address range of the loaded kernel image.
    pub kernel_image_addr_range: Range<u64>,
    /// TLS image of the kernel, if it has one; never the all-zero descriptor.
    pub tls_info: Option<TlsInfo>,
}

/// A command line that lives for the rest of the program: the address and length of
/// its UTF-8 bytes. The address is never zero.
#[derive(Clone, Copy, Debug, PartialEq, Eq)]
pub struct CommandLine {
    pub data: u64,
    pub len: u64,
}

/// A point in time, as nanoseconds since the Unix epoch, within the years -9999 to 9999.
#[derive(Clone, Copy, Debug, PartialEq, Eq)]
pub struct BootTime {
    pub unix_timestamp_nanos: i128,
}

/// Relies on `time::OffsetDateTime::from_unix_timestamp_nanos`: it succeeds exactly for
/// timestamps whose whole seconds fall between -9999-01-01 and 9999-12-31 (UTC).
#[verifier::external_body]
fn unix_nanos_representable(nanos: i128) -> (r: bool)
    ensures
        r == (MIN_BOOT_NANOS <= nanos <= MAX_BOOT_NANOS),
{
    time::OffsetDateTime::from_unix_timestamp_nanos(nanos).is_ok()
}

impl BootTime {
    /// The boot time `nanos` nanoseconds after the Unix epoch, when it can be represented.
    pub fn from_unix_timestamp_nanos(nanos: i128) -> (r: Option<BootTime>)
        ensures
            r is Some <==> MIN_BOOT_NANOS <= nanos <= MAX_BOOT_NANOS,
            r matches Some(t) ==> t.unix_timestamp_nanos == nanos,
    {
        if unix_nanos_representable(nanos) {
            Some(BootTime { unix_timestamp_nanos: nanos })
        } else {
            None
        }
    }
}

/// Platform and loader specific information.
#[derive(Debug, PartialEq, Eq)]
pub enum PlatformInfo {
    /// Multiboot.
    Multiboot {
        /// Command line passed to the kernel.
        command_line: Option<CommandLine>,
        /// Multiboot boot information address, never zero.
        multiboot_info_addr: u64,
    },
    /// Uhyve.
    Uhyve {
        /// PCI support.
        has_pci: bool,
        /// Total number of CPUs available, never zero.
        num_cpus: u64,
        /// CPU frequency in kHz, never zero.
        cpu_freq: Option<u32>,
        /// Boot time.
        boot_time: BootTime,
    },
    /// Linux boot parameters.
    LinuxBootParams {
        /// Command line passed to the kernel.
        command_line: Option<CommandLine>,
        /// Address of the Linux boot parameters, never zero.
        boot_params_addr: u64,
    },
    /// Flattened device tree; the tree itself is [`HardwareInfo::device_tree`].
    Fdt,
}

/// Boot information, built by the loader and consumed by the kernel.
#[derive(Debug, PartialEq, Eq)]
pub struct BootInfo {
    /// Hardware information.
    pub hardware_info: HardwareInfo,
    /// Load information.
    pub load_info: LoadInfo,
    /// Platform information.
    pub platform_info: PlatformInfo,
}

pub open spec fn nonzero_opt_u64(o: Option<u64>) -> bool {
    o matches Some(x) ==> x != 0
}

pub open spec fn command_line_wf(c: Option<CommandLine>) -> bool {
    c matches Some(l) ==> l.data != 0
}

impl HardwareInfo {
    pub open spec fn wf(&self) -> bool {
        &&& self.serial_port_base matches Some(x) ==> x != 0
        &&& nonzero_opt_u64(self.device_tree)
    }
}

impl LoadInfo {
    pub open spec fn wf(&self) -> bool {
        self.tls_info matches Some(t) ==> !is_zero_tls(t)
    }
}

impl PlatformInfo {
    pub open spec fn wf(&self) -> bool {
        match *self {
            PlatformInfo::Multiboot { command_line, multiboot_info_addr } => command_line_wf(
                command_line,
            ) && multiboot_info_addr != 0,
            PlatformInfo::Uhyve { num_cpus, cpu_freq, boot_time, .. } => {
                &&& num_cpus != 0
                &&& cpu_freq matches Some(f) ==> f != 0
                &&& MIN_BOOT_NANOS <= boot_time.unix_timestamp_nanos <= MAX_BOOT_NANOS
            },
            PlatformInfo::LinuxBootParams { command_line, boot_params_addr } => command_line_wf(
                command_line,
            ) && boot_params_addr != 0,
            PlatformInfo::Fdt => true,
        }
    }
}

impl BootInfo {
    /// Every field holds a value that the wire form can carry.
    pub open spec fn wf(&self) -> bool {
        self.hardware_info.wf() && self.load_info.wf() && self.platform_info.wf()
    }
}

/// Hardware information on the wire; zero stands for an absent value.
#[derive(Clone, Copy, Debug, PartialEq, Eq)]
pub struct RawHardwareInfo {
    pub phys_addr_start: u64,
    pub phys_addr_end: u64,
    pub serial_port_base: u16,
    pub device_tree: u64,
}

/// Load information on the wire; the all-zero TLS descriptor stands for none.
#[derive(Clone, Copy, Debug, PartialEq, Eq)]
pub struct RawLoadInfo {
    pub kernel_image_addr_start: u64,
    pub kernel_image_addr_end: u64,
    pub tls_info: TlsInfo,
}

/// Platform information on the wire: a tag and its payload. A command line is the
/// address and length of its bytes, address zero standing for none.
#[derive(Clone, Copy, Debug, PartialEq, Eq)]
pub enum RawPlatformInfo {
    Multiboot { command_line_data: u64, command_line_len: u64, multiboot_info_addr: u64 },
    Uhyve { has_pci: bool, num_cpus: u64, cpu_freq: u32, boot_time: i128 },
    LinuxBootParams { command_line_data: u64, command_line_len: u64, boot_params_addr: u64 },
    Fdt,
}

/// The wire form of the boot information, read by the kernel from a raw address.
///
/// The two atomic fields are written after hand-off by the booting cores themselves.
#[derive(Debug)]
pub struct RawBootInfo {
    pub magic_number: u32,
    pub version: u32,
    pub hardware_info: RawHardwareInfo,
    pub load_info: RawLoadInfo,
    pub platform_info: RawPlatformInfo,
    pub current_stack_address: AtomicU64,
    pub cpu_online: AtomicU32,
}

/// The fields of the wire form other than the atomic ones.
pub ghost struct RawFields {
    pub magic_number: u32,
    pub version: u32,
    pub hardware_info: RawHardwareInfo,
    pub load_info: RawLoadInfo,
    pub platform_info: RawPlatformInfo,
}

impl RawBootInfo {
    pub open spec fn fields(&self) -> RawFields {
        RawFields {
            magic_number: self.magic_number,
            version: self.version,
            hardware_info: self.hardware_info,
            load_info: self.load_info,
            platform_info: self.platform_info,
        }
    }
}

/// Why the head of a wire form was refused.
#[derive(Clone, Copy, Debug, PartialEq, Eq)]
pub enum HeaderError {
    /// The magic number does not match.
    InvalidMagicNumber,
    /// The layout version does not match.
    InvalidVersion,
}

/// The header check of a wire form with magic number `magic` and version `version`.
pub open spec fn header_outcome(magic: u32, version: u32) -> Result<(), HeaderError> {
    if magic != MAGIC_NUMBER {
        Err(HeaderError::InvalidMagicNumber)
    } else if version != LAYOUT_VERSION {
        Err(HeaderError::InvalidVersion)
    } else {
        Ok(())
    }
}

pub open spec fn raw_hardware_of(h: HardwareInfo) -> RawHardwareInfo {
    RawHardwareInfo {
        phys_addr_start: h.phys_addr_range.start,
        phys_addr_end: h.phys_addr_range.end,
        serial_port_base: match h.serial_port_base {
            Some(x) => x,
            None => 0,
        },
        device_tree: match h.device_tree {
            Some(x) => x,
            None => 0,
        },
    }
}

pub open spec fn hardware_of(r: RawHardwareInfo) -> HardwareInfo {
    HardwareInfo {
        phys_addr_range: Range { start: r.phys_addr_start, end: r.phys_addr_end },
        serial_port_base: if r.serial_port_base == 0 {
            None
        } else {
            Some(r.serial_port_base)
        },
        device_tree: if r.device_tree == 0 {
            None
        } else {
            Some(r.device_tree)
        },
    }
}

pub open spec fn raw_load_of(l: LoadInfo) -> RawLoadInfo {
    RawLoadInfo {
        kernel_image_addr_start: l.kernel_image_addr_range.start,
        kernel_image_addr_end: l.kernel_image_addr_range.end,
        tls_info: match l.tls_info {
            Some(t) => t,
            None => TlsInfo { start: 0, filesz: 0, memsz: 0, align: 0 },
        },
    }
}

pub open spec fn load_of(r: RawLoadInfo) -> LoadInfo {
    LoadInfo {
        kernel_image_addr_range: Range {
            start: r.kernel_image_addr_start,
            end: r.kernel_image_addr_end,
        },
        tls_info: if is_zero_tls(r.tls_info) {
            None
        } else {
            Some(r.tls_info)
        },
    }
}

/// The address and length of an optional command line; zero for none.
pub open spec fn raw_command_line(c: Option<CommandLine>) -> (u64, u64) {
    match c {
        Some(l) => (l.data, l.len),
        None => (0, 0),
    }
}

pub open spec fn command_line_of(data: u64, len: u64) -> Option<CommandLine> {
    if data == 0 {
        None
    } else {
        Some(CommandLine { data, len })
    }
}

pub open spec fn raw_platform_of(p: PlatformInfo) -> RawPlatformInfo {
    match p {
        PlatformInfo::Multiboot { command_line, multiboot_info_addr } => RawPlatformInfo::Multiboot {
            command_line_data: raw_command_line(command_line).0,
            command_line_len: raw_command_line(command_line).1,
            multiboot_info_addr,
        },
        PlatformInfo::Uhyve { has_pci, num_cpus, cpu_freq, boot_time } => RawPlatformInfo::Uhyve {
            has_pci,
            num_cpus,
            cpu_freq: match cpu_freq {
                Some(f) => f,
                None => 0,
            },
            boot_time: boot_time.unix_timestamp_nanos,
        },
        PlatformInfo::LinuxBootParams { command_line, boot_params_addr } => RawPlatformInfo::LinuxBootParams {
            command_line_data: raw_command_line(command_line).0,
            command_line_len: raw_command_line(command_line).1,
            boot_params_addr,
        },
        PlatformInfo::Fdt => RawPlatformInfo::Fdt,
    }
}

/// The typed platform information of a wire payload; `None` when the payload holds a
/// value the typed view cannot (a zero address or CPU count, a boot time out of range).
pub open spec fn platform_of(r: RawPlatformInfo) -> Option<PlatformInfo> {
    match r {
        RawPlatformInfo::Multiboot { command_line_data, command_line_len, multiboot_info_addr } => {
            if multiboot_info_addr == 0 {
                None
            } else {
                Some(
                    PlatformInfo::Multiboot {
                        command_line: command_line_of(command_line_data, command_line_len),
                        multiboot_info_addr,
                    },
                )
            }
        },
        RawPlatformInfo::Uhyve { has_pci, num_cpus, cpu_freq, boot_time } => {
            if num_cpus == 0 || !(MIN_BOOT_NANOS <= boot_time <= MAX_BOOT_NANOS) {
                None
            } else {
                Some(
                    PlatformInfo::Uhyve {
                        has_pci,
                        num_cpus,
                        cpu_freq: if cpu_freq == 0 {
                            None
                        } else {
                            Some(cpu_freq)
                        },
                        boot_time: BootTime { unix_timestamp_nanos: boot_time },
                    },
                )
            }
        },
        RawPlatformInfo::LinuxBootParams { command_line_data, command_line_len, boot_params_addr } => {
            if boot_params_addr == 0 {
                None
            } else {
                Some(
                    PlatformInfo::LinuxBootParams {
                        command_line: command_line_of(command_line_data, command_line_len),
                        boot_params_addr,
                    },
                )
            }
        },
        RawPlatformInfo::Fdt => Some(PlatformInfo::Fdt),
    }
}

/// The wire fields a loader writes for `b`.
pub open spec fn raw_fields_of(b: BootInfo) -> RawFields {
    RawFields {
        magic_number: MAGIC_NUMBER,
        version: LAYOUT_VERSION,
        hardware_info: raw_hardware_of(b.hardware_info),
        load_info: raw_load_of(b.load_info),
        platform_info: raw_platform_of(b.platform_info),
    }
}

/// The typed view a kernel copies out of the wire fields `r`.
pub open spec fn boot_info_of(r: RawFields) -> Option<BootInfo> {
    match platform_of(r.platform_info) {
        Some(p) => Some(
            BootInfo {
                hardware_info: hardware_of(r.hardware_info),
                load_info: load_of(r.load_info),
                platform_info: p,
            },
        ),
        None => None,
    }
}

} // verus!

verus! {

impl RawHardwareInfo {
    pub fn from_hardware_info(h: &HardwareInfo) -> (r: Self)
        ensures
            r == raw_hardware_of(*h),
    {
        RawHardwareInfo {
            phys_addr_start: h.phys_addr_range.start,
            phys_addr_end: h.phys_addr_range.end,
            serial_port_base: match h.serial_port_base {
                Some(x) => x,
                None => 0,
            },
            device_tree: match h.device_tree {
                Some(x) => x,
                None => 0,
            },
        }
    }
}

impl HardwareInfo {
    pub fn from_raw(r: &RawHardwareInfo) -> (h: Self)
        ensures
            h == hardware_of(*r),
    {
        HardwareInfo {
            phys_addr_range: r.phys_addr_start..r.phys_addr_end,
            serial_port_base: if r.serial_port_base == 0 {
                None
            } else {
                Some(r.serial_port_base)
            },
            device_tree: if r.device_tree == 0 {
                None
            } else {
                Some(r.device_tree)
            },
        }
    }
}

impl RawLoadInfo {
    pub fn from_load_info(l: &LoadInfo) -> (r: Self)
        ensures
            r == raw_load_of(*l),
    {
        RawLoadInfo {
            kernel_image_addr_start: l.kernel_image_addr_range.start,
            kernel_image_addr_end: l.kernel_image_addr_range.end,
            tls_info: match l.tls_info {
                Some(t) => t,
                None => TlsInfo { start: 0, filesz: 0, memsz: 0, align: 0 },
            },
        }
    }
}

impl LoadInfo {
    pub fn from_raw(r: &RawLoadInfo) -> (l: Self)
        ensures
            l == load_of(*r),
    {
        let t = r.tls_info;
        LoadInfo {
            kernel_image_addr_range: r.kernel_image_addr_start..r.kernel_image_addr_end,
            tls_info: if t.start != 0 || t.filesz != 0 || t.memsz != 0 || t.align != 0 {
                Some(t)
            } else {
                None
            },
        }
    }
}

fn flatten_command_line(c: Option<CommandLine>) -> (r: (u64, u64))
    ensures
        r == raw_command_line(c),
{
    match c {
        Some(l) => (l.data, l.len),
        None => (0, 0),
    }
}

fn command_line_from(data: u64, len: u64) -> (r: Option<CommandLine>)
    ensures
        r == command_line_of(data, len),
{
    if data == 0 {
        None
    } else {
        Some(CommandLine { data, len })
    }
}

impl RawPlatformInfo {
    pub fn from_platform_info(p: &PlatformInfo) -> (r: Self)
        ensures
            r == raw_platform_of(*p),
    {
        match p {
            PlatformInfo::Multiboot { command_line, multiboot_info_addr } => {
                let (data, len) = flatten_command_line(*command_line);
                RawPlatformInfo::Multiboot {
                    command_line_data: data,
                    command_line_len: len,
                    multiboot_info_addr: *multiboot_info_addr,
                }
            },
            PlatformInfo::Uhyve { has_pci, num_cpus, cpu_freq, boot_time } => RawPlatformInfo::Uhyve {
                has_pci: *has_pci,
                num_cpus: *num_cpus,
                cpu_freq: match cpu_freq {
                    Some(f) => *f,
                    None => 0,
                },
                boot_time: boot_time.unix_timestamp_nanos,
            },
            PlatformInfo::LinuxBootParams { command_line, boot_params_addr } => {
                let (data, len) = flatten_command_line(*command_line);
                RawPlatformInfo::LinuxBootParams {
                    command_line_data: data,
                    command_line_len: len,
                    boot_params_addr: *boot_params_addr,
                }
            },
            PlatformInfo::Fdt => RawPlatformInfo::Fdt,
        }
    }
}

impl PlatformInfo {
    /// The typed view of a wire payload; `None` when it holds a value the typed view
    /// cannot.
    pub fn from_raw(r: &RawPlatformInfo) -> (p: Option<Self>)
        ensures
            p == platform_of(*r),
    {
        match *r {
            RawPlatformInfo::Multiboot { command_line_data, command_line_len, multiboot_info_addr } => {
                if multiboot_info_addr == 0 {
                    None
                } else {
                    Some(
                        PlatformInfo::Multiboot {
                            command_line: command_line_from(command_line_data, command_line_len),
                            multiboot_info_addr,
                        },
                    )
                }
            },
            RawPlatformInfo::Uhyve { has_pci, num_cpus, cpu_freq, boot_time } => {
                if num_cpus == 0 {
                    return None;
                }
                match BootTime::from_unix_timestamp_nanos(boot_time) {
                    None => None,
                    Some(boot_time) => Some(
                        PlatformInfo::Uhyve {
                            has_pci,
                            num_cpus,
                            cpu_freq: if cpu_freq == 0 {
                                None
                            } else {
                                Some(cpu_freq)
                            },
                            boot_time,
                        },
                    ),
                }
            },
            RawPlatformInfo::LinuxBootParams { command_line_data, command_line_len, boot_params_addr } => {
                if boot_params_addr == 0 {
                    None
                } else {
                    Some(
                        PlatformInfo::LinuxBootParams {
                            command_line: command_line_from(command_line_data, command_line_len),
                            boot_params_addr,
                        },
                    )
                }
            },
            RawPlatformInfo::Fdt => Some(PlatformInfo::Fdt),
        }
    }
}

impl RawBootInfo {
    /// The uninitialised wire form: every field zero.
    pub fn invalid() -> (r: Self)
        ensures
            r.magic_number == 0,
            r.version == 0,
            r.hardware_info == (RawHardwareInfo {
                phys_addr_start: 0,
                phys_addr_end: 0,
                serial_port_base: 0,
                device_tree: 0,
            }),
            r.load_info == (RawLoadInfo {
                kernel_image_addr_start: 0,
                kernel_image_addr_end: 0,
                tls_info: TlsInfo { start: 0, filesz: 0, memsz: 0, align: 0 },
            }),
            r.platform_info == (RawPlatformInfo::Multiboot {
                command_line_data: 0,
                command_line_len: 0,
                multiboot_info_addr: 0,
            }),
    {
        RawBootInfo {
            magic_number: 0,
            version: 0,
            hardware_info: RawHardwareInfo {
                phys_addr_start: 0,
                phys_addr_end: 0,
                serial_port_base: 0,
                device_tree: 0,
            },
            load_info: RawLoadInfo {
                kernel_image_addr_start: 0,
                kernel_image_addr_end: 0,
                tls_info: TlsInfo { start: 0, filesz: 0, memsz: 0, align: 0 },
            },
            platform_info: RawPlatformInfo::Multiboot {
                command_line_data: 0,
                command_line_len: 0,
                multiboot_info_addr: 0,
            },
            current_stack_address: AtomicU64::new(0),
            cpu_online: AtomicU32::new(0),
        }
    }

    /// Flattens `boot_info` into the wire form, with the magic number and layout
    /// version set and both atomic counters zero.
    pub fn from_boot_info(boot_info: &BootInfo) -> (r: Self)
        ensures
            r.fields() == raw_fields_of(*boot_info),
    {
        RawBootInfo {
            magic_number: MAGIC_NUMBER,
            version: LAYOUT_VERSION,
            hardware_info: RawHardwareInfo::from_hardware_info(&boot_info.hardware_info),
            load_info: RawLoadInfo::from_load_info(&boot_info.load_info),
            platform_info: RawPlatformInfo::from_platform_info(&boot_info.platform_info),
            current_stack_address: AtomicU64::new(0),
            cpu_online: AtomicU32::new(0),
        }
    }

    /// Checks the magic number, then the layout version.
    pub fn check_header(&self) -> (r: Result<(), HeaderError>)
        ensures
            r == header_outcome(self.magic_number, self.version),
    {
        check_magic_and_version(self.magic_number, self.version)
    }

    /// Returns the current stack address.
    pub fn load_current_stack_address(&self) -> u64 {
        self.current_stack_address.load(Ordering::Relaxed)
    }

    /// Sets the current stack address.
    pub fn store_current_stack_address(&self, addr: u64) {
        self.current_stack_address.store(addr, Ordering::Relaxed)
    }

    /// Returns the number of initialised CPUs.
    pub fn load_cpu_online(&self) -> u32 {
        self.cpu_online.load(Ordering::Acquire)
    }

    /// Increments the number of initialised CPUs.
    pub fn increment_cpu_online(&self) {
        self.cpu_online.fetch_add(1, Ordering::Release);
    }
}

fn check_magic_and_version(magic: u32, version: u32) -> (r: Result<(), HeaderError>)
    ensures
        r == header_outcome(magic, version),
{
    if magic != MAGIC_NUMBER {
        Err(HeaderError::InvalidMagicNumber)
    } else if version != LAYOUT_VERSION {
        Err(HeaderError::InvalidVersion)
    } else {
        Ok(())
    }
}

/// Checks the head of a wire form given as its first bytes: the magic number in bytes
/// 0 to 3, then the layout version in bytes 4 to 7. Reads nothing past byte 7.
pub fn check_header_bytes(bytes: &[u8]) -> (r: Result<(), HeaderError>)
    requires
        bytes.len() >= 8,
    ensures
        r == header_outcome(le_u32(bytes@, 0), le_u32(bytes@, 4)),
{
    let magic = read_u32(bytes, 0);
    let version = read_u32(bytes, 4);
    check_magic_and_version(magic, version)
}

impl BootInfo {
    /// Copies the typed boot information out of the wire form; `None` when a field
    /// holds a value the typed view cannot.
    pub fn copy_from(raw: &RawBootInfo) -> (r: Option<Self>)
        ensures
            r == boot_info_of(raw.fields()),
    {
        match PlatformInfo::from_raw(&raw.platform_info) {
            None => None,
            Some(platform_info) => Some(
                BootInfo {
                    hardware_info: HardwareInfo::from_raw(&raw.hardware_info),
                    load_info: LoadInfo::from_raw(&raw.load_info),
                    platform_info,
                },
            ),
        }
    }
}

/// Flattening a well-formed boot information and copying it back out gives it back
/// unchanged (the atomic counters are not part of either view).
pub proof fn lemma_round_trip(b: BootInfo)
    requires
        b.wf(),
    ensures
        boot_info_of(raw_fields_of(b)) == Some(b),
{
    assert(hardware_of(raw_hardware_of(b.hardware_info)) == b.hardware_info);
    assert(load_of(raw_load_of(b.load_info)) == b.load_info);
    assert(platform_of(raw_platform_of(b.platform_info)) == Some(b.platform_info));
}

} // verus!
