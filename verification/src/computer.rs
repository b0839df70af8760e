//! Data and decisions of the Jib computer that do not depend on its processor:
//! program images, the stop mode of a step, the settings memory of the
//! computer, the start of memory after a reset, and when the computer runs.
use vstd::prelude::*;

use crate::errors::FilesystemError;
use crate::filesystem::{already_exists_error, VirtualFilesystem};
use crate::numbers::{
    all_digits, digit_value, digits_value, parse_i16, parse_signed, parse_unsigned,
    parse_unsigned_chars, unsigned_body,
};
use crate::paths::same_path;
use crate::text::{chars_of, split_once, split_once_chars};

verus! {

/// A program: its bytes and where they are loaded.
#[derive(Debug, Clone, PartialEq, Eq)]
pub struct JibCode {
    pub start_location: u32,
    pub code: Vec<u8>,
}

/// When a step may stop the processor: at debug stops, and whether a stop
/// also cancels the request to run.
#[derive(Default, Debug, Clone, Copy, PartialEq, Eq)]
pub struct StopMode {
    pub debug: bool,
    pub cancel_run: bool,
}

/// The settings memory of the computer: the device identifier in its first
/// two bytes, the boot debugging flag in the third.
#[derive(Default, Debug, Clone, Copy)]
pub struct ComputerPram {
    pub boot_debug: bool,
}

/// Writing to a byte of the settings memory that cannot be written.
#[derive(Debug, Clone, Copy, PartialEq, Eq)]
pub enum PramError {
    ReadOnlyMemory(u32),
}

/// The byte at `offset` of the settings memory, for a device with identifier `id`.
pub open spec fn pram_byte(p: ComputerPram, offset: u32, id: u16) -> u8 {
    if offset == 0 {
        (id / 256) as u8
    } else if offset == 1 {
        (id % 256) as u8
    } else if offset == 2 && p.boot_debug {
        1
    } else {
        0
    }
}

impl ComputerPram {
    /// Reads the byte at `offset`; `device_id` is the identifier of the
    /// device type, written big-endian in the first two bytes.
    pub fn get(&self, offset: u32, device_id: u16) -> (r: u8)
        ensures
            r == pram_byte(*self, offset, device_id),
    {
        if offset == 0 {
            (device_id / 256) as u8
        } else if offset == 1 {
            (device_id % 256) as u8
        } else if offset == 2 && self.boot_debug {
            1
        } else {
            0
        }
    }

    /// Writes `val` at `offset`: only the boot debugging flag can be written,
    /// set by any value but zero.
    pub fn set(&mut self, offset: u32, val: u8) -> (r: Result<(), PramError>)
        ensures
            offset == 2 ==> r is Ok && final(self).boot_debug == (val != 0),
            offset != 2 ==> r == Err::<(), PramError>(PramError::ReadOnlyMemory(offset))
                && *final(self) == *old(self),
    {
        if offset == 2 {
            self.boot_debug = val != 0;
            Ok(())
        } else {
            Err(PramError::ReadOnlyMemory(offset))
        }
    }
}

/// Where an application of the operating system image is installed.
#[derive(Debug, Default, PartialEq, Eq, Clone, Copy)]
pub enum ApplicationCategory {
    #[default]
    PathBinary,
    SampleApplication,
    Test,
}

impl ApplicationCategory {
    /// The directory of the disk image that holds applications of this category.
    pub fn install_directory(&self) -> (r: &'static str)
        ensures
            r@ == match *self {
                ApplicationCategory::PathBinary => "bin"@,
                ApplicationCategory::Test => "test"@,
                ApplicationCategory::SampleApplication => "samples"@,
            },
    {
        match self {
            ApplicationCategory::PathBinary => "bin",
            ApplicationCategory::Test => "test",
            ApplicationCategory::SampleApplication => "samples",
        }
    }
}

/// An application of the operating system image: its executable name, its
/// source file name, its source and its category.
pub struct JibApplication {
    pub exec_name: &'static str,
    pub filename: &'static str,
    pub code: &'static str,
    pub category: ApplicationCategory,
}

/// The operating system image: the kernel binary, the interface header that
/// applications include, and the compiled applications.
#[derive(Debug, Clone)]
pub struct JibOsImage {
    pub kernel: Vec<u8>,
    pub kernel_header: String,
    pub applications: Vec<(String, Vec<u8>, ApplicationCategory)>,
}

/// The kernel interface wrapped in its include guard.
pub open spec fn guarded_interface(interface: Seq<char>) -> Seq<char> {
    "#ifndef CBOS_DEFS\n#define CBOS_DEFS\n"@ + interface + "\n#endif // CBOS_DEFS\n"@
}

/// The date and time an image was built, as its filesystem records them.
#[derive(Debug, Clone, Copy, PartialEq, Eq)]
pub struct BuildDateTime {
    pub year: i16,
    pub month: u8,
    pub day: u8,
    pub hour: u8,
    pub minute: u8,
    pub second: u8,
    pub hundredths: u8,
}

/// The fields of a build date written `year-month-day hour:minute:second`.
pub open spec fn date_parts(s: Seq<char>) -> Option<Seq<Seq<char>>> {
    match split_once(s, '-') {
        Some((year, r1)) => match split_once(r1, '-') {
            Some((month, r2)) => match split_once(r2, ' ') {
                Some((day, r3)) => match split_once(r3, ':') {
                    Some((hour, r4)) => match split_once(r4, ':') {
                        Some((minute, second)) => Some(seq![year, month, day, hour, minute, second]),
                        None => None,
                    },
                    None => None,
                },
                None => None,
            },
            None => None,
        },
        None => None,
    }
}

/// A field of a build date as a byte: its decimal value, zero where it is none.
pub open spec fn byte_or_zero(s: Seq<char>) -> u8 {
    match parse_unsigned(s, 10, 255) {
        Some(v) => v as u8,
        None => 0,
    }
}

/// The build time written in `s` (whose fields [`date_parts`] finds): each
/// field read in decimal, zero where it is not a number that fits.
pub open spec fn build_time(s: Seq<char>) -> BuildDateTime {
    let p = date_parts(s).unwrap();
    BuildDateTime {
        year: match parse_signed(p[0], 32767) {
            Some(v) => v as i16,
            None => 0,
        },
        month: byte_or_zero(p[1]),
        day: byte_or_zero(p[2]),
        hour: byte_or_zero(p[3]),
        minute: byte_or_zero(p[4]),
        second: byte_or_zero(p[5]),
        hundredths: 0,
    }
}

/// Reads a field of a build date as a byte (see [`byte_or_zero`]).
fn read_byte(s: &[char]) -> (r: u8)
    ensures
        r == byte_or_zero(s@),
{
    match parse_unsigned_chars(s, 10, 255) {
        Some(v) => v as u8,
        None => 0,
    }
}

impl JibOsImage {
    /// The build time written in `build_date` (see [`build_time`]); the text
    /// must have the form `year-month-day hour:minute:second`.
    pub fn build_datetime(build_date: &str) -> (r: BuildDateTime)
        requires
            date_parts(build_date@) is Some,
        ensures
            r == build_time(build_date@),
    {
        let s = chars_of(build_date);
        let (year, r1) = split_once_chars(s.as_slice(), '-').unwrap();
        let (month, r2) = split_once_chars(r1.as_slice(), '-').unwrap();
        let (day, r3) = split_once_chars(r2.as_slice(), ' ').unwrap();
        let (hour, r4) = split_once_chars(r3.as_slice(), ':').unwrap();
        let (minute, second) = split_once_chars(r4.as_slice(), ':').unwrap();
        let ghost p = date_parts(build_date@).unwrap();
        assert(p[0] == year@ && p[1] == month@ && p[2] == day@);
        assert(p[3] == hour@ && p[4] == minute@ && p[5] == second@);
        let y = match parse_i16(year.as_slice()) {
            Some(v) => v,
            None => 0,
        };
        BuildDateTime {
            year: y,
            month: read_byte(month.as_slice()),
            day: read_byte(day.as_slice()),
            hour: read_byte(hour.as_slice()),
            minute: read_byte(minute.as_slice()),
            second: read_byte(second.as_slice()),
            hundredths: 0,
        }
    }
}

impl JibOsImage {
    /// The kernel interface header: `interface` inside the `CBOS_DEFS` include guard.
    pub fn interface_header(interface: &str) -> (r: String)
        ensures
            r@ == guarded_interface(interface@),
    {
        let mut s = String::from_str("#ifndef CBOS_DEFS\n#define CBOS_DEFS\n");
        s.append(interface);
        s.append("\n#endif // CBOS_DEFS\n");
        s
    }
}

/// The sources of an application build: `code` as `name` (`main.cb` by
/// default) and the kernel interface header as `cbos_defs.cb`; fails where
/// both have the same path.
pub open spec fn application_sources_spec(
    header: Seq<char>,
    code: Seq<char>,
    name: Seq<char>,
) -> Result<Seq<(Seq<char>, Seq<char>)>, crate::errors::FsErrorView> {
    if same_path(name, "cbos_defs.cb"@) {
        Err(already_exists_error("cbos_defs.cb"@))
    } else {
        Ok(seq![(name, code), ("cbos_defs.cb"@, header)])
    }
}

impl JibOsImage {
    /// The filesystem that an application is compiled from, and the name of
    /// its main file.
    pub fn application_sources<'a>(&self, code: &str, name: Option<&'a str>) -> (r: Result<
        (VirtualFilesystem, &'a str),
        FilesystemError,
    >)
        ensures
            match r {
                Ok((fs, n)) => n@ == (match name {
                    Some(x) => x@,
                    None => "main.cb"@,
                }) && application_sources_spec(self.kernel_header@, code@, n@) == Ok::<
                    Seq<(Seq<char>, Seq<char>)>,
                    crate::errors::FsErrorView,
                >(fs@),
                Err(e) => application_sources_spec(
                    self.kernel_header@,
                    code@,
                    match name {
                        Some(x) => x@,
                        None => "main.cb"@,
                    },
                ) == Err::<Seq<(Seq<char>, Seq<char>)>, crate::errors::FsErrorView>(e@),
            },
    {
        let name_val = match name {
            Some(x) => x,
            None => "main.cb",
        };
        let mut fs = VirtualFilesystem::new(code, name_val);
        match fs.add_file("cbos_defs.cb", self.kernel_header.as_str()) {
            Ok(_) => {
                proof {
                    crate::filesystem::lemma_lookup_single(name_val@, code@, "cbos_defs.cb"@);
                    crate::paths::lemma_same_path_symmetric(name_val@, "cbos_defs.cb"@);
                    assert(seq![(name_val@, code@)].push(("cbos_defs.cb"@, self.kernel_header@))
                        =~= seq![(name_val@, code@), ("cbos_defs.cb"@, self.kernel_header@)]);
                }
                Ok((fs, name_val))
            },
            Err(e) => {
                proof {
                    crate::filesystem::lemma_lookup_single(name_val@, code@, "cbos_defs.cb"@);
                    crate::paths::lemma_same_path_symmetric(name_val@, "cbos_defs.cb"@);
                }
                Err(e)
            },
        }
    }
}

/// Where the bootloader starts.
pub const BOOTLOADER_START: u32 = 0xFFFF0000;

/// The big-endian bytes of `v`.
pub open spec fn be_bytes(v: u32) -> Seq<u8> {
    seq![
        (v / 0x1000000) as u8,
        ((v / 0x10000) % 256) as u8,
        ((v / 0x100) % 256) as u8,
        (v % 256) as u8,
    ]
}

/// Whether the computer is running, whether running was requested, and
/// whether it boots through the bootloader.
#[derive(Debug, Default, Clone, Copy)]
pub struct RunControl {
    pub running: bool,
    pub running_requested: bool,
    pub bootloader: bool,
}

/// What a step decides: the new run state and whether the processor steps.
pub open spec fn step_decision(
    rc: RunControl,
    pc: u32,
    breakpoint: Option<u32>,
    stop_mode: Option<StopMode>,
    stop_flags: Option<(bool, bool)>,
) -> (RunControl, bool) {
    match stop_mode {
        None => (rc, true),
        Some(auto) => {
            let (debug_stop, cancel) = match stop_flags {
                Some((stop_normal, stop_debug)) => {
                    let dbg = stop_debug && auto.debug;
                    (stop_normal || dbg, dbg)
                },
                None => match breakpoint {
                    Some(brk) => (brk == pc && auto.debug, true),
                    None => (false, true),
                },
            };
            let cancel_run_request = cancel && auto.cancel_run;
            if debug_stop {
                (
                    RunControl {
                        running: false,
                        running_requested: rc.running_requested && !cancel_run_request,
                        bootloader: rc.bootloader,
                    },
                    false,
                )
            } else {
                (rc, true)
            }
        },
    }
}

/// Requesting running (or stopping): where the request changes, the computer
/// starts or stops at once, and the answer says whether it changed.
pub open spec fn request_running(rc: RunControl, requested: bool) -> (RunControl, bool) {
    if requested != rc.running_requested {
        (RunControl { running: requested, running_requested: requested, bootloader: rc.bootloader }, true)
    } else {
        (rc, false)
    }
}

impl RunControl {
    /// Not running, nothing requested, no bootloader.
    pub fn new() -> (r: Self)
        ensures
            !r.running && !r.running_requested && !r.bootloader,
    {
        RunControl { running: false, running_requested: false, bootloader: false }
    }

    /// Whether the computer is running.
    pub fn get_running(&self) -> (r: bool)
        ensures
            r == self.running,
    {
        self.running
    }

    /// Whether running was requested.
    pub fn get_running_requested(&self) -> (r: bool)
        ensures
            r == self.running_requested,
    {
        self.running_requested
    }

    /// Whether the computer boots through the bootloader.
    pub fn using_bootloader(&self) -> (r: bool)
        ensures
            r == self.bootloader,
    {
        self.bootloader
    }

    /// Sets whether the computer boots through the bootloader.
    pub fn use_bootloader(&mut self, value: bool)
        ensures
            *final(self) == (RunControl { bootloader: value, ..*old(self) }),
    {
        self.bootloader = value;
    }

    /// Requests running or stopping; where the request changes, the computer
    /// starts or stops at once and `true` is returned.
    pub fn set_running_request(&mut self, running_requested: bool) -> (r: bool)
        ensures
            (*final(self), r) == request_running(*old(self), running_requested),
    {
        if running_requested != self.running_requested {
            self.running = running_requested;
            self.running_requested = running_requested;
            true
        } else {
            false
        }
    }

    /// Decides a step of the processor at `pc`. With a stop mode, a stop
    /// requested by the processor (`stop_flags`: its normal and debug stop
    /// conditions, where it could tell them) or a breakpoint at `pc` stops the
    /// computer instead; returns whether the processor steps.
    pub fn step_cpu(
        &mut self,
        pc: u32,
        breakpoint: Option<u32>,
        stop_mode: Option<StopMode>,
        stop_flags: Option<(bool, bool)>,
    ) -> (r: bool)
        ensures
            (*final(self), r) == step_decision(*old(self), pc, breakpoint, stop_mode, stop_flags),
    {
        if let Some(auto_stop) = stop_mode {
            let (debug_stop, mut cancel_run_request) = match stop_flags {
                Some((stop_normal, stop_debug)) => {
                    let dbg = stop_debug && auto_stop.debug;
                    (stop_normal || dbg, dbg)
                },
                None => match breakpoint {
                    Some(brk) => (brk == pc && auto_stop.debug, true),
                    None => (false, true),
                },
            };
            cancel_run_request = cancel_run_request && auto_stop.cancel_run;
            if debug_stop {
                self.running = false;
                self.running_requested = self.running_requested && !cancel_run_request;
                return false;
            }
        }
        true
    }

    /// Whether input or an interrupt should let the devices wake the
    /// computer: running was requested but the computer is stopped.
    pub fn waiting_to_run(&self) -> (r: bool)
        ensures
            r == (self.running_requested && !self.running),
    {
        self.running_requested && !self.running
    }

    /// Takes the result of stepping the devices: where they asked for the
    /// processor, the computer runs.
    pub fn devices_stepped(&mut self, woke: bool) -> (r: bool)
        ensures
            r == woke,
            *final(self) == (RunControl { running: old(self).running || woke, ..*old(self) }),
    {
        if woke {
            self.running = true;
        }
        woke
    }

    /// After a reset, the computer runs again where running was requested.
    pub fn after_reset(&mut self)
        ensures
            *final(self) == (RunControl {
                running: old(self).running || old(self).running_requested,
                ..*old(self)
            }),
    {
        if self.running_requested {
            self.running = true;
        }
    }

    /// The location that the reset vector points at: the bootloader, or
    /// `program_start` without it.
    pub fn start_location(&self, program_start: u32) -> (r: u32)
        ensures
            r == if self.bootloader {
                BOOTLOADER_START
            } else {
                program_start
            },
    {
        if self.bootloader {
            BOOTLOADER_START
        } else {
            program_start
        }
    }
}

/// The reset vector memory: `len` bytes, the start location written
/// big-endian in the first four and again in the next four, zero after.
pub fn reset_vector(start: u32, len: usize) -> (r: Vec<u8>)
    requires
        len >= 8,
    ensures
        r@.len() == len,
        r@.subrange(0, 4) == be_bytes(start),
        r@.subrange(4, 8) == be_bytes(start),
        forall|i: int| 8 <= i < len ==> r@[i] == 0,
{
    let b0 = (start / 0x1000000) as u8;
    let b1 = ((start / 0x10000) % 256) as u8;
    let b2 = ((start / 0x100) % 256) as u8;
    let b3 = (start % 256) as u8;
    let mut data: Vec<u8> = Vec::new();
    data.push(b0);
    data.push(b1);
    data.push(b2);
    data.push(b3);
    data.push(b0);
    data.push(b1);
    data.push(b2);
    data.push(b3);
    assert(data@.subrange(0, 4) =~= be_bytes(start));
    assert(data@.subrange(4, 8) =~= be_bytes(start));
    while data.len() < len
        invariant
            8 <= data@.len() <= len,
            data@.subrange(0, 4) == be_bytes(start),
            data@.subrange(4, 8) == be_bytes(start),
            forall|j: int| 8 <= j < data@.len() ==> data@[j] == 0,
        decreases len - data@.len(),
    {
        let ghost before = data@;
        data.push(0);
        assert(data@.subrange(0, 4) =~= before.subrange(0, 4));
        assert(data@.subrange(4, 8) =~= before.subrange(4, 8));
    }
    data
}

/// What the terminal runner does in a turn of its loop.
#[derive(Debug, Clone, Copy, PartialEq, Eq)]
pub enum TerminalAction {
    /// Step the processor (up to a batch of steps).
    StepCpu,
    /// Step the devices and wait, for the computer waits to run.
    StepDevices,
    /// Ask the computer to run again.
    RequestRun,
}

/// The terminal runner's turn: step the processor while it runs, the
/// devices while running is requested, and otherwise request it again.
pub open spec fn terminal_action(rc: RunControl) -> TerminalAction {
    if rc.running {
        TerminalAction::StepCpu
    } else if rc.running_requested {
        TerminalAction::StepDevices
    } else {
        TerminalAction::RequestRun
    }
}

/// Where the terminal runner saves the disk at the end: the export path,
/// else the image it was loaded from, and nowhere when read-only.
pub open spec fn disk_save_path(
    read_only: bool,
    export_hd: Option<Seq<char>>,
    hd_image: Option<Seq<char>>,
) -> Option<Seq<char>> {
    if read_only {
        None
    } else {
        match export_hd {
            Some(p) => Some(p),
            None => hd_image,
        }
    }
}

impl RunControl {
    /// What the terminal runner does in this turn (see [`terminal_action`]).
    pub fn terminal_action(&self) -> (r: TerminalAction)
        ensures
            r == terminal_action(*self),
    {
        if self.running {
            TerminalAction::StepCpu
        } else if self.running_requested {
            TerminalAction::StepDevices
        } else {
            TerminalAction::RequestRun
        }
    }
}

/// Where the terminal runner saves the disk (see [`disk_save_path`]).
pub fn save_path(read_only: bool, export_hd: Option<String>, hd_image: Option<String>) -> (r: Option<
    String,
>)
    ensures
        match r {
            Some(p) => disk_save_path(
                read_only,
                crate::code_window::opt_view(export_hd),
                crate::code_window::opt_view(hd_image),
            ) == Some(p@),
            None => disk_save_path(
                read_only,
                crate::code_window::opt_view(export_hd),
                crate::code_window::opt_view(hd_image),
            ) is None,
        },
{
    if read_only {
        None
    } else {
        match export_hd {
            Some(p) => Some(p),
            None => hd_image,
        }
    }
}

/// A debug stop never leaves the computer running, and without a stop mode
/// the processor always steps with the run state unchanged.
pub proof fn law_stop_means_not_running(
    rc: RunControl,
    pc: u32,
    breakpoint: Option<u32>,
    stop_mode: Option<StopMode>,
    stop_flags: Option<(bool, bool)>,
)
    ensures
        !step_decision(rc, pc, breakpoint, stop_mode, stop_flags).1 ==> !step_decision(
            rc,
            pc,
            breakpoint,
            stop_mode,
            stop_flags,
        ).0.running,
        stop_mode is None ==> step_decision(rc, pc, breakpoint, stop_mode, stop_flags) == (rc, true),
        step_decision(rc, pc, breakpoint, stop_mode, stop_flags).1 ==> step_decision(
            rc,
            pc,
            breakpoint,
            stop_mode,
            stop_flags,
        ).0 == rc,
{
}

/// Writing the boot debugging flag is read back as 1 or 0, and leaves the
/// device identifier bytes as they were.
pub proof fn law_pram_read_after_write(p: ComputerPram, val: u8, id: u16, offset: u32)
    ensures
        pram_byte(ComputerPram { boot_debug: val != 0 }, 2, id) == (if val != 0 {
            1u8
        } else {
            0u8
        }),
        offset < 2 ==> pram_byte(ComputerPram { boot_debug: val != 0 }, offset, id) == pram_byte(
            p,
            offset,
            id,
        ),
{
}

/// Repeating a run request changes nothing: the second request reports no
/// change, and after a request the computer runs exactly as requested.
pub proof fn law_run_request_idempotent(rc: RunControl, requested: bool)
    ensures
        request_running(request_running(rc, requested).0, requested) == (
            request_running(rc, requested).0,
            false,
        ),
        request_running(rc, requested).1 ==> request_running(rc, requested).0.running == requested,
        request_running(rc, requested).0.running_requested == requested,
{
}

/// How a step with a stop mode goes when the processor can tell its stop
/// conditions (`normal`, `debug`): where it reports a debug stop and the
/// stop mode stops at debug stops, or where it reports a normal stop, the
/// processor does not step and the computer stops running; a debug stop
/// cancels the run request where the stop mode says so, a normal stop on
/// its own never does; with neither, the processor steps and nothing
/// changes. The bootloader choice is never touched.
pub proof fn law_step_stops(rc: RunControl, pc: u32, b: Option<u32>, m: StopMode, normal: bool, debug: bool)
    ensures
        ({
            let (next, steps) = step_decision(rc, pc, b, Some(m), Some((normal, debug)));
            &&& (normal || (debug && m.debug)) ==> !steps && !next.running
            &&& (debug && m.debug) ==> next.running_requested == (rc.running_requested && !m.cancel_run)
            &&& (normal && !(debug && m.debug)) ==> next.running_requested == rc.running_requested
            &&& !(normal || (debug && m.debug)) ==> steps && next == rc
            &&& next.bootloader == rc.bootloader
        }),
{
}

/// How a step with a stop mode goes when the processor cannot tell its stop
/// conditions: only a breakpoint at the current address stops it, and only
/// where the stop mode stops at debug stops; such a stop cancels the run
/// request where the stop mode says so.
pub proof fn law_breakpoint_stops(rc: RunControl, pc: u32, b: Option<u32>, m: StopMode)
    ensures
        ({
            let (next, steps) = step_decision(rc, pc, b, Some(m), None);
            &&& (b == Some(pc) && m.debug) ==> !steps && !next.running && next.running_requested == (
            rc.running_requested && !m.cancel_run)
            &&& !(b == Some(pc) && m.debug) ==> steps && next == rc
        }),
{
}

/// Whether `c` is a decimal digit.
pub open spec fn is_decimal_digit(c: char) -> bool {
    48 <= (c as u32) <= 57
}

/// The value of a decimal digit.
pub open spec fn decimal_digit(c: char) -> int {
    (c as u32) - 48
}

/// The value of two decimal digits.
pub open spec fn two_digits(f: Seq<char>) -> int {
    10 * decimal_digit(f[0]) + decimal_digit(f[1])
}

/// The value of four decimal digits.
pub open spec fn four_digits(f: Seq<char>) -> int {
    1000 * decimal_digit(f[0]) + 100 * decimal_digit(f[1]) + 10 * decimal_digit(f[2])
        + decimal_digit(f[3])
}

/// Splitting at the first `c` of `a + c + b`, where `a` holds no `c`,
/// gives `a` and `b`.
proof fn lemma_split_once_at(a: Seq<char>, c: char, b: Seq<char>)
    requires
        forall|k: int| 0 <= k < a.len() ==> a[k] != c,
    ensures
        split_once(a + seq![c] + b, c) == Some((a, b)),
{
    let s = a + seq![c] + b;
    assert(s[a.len() as int] == c);
    assert forall|k: int| 0 <= k < a.len() implies s[k] != c by {
        assert(s[k] == a[k]);
    }
    crate::text::lemma_first_index_found(s, c, a.len() as int);
    assert(s.take(a.len() as int) =~= a);
    assert(s.skip((a.len() + 1) as int) =~= b);
}

/// Digits only, so none of the build date's separators.
proof fn lemma_digits_have_no_separator(f: Seq<char>)
    requires
        forall|k: int| 0 <= k < f.len() ==> is_decimal_digit(#[trigger] f[k]),
    ensures
        forall|k: int| 0 <= k < f.len() ==> f[k] != '-' && f[k] != ' ' && f[k] != ':',
{
    assert forall|k: int| 0 <= k < f.len() implies f[k] != '-' && f[k] != ' ' && f[k] != ':' by {
        assert(is_decimal_digit(f[k]));
    }
}

/// Two decimal digits read as a byte give their decimal value.
proof fn lemma_two_digits_byte(f: Seq<char>)
    requires
        f.len() == 2,
        forall|k: int| 0 <= k < f.len() ==> is_decimal_digit(#[trigger] f[k]),
    ensures
        byte_or_zero(f) as int == two_digits(f),
{
    assert(is_decimal_digit(f[0]) && is_decimal_digit(f[1]));
    assert(f.drop_last() =~= seq![f[0]]);
    assert(seq![f[0]].drop_last() =~= Seq::<char>::empty());
    assert(digits_value(Seq::<char>::empty(), 10) == 0);
    assert(digits_value(seq![f[0]], 10) == digit_value(f[0]));
    assert(digits_value(f, 10) == digit_value(f[0]) * 10 + digit_value(f[1]));
    assert(f[0] != '+');
    assert(unsigned_body(f) == f);
    assert(all_digits(f, 10));
}

/// A build date written with a four-digit year and two-digit month, day,
/// hour, minute and second, as `YYYY-MM-DD hh:mm:ss`, is read field by
/// field in decimal.
pub proof fn law_build_time_is_decimal(
    y: Seq<char>,
    mo: Seq<char>,
    d: Seq<char>,
    h: Seq<char>,
    mi: Seq<char>,
    se: Seq<char>,
)
    requires
        y.len() == 4,
        mo.len() == 2,
        d.len() == 2,
        h.len() == 2,
        mi.len() == 2,
        se.len() == 2,
        forall|k: int| 0 <= k < 4 ==> is_decimal_digit(#[trigger] y[k]),
        forall|k: int| 0 <= k < 2 ==> is_decimal_digit(#[trigger] mo[k]),
        forall|k: int| 0 <= k < 2 ==> is_decimal_digit(#[trigger] d[k]),
        forall|k: int| 0 <= k < 2 ==> is_decimal_digit(#[trigger] h[k]),
        forall|k: int| 0 <= k < 2 ==> is_decimal_digit(#[trigger] mi[k]),
        forall|k: int| 0 <= k < 2 ==> is_decimal_digit(#[trigger] se[k]),
    ensures
        ({
            let s = y + seq!['-'] + mo + seq!['-'] + d + seq![' '] + h + seq![':'] + mi + seq![':'] + se;
            &&& date_parts(s) is Some
            &&& build_time(s).year as int == four_digits(y)
            &&& build_time(s).month as int == two_digits(mo)
            &&& build_time(s).day as int == two_digits(d)
            &&& build_time(s).hour as int == two_digits(h)
            &&& build_time(s).minute as int == two_digits(mi)
            &&& build_time(s).second as int == two_digits(se)
            &&& build_time(s).hundredths == 0
        }),
{
    lemma_digits_have_no_separator(y);
    lemma_digits_have_no_separator(mo);
    lemma_digits_have_no_separator(d);
    lemma_digits_have_no_separator(h);
    lemma_digits_have_no_separator(mi);
    let r4 = mi + seq![':'] + se;
    let r3 = h + seq![':'] + r4;
    let r2 = d + seq![' '] + r3;
    let r1 = mo + seq!['-'] + r2;
    let s = y + seq!['-'] + r1;
    assert(y + seq!['-'] + mo + seq!['-'] + d + seq![' '] + h + seq![':'] + mi + seq![':'] + se =~= s);
    lemma_split_once_at(y, '-', r1);
    lemma_split_once_at(mo, '-', r2);
    lemma_split_once_at(d, ' ', r3);
    lemma_split_once_at(h, ':', r4);
    lemma_split_once_at(mi, ':', se);
    assert(date_parts(s) == Some(seq![y, mo, d, h, mi, se]));
    lemma_two_digits_byte(mo);
    lemma_two_digits_byte(d);
    lemma_two_digits_byte(h);
    lemma_two_digits_byte(mi);
    lemma_two_digits_byte(se);
    // the year
    assert(is_decimal_digit(y[0]) && is_decimal_digit(y[1]) && is_decimal_digit(y[2])
        && is_decimal_digit(y[3]));
    assert(y[0] != '-' && y[0] != '+');
    assert(unsigned_body(y) == y);
    assert(all_digits(y, 10));
    let y1 = y.drop_last();
    let y2 = y1.drop_last();
    let y3 = y2.drop_last();
    assert(y3.drop_last() =~= Seq::<char>::empty());
    assert(y3 =~= seq![y[0]]);
    assert(y2 =~= seq![y[0], y[1]]);
    assert(digits_value(Seq::<char>::empty(), 10) == 0);
    assert(digits_value(y3, 10) == digit_value(y[0]));
    assert(digits_value(y2, 10) == digit_value(y[0]) * 10 + digit_value(y[1]));
    assert(digits_value(y1, 10) == (digit_value(y[0]) * 10 + digit_value(y[1])) * 10 + digit_value(
        y[2],
    ));
    assert(digits_value(y, 10) == ((digit_value(y[0]) * 10 + digit_value(y[1])) * 10 + digit_value(
        y[2],
    )) * 10 + digit_value(y[3]));
}

} // verus!
