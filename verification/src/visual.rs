//! The user-interface side of the visual Jib computer: the messages between
//! the interface and the thread that runs the computer, and what the
//! interface holds and decides when a message arrives or a control is used.
use vstd::prelude::*;
use vstd::seq_lib::lemma_multiset_commutative;

use crate::code_window::{opt_view, window_title, CodeWindow, CodeWindowType};
use crate::computer::{ComputerPram, JibCode};
use crate::errors::{decimal, push_decimal};
use crate::memory_view::{filled_values, MemoryViewState, MemoryViewWindow, MEMORY_SIZE};
use crate::numbers::{hex, hex_chars, lemma_decimal_len, push_chars, zero_pad, zero_padded};
use crate::text::push_char;

verus! {

/// Requests from the user interface to the thread that runs the computer.
#[derive(Debug, Clone)]
pub enum UiToThread {
    CpuStep,
    CpuRun(bool),
    UseBootloader(bool),
    CpuReset,
    DiskReset,
    DiskSave,
    CpuIrq(u8),
    SetCode(JibCode),
    SerialInput(String),
    RequestMemory(u32, u32),
    SetMultiplier(i32),
    SetPramSettings(ComputerPram),
    Exit,
}

/// Reports from the thread that runs the computer to the user interface;
/// the register state is the values of the registers in order.
#[derive(Debug, Clone)]
pub enum ThreadToUi {
    ResponseMemory(u32, Vec<u8>),
    SerialOutput(String),
    LogMessage(String),
    RegisterState(Vec<u32>),
    ProgramCounterValue(u32, u32),
    ProcessorReset,
    ThreadExit,
    CpuRunning(bool),
    BootloaderState(bool),
    PramSettings(ComputerPram),
}

/// The windows left by closing those that `keep` refuses, looking from
/// position `i` on: a refused window is replaced by the last window and the
/// list shortened by one, a kept window is passed over.
pub open spec fn swap_remove_closed<T>(s: Seq<T>, i: int, keep: spec_fn(T) -> bool) -> Seq<T>
    decreases s.len() - i,
{
    if i < 0 || i >= s.len() {
        s
    } else if keep(s[i]) {
        swap_remove_closed(s, i + 1, keep)
    } else {
        swap_remove_closed(s.update(i, s.last()).drop_last(), i, keep)
    }
}

/// Keeping from a sequence with one element: the element where `keep`
/// accepts it, nothing otherwise.
proof fn lemma_filter_one<T>(x: T, keep: spec_fn(T) -> bool)
    ensures
        seq![x].filter(keep) == (if keep(x) {
            seq![x]
        } else {
            Seq::<T>::empty()
        }),
{
    Seq::<T>::empty().lemma_filter_prepend(x, keep);
    assert(seq![x] + Seq::<T>::empty() =~= seq![x]);
    assert(Seq::<T>::empty().filter(keep) =~= Seq::<T>::empty()) by {
        reveal(Seq::filter);
    }
    assert((if keep(x) {
        seq![x]
    } else {
        Seq::<T>::empty()
    }) + Seq::<T>::empty() =~= (if keep(x) {
        seq![x]
    } else {
        Seq::<T>::empty()
    }));
}

/// Removing element `i` by moving the last element into its place keeps the
/// elements before `i`, and where `keep` refuses the removed element, the
/// kept elements from `i` on are the same as before, in some order.
pub proof fn lemma_swap_remove_rest<T>(s: Seq<T>, i: int, keep: spec_fn(T) -> bool)
    requires
        0 <= i < s.len(),
        !keep(s[i]),
    ensures
        s.update(i, s.last()).drop_last().take(i) == s.take(i),
        s.update(i, s.last()).drop_last().skip(i).filter(keep).to_multiset() == s.skip(i).filter(
            keep,
        ).to_multiset(),
{
    let r = s.update(i, s.last()).drop_last();
    assert(r.take(i) =~= s.take(i));
    let n = s.len() as int;
    let mid = s.subrange(i + 1, n);
    assert(s.skip(i) =~= seq![s[i]] + mid);
    mid.lemma_filter_prepend(s[i], keep);
    assert(Seq::<T>::empty() + mid.filter(keep) =~= mid.filter(keep));
    if i == n - 1 {
        assert(r.skip(i) =~= mid);
    } else {
        let front = s.subrange(i + 1, n - 1);
        assert(r.skip(i) =~= seq![s.last()] + front);
        assert(mid =~= front + seq![s.last()]);
        front.lemma_filter_prepend(s.last(), keep);
        Seq::filter_distributes_over_add(front, seq![s.last()], keep);
        lemma_filter_one(s.last(), keep);
        lemma_multiset_commutative(seq![s.last()].filter(keep), front.filter(keep));
        lemma_multiset_commutative(front.filter(keep), seq![s.last()].filter(keep));
    }
}

/// Passing over an element that `keep` accepts moves it from the part still
/// to be looked at into the part looked at, without changing what is kept.
pub proof fn lemma_keep_step<T>(s: Seq<T>, i: int, keep: spec_fn(T) -> bool)
    requires
        0 <= i < s.len(),
        keep(s[i]),
    ensures
        s.take(i + 1).to_multiset().add(s.skip(i + 1).filter(keep).to_multiset()) == s.take(
            i,
        ).to_multiset().add(s.skip(i).filter(keep).to_multiset()),
{
    assert(s.take(i + 1) =~= s.take(i) + seq![s[i]]);
    assert(s.skip(i) =~= seq![s[i]] + s.skip(i + 1));
    s.skip(i + 1).lemma_filter_prepend(s[i], keep);
    lemma_multiset_commutative(s.take(i), seq![s[i]]);
    lemma_multiset_commutative(seq![s[i]], s.skip(i + 1).filter(keep));
    assert(s.take(i).to_multiset().add(seq![s[i]].to_multiset()).add(
        s.skip(i + 1).filter(keep).to_multiset(),
    ) =~= s.take(i).to_multiset().add(
        seq![s[i]].to_multiset().add(s.skip(i + 1).filter(keep).to_multiset()),
    ));
}

/// The program counter as shown: its address and the word there.
#[derive(Debug, Default, Clone, Copy, PartialEq, Eq)]
pub struct ProgramCounterView {
    pub pc: u32,
    pub val: u32,
}

/// The slowest speed setting.
pub const SPEED_MIN: i32 = 0;

/// The fastest speed setting.
pub const SPEED_MAX: i32 = 15;

/// The speed setting at start.
pub const SPEED_START: i32 = 10;

/// The milliseconds between redraws while the computer is not asked to run.
pub const IDLE_INTERVAL_MS: u64 = 1000;

/// The program log with `msg` added: on a line of its own after what is
/// there, or as the whole log where it is empty.
pub open spec fn log_appended(log: Seq<char>, msg: Seq<char>) -> Seq<char> {
    if log.len() > 0 {
        log + "\n"@ + msg
    } else {
        msg
    }
}

/// The views of memory windows.
pub open spec fn window_views(ws: Seq<MemoryViewWindow>) -> Seq<MemoryViewState> {
    ws.map_values(|w: MemoryViewWindow| w@)
}

/// The memory views after a read of `vals` at `base`: each view of that base
/// shows the bytes read, the others stay.
pub open spec fn responded(ws: Seq<MemoryViewState>, base: u32, vals: Seq<u8>) -> Seq<MemoryViewState> {
    ws.map_values(
        |w: MemoryViewState|
            if w.base == base {
                MemoryViewState { values: filled_values(vals), ..w }
            } else {
                w
            },
    )
}

/// A register as the register table shows it: `R`, its number in two
/// decimal digits, `: `, and its value in eight hexadecimal digits.
pub open spec fn register_text(i: nat, v: u32) -> Seq<char> {
    "R"@ + zero_padded(decimal(i), 2) + ": "@ + zero_padded(hex(v as nat), 8)
}

/// The program counter as shown: `PC[0x` and its address in eight
/// hexadecimal digits, `] = 0x` and the word there in eight.
pub open spec fn pc_text(p: ProgramCounterView) -> Seq<char> {
    "PC[0x"@ + zero_padded(hex(p.pc as nat), 8) + "] = 0x"@ + zero_padded(hex(p.val as nat), 8)
}

/// The decimal digits of `n`, at least two.
fn two_digit_decimal(n: usize) -> (r: String)
    ensures
        r@ == zero_padded(decimal(n as nat), 2),
{
    let mut s = String::new();
    proof {
        lemma_decimal_len(n as nat);
    }
    if n < 10 {
        push_char(&mut s, '0');
        push_decimal(&mut s, n);
        assert(s@ =~= Seq::new(1, |i: int| '0') + decimal(n as nat));
    } else {
        push_decimal(&mut s, n);
        assert(s@ =~= decimal(n as nat));
    }
    s
}

/// Writes `v` in eight hexadecimal digits onto the end of `s`.
fn push_hex8(s: &mut String, v: u32)
    ensures
        final(s)@ == old(s)@ + zero_padded(hex(v as nat), 8),
{
    let digits = zero_pad(hex_chars(v), 8);
    push_chars(s, digits.as_slice());
}

/// Register `i` with value `v` as the register table shows it.
pub fn register_label(i: usize, v: u32) -> (r: String)
    ensures
        r@ == register_text(i as nat, v),
{
    let mut s = String::from_str("R");
    let num = two_digit_decimal(i);
    s.append(num.as_str());
    s.append(": ");
    push_hex8(&mut s, v);
    proof {
        reveal_strlit("R");
        reveal_strlit(": ");
    }
    s
}

impl ProgramCounterView {
    /// The program counter as shown (see [`pc_text`]).
    pub fn label(&self) -> (r: String)
        ensures
            r@ == pc_text(*self),
    {
        let mut s = String::from_str("PC[0x");
        push_hex8(&mut s, self.pc);
        s.append("] = 0x");
        push_hex8(&mut s, self.val);
        proof {
            reveal_strlit("PC[0x");
            reveal_strlit("] = 0x");
        }
        s
    }
}

/// The two interfaces agree on all but their windows and the numbers of
/// the next ones.
pub open spec fn same_settings<W>(a: VisualJib<W>, b: VisualJib<W>) -> bool {
    &&& a.log_serial == b.log_serial
    &&& a.log_text == b.log_text
    &&& a.text_serial_input == b.text_serial_input
    &&& a.cpu_run_requested == b.cpu_run_requested
    &&& a.registers == b.registers
    &&& a.program_counter == b.program_counter
    &&& a.current_cpu_speed == b.current_cpu_speed
    &&& a.use_bootloader == b.use_bootloader
}

/// What the user interface holds: the serial and program logs, the typed
/// serial input, whether the computer is asked to run, the registers and
/// program counter last reported, the speed setting, the open windows and
/// the numbers of the next ones, and whether the bootloader is used. `W` is
/// what a code window reports through.
pub struct VisualJib<W> {
    pub log_serial: String,
    pub log_text: String,
    pub text_serial_input: String,
    pub cpu_run_requested: bool,
    pub registers: Vec<u32>,
    pub program_counter: ProgramCounterView,
    pub current_cpu_speed: i32,
    pub code_windows: Vec<CodeWindow<W>>,
    pub code_window_id: usize,
    pub memory_windows: Vec<MemoryViewWindow>,
    pub memory_window_id: usize,
    pub use_bootloader: bool,
}

impl<W> VisualJib<W> {
    /// The interface at start: empty logs, `register_count` registers at
    /// zero, the start speed, no windows, not running, no bootloader.
    pub fn new(register_count: usize) -> (r: Self)
        ensures
            r.log_serial@.len() == 0,
            r.log_text@.len() == 0,
            r.text_serial_input@.len() == 0,
            !r.cpu_run_requested,
            r.registers@ == Seq::new(register_count as nat, |i: int| 0u32),
            r.program_counter == (ProgramCounterView { pc: 0, val: 0 }),
            r.current_cpu_speed == SPEED_START,
            r.code_windows@.len() == 0,
            r.code_window_id == 0,
            r.memory_windows@.len() == 0,
            r.memory_window_id == 0,
            !r.use_bootloader,
    {
        let mut registers: Vec<u32> = Vec::new();
        let mut i: usize = 0;
        while i < register_count
            invariant
                i <= register_count,
                registers@ == Seq::new(i as nat, |j: int| 0u32),
            decreases register_count - i,
        {
            registers.push(0);
            assert(registers@ =~= Seq::new((i + 1) as nat, |j: int| 0u32));
            i = i + 1;
        }
        VisualJib {
            log_serial: String::new(),
            log_text: String::new(),
            text_serial_input: String::new(),
            cpu_run_requested: false,
            registers,
            program_counter: ProgramCounterView { pc: 0, val: 0 },
            current_cpu_speed: SPEED_START,
            code_windows: Vec::new(),
            code_window_id: 0,
            memory_windows: Vec::new(),
            memory_window_id: 0,
            use_bootloader: false,
        }
    }

    /// What the interface asks of the computer at start: the speed, whether
    /// to use the bootloader, and to run.
    pub fn startup_requests(&self) -> (r: Vec<UiToThread>)
        ensures
            r@ == seq![
                UiToThread::SetMultiplier(self.current_cpu_speed),
                UiToThread::UseBootloader(self.use_bootloader),
                UiToThread::CpuRun(true),
            ],
    {
        let mut r: Vec<UiToThread> = Vec::new();
        r.push(UiToThread::SetMultiplier(self.current_cpu_speed));
        r.push(UiToThread::UseBootloader(self.use_bootloader));
        r.push(UiToThread::CpuRun(true));
        r
    }

    /// Takes in a report from the computer. Returns `false`, with nothing
    /// changed, where the computer's thread has ended; otherwise a reset
    /// clears the serial log, serial output is added to it, a log message is
    /// added to the program log (see [`log_appended`]), registers, program
    /// counter, run state and bootloader use are taken as reported, and a
    /// read of memory fills the views of its base address (see [`responded`]).
    pub fn read_cpu_response(&mut self, msg: ThreadToUi) -> (r: bool)
        ensures
            r == !(msg is ThreadExit),
            final(self).log_serial@ == (match msg {
                ThreadToUi::ProcessorReset => Seq::<char>::empty(),
                ThreadToUi::SerialOutput(m) => old(self).log_serial@ + m@,
                _ => old(self).log_serial@,
            }),
            final(self).log_text@ == (match msg {
                ThreadToUi::LogMessage(m) => log_appended(old(self).log_text@, m@),
                _ => old(self).log_text@,
            }),
            final(self).registers@ == (match msg {
                ThreadToUi::RegisterState(v) => v@,
                _ => old(self).registers@,
            }),
            final(self).program_counter == (match msg {
                ThreadToUi::ProgramCounterValue(pc, val) => ProgramCounterView { pc, val },
                _ => old(self).program_counter,
            }),
            final(self).cpu_run_requested == (match msg {
                ThreadToUi::CpuRunning(b) => b,
                _ => old(self).cpu_run_requested,
            }),
            final(self).use_bootloader == (match msg {
                ThreadToUi::BootloaderState(b) => b,
                _ => old(self).use_bootloader,
            }),
            window_views(final(self).memory_windows@) == (match msg {
                ThreadToUi::ResponseMemory(base, vals) => responded(
                    window_views(old(self).memory_windows@),
                    base,
                    vals@,
                ),
                _ => window_views(old(self).memory_windows@),
            }),
            final(self).text_serial_input == old(self).text_serial_input,
            final(self).current_cpu_speed == old(self).current_cpu_speed,
            final(self).code_windows == old(self).code_windows,
            final(self).code_window_id == old(self).code_window_id,
            final(self).memory_window_id == old(self).memory_window_id,
    {
        match msg {
            ThreadToUi::ProcessorReset => {
                self.log_serial = String::new();
            },
            ThreadToUi::RegisterState(regs) => {
                self.registers = regs;
            },
            ThreadToUi::ProgramCounterValue(pc, val) => {
                self.program_counter = ProgramCounterView { pc, val };
            },
            ThreadToUi::LogMessage(m) => {
                if !self.log_text.as_str().is_empty() {
                    self.log_text.append("\n");
                    self.log_text.append(m.as_str());
                } else {
                    self.log_text = m;
                }
            },
            ThreadToUi::SerialOutput(m) => {
                self.log_serial.append(m.as_str());
            },
            ThreadToUi::ResponseMemory(base, vals) => {
                self.fill_memory_views(base, &vals);
            },
            ThreadToUi::CpuRunning(running) => {
                self.cpu_run_requested = running;
            },
            ThreadToUi::BootloaderState(bootloader) => {
                self.use_bootloader = bootloader;
            },
            ThreadToUi::ThreadExit => {
                return false;
            },
            ThreadToUi::PramSettings(_) => {},
        }
        true
    }

    /// Fills each memory view of `base` with `vals`.
    fn fill_memory_views(&mut self, base: u32, vals: &Vec<u8>)
        ensures
            window_views(final(self).memory_windows@) == responded(
                window_views(old(self).memory_windows@),
                base,
                vals@,
            ),
            final(self).log_serial == old(self).log_serial,
            final(self).log_text == old(self).log_text,
            final(self).text_serial_input == old(self).text_serial_input,
            final(self).cpu_run_requested == old(self).cpu_run_requested,
            final(self).registers == old(self).registers,
            final(self).program_counter == old(self).program_counter,
            final(self).current_cpu_speed == old(self).current_cpu_speed,
            final(self).code_windows == old(self).code_windows,
            final(self).code_window_id == old(self).code_window_id,
            final(self).memory_window_id == old(self).memory_window_id,
            final(self).use_bootloader == old(self).use_bootloader,
    {
        let mut ws: Vec<MemoryViewWindow> = Vec::new();
        std::mem::swap(&mut ws, &mut self.memory_windows);
        let ghost before = window_views(ws@);
        let n = ws.len();
        let mut i: usize = 0;
        while i < n
            invariant
                n == ws@.len(),
                before.len() == n,
                i <= n,
                forall|j: int|
                    0 <= j < i ==> #[trigger] ws@[j]@ == responded(before, base, vals@)[j],
                forall|j: int| i <= j < n ==> #[trigger] ws@[j]@ == before[j],
            decreases n - i,
        {
            let mut w = ws.remove(i);
            if w.base() == base {
                w.fill(vals);
            }
            ws.insert(i, w);
            i = i + 1;
        }
        assert(window_views(ws@) =~= responded(before, base, vals@));
        self.memory_windows = ws;
    }

    /// The reads of memory the open views ask for, one per view: its base
    /// address and its size.
    pub fn memory_requests(&self) -> (r: Vec<UiToThread>)
        ensures
            r@ == window_views(self.memory_windows@).map_values(
                |w: MemoryViewState| UiToThread::RequestMemory(w.base, MEMORY_SIZE as u32),
            ),
    {
        let mut r: Vec<UiToThread> = Vec::new();
        let mut i: usize = 0;
        while i < self.memory_windows.len()
            invariant
                i <= self.memory_windows@.len(),
                r@ == window_views(self.memory_windows@).map_values(
                    |w: MemoryViewState| UiToThread::RequestMemory(w.base, MEMORY_SIZE as u32),
                ).take(i as int),
            decreases self.memory_windows.len() - i,
        {
            let (base, size) = self.memory_windows[i].request();
            r.push(UiToThread::RequestMemory(base, size));
            assert(r@ =~= window_views(self.memory_windows@).map_values(
                |w: MemoryViewState| UiToThread::RequestMemory(w.base, MEMORY_SIZE as u32),
            ).take(i as int + 1));
            i = i + 1;
        }
        assert(r@ =~= window_views(self.memory_windows@).map_values(
            |w: MemoryViewState| UiToThread::RequestMemory(w.base, MEMORY_SIZE as u32),
        ));
        r
    }

    /// Closes the windows that are no longer open, as [`swap_remove_closed`]
    /// does: afterwards every window is open, the open ones are those that
    /// were open before, and where every window is open, nothing changes.
    pub fn remove_closed_windows(&mut self)
        ensures
            forall|j: int|
                0 <= j < final(self).code_windows@.len() ==> (#[trigger] final(self).code_windows@[j]).shown,
            forall|j: int|
                0 <= j < final(self).memory_windows@.len() ==> (#[trigger] final(self).memory_windows@[j])@.shown,
            (forall|j: int|
                0 <= j < old(self).code_windows@.len() ==> (#[trigger] old(self).code_windows@[j]).shown)
                ==> final(self).code_windows@ == old(self).code_windows@,
            (forall|j: int|
                0 <= j < old(self).memory_windows@.len() ==> (#[trigger] old(self).memory_windows@[j])@.shown)
                ==> final(self).memory_windows@ == old(self).memory_windows@,
            final(self).code_windows@ == swap_remove_closed(
                old(self).code_windows@,
                0,
                |w: CodeWindow<W>| w.shown,
            ),
            final(self).memory_windows@ == swap_remove_closed(
                old(self).memory_windows@,
                0,
                |w: MemoryViewWindow| w@.shown,
            ),
            final(self).code_windows@.to_multiset() == old(self).code_windows@.filter(
                |w: CodeWindow<W>| w.shown,
            ).to_multiset(),
            final(self).memory_windows@.to_multiset() == old(self).memory_windows@.filter(
                |w: MemoryViewWindow| w@.shown,
            ).to_multiset(),
            final(self).log_serial == old(self).log_serial,
            final(self).log_text == old(self).log_text,
            final(self).text_serial_input == old(self).text_serial_input,
            final(self).cpu_run_requested == old(self).cpu_run_requested,
            final(self).registers == old(self).registers,
            final(self).program_counter == old(self).program_counter,
            final(self).current_cpu_speed == old(self).current_cpu_speed,
            final(self).code_window_id == old(self).code_window_id,
            final(self).memory_window_id == old(self).memory_window_id,
            final(self).use_bootloader == old(self).use_bootloader,
    {
        let mut cws: Vec<CodeWindow<W>> = Vec::new();
        std::mem::swap(&mut cws, &mut self.code_windows);
        let ghost keep_code = |w: CodeWindow<W>| w.shown;
        let ghost orig_code = cws@;
        let mut i: usize = 0;
        proof {
            assert(cws@.take(0) =~= Seq::<CodeWindow<W>>::empty());
            assert(cws@.skip(0) =~= cws@);
            lemma_multiset_commutative(Seq::<CodeWindow<W>>::empty(), cws@.filter(keep_code));
            assert(Seq::<CodeWindow<W>>::empty() + cws@.filter(keep_code) =~= cws@.filter(keep_code));
        }
        while i < cws.len()
            invariant
                i <= cws@.len(),
                swap_remove_closed(cws@, i as int, keep_code) == swap_remove_closed(orig_code, 0, keep_code),
                forall|w: CodeWindow<W>| #[trigger] keep_code(w) == w.shown,
                (forall|j: int| 0 <= j < orig_code.len() ==> #[trigger] keep_code(orig_code[j])) ==> cws@ == orig_code,
                forall|j: int| 0 <= j < i ==> (#[trigger] cws@[j]).shown,
                cws@.take(i as int).to_multiset().add(
                    cws@.skip(i as int).filter(keep_code).to_multiset(),
                ) == orig_code.filter(keep_code).to_multiset(),
            decreases cws.len() - i,
        {
            if !cws[i].shown {
                proof {
                    assert(!keep_code(cws@[i as int]));
                    lemma_swap_remove_rest(cws@, i as int, keep_code);
                }
                cws.swap_remove(i);
            } else {
                proof {
                    lemma_keep_step(cws@, i as int, keep_code);
                }
                i = i + 1;
            }
        }
        proof {
            assert(cws@.take(i as int) =~= cws@);
            assert(cws@.skip(i as int) =~= Seq::<CodeWindow<W>>::empty());
            assert(Seq::<CodeWindow<W>>::empty().filter(keep_code) =~= Seq::<CodeWindow<W>>::empty()) by {
                reveal(Seq::filter);
            }
            lemma_multiset_commutative(cws@, Seq::<CodeWindow<W>>::empty());
            assert(cws@ + Seq::<CodeWindow<W>>::empty() =~= cws@);
            assert(keep_code =~= |w: CodeWindow<W>| w.shown);
            if forall|j: int| 0 <= j < orig_code.len() ==> (#[trigger] orig_code[j]).shown {
                assert forall|j: int| 0 <= j < orig_code.len() implies #[trigger] keep_code(orig_code[j]) by {
                    assert(orig_code[j].shown);
                }
            }
        }
        self.code_windows = cws;

        let mut mws: Vec<MemoryViewWindow> = Vec::new();
        std::mem::swap(&mut mws, &mut self.memory_windows);
        let ghost keep_mem = |w: MemoryViewWindow| w@.shown;
        let ghost orig_mem = mws@;
        let mut k: usize = 0;
        proof {
            assert(mws@.take(0) =~= Seq::<MemoryViewWindow>::empty());
            assert(mws@.skip(0) =~= mws@);
            lemma_multiset_commutative(Seq::<MemoryViewWindow>::empty(), mws@.filter(keep_mem));
            assert(Seq::<MemoryViewWindow>::empty() + mws@.filter(keep_mem) =~= mws@.filter(keep_mem));
        }
        while k < mws.len()
            invariant
                k <= mws@.len(),
                swap_remove_closed(mws@, k as int, keep_mem) == swap_remove_closed(orig_mem, 0, keep_mem),
                forall|w: MemoryViewWindow| #[trigger] keep_mem(w) == w@.shown,
                (forall|j: int| 0 <= j < orig_mem.len() ==> #[trigger] keep_mem(orig_mem[j])) ==> mws@ == orig_mem,
                forall|j: int| 0 <= j < k ==> (#[trigger] mws@[j])@.shown,
                mws@.take(k as int).to_multiset().add(
                    mws@.skip(k as int).filter(keep_mem).to_multiset(),
                ) == orig_mem.filter(keep_mem).to_multiset(),
            decreases mws.len() - k,
        {
            if !mws[k].shown() {
                proof {
                    assert(!keep_mem(mws@[k as int]));
                    lemma_swap_remove_rest(mws@, k as int, keep_mem);
                }
                mws.swap_remove(k);
            } else {
                proof {
                    lemma_keep_step(mws@, k as int, keep_mem);
                }
                k = k + 1;
            }
        }
        proof {
            assert(mws@.take(k as int) =~= mws@);
            assert(mws@.skip(k as int) =~= Seq::<MemoryViewWindow>::empty());
            assert(Seq::<MemoryViewWindow>::empty().filter(keep_mem) =~= Seq::<MemoryViewWindow>::empty()) by {
                reveal(Seq::filter);
            }
            lemma_multiset_commutative(mws@, Seq::<MemoryViewWindow>::empty());
            assert(mws@ + Seq::<MemoryViewWindow>::empty() =~= mws@);
            assert(keep_mem =~= |w: MemoryViewWindow| w@.shown);
            if forall|j: int| 0 <= j < orig_mem.len() ==> (#[trigger] orig_mem[j]).view().shown {
                assert forall|j: int| 0 <= j < orig_mem.len() implies #[trigger] keep_mem(orig_mem[j]) by {
                    assert(orig_mem[j].view().shown);
                }
            }
        }
        self.memory_windows = mws;
    }

    /// Opens code window number `code_window_id` of kind `code_type` with
    /// `code` from `filename`, reporting through `channels`; the next window
    /// gets the next number.
    pub fn open_code_window(
        &mut self,
        channels: W,
        code_type: CodeWindowType,
        code: String,
        filename: Option<String>,
    )
        requires
            old(self).code_window_id < usize::MAX,
        ensures
            final(self).code_windows@.drop_last() == old(self).code_windows@,
            final(self).code_windows@.len() == old(self).code_windows@.len() + 1,
            final(self).code_windows@.last().channels == channels,
            final(self).code_windows@.last().code == code,
            final(self).code_windows@.last().shown,
            final(self).code_windows@.last().id@ == window_title(
                code_type,
                old(self).code_window_id as nat,
                opt_view(filename),
            ),
            final(self).code_windows@.last().compiled == code_type,
            final(self).code_windows@.last().filename == filename,
            final(self).code_window_id == old(self).code_window_id + 1,
            final(self).memory_windows == old(self).memory_windows,
            final(self).memory_window_id == old(self).memory_window_id,
            same_settings(*final(self), *old(self)),
    {
        let w = CodeWindow::new(self.code_window_id, channels, code, code_type, filename);
        self.code_windows.push(w);
        self.code_window_id = self.code_window_id + 1;
    }

    /// Opens memory view number `memory_window_id`; the next view gets the
    /// next number.
    pub fn open_memory_window(&mut self)
        requires
            old(self).memory_window_id < usize::MAX,
        ensures
            window_views(final(self).memory_windows@) == window_views(
                old(self).memory_windows@,
            ).push(
                MemoryViewState {
                    id: old(self).memory_window_id,
                    base: 0,
                    base_text: "0"@,
                    values: Seq::new(MEMORY_SIZE as nat, |i: int| None::<u8>),
                    shown: true,
                },
            ),
            final(self).memory_window_id == old(self).memory_window_id + 1,
            final(self).code_windows == old(self).code_windows,
            final(self).code_window_id == old(self).code_window_id,
            same_settings(*final(self), *old(self)),
    {
        let w = MemoryViewWindow::new(self.memory_window_id);
        self.memory_windows.push(w);
        self.memory_window_id = self.memory_window_id + 1;
        proof {
            assert(window_views(self.memory_windows@) =~= window_views(
                old(self).memory_windows@,
            ).push(w@));
        }
    }

    /// The bootloader box was set to `use_bootloader`: keeps it, and asks the
    /// computer to use the bootloader or not.
    pub fn set_use_bootloader(&mut self, use_bootloader: bool) -> (r: UiToThread)
        ensures
            r == UiToThread::UseBootloader(use_bootloader),
            final(self).use_bootloader == use_bootloader,
            *final(self) == (VisualJib { use_bootloader, ..*old(self) }),
    {
        self.use_bootloader = use_bootloader;
        UiToThread::UseBootloader(use_bootloader)
    }

    /// The speed control was moved to `speed`, which it holds within
    /// [`SPEED_MIN`] and [`SPEED_MAX`]: keeps it, and asks the computer for it.
    pub fn set_cpu_speed(&mut self, speed: i32) -> (r: UiToThread)
        requires
            SPEED_MIN <= speed <= SPEED_MAX,
        ensures
            r == UiToThread::SetMultiplier(speed),
            *final(self) == (VisualJib { current_cpu_speed: speed, ..*old(self) }),
    {
        self.current_cpu_speed = speed;
        UiToThread::SetMultiplier(speed)
    }

    /// The typed serial input was entered: sends it to the computer and
    /// empties the input.
    pub fn take_serial_input(&mut self) -> (r: UiToThread)
        ensures
            r == UiToThread::SerialInput(old(self).text_serial_input),
            final(self).text_serial_input@.len() == 0,
            final(self).log_serial == old(self).log_serial,
            final(self).log_text == old(self).log_text,
            final(self).cpu_run_requested == old(self).cpu_run_requested,
            final(self).registers == old(self).registers,
            final(self).program_counter == old(self).program_counter,
            final(self).current_cpu_speed == old(self).current_cpu_speed,
            final(self).use_bootloader == old(self).use_bootloader,
            final(self).code_windows == old(self).code_windows,
            final(self).code_window_id == old(self).code_window_id,
            final(self).memory_windows == old(self).memory_windows,
            final(self).memory_window_id == old(self).memory_window_id,
    {
        let mut text = String::new();
        std::mem::swap(&mut text, &mut self.text_serial_input);
        UiToThread::SerialInput(text)
    }

    /// The milliseconds until the next redraw: `thread_loop_ms`, the period of
    /// the computer's thread, while the computer is asked to run, else
    /// [`IDLE_INTERVAL_MS`].
    pub fn update_interval_ms(&self, thread_loop_ms: u64) -> (r: u64)
        ensures
            r == if self.cpu_run_requested {
                thread_loop_ms
            } else {
                IDLE_INTERVAL_MS
            },
    {
        if self.cpu_run_requested {
            thread_loop_ms
        } else {
            IDLE_INTERVAL_MS
        }
    }

    /// The rows of the register table: with half the registers per column,
    /// row `i` shows register `i` and register `i` plus half.
    pub fn register_rows(&self) -> (r: Vec<(String, String)>)
        ensures
            r@.len() == self.registers@.len() / 2,
            forall|i: int|
                0 <= i < r@.len() ==> (#[trigger] r@[i]).0@ == register_text(
                    i as nat,
                    self.registers@[i],
                ) && r@[i].1@ == register_text(
                    (i + self.registers@.len() / 2) as nat,
                    self.registers@[i + self.registers@.len() / 2],
                ),
    {
        let n = self.registers.len();
        let rows = n / 2;
        let mut r: Vec<(String, String)> = Vec::new();
        let mut i: usize = 0;
        while i < rows
            invariant
                n == self.registers@.len(),
                rows == n / 2,
                i <= rows,
                r@.len() == i,
                forall|j: int|
                    0 <= j < i ==> (#[trigger] r@[j]).0@ == register_text(
                        j as nat,
                        self.registers@[j],
                    ) && r@[j].1@ == register_text(
                        (j + rows) as nat,
                        self.registers@[j + rows],
                    ),
            decreases rows - i,
        {
            let left = register_label(i, self.registers[i]);
            let right = register_label(i + rows, self.registers[i + rows]);
            r.push((left, right));
            i = i + 1;
        }
        r
    }
}

} // verus!
