//! The abstract machine: its state, what one step does, and the laws that
//! hold of it.
use vstd::prelude::*;

use crate::opcodes::{symbol, text_of, OpCode};

verus! {

/// Number of cells on the tape.
pub const TAPE_LEN: usize = 61440;

/// Whether the debugger console stops before each instruction.
#[derive(Debug, Clone, Copy, PartialEq, Eq, Structural)]
pub enum Mode {
    Running,
    Debugging,
}

/// What the machine waits for before it can go on.
#[derive(Debug, Clone, Copy, PartialEq, Eq, Structural)]
pub enum Pending {
    /// Nothing: the next step goes on.
    Nothing,
    /// A debugger command, before the current instruction runs.
    Console,
    /// An input line, for the current `Input` instruction.
    Input,
    /// The console let the current instruction go: it runs at the next step.
    Released,
}

/// What one step of the machine asks of its host.
#[derive(Debug, Clone, Copy, PartialEq, Eq, Structural)]
pub enum Event {
    /// Nothing to do: step again.
    Continue,
    /// Write this byte to the output.
    Output(u8),
    /// Read an input line and hand it to the machine.
    NeedInput,
    /// Open the debugger console before the instruction `symbol` runs.
    Console { position: u64, pointer: usize, symbol: u8 },
    /// The program has run to its end.
    Finished,
    /// The instruction at `position` would move the pointer off the tape.
    Fault { position: u64 },
}

/// The abstract state of the machine.
pub struct Machine {
    pub code: Seq<OpCode>,
    pub tape: Seq<u8>,
    pub pointer: nat,
    pub mode: Mode,
    /// One index per body that execution is inside of, outermost first: the
    /// index of the instruction to run next in the innermost body, and of the
    /// enclosing loop in each outer one.
    pub frames: Seq<usize>,
    /// How many instructions have run so far, modulo 2^64.
    pub visited: u64,
    pub pending: Pending,
}

/// The body of a loop instruction; empty for any other.
pub open spec fn body_of(op: OpCode) -> Seq<OpCode> {
    match op {
        OpCode::Loop(b) => b@,
        _ => seq![],
    }
}

/// The body that frame `k` walks through.
pub open spec fn body_at(code: Seq<OpCode>, frames: Seq<usize>, k: nat) -> Seq<OpCode>
    decreases k,
{
    if k == 0 {
        code
    } else {
        body_of(body_at(code, frames, (k - 1) as nat)[frames[k - 1] as int])
    }
}

/// The source text from frame `k`'s enclosing loop on, for an outer frame.
pub open spec fn text_after(code: Seq<OpCode>, frames: Seq<usize>, k: nat) -> Seq<u8>
    decreases k,
{
    let here = text_of(body_at(code, frames, k).skip(frames[k as int] + 1));
    if k == 0 {
        here
    } else {
        here + seq![93u8] + text_after(code, frames, (k - 1) as nat)
    }
}

/// One more, modulo 2^64.
pub open spec fn bump(v: u64) -> u64 {
    if v == u64::MAX {
        0
    } else {
        (v + 1) as u64
    }
}

impl Machine {
    pub open spec fn top(self) -> int {
        self.frames.len() - 1
    }

    pub open spec fn body(self, k: int) -> Seq<OpCode> {
        body_at(self.code, self.frames, k as nat)
    }

    pub open spec fn index(self) -> int {
        self.frames[self.top()] as int
    }

    pub open spec fn at_end(self) -> bool {
        self.index() >= self.body(self.top()).len()
    }

    pub open spec fn current(self) -> OpCode {
        self.body(self.top())[self.index()]
    }

    pub open spec fn cell(self) -> u8 {
        self.tape[self.pointer as int]
    }

    pub open spec fn wf(self) -> bool {
        &&& self.frames.len() >= 1
        &&& self.tape.len() == TAPE_LEN
        &&& self.pointer < TAPE_LEN
        &&& forall|k: int|
            0 <= k < self.top() ==> self.frames[k] < (#[trigger] body_at(
                self.code,
                self.frames,
                k as nat,
            )).len() && body_at(self.code, self.frames, k as nat)[self.frames[k] as int] is Loop
        &&& self.index() <= self.body(self.top()).len()
        &&& self.pending != Pending::Nothing ==> !self.at_end()
        &&& self.pending == Pending::Input ==> self.current() is Input
        &&& self.pending == Pending::Console ==> self.mode == Mode::Debugging
    }

    /// The state once the current instruction has run and execution moved
    /// to the one after it.
    pub open spec fn advanced(self) -> Machine {
        Machine {
            frames: self.frames.update(self.top(), (self.index() + 1) as usize),
            pending: Pending::Nothing,
            visited: bump(self.visited),
            ..self
        }
    }

    /// The current instruction runs at the next step.
    pub open spec fn runs_now(self) -> bool {
        &&& !self.at_end()
        &&& (self.pending == Pending::Released || (self.pending == Pending::Nothing && self.mode
            == Mode::Running))
    }

    /// The source text of what is left to run, from the current instruction on.
    pub open spec fn upcoming(self) -> Seq<u8> {
        let here = text_of(self.body(self.top()).skip(self.index()));
        if self.top() == 0 {
            here
        } else {
            here + seq![93u8] + text_after(self.code, self.frames, (self.top() - 1) as nat)
        }
    }
}

/// The state after one step.
pub open spec fn next(m: Machine) -> Machine {
    if m.at_end() {
        if m.top() == 0 {
            m
        } else if m.cell() != 0 {
            Machine { frames: m.frames.update(m.top(), 0), ..m }
        } else {
            let outer = m.frames.drop_last();
            Machine { frames: outer.update(m.top() - 1, (outer[m.top() - 1] + 1) as usize), ..m }
        }
    } else if m.pending == Pending::Console || m.pending == Pending::Input {
        m
    } else if m.mode == Mode::Debugging && m.pending == Pending::Nothing {
        Machine { pending: Pending::Console, ..m }
    } else {
        let p = m.pointer as int;
        match m.current() {
            OpCode::MoveRight => if m.pointer + 1 < TAPE_LEN {
                Machine { pointer: m.pointer + 1, ..m.advanced() }
            } else {
                m
            },
            OpCode::MoveLeft => if m.pointer > 0 {
                Machine { pointer: (m.pointer - 1) as nat, ..m.advanced() }
            } else {
                m
            },
            OpCode::Increment => Machine {
                tape: m.tape.update(p, ((m.cell() + 1) % 256) as u8),
                ..m.advanced()
            },
            OpCode::Decrement => Machine {
                tape: m.tape.update(p, ((m.cell() + 255) % 256) as u8),
                ..m.advanced()
            },
            OpCode::Output => m.advanced(),
            OpCode::Input => Machine { pending: Pending::Input, ..m },
            OpCode::Breakpoint => Machine { mode: Mode::Debugging, ..m.advanced() },
            OpCode::Loop(_) => if m.cell() != 0 {
                Machine {
                    frames: m.frames.push(0),
                    pending: Pending::Nothing,
                    visited: bump(m.visited),
                    ..m
                }
            } else {
                m.advanced()
            },
        }
    }
}

/// What one step asks of the host.
pub open spec fn event_of(m: Machine) -> Event {
    if m.at_end() {
        if m.top() == 0 {
            Event::Finished
        } else {
            Event::Continue
        }
    } else if m.pending == Pending::Input {
        Event::NeedInput
    } else if m.pending == Pending::Console || (m.mode == Mode::Debugging && m.pending
        == Pending::Nothing) {
        Event::Console {
            position: m.visited,
            pointer: m.pointer as usize,
            symbol: symbol(m.current()),
        }
    } else {
        match m.current() {
            OpCode::MoveRight => if m.pointer + 1 < TAPE_LEN {
                Event::Continue
            } else {
                Event::Fault { position: m.visited }
            },
            OpCode::MoveLeft => if m.pointer > 0 {
                Event::Continue
            } else {
                Event::Fault { position: m.visited }
            },
            OpCode::Output => Event::Output(m.cell()),
            OpCode::Input => Event::NeedInput,
            _ => Event::Continue,
        }
    }
}

/// The state once an input line has been handed to the machine: its first
/// byte goes to the current cell. An empty line changes nothing.
pub open spec fn fed(m: Machine, line: Seq<u8>) -> Machine {
    if m.pending == Pending::Input && line.len() > 0 {
        Machine { tape: m.tape.update(m.pointer as int, line[0]), ..m.advanced() }
    } else {
        m
    }
}

/// The body of frame `k` depends on the frames before it alone.
pub(crate) proof fn lemma_body_at_prefix(code: Seq<OpCode>, f1: Seq<usize>, f2: Seq<usize>, k: nat)
    requires
        k <= f1.len(),
        k <= f2.len(),
        forall|i: int| 0 <= i < k ==> f1[i] == f2[i],
    ensures
        body_at(code, f1, k) == body_at(code, f2, k),
    decreases k,
{
    if k > 0 {
        lemma_body_at_prefix(code, f1, f2, (k - 1) as nat);
    }
}

/// A step keeps the machine well formed.
pub(crate) proof fn lemma_next_wf(m: Machine)
    requires
        m.wf(),
    ensures
        next(m).wf(),
        next(m).code == m.code,
{
    let n = next(m);
    let top = m.top();
    if n.frames.len() == m.frames.len() {
        assert forall|k: int| 0 <= k <= top implies #[trigger] body_at(n.code, n.frames, k as nat) == body_at(m.code, m.frames, k as nat) by {
            lemma_body_at_prefix(m.code, m.frames, n.frames, k as nat);
        }
        assert(n.body(top) == m.body(top));
    } else if n.frames.len() == m.frames.len() + 1 {
        assert forall|k: int| 0 <= k <= top implies #[trigger] body_at(n.code, n.frames, k as nat) == body_at(m.code, m.frames, k as nat) by {
            lemma_body_at_prefix(m.code, m.frames, n.frames, k as nat);
        }
        assert(n.body(top) == m.body(top));
        assert(n.frames[top] == m.frames[top]);
        assert(n.body(top + 1) == body_of(n.body(top)[n.frames[top] as int]));
    } else {
        assert forall|k: int| 0 <= k <= top - 1 implies #[trigger] body_at(n.code, n.frames, k as nat) == body_at(m.code, m.frames, k as nat) by {
            lemma_body_at_prefix(m.code, m.frames, n.frames, k as nat);
        }
        assert(m.body(top) == body_of(m.body(top - 1)[m.frames[top - 1] as int]));
    }
}

/// A debugger command.
#[derive(Debug, Clone, Copy, PartialEq, Eq, Structural)]
pub enum Command {
    /// Run the current instruction and stop before the next one.
    Next,
    /// Show the instructions from the current one on.
    PrintCode,
    /// Show the tape around the data pointer.
    PrintMemory,
    /// Leave the console and run on until the next breakpoint.
    Exit,
}

/// The command that a console line names, if any.
pub open spec fn command_of(s: Seq<u8>) -> Option<Command> {
    if s == seq![110u8, 101, 120, 116] || s == seq![110u8] {
        Some(Command::Next)
    } else if s == seq![99u8, 111, 100, 101] || s == seq![99u8] {
        Some(Command::PrintCode)
    } else if s == seq![109u8, 101, 109] || s == seq![109u8] {
        Some(Command::PrintMemory)
    } else if s == seq![101u8, 120, 105, 116] || s == seq![113u8, 117, 105, 116] || s == seq![113u8] {
        Some(Command::Exit)
    } else {
        None
    }
}

/// The state once the console has read `line`: `next` lets the current
/// instruction run, `exit` does so too and leaves debugging mode; any other
/// line changes nothing.
pub open spec fn commanded(m: Machine, line: Seq<u8>) -> Machine {
    match command_of(line) {
        Some(Command::Next) => Machine { pending: Pending::Released, ..m },
        Some(Command::Exit) => Machine { pending: Pending::Released, mode: Mode::Running, ..m },
        _ => m,
    }
}

/// The console's `next` lets exactly the current instruction run: the
/// machine stays in debugging mode, the step after the command runs that
/// instruction without a stop, and once it has run, the console stops again
/// before the next instruction. `exit` leaves debugging mode and lets the
/// current instruction run without a stop.
pub proof fn lemma_console_next_and_exit(m: Machine, line: Seq<u8>)
    requires
        m.wf(),
        m.pending == Pending::Console,
    ensures
        command_of(line) == Some(Command::Next) ==> {
            let r = commanded(m, line);
            &&& r.mode == Mode::Debugging
            &&& r.runs_now()
            &&& !(event_of(r) is Console)
            &&& next(r).pending == Pending::Nothing ==> {
                &&& next(r).visited == bump(m.visited)
                &&& next(r).mode == Mode::Debugging
                &&& !next(r).at_end() ==> event_of(next(r)) is Console
            }
        },
        command_of(line) == Some(Command::Exit) ==> {
            let r = commanded(m, line);
            &&& r.mode == Mode::Running
            &&& r.runs_now()
            &&& !(event_of(r) is Console)
        },
{
}

/// In running mode no step stops for the console, and only a breakpoint
/// leaves running mode.
pub proof fn lemma_running_never_stops(m: Machine)
    requires
        m.wf(),
        m.mode == Mode::Running,
        m.pending != Pending::Console,
    ensures
        !(event_of(m) is Console),
        next(m).pending != Pending::Console,
        !(m.runs_now() && m.current() is Breakpoint) ==> next(m).mode == Mode::Running,
{
}

/// Most bytes that a code listing shows: eight rows of sixty-four.
pub const LISTING_LEN: usize = 512;

/// What the console shows of the code: the upcoming source text, cut to
/// `LISTING_LEN` bytes.
pub open spec fn listing(m: Machine) -> Seq<u8> {
    let u = m.upcoming();
    if u.len() <= LISTING_LEN {
        u
    } else {
        u.take(LISTING_LEN as int)
    }
}

/// The state and the event after at most `n` steps: steps go on while they
/// ask nothing of the host.
pub open spec fn run_for(m: Machine, n: nat) -> (Machine, Event)
    decreases n,
{
    if n == 0 {
        (m, Event::Continue)
    } else if event_of(m) == Event::Continue {
        run_for(next(m), (n - 1) as nat)
    } else {
        (next(m), event_of(m))
    }
}

/// Cell arithmetic wraps: an increment adds one modulo 256, so 255 becomes
/// 0, and a decrement subtracts one modulo 256, so 0 becomes 255. Nothing
/// else on the tape changes.
pub proof fn lemma_cell_wraps(m: Machine)
    requires
        m.wf(),
        m.runs_now(),
    ensures
        m.current() is Increment ==> next(m).cell() == (m.cell() + 1) % 256,
        m.current() is Increment && m.cell() == 255 ==> next(m).cell() == 0,
        m.current() is Decrement ==> next(m).cell() == (m.cell() + 255) % 256,
        m.current() is Decrement && m.cell() == 0 ==> next(m).cell() == 255,
        m.current() is Increment || m.current() is Decrement ==> {
            &&& next(m).pointer == m.pointer
            &&& forall|i: int| 0 <= i < TAPE_LEN && i != m.pointer ==> next(m).tape[i] == m.tape[i]
        },
{
}

/// A loop tests the current cell when it is reached and again after each
/// full pass of its body: on zero execution goes past the loop, so a loop
/// reached with a zero cell runs its body no time; otherwise the body runs
/// (again) from its first instruction. The test leaves tape and pointer as
/// they were.
pub proof fn lemma_loop_condition(m: Machine)
    requires
        m.wf(),
    ensures
        m.runs_now() && m.current() is Loop ==> {
            &&& m.cell() == 0 ==> next(m).frames == m.frames.update(m.top(), (m.index() + 1) as usize)
            &&& m.cell() != 0 ==> next(m).frames == m.frames.push(0) && next(m).body(next(m).top())
                == body_of(m.current())
            &&& next(m).tape == m.tape && next(m).pointer == m.pointer
        },
        m.at_end() && m.top() > 0 ==> {
            &&& m.cell() != 0 ==> next(m).frames == m.frames.update(m.top(), 0)
            &&& m.cell() == 0 ==> next(m).frames == m.frames.drop_last().update(
                m.top() - 1,
                (m.frames[m.top() - 1] + 1) as usize,
            )
            &&& next(m).tape == m.tape && next(m).pointer == m.pointer
        },
{
    let n = next(m);
    if m.runs_now() && m.current() is Loop && m.cell() != 0 {
        lemma_body_at_prefix(m.code, m.frames, n.frames, m.top() as nat);
        assert(n.body(n.top()) == body_of(n.body(m.top())[n.frames[m.top()] as int]));
    }
}

/// Cells in one row of a memory listing.
pub const ROW_CELLS: usize = 16;

/// Most rows that a memory listing shows.
pub const MEMORY_ROWS: usize = 8;

/// The lower-case hexadecimal digit of `n`, for `0 <= n < 16`.
pub open spec fn hex_digit(n: int) -> u8 {
    if n < 10 {
        (48 + n) as u8
    } else {
        (87 + n) as u8
    }
}

/// Two hexadecimal digits for a byte.
pub open spec fn hex_byte(b: u8) -> Seq<u8> {
    seq![hex_digit(b as int / 16), hex_digit(b as int % 16)]
}

/// Eight hexadecimal digits for an address.
pub open spec fn hex_address(a: int) -> Seq<u8> {
    seq![
        hex_digit(a / 0x10000000 % 16),
        hex_digit(a / 0x1000000 % 16),
        hex_digit(a / 0x100000 % 16),
        hex_digit(a / 0x10000 % 16),
        hex_digit(a / 0x1000 % 16),
        hex_digit(a / 0x100 % 16),
        hex_digit(a / 0x10 % 16),
        hex_digit(a % 16),
    ]
}

/// The bytes in hexadecimal, separated by single spaces.
pub open spec fn hex_cells(c: Seq<u8>) -> Seq<u8>
    decreases c.len(),
{
    if c.len() == 0 {
        seq![]
    } else if c.len() == 1 {
        hex_byte(c[0])
    } else {
        hex_cells(c.drop_last()) + seq![32u8] + hex_byte(c.last())
    }
}

/// A byte as the text gutter shows it: itself if printable, else `.`.
pub open spec fn shown(b: u8) -> u8 {
    if 32 <= b <= 126 {
        b
    } else {
        46
    }
}

/// One row of a memory listing: `0x` and the address in eight hexadecimal
/// digits, two spaces, the cells in hexadecimal, two spaces, and the cells
/// as text.
pub open spec fn memory_row(tape: Seq<u8>, a: int) -> Seq<u8> {
    let cells = tape.subrange(a, a + ROW_CELLS);
    seq![48u8, 120] + hex_address(a) + seq![32u8, 32] + hex_cells(cells) + seq![32u8, 32]
        + cells.map_values(|b: u8| shown(b))
}

/// Where a memory listing starts: the row that holds the data pointer.
pub open spec fn memory_start(m: Machine) -> int {
    (m.pointer / ROW_CELLS as nat * ROW_CELLS as nat) as int
}

/// What the console shows of the tape: up to `MEMORY_ROWS` rows from
/// `memory_start`, as far as the tape goes.
pub open spec fn memory_rows(m: Machine) -> Seq<Seq<u8>> {
    let start = memory_start(m);
    let left = (TAPE_LEN - start) / ROW_CELLS as int;
    let n = if left < MEMORY_ROWS { left } else { MEMORY_ROWS as int };
    Seq::new(n as nat, |r: int| memory_row(m.tape, start + r * ROW_CELLS))
}

/// Handing a line to a machine that waits for input keeps it well formed.
pub(crate) proof fn lemma_fed_wf(m: Machine, line: Seq<u8>)
    requires
        m.wf(),
    ensures
        fed(m, line).wf(),
        fed(m, line).code == m.code,
{
    let n = fed(m, line);
    assert forall|k: int| 0 <= k <= m.top() implies #[trigger] body_at(n.code, n.frames, k as nat) == body_at(m.code, m.frames, k as nat) by {
        lemma_body_at_prefix(m.code, m.frames, n.frames, k as nat);
    }
}

/// A console command keeps the machine well formed.
pub(crate) proof fn lemma_commanded_wf(m: Machine, line: Seq<u8>)
    requires
        m.wf(),
        m.pending == Pending::Console,
    ensures
        commanded(m, line).wf(),
{
}

} // verus!
