//! The executable interpreter, which refines the abstract machine step by
//! step, and its debugger console.
use vstd::prelude::*;

use crate::machine::{
    body_at, body_of, command_of, hex_address, hex_byte, hex_cells, hex_digit, memory_row,
    memory_rows, memory_start, shown, MEMORY_ROWS, ROW_CELLS, commanded, event_of, fed, lemma_commanded_wf, lemma_fed_wf,
    lemma_next_wf, listing, next, run_for, text_after, Command, Event, Machine, Mode, Pending, LISTING_LEN,
    TAPE_LEN,
};
use crate::opcodes::{lemma_text_push, symbol, text_of, OpCode};

verus! {

/// The execution engine: a program, its tape, the data pointer, the mode, and
/// where execution stands in the instruction tree. The host drives it one
/// step at a time and does the input and output that each step asks for.
pub struct Interpreter {
    code: Vec<OpCode>,
    tape: Vec<u8>,
    pointer: usize,
    mode: Mode,
    frames: Vec<usize>,
    visited: u64,
    pending: Pending,
}

impl View for Interpreter {
    type V = Machine;

    closed spec fn view(&self) -> Machine {
        Machine {
            code: self.code@,
            tape: self.tape@,
            pointer: self.pointer as nat,
            mode: self.mode,
            frames: self.frames@,
            visited: self.visited,
            pending: self.pending,
        }
    }
}

/// The symbol of an instruction.
pub fn symbol_of(op: &OpCode) -> (r: u8)
    ensures
        r == symbol(*op),
{
    match op {
        OpCode::MoveRight => 62,
        OpCode::MoveLeft => 60,
        OpCode::Increment => 43,
        OpCode::Decrement => 45,
        OpCode::Output => 46,
        OpCode::Input => 44,
        OpCode::Breakpoint => 33,
        OpCode::Loop(_) => 91,
    }
}

/// The body that frame `k` walks through.
fn body_ref<'a>(code: &'a Vec<OpCode>, frames: &Vec<usize>, k: usize) -> (r: &'a Vec<OpCode>)
    requires
        k < frames.len(),
        forall|j: int|
            0 <= j < k ==> frames@[j] < (#[trigger] body_at(code@, frames@, j as nat)).len()
                && body_at(code@, frames@, j as nat)[frames@[j] as int] is Loop,
    ensures
        r@ == body_at(code@, frames@, k as nat),
{
    let mut body = code;
    let mut j: usize = 0;
    while j < k
        invariant
            j <= k < frames.len(),
            body@ == body_at(code@, frames@, j as nat),
            forall|i: int|
                0 <= i < k ==> frames@[i] < (#[trigger] body_at(code@, frames@, i as nat)).len()
                    && body_at(code@, frames@, i as nat)[frames@[i] as int] is Loop,
        decreases k - j,
    {
        proof {
            assert(body_at(code@, frames@, (j + 1) as nat) == body_of(body@[frames@[j as int] as int]));
        }
        match &body[frames[j]] {
            OpCode::Loop(b) => {
                body = b;
            },
            _ => {
                proof {
                    assert(false);
                }
            },
        }
        j = j + 1;
    }
    body
}

/// What the console answers to a line.
#[derive(Debug)]
pub enum Reply {
    /// The current instruction may run: step on.
    Resume,
    /// An empty line: show the prompt again.
    Prompt,
    /// The upcoming source text.
    Code(Vec<u8>),
    /// Rows of text that show the tape.
    Memory(Vec<Vec<u8>>),
    /// A line that names no command.
    Unknown(Vec<u8>),
}

/// Reads a debugger command: `next` or `n`, `code` or `c`, `mem` or `m`,
/// `exit`, `quit` or `q`.
pub fn parse_command(line: &[u8]) -> (r: Option<Command>)
    ensures
        r == command_of(line@),
{
    let n = line.len();
    let ghost s = line@;
    if n == 1 {
        let c = line[0];
        proof {
            assert(s =~= seq![c]);
        }
        if c == 110 {
            Some(Command::Next)
        } else if c == 99 {
            Some(Command::PrintCode)
        } else if c == 109 {
            Some(Command::PrintMemory)
        } else if c == 113 {
            Some(Command::Exit)
        } else {
            None
        }
    } else if n == 3 {
        if line[0] == 109 && line[1] == 101 && line[2] == 109 {
            proof {
                assert(s =~= seq![109u8, 101, 109]);
            }
            Some(Command::PrintMemory)
        } else {
            None
        }
    } else if n == 4 {
        let (a, b, c, d) = (line[0], line[1], line[2], line[3]);
        proof {
            assert(s =~= seq![a, b, c, d]);
        }
        if a == 110 && b == 101 && c == 120 && d == 116 {
            Some(Command::Next)
        } else if a == 99 && b == 111 && c == 100 && d == 101 {
            Some(Command::PrintCode)
        } else if a == 101 && b == 120 && c == 105 && d == 116 {
            Some(Command::Exit)
        } else if a == 113 && b == 117 && c == 105 && d == 116 {
            Some(Command::Exit)
        } else {
            None
        }
    } else {
        None
    }
}

/// A vector that holds the bytes of `s`.
fn copy_bytes(s: &[u8]) -> (r: Vec<u8>)
    ensures
        r@ == s@,
{
    let mut r: Vec<u8> = Vec::new();
    let mut i: usize = 0;
    while i < s.len()
        invariant
            i <= s.len(),
            r@ == s@.take(i as int),
        decreases s.len() - i,
    {
        r.push(s[i]);
        i = i + 1;
        proof {
            assert(r@ =~= s@.take(i as int));
        }
    }
    proof {
        assert(s@.take(s.len() as int) =~= s@);
    }
    r
}

/// The hexadecimal digit of `n`.
fn hex_digit_of(n: u8) -> (r: u8)
    requires
        n < 16,
    ensures
        r == hex_digit(n as int),
{
    if n < 10 {
        48 + n
    } else {
        87 + n
    }
}

/// The memory listing row that starts at address `a`.
fn memory_row_text(tape: &Vec<u8>, a: usize) -> (r: Vec<u8>)
    requires
        a + ROW_CELLS <= tape.len(),
    ensures
        r@ == memory_row(tape@, a as int),
{
    let mut out: Vec<u8> = Vec::new();
    out.push(48);
    out.push(120);
    out.push(hex_digit_of((a / 0x10000000 % 16) as u8));
    out.push(hex_digit_of((a / 0x1000000 % 16) as u8));
    out.push(hex_digit_of((a / 0x100000 % 16) as u8));
    out.push(hex_digit_of((a / 0x10000 % 16) as u8));
    out.push(hex_digit_of((a / 0x1000 % 16) as u8));
    out.push(hex_digit_of((a / 0x100 % 16) as u8));
    out.push(hex_digit_of((a / 0x10 % 16) as u8));
    out.push(hex_digit_of((a % 16) as u8));
    out.push(32);
    out.push(32);
    let ghost head = out@;
    let ghost cells = tape@.subrange(a as int, a + ROW_CELLS);
    proof {
        assert(head =~= seq![48u8, 120] + hex_address(a as int) + seq![32u8, 32]);
        assert(cells.subrange(0, 0) =~= seq![]);
        assert(head + hex_cells(seq![]) =~= head);
    }
    let mut i: usize = 0;
    while i < ROW_CELLS
        invariant
            i <= ROW_CELLS,
            a + ROW_CELLS <= tape.len(),
            cells == tape@.subrange(a as int, a + ROW_CELLS),
            out@ == head + hex_cells(cells.subrange(0, i as int)),
        decreases ROW_CELLS - i,
    {
        let ghost before = out@;
        let b = tape[a + i];
        if i > 0 {
            out.push(32);
        }
        out.push(hex_digit_of(b / 16));
        out.push(hex_digit_of(b % 16));
        proof {
            let c = cells.subrange(0, i + 1);
            assert(c.drop_last() =~= cells.subrange(0, i as int));
            assert(c.last() == b);
            if i == 0 {
                assert(out@ =~= before + hex_byte(b));
                assert(before + hex_cells(seq![]) =~= before);
            } else {
                assert(out@ =~= before + seq![32u8] + hex_byte(b));
            }
        }
        i = i + 1;
    }
    out.push(32);
    out.push(32);
    let ghost mid = out@;
    proof {
        assert(cells.subrange(0, ROW_CELLS as int) =~= cells);
        assert(cells.take(0).map_values(|b: u8| shown(b)) =~= seq![]);
        assert(mid + seq![] =~= mid);
    }
    let mut j: usize = 0;
    while j < ROW_CELLS
        invariant
            j <= ROW_CELLS,
            a + ROW_CELLS <= tape.len(),
            cells == tape@.subrange(a as int, a + ROW_CELLS),
            out@ == mid + cells.take(j as int).map_values(|b: u8| shown(b)),
        decreases ROW_CELLS - j,
    {
        let b = tape[a + j];
        let c = if 32 <= b && b <= 126 {
            b
        } else {
            46
        };
        out.push(c);
        j = j + 1;
        proof {
            assert(cells.take(j as int).map_values(|b: u8| shown(b)) =~= cells.take(j - 1).map_values(
                |b: u8| shown(b),
            ).push(c));
        }
    }
    proof {
        assert(cells.take(ROW_CELLS as int) =~= cells);
    }
    out
}

/// Appends the source text of `ops`, from index `from` on, to `out`.
fn render(ops: &Vec<OpCode>, from: usize, out: &mut Vec<u8>)
    requires
        from <= ops.len(),
    ensures
        final(out)@ == old(out)@ + text_of(ops@.skip(from as int)),
    decreases ops@,
{
    let mut i = from;
    proof {
        assert(ops@.subrange(from as int, from as int) =~= seq![]);
        assert(old(out)@ + text_of(seq![]) =~= old(out)@);
    }
    while i < ops.len()
        invariant
            from <= i <= ops.len(),
            out@ == old(out)@ + text_of(ops@.subrange(from as int, i as int)),
        decreases ops.len() - i,
    {
        let ghost before = out@;
        proof {
            lemma_text_push(ops@.subrange(from as int, i as int), ops@[i as int]);
            assert(ops@.subrange(from as int, i + 1) =~= ops@.subrange(from as int, i as int).push(
                ops@[i as int],
            ));
        }
        match &ops[i] {
            OpCode::Loop(b) => {
                out.push(91);
                proof {
                    assert(decreases_to!(ops@ => b@)) by {
                        assert(decreases_to!(ops@ => ops@[i as int]));
                        assert(decreases_to!(ops@[i as int] => *b));
                        assert(decreases_to!(*b => b@));
                    }
                }
                render(b, 0, out);
                out.push(93);
                proof {
                    assert(b@.skip(0) =~= b@);
                    assert(out@ =~= before + (seq![91u8] + text_of(b@) + seq![93u8]));
                }
            },
            op => {
                out.push(symbol_of(op));
                proof {
                    assert(out@ =~= before + seq![symbol(*op)]);
                }
            },
        }
        i = i + 1;
    }
    proof {
        assert(ops@.subrange(from as int, ops.len() as int) =~= ops@.skip(from as int));
    }
}

impl Interpreter {
    /// A machine at the start of `code`: a zeroed tape, the pointer on its
    /// first cell, running.
    pub fn new(code: Vec<OpCode>) -> (r: Interpreter)
        ensures
            r@.wf(),
            r@.code == code@,
            r@.tape == Seq::new(TAPE_LEN as nat, |i: int| 0u8),
            r@.pointer == 0,
            r@.mode == Mode::Running,
            r@.frames == seq![0usize],
            r@.visited == 0,
            r@.pending == Pending::Nothing,
    {
        let mut tape: Vec<u8> = Vec::new();
        while tape.len() < TAPE_LEN
            invariant
                tape.len() <= TAPE_LEN,
                forall|i: int| 0 <= i < tape.len() ==> tape@[i] == 0,
            decreases TAPE_LEN - tape.len(),
        {
            tape.push(0);
        }
        let mut frames: Vec<usize> = Vec::new();
        frames.push(0);
        let r = Interpreter {
            code,
            tape,
            pointer: 0,
            mode: Mode::Running,
            frames,
            visited: 0,
            pending: Pending::Nothing,
        };
        proof {
            assert(r@.tape =~= Seq::new(TAPE_LEN as nat, |i: int| 0u8));
            assert(r@.frames =~= seq![0usize]);
            assert(r@.body(0) == r@.code);
        }
        r
    }

    /// Marks the current instruction, at `idx` in the innermost body, as run.
    fn advance(&mut self, top: usize, idx: usize)
        requires
            old(self).frames.len() == top + 1,
            old(self).frames@[top as int] == idx,
            idx < usize::MAX,
        ensures
            final(self)@ == (Machine { pointer: old(self)@.pointer, tape: old(self)@.tape, ..old(self)@.advanced() }),
    {
        self.frames.set(top, idx + 1);
        self.pending = Pending::Nothing;
        self.visited = if self.visited < u64::MAX {
            self.visited + 1
        } else {
            0
        };
    }

    /// Hands an input line to a machine that waits for one: its first byte
    /// goes to the current cell and the `Input` instruction is done. Says
    /// whether the line was taken; an empty line, or a machine that waits
    /// for no input, leaves everything as it was.
    pub fn feed_input(&mut self, line: &[u8]) -> (taken: bool)
        requires
            old(self)@.wf(),
        ensures
            final(self)@ == fed(old(self)@, line@),
            final(self)@.wf(),
            taken == (old(self)@.pending == Pending::Input && line@.len() > 0),
    {
        proof {
            lemma_fed_wf(self@, line@);
        }
        if self.pending != Pending::Input || line.len() == 0 {
            return false;
        }
        let top = self.frames.len() - 1;
        let idx = self.frames[top];
        let body = body_ref(&self.code, &self.frames, top);
        proof {
            assert(body@.len() == body.len());
        }
        let p = self.pointer;
        self.advance(top, idx);
        self.tape.set(p, line[0]);
        true
    }

    /// The upcoming source text, cut to `LISTING_LEN` bytes.
    pub fn code_listing(&self) -> (r: Vec<u8>)
        requires
            self@.wf(),
        ensures
            r@ == listing(self@),
    {
        let ghost m = self@;
        let top = self.frames.len() - 1;
        let body = body_ref(&self.code, &self.frames, top);
        let mut out: Vec<u8> = Vec::new();
        render(body, self.frames[top], &mut out);
        let mut k = top;
        proof {
            assert(out@ =~= text_of(m.body(m.top()).skip(m.index())));
        }
        while k > 0
            invariant
                self@ == m,
                m.wf(),
                k <= top == m.top(),
                m.upcoming() == out@ + if k == 0 {
                    seq![]
                } else {
                    seq![93u8] + text_after(m.code, m.frames, (k - 1) as nat)
                },
            decreases k,
        {
            let outer = body_ref(&self.code, &self.frames, k - 1);
            let ghost before = out@;
            let f = self.frames[k - 1];
            proof {
                assert(outer@.len() == outer.len());
                assert(f < outer@.len());
            }
            out.push(93);
            render(outer, f + 1, &mut out);
            proof {
                let here = text_of(m.body(k - 1).skip(m.frames[k - 1] + 1));
                assert(out@ =~= before + seq![93u8] + here);
                if k - 1 == 0 {
                    assert(text_after(m.code, m.frames, 0) == here);
                    assert(before + (seq![93u8] + here) =~= out@ + seq![]);
                } else {
                    assert(text_after(m.code, m.frames, (k - 1) as nat) == here + seq![93u8]
                        + text_after(m.code, m.frames, (k - 2) as nat));
                    assert(before + (seq![93u8] + (here + seq![93u8] + text_after(m.code, m.frames, (k - 2) as nat)))
                        =~= out@ + (seq![93u8] + text_after(m.code, m.frames, (k - 2) as nat)));
                }
            }
            k = k - 1;
        }
        proof {
            assert(out@ + seq![] =~= out@);
        }
        out.truncate(LISTING_LEN);
        out
    }

    /// The rows of tape around the data pointer, as text.
    pub fn memory_listing(&self) -> (r: Vec<Vec<u8>>)
        requires
            self@.wf(),
        ensures
            r@.map_values(|v: Vec<u8>| v@) == memory_rows(self@),
    {
        let ghost m = self@;
        let start = self.pointer / ROW_CELLS * ROW_CELLS;
        let ghost want = memory_rows(m);
        proof {
            assert(start == memory_start(m));
            assert(TAPE_LEN % ROW_CELLS == 0);
            assert(start % 16 == 0) by (nonlinear_arith)
                requires start == self.pointer / 16 * 16;
            assert(start <= self.pointer) by (nonlinear_arith)
                requires start == self.pointer / 16 * 16;
        }
        let mut rows: Vec<Vec<u8>> = Vec::new();
        let mut r: usize = 0;
        while r < MEMORY_ROWS && start + r * ROW_CELLS < TAPE_LEN
            invariant
                self@ == m,
                m.wf(),
                start == memory_start(m),
                start % 16 == 0,
                start < TAPE_LEN,
                want == memory_rows(m),
                r <= MEMORY_ROWS,
                r <= want.len(),
                rows@.len() == r,
                forall|i: int| 0 <= i < r ==> (#[trigger] rows@[i])@ == want[i],
            decreases MEMORY_ROWS - r,
        {
            let a = start + r * ROW_CELLS;
            proof {
                assert((TAPE_LEN - a) % 16 == 0) by (nonlinear_arith)
                    requires a == start + r * 16, start % 16 == 0, a < 61440;
                assert(a + ROW_CELLS <= TAPE_LEN);
                assert(r < want.len()) by (nonlinear_arith)
                    requires a == start + r * 16, a + 16 <= 61440, r < 8,
                        want.len() == (if (61440 - start) / 16 < 8 { (61440 - start) / 16 } else { 8 });
            }
            rows.push(memory_row_text(&self.tape, a));
            r = r + 1;
        }
        proof {
            assert(r == want.len()) by (nonlinear_arith)
                requires r <= want.len(), r <= 8, r == 8 || start + r * 16 >= 61440, start % 16 == 0,
                    want.len() == (if (61440 - start) / 16 < 8 { (61440 - start) / 16 } else { 8 });
            assert(rows@.map_values(|v: Vec<u8>| v@) =~= want);
        }
        rows
    }

    /// Answers a debugger command line while the console is open before the
    /// current instruction. `next` lets that instruction run; `exit` does so
    /// and leaves debugging mode; `code` and `mem` show the code and the
    /// tape; an empty line asks for the prompt again; any other line names
    /// no command.
    pub fn console(&mut self, line: &[u8]) -> (r: Reply)
        requires
            old(self)@.wf(),
            old(self)@.pending == Pending::Console,
        ensures
            final(self)@ == commanded(old(self)@, line@),
            final(self)@.wf(),
            line@.len() == 0 ==> r == Reply::Prompt,
            command_of(line@) == Some(Command::Next) ==> r == Reply::Resume,
            command_of(line@) == Some(Command::Exit) ==> r == Reply::Resume,
            command_of(line@) == Some(Command::PrintCode) ==> (r matches Reply::Code(t) && t@ == listing(old(self)@)),
            command_of(line@) == Some(Command::PrintMemory) ==> (r matches Reply::Memory(rows)
                && rows@.map_values(|v: Vec<u8>| v@) == memory_rows(old(self)@)),
            line@.len() > 0 && command_of(line@) is None ==> (r matches Reply::Unknown(t) && t@ == line@),
    {
        proof {
            lemma_commanded_wf(self@, line@);
        }
        if line.len() == 0 {
            return Reply::Prompt;
        }
        match parse_command(line) {
            Some(Command::Next) => {
                self.pending = Pending::Released;
                Reply::Resume
            },
            Some(Command::Exit) => {
                self.pending = Pending::Released;
                self.mode = Mode::Running;
                Reply::Resume
            },
            Some(Command::PrintCode) => Reply::Code(self.code_listing()),
            Some(Command::PrintMemory) => Reply::Memory(self.memory_listing()),
            None => Reply::Unknown(copy_bytes(line)),
        }
    }

    /// Runs steps while they ask nothing of the host, at most `budget` of
    /// them, and returns the first event that asks something (or `Continue`
    /// when the budget ran out first).
    pub fn run(&mut self, budget: usize) -> (e: Event)
        requires
            old(self)@.wf(),
        ensures
            (final(self)@, e) == run_for(old(self)@, budget as nat),
            final(self)@.wf(),
    {
        let mut left = budget;
        while left > 0
            invariant
                self@.wf(),
                run_for(self@, left as nat) == run_for(old(self)@, budget as nat),
            decreases left,
        {
            let e = self.step();
            if e != Event::Continue {
                return e;
            }
            left = left - 1;
        }
        Event::Continue
    }

    /// The data pointer.
    pub fn pointer(&self) -> (r: usize)
        ensures
            r == self@.pointer,
    {
        self.pointer
    }

    /// The value of cell `i`.
    pub fn cell(&self, i: usize) -> (r: u8)
        requires
            self@.wf(),
            i < TAPE_LEN,
        ensures
            r == self@.tape[i as int],
    {
        self.tape[i]
    }

    /// Whether the console stops before each instruction.
    pub fn mode(&self) -> (r: Mode)
        ensures
            r == self@.mode,
    {
        self.mode
    }

    /// What the machine waits for.
    pub fn pending(&self) -> (r: Pending)
        ensures
            r == self@.pending,
    {
        self.pending
    }

    /// How many instructions have run, modulo 2^64.
    pub fn position(&self) -> (r: u64)
        ensures
            r == self@.visited,
    {
        self.visited
    }

    /// Runs one step: the next instruction, the check that ends or repeats a
    /// loop, or a stop for the debugger console. Says what the host must do.
    pub fn step(&mut self) -> (e: Event)
        requires
            old(self)@.wf(),
        ensures
            final(self)@ == next(old(self)@),
            e == event_of(old(self)@),
            final(self)@.wf(),
    {
        proof {
            lemma_next_wf(self@);
        }
        let ghost m = self@;
        let top = self.frames.len() - 1;
        let idx = self.frames[top];
        let body = body_ref(&self.code, &self.frames, top);
        if idx >= body.len() {
            if top == 0 {
                return Event::Finished;
            }
            if self.tape[self.pointer] != 0 {
                self.frames.set(top, 0);
            } else {
                let parent = body_ref(&self.code, &self.frames, top - 1);
                let up = self.frames[top - 1];
                proof {
                    assert(parent@.len() == parent.len());
                }
                self.frames.pop();
                self.frames.set(top - 1, up + 1);
                proof {
                    assert(self@.frames =~= m.frames.drop_last().update(m.top() - 1, (up + 1) as usize));
                }
            }
            return Event::Continue;
        }
        let sym = symbol_of(&body[idx]);
        if self.pending == Pending::Input {
            return Event::NeedInput;
        }
        if self.pending == Pending::Console || (self.mode == Mode::Debugging && self.pending
            == Pending::Nothing) {
            self.pending = Pending::Console;
            return Event::Console { position: self.visited, pointer: self.pointer, symbol: sym };
        }
        let p = self.pointer;
        if sym == 62 {
            if p + 1 < TAPE_LEN {
                self.advance(top, idx);
                self.pointer = p + 1;
                Event::Continue
            } else {
                Event::Fault { position: self.visited }
            }
        } else if sym == 60 {
            if p > 0 {
                self.advance(top, idx);
                self.pointer = p - 1;
                Event::Continue
            } else {
                Event::Fault { position: self.visited }
            }
        } else if sym == 43 {
            let c = self.tape[p];
            self.advance(top, idx);
            self.tape.set(p, if c == 255 { 0 } else { c + 1 });
            Event::Continue
        } else if sym == 45 {
            let c = self.tape[p];
            self.advance(top, idx);
            self.tape.set(p, if c == 0 { 255 } else { c - 1 });
            Event::Continue
        } else if sym == 46 {
            let c = self.tape[p];
            self.advance(top, idx);
            Event::Output(c)
        } else if sym == 44 {
            self.pending = Pending::Input;
            Event::NeedInput
        } else if sym == 33 {
            self.advance(top, idx);
            self.mode = Mode::Debugging;
            Event::Continue
        } else {
            if self.tape[p] != 0 {
                self.frames.push(0);
                self.pending = Pending::Nothing;
                self.visited = if self.visited < u64::MAX {
                    self.visited + 1
                } else {
                    0
                };
            } else {
                self.advance(top, idx);
            }
            Event::Continue
        }
    }
}

} // verus!
