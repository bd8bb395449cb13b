//! The instruction tree and the compiler from source bytes to it.
use vstd::prelude::*;

verus! {

/// One instruction of a compiled program. A loop owns its body.
#[derive(Debug)]
pub enum OpCode {
    MoveRight,
    MoveLeft,
    Increment,
    Decrement,
    Output,
    Input,
    Breakpoint,
    Loop(Vec<OpCode>),
}

/// Why a source text does not compile.
#[derive(Debug, Clone, Copy, PartialEq, Eq, Structural)]
pub enum CompileError {
    /// A `[` whose matching `]` never comes.
    UnclosedLoop,
    /// A `]` with no open `[` before it.
    TooClosedLoop,
}

/// The bytes that stand for one instruction each.
pub open spec fn is_command(b: u8) -> bool {
    b == 62 || b == 60 || b == 43 || b == 45 || b == 46 || b == 44 || b == 33
}

/// The bytes that mean something to the compiler; all others are comments.
pub open spec fn is_meaningful(b: u8) -> bool {
    is_command(b) || b == 91 || b == 93
}

/// The source with its comments taken out.
pub open spec fn meaningful(s: Seq<u8>) -> Seq<u8>
    decreases s.len(),
{
    if s.len() == 0 {
        seq![]
    } else if is_meaningful(s.last()) {
        meaningful(s.drop_last()).push(s.last())
    } else {
        meaningful(s.drop_last())
    }
}

/// The number of bytes of `s` that stand for an instruction.
pub open spec fn command_count(s: Seq<u8>) -> nat
    decreases s.len(),
{
    if s.len() == 0 {
        0
    } else if is_command(s.last()) {
        command_count(s.drop_last()) + 1
    } else {
        command_count(s.drop_last())
    }
}

/// How a byte changes the nesting depth.
pub open spec fn delta(b: u8) -> int {
    if b == 91 {
        1
    } else if b == 93 {
        -1
    } else {
        0
    }
}

/// Opened brackets minus closed brackets in `s`.
pub open spec fn nest(s: Seq<u8>) -> int
    decreases s.len(),
{
    if s.len() == 0 {
        0
    } else {
        nest(s.drop_last()) + delta(s.last())
    }
}

/// No prefix of `s` closes more brackets than it opens.
pub open spec fn never_dips(s: Seq<u8>) -> bool {
    forall|j: int| 0 <= j <= s.len() ==> nest(#[trigger] s.take(j)) >= 0
}

/// Every bracket of `s` has its match.
pub open spec fn balanced(s: Seq<u8>) -> bool {
    never_dips(s) && nest(s) == 0
}

/// The byte that stands for an instruction other than a loop.
pub open spec fn symbol(op: OpCode) -> u8 {
    match op {
        OpCode::MoveRight => 62,
        OpCode::MoveLeft => 60,
        OpCode::Increment => 43,
        OpCode::Decrement => 45,
        OpCode::Output => 46,
        OpCode::Input => 44,
        OpCode::Breakpoint => 33,
        OpCode::Loop(_) => 91,
    }
}

/// The canonical source text of a sequence of instructions: each instruction
/// by its symbol, a loop as its body between `[` and `]`.
pub open spec fn text_of(ops: Seq<OpCode>) -> Seq<u8>
    decreases ops,
{
    if ops.len() == 0 {
        seq![]
    } else {
        text_of(ops.drop_last()) + match ops.last() {
            OpCode::Loop(body) => seq![91u8] + text_of(body@) + seq![93u8],
            other => seq![symbol(other)],
        }
    }
}

/// The number of instructions in a tree, loop nodes themselves not counted.
pub open spec fn op_count(ops: Seq<OpCode>) -> nat
    decreases ops,
{
    if ops.len() == 0 {
        0
    } else {
        op_count(ops.drop_last()) + match ops.last() {
            OpCode::Loop(body) => op_count(body@),
            _ => 1,
        }
    }
}

proof fn lemma_nest_add(a: Seq<u8>, b: Seq<u8>)
    ensures
        nest(a + b) == nest(a) + nest(b),
    decreases b.len(),
{
    if b.len() > 0 {
        assert((a + b).drop_last() =~= a + b.drop_last());
        lemma_nest_add(a, b.drop_last());
    } else {
        assert(a + b =~= a);
    }
}

proof fn lemma_meaningful_add(a: Seq<u8>, b: Seq<u8>)
    ensures
        meaningful(a + b) == meaningful(a) + meaningful(b),
    decreases b.len(),
{
    if b.len() > 0 {
        assert((a + b).drop_last() =~= a + b.drop_last());
        lemma_meaningful_add(a, b.drop_last());
        assert((meaningful(a) + meaningful(b.drop_last())).push(b.last()) =~= meaningful(a) + meaningful(
            b.drop_last(),
        ).push(b.last()));
    } else {
        assert(a + b =~= a);
        assert(meaningful(a) + meaningful(b) =~= meaningful(a));
    }
}

/// Splits the nesting depth and the meaningful text of `s[a..c]` at `b`.
proof fn lemma_split(s: Seq<u8>, a: int, b: int, c: int)
    requires
        0 <= a <= b <= c <= s.len(),
    ensures
        nest(s.subrange(a, c)) == nest(s.subrange(a, b)) + nest(s.subrange(b, c)),
        meaningful(s.subrange(a, c)) == meaningful(s.subrange(a, b)) + meaningful(s.subrange(b, c)),
{
    assert(s.subrange(a, c) =~= s.subrange(a, b) + s.subrange(b, c));
    lemma_nest_add(s.subrange(a, b), s.subrange(b, c));
    lemma_meaningful_add(s.subrange(a, b), s.subrange(b, c));
}

/// What one more byte does to the nesting depth and the meaningful text.
proof fn lemma_extend(s: Seq<u8>, a: int, i: int)
    requires
        0 <= a <= i < s.len(),
    ensures
        nest(s.subrange(a, i + 1)) == nest(s.subrange(a, i)) + delta(s[i]),
        meaningful(s.subrange(a, i + 1)) == if is_meaningful(s[i]) {
            meaningful(s.subrange(a, i)).push(s[i])
        } else {
            meaningful(s.subrange(a, i))
        },
{
    assert(s.subrange(a, i + 1).drop_last() =~= s.subrange(a, i));
}

pub(crate) proof fn lemma_text_push(ops: Seq<OpCode>, op: OpCode)
    ensures
        text_of(ops.push(op)) == text_of(ops) + match op {
            OpCode::Loop(body) => seq![91u8] + text_of(body@) + seq![93u8],
            other => seq![symbol(other)],
        },
{
    assert(ops.push(op).drop_last() =~= ops);
}

proof fn lemma_command_count_add(a: Seq<u8>, b: Seq<u8>)
    ensures
        command_count(a + b) == command_count(a) + command_count(b),
    decreases b.len(),
{
    if b.len() > 0 {
        assert((a + b).drop_last() =~= a + b.drop_last());
        lemma_command_count_add(a, b.drop_last());
    } else {
        assert(a + b =~= a);
    }
}

proof fn lemma_command_count_meaningful(s: Seq<u8>)
    ensures
        command_count(meaningful(s)) == command_count(s),
    decreases s.len(),
{
    if s.len() > 0 {
        lemma_command_count_meaningful(s.drop_last());
        if is_meaningful(s.last()) {
            assert(meaningful(s).drop_last() =~= meaningful(s.drop_last()));
        }
    }
}

proof fn lemma_command_count_text(ops: Seq<OpCode>)
    ensures
        op_count(ops) == command_count(text_of(ops)),
    decreases ops,
{
    if ops.len() > 0 {
        lemma_command_count_text(ops.drop_last());
        let last = ops.last();
        match last {
            OpCode::Loop(body) => {
                assert(decreases_to!(ops => body@)) by {
                    assert(decreases_to!(ops => ops[ops.len() - 1]));
                    assert(decreases_to!(last => body));
                    assert(decreases_to!(body => body@));
                }
                lemma_command_count_text(body@);
                lemma_command_count_add(seq![91u8], text_of(body@));
                lemma_command_count_add(seq![91u8] + text_of(body@), seq![93u8]);
                lemma_command_count_add(text_of(ops.drop_last()), seq![91u8] + text_of(body@) + seq![93u8]);
                assert(seq![91u8].drop_last() =~= Seq::<u8>::empty());
                assert(seq![93u8].drop_last() =~= Seq::<u8>::empty());
                assert(command_count(Seq::<u8>::empty()) == 0);
                assert(command_count(seq![91u8]) == 0);
                assert(command_count(seq![93u8]) == 0);
            },
            other => {
                lemma_command_count_add(text_of(ops.drop_last()), seq![symbol(other)]);
                assert(seq![symbol(other)].drop_last() =~= Seq::<u8>::empty());
                assert(command_count(Seq::<u8>::empty()) == 0);
                assert(command_count(seq![symbol(other)]) == 1);
            },
        }
    }
}

/// Compiling loses and adds no instruction: when `ops` is what a balanced
/// source compiles to, the tree holds, loop nodes aside, exactly as many
/// instructions as the source holds instruction symbols.
pub proof fn lemma_compile_keeps_commands(s: Seq<u8>, ops: Seq<OpCode>)
    requires
        balanced(s),
        text_of(ops) == meaningful(s),
    ensures
        op_count(ops) == command_count(s),
{
    lemma_command_count_text(ops);
    lemma_command_count_meaningful(s);
}

/// Compiles source bytes into a tree of instructions. Bytes other than the
/// eight instruction symbols are comments. A `]` with no open `[` before it is
/// `TooClosedLoop`; otherwise a `[` left open at the end is `UnclosedLoop`.
pub fn compile(code: &[u8]) -> (r: Result<Vec<OpCode>, CompileError>)
    ensures
        r is Ok <==> balanced(code@),
        r == Err::<Vec<OpCode>, CompileError>(CompileError::TooClosedLoop) <==> !never_dips(code@),
        r == Err::<Vec<OpCode>, CompileError>(CompileError::UnclosedLoop) <==> never_dips(code@)
            && nest(code@) > 0,
        r is Ok ==> text_of(r->Ok_0@) == meaningful(code@),
{
    let mut pos: usize = 0;
    let r = compile_recur(code, &mut pos, 0);
    assert(code@.subrange(0, code@.len() as int) =~= code@);
    assert(code@.take(code@.len() as int) =~= code@);
    proof {
        match r {
            Err(CompileError::UnclosedLoop) => {},
            Err(CompileError::TooClosedLoop) => {},
            Ok(_) => {},
        }
    }
    r
}

/// Compiles from `*pos` on, up to the `]` that closes an enclosing loop when
/// `indent > 0`, else to the end. Moves `*pos` past what it read.
fn compile_recur(code: &[u8], pos: &mut usize, indent: usize) -> (r: Result<Vec<OpCode>, CompileError>)
    requires
        indent <= *old(pos) <= code.len(),
    ensures
        *old(pos) <= *final(pos) <= code.len(),
        indent == 0 ==> {
            let rest = code@.subrange(*old(pos) as int, code@.len() as int);
            &&& (r is Ok <==> balanced(rest))
            &&& (r == Err::<Vec<OpCode>, CompileError>(CompileError::TooClosedLoop) <==> !never_dips(rest))
            &&& (r is Ok ==> text_of(r->Ok_0@) == meaningful(rest))
        },
        indent > 0 ==> (r is Ok ==> {
            let q = *final(pos) as int;
            let inner = code@.subrange(*old(pos) as int, q - 1);
            &&& *old(pos) < q
            &&& code@[q - 1] == 93
            &&& nest(inner) == 0
            &&& never_dips(inner)
            &&& text_of(r->Ok_0@) == meaningful(inner)
        }),
        indent > 0 ==> (r is Err ==> r == Err::<Vec<OpCode>, CompileError>(CompileError::UnclosedLoop)
            && never_dips(code@.subrange(*old(pos) as int, code@.len() as int))),
    decreases code.len() - *old(pos),
{
    let ghost s = code@;
    let ghost p = *pos as int;
    let mut opcodes: Vec<OpCode> = Vec::new();
    proof {
        assert(s.subrange(p, p) =~= seq![]);
        assert(text_of(opcodes@) =~= seq![]);
    }
    while *pos < code.len()
        invariant
            s == code@,
            p == *old(pos),
            indent <= p <= *pos <= code.len(),
            nest(s.subrange(p, *pos as int)) == 0,
            forall|j: int| p <= j <= *pos ==> nest(#[trigger] s.subrange(p, j)) >= 0,
            text_of(opcodes@) == meaningful(s.subrange(p, *pos as int)),
        decreases code.len() - *pos,
    {
        let i = *pos;
        let b = code[i];
        *pos = i + 1;
        proof {
            lemma_extend(s, p, i as int);
        }
        if b == 91 {
            let inner = compile_recur(code, pos, indent + 1);
            match inner {
                Ok(body) => {
                    let ghost q = *pos as int;
                    proof {
                        lemma_split(s, p, i as int, q);
                        lemma_split(s, i as int, i + 1, q);
                        lemma_split(s, i + 1, q - 1, q);
                        lemma_extend(s, i as int, i as int);
                        lemma_extend(s, q - 1, q - 1);
                        assert(s.subrange(i as int, i as int) =~= seq![]);
                        assert(s.subrange(q - 1, q - 1) =~= seq![]);
                        assert forall|j: int| p <= j <= q implies nest(#[trigger] s.subrange(p, j)) >= 0 by {
                            if j > i {
                                lemma_split(s, p, i + 1, j);
                                if j < q {
                                    assert(s.subrange(i + 1, j) =~= s.subrange(i + 1, q - 1).take(j - i - 1));
                                }
                            }
                        }
                        lemma_text_push(opcodes@, OpCode::Loop(body));
                    }
                    opcodes.push(OpCode::Loop(body));
                    proof {
                        assert(seq![91u8] + meaningful(s.subrange(i + 1, q - 1)) + seq![93u8]
                            =~= meaningful(s.subrange(i as int, q)));
                    }
                },
                Err(e) => {
                    proof {
                        let n = s.len() as int;
                        assert forall|j: int| 0 <= j <= n - p implies nest(#[trigger] s.subrange(p, n).take(j)) >= 0 by {
                            assert(s.subrange(p, n).take(j) =~= s.subrange(p, p + j));
                            if p + j > i {
                                lemma_split(s, p, i + 1, p + j);
                                assert(s.subrange(i + 1, p + j) =~= s.subrange(i + 1, n).take(p + j - i - 1));
                            }
                        }
                        lemma_split(s, p, i + 1, n);
                        assert(s.subrange(i + 1, n).take(n - i - 1) =~= s.subrange(i + 1, n));
                    }
                    return Err(e);
                },
            }
        } else if b == 93 {
            if indent > 0 {
                proof {
                    assert forall|j: int| 0 <= j <= i - p implies nest(#[trigger] s.subrange(p, i as int).take(j)) >= 0 by {
                        assert(s.subrange(p, i as int).take(j) =~= s.subrange(p, p + j));
                    }
                }
                return Ok(opcodes);
            } else {
                proof {
                    let n = s.len() as int;
                    assert(s.subrange(p, n).take(i + 1 - p) =~= s.subrange(p, i + 1));
                }
                return Err(CompileError::TooClosedLoop);
            }
        } else {
            if b == 62 {
                proof { lemma_text_push(opcodes@, OpCode::MoveRight); }
                opcodes.push(OpCode::MoveRight);
            } else if b == 60 {
                proof { lemma_text_push(opcodes@, OpCode::MoveLeft); }
                opcodes.push(OpCode::MoveLeft);
            } else if b == 43 {
                proof { lemma_text_push(opcodes@, OpCode::Increment); }
                opcodes.push(OpCode::Increment);
            } else if b == 45 {
                proof { lemma_text_push(opcodes@, OpCode::Decrement); }
                opcodes.push(OpCode::Decrement);
            } else if b == 46 {
                proof { lemma_text_push(opcodes@, OpCode::Output); }
                opcodes.push(OpCode::Output);
            } else if b == 44 {
                proof { lemma_text_push(opcodes@, OpCode::Input); }
                opcodes.push(OpCode::Input);
            } else if b == 33 {
                proof { lemma_text_push(opcodes@, OpCode::Breakpoint); }
                opcodes.push(OpCode::Breakpoint);
            }
        }
    }
    proof {
        let n = s.len() as int;
        assert forall|j: int| 0 <= j <= n - p implies nest(#[trigger] s.subrange(p, n).take(j)) >= 0 by {
            assert(s.subrange(p, n).take(j) =~= s.subrange(p, p + j));
        }
    }
    if indent > 0 {
        Err(CompileError::UnclosedLoop)
    } else {
        Ok(opcodes)
    }
}

} // verus!
