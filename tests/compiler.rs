use brfk::{compile, symbol_of, CliError, CompileError, OpCode};

fn count_instructions(ops: &[OpCode]) -> usize {
    let mut n = 0;
    for op in ops {
        match op {
            OpCode::Loop(body) => n += count_instructions(body),
            _ => n += 1,
        }
    }
    n
}

fn text(ops: &[OpCode]) -> Vec<u8> {
    let mut out = Vec::new();
    for op in ops {
        match op {
            OpCode::Loop(body) => {
                out.push(b'[');
                out.extend(text(body));
                out.push(b']');
            }
            other => out.push(symbol_of(other)),
        }
    }
    out
}

#[test]
fn compile_counts_every_instruction() {
    let ops = compile(b"+[->+<]. ,!").unwrap();
    assert_eq!(count_instructions(&ops), 8);
    assert_eq!(ops.len(), 5);
    assert_eq!(text(&ops), b"+[->+<].,!".to_vec());
}

#[test]
fn compile_ignores_comments() {
    let ops = compile(b"add one: + and print .\n").unwrap();
    assert_eq!(text(&ops), b"+.".to_vec());
}

#[test]
fn compile_empty_source() {
    let ops = compile(b"").unwrap();
    assert!(ops.is_empty());
}

#[test]
fn compile_builds_nested_loops() {
    let ops = compile(b"[[-]>]").unwrap();
    assert_eq!(ops.len(), 1);
    match &ops[0] {
        OpCode::Loop(outer) => {
            assert_eq!(outer.len(), 2);
            assert!(matches!(outer[0], OpCode::Loop(_)));
            assert!(matches!(outer[1], OpCode::MoveRight));
        }
        _ => panic!("expected a loop"),
    }
}

#[test]
fn compile_has_no_nesting_cap() {
    let mut src = vec![b'['; 2000];
    src.extend(vec![b']'; 2000]);
    let ops = compile(&src).unwrap();
    assert_eq!(text(&ops), src);
}

#[test]
fn compile_lone_open_is_unclosed() {
    assert_eq!(compile(b"[").unwrap_err(), CompileError::UnclosedLoop);
}

#[test]
fn compile_lone_close_is_too_closed() {
    assert_eq!(compile(b"]").unwrap_err(), CompileError::TooClosedLoop);
}

#[test]
fn compile_unmatched_open_inside() {
    assert_eq!(compile(b"+[[-]").unwrap_err(), CompileError::UnclosedLoop);
}

#[test]
fn compile_unmatched_close_inside() {
    assert_eq!(compile(b"+[-]]").unwrap_err(), CompileError::TooClosedLoop);
}

#[test]
fn compile_early_close_wins_over_later_open() {
    assert_eq!(compile(b"][").unwrap_err(), CompileError::TooClosedLoop);
}

#[test]
fn symbols_of_instructions() {
    assert_eq!(symbol_of(&OpCode::MoveRight), b'>');
    assert_eq!(symbol_of(&OpCode::MoveLeft), b'<');
    assert_eq!(symbol_of(&OpCode::Increment), b'+');
    assert_eq!(symbol_of(&OpCode::Decrement), b'-');
    assert_eq!(symbol_of(&OpCode::Output), b'.');
    assert_eq!(symbol_of(&OpCode::Input), b',');
    assert_eq!(symbol_of(&OpCode::Breakpoint), b'!');
    assert_eq!(symbol_of(&OpCode::Loop(Vec::new())), b'[');
}

#[test]
fn cli_error_from_compile_error() {
    let e: CliError = CliError::from(CompileError::UnclosedLoop);
    assert!(matches!(e, CliError::Compile(CompileError::UnclosedLoop)));
}
