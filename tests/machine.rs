use brfk::{
    compile, parse_command, Command, Event, Interpreter, Mode, Pending, Reply, TAPE_LEN,
};

fn machine(src: &[u8]) -> Interpreter {
    Interpreter::new(compile(src).unwrap())
}

/// Runs without a debugger, feeding `inputs` line by line; returns the output
/// and the last event.
fn run_plain(m: &mut Interpreter, inputs: &[&[u8]]) -> (Vec<u8>, Event) {
    let mut out = Vec::new();
    let mut lines = inputs.iter();
    loop {
        match m.run(1 << 20) {
            Event::Continue => {}
            Event::Output(b) => out.push(b),
            Event::NeedInput => {
                let line = lines.next().expect("input");
                m.feed_input(line);
            }
            e => return (out, e),
        }
    }
}

#[test]
fn output_after_two_increments() {
    let mut m = machine(b"++.");
    assert_eq!(run_plain(&mut m, &[]), (vec![2], Event::Finished));
}

#[test]
fn loop_body_runs_once() {
    let mut m = machine(b"+[-]");
    let (out, e) = run_plain(&mut m, &[]);
    assert!(out.is_empty());
    assert_eq!(e, Event::Finished);
    assert_eq!(m.cell(0), 0);
    assert_eq!(m.position(), 3);
}

#[test]
fn loop_skipped_on_zero_cell() {
    let mut m = machine(b"[+.]>+.");
    assert_eq!(run_plain(&mut m, &[]), (vec![1], Event::Finished));
    assert_eq!(m.pointer(), 1);
    assert_eq!(m.position(), 4);
}

#[test]
fn loop_rechecks_after_each_pass() {
    let mut m = machine(b"+++[>++<-]>.");
    assert_eq!(run_plain(&mut m, &[]), (vec![6], Event::Finished));
    assert_eq!(m.cell(0), 0);
}

#[test]
fn decrement_wraps_to_255() {
    let mut m = machine(b"-.");
    assert_eq!(run_plain(&mut m, &[]), (vec![255], Event::Finished));
}

#[test]
fn increment_wraps_to_zero() {
    let mut src = vec![b'+'; 255];
    src.push(b'.');
    src.push(b'+');
    src.push(b'.');
    let mut m = machine(&src);
    assert_eq!(run_plain(&mut m, &[]), (vec![255, 0], Event::Finished));
}

#[test]
fn input_takes_first_byte_of_line() {
    let mut m = machine(b",+.");
    assert_eq!(run_plain(&mut m, &[b"Abc"]), (vec![b'B'], Event::Finished));
}

#[test]
fn empty_input_line_is_refused() {
    let mut m = machine(b",.");
    assert_eq!(m.run(10), Event::NeedInput);
    assert!(!m.feed_input(b""));
    assert_eq!(m.pending(), Pending::Input);
    assert!(m.feed_input(b"z"));
    assert_eq!(m.cell(0), b'z');
    assert_eq!(m.run(10), Event::Output(b'z'));
}

#[test]
fn input_refused_when_not_waiting() {
    let mut m = machine(b"+");
    assert!(!m.feed_input(b"x"));
    assert_eq!(m.cell(0), 0);
}

#[test]
fn moving_left_of_first_cell_faults() {
    let mut m = machine(b"+<");
    assert_eq!(m.run(100), Event::Fault { position: 1 });
    assert_eq!(m.pointer(), 0);
    assert_eq!(m.run(100), Event::Fault { position: 1 });
}

#[test]
fn moving_past_last_cell_faults() {
    let src = vec![b'>'; TAPE_LEN];
    let mut m = machine(&src);
    assert_eq!(m.run(1 << 20), Event::Fault { position: (TAPE_LEN - 1) as u64 });
    assert_eq!(m.pointer(), TAPE_LEN - 1);
}

#[test]
fn run_stops_at_budget() {
    let mut m = machine(b"+[]");
    assert_eq!(m.run(1000), Event::Continue);
    assert_eq!(m.run(1000), Event::Continue);
}

#[test]
fn breakpoint_then_next_then_exit() {
    let mut m = machine(b"!+++.");
    assert_eq!(m.step(), Event::Continue);
    assert_eq!(m.mode(), Mode::Debugging);
    assert_eq!(
        m.step(),
        Event::Console { position: 1, pointer: 0, symbol: b'+' }
    );
    assert!(matches!(m.console(b"next"), Reply::Resume));
    assert_eq!(m.step(), Event::Continue);
    assert_eq!(m.cell(0), 1);
    assert_eq!(
        m.step(),
        Event::Console { position: 2, pointer: 0, symbol: b'+' }
    );
    assert!(matches!(m.console(b"n"), Reply::Resume));
    assert_eq!(m.step(), Event::Continue);
    assert_eq!(m.cell(0), 2);
    assert_eq!(
        m.step(),
        Event::Console { position: 3, pointer: 0, symbol: b'+' }
    );
    assert!(matches!(m.console(b"exit"), Reply::Resume));
    assert_eq!(m.mode(), Mode::Running);
    assert_eq!(m.run(100), Event::Output(3));
    assert_eq!(m.run(100), Event::Finished);
}

#[test]
fn console_waits_until_released() {
    let mut m = machine(b"!+");
    m.step();
    assert!(matches!(m.step(), Event::Console { .. }));
    assert_eq!(m.pending(), Pending::Console);
    assert!(matches!(m.step(), Event::Console { .. }));
    assert_eq!(m.cell(0), 0);
    assert!(matches!(m.console(b""), Reply::Prompt));
    match m.console(b"jump") {
        Reply::Unknown(t) => assert_eq!(t, b"jump".to_vec()),
        other => panic!("unexpected {:?}", other),
    }
    assert_eq!(m.pending(), Pending::Console);
    assert!(matches!(m.console(b"q"), Reply::Resume));
    assert_eq!(m.run(100), Event::Finished);
    assert_eq!(m.cell(0), 1);
}

#[test]
fn code_listing_inside_a_loop() {
    let mut m = machine(b"+[!-]>.");
    assert!(matches!(m.run(100), Event::Console { symbol: b'-', .. }));
    match m.console(b"code") {
        Reply::Code(t) => assert_eq!(t, b"-]>.".to_vec()),
        other => panic!("unexpected {:?}", other),
    }
    assert_eq!(m.code_listing(), b"-]>.".to_vec());
}

#[test]
fn code_listing_is_cut_to_eight_rows() {
    let mut src = vec![b'!'];
    src.extend(vec![b'+'; 600]);
    let mut m = machine(&src);
    assert!(matches!(m.run(100), Event::Console { .. }));
    let t = m.code_listing();
    assert_eq!(t.len(), 512);
    assert!(t.iter().all(|&b| b == b'+'));
}

#[test]
fn memory_listing_rows() {
    let mut m = machine(b"++++++++[>++++++++<-]>+!.");
    assert!(matches!(m.run(10000), Event::Console { symbol: b'.', .. }));
    assert_eq!(m.pointer(), 1);
    let rows = match m.console(b"mem") {
        Reply::Memory(rows) => rows,
        other => panic!("unexpected {:?}", other),
    };
    assert_eq!(rows.len(), 8);
    assert_eq!(
        String::from_utf8(rows[0].clone()).unwrap(),
        "0x00000000  00 41 00 00 00 00 00 00 00 00 00 00 00 00 00 00  .A.............."
    );
    assert_eq!(
        String::from_utf8(rows[1].clone()).unwrap(),
        "0x00000010  00 00 00 00 00 00 00 00 00 00 00 00 00 00 00 00  ................"
    );
    assert_eq!(&rows[7][..12], b"0x00000070  ");
}

#[test]
fn memory_listing_stops_at_tape_end() {
    let mut src = vec![b'>'; TAPE_LEN - 20];
    src.push(b'-');
    src.push(b'!');
    src.push(b'.');
    let mut m = machine(&src);
    assert!(matches!(m.run(1 << 20), Event::Console { .. }));
    let rows = m.memory_listing();
    assert_eq!(rows.len(), 2);
    assert_eq!(
        String::from_utf8(rows[0].clone()).unwrap(),
        "0x0000efe0  00 00 00 00 00 00 00 00 00 00 00 00 ff 00 00 00  ................"
    );
    assert_eq!(&rows[1][..12], b"0x0000eff0  ");
}

#[test]
fn parse_all_commands() {
    assert_eq!(parse_command(b"next"), Some(Command::Next));
    assert_eq!(parse_command(b"n"), Some(Command::Next));
    assert_eq!(parse_command(b"code"), Some(Command::PrintCode));
    assert_eq!(parse_command(b"c"), Some(Command::PrintCode));
    assert_eq!(parse_command(b"mem"), Some(Command::PrintMemory));
    assert_eq!(parse_command(b"m"), Some(Command::PrintMemory));
    assert_eq!(parse_command(b"exit"), Some(Command::Exit));
    assert_eq!(parse_command(b"quit"), Some(Command::Exit));
    assert_eq!(parse_command(b"q"), Some(Command::Exit));
    assert_eq!(parse_command(b"nex"), None);
    assert_eq!(parse_command(b"x"), None);
    assert_eq!(parse_command(b""), None);
    assert_eq!(parse_command(b"next "), None);
}

#[test]
fn new_machine_starts_clean() {
    let m = machine(b"+");
    assert_eq!(m.pointer(), 0);
    assert_eq!(m.mode(), Mode::Running);
    assert_eq!(m.pending(), Pending::Nothing);
    assert_eq!(m.position(), 0);
    assert_eq!(m.cell(TAPE_LEN - 1), 0);
}
