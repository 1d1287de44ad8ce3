use bf_interpreter::input::InputSource;
use bf_interpreter::interpreter::{find_matching_loop_end, parse, BfInput, BfMemory, Instruction};
use bf_interpreter::memory::{Memory, MemoryCell};

#[test]
fn cell_u8_wraps_at_both_ends() {
    let mut c: u8 = 255;
    c.increase();
    assert_eq!(c, 0);
    c.decrease();
    assert_eq!(c, 255);
}

#[test]
fn cell_u16_wraps_at_both_ends() {
    let mut c: u16 = 65535;
    c.increase();
    assert_eq!(c, 0);
    c.decrease();
    assert_eq!(c, 65535);
}

#[test]
fn cell_u32_wraps_at_both_ends() {
    let mut c: u32 = 0xffff_ffff;
    c.increase();
    assert_eq!(c, 0);
    c.decrease();
    assert_eq!(c, 0xffff_ffff);
}

#[test]
fn cell_value_stays_in_range_under_mixed_sequences() {
    let mut c: u8 = 0;
    c.decrease();
    assert_eq!(c, 255);
    c.increase();
    c.increase();
    assert_eq!(c, 1);
    let mut w: u16 = 0;
    for _ in 0..70000 {
        w.increase();
    }
    assert_eq!(w as u32, 70000 % 65536);
}

#[test]
fn cell_write_truncates_to_width() {
    let mut c: u8 = 7;
    c.write_char('\u{100}');
    assert!(c.is_empty());
    let mut w: u16 = 0;
    w.write_char('\u{141}');
    assert_eq!(w, 0x141);
    assert_eq!(w.read_char(), 'A');
}

#[test]
fn cell_read_is_low_byte() {
    let c: u8 = 65;
    assert_eq!(c.read_char(), 'A');
    let w: u32 = 0x1_0041;
    assert_eq!(w.read_char(), 'A');
}

#[test]
fn tape_move_left_at_zero_is_a_no_op() {
    let mut m: Memory<u8> = Memory::new(2, 0);
    m.write_char('A');
    m.prev();
    assert_eq!(m.read_char(), 'A');
}

#[test]
fn tape_move_right_at_end_is_a_no_op() {
    let mut m: Memory<u8> = Memory::new(2, 0);
    m.next();
    m.next();
    m.write_char('B');
    assert_eq!(m.read_char(), 'B');
    m.prev();
    assert!(m.is_cell_zero_value());
    m.next();
    assert_eq!(m.read_char(), 'B');
}

#[test]
fn parse_keeps_only_commands_in_order() {
    let code = String::from("a+b[foo]->.<,x");
    let p = parse(&code);
    assert_eq!(
        p,
        vec![
            Instruction::Inc,
            Instruction::LoopStart,
            Instruction::LoopEnd,
            Instruction::Dec,
            Instruction::CellNext,
            Instruction::Output,
            Instruction::CellPrev,
            Instruction::Input,
        ]
    );
}

#[test]
fn parse_is_idempotent_on_the_filtered_text() {
    let noisy = String::from("say + hi [ to ] the - world > now . < ok ,");
    let clean = String::from("+[]->.<,");
    assert_eq!(parse(&noisy), parse(&clean));
}

#[test]
fn parse_of_comment_only_text_is_empty() {
    let code = String::from("no commands here at all");
    assert_eq!(parse(&code), vec![]);
}

#[test]
fn matching_loop_end_of_flat_loop() {
    let p = parse(&String::from("[++]"));
    assert_eq!(find_matching_loop_end(&p, 0), 3);
}

#[test]
fn matching_loop_end_of_nested_loops() {
    let p = parse(&String::from("[[--]+]"));
    assert_eq!(find_matching_loop_end(&p, 0), 6);
    assert_eq!(find_matching_loop_end(&p, 1), 4);
}

#[test]
fn matching_loop_end_falls_back_on_malformed_program() {
    let p = parse(&String::from("[++"));
    assert_eq!(find_matching_loop_end(&p, 0), 2);
}

#[test]
fn input_source_drains_buffer_front_to_back() {
    let mut src = InputSource::from(&String::from("ab"), '\u{0}', false, true);
    assert_eq!(src.read(), 'a');
    assert_eq!(src.read(), 'b');
    assert!(!src.has_pending());
}

#[test]
fn input_source_returns_sentinel_on_every_exhausted_read() {
    let mut src = InputSource::from(&String::from(""), '#', false, false);
    assert_eq!(src.read(), '#');
    assert_eq!(src.read(), '#');
    assert_eq!(src.read(), '#');
}

#[test]
fn input_source_sanitizes_trailing_line_endings_only() {
    let mut src = InputSource::from(&String::from("h\ni\r\n\n"), '\u{0}', false, true);
    assert_eq!(src.read(), 'h');
    assert_eq!(src.read(), '\n');
    assert_eq!(src.read(), 'i');
    assert_eq!(src.read(), '\u{0}');
}

#[test]
fn input_source_keeps_line_endings_when_not_sanitizing() {
    let mut src = InputSource::from(&String::from("a\n"), '\u{0}', false, false);
    assert_eq!(src.read(), 'a');
    assert_eq!(src.read(), '\n');
    assert_eq!(src.read(), '\u{0}');
}

#[test]
fn input_source_refill_appends_and_sanitizes() {
    let mut src = InputSource::from(&String::from(""), '\u{0}', true, true);
    assert!(src.is_interactive());
    assert!(!src.has_pending());
    src.append_line("ok\r\n");
    assert_eq!(src.read(), 'o');
    assert_eq!(src.read(), 'k');
    assert!(!src.has_pending());
}
