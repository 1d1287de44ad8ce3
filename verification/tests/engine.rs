use bf_interpreter::input::InputSource;
use bf_interpreter::interpreter::{interpret_code, interpret_code_buffered, BfInput, BfMemory, BfOutput};
use bf_interpreter::memory::Memory;
use bf_interpreter::{execute_code, execute_code_buffered};

const PLENTY: u64 = 1_000_000;

struct Collected {
    chars: Vec<char>,
}

impl BfOutput for Collected {
    fn write(&mut self, c: char) {
        self.chars.push(c);
    }
}

fn collector() -> Collected {
    Collected { chars: Vec::new() }
}

fn run_u8(code: &str, input: &str, tape_len: usize) -> (String, bool) {
    let mut src = InputSource::from(&String::from(input), '\u{0}', false, true);
    let mut sink = collector();
    let (out, completed, _) =
        execute_code(tape_len, 0u8, &String::from(code), &mut src, &mut sink, PLENTY);
    assert_eq!(sink.chars, out);
    (out.into_iter().collect(), completed)
}

#[test]
fn loop_transfer_outputs_code_point_seven() {
    let (out, completed) = run_u8("++>+++++[<+>-]<.", "", 2);
    assert!(completed);
    assert_eq!(out, "\u{7}");
}

#[test]
fn echo_consumes_exactly_one_input_character() {
    let code = String::from(",.");
    let mut src = InputSource::from(&String::from("AB"), '\u{0}', false, true);
    let mut mem: Memory<u8> = Memory::new(1, 0);
    let mut sink = collector();
    let (out, completed, _) = interpret_code(&code, &mut mem, &mut src, &mut sink, PLENTY);
    assert!(completed);
    assert_eq!(out, vec!['A']);
    assert_eq!(src.read(), 'B');
}

#[test]
fn echo_of_single_preloaded_character() {
    let (out, completed) = run_u8(",.", "A", 1);
    assert!(completed);
    assert_eq!(out, "A");
}

#[test]
fn loop_over_zero_cell_terminates_without_running_its_body() {
    let (out, completed) = run_u8("[]", "", 1);
    assert!(completed);
    assert_eq!(out, "");
    let (out2, completed2) = run_u8("[.]", "", 1);
    assert!(completed2);
    assert_eq!(out2, "");
}

#[test]
fn empty_program_terminates_with_no_output_and_no_mutation() {
    let code = String::from("");
    let mut src = InputSource::from(&String::from(""), '\u{0}', false, true);
    let mut mem: Memory<u8> = Memory::new(3, 0);
    let mut sink = collector();
    let (out, completed, _) = interpret_code(&code, &mut mem, &mut src, &mut sink, PLENTY);
    assert!(completed);
    assert!(out.is_empty());
    assert!(mem.is_cell_zero_value());
    mem.next();
    assert!(mem.is_cell_zero_value());
    mem.next();
    assert!(mem.is_cell_zero_value());
}

#[test]
fn comment_only_program_terminates_with_no_output() {
    let (out, completed) = run_u8("hello world!", "", 1);
    assert!(completed);
    assert_eq!(out, "");
}

#[test]
fn input_on_exhausted_source_writes_the_sentinel() {
    let code = String::from(",.,.");
    let mut src = InputSource::from(&String::from(""), '#', false, true);
    let mut mem: Memory<u8> = Memory::new(1, 0);
    let mut sink = collector();
    let (out, completed, _) = interpret_code(&code, &mut mem, &mut src, &mut sink, PLENTY);
    assert!(completed);
    assert_eq!(out, vec!['#', '#']);
}

#[test]
fn loop_reentry_runs_the_body_once_per_count() {
    let (out, completed) = run_u8("+++[>+.<-]", "", 2);
    assert!(completed);
    assert_eq!(out, "\u{1}\u{2}\u{3}");
}

#[test]
fn zero_cell_jump_lands_past_the_matching_bracket() {
    let (out, completed) = run_u8("[>++[.]<]>.", "", 2);
    assert!(completed);
    assert_eq!(out, "\u{0}");
}

#[test]
fn pointer_saturation_during_a_run() {
    let (out, completed) = run_u8("<<+.>>>+.", "", 2);
    assert!(completed);
    assert_eq!(out, "\u{1}\u{1}");
}

#[test]
fn eight_bit_cells_wrap_during_a_run() {
    let (out, completed) = run_u8("-.", "", 1);
    assert!(completed);
    assert_eq!(out, "\u{ff}");
}

#[test]
fn wide_cells_output_only_their_low_byte() {
    let code = String::from(",.");
    let mut src = InputSource::from(&String::from("\u{141}"), '\u{0}', false, true);
    let mut sink = collector();
    let (out, completed, _) = execute_code(1, 0u16, &code, &mut src, &mut sink, PLENTY);
    assert!(completed);
    assert_eq!(out, vec!['A']);
}

#[test]
fn unmatched_loop_end_is_tolerated() {
    let (out, completed) = run_u8("+.]", "", 1);
    assert!(completed);
    assert_eq!(out, "\u{1}");
}

#[test]
fn run_out_of_budget_is_reported_as_incomplete() {
    let code = String::from("+[]");
    let mut src = InputSource::from(&String::from(""), '\u{0}', false, true);
    let mut mem: Memory<u8> = Memory::new(1, 0);
    let mut sink = collector();
    let (out, completed, _) = interpret_code(&code, &mut mem, &mut src, &mut sink, 1000);
    assert!(!completed);
    assert!(out.is_empty());
}

#[test]
fn buffered_engine_echoes_and_leaves_the_rest_pending() {
    let code = String::from(",.");
    let mut src = InputSource::from(&String::from("AB"), '\u{0}', false, true);
    let mut mem: Memory<u8> = Memory::new(1, 0);
    let mut sink = collector();
    let (out, completed, _) = interpret_code_buffered(&code, &mut mem, &mut src, &mut sink, PLENTY);
    assert!(completed);
    assert_eq!(out, vec!['A']);
    assert!(src.has_pending());
    assert_eq!(src.read(), 'B');
}

#[test]
fn buffered_engine_writes_the_sentinel_when_exhausted() {
    let code = String::from(",.,.");
    let mut src = InputSource::from(&String::from("x"), '#', false, true);
    let mut sink = collector();
    let (out, completed, _) = execute_code_buffered(1, 0u8, &code, &mut src, &mut sink, PLENTY);
    assert_eq!(sink.chars, out);
    assert!(completed);
    assert_eq!(out, vec!['x', '#']);
    assert!(!src.has_pending());
}

#[test]
fn buffered_runs_of_parse_equal_programs_agree() {
    let noisy = String::from(", comment . here");
    let clean = String::from(",.");
    let mut src1 = InputSource::from(&String::from("Q"), '\u{0}', false, true);
    let mut src2 = InputSource::from(&String::from("Q"), '\u{0}', false, true);
    let mut sink1 = collector();
    let (out1, done1, _) = execute_code_buffered(2, 0u8, &noisy, &mut src1, &mut sink1, PLENTY);
    let mut sink2 = collector();
    let (out2, done2, _) = execute_code_buffered(2, 0u8, &clean, &mut src2, &mut sink2, PLENTY);
    assert!(done1 && done2);
    assert_eq!(out1, out2);
    assert_eq!(src1.has_pending(), src2.has_pending());
}
