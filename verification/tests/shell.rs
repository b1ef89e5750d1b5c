use sandworm::command::{
    command_from, complaint, is_blank, parse_command, parse_count, split_words, Command, Reply,
};
use sandworm::{SandWormInterpreter, State};

fn std_words(text: &str) -> Vec<Vec<u8>> {
    text.split_ascii_whitespace().map(|word| word.as_bytes().to_vec()).collect()
}

#[test]
fn empty_line_and_step_take_one_step() {
    assert_eq!(parse_command(""), Command::StepOnce);
    assert_eq!(parse_command("\n"), Command::StepOnce);
    assert_eq!(parse_command("   \t \n"), Command::StepOnce);
    assert_eq!(parse_command("step\n"), Command::StepOnce);
    assert_eq!(parse_command("  step  \r\n"), Command::StepOnce);
}

#[test]
fn step_with_a_number_takes_that_many() {
    assert_eq!(parse_command("step 12\n"), Command::Step(12));
    assert_eq!(parse_command("step\t0\n"), Command::Step(0));
    assert_eq!(parse_command("step +7\n"), Command::Step(7));
    assert_eq!(parse_command("step 007"), Command::Step(7));
}

#[test]
fn step_with_no_number_is_skipped() {
    assert_eq!(parse_command("step x\n"), Command::Skip);
    assert_eq!(parse_command("step -1\n"), Command::Skip);
    assert_eq!(parse_command("step +\n"), Command::Skip);
    assert_eq!(parse_command("step 1.5\n"), Command::Skip);
    assert_eq!(parse_command("step 99999999999999999999999999999999999999999\n"), Command::Skip);
}

#[test]
fn quit_words_leave() {
    assert_eq!(parse_command("q\n"), Command::Quit);
    assert_eq!(parse_command("exit\n"), Command::Quit);
    assert_eq!(parse_command(" quit"), Command::Quit);
}

#[test]
fn other_lines_are_unrecognised() {
    assert_eq!(parse_command("run\n"), Command::Unrecognised);
    assert_eq!(parse_command("step 1 2\n"), Command::Unrecognised);
    assert_eq!(parse_command("quit now\n"), Command::Unrecognised);
    assert_eq!(parse_command("Step\n"), Command::Unrecognised);
    assert_eq!(parse_command("input\n"), Command::Unrecognised);
    assert_eq!(parse_command(" input abc\n"), Command::Unrecognised);
    assert_eq!(parse_command("steps\n"), Command::Unrecognised);
    assert_eq!(parse_command("ste\n"), Command::Unrecognised);
}

#[test]
fn input_feeds_the_rest_of_the_line() {
    assert_eq!(parse_command("input abc\n"), Command::Feed(b"abc".to_vec()));
    assert_eq!(parse_command("input  a b \n"), Command::Feed(b" a b ".to_vec()));
    assert_eq!(parse_command("input abc"), Command::Feed(b"abc".to_vec()));
    assert_eq!(parse_command("input \n"), Command::Feed(Vec::new()));
    assert_eq!(parse_command("input "), Command::Feed(Vec::new()));
    assert_eq!(parse_command("input a\r\n"), Command::Feed(b"a\r".to_vec()));
    assert_eq!(parse_command("input a\n\n"), Command::Feed(b"a\n".to_vec()));
    assert_eq!(parse_command("input step\n"), Command::Feed(b"step".to_vec()));
}

#[test]
fn unicode_space_around_a_command_is_ignored() {
    assert_eq!(parse_command("\u{a0}step\u{2003}\n"), Command::StepOnce);
    assert_eq!(parse_command("\u{3000}quit"), Command::Quit);
    assert_eq!(parse_command("step\u{a0}3\n"), Command::Unrecognised);
}

#[test]
fn command_from_reads_words_of_the_trimmed_line() {
    assert_eq!(command_from(b"anything", b"step 3"), Command::Step(3));
    assert_eq!(command_from(b"input x\n", b"quit"), Command::Feed(b"x".to_vec()));
    assert_eq!(command_from(b"", b""), Command::StepOnce);
}

#[test]
fn words_split_as_the_standard_library_splits_them() {
    for text in ["", " ", "a", " a ", "a b", "a\tb\nc\rd\x0ce", "a\x0bb", "  step   12  ", "\n\n"] {
        assert_eq!(split_words(text.as_bytes()), std_words(text), "text {:?}", text);
    }
}

#[test]
fn blank_bytes_are_ascii_white_space() {
    for byte in 0..=255u8 {
        assert_eq!(is_blank(byte), byte.is_ascii_whitespace(), "byte {}", byte);
    }
}

#[test]
fn counts_parse_as_the_standard_library_parses_them() {
    let max = usize::MAX.to_string();
    let over = format!("{}0", max);
    let next = "18446744073709551616";
    for word in [
        "", "+", "-", "0", "1", "42", "+42", "-42", "++1", "1+", "00012", "12a", "a12", " 12", "1 2",
        max.as_str(), over.as_str(), next, "4294967295", "4294967296", "18446744073709551615",
    ] {
        assert_eq!(
            parse_count(&word.as_bytes().to_vec()),
            word.parse::<usize>().ok(),
            "word {:?}",
            word
        );
    }
}

#[test]
fn complaint_is_red() {
    assert_eq!(complaint(), "\x1b[31munrecognised command\x1b[39m");
}

#[test]
fn obey_carries_out_commands() {
    let mut interpreter = SandWormInterpreter::new("@??3", vec![1]).unwrap();
    assert_eq!(interpreter.obey(&Command::StepOnce), Reply::Proceed);
    assert_eq!(interpreter.head(), (1, 0));
    assert_eq!(interpreter.obey(&Command::Feed(vec![9, 8])), Reply::Proceed);
    assert_eq!(interpreter.input(), &vec![1u8, 9, 8]);
    assert_eq!(interpreter.obey(&Command::Skip), Reply::Proceed);
    assert_eq!(interpreter.obey(&Command::Unrecognised), Reply::Complain);
    assert_eq!(interpreter.obey(&Command::Quit), Reply::Leave);
    assert_eq!(interpreter.head(), (1, 0));
    assert_eq!(interpreter.obey(&Command::Step(10)), Reply::Proceed);
    assert_eq!(interpreter.state(), State::EndOfProgram);
    assert_eq!(interpreter.body_values(), vec![1, 9, 3]);
}
