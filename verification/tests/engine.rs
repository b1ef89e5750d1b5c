use sandworm::{Direction, LoadError, SandWormInterpreter, State};

fn load(source: &str) -> SandWormInterpreter {
    SandWormInterpreter::new(source, Vec::new()).unwrap()
}

fn row(interpreter: &SandWormInterpreter, row: usize) -> Vec<u8> {
    interpreter.grid()[row].clone()
}

#[test]
fn digit_then_number_prints_decimal_text() {
    let mut interpreter = load("05\"");
    assert_eq!(interpreter.head(), (0, 0));
    interpreter.step(3);
    assert_eq!(interpreter.output(), &b"5".to_vec());
    assert_eq!(interpreter.state(), State::EndOfProgram);
}

#[test]
fn fourth_step_finds_program_ended() {
    let mut interpreter = load("05\"");
    interpreter.step_once();
    interpreter.step_once();
    assert_eq!(interpreter.state(), State::Running);
    assert_eq!(interpreter.output(), &b"5".to_vec());
    interpreter.step_once();
    assert_eq!(interpreter.state(), State::EndOfProgram);
    interpreter.step_once();
    assert_eq!(interpreter.state(), State::EndOfProgram);
    assert_eq!(interpreter.output(), &b"5".to_vec());
}

#[test]
fn digit_grows_then_bang_writes_raw_byte() {
    let mut interpreter = load("@5!");
    interpreter.step_once();
    assert_eq!(interpreter.body(), &vec![(0, 0)]);
    assert_eq!(interpreter.body_values(), vec![5]);
    assert_eq!(interpreter.head(), (1, 0));
    assert_eq!(row(&interpreter, 0), vec![5, b'@', b'!']);
    interpreter.step_once();
    assert_eq!(interpreter.output(), &vec![5u8]);
    assert!(interpreter.body().is_empty());
    assert_eq!(interpreter.head(), (2, 0));
}

#[test]
fn bang_on_headless_source_writes_zero() {
    let mut interpreter = load("5!");
    interpreter.step_once();
    assert_eq!(interpreter.output(), &vec![0u8]);
    assert_eq!(interpreter.head(), (1, 0));
    assert_eq!(row(&interpreter, 0), vec![b'!', b'@']);
}

#[test]
fn step_after_end_changes_nothing() {
    let mut interpreter = SandWormInterpreter::new("@1", vec![7, 8]).unwrap();
    interpreter.step(5);
    assert_eq!(interpreter.state(), State::EndOfProgram);
    let grid = interpreter.grid().clone();
    let body = interpreter.body().clone();
    let head = interpreter.head();
    let direction = interpreter.direction();
    let values = interpreter.pending_values().clone();
    let bytes = interpreter.pending_bytes().clone();
    let cursor = interpreter.input_cursor();
    let output = interpreter.output().clone();
    interpreter.step_once();
    interpreter.step(3);
    assert_eq!(interpreter.state(), State::EndOfProgram);
    assert_eq!(interpreter.grid(), &grid);
    assert_eq!(interpreter.body(), &body);
    assert_eq!(interpreter.head(), head);
    assert_eq!(interpreter.direction(), direction);
    assert_eq!(interpreter.pending_values(), &values);
    assert_eq!(interpreter.pending_bytes(), &bytes);
    assert_eq!(interpreter.input_cursor(), cursor);
    assert_eq!(interpreter.output(), &output);
    assert_eq!(interpreter.input(), &vec![7u8, 8]);
}

#[test]
fn ending_step_changes_only_the_state() {
    let mut interpreter = load("1@");
    let grid = interpreter.grid().clone();
    interpreter.step_once();
    assert_eq!(interpreter.state(), State::EndOfProgram);
    assert_eq!(interpreter.grid(), &grid);
    assert_eq!(interpreter.head(), (1, 0));
    assert!(interpreter.body().is_empty());
    assert!(interpreter.pending_bytes().is_empty());
}

#[test]
fn grow_adds_one_segment_holding_the_value() {
    let mut interpreter = load("@7 ");
    interpreter.step_once();
    assert_eq!(interpreter.state(), State::Running);
    assert_eq!(interpreter.body().len(), 1);
    assert_eq!(interpreter.get((0, 0)), 7);
    assert_eq!(interpreter.get((1, 0)), b'@');
    assert_eq!(interpreter.pending_bytes(), &vec![b'7']);
    assert!(interpreter.pending_values().is_empty());
}

#[test]
fn slide_keeps_length_and_moves_the_neck_value_up() {
    let mut interpreter = load("@7  ");
    interpreter.step_once();
    interpreter.step_once();
    assert_eq!(interpreter.state(), State::Running);
    assert_eq!(interpreter.body(), &vec![(1, 0)]);
    assert_eq!(interpreter.get((1, 0)), 7);
    assert_eq!(interpreter.get((0, 0)), b'7');
    assert_eq!(interpreter.get((2, 0)), b'@');
    assert!(interpreter.pending_bytes().is_empty());
    interpreter.step_once();
    assert_eq!(interpreter.body(), &vec![(2, 0)]);
    assert_eq!(row(&interpreter, 0), vec![b'7', b' ', 7, b'@']);
}

#[test]
fn plus_writes_wrapping_sum_at_the_head() {
    let mut interpreter = load("@12+");
    interpreter.step(2);
    assert_eq!(interpreter.body_values(), vec![1, 2]);
    interpreter.step_once();
    assert_eq!(interpreter.get((2, 0)), 3);
    assert_eq!(interpreter.body(), &vec![(2, 0)]);
    assert_eq!(row(&interpreter, 0), vec![b'1', b'2', 3, b'@']);
    assert_eq!(interpreter.pending_bytes(), &vec![b'+']);
}

#[test]
fn minus_subtracts_the_second_segment_from_the_neck() {
    let mut interpreter = load("@12-");
    interpreter.step(3);
    assert_eq!(interpreter.get((2, 0)), 1);
    let mut interpreter = load("@21-");
    interpreter.step(3);
    assert_eq!(interpreter.get((2, 0)), 255);
}

#[test]
fn plus_wraps_around_at_256() {
    let mut interpreter = SandWormInterpreter::new("@??+", vec![200, 100]).unwrap();
    interpreter.step(3);
    assert_eq!(interpreter.get((2, 0)), 44);
    assert_eq!(interpreter.input_cursor(), 2);
}

#[test]
fn plus_on_short_worm_takes_zero_for_missing_segments() {
    let mut interpreter = load("@+");
    interpreter.step_once();
    assert_eq!(interpreter.body_values(), vec![0]);
    let mut interpreter = load("@4+");
    interpreter.step(2);
    assert_eq!(interpreter.body_values(), vec![4]);
    assert_eq!(interpreter.body(), &vec![(1, 0)]);
    assert_eq!(row(&interpreter, 0), vec![b'4', 4, b'@']);
}

#[test]
fn underscore_makes_a_space_segment() {
    let mut interpreter = load("@_");
    interpreter.step_once();
    assert_eq!(interpreter.body(), &vec![(0, 0)]);
    assert_eq!(interpreter.body_values(), vec![b' ']);
    assert_eq!(interpreter.pending_bytes(), &vec![b'_']);
}

#[test]
fn space_and_null_are_passed_over() {
    let mut interpreter = load("@ \n");
    interpreter.step_once();
    assert!(interpreter.body().is_empty());
    assert!(interpreter.pending_bytes().is_empty());
    assert_eq!(row(&interpreter, 0), vec![b' ', b'@']);
    let mut interpreter = load("@\n1234");
    assert_eq!(row(&interpreter, 0), vec![b'@', 0, 0, 0]);
    interpreter.step_once();
    assert!(interpreter.body().is_empty());
    assert!(interpreter.pending_bytes().is_empty());
    assert_eq!(row(&interpreter, 0), vec![b' ', b'@', 0, 0]);
    assert_eq!(interpreter.state(), State::Running);
}

#[test]
fn idle_grid_runs_to_the_edge() {
    let mut interpreter = load("@    ");
    interpreter.step(4);
    assert_eq!(interpreter.state(), State::Running);
    assert_eq!(interpreter.head(), (4, 0));
    interpreter.step(1);
    assert_eq!(interpreter.state(), State::EndOfProgram);
    assert!(interpreter.output().is_empty());
    assert!(interpreter.body().is_empty());
    assert_eq!(row(&interpreter, 0), b"    @".to_vec());
}

#[test]
fn swallowed_bytes_come_back_in_order() {
    let mut interpreter = load("@12v  \n   >  ");
    interpreter.step(3);
    assert_eq!(interpreter.pending_bytes(), &vec![b'v', b'2']);
    assert_eq!(row(&interpreter, 0), vec![b'1', 1, 2, b'@', b' ', b' ']);
    interpreter.step(1);
    assert_eq!(interpreter.pending_bytes(), &vec![b'>', b'v']);
    interpreter.step(2);
    assert!(interpreter.pending_bytes().is_empty());
    assert_eq!(row(&interpreter, 0), vec![b'1', b'2', b'v', b'>', b' ', b' ']);
    assert_eq!(row(&interpreter, 1), vec![b' ', b' ', b' ', 1, 2, b'@']);
    assert_eq!(interpreter.body(), &vec![(3, 1), (4, 1)]);
}

#[test]
fn refills_follow_the_order_of_swallowing() {
    let mut interpreter = load("@12345     ");
    interpreter.step(5);
    assert_eq!(interpreter.pending_bytes(), &b"54321".to_vec());
    interpreter.step(5);
    assert_eq!(row(&interpreter, 0), vec![b'1', b'2', b'3', b'4', b'5', 1, 2, 3, 4, 5, b'@']);
    assert!(interpreter.pending_bytes().is_empty());
}

#[test]
fn empty_queue_refills_with_space() {
    let mut interpreter = load("@  ");
    interpreter.step(2);
    assert_eq!(row(&interpreter, 0), b"  @".to_vec());
}

#[test]
fn direction_bytes_set_the_heading() {
    let mut interpreter = load("@v\n <\n ^");
    assert_eq!(interpreter.direction(), Direction::Right);
    interpreter.step_once();
    assert_eq!(interpreter.direction(), Direction::Down);
    assert_eq!(interpreter.head(), (1, 0));
    interpreter.step_once();
    assert_eq!(interpreter.direction(), Direction::Left);
    assert_eq!(interpreter.head(), (1, 1));
    interpreter.step_once();
    assert_eq!(interpreter.head(), (0, 1));
    assert_eq!(interpreter.state(), State::Running);
    interpreter.step_once();
    assert_eq!(interpreter.state(), State::EndOfProgram);
    assert_eq!(interpreter.head(), (0, 1));
}

#[test]
fn leaving_by_the_top_ends_the_program() {
    let mut interpreter = load("@^");
    interpreter.step_once();
    assert_eq!(interpreter.direction(), Direction::Up);
    assert_eq!(interpreter.state(), State::Running);
    interpreter.step_once();
    assert_eq!(interpreter.state(), State::EndOfProgram);
    assert_eq!(interpreter.head(), (1, 0));
}

#[test]
fn leaving_by_the_bottom_ends_the_program() {
    let mut interpreter = load("@v");
    interpreter.step(2);
    assert_eq!(interpreter.state(), State::EndOfProgram);
    assert_eq!(interpreter.direction(), Direction::Down);
}

#[test]
fn right_facing_byte_keeps_going_right() {
    let mut interpreter = load("@>1");
    interpreter.step(2);
    assert_eq!(interpreter.direction(), Direction::Right);
    assert_eq!(interpreter.head(), (2, 0));
    assert_eq!(row(&interpreter, 0), vec![b'>', 1, b'@']);
}

#[test]
fn backslash_turns_on_nonzero() {
    let mut interpreter = load("@1\\\n   ");
    interpreter.step(2);
    assert_eq!(interpreter.direction(), Direction::Down);
    assert!(interpreter.body().is_empty());
    interpreter.step_once();
    assert_eq!(interpreter.head(), (2, 1));
}

#[test]
fn backslash_keeps_heading_on_zero() {
    let mut interpreter = load("@0\\ ");
    interpreter.step(2);
    assert_eq!(interpreter.direction(), Direction::Right);
    let mut interpreter = load("@\\ ");
    interpreter.step(1);
    assert_eq!(interpreter.direction(), Direction::Right);
}

#[test]
fn slash_turns_the_other_way() {
    let mut interpreter = load("   \n@1/");
    interpreter.step(2);
    assert_eq!(interpreter.direction(), Direction::Up);
    interpreter.step_once();
    assert_eq!(interpreter.head(), (2, 0));
    let mut interpreter = load("@0/");
    interpreter.step(2);
    assert_eq!(interpreter.direction(), Direction::Right);
}

#[test]
fn mirrors_map_every_heading() {
    assert_eq!(Direction::Up.mirror_backslash(), Direction::Left);
    assert_eq!(Direction::Left.mirror_backslash(), Direction::Up);
    assert_eq!(Direction::Down.mirror_backslash(), Direction::Right);
    assert_eq!(Direction::Right.mirror_backslash(), Direction::Down);
    assert_eq!(Direction::Up.mirror_slash(), Direction::Right);
    assert_eq!(Direction::Right.mirror_slash(), Direction::Up);
    assert_eq!(Direction::Down.mirror_slash(), Direction::Left);
    assert_eq!(Direction::Left.mirror_slash(), Direction::Down);
}

#[test]
fn defaults_are_right_and_running() {
    assert_eq!(Direction::default(), Direction::Right);
    assert_eq!(State::default(), State::Running);
}

#[test]
fn query_reads_input_and_zero_past_the_end() {
    let mut interpreter = SandWormInterpreter::new("@???", vec![65, 66]).unwrap();
    interpreter.step(3);
    assert_eq!(interpreter.body_values(), vec![65, 66, 0]);
    assert_eq!(interpreter.input_cursor(), 3);
}

#[test]
fn input_fed_later_is_read_after_the_cursor() {
    let mut interpreter = SandWormInterpreter::new("@???", vec![1]).unwrap();
    interpreter.step(2);
    assert_eq!(interpreter.body_values(), vec![1, 0]);
    interpreter.feed_input(&[7, 8, 9]);
    assert_eq!(interpreter.input(), &vec![1u8, 7, 8, 9]);
    interpreter.step(1);
    assert_eq!(interpreter.body_values(), vec![1, 0, 8]);
}

#[test]
fn equals_copies_the_neck() {
    let mut interpreter = load("@3=");
    interpreter.step(2);
    assert_eq!(interpreter.body_values(), vec![3, 3]);
    let mut interpreter = load("@=");
    interpreter.step(1);
    assert_eq!(interpreter.body_values(), vec![0]);
}

#[test]
fn other_bytes_are_literal_values() {
    let mut interpreter = load("@A{\"");
    interpreter.step(2);
    assert_eq!(interpreter.body_values(), vec![65, 123]);
    interpreter.step(1);
    assert_eq!(interpreter.output(), &b"123".to_vec());
    assert_eq!(interpreter.body_values(), vec![65]);
}

#[test]
fn number_is_written_without_leading_zeros() {
    let mut interpreter = load("@A\"");
    interpreter.step(2);
    assert_eq!(interpreter.output(), &b"65".to_vec());
    let mut interpreter = load("@\"");
    interpreter.step(1);
    assert_eq!(interpreter.output(), &b"0".to_vec());
    let mut interpreter = SandWormInterpreter::new("@?\"", vec![255]).unwrap();
    interpreter.step(2);
    assert_eq!(interpreter.output(), &b"255".to_vec());
    let mut interpreter = SandWormInterpreter::new("@?\"", vec![100]).unwrap();
    interpreter.step(2);
    assert_eq!(interpreter.output(), &b"100".to_vec());
}

#[test]
fn consuming_instruction_shortens_the_worm() {
    let mut interpreter = load("@12! ");
    interpreter.step(2);
    assert_eq!(interpreter.body().len(), 2);
    interpreter.step(1);
    assert_eq!(interpreter.body().len(), 1);
    assert_eq!(interpreter.output(), &vec![2u8]);
    assert_eq!(interpreter.body_values(), vec![1]);
    assert_eq!(interpreter.body(), &vec![(2, 0)]);
}

#[test]
fn worm_can_turn_back_onto_its_own_neck() {
    let mut interpreter = load("@5<");
    interpreter.step(3);
    assert_eq!(interpreter.head(), (1, 0));
    assert_eq!(interpreter.body(), &vec![(1, 0), (2, 0)]);
    assert_eq!(interpreter.state(), State::Running);
    assert_eq!(row(&interpreter, 0), vec![b'5', b'@', 5]);
}

#[test]
fn shrink_returns_neck_and_refills_tail() {
    let mut interpreter = load("@12 ");
    interpreter.step(2);
    let value = interpreter.shrink();
    assert_eq!(value, 2);
    assert_eq!(interpreter.body(), &vec![(1, 0)]);
    assert_eq!(interpreter.body_values(), vec![1]);
    assert_eq!(interpreter.get((0, 0)), b'1');
    assert_eq!(interpreter.pending_bytes(), &vec![b'2']);
    assert_eq!(interpreter.head(), (2, 0));
    assert_eq!(interpreter.shrink(), 1);
    assert_eq!(interpreter.get((1, 0)), b'2');
    assert_eq!(interpreter.shrink(), 0);
    assert!(interpreter.body().is_empty());
    assert_eq!(interpreter.neck(), 0);
}

#[test]
fn move_to_slides_when_nothing_is_pending() {
    let mut interpreter = load("@1  ");
    interpreter.step(1);
    interpreter.move_to((2, 0));
    assert_eq!(interpreter.head(), (2, 0));
    assert_eq!(interpreter.body(), &vec![(1, 0)]);
    assert_eq!(row(&interpreter, 0), vec![b'1', 1, b'@', b' ']);
}

#[test]
fn get_mut_writes_one_cell() {
    let mut interpreter = load("@ab\ncde");
    *interpreter.get_mut((1, 1)) = b'x';
    assert_eq!(interpreter.get((1, 1)), b'x');
    assert_eq!(row(&interpreter, 0), b"@ab".to_vec());
    assert_eq!(row(&interpreter, 1), b"cxe".to_vec());
}

#[test]
fn front_is_none_at_every_edge() {
    let mut interpreter = load("@");
    assert_eq!(interpreter.front(), None);
    let interpreter2 = load("@1");
    assert_eq!(interpreter2.front(), Some((1, 0)));
    interpreter.step(1);
    assert_eq!(interpreter.state(), State::EndOfProgram);
}

#[test]
fn dimensions_are_those_of_the_grid() {
    let interpreter = load("ab\n@\ncdef");
    assert_eq!(interpreter.width(), 4);
    assert_eq!(interpreter.height(), 3);
    assert_eq!(interpreter.head(), (0, 1));
}

#[test]
fn empty_source_is_refused() {
    assert_eq!(SandWormInterpreter::new("", Vec::new()).err(), Some(LoadError::NoRows));
}

#[test]
fn source_of_empty_lines_is_refused() {
    assert_eq!(SandWormInterpreter::new("\n", Vec::new()).err(), Some(LoadError::NoColumns));
    assert_eq!(SandWormInterpreter::new("\r\n\n", Vec::new()).err(), Some(LoadError::NoColumns));
}

#[test]
fn step_zero_does_nothing() {
    let mut interpreter = load("@1");
    interpreter.step(0);
    assert_eq!(interpreter.head(), (0, 0));
    assert!(interpreter.body().is_empty());
}
