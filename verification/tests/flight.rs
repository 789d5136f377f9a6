use termrocket::animation::frame_interval;
use termrocket::animation::get_frame_position;
use termrocket::animation::total_frames;
use termrocket::animation::Animation;
use termrocket::animation::Outcome;
use termrocket::animation::Stage;
use termrocket::animation::Step;
use termrocket::protocol::place_image;
use termrocket::protocol::Config;
use termrocket::terminal::contains_bytes;
use termrocket::terminal::get_terminal_size;
use termrocket::terminal::is_kitty_terminal;

fn run(config: Config, height: u32, fail_at: Option<usize>) -> Vec<Step> {
    let mut animation = Animation::new(config, height);
    let mut steps = Vec::new();
    let mut outcome = Outcome::Done;
    loop {
        let step = animation.advance(outcome);
        steps.push(step);
        if step == Step::Stop {
            break;
        }
        outcome = if Some(steps.len() - 1) == fail_at { Outcome::Failed } else { Outcome::Done };
        assert!(steps.len() < 10000);
    }
    assert_eq!(animation.stage, Stage::Finished);
    assert_eq!(animation.advance(Outcome::Done), Step::Stop);
    assert_eq!(animation.advance(Outcome::Failed), Step::Stop);
    steps
}

fn count(steps: &[Step], wanted: Step) -> usize {
    steps.iter().filter(|&&s| s == wanted).count()
}

#[test]
fn flight_starts_at_the_terminal_height() {
    assert_eq!(get_frame_position(0, 24, 156), 24);
    assert_eq!(get_frame_position(0, 50, 10), 50);
    assert_eq!(get_frame_position(0, 0, 1), 0);
    assert_eq!(get_frame_position(0, 2147483647, 3), 2147483647);
    assert_eq!(get_frame_position(0, u32::MAX, 3), i32::MAX);
}

#[test]
fn flight_ends_thirty_rows_above() {
    assert_eq!(get_frame_position(156, 24, 156), -30);
    assert_eq!(get_frame_position(10, 50, 10), -30);
    assert_eq!(get_frame_position(1, 0, 1), -30);
    assert_eq!(get_frame_position(u32::MAX, u32::MAX, u32::MAX), -30);
}

#[test]
fn flight_rows_round_towards_zero() {
    // 24 - 54 * frame / 156
    assert_eq!(get_frame_position(1, 24, 156), 23);
    assert_eq!(get_frame_position(26, 24, 156), 15);
    assert_eq!(get_frame_position(69, 24, 156), 0);
    assert_eq!(get_frame_position(70, 24, 156), 0);
    assert_eq!(get_frame_position(72, 24, 156), 0);
    assert_eq!(get_frame_position(73, 24, 156), -1);
    assert_eq!(get_frame_position(78, 24, 156), -3);
    assert_eq!(get_frame_position(155, 24, 156), -29);
}

#[test]
fn flight_never_moves_down() {
    for (height, total) in [(24u32, 156u32), (1, 7), (0, 3), (200, 1000), (80, 1)] {
        let mut last = get_frame_position(0, height, total);
        for frame in 1..=total {
            let row = get_frame_position(frame, height, total);
            assert!(row <= last);
            last = row;
        }
        assert_eq!(last, -30);
    }
}

#[test]
fn flight_beyond_its_end_goes_on_and_stops_at_the_lowest_row() {
    assert_eq!(get_frame_position(312, 24, 156), -84);
    assert_eq!(get_frame_position(u32::MAX, 24, 1), i32::MIN);
    assert_eq!(get_frame_position(u32::MAX, u32::MAX, 1), i32::MIN);
}

#[test]
fn flight_of_no_frames() {
    assert_eq!(get_frame_position(0, 24, 0), 0);
    assert_eq!(get_frame_position(1, 24, 0), i32::MIN);
    assert_eq!(get_frame_position(5, 0, 0), i32::MIN);
}

#[test]
fn frame_count_is_rate_times_duration() {
    assert_eq!(total_frames(60, 2600), 156);
    assert_eq!(total_frames(60, 0), 0);
    assert_eq!(total_frames(0, 2600), 0);
    assert_eq!(total_frames(1, 499), 0);
    assert_eq!(total_frames(1, 500), 1);
    assert_eq!(total_frames(1, 1499), 1);
    assert_eq!(total_frames(30, 1000), 30);
    assert_eq!(total_frames(u32::MAX, u32::MAX), u32::MAX);
}

#[test]
fn frame_interval_in_nanoseconds() {
    assert_eq!(frame_interval(60), 16_666_666);
    assert_eq!(frame_interval(1), 1_000_000_000);
    assert_eq!(frame_interval(u32::MAX), 0);
}

#[test]
fn standard_flight_from_start_to_finish() {
    let c = Config::standard();
    // frame 0 is in row 24 and shows the whole image
    assert_eq!(get_frame_position(0, 24, 156), 24);
    let first = place_image(&c, 24, 80, 0).unwrap();
    assert!(!String::from_utf8(first).unwrap().contains("y="));
    // the image has left the screen once 18 * (1 - row) reaches 384
    let gone = (0..156).find(|&f| place_image(&c, get_frame_position(f, 24, 156), 80, 0).is_none());
    assert_eq!(gone, Some(130));
    assert_eq!(get_frame_position(129, 24, 156), -20);
    assert_eq!(get_frame_position(130, 24, 156), -21);
    assert_eq!(get_frame_position(155, 24, 156), -29);
}

#[test]
fn run_of_the_standard_flight() {
    let steps = run(Config::standard(), 24, None);
    assert_eq!(steps[0], Step::HideCursor);
    assert_eq!(steps[1], Step::Upload);
    for frame in 0..130u32 {
        let at = 2 + 3 * frame as usize;
        assert_eq!(steps[at], Step::ClearPlacements);
        assert_eq!(steps[at + 1], Step::Place { frame, row: get_frame_position(frame, 24, 156) });
        assert_eq!(steps[at + 2], Step::Sleep { nanos: 16_666_666 });
    }
    // frame 130 is out of view: its placements are cleared, nothing is placed
    assert_eq!(&steps[392..], &[Step::ClearPlacements, Step::DeleteImage, Step::ShowCursor, Step::Stop]);
    assert_eq!(count(&steps, Step::Upload), 1);
    assert_eq!(count(&steps, Step::DeleteImage), 1);
    assert_eq!(count(&steps, Step::ShowCursor), 1);
}

#[test]
fn run_that_uses_up_its_frames() {
    let c = Config { duration_millis: 100, ..Config::standard() };
    assert_eq!(total_frames(60, 100), 6);
    // in 40 rows the sixth frame is in row 40 - 70 * 5 / 6, still in view
    let steps = run(c, 40, None);
    assert_eq!(steps.len(), 2 + 3 * 6 + 3);
    assert_eq!(steps[2 + 3 * 5 + 1], Step::Place { frame: 5, row: -18 });
    assert_eq!(&steps[20..], &[Step::DeleteImage, Step::ShowCursor, Step::Stop]);
    // in 24 rows it is in row -21, out of view
    let steps = run(c, 24, None);
    assert_eq!(steps.len(), 2 + 3 * 5 + 1 + 3);
    assert_eq!(&steps[17..], &[Step::ClearPlacements, Step::DeleteImage, Step::ShowCursor, Step::Stop]);
}

#[test]
fn run_without_frames() {
    let c = Config { duration_millis: 0, ..Config::standard() };
    let steps = run(c, 24, None);
    assert_eq!(steps, vec![Step::HideCursor, Step::Upload, Step::DeleteImage, Step::ShowCursor, Step::Stop]);
}

#[test]
fn run_cleans_up_when_the_upload_fails() {
    let steps = run(Config::standard(), 24, Some(1));
    assert_eq!(steps, vec![Step::HideCursor, Step::Upload, Step::DeleteImage, Step::ShowCursor, Step::Stop]);
}

#[test]
fn run_cleans_up_when_a_placement_fails() {
    let steps = run(Config::standard(), 24, Some(6));
    assert_eq!(
        steps,
        vec![
            Step::HideCursor,
            Step::Upload,
            Step::ClearPlacements,
            Step::Place { frame: 0, row: 24 },
            Step::Sleep { nanos: 16_666_666 },
            Step::ClearPlacements,
            Step::Place { frame: 1, row: 23 },
            Step::DeleteImage,
            Step::ShowCursor,
            Step::Stop,
        ]
    );
}

#[test]
fn run_goes_on_when_a_cleanup_step_fails() {
    let all = run(Config::standard(), 24, None);
    // hiding the cursor, clearing placements, sleeping, deleting and
    // restoring are tried once and their failure changes nothing
    for at in [0usize, 2, 4, 5, 392, 393, 394] {
        assert_eq!(run(Config::standard(), 24, Some(at)), all);
    }
}

#[test]
fn run_clears_before_every_placement() {
    for height in [0u32, 1, 24, 100] {
        let steps = run(Config::standard(), height, None);
        for (i, step) in steps.iter().enumerate() {
            if let Step::Place { frame, row } = *step {
                assert_eq!(steps[i - 1], Step::ClearPlacements);
                assert_eq!(row, get_frame_position(frame, height, 156));
                assert!(place_image(&Config::standard(), row, 80, 0).is_some());
            }
        }
        assert_eq!(steps[steps.len() - 3..], [Step::DeleteImage, Step::ShowCursor, Step::Stop]);
    }
}

#[test]
fn kitty_is_detected_by_the_terminal_type() {
    assert!(is_kitty_terminal(Some(b"xterm-kitty"), false));
    assert!(is_kitty_terminal(Some(b"kitty"), false));
    assert!(is_kitty_terminal(Some(b"my-kitty-term"), false));
    assert!(!is_kitty_terminal(Some(b"xterm"), false));
    assert!(!is_kitty_terminal(Some(b"xterm-256color"), false));
    assert!(!is_kitty_terminal(Some(b"kitt"), false));
    assert!(!is_kitty_terminal(Some(b"kit-ty"), false));
    assert!(!is_kitty_terminal(Some(b"KITTY"), false));
    assert!(!is_kitty_terminal(Some(b""), false));
    assert!(!is_kitty_terminal(None, false));
}

#[test]
fn kitty_is_detected_by_the_window_identifier() {
    assert!(is_kitty_terminal(None, true));
    assert!(is_kitty_terminal(Some(b"xterm"), true));
    assert!(is_kitty_terminal(Some(b"xterm-kitty"), true));
}

#[test]
fn bytes_are_found_anywhere() {
    assert!(contains_bytes(b"abcabd", b"abd"));
    assert!(contains_bytes(b"abcabd", b"abc"));
    assert!(contains_bytes(b"abcabd", b""));
    assert!(contains_bytes(b"", b""));
    assert!(!contains_bytes(b"", b"a"));
    assert!(!contains_bytes(b"ab", b"abc"));
    assert!(!contains_bytes(b"abcabd", b"abe"));
    assert!(contains_bytes(b"aaab", b"aab"));
}

#[test]
fn terminal_size_falls_back_to_80_by_24() {
    assert_eq!(get_terminal_size(None), (80, 24));
    assert_eq!(get_terminal_size(Some((132, 43))), (132, 43));
    assert_eq!(get_terminal_size(Some((0, 0))), (0, 0));
    assert_eq!(get_terminal_size(Some((u16::MAX, 1))), (65535, 1));
}

#[test]
fn report_in_a_kitty_terminal() {
    let text = termrocket::terminal::test_terminal(Some(b"xterm-kitty"), Some(b"3"), Some((120, 40)));
    assert_eq!(
        String::from_utf8(text).unwrap(),
        "Checking terminal support...\n\n\
         TERM: xterm-kitty\n\
         KITTY_WINDOW_ID: 3\n\
         Kitty detected: true\n\
         Terminal size: 120x40\n\
         \n[OK] Terminal supports kitty graphics protocol\n\
         Run 'termrocket launch' to see the rocket!\n"
    );
}

#[test]
fn report_in_another_terminal() {
    let text = termrocket::terminal::test_terminal(Some(b"xterm"), None, None);
    assert_eq!(
        String::from_utf8(text).unwrap(),
        "Checking terminal support...\n\n\
         TERM: xterm\n\
         KITTY_WINDOW_ID: not set\n\
         Kitty detected: false\n\
         Terminal size: 80x24\n\
         \n[WARN] Kitty terminal not detected\n\
         termrocket requires kitty terminal for graphics\n"
    );
}

#[test]
fn report_without_a_terminal_type() {
    let text = termrocket::terminal::test_terminal(None, None, Some((0, 0)));
    let text = String::from_utf8(text).unwrap();
    assert!(text.starts_with("Checking terminal support...\n\nTERM: unknown\nKITTY_WINDOW_ID: not set\n"));
    assert!(text.contains("Kitty detected: false\nTerminal size: 0x0\n"));
    let text = termrocket::terminal::test_terminal(None, Some(b""), None);
    let text = String::from_utf8(text).unwrap();
    assert!(text.contains("TERM: unknown\nKITTY_WINDOW_ID: \nKitty detected: true\n"));
    assert!(text.ends_with("Run 'termrocket launch' to see the rocket!\n"));
}

#[test]
fn refusal_is_two_lines() {
    assert_eq!(
        String::from_utf8(termrocket::terminal::refusal_notice()).unwrap(),
        "termrocket: kitty terminal not detected\nSet TERM=xterm-kitty or run inside kitty terminal\n"
    );
}
