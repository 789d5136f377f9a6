use termrocket::protocol::crop_offset;
use termrocket::protocol::delete_image;
use termrocket::protocol::delete_placements;
use termrocket::protocol::hide_cursor;
use termrocket::protocol::place_image;
use termrocket::protocol::show_cursor;
use termrocket::protocol::transmit;
use termrocket::protocol::upload;
use termrocket::protocol::upload_image;
use termrocket::protocol::Config;
use termrocket::transport::Chunk;

fn text(bytes: &[u8]) -> String {
    String::from_utf8(bytes.to_vec()).unwrap()
}

fn placed(config: &Config, row: i32, columns: u32, jitter: i32) -> Option<String> {
    place_image(config, row, columns, jitter).map(|b| text(&b))
}

#[test]
fn standard_settings() {
    let c = Config::standard();
    assert_eq!(c.frames_per_second, 60);
    assert_eq!(c.duration_millis, 2600);
    assert_eq!(c.image_id, 31415);
    assert_eq!(c.image_height, 384);
    assert_eq!(c.pixels_per_row, 18);
    assert_eq!(c.right_margin, 12);
    assert_eq!(c.chunk_size, 4096);
}

#[test]
fn upload_of_a_short_image_is_one_command() {
    let commands = upload_image(b"hello", 31415, 4096);
    assert_eq!(commands.len(), 1);
    assert_eq!(text(&commands[0]), "\x1b_Ga=t,f=100,t=d,i=31415,q=2,m=0;aGVsbG8=\x1b\\");
}

#[test]
fn upload_of_nothing_is_one_empty_command() {
    let commands = upload_image(b"", 7, 4096);
    assert_eq!(commands.len(), 1);
    assert_eq!(text(&commands[0]), "\x1b_Ga=t,f=100,t=d,i=7,q=2,m=0;\x1b\\");
}

#[test]
fn upload_in_several_commands() {
    let commands = upload_image(b"foobar!", 31415, 4);
    // "Zm9vYmFyIQ==" in pieces of four
    let got: Vec<String> = commands.iter().map(|c| text(c)).collect();
    assert_eq!(
        got,
        vec![
            "\x1b_Ga=t,f=100,t=d,i=31415,q=2,m=1;Zm9v\x1b\\".to_string(),
            "\x1b_Gm=1;YmFy\x1b\\".to_string(),
            "\x1b_Gm=0;IQ==\x1b\\".to_string(),
        ]
    );
}

#[test]
fn upload_sets_the_more_flag_on_all_but_the_last() {
    let data = vec![0u8; 3 * 1024 * 5];
    let commands = upload_image(&data, 1, 4096);
    assert_eq!(commands.len(), 5);
    for (i, command) in commands.iter().enumerate() {
        let s = text(command);
        let want = if i == 4 { "m=0;" } else { "m=1;" };
        assert!(s.contains(want));
        assert_eq!(s.starts_with("\x1b_Ga=t,f=100,t=d,i=1,q=2,"), i == 0);
        assert_eq!(s.starts_with("\x1b_Gm="), i != 0);
        assert!(s.ends_with("\x1b\\"));
        let payload = &s[s.find(';').unwrap() + 1..s.len() - 2];
        assert_eq!(payload.len(), 4096);
        assert!(payload.bytes().all(|b| b == b'A'));
    }
}

#[test]
fn upload_follows_the_marks_of_the_chunks() {
    let payload = vec![
        Chunk { text: b"AAAA".to_vec(), first: true, last: false },
        Chunk { text: b"BBBB".to_vec(), first: false, last: false },
        Chunk { text: b"CC==".to_vec(), first: false, last: true },
    ];
    let got: Vec<String> = upload(&payload, 42).iter().map(|c| text(c)).collect();
    assert_eq!(
        got,
        vec![
            "\x1b_Ga=t,f=100,t=d,i=42,q=2,m=1;AAAA\x1b\\".to_string(),
            "\x1b_Gm=1;BBBB\x1b\\".to_string(),
            "\x1b_Gm=0;CC==\x1b\\".to_string(),
        ]
    );
    let only = Chunk { text: b"QQ==".to_vec(), first: true, last: true };
    assert_eq!(text(&transmit(4294967295, &only)), "\x1b_Ga=t,f=100,t=d,i=4294967295,q=2,m=0;QQ==\x1b\\");
}

#[test]
fn delete_commands() {
    assert_eq!(text(&delete_placements(31415)), "\x1b_Ga=d,d=i,i=31415,q=2\x1b\\");
    assert_eq!(text(&delete_image(31415)), "\x1b_Ga=d,d=I,i=31415,q=2\x1b\\");
    assert_eq!(text(&delete_placements(0)), "\x1b_Ga=d,d=i,i=0,q=2\x1b\\");
    assert_eq!(text(&delete_image(10)), "\x1b_Ga=d,d=I,i=10,q=2\x1b\\");
}

#[test]
fn cursor_commands() {
    assert_eq!(text(&hide_cursor()), "\x1b[?25l");
    assert_eq!(text(&show_cursor()), "\x1b[?25h");
}

#[test]
fn crop_is_zero_on_the_screen() {
    for row in [1, 2, 24, 1000, i32::MAX] {
        assert_eq!(crop_offset(row, 18), 0);
        assert_eq!(crop_offset(row, u32::MAX), 0);
    }
}

#[test]
fn crop_counts_the_rows_above_the_screen() {
    assert_eq!(crop_offset(0, 18), 18);
    assert_eq!(crop_offset(-1, 18), 36);
    assert_eq!(crop_offset(-20, 18), 378);
    assert_eq!(crop_offset(-21, 18), 396);
    assert_eq!(crop_offset(-5, 0), 0);
    assert_eq!(crop_offset(i32::MIN, u32::MAX), 2147483649 * 4294967295);
}

#[test]
fn place_on_the_screen_has_no_crop() {
    let c = Config::standard();
    assert_eq!(
        placed(&c, 24, 80, 0),
        Some("\x1b[s\x1b[24;68H\x1b_Ga=p,i=31415,q=2,C=1\x1b\\\x1b[u".to_string())
    );
    assert_eq!(
        placed(&c, 1, 80, 0),
        Some("\x1b[s\x1b[1;68H\x1b_Ga=p,i=31415,q=2,C=1\x1b\\\x1b[u".to_string())
    );
    for row in 1..200 {
        let s = placed(&c, row, 80, 0).unwrap();
        assert!(!s.contains("y="));
        assert!(!s.contains("h="));
    }
}

#[test]
fn place_above_the_screen_crops_the_top() {
    let c = Config::standard();
    assert_eq!(
        placed(&c, 0, 80, 0),
        Some("\x1b[s\x1b[1;68H\x1b_Ga=p,i=31415,q=2,C=1,y=18,h=366\x1b\\\x1b[u".to_string())
    );
    assert_eq!(
        placed(&c, -3, 80, 0),
        Some("\x1b[s\x1b[1;68H\x1b_Ga=p,i=31415,q=2,C=1,y=72,h=312\x1b\\\x1b[u".to_string())
    );
    assert_eq!(
        placed(&c, -20, 80, 0),
        Some("\x1b[s\x1b[1;68H\x1b_Ga=p,i=31415,q=2,C=1,y=378,h=6\x1b\\\x1b[u".to_string())
    );
}

#[test]
fn place_out_of_view_sends_nothing() {
    let c = Config::standard();
    assert_eq!(placed(&c, -21, 80, 0), None);
    assert_eq!(placed(&c, -30, 80, 1), None);
    assert_eq!(placed(&c, i32::MIN, 80, -1), None);
    for row in -400..=-21 {
        assert!(18 * (1 - row) >= 384);
        assert_eq!(placed(&c, row, 80, 0), None);
    }
    let exact = Config { image_height: 36, ..c };
    assert_eq!(placed(&exact, -1, 80, 0), None);
    assert!(placed(&exact, 0, 80, 0).is_some());
}

#[test]
fn place_moves_with_the_jitter() {
    let c = Config::standard();
    assert_eq!(
        placed(&c, 5, 80, 1),
        Some("\x1b[s\x1b[5;69H\x1b_Ga=p,i=31415,q=2,C=1\x1b\\\x1b[u".to_string())
    );
    assert_eq!(
        placed(&c, 5, 80, -1),
        Some("\x1b[s\x1b[5;67H\x1b_Ga=p,i=31415,q=2,C=1\x1b\\\x1b[u".to_string())
    );
}

#[test]
fn place_keeps_to_the_first_column() {
    let c = Config::standard();
    for (columns, jitter) in [(0u32, 0i32), (5, 0), (12, 0), (13, -1), (12, 1), (0, i32::MIN)] {
        assert_eq!(
            placed(&c, 5, columns, jitter),
            Some("\x1b[s\x1b[5;1H\x1b_Ga=p,i=31415,q=2,C=1\x1b\\\x1b[u".to_string())
        );
    }
    assert_eq!(
        placed(&c, 5, 13, 0),
        Some("\x1b[s\x1b[5;1H\x1b_Ga=p,i=31415,q=2,C=1\x1b\\\x1b[u".to_string())
    );
    assert_eq!(
        placed(&c, 5, 14, 0),
        Some("\x1b[s\x1b[5;2H\x1b_Ga=p,i=31415,q=2,C=1\x1b\\\x1b[u".to_string())
    );
    assert_eq!(
        placed(&c, 5, u32::MAX, i32::MAX),
        Some("\x1b[s\x1b[5;6442450930H\x1b_Ga=p,i=31415,q=2,C=1\x1b\\\x1b[u".to_string())
    );
}

#[test]
fn place_with_other_settings() {
    let c = Config {
        frames_per_second: 30,
        duration_millis: 1000,
        image_id: 9,
        image_height: 100,
        pixels_per_row: 10,
        right_margin: 0,
        chunk_size: 16,
    };
    assert_eq!(
        placed(&c, -4, 40, 0),
        Some("\x1b[s\x1b[1;40H\x1b_Ga=p,i=9,q=2,C=1,y=50,h=50\x1b\\\x1b[u".to_string())
    );
    assert_eq!(placed(&c, -9, 40, 0), None);
    assert_eq!(
        placed(&c, -8, 40, 0),
        Some("\x1b[s\x1b[1;40H\x1b_Ga=p,i=9,q=2,C=1,y=90,h=10\x1b\\\x1b[u".to_string())
    );
}
