//! The commands of the kitty graphics protocol that the animation sends.
//!
//! Nothing here writes to the terminal.  Each function returns the bytes of a
//! command, and a spec function of the same shape says, byte for byte, what
//! those are.

use crate::text::ascii;
use crate::text::decimal;
use crate::text::push_ascii;
use crate::text::push_decimal;
use crate::transport::base64_text;
use crate::transport::pieces;
use crate::transport::chunk_count;
use crate::transport::to_chunks;
use crate::transport::Chunk;
use vstd::prelude::*;

verus! {

/// What a run of the animation is set up with.
#[derive(Clone, Copy, Debug, PartialEq, Eq, Structural)]
pub struct Config {
    /// Frames shown per second.
    pub frames_per_second: u32,
    /// How long the flight lasts, in milliseconds.
    pub duration_millis: u32,
    /// The number under which the terminal keeps the image.
    pub image_id: u32,
    /// The height of the image in pixels.
    pub image_height: u32,
    /// How many pixel rows of the image one row of text stands for.
    pub pixels_per_row: u32,
    /// How many columns the image keeps from the right edge of the terminal.
    pub right_margin: u32,
    /// The largest number of characters sent in one command.
    pub chunk_size: usize,
}

impl Config {
    /// A rate and a chunk size of zero make no animation.
    pub open spec fn valid(&self) -> bool {
        self.frames_per_second > 0 && self.chunk_size > 0
    }

    /// Sixty frames a second for 2.6 seconds, image 31415 of 384 pixel rows
    /// at 18 to the row of text, twelve columns from the right, in chunks of
    /// 4096 characters.
    pub open spec fn spec_standard() -> Config {
        Config {
            frames_per_second: 60,
            duration_millis: 2600,
            image_id: 31415,
            image_height: 384,
            pixels_per_row: 18,
            right_margin: 12,
            chunk_size: 4096,
        }
    }

    /// The settings that the rocket flies with.
    #[verifier::when_used_as_spec(spec_standard)]
    pub fn standard() -> (config: Config)
        ensures
            config == Config::spec_standard(),
            config.valid(),
    {
        Config {
            frames_per_second: 60,
            duration_millis: 2600,
            image_id: 31415,
            image_height: 384,
            pixels_per_row: 18,
            right_margin: 12,
            chunk_size: 4096,
        }
    }
}

/// The flag that tells the terminal whether more data follows.
pub open spec fn more_flag(more: bool) -> Seq<u8> {
    if more {
        ascii("1"@)
    } else {
        ascii("0"@)
    }
}

/// The command that carries one piece of the image.
///
/// The first piece says what is sent: an image to keep (`a=t`), in PNG
/// (`f=100`), in the command itself (`t=d`), under which number (`i`), and
/// that no answer is wanted (`q=2`).  Every piece says whether more follow
/// (`m`): all do but the last.
pub open spec fn transmit_command(image_id: u32, first: bool, last: bool, text: Seq<u8>) -> Seq<
    u8,
> {
    if first {
        ascii("\x1b_Ga=t,f=100,t=d,i="@) + decimal(image_id as nat) + ascii(",q=2,m="@) + more_flag(
            !last,
        ) + ascii(";"@) + text + ascii("\x1b\\"@)
    } else {
        ascii("\x1b_Gm="@) + more_flag(!last) + ascii(";"@) + text + ascii("\x1b\\"@)
    }
}

/// The commands that carry a text in pieces of at most `size` characters, one
/// command for each piece.
pub open spec fn upload_commands(text: Seq<u8>, image_id: u32, size: nat) -> Seq<Seq<u8>> {
    Seq::new(
        chunk_count(text.len(), size),
        |i: int|
            transmit_command(
                image_id,
                i == 0,
                i == chunk_count(text.len(), size) - 1,
                pieces(text, size)[i],
            ),
    )
}

/// The command that removes every placement of the image and keeps the image.
pub open spec fn delete_placements_command(image_id: u32) -> Seq<u8> {
    ascii("\x1b_Ga=d,d=i,i="@) + decimal(image_id as nat) + ascii(",q=2\x1b\\"@)
}

/// The command that removes the image and frees what the terminal kept of it.
pub open spec fn delete_image_command(image_id: u32) -> Seq<u8> {
    ascii("\x1b_Ga=d,d=I,i="@) + decimal(image_id as nat) + ascii(",q=2\x1b\\"@)
}

/// The sequence that hides the cursor.
pub open spec fn hide_cursor_command() -> Seq<u8> {
    ascii("\x1b[?25l"@)
}

/// The sequence that shows the cursor again.
pub open spec fn show_cursor_command() -> Seq<u8> {
    ascii("\x1b[?25h"@)
}

/// How many pixel rows of the image lie above the screen when its top is in
/// row `row` of the terminal.  Rows count from 1.
pub open spec fn spec_crop_offset(row: int, pixels_per_row: int) -> int {
    if row < 1 {
        (1 - row) * pixels_per_row
    } else {
        0
    }
}

/// The terminal row that the cursor is put in: `row`, but no higher than the
/// top.
pub open spec fn display_row(row: int) -> int {
    if row < 1 {
        1
    } else {
        row
    }
}

/// The terminal column that the cursor is put in: the margin away from the
/// right edge, moved by the jitter, but no further left than the first.
pub open spec fn display_column(columns: int, right_margin: int, jitter: int) -> int {
    let column = columns - right_margin + jitter;
    if column < 1 {
        1
    } else {
        column
    }
}

/// The command that shows the image at the cursor (`a=p`) and leaves the
/// cursor where it is (`C=1`).  With rows cropped it shows the image from
/// pixel row `crop` on (`y`), as many rows as are left (`h`).
pub open spec fn put_command(image_id: u32, crop: int, image_height: int) -> Seq<u8> {
    if crop > 0 {
        ascii("\x1b_Ga=p,i="@) + decimal(image_id as nat) + ascii(",q=2,C=1,y="@) + decimal(
            crop as nat,
        ) + ascii(",h="@) + decimal((image_height - crop) as nat) + ascii("\x1b\\"@)
    } else {
        ascii("\x1b_Ga=p,i="@) + decimal(image_id as nat) + ascii(",q=2,C=1\x1b\\"@)
    }
}

/// Everything that one placement sends: save the cursor, move it, show the
/// image, restore the cursor.
pub open spec fn place_command(config: Config, row: int, columns: int, jitter: int) -> Seq<u8> {
    ascii("\x1b[s\x1b["@) + decimal(display_row(row) as nat) + ascii(";"@) + decimal(
        display_column(columns, config.right_margin as int, jitter) as nat,
    ) + ascii("H"@) + put_command(
        config.image_id,
        spec_crop_offset(row, config.pixels_per_row as int),
        config.image_height as int,
    ) + ascii("\x1b[u"@)
}

/// Whether any of the image is still on the screen with its top in `row`.
pub open spec fn in_view(config: Config, row: int) -> bool {
    spec_crop_offset(row, config.pixels_per_row as int) < config.image_height
}

fn push_more_flag(buf: &mut Vec<u8>, more: bool)
    ensures
        final(buf)@ == old(buf)@ + more_flag(more),
{
    proof {
        reveal_strlit("1");
        reveal_strlit("0");
    }
    if more {
        push_ascii(buf, "1");
    } else {
        push_ascii(buf, "0");
    }
}

/// The command that carries `chunk`.
pub fn transmit(image_id: u32, chunk: &Chunk) -> (command: Vec<u8>)
    ensures
        command@ == transmit_command(image_id, chunk.first, chunk.last, chunk.text@),
{
    let mut buf: Vec<u8> = Vec::new();
    proof {
        reveal_strlit("\x1b_Ga=t,f=100,t=d,i=");
        reveal_strlit(",q=2,m=");
        reveal_strlit("\x1b_Gm=");
        reveal_strlit(";");
        reveal_strlit("\x1b\\");
    }
    if chunk.first {
        push_ascii(&mut buf, "\x1b_Ga=t,f=100,t=d,i=");
        push_decimal(&mut buf, image_id as u64);
        push_ascii(&mut buf, ",q=2,m=");
    } else {
        push_ascii(&mut buf, "\x1b_Gm=");
    }
    push_more_flag(&mut buf, !chunk.last);
    push_ascii(&mut buf, ";");
    buf.extend_from_slice(chunk.text.as_slice());
    push_ascii(&mut buf, "\x1b\\");
    assert(buf@ =~= transmit_command(image_id, chunk.first, chunk.last, chunk.text@));
    buf
}

/// One command for each chunk of `payload`, in order.
pub fn upload(payload: &Vec<Chunk>, image_id: u32) -> (commands: Vec<Vec<u8>>)
    ensures
        commands@.len() == payload@.len(),
        forall|i: int|
            0 <= i < payload@.len() ==> (#[trigger] commands@[i])@ == transmit_command(
                image_id,
                payload@[i].first,
                payload@[i].last,
                payload@[i].text@,
            ),
{
    let mut commands: Vec<Vec<u8>> = Vec::new();
    let mut i: usize = 0;
    while i < payload.len()
        invariant
            i <= payload@.len(),
            commands@.len() == i,
            forall|j: int|
                0 <= j < i ==> (#[trigger] commands@[j])@ == transmit_command(
                    image_id,
                    payload@[j].first,
                    payload@[j].last,
                    payload@[j].text@,
                ),
        decreases payload@.len() - i,
    {
        commands.push(transmit(image_id, &payload[i]));
        i = i + 1;
    }
    commands
}

/// The commands that hand an image to the terminal: its bytes as base64 text,
/// cut into pieces of at most `chunk_size` characters, one command for each.
/// The text, a third longer than the image, must not be longer than a vector
/// can be.
pub fn upload_image(png_data: &[u8], image_id: u32, chunk_size: usize) -> (commands: Vec<Vec<u8>>)
    requires
        0 < chunk_size,
        4 * ((png_data@.len() + 2) / 3) <= isize::MAX,
    ensures
        commands@.len() == chunk_count(base64_text(png_data@).len(), chunk_size as nat),
        forall|i: int|
            0 <= i < commands@.len() ==> (#[trigger] commands@[i])@ == upload_commands(
                base64_text(png_data@),
                image_id,
                chunk_size as nat,
            )[i],
{
    let payload = to_chunks(png_data, chunk_size);
    upload(&payload, image_id)
}

/// The command that removes every placement of the image.
pub fn delete_placements(image_id: u32) -> (command: Vec<u8>)
    ensures
        command@ == delete_placements_command(image_id),
{
    let mut buf: Vec<u8> = Vec::new();
    proof {
        reveal_strlit("\x1b_Ga=d,d=i,i=");
        reveal_strlit(",q=2\x1b\\");
    }
    push_ascii(&mut buf, "\x1b_Ga=d,d=i,i=");
    push_decimal(&mut buf, image_id as u64);
    push_ascii(&mut buf, ",q=2\x1b\\");
    assert(buf@ =~= delete_placements_command(image_id));
    buf
}

/// The command that removes the image itself.
pub fn delete_image(image_id: u32) -> (command: Vec<u8>)
    ensures
        command@ == delete_image_command(image_id),
{
    let mut buf: Vec<u8> = Vec::new();
    proof {
        reveal_strlit("\x1b_Ga=d,d=I,i=");
        reveal_strlit(",q=2\x1b\\");
    }
    push_ascii(&mut buf, "\x1b_Ga=d,d=I,i=");
    push_decimal(&mut buf, image_id as u64);
    push_ascii(&mut buf, ",q=2\x1b\\");
    assert(buf@ =~= delete_image_command(image_id));
    buf
}

/// The sequence that hides the cursor.
pub fn hide_cursor() -> (command: Vec<u8>)
    ensures
        command@ == hide_cursor_command(),
{
    let mut buf: Vec<u8> = Vec::new();
    proof {
        reveal_strlit("\x1b[?25l");
    }
    push_ascii(&mut buf, "\x1b[?25l");
    assert(buf@ =~= hide_cursor_command());
    buf
}

/// The sequence that shows the cursor again.
pub fn show_cursor() -> (command: Vec<u8>)
    ensures
        command@ == show_cursor_command(),
{
    let mut buf: Vec<u8> = Vec::new();
    proof {
        reveal_strlit("\x1b[?25h");
    }
    push_ascii(&mut buf, "\x1b[?25h");
    assert(buf@ =~= show_cursor_command());
    buf
}

/// How many pixel rows of the image lie above the screen when its top is in
/// row `row`.  There are none while the top is on the screen.
pub fn crop_offset(row: i32, pixels_per_row: u32) -> (crop: u64)
    ensures
        crop == spec_crop_offset(row as int, pixels_per_row as int),
        row >= 1 ==> crop == 0,
{
    if row < 1 {
        let above: u64 = (1 - row as i64) as u64;
        assert(above * pixels_per_row <= 0x8000_0001 * 0xffff_ffff) by (nonlinear_arith)
            requires
                0 <= above <= 0x8000_0001,
                0 <= pixels_per_row <= 0xffff_ffff,
        ;
        above * (pixels_per_row as u64)
    } else {
        0
    }
}

/// Where the image goes in one frame, or `None` once all of it has left the
/// screen through the top.
///
/// `row` is the terminal row of the top of the image and may lie above the
/// screen; `columns` is the width of the terminal; `jitter` moves the image
/// sideways.  Nothing is to be sent when the result is `None`.
pub fn place_image(config: &Config, row: i32, columns: u32, jitter: i32) -> (command: Option<
    Vec<u8>,
>)
    ensures
        command is Some <==> in_view(*config, row as int),
        command matches Some(bytes) ==> bytes@ == place_command(
            *config,
            row as int,
            columns as int,
            jitter as int,
        ),
{
    let crop: u64 = crop_offset(row, config.pixels_per_row);
    if crop >= config.image_height as u64 {
        return None;
    }
    let shifted: i64 = columns as i64 - config.right_margin as i64 + jitter as i64;
    let column: u64 = if shifted < 1 {
        1
    } else {
        shifted as u64
    };
    let shown: u64 = if row < 1 {
        1
    } else {
        row as u64
    };
    let mut buf: Vec<u8> = Vec::new();
    proof {
        reveal_strlit("\x1b[s\x1b[");
        reveal_strlit(";");
        reveal_strlit("H");
        reveal_strlit("\x1b_Ga=p,i=");
        reveal_strlit(",q=2,C=1,y=");
        reveal_strlit(",h=");
        reveal_strlit("\x1b\\");
        reveal_strlit(",q=2,C=1\x1b\\");
        reveal_strlit("\x1b[u");
    }
    push_ascii(&mut buf, "\x1b[s\x1b[");
    push_decimal(&mut buf, shown);
    push_ascii(&mut buf, ";");
    push_decimal(&mut buf, column);
    push_ascii(&mut buf, "H");
    let ghost head = buf@;
    push_ascii(&mut buf, "\x1b_Ga=p,i=");
    push_decimal(&mut buf, config.image_id as u64);
    if crop > 0 {
        push_ascii(&mut buf, ",q=2,C=1,y=");
        push_decimal(&mut buf, crop);
        push_ascii(&mut buf, ",h=");
        push_decimal(&mut buf, config.image_height as u64 - crop);
        push_ascii(&mut buf, "\x1b\\");
    } else {
        push_ascii(&mut buf, ",q=2,C=1\x1b\\");
    }
    assert(buf@ =~= head + put_command(config.image_id, crop as int, config.image_height as int));
    push_ascii(&mut buf, "\x1b[u");
    assert(buf@ =~= place_command(*config, row as int, columns as int, jitter as int));
    Some(buf)
}

} // verus!
