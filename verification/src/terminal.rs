//! What the animation needs to know about the terminal it runs in.
//!
//! The caller reads the environment and asks the terminal for its size; the
//! functions here decide what follows from the answers.

use crate::text::ascii;
use crate::text::decimal;
use crate::text::push_ascii;
use crate::text::push_decimal;
use vstd::prelude::*;

verus! {

/// Whether `word` stands in `text` from position `at` on.
pub open spec fn occurs_at(text: Seq<u8>, word: Seq<u8>, at: int) -> bool {
    0 <= at && at + word.len() <= text.len() && text.subrange(at, at + word.len()) == word
}

/// Whether `word` stands anywhere in `text`.
pub open spec fn occurs(text: Seq<u8>, word: Seq<u8>) -> bool {
    exists|at: int| occurs_at(text, word, at)
}

/// The word that names a kitty terminal.
pub open spec fn kitty_word() -> Seq<u8> {
    ascii("kitty"@)
}

/// A terminal counts as supported when its type has `kitty` in it, or when
/// kitty has given the session a window.
pub open spec fn supports_graphics(term: Option<Seq<u8>>, window_id_set: bool) -> bool {
    window_id_set || (term matches Some(name) && occurs(name, kitty_word()))
}

/// The size that is taken for a terminal that does not tell its own.
pub open spec fn default_size() -> (u32, u32) {
    (80, 24)
}

fn matches_at(text: &[u8], word: &[u8], at: usize) -> (b: bool)
    requires
        at + word@.len() <= text@.len(),
    ensures
        b == occurs_at(text@, word@, at as int),
{
    let end: usize = text.len();
    let mut i: usize = 0;
    while i < word.len()
        invariant
            i <= word@.len(),
            at + word@.len() <= text@.len(),
            end == text@.len(),
            forall|j: int| 0 <= j < i ==> text@[at + j] == word@[j],
        decreases word@.len() - i,
    {
        if text[at + i] != word[i] {
            assert(text@.subrange(at as int, at + word@.len())[i as int] == text@[at + i]);
            return false;
        }
        i = i + 1;
    }
    assert(text@.subrange(at as int, at + word@.len()) =~= word@);
    true
}

/// Whether `word` stands anywhere in `text`.
pub fn contains_bytes(text: &[u8], word: &[u8]) -> (b: bool)
    ensures
        b == occurs(text@, word@),
{
    if word.len() > text.len() {
        return false;
    }
    let last: usize = text.len() - word.len();
    let mut at: usize = 0;
    loop
        invariant
            last == text@.len() - word@.len(),
            at <= last,
            forall|k: int| 0 <= k < at ==> !occurs_at(text@, word@, k),
        decreases last - at,
    {
        if matches_at(text, word, at) {
            return true;
        }
        if at == last {
            return false;
        }
        at = at + 1;
    }
}

/// Whether the terminal understands the graphics protocol, going by the type
/// it names, if it names one, and by whether kitty has set a window
/// identifier.
pub fn is_kitty_terminal(term: Option<&[u8]>, window_id_set: bool) -> (supported: bool)
    ensures
        supported == supports_graphics(
            match term {
                Some(name) => Some(name@),
                None => None,
            },
            window_id_set,
        ),
{
    if window_id_set {
        return true;
    }
    match term {
        Some(name) => {
            let mut word: Vec<u8> = Vec::new();
            proof {
                reveal_strlit("kitty");
            }
            push_ascii(&mut word, "kitty");
            assert(word@ =~= kitty_word());
            contains_bytes(name, word.as_slice())
        },
        None => false,
    }
}

/// The size of the terminal as `(columns, rows)`: what the terminal answered,
/// or 80 by 24 if it gave no answer.
pub fn get_terminal_size(answer: Option<(u16, u16)>) -> (size: (u32, u32))
    ensures
        size == size_of(answer),
{
    match answer {
        Some((columns, rows)) => (columns as u32, rows as u32),
        None => (80, 24),
    }
}

/// The size of a terminal that gave `answer` when asked for it.
pub open spec fn size_of(answer: Option<(u16, u16)>) -> (u32, u32) {
    match answer {
        Some((columns, rows)) => (columns as u32, rows as u32),
        None => default_size(),
    }
}

/// What `name` shows as: itself, or `missing` if there is none.
pub open spec fn shown(name: Option<Seq<u8>>, missing: Seq<u8>) -> Seq<u8> {
    match name {
        Some(value) => value,
        None => missing,
    }
}

/// The report on a terminal: its type, its window identifier, whether it
/// counts as supported, its size, and what follows for the user.
pub open spec fn report(term: Option<Seq<u8>>, window_id: Option<Seq<u8>>, size: (u32, u32)) -> Seq<
    u8,
> {
    let supported = supports_graphics(term, window_id is Some);
    ascii("Checking terminal support...\n\nTERM: "@) + shown(term, ascii("unknown"@)) + ascii(
        "\nKITTY_WINDOW_ID: "@,
    ) + shown(window_id, ascii("not set"@)) + ascii("\nKitty detected: "@) + (if supported {
        ascii("true"@)
    } else {
        ascii("false"@)
    }) + ascii("\nTerminal size: "@) + decimal(size.0 as nat) + ascii("x"@) + decimal(
        size.1 as nat,
    ) + (if supported {
        ascii(
            "\n\n[OK] Terminal supports kitty graphics protocol\nRun 'termrocket launch' to see the rocket!\n"@,
        )
    } else {
        ascii(
            "\n\n[WARN] Kitty terminal not detected\ntermrocket requires kitty terminal for graphics\n"@,
        )
    })
}

fn push_shown(buf: &mut Vec<u8>, name: Option<&[u8]>, missing: &str)
    requires
        vstd::string::is_ascii(missing),
    ensures
        final(buf)@ == old(buf)@ + shown(
            match name {
                Some(value) => Some(value@),
                None => None,
            },
            ascii(missing@),
        ),
{
    match name {
        Some(value) => {
            buf.extend_from_slice(value);
        },
        None => {
            push_ascii(buf, missing);
        },
    }
}

/// The report that the `test` command prints: what the environment says of
/// the terminal, the size that the terminal gave or the default, and whether
/// the rocket can fly here.
pub fn test_terminal(term: Option<&[u8]>, window_id: Option<&[u8]>, answer: Option<(u16, u16)>) -> (text:
    Vec<u8>)
    ensures
        text@ == report(
            match term {
                Some(name) => Some(name@),
                None => None,
            },
            match window_id {
                Some(name) => Some(name@),
                None => None,
            },
            size_of(answer),
        ),
{
    let supported = is_kitty_terminal(term, window_id.is_some());
    let (columns, rows) = get_terminal_size(answer);
    let mut buf: Vec<u8> = Vec::new();
    proof {
        reveal_strlit("Checking terminal support...\n\nTERM: ");
        reveal_strlit("unknown");
        reveal_strlit("\nKITTY_WINDOW_ID: ");
        reveal_strlit("not set");
        reveal_strlit("\nKitty detected: ");
        reveal_strlit("true");
        reveal_strlit("false");
        reveal_strlit("\nTerminal size: ");
        reveal_strlit("x");
        reveal_strlit(
            "\n\n[OK] Terminal supports kitty graphics protocol\nRun 'termrocket launch' to see the rocket!\n",
        );
        reveal_strlit(
            "\n\n[WARN] Kitty terminal not detected\ntermrocket requires kitty terminal for graphics\n",
        );
    }
    push_ascii(&mut buf, "Checking terminal support...\n\nTERM: ");
    push_shown(&mut buf, term, "unknown");
    push_ascii(&mut buf, "\nKITTY_WINDOW_ID: ");
    push_shown(&mut buf, window_id, "not set");
    push_ascii(&mut buf, "\nKitty detected: ");
    if supported {
        push_ascii(&mut buf, "true");
    } else {
        push_ascii(&mut buf, "false");
    }
    push_ascii(&mut buf, "\nTerminal size: ");
    push_decimal(&mut buf, columns as u64);
    push_ascii(&mut buf, "x");
    push_decimal(&mut buf, rows as u64);
    if supported {
        push_ascii(
            &mut buf,
            "\n\n[OK] Terminal supports kitty graphics protocol\nRun 'termrocket launch' to see the rocket!\n",
        );
    } else {
        push_ascii(
            &mut buf,
            "\n\n[WARN] Kitty terminal not detected\ntermrocket requires kitty terminal for graphics\n",
        );
    }
    assert(buf@ =~= report(
        match term {
            Some(name) => Some(name@),
            None => None,
        },
        match window_id {
            Some(name) => Some(name@),
            None => None,
        },
        size_of(answer),
    ));
    buf
}

/// The two lines that tell the user why the rocket does not fly.
pub open spec fn refusal() -> Seq<u8> {
    ascii(
        "termrocket: kitty terminal not detected\nSet TERM=xterm-kitty or run inside kitty terminal\n"@,
    )
}

/// What `launch` prints, in place of the flight, in a terminal that is not
/// supported.
pub fn refusal_notice() -> (text: Vec<u8>)
    ensures
        text@ == refusal(),
{
    let mut buf: Vec<u8> = Vec::new();
    proof {
        reveal_strlit(
            "termrocket: kitty terminal not detected\nSet TERM=xterm-kitty or run inside kitty terminal\n",
        );
    }
    push_ascii(
        &mut buf,
        "termrocket: kitty terminal not detected\nSet TERM=xterm-kitty or run inside kitty terminal\n",
    );
    assert(buf@ =~= refusal());
    buf
}

} // verus!
