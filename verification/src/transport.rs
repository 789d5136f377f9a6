//! From the bytes of an image to text that a terminal accepts, cut into
//! pieces of bounded size.
//!
//! The text is the standard base64 encoding with padding.  The `base64` crate
//! computes it; `base64_text` says what it is, and `base64_bytes` reads it
//! back.

use vstd::prelude::*;
use vstd::slice::slice_subrange;
use vstd::slice::slice_to_vec;

verus! {

/// The character that fills the last group of an encoding, `=`.
pub open spec fn base64_pad() -> u8 {
    61
}

/// The character for a six-bit value: `A` to `Z`, `a` to `z`, `0` to `9`,
/// then `+` and `/`.
pub open spec fn base64_symbol(v: int) -> u8 {
    if v < 26 {
        (65 + v) as u8
    } else if v < 52 {
        (97 + (v - 26)) as u8
    } else if v < 62 {
        (48 + (v - 52)) as u8
    } else if v == 62 {
        43
    } else {
        47
    }
}

/// The six-bit value of a character of the alphabet, and `-1` for any other.
pub open spec fn base64_value(c: u8) -> int {
    if 65 <= c <= 90 {
        c - 65
    } else if 97 <= c <= 122 {
        c - 97 + 26
    } else if 48 <= c <= 57 {
        c - 48 + 52
    } else if c == 43 {
        62
    } else if c == 47 {
        63
    } else {
        -1
    }
}

/// The standard base64 encoding of `data`, with padding: every three bytes
/// become four characters of six bits each, and a last group of one or two
/// bytes is filled up with `=`.
pub open spec fn base64_text(data: Seq<u8>) -> Seq<u8>
    decreases data.len(),
{
    if data.len() == 0 {
        Seq::empty()
    } else if data.len() == 1 {
        let d0 = data[0] as int;
        seq![base64_symbol(d0 / 4), base64_symbol((d0 % 4) * 16), base64_pad(), base64_pad()]
    } else if data.len() == 2 {
        let d0 = data[0] as int;
        let d1 = data[1] as int;
        seq![
            base64_symbol(d0 / 4),
            base64_symbol((d0 % 4) * 16 + d1 / 16),
            base64_symbol((d1 % 16) * 4),
            base64_pad(),
        ]
    } else {
        let d0 = data[0] as int;
        let d1 = data[1] as int;
        let d2 = data[2] as int;
        seq![
            base64_symbol(d0 / 4),
            base64_symbol((d0 % 4) * 16 + d1 / 16),
            base64_symbol((d1 % 16) * 4 + d2 / 64),
            base64_symbol(d2 % 64),
        ] + base64_text(data.skip(3))
    }
}

/// The bytes that a padded base64 text stands for, and `None` for a text that
/// is no encoding of anything.
pub open spec fn base64_bytes(text: Seq<u8>) -> Option<Seq<u8>>
    decreases text.len(),
{
    if text.len() == 0 {
        Some(Seq::empty())
    } else if text.len() < 4 {
        None
    } else {
        let a = base64_value(text[0]);
        let b = base64_value(text[1]);
        let c = base64_value(text[2]);
        let d = base64_value(text[3]);
        if a < 0 || b < 0 {
            None
        } else if text.len() == 4 && text[3] == base64_pad() {
            if text[2] == base64_pad() {
                if b % 16 == 0 {
                    Some(seq![(a * 4 + b / 16) as u8])
                } else {
                    None
                }
            } else if c < 0 || c % 4 != 0 {
                None
            } else {
                Some(seq![(a * 4 + b / 16) as u8, ((b % 16) * 16 + c / 4) as u8])
            }
        } else if c < 0 || d < 0 {
            None
        } else {
            match base64_bytes(text.skip(4)) {
                Some(rest) => Some(
                    seq![
                        (a * 4 + b / 16) as u8,
                        ((b % 16) * 16 + c / 4) as u8,
                        ((c % 4) * 64 + d) as u8,
                    ] + rest,
                ),
                None => None,
            }
        }
    }
}

/// Every six-bit value has a character of its own, which is not the padding.
pub proof fn lemma_symbol_value(v: int)
    requires
        0 <= v < 64,
    ensures
        base64_value(base64_symbol(v)) == v,
        base64_symbol(v) != base64_pad(),
        base64_symbol(v) < 128,
{
}

/// Reading an encoding back gives the bytes that were encoded.
pub proof fn lemma_base64_round_trip(data: Seq<u8>)
    ensures
        base64_bytes(base64_text(data)) == Some(data),
    decreases data.len(),
{
    let text = base64_text(data);
    if data.len() == 0 {
        assert(data =~= Seq::empty());
    } else if data.len() == 1 {
        let d0 = data[0] as int;
        lemma_symbol_value(d0 / 4);
        lemma_symbol_value((d0 % 4) * 16);
        assert(data =~= seq![((d0 / 4) * 4 + ((d0 % 4) * 16) / 16) as u8]);
    } else if data.len() == 2 {
        let d0 = data[0] as int;
        let d1 = data[1] as int;
        lemma_symbol_value(d0 / 4);
        lemma_symbol_value((d0 % 4) * 16 + d1 / 16);
        lemma_symbol_value((d1 % 16) * 4);
        let b = (d0 % 4) * 16 + d1 / 16;
        let c = (d1 % 16) * 4;
        assert(data =~= seq![((d0 / 4) * 4 + b / 16) as u8, ((b % 16) * 16 + c / 4) as u8]);
    } else {
        let d0 = data[0] as int;
        let d1 = data[1] as int;
        let d2 = data[2] as int;
        let a = d0 / 4;
        let b = (d0 % 4) * 16 + d1 / 16;
        let c = (d1 % 16) * 4 + d2 / 64;
        let d = d2 % 64;
        lemma_symbol_value(a);
        lemma_symbol_value(b);
        lemma_symbol_value(c);
        lemma_symbol_value(d);
        let rest = data.skip(3);
        lemma_base64_round_trip(rest);
        let head = seq![
            base64_symbol(a),
            base64_symbol(b),
            base64_symbol(c),
            base64_symbol(d),
        ];
        assert(text == head + base64_text(rest));
        assert(text.skip(4) =~= base64_text(rest));
        assert(text.len() >= 4);
        assert(text[0] == base64_symbol(a));
        assert(text[1] == base64_symbol(b));
        assert(text[2] == base64_symbol(c));
        assert(text[3] == base64_symbol(d));
        assert(data =~= seq![
            (a * 4 + b / 16) as u8,
            ((b % 16) * 16 + c / 4) as u8,
            ((c % 4) * 64 + d) as u8,
        ] + rest);
    }
}

/// An encoding has four characters for every three bytes begun, and each of
/// them is a single byte of ASCII.
pub proof fn lemma_base64_shape(data: Seq<u8>)
    ensures
        base64_text(data).len() == 4 * ((data.len() + 2) / 3),
        forall|i: int| 0 <= i < base64_text(data).len() ==> #[trigger] base64_text(data)[i] < 128,
    decreases data.len(),
{
    if data.len() == 0 {
    } else if data.len() == 1 {
        lemma_symbol_value(data[0] as int / 4);
        lemma_symbol_value((data[0] as int % 4) * 16);
    } else if data.len() == 2 {
        lemma_symbol_value(data[0] as int / 4);
        lemma_symbol_value((data[0] as int % 4) * 16 + data[1] as int / 16);
        lemma_symbol_value((data[1] as int % 16) * 4);
    } else {
        lemma_symbol_value(data[0] as int / 4);
        lemma_symbol_value((data[0] as int % 4) * 16 + data[1] as int / 16);
        lemma_symbol_value((data[1] as int % 16) * 4 + data[2] as int / 64);
        lemma_symbol_value(data[2] as int % 64);
        lemma_base64_shape(data.skip(3));
    }
}

/// `Engine::encode` of the `base64` crate, on its `STANDARD` engine: the
/// standard alphabet, with padding.  The call panics when the text is longer
/// than a vector can be, so that is ruled out.
#[verifier::external_body]
fn standard_encode(data: &[u8]) -> (text: Vec<u8>)
    requires
        4 * ((data@.len() + 2) / 3) <= isize::MAX,
    ensures
        text@ == base64_text(data@),
{
    base64::Engine::encode(&base64::engine::general_purpose::STANDARD, data).into_bytes()
}

/// One piece of a text, and where in the text it stands.
#[derive(Clone, Debug, PartialEq, Eq)]
pub struct Chunk {
    /// The characters of the piece.
    pub text: Vec<u8>,
    /// Whether this is the first piece.
    pub first: bool,
    /// Whether this is the last piece.
    pub last: bool,
}

/// How many pieces of at most `size` characters a text of `len` characters
/// falls into.  An empty text is one empty piece.
pub open spec fn chunk_count(len: nat, size: nat) -> nat {
    if len == 0 {
        1
    } else {
        ((len + size - 1) / (size as int)) as nat
    }
}

/// The pieces of `text` in order: each `size` characters long but the last,
/// which holds what is left.
pub open spec fn pieces(text: Seq<u8>, size: nat) -> Seq<Seq<u8>> {
    Seq::new(
        chunk_count(text.len(), size),
        |i: int|
            text.subrange(
                i * size,
                if (i + 1) * size <= text.len() {
                    (i + 1) * size
                } else {
                    text.len() as int
                },
            ),
    )
}

/// The texts of `chunks`, one after the other.
pub open spec fn joined(chunks: Seq<Chunk>) -> Seq<u8>
    decreases chunks.len(),
{
    if chunks.len() == 0 {
        Seq::empty()
    } else {
        joined(chunks.drop_last()) + chunks.last().text@
    }
}

/// `chunks` are the pieces of `text`, marked by their place.
pub open spec fn is_chunking(chunks: Seq<Chunk>, text: Seq<u8>, size: nat) -> bool {
    &&& chunks.len() == chunk_count(text.len(), size)
    &&& forall|i: int|
        0 <= i < chunks.len() ==> {
            &&& (#[trigger] chunks[i]).text@ == pieces(text, size)[i]
            &&& chunks[i].first == (i == 0)
            &&& chunks[i].last == (i == chunks.len() - 1)
        }
}

/// The number of pieces is the length divided by the size, rounded up.
proof fn lemma_chunk_count(len: nat, size: nat, k: nat)
    requires
        0 < size,
        0 < k,
        (k - 1) * size < len <= k * size,
    ensures
        chunk_count(len, size) == k,
{
    let total = len + size - 1;
    assert(total / (size as int) == k) by (nonlinear_arith)
        requires
            0 < size,
            (k - 1) * size < len <= k * size,
            total == len + size - 1,
    ;
}

/// Every text has at least one piece.
proof fn lemma_chunk_count_positive(len: nat, size: nat)
    requires
        0 < size,
    ensures
        chunk_count(len, size) >= 1,
{
    if len > 0 {
        let total = len + size - 1;
        assert(total / (size as int) >= 1) by (nonlinear_arith)
            requires
                0 < size,
                0 < len,
                total == len + size - 1,
        ;
    }
}

/// Where piece `i` of a text begins and ends.
proof fn lemma_piece_bounds(len: nat, size: nat, i: int)
    requires
        0 < size,
        0 <= i < chunk_count(len, size),
    ensures
        0 <= i * size <= len,
        len > 0 ==> i * size < len,
        (i + 1) * size == i * size + size,
        i < chunk_count(len, size) - 1 ==> (i + 1) * size < len,
        i == chunk_count(len, size) - 1 ==> (i + 1) * size >= len,
{
    let n = chunk_count(len, size) as int;
    let s = size as int;
    assert((i + 1) * s == i * s + s) by (nonlinear_arith);
    if len == 0 {
        assert(i * s == 0) by (nonlinear_arith)
            requires
                i == 0,
        ;
    } else {
        let total = len + s - 1;
        assert((n - 1) * s < len <= n * s) by (nonlinear_arith)
            requires
                0 < s,
                0 < len,
                n == total / s,
                total == len + s - 1,
        ;
        assert(0 <= i * s <= (n - 1) * s) by (nonlinear_arith)
            requires
                0 <= i <= n - 1,
                0 < s,
        ;
        if i < n - 1 {
            assert((i + 1) * s <= (n - 1) * s) by (nonlinear_arith)
                requires
                    i + 1 <= n - 1,
                    0 < s,
            ;
        }
    }
}

/// What a chunking promises about lengths: every piece but the last is
/// `size` long, the last holds the rest and is empty only if the text is, and
/// together the pieces are the text.
pub proof fn lemma_chunking(chunks: Seq<Chunk>, text: Seq<u8>, size: nat)
    requires
        0 < size,
        is_chunking(chunks, text, size),
    ensures
        chunks.len() >= 1,
        forall|i: int| 0 <= i < chunks.len() - 1 ==> (#[trigger] chunks[i]).text@.len() == size,
        chunks.last().text@.len() == text.len() - size * (chunks.len() - 1),
        text.len() > 0 ==> chunks.last().text@.len() > 0,
        chunks.last().last,
        joined(chunks) == text,
{
    let n = chunks.len() as int;
    let len = text.len();
    lemma_chunk_count_positive(len, size);
    assert forall|i: int| 0 <= i < n - 1 implies (#[trigger] chunks[i]).text@.len() == size by {
        lemma_piece_bounds(len, size, i);
    }
    lemma_piece_bounds(len, size, n - 1);
    assert(chunks.last() == chunks[n - 1]);
    assert(size * (n - 1) == (n - 1) * size) by (nonlinear_arith);
    lemma_joined_prefix(chunks, text, size, n);
    assert(chunks.take(n) =~= chunks);
    assert(text.take(len as int) =~= text);
}

proof fn lemma_joined_prefix(chunks: Seq<Chunk>, text: Seq<u8>, size: nat, k: int)
    requires
        0 < size,
        is_chunking(chunks, text, size),
        0 <= k <= chunks.len(),
    ensures
        joined(chunks.take(k)) == text.take(
            if k == chunks.len() {
                text.len() as int
            } else {
                k * size
            },
        ),
    decreases k,
{
    let n = chunks.len() as int;
    let len = text.len();
    lemma_chunk_count_positive(len, size);
    if k == 0 {
        assert(chunks.take(0) =~= Seq::<Chunk>::empty());
        assert(0 * size == 0) by (nonlinear_arith);
        assert(text.take(0) =~= Seq::<u8>::empty());
    } else {
        let i = k - 1;
        lemma_joined_prefix(chunks, text, size, i);
        lemma_piece_bounds(len, size, i);
        let prefix = chunks.take(k);
        assert(prefix.drop_last() =~= chunks.take(i));
        assert(prefix.last() == chunks[i]);
        assert(joined(prefix) == joined(prefix.drop_last()) + prefix.last().text@);
        let stop = if k == n {
            len as int
        } else {
            k * size
        };
        assert(chunks[i].text@ == pieces(text, size)[i]);
        assert(pieces(text, size)[i] == text.subrange(i * size, stop));
        assert(text.take(i * size) + text.subrange(i * size, stop) =~= text.take(stop));
    }
}

/// Cuts `text` into pieces of at most `size` characters, in order, and marks
/// the first and the last.  An empty text gives one empty piece, which is
/// both.
pub fn split_text(text: &[u8], size: usize) -> (chunks: Vec<Chunk>)
    requires
        0 < size,
    ensures
        is_chunking(chunks@, text@, size as nat),
        chunks@.len() == chunk_count(text@.len(), size as nat),
        forall|i: int| 0 <= i < chunks@.len() - 1 ==> (#[trigger] chunks@[i]).text@.len() == size,
        chunks@.last().text@.len() == text@.len() - size * (chunks@.len() - 1),
        text@.len() > 0 ==> chunks@.last().text@.len() > 0,
        chunks@.last().last,
        joined(chunks@) == text@,
{
    let len = text.len();
    let mut chunks: Vec<Chunk> = Vec::new();
    if len == 0 {
        chunks.push(Chunk { text: Vec::new(), first: true, last: true });
        proof {
            assert(0 * size == 0) by (nonlinear_arith);
            assert(chunks@[0].text@ =~= pieces(text@, size as nat)[0]);
            lemma_chunking(chunks@, text@, size as nat);
        }
        return chunks;
    }
    let mut start: usize = 0;
    while start < len
        invariant
            0 < size,
            len == text@.len(),
            0 < len,
            start <= len,
            start < len ==> start == chunks@.len() * size,
            start == len ==> chunks@.len() == chunk_count(len as nat, size as nat),
            chunks@.len() <= chunk_count(len as nat, size as nat),
            forall|i: int|
                0 <= i < chunks@.len() ==> {
                    &&& (#[trigger] chunks@[i]).text@ == pieces(text@, size as nat)[i]
                    &&& chunks@[i].first == (i == 0)
                    &&& chunks@[i].last == (i == chunk_count(len as nat, size as nat) - 1)
                },
        decreases len - start,
    {
        let ghost k = chunks@.len();
        let stop: usize = if len - start > size {
            start + size
        } else {
            len
        };
        proof {
            assert((k + 1) * size == k * size + size) by (nonlinear_arith);
            if stop == len {
                lemma_chunk_count(len as nat, size as nat, k + 1);
            } else {
                let total = len + size - 1;
                assert(total / (size as int) > k + 1) by (nonlinear_arith)
                    requires
                        0 < size,
                        (k + 1) * size < len,
                        total == len + size - 1,
                ;
            }
        }
        let piece = slice_to_vec(slice_subrange(text, start, stop));
        chunks.push(Chunk { text: piece, first: start == 0, last: stop == len });
        proof {
            assert(start == 0 <==> k == 0) by (nonlinear_arith)
                requires
                    start == k * size,
                    0 < size,
                    0 <= k,
            ;
        }
        start = stop;
    }
    proof {
        lemma_chunking(chunks@, text@, size as nat);
    }
    chunks
}

/// The base64 text of `data` in pieces of at most `max_chunk_size`
/// characters.  The text, a third longer than the data, must not be longer
/// than a vector can be.
pub fn to_chunks(data: &[u8], max_chunk_size: usize) -> (chunks: Vec<Chunk>)
    requires
        0 < max_chunk_size,
        4 * ((data@.len() + 2) / 3) <= isize::MAX,
    ensures
        is_chunking(chunks@, base64_text(data@), max_chunk_size as nat),
        joined(chunks@) == base64_text(data@),
        base64_bytes(joined(chunks@)) == Some(data@),
{
    let text = standard_encode(data);
    proof {
        lemma_base64_round_trip(data@);
    }
    split_text(text.as_slice(), max_chunk_size)
}

} // verus!
