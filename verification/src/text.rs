//! Text as bytes: comparing strings, and how the UTF-8 form of a text
//! relates to its characters where line breaks are concerned.

use vstd::prelude::*;
use vstd::slice::slice_subrange;
use vstd::string::StringSliceAdditionalSpecFns;
use vstd::utf8::*;

verus! {

/// The byte that ends a line.
pub const NEWLINE: u8 = 10;

/// Tells whether two strings hold the same characters.
pub fn str_eq(a: &str, b: &str) -> (same: bool)
    ensures
        same == (a@ == b@),
{
    let x = a.as_bytes();
    let y = b.as_bytes();
    proof {
        encode_utf8_decode_utf8(a@);
        encode_utf8_decode_utf8(b@);
    }
    if x.len() != y.len() {
        return false;
    }
    let mut i: usize = 0;
    while i < x.len()
        invariant
            i <= x.len(),
            x.len() == y.len(),
            a@ == b@ ==> x@ == y@,
            forall|j: int| 0 <= j < i ==> x@[j] == y@[j],
        decreases x.len() - i,
    {
        if x[i] != y[i] {
            return false;
        }
        i += 1;
    }
    assert(x@ =~= y@);
    true
}

/// The UTF-8 form of a text made of two parts is the two forms, one after
/// the other.
pub proof fn lemma_encode_concat(a: Seq<char>, b: Seq<char>)
    ensures
        encode_utf8(a + b) == encode_utf8(a) + encode_utf8(b),
    decreases a.len(),
{
    if a.len() == 0 {
        assert(a + b =~= b);
        assert(encode_utf8(a) + encode_utf8(b) =~= encode_utf8(b));
    } else {
        lemma_encode_concat(a.drop_first(), b);
        assert((a + b).drop_first() =~= a.drop_first() + b);
        assert(encode_utf8(a + b) =~= encode_utf8(a) + encode_utf8(b));
    }
}

/// A character below 128 is encoded as the one byte of the same value, and
/// every byte that encodes any other character is 128 or more.
pub proof fn lemma_encode_scalar_ascii(c: char)
    ensures
        (c as u32) < 128 ==> encode_scalar(c as u32) == seq![c as u8] && (c as u8) as u32
            == c as u32,
        (c as u32) >= 128 ==> forall|j: int|
            0 <= j < encode_scalar(c as u32).len() ==> #[trigger] encode_scalar(c as u32)[j]
                >= 128,
{
    let v = c as u32;
    char_is_scalar(c);
    if has_width_1_encoding(v) {
        assert(leading_byte_width_1(v) == v as u8 && (v as u8) as u32 == v) by (bit_vector)
            requires
                has_width_1_encoding(v),
        ;
    } else {
        assert(leading_byte_width_2(v) >= 128 && leading_byte_width_3(v) >= 128
            && leading_byte_width_4(v) >= 128 && last_continuation_byte(v) >= 128
            && second_last_continuation_byte(v) >= 128 && third_last_continuation_byte(v) >= 128)
            by (bit_vector);
    }
}

/// The line-ending byte occurs in the UTF-8 form of a text only where the
/// text holds the line-ending character.
pub proof fn lemma_encode_without_newline(text: Seq<char>)
    requires
        !text.contains('\n'),
    ensures
        !encode_utf8(text).contains(NEWLINE),
    decreases text.len(),
{
    if text.len() > 0 {
        let rest = text.drop_first();
        assert forall|i: int| 0 <= i < rest.len() implies rest[i] != '\n' by {
            assert(text.contains(text[i + 1]));
        }
        lemma_encode_without_newline(rest);
        lemma_encode_scalar_ascii(text[0]);
        assert(text.contains(text[0]));
        let head = encode_scalar(text[0] as u32);
        let tail = encode_utf8(rest);
        assert forall|j: int| 0 <= j < (head + tail).len() implies (head + tail)[j] != NEWLINE by {
            if j < head.len() {
                assert((head + tail)[j] == head[j]);
                if (text[0] as u32) < 128 {
                    assert(head[j] == text[0] as u8);
                    if text[0] as u32 == 10 {
                        char_u32_cast(text[0], 10u32);
                        assert(text[0] == '\n');
                    }
                    assert(text[0] as u8 != 10);
                } else {
                    assert(head[j] >= 128);
                }
            } else {
                assert((head + tail)[j] == tail[j - head.len()]);
                assert(tail.contains(tail[j - head.len()]));
            }
        }
    }
}

/// The UTF-8 form of a lone line-ending character is the line-ending byte.
pub proof fn lemma_encode_newline()
    ensures
        encode_utf8(seq!['\n']) == seq![NEWLINE],
{
    lemma_encode_scalar_ascii('\n');
    assert(seq!['\n'].drop_first() =~= Seq::<char>::empty());
    assert(encode_utf8(seq!['\n']) =~= encode_scalar('\n' as u32) + encode_utf8(Seq::empty()));
    assert(encode_utf8(seq!['\n']) =~= seq![NEWLINE]);
}

/// The lines of a file, without the bytes that end them. There is always a
/// last line, which no line-ending byte follows and which may be empty: each
/// line-ending byte closes the line before it and opens a new one, and any
/// other byte joins the line that is open.
pub open spec fn split(bytes: Seq<u8>) -> Seq<Seq<u8>>
    decreases bytes.len(),
{
    if bytes.len() == 0 {
        seq![Seq::empty()]
    } else {
        let before = split(bytes.drop_last());
        if bytes.last() == NEWLINE {
            before.push(Seq::empty())
        } else {
            before.drop_last().push(before.last().push(bytes.last()))
        }
    }
}

/// What a vector of byte slices holds.
pub open spec fn slices(lines: Seq<&[u8]>) -> Seq<Seq<u8>> {
    lines.map_values(|line: &[u8]| line@)
}

/// A file has at least one line, and its lines hold no line-ending byte.
pub proof fn lemma_split_lines(bytes: Seq<u8>)
    ensures
        split(bytes).len() >= 1,
        forall|k: int| 0 <= k < split(bytes).len() ==> !(#[trigger] split(bytes)[k]).contains(NEWLINE),
    decreases bytes.len(),
{
    if bytes.len() > 0 {
        lemma_split_lines(bytes.drop_last());
        let before = split(bytes.drop_last());
        if bytes.last() != NEWLINE {
            let grown = before.last().push(bytes.last());
            assert forall|j: int| 0 <= j < grown.len() implies grown[j] != NEWLINE by {
                if j < before.last().len() {
                    assert(before.last().contains(before.last()[j]));
                }
            }
        }
    }
}

/// Bytes that hold no line-ending byte are one line.
pub proof fn lemma_split_one_line(bytes: Seq<u8>)
    requires
        !bytes.contains(NEWLINE),
    ensures
        split(bytes) == seq![bytes],
    decreases bytes.len(),
{
    if bytes.len() == 0 {
        assert(bytes =~= Seq::empty());
    } else {
        let front = bytes.drop_last();
        assert forall|j: int| 0 <= j < front.len() implies front[j] != NEWLINE by {
            assert(bytes.contains(bytes[j]));
        }
        lemma_split_one_line(front);
        assert(bytes.contains(bytes.last()));
        assert(front.push(bytes.last()) =~= bytes);
        assert(split(bytes) =~= seq![bytes]);
    }
}

/// The lines of two files joined by a line-ending byte are the lines of the
/// first and then the lines of the second.
pub proof fn lemma_split_joined(a: Seq<u8>, b: Seq<u8>)
    ensures
        split(a + seq![NEWLINE] + b) == split(a) + split(b),
    decreases b.len(),
{
    let whole = a + seq![NEWLINE] + b;
    lemma_split_lines(a);
    if b.len() == 0 {
        assert(whole.drop_last() =~= a);
        assert(split(whole) =~= split(a) + split(b));
    } else {
        lemma_split_joined(a, b.drop_last());
        lemma_split_lines(b.drop_last());
        assert(whole.drop_last() =~= a + seq![NEWLINE] + b.drop_last());
        assert(whole.last() == b.last());
        assert(split(whole) =~= split(a) + split(b));
    }
}

/// Cuts a file into its lines.
pub fn split_lines<'a>(bytes: &'a [u8]) -> (lines: Vec<&'a [u8]>)
    ensures
        slices(lines@) == split(bytes@),
{
    let mut lines: Vec<&'a [u8]> = Vec::new();
    let mut start: usize = 0;
    let mut i: usize = 0;
    assert(bytes@.take(0) =~= Seq::empty());
    assert(slices(lines@).push(bytes@.subrange(0, 0)) =~= split(bytes@.take(0)));
    while i < bytes.len()
        invariant
            start <= i <= bytes.len(),
            slices(lines@).push(bytes@.subrange(start as int, i as int)) == split(
                bytes@.take(i as int),
            ),
        decreases bytes.len() - i,
    {
        let ghost before = split(bytes@.take(i as int));
        assert(bytes@.take(i + 1).drop_last() =~= bytes@.take(i as int));
        if bytes[i] == NEWLINE {
            let line = slice_subrange(bytes, start, i);
            proof {
                assert(slices(lines@.push(line)) =~= slices(lines@).push(line@));
            }
            lines.push(line);
            start = i + 1;
            assert(bytes@.subrange(start as int, i + 1) =~= Seq::empty());
        } else {
            assert(bytes@.subrange(start as int, i + 1) =~= bytes@.subrange(
                start as int,
                i as int,
            ).push(bytes@[i as int]));
            assert(before.drop_last() =~= slices(lines@));
        }
        i += 1;
    }
    let line = slice_subrange(bytes, start, i);
    proof {
        assert(bytes@.take(i as int) =~= bytes@);
        assert(slices(lines@.push(line)) =~= slices(lines@).push(line@));
    }
    lines.push(line);
    lines
}

/// The text that bytes spell, where they are well-formed UTF-8.
pub open spec fn text_of(bytes: Seq<u8>) -> Option<Seq<char>> {
    if valid_utf8(bytes) {
        Some(decode_utf8(bytes))
    } else {
        None
    }
}

/// Calls `std::str::from_utf8`. The contract repeats what that function is
/// documented to do: it succeeds exactly on well-formed UTF-8, and the
/// string it hands back is spelled by the very bytes it was given.
#[verifier::external_body]
fn from_utf8<'a>(bytes: &'a [u8]) -> (text: Option<&'a str>)
    ensures
        text is Some <==> valid_utf8(bytes@),
        text matches Some(s) ==> s.spec_bytes() == bytes@,
{
    std::str::from_utf8(bytes).ok()
}

/// Reads bytes as text, or as nothing where they are not well-formed UTF-8.
pub fn decode<'a>(bytes: &'a [u8]) -> (text: Option<&'a str>)
    ensures
        match text {
            Some(s) => text_of(bytes@) == Some(s@),
            None => text_of(bytes@) is None,
        },
{
    let text = from_utf8(bytes);
    proof {
        if let Some(s) = text {
            encode_utf8_decode_utf8(s@);
        }
    }
    text
}

} // verus!
