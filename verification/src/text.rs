//! The game's text encoding: one byte per character, through a fixed
//! table, and strings that end at a terminator byte.
//!
//! The table was checked against the card text of the US release. It is
//! not one to one, so text is only ever decoded, never encoded.

use vstd::prelude::*;

verus! {

/// The byte that ends a string.
pub const STRING_TERMINATOR: u8 = 255;

/// The character that a byte of game text stands for. Bytes without a
/// known character stand for an underscore.
pub open spec fn glyph(byte: u8) -> char {
    match byte {
        0x18 => 'A',
        0x2D => 'B',
        0x2B => 'C',
        0x20 => 'D',
        0x25 => 'E',
        0x31 => 'F',
        0x29 => 'G',
        0x23 => 'H',
        0x1A => 'I',
        0x3B => 'J',
        0x33 => 'K',
        0x2A => 'L',
        0x1E => 'M',
        0x2C => 'N',
        0x21 => 'O',
        0x2F => 'P',
        0x3E => 'Q',
        0x26 => 'R',
        0x1D => 'S',
        0x1C => 'T',
        0x35 => 'U',
        0x39 => 'V',
        0x22 => 'W',
        0x46 => 'X',
        0x24 => 'Y',
        0x3F => 'Z',
        0x03 => 'a',
        0x15 => 'b',
        0x0F => 'c',
        0x0C => 'd',
        0x01 => 'e',
        0x13 => 'f',
        0x10 => 'g',
        0x09 => 'h',
        0x05 => 'i',
        0x34 => 'j',
        0x16 => 'k',
        0x0A => 'l',
        0x0E => 'm',
        0x06 => 'n',
        0x04 => 'o',
        0x14 => 'p',
        0x37 => 'q',
        0x08 => 'r',
        0x07 => 's',
        0x02 => 't',
        0x0D => 'u',
        0x19 => 'v',
        0x12 => 'w',
        0x36 => 'x',
        0x11 => 'y',
        0x32 => 'z',
        0x38 => '0',
        0x3D => '1',
        0x3A => '2',
        0x41 => '3',
        0x4A => '4',
        0x42 => '5',
        0x4E => '6',
        0x45 => '7',
        0x57 => '8',
        0x59 => '9',
        0x00 => ' ',
        0x30 => '-',
        0x3C => '#',
        0x43 => '&',
        0x0B => '.',
        0x1F => ',',
        0x55 => 'a',
        0x17 => '!',
        0x1B => '\'',
        0x27 => '<',
        0x28 => '>',
        0x2E => '?',
        0x44 => '/',
        0x48 => ':',
        0x4B => ')',
        0x4C => '(',
        0x4F => '$',
        0x50 => '*',
        0x51 => '>',
        0x54 => '<',
        0x40 => '"',
        0x56 => '+',
        0x5B => '%',
        _ => '_',
    }
}

/// The table is not one to one: three characters have two bytes each.
/// So no text can be turned back into the bytes that it came from.
pub proof fn lemma_glyph_not_one_to_one()
    ensures
        glyph(0x03) == 'a' && glyph(0x55) == 'a',
        glyph(0x27) == '<' && glyph(0x54) == '<',
        glyph(0x28) == '>' && glyph(0x51) == '>',
{
}

/// The text that a run of bytes stands for, byte by byte.
pub open spec fn decode_text(bytes: Seq<u8>) -> Seq<char> {
    Seq::new(bytes.len(), |i: int| glyph(bytes[i]))
}

/// No byte of `bytes` is the terminator.
pub open spec fn terminator_free(bytes: Seq<u8>) -> bool {
    forall|i: int| 0 <= i < bytes.len() ==> bytes[i] != STRING_TERMINATOR
}

/// The first terminator of `bytes` stands at index `n`.
pub open spec fn first_terminator_at(bytes: Seq<u8>, n: int) -> bool {
    &&& 0 <= n < bytes.len()
    &&& bytes[n] == STRING_TERMINATOR
    &&& terminator_free(bytes.take(n))
}

/// The string that starts at the front of `bytes`: the text before the
/// first terminator, or `None` where `bytes` holds no terminator.
pub open spec fn decode_terminated(bytes: Seq<u8>) -> Option<Seq<char>> {
    if exists|n: int| first_terminator_at(bytes, n) {
        let n = choose|n: int| first_terminator_at(bytes, n);
        Some(decode_text(bytes.take(n)))
    } else {
        None
    }
}

/// A first terminator is the only one: two indices that both qualify
/// are equal.
pub proof fn lemma_first_terminator_unique(bytes: Seq<u8>, a: int, b: int)
    requires
        first_terminator_at(bytes, a),
        first_terminator_at(bytes, b),
    ensures
        a == b,
{
    if a < b {
        assert(bytes.take(b)[a] == bytes[a]);
    }
    if b < a {
        assert(bytes.take(a)[b] == bytes[b]);
    }
}

/// A buffer without a terminator holds no string, and the other way
/// round: decoding never hands back a truncated text.
pub proof fn lemma_decode_terminated_none(bytes: Seq<u8>)
    ensures
        decode_terminated(bytes) is None <==> terminator_free(bytes),
{
    if terminator_free(bytes) {
        assert forall|n: int| !first_terminator_at(bytes, n) by {}
    } else {
        let k = choose|k: int| 0 <= k < bytes.len() && bytes[k] == STRING_TERMINATOR;
        lemma_has_first_terminator(bytes, k);
    }
}

/// Where some byte up to index `k` is a terminator, a first one exists.
proof fn lemma_has_first_terminator(bytes: Seq<u8>, k: int)
    requires
        0 <= k < bytes.len(),
        bytes[k] == STRING_TERMINATOR,
    ensures
        exists|n: int| first_terminator_at(bytes, n),
    decreases k,
{
    if terminator_free(bytes.take(k)) {
        assert(first_terminator_at(bytes, k));
    } else {
        let j = choose|j: int|
            0 <= j < bytes.take(k).len() && bytes.take(k)[j] == STRING_TERMINATOR;
        assert(bytes[j] == STRING_TERMINATOR);
        lemma_has_first_terminator(bytes, j);
    }
}

/// `String::push` of std: the character is added at the end.
pub assume_specification[ String::push ](s: &mut String, c: char)
    ensures
        final(s)@ == old(s)@.push(c),
;

/// Convert a single byte of game text to its character.
pub fn u8_to_char(byte: u8) -> (c: char)
    ensures
        c == glyph(byte),
{
    match byte {
        0x18 => 'A',
        0x2D => 'B',
        0x2B => 'C',
        0x20 => 'D',
        0x25 => 'E',
        0x31 => 'F',
        0x29 => 'G',
        0x23 => 'H',
        0x1A => 'I',
        0x3B => 'J',
        0x33 => 'K',
        0x2A => 'L',
        0x1E => 'M',
        0x2C => 'N',
        0x21 => 'O',
        0x2F => 'P',
        0x3E => 'Q',
        0x26 => 'R',
        0x1D => 'S',
        0x1C => 'T',
        0x35 => 'U',
        0x39 => 'V',
        0x22 => 'W',
        0x46 => 'X',
        0x24 => 'Y',
        0x3F => 'Z',
        0x03 => 'a',
        0x15 => 'b',
        0x0F => 'c',
        0x0C => 'd',
        0x01 => 'e',
        0x13 => 'f',
        0x10 => 'g',
        0x09 => 'h',
        0x05 => 'i',
        0x34 => 'j',
        0x16 => 'k',
        0x0A => 'l',
        0x0E => 'm',
        0x06 => 'n',
        0x04 => 'o',
        0x14 => 'p',
        0x37 => 'q',
        0x08 => 'r',
        0x07 => 's',
        0x02 => 't',
        0x0D => 'u',
        0x19 => 'v',
        0x12 => 'w',
        0x36 => 'x',
        0x11 => 'y',
        0x32 => 'z',
        0x38 => '0',
        0x3D => '1',
        0x3A => '2',
        0x41 => '3',
        0x4A => '4',
        0x42 => '5',
        0x4E => '6',
        0x45 => '7',
        0x57 => '8',
        0x59 => '9',
        0x00 => ' ',
        0x30 => '-',
        0x3C => '#',
        0x43 => '&',
        0x0B => '.',
        0x1F => ',',
        0x55 => 'a',
        0x17 => '!',
        0x1B => '\'',
        0x27 => '<',
        0x28 => '>',
        0x2E => '?',
        0x44 => '/',
        0x48 => ':',
        0x4B => ')',
        0x4C => '(',
        0x4F => '$',
        0x50 => '*',
        0x51 => '>',
        0x54 => '<',
        0x40 => '"',
        0x56 => '+',
        0x5B => '%',
        _ => '_',
    }
}

/// Read bytes from the start of the slice until the string terminator,
/// and return the text they stand for. The slice may run on past the
/// string: everything after the first terminator is ignored.
///
/// Returns `None` where the slice holds no terminator.
pub fn read_terminated_string(binary_data: &[u8]) -> (result: Option<String>)
    ensures
        match result {
            Some(s) => decode_terminated(binary_data@) == Some(s@),
            None => decode_terminated(binary_data@) is None,
        },
{
    let mut text = String::new();
    let mut i: usize = 0;
    while i < binary_data.len()
        invariant
            i <= binary_data.len(),
            terminator_free(binary_data@.take(i as int)),
            text@ == decode_text(binary_data@.take(i as int)),
        decreases binary_data.len() - i,
    {
        let byte = binary_data[i];
        if byte == STRING_TERMINATOR {
            proof {
                assert(first_terminator_at(binary_data@, i as int));
                let n = choose|n: int| first_terminator_at(binary_data@, n);
                lemma_first_terminator_unique(binary_data@, n, i as int);
            }
            return Some(text);
        }
        text.push(u8_to_char(byte));
        proof {
            let before = binary_data@.take(i as int);
            let after = binary_data@.take(i + 1);
            assert(after == before.push(byte));
            assert(decode_text(after) =~= decode_text(before).push(glyph(byte)));
        }
        i += 1;
    }
    proof {
        assert(binary_data@.take(i as int) == binary_data@);
        lemma_decode_terminated_none(binary_data@);
    }
    None
}

} // verus!
