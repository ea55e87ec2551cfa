//! Text that comes from the operating system as bytes or as wide characters.
use vstd::prelude::*;
use vstd::utf8::*;

verus! {

/// Whether the code unit is the first half of a surrogate pair.
pub open spec fn is_high_surrogate(unit: u16) -> bool {
    0xD800 <= unit <= 0xDBFF
}

/// Whether the code unit is the second half of a surrogate pair.
pub open spec fn is_low_surrogate(unit: u16) -> bool {
    0xDC00 <= unit <= 0xDFFF
}

/// The character that a surrogate pair stands for.
pub open spec fn surrogate_pair(high: u16, low: u16) -> char {
    (0x1_0000 + 0x400 * (high - 0xD800) + (low - 0xDC00)) as char
}

/// The characters that UTF-16 code units stand for. `None` where a half of a
/// surrogate pair stands alone.
pub open spec fn decode_utf16(units: Seq<u16>) -> Option<Seq<char>>
    decreases units.len(),
{
    if units.len() == 0 {
        Some(Seq::empty())
    } else if is_high_surrogate(units[0]) {
        if units.len() >= 2 && is_low_surrogate(units[1]) {
            match decode_utf16(units.skip(2)) {
                Some(rest) => Some(seq![surrogate_pair(units[0], units[1])] + rest),
                None => None,
            }
        } else {
            None
        }
    } else if is_low_surrogate(units[0]) {
        None
    } else {
        match decode_utf16(units.skip(1)) {
            Some(rest) => Some(seq![units[0] as char] + rest),
            None => None,
        }
    }
}

/// `String::from_utf8`: gives the string whose UTF-8 encoding the bytes are, and
/// nothing where they are not valid UTF-8.
#[verifier::external_body]
pub(crate) fn string_from_utf8(bytes: Vec<u8>) -> (text: Option<String>)
    ensures
        text is Some <==> valid_utf8(bytes@),
        text matches Some(text) ==> text@ == decode_utf8(bytes@),
{
    String::from_utf8(bytes).ok()
}

/// `String::from_utf16`: gives the string that the UTF-16 code units stand for, and
/// nothing where they are ill-formed.
#[verifier::external_body]
pub(crate) fn string_from_utf16(units: &[u16]) -> (text: Option<String>)
    ensures
        match text {
            Some(text) => decode_utf16(units@) == Some(text@),
            None => decode_utf16(units@) is None,
        },
{
    String::from_utf16(units).ok()
}

/// Whether the last characters of `text` are `suffix`.
pub open spec fn ends_with_chars(text: Seq<char>, suffix: Seq<char>) -> bool {
    suffix.len() <= text.len() && text.skip(text.len() - suffix.len()) == suffix
}

/// Whether the last bytes of `text` are `suffix`.
pub open spec fn ends_with_bytes(text: Seq<u8>, suffix: Seq<u8>) -> bool {
    suffix.len() <= text.len() && text.skip(text.len() - suffix.len()) == suffix
}

/// A text ends with another exactly when it is something followed by the other.
pub proof fn ends_with_is_behind_a_head(text: Seq<char>, suffix: Seq<char>)
    ensures
        ends_with_chars(text, suffix) <==> exists|head: Seq<char>|
            text == #[trigger] (head + suffix),
{
    if ends_with_chars(text, suffix) {
        assert(text =~= text.take(text.len() - suffix.len()) + suffix);
    }
    if exists|head: Seq<char>| text == #[trigger] (head + suffix) {
        let head = choose|head: Seq<char>| text == #[trigger] (head + suffix);
        assert(text.skip(text.len() - suffix.len()) =~= suffix);
    }
}

/// The UTF-16 code units of a text: one for a character of the basic plane, two for
/// any other.
pub open spec fn encode_utf16(text: Seq<char>) -> Seq<u16>
    decreases text.len(),
{
    if text.len() == 0 {
        Seq::empty()
    } else if (text[0] as u32) < 0x1_0000 {
        seq![text[0] as u16] + encode_utf16(text.drop_first())
    } else {
        seq![
            (0xD800 + (text[0] as u32 - 0x1_0000) / 0x400) as u16,
            (0xDC00 + (text[0] as u32 - 0x1_0000) % 0x400) as u16,
        ] + encode_utf16(text.drop_first())
    }
}

/// The code units of a character are read as that character.
proof fn units_of_char(c: char)
    ensures
        (c as u32) < 0x1_0000 ==> {
            &&& !is_high_surrogate(c as u16)
            &&& !is_low_surrogate(c as u16)
            &&& (c as u16) as char == c
        },
        (c as u32) >= 0x1_0000 ==> {
            let high = (0xD800 + (c as u32 - 0x1_0000) / 0x400) as u16;
            let low = (0xDC00 + (c as u32 - 0x1_0000) % 0x400) as u16;
            &&& is_high_surrogate(high)
            &&& is_low_surrogate(low)
            &&& surrogate_pair(high, low) == c
        },
{
    char_is_scalar(c);
}

/// Every text is read back from its code units.
pub proof fn utf16_is_read_back(text: Seq<char>)
    ensures
        decode_utf16(encode_utf16(text)) == Some(text),
    decreases text.len(),
{
    if text.len() == 0 {
        assert(text =~= Seq::empty());
    } else {
        let rest = text.drop_first();
        let units = encode_utf16(text);
        let code = text[0] as u32;
        units_of_char(text[0]);
        utf16_is_read_back(rest);
        assert(seq![text[0]] + rest =~= text);
        if code < 0x1_0000 {
            assert(units.skip(1) =~= encode_utf16(rest));
            assert(!is_high_surrogate(units[0]) && !is_low_surrogate(units[0]));
        } else {
            assert(units.skip(2) =~= encode_utf16(rest));
            assert(is_high_surrogate(units[0]) && is_low_surrogate(units[1]));
            assert(surrogate_pair(units[0], units[1]) == text[0]);
        }
    }
}

/// What is read from code units is the text with these code units, so that code
/// units of no text are not read.
pub proof fn read_utf16_has_these_units(units: Seq<u16>)
    ensures
        decode_utf16(units) matches Some(text) ==> encode_utf16(text) == units,
    decreases units.len(),
{
    if let Some(text) = decode_utf16(units) {
        if units.len() == 0 {
            assert(units =~= Seq::empty());
        } else if is_high_surrogate(units[0]) {
            read_utf16_has_these_units(units.skip(2));
            assert(text.drop_first() =~= decode_utf16(units.skip(2))->0);
            assert(text[0] == surrogate_pair(units[0], units[1]));
            assert(encode_utf16(text) =~= units);
        } else {
            read_utf16_has_these_units(units.skip(1));
            assert(text.drop_first() =~= decode_utf16(units.skip(1))->0);
            assert(encode_utf16(text) =~= units);
        }
    }
}

/// A text ends with another exactly when its encoding does.
proof fn suffix_of_encoding(text: Seq<char>, suffix: Seq<char>)
    ensures
        ends_with_bytes(encode_utf8(text), encode_utf8(suffix)) <==> ends_with_chars(text, suffix),
{
    broadcast use {encode_utf8_valid_utf8, encode_utf8_decode_utf8};

    let t = encode_utf8(text);
    let s = encode_utf8(suffix);
    if ends_with_bytes(t, s) {
        let at = t.len() - s.len();
        assert(is_char_boundary(t, at)) by {
            if s.len() == 0 {
                is_char_boundary_start_end_of_seq(t);
            } else {
                assert(t[at] == t.skip(at)[0]);
                is_char_boundary_start_end_of_seq(s);
                is_char_boundary_iff_is_leading_byte(s, 0);
                is_char_boundary_iff_is_leading_byte(t, at);
            }
        }
        decode_utf8_split(t, at);
        assert(t.subrange(at, t.len() as int) == t.skip(at));
        let head = decode_utf8(t.subrange(0, at));
        assert(text == head + suffix);
        assert(text.skip(text.len() - suffix.len()) =~= suffix);
    }
    if ends_with_chars(text, suffix) {
        let head = text.take(text.len() - suffix.len());
        assert(text =~= head + suffix);
        encode_concat(head, suffix);
        assert(t.skip(t.len() - s.len()) =~= s);
    }
}

/// The encoding of two texts in a row is their two encodings in a row.
proof fn encode_concat(first: Seq<char>, second: Seq<char>)
    ensures
        encode_utf8(first + second) == encode_utf8(first) + encode_utf8(second),
    decreases first.len(),
{
    if first.len() == 0 {
        assert(first + second =~= second);
        assert(encode_utf8(first) + encode_utf8(second) =~= encode_utf8(second));
    } else {
        encode_concat(first.drop_first(), second);
        assert((first + second).drop_first() =~= first.drop_first() + second);
    }
}

/// Whether `text` ends with `suffix`.
pub fn ends_with(text: &str, suffix: &str) -> (result: bool)
    ensures
        result == ends_with_chars(text@, suffix@),
        result <==> exists|head: Seq<char>| text@ == #[trigger] (head + suffix@),
{
    proof {
        ends_with_is_behind_a_head(text@, suffix@);
        suffix_of_encoding(text@, suffix@);
    }
    let t: &[u8] = text.as_bytes();
    let s: &[u8] = suffix.as_bytes();
    if s.len() > t.len() {
        return false;
    }
    let at: usize = t.len() - s.len();
    let mut i: usize = 0;
    while i < s.len()
        invariant
            at + s@.len() == t@.len(),
            t@.len() <= usize::MAX,
            i <= s@.len(),
            forall|j: int| 0 <= j < i ==> s@[j] == t@[at + j],
            t@ == encode_utf8(text@),
            s@ == encode_utf8(suffix@),
            ends_with_bytes(t@, s@) <==> ends_with_chars(text@, suffix@),
            ends_with_chars(text@, suffix@) <==> exists|head: Seq<char>|
                text@ == #[trigger] (head + suffix@),
        decreases s@.len() - i,
    {
        if s[i] != t[at + i] {
            assert(t@.skip(at as int)[i as int] == t@[at + i]);
            return false;
        }
        i = i + 1;
    }
    assert(t@.skip(at as int) =~= s@);
    true
}

} // verus!
