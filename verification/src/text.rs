//! Conversions between strings and the ASCII byte sequences that the rest of
//! the crate computes on.

use vstd::prelude::*;

verus! {

/// The bytes of an ASCII string, character by character.
pub open spec fn byte_view(s: Seq<char>) -> Seq<u8> {
    s.map_values(|c: char| c as u8)
}

/// The characters of an ASCII byte sequence, byte by byte.
pub open spec fn char_view(s: Seq<u8>) -> Seq<char> {
    s.map_values(|b: u8| b as char)
}

/// All bytes below 128.
pub open spec fn ascii_bytes(s: Seq<u8>) -> bool {
    forall|i: int| 0 <= i < s.len() ==> s[i] < 128
}

/// Turns a string into its byte sequence, or `None` when it is not ASCII.
pub fn str_to_ascii(s: &str) -> (r: Option<Vec<u8>>)
    ensures
        r is Some <==> s.is_ascii(),
        r matches Some(v) ==> v@ == byte_view(s@) && ascii_bytes(v@),
{
    broadcast use vstd::string::is_ascii_spec_bytes;

    if !s.is_ascii() {
        return None;
    }
    let v = s.as_bytes_vec();
    proof {
        assert(v@ =~= byte_view(s@));
        assert forall|i: int| 0 <= i < v@.len() implies v@[i] < 128 by {
            assert(v@[i] == s@[i] as u8);
            assert(vstd::utf8::is_ascii_chars(s@));
            assert(s@[i] <= '\u{7f}');
        }
    }
    Some(v)
}

/// Relies on `String::from_utf8`: a buffer of ASCII bytes decodes to exactly
/// those characters, one character per byte.
#[verifier::external_body]
pub(crate) fn string_from_ascii(bytes: Vec<u8>) -> (r: String)
    requires
        ascii_bytes(bytes@),
    ensures
        r@ == char_view(bytes@),
{
    String::from_utf8(bytes).unwrap_or_default()
}

/// For ASCII bytes, chars and bytes are two spellings of the same text.
pub proof fn lemma_char_byte_roundtrip(s: Seq<u8>)
    requires
        ascii_bytes(s),
    ensures
        byte_view(char_view(s)) =~= s,
        vstd::utf8::is_ascii_chars(char_view(s)),
{
    assert forall|i: int| 0 <= i < s.len() implies #[trigger] byte_view(char_view(s))[i] == s[i]
        && '\0' <= char_view(s)[i] <= '\u{7f}' by {
        assert(char_view(s)[i] == s[i] as char);
        assert((s[i] as char) as u8 == s[i]);
        assert(s[i] < 128);
    }
}


/// For ASCII characters, bytes and chars are two spellings of the same
/// text.
pub proof fn lemma_byte_char_roundtrip(s: Seq<char>)
    requires
        vstd::utf8::is_ascii_chars(s),
    ensures
        char_view(byte_view(s)) =~= s,
        ascii_bytes(byte_view(s)),
{
    assert forall|i: int| 0 <= i < s.len() implies #[trigger] char_view(byte_view(s))[i] == s[i]
        && byte_view(s)[i] < 128 by {
        assert('\0' <= s[i] <= '\u{7f}');
        assert(byte_view(s)[i] == s[i] as u8);
        assert((s[i] as u8) as char == s[i]);
    }
}

} // verus!
