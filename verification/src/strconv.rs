use vstd::prelude::*;
use crate::errors::GitError;

verus! {

/// The characters that a run of ASCII bytes spells, one per byte.
pub open spec fn ascii_chars_of(s: Seq<u8>) -> Seq<char> {
    s.map_values(|b: u8| b as char)
}

/// Decode ASCII bytes as text: one character per byte, in order.
pub fn ascii_to_string(v: Vec<u8>) -> (r: String)
    requires
        forall|i: int| 0 <= i < v@.len() ==> v@[i] < 128,
    ensures
        r@ == ascii_chars_of(v@),
{
    let ghost b = v@;
    proof {
        lemma_ascii_encode(b);
        vstd::utf8::encode_utf8_valid_utf8(ascii_chars_of(b));
    }
    match utf8_to_string(v) {
        Ok(s) => {
            proof {
                vstd::utf8::encode_utf8_decode_utf8(s@);
                vstd::utf8::encode_utf8_decode_utf8(ascii_chars_of(b));
                assert(vstd::utf8::decode_utf8(vstd::utf8::encode_utf8(s@))
                    == vstd::utf8::decode_utf8(vstd::utf8::encode_utf8(ascii_chars_of(b))));
            }
            s
        },
        Err(_e) => {
            proof {
                assert(false);
            }
            String::new()
        },
    }
}

/// Relies on `String::from_utf8`: it succeeds exactly on valid UTF-8 and
/// keeps the bytes unchanged.
#[verifier::external_body]
pub(crate) fn utf8_to_string(v: Vec<u8>) -> (r: Result<String, GitError>)
    ensures
        match r {
            Ok(s) => vstd::utf8::valid_utf8(v@) && vstd::utf8::encode_utf8(s@) == v@,
            Err(e) => e == GitError::Utf8Invalid && !vstd::utf8::valid_utf8(v@),
        },
{
    match String::from_utf8(v) {
        Ok(s) => Ok(s),
        Err(_) => Err(GitError::Utf8Invalid),
    }
}

/// Encoding the characters that ASCII bytes spell gives the bytes back.
pub proof fn lemma_ascii_encode(s: Seq<u8>)
    requires
        forall|i: int| 0 <= i < s.len() ==> s[i] < 128,
    ensures
        vstd::utf8::encode_utf8(ascii_chars_of(s)) == s,
{
    let chars = ascii_chars_of(s);
    assert(chars.len() == s.len());
    assert forall|i: int| 0 <= i < chars.len() implies '\0' <= #[trigger] chars[i] <= '\u{7f}' by {
        assert(chars[i] == s[i] as char);
        assert(s[i] < 128);
        assert((s[i] as char) as u32 == s[i]);
        assert(('\0' as u32) == 0 && ('\u{7f}' as u32) == 127);
    }
    assert(vstd::utf8::is_ascii_chars(chars));
    vstd::utf8::is_ascii_chars_encode_utf8(chars);
    assert forall|i: int| 0 <= i < s.len() implies vstd::utf8::encode_utf8(chars)[i] == s[i] by {
        assert(chars[i] as u8 == vstd::utf8::encode_utf8(chars)[i]);
        assert((s[i] as char) as u8 == s[i]);
    }
    assert(vstd::utf8::encode_utf8(chars) =~= s);
}

/// Relies on `u8 as char` and `String` collection: every byte becomes the
/// character with the same code point, multibyte values included.
#[verifier::external_body]
pub(crate) fn bytes_to_chars_string(v: &Vec<u8>) -> (r: String)
    ensures
        r@ == ascii_chars_of(v@),
{
    v.iter().map(|b| *b as char).collect()
}

} // verus!
