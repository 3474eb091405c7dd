//! Text on its way to the engine and back: NUL-terminated bytes and UTF-8.
use vstd::prelude::*;
use vstd::utf8::{decode_utf8, encode_utf8, valid_utf8};

verus! {

/// The C string of some bytes: the bytes and a NUL, or the empty C string where the bytes
/// hold a NUL themselves and so have no C string.
pub open spec fn c_string(bytes: Seq<u8>) -> Seq<u8> {
    if bytes.contains(0u8) {
        seq![0u8]
    } else {
        bytes.push(0u8)
    }
}

/// The C string of a text.
pub open spec fn c_text(text: Seq<char>) -> Seq<u8> {
    c_string(encode_utf8(text))
}

/// The text that some bytes encode, and no text where they are not UTF-8.
pub open spec fn text_of(bytes: Seq<u8>) -> Seq<char> {
    if valid_utf8(bytes) {
        decode_utf8(bytes)
    } else {
        Seq::empty()
    }
}

/// What a reader of C strings sees: the bytes before the first NUL.
pub open spec fn before_nul(bytes: Seq<u8>) -> Seq<u8>
    decreases bytes.len(),
{
    if bytes.len() == 0 || bytes[0] == 0u8 {
        Seq::empty()
    } else {
        seq![bytes[0]] + before_nul(bytes.drop_first())
    }
}

/// Whether a text can be a C string: its encoding holds no NUL.
pub open spec fn nul_free(text: Seq<char>) -> bool {
    !encode_utf8(text).contains(0u8)
}

/// Whether `s` holds no NUL byte.
pub fn is_nul_free(s: &str) -> (free: bool)
    ensures
        free == nul_free(s@),
{
    let bytes = s.as_bytes();
    let mut i: usize = 0;
    while i < bytes.len()
        invariant
            bytes@ == encode_utf8(s@),
            i <= bytes.len(),
            forall|j: int| 0 <= j < i ==> bytes@[j] != 0u8,
        decreases bytes.len() - i,
    {
        if bytes[i] == 0 {
            assert(encode_utf8(s@)[i as int] == 0u8);
            return false;
        }
        i = i + 1;
    }
    true
}

/// The C string of `s`.
pub fn make_c_string(s: &str) -> (bytes: Vec<u8>)
    ensures
        bytes@ == c_text(s@),
{
    let mut bytes: Vec<u8> = Vec::new();
    if is_nul_free(s) {
        let text = s.as_bytes();
        let mut i: usize = 0;
        while i < text.len()
            invariant
                text@ == encode_utf8(s@),
                i <= text.len(),
                bytes@ == text@.subrange(0, i as int),
            decreases text.len() - i,
        {
            bytes.push(text[i]);
            i = i + 1;
        }
    }
    bytes.push(0);
    bytes
}

/// `core::str::from_utf8`: the text that `bytes` encode, or `None` exactly where they are not
/// well-formed UTF-8.
#[verifier::external_body]
fn from_utf8(bytes: &[u8]) -> (text: Option<&str>)
    ensures
        text is Some <==> valid_utf8(bytes@),
        text matches Some(s) ==> s@ == decode_utf8(bytes@),
{
    core::str::from_utf8(bytes).ok()
}

/// The text of `bytes`, empty where they are not UTF-8.
pub fn decode_text(bytes: &[u8]) -> (text: String)
    ensures
        text@ == text_of(bytes@),
{
    match from_utf8(bytes) {
        Some(s) => s.to_owned(),
        None => String::new(),
    }
}

proof fn lemma_before_nul_of_push(bytes: Seq<u8>)
    requires
        !bytes.contains(0u8),
    ensures
        before_nul(bytes.push(0u8)) == bytes,
    decreases bytes.len(),
{
    if bytes.len() > 0 {
        assert(bytes[0] != 0u8) by {
            assert(bytes.contains(bytes[0]));
        }
        let rest = bytes.drop_first();
        assert(!rest.contains(0u8)) by {
            if rest.contains(0u8) {
                let i = choose|i: int| 0 <= i < rest.len() && rest[i] == 0u8;
                assert(bytes[i + 1] == 0u8);
            }
        }
        lemma_before_nul_of_push(rest);
        assert(bytes.push(0u8).drop_first() =~= rest.push(0u8));
        assert(seq![bytes[0]] + rest =~= bytes);
    }
}

/// A text without NUL survives the trip through a C string; one with a NUL arrives empty.
pub proof fn law_c_string_round_trip(text: Seq<char>)
    ensures
        text_of(before_nul(c_text(text))) == (if nul_free(text) {
            text
        } else {
            Seq::<char>::empty()
        }),
{
    broadcast use {vstd::utf8::encode_utf8_valid_utf8, vstd::utf8::encode_utf8_decode_utf8};

    if nul_free(text) {
        lemma_before_nul_of_push(encode_utf8(text));
    } else {
        assert(before_nul(seq![0u8]) =~= Seq::<u8>::empty());
        assert(decode_utf8(Seq::<u8>::empty()) =~= Seq::<char>::empty());
    }
}

/// A C string ends with a NUL and holds no other.
pub proof fn law_c_string_has_one_nul(bytes: Seq<u8>)
    ensures
        c_string(bytes).len() > 0,
        forall|i: int|
            0 <= i < c_string(bytes).len() ==> (c_string(bytes)[i] == 0u8 <==> i
                == c_string(bytes).len() - 1),
{
    assert forall|i: int| 0 <= i < c_string(bytes).len() implies (c_string(bytes)[i] == 0u8 <==> i
        == c_string(bytes).len() - 1) by {
        if !bytes.contains(0u8) && i < bytes.len() {
            assert(bytes.contains(bytes[i]));
        }
    }
}

} // verus!
