//! Text on the wire is UTF-8.

use vstd::prelude::*;
use vstd::utf8::{decode_utf8, encode_utf8, valid_utf8};

verus! {

/// `String::from_utf8` succeeds on exactly the byte runs that are UTF-8, and
/// then gives the text that they spell. Not proved: taken from its
/// documentation.
pub assume_specification[ std::string::String::from_utf8 ](vec: Vec<u8>) -> (res: Result<
    std::string::String,
    std::string::FromUtf8Error,
>)
    ensures
        res is Ok <==> valid_utf8(vec@),
        res is Ok ==> res->Ok_0@ == decode_utf8(vec@),
;

/// The text that `bytes` spell, where they are UTF-8.
pub open spec fn str_decoding(bytes: Seq<u8>) -> Option<Seq<char>> {
    if valid_utf8(bytes) {
        Some(decode_utf8(bytes))
    } else {
        None
    }
}

/// The bytes of a text: its UTF-8 form, with nothing before or after it.
pub open spec fn str_encoding(text: Seq<char>) -> Seq<u8> {
    encode_utf8(text)
}

/// Every text is read back from its bytes unchanged.
pub proof fn lemma_str_round_trip(text: Seq<char>)
    ensures
        str_decoding(str_encoding(text)) == Some(text),
{
    vstd::utf8::encode_utf8_valid_utf8(text);
    vstd::utf8::encode_utf8_decode_utf8(text);
}

} // verus!
