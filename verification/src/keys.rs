//! Keys: how a column and a key in it make a database key, and how keys are read back.
use vstd::prelude::*;
use vstd::utf8::*;

use crate::errors::Error;
use crate::hash::Hash256;

verus! {

/// The database key of `key` in the column called `column`: the bytes of the column's name, then
/// those of the key.
pub open spec fn db_key(column: Seq<char>, key: Seq<u8>) -> Seq<u8> {
    encode_utf8(column) + key
}

/// The column name at the head of a database key: the text that its first three bytes encode.
pub open spec fn column_of_key(key: Seq<u8>) -> Option<Seq<char>> {
    if key.len() >= 3 && valid_utf8(key.take(3)) {
        Some(decode_utf8(key.take(3)))
    } else {
        None
    }
}

/// A kind of key that can be read from bytes.
///
/// The specification function has a body for the sake of implementations outside verified code,
/// which leave it out; a verified implementation gives its own.
pub trait Key: Sized + 'static {
    /// Whether `r` is the outcome of reading a key of this kind from `bytes`.
    open spec fn reads_as(bytes: Seq<u8>, r: Result<Self, Error>) -> bool {
        true
    }

    /// Read a key from its bytes.
    fn from_bytes(key: &[u8]) -> (r: Result<Self, Error>)
        ensures
            Self::reads_as(key@, r),
    ;
}

impl Key for Hash256 {
    /// Exactly the byte strings of 32 bytes are hashes.
    open spec fn reads_as(bytes: Seq<u8>, r: Result<Self, Error>) -> bool {
        if bytes.len() == 32 {
            r matches Ok(hash) && hash@ == bytes
        } else {
            r == Err::<Self, Error>(Error::InvalidKey)
        }
    }

    fn from_bytes(key: &[u8]) -> (r: Result<Self, Error>) {
        if key.len() == 32 {
            Ok(Hash256::from_slice(key))
        } else {
            Err(Error::InvalidKey)
        }
    }
}

impl Key for Vec<u8> {
    /// Every byte string is a key of this kind, and is that key.
    open spec fn reads_as(bytes: Seq<u8>, r: Result<Self, Error>) -> bool {
        r matches Ok(key) && key@ == bytes
    }

    fn from_bytes(key: &[u8]) -> (r: Result<Self, Error>) {
        Ok(vstd::slice::slice_to_vec(key))
    }
}

/// The database key of `key` in the column called `column`.
pub fn get_key_for_col(column: &str, key: &[u8]) -> (r: Vec<u8>)
    ensures
        r@ == db_key(column@, key@),
{
    let mut result = vstd::slice::slice_to_vec(column.as_bytes());
    result.extend_from_slice(key);
    assert(result@ =~= db_key(column@, key@));
    result
}

/// What `String::from_utf8` returns when it refuses its argument.
#[verifier::external_type_specification]
#[verifier::external_body]
pub struct ExFromUtf8Error(std::string::FromUtf8Error);

/// `String::from_utf8`: the bytes become a string if and only if they are valid UTF-8, and the
/// string is then the one that they encode.
pub assume_specification[ String::from_utf8 ](vec: Vec<u8>) -> (r: Result<
    String,
    std::string::FromUtf8Error,
>)
    ensures
        r is Ok <==> valid_utf8(vec@),
        r matches Ok(text) ==> encode_utf8(text@) == vec@,
;

/// The name of the column that a database key belongs to, if the key is long enough to hold one
/// and its head is text.
pub fn get_col_from_key(key: &[u8]) -> (r: Option<String>)
    ensures
        r is Some <==> column_of_key(key@) is Some,
        r matches Some(text) ==> column_of_key(key@) == Some(text@),
{
    if key.len() < 3 {
        return None;
    }
    let head = vstd::slice::slice_to_vec(&key[0..3]);
    assert(head@ =~= key@.take(3));
    let text = String::from_utf8(head).ok();
    proof {
        if text is Some {
            encode_utf8_decode_utf8(text->0@);
        }
    }
    text
}

} // verus!
