use vstd::prelude::*;
use vstd::slice::slice_to_vec;
use vstd::utf8::valid_utf8;
use crate::errors::DataError;

verus! {

/// Relies on std's `str::from_utf8`: it returns `Ok` exactly for the
/// byte sequences that are valid UTF-8.
#[verifier::external_body]
pub fn is_utf8(bytes: &[u8]) -> (r: bool)
    ensures
        r == valid_utf8(bytes@),
{
    core::str::from_utf8(bytes).is_ok()
}

/// A length-prefixed string field: one length byte, then that many
/// bytes of UTF-8 text. The declared length running past the buffer
/// and invalid text are distinct errors.
pub open spec fn spec_read_str_with_len(s: Seq<u8>) -> Result<(nat, Seq<u8>), DataError> {
    if s.len() < 1 {
        Err(DataError::TooShort)
    } else if s.len() < 1 + (s[0] as nat) {
        Err(DataError::TooShort)
    } else {
        let text = s.subrange(1, 1 + (s[0] as nat) as int);
        if valid_utf8(text) {
            Ok(((s[0] as nat), text))
        } else {
            Err(DataError::NotUtf8)
        }
    }
}

/// Read a length-prefixed string field from the front of a buffer,
/// returning the declared length and the text bytes.
pub fn read_str_with_len(len_str_slice: &[u8]) -> (r: Result<(usize, Vec<u8>), DataError>)
    ensures
        match r {
            Ok(p) => spec_read_str_with_len(len_str_slice@) == Ok::<(nat, Seq<u8>), DataError>(
                (p.0 as nat, p.1@),
            ),
            Err(e) => spec_read_str_with_len(len_str_slice@) == Err::<(nat, Seq<u8>), DataError>(e),
        },
{
    if len_str_slice.len() < 1 {
        return Err(DataError::TooShort);
    }
    let n = len_str_slice[0] as usize;
    if len_str_slice.len() < 1 + n {
        return Err(DataError::TooShort);
    }
    let text = slice_to_vec(&len_str_slice[1..1 + n]);
    if is_utf8(text.as_slice()) {
        Ok((n, text))
    } else {
        Err(DataError::NotUtf8)
    }
}

/// A remainder-of-payload string field: all bytes to the end of the
/// frame, non-empty and valid UTF-8.
pub open spec fn spec_read_str_no_len(s: Seq<u8>) -> Result<Seq<u8>, DataError> {
    if s.len() < 1 {
        Err(DataError::TooShort)
    } else if valid_utf8(s) {
        Ok(s)
    } else {
        Err(DataError::NotUtf8)
    }
}

/// Read a remainder-of-payload string field: the whole buffer is the
/// text.
pub fn read_str_no_len(str_slice: &[u8]) -> (r: Result<Vec<u8>, DataError>)
    ensures
        match r {
            Ok(text) => spec_read_str_no_len(str_slice@) == Ok::<Seq<u8>, DataError>(text@),
            Err(e) => spec_read_str_no_len(str_slice@) == Err::<Seq<u8>, DataError>(e),
        },
{
    if str_slice.len() < 1 {
        return Err(DataError::TooShort);
    }
    if is_utf8(str_slice) {
        Ok(slice_to_vec(str_slice))
    } else {
        Err(DataError::NotUtf8)
    }
}

} // verus!
