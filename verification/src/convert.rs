//! Small conversion helpers for strings and string collections.
use vstd::prelude::*;
use vstd::utf8::{encode_utf8, valid_utf8};

use crate::err::NfError;

verus! {

pub struct StringUtil {}

impl StringUtil {
    /// Turns an optional borrowed string into an optional owned one.
    pub fn option_str2option_string(source: Option<&str>) -> (r: Option<String>)
        ensures
            match source {
                Some(s) => r matches Some(t) && t@ == s@,
                None => r is None,
            },
    {
        match source {
            Some(s) => Some(String::from_str(s)),
            None => None,
        }
    }

    /// Turns a borrowed string result into an owned one, keeping the error.
    pub fn result_str2result_string(source: Result<&str, NfError>) -> (r: Result<String, NfError>)
        ensures
            match source {
                Ok(s) => r matches Ok(t) && t@ == s@,
                Err(e) => r matches Err(e2) && e2 == e,
            },
    {
        match source {
            Ok(s) => Ok(String::from_str(s)),
            Err(e) => Err(e),
        }
    }

    /// Relies on `String::from_utf8`: it succeeds exactly on valid UTF-8
    /// input, and the returned string's bytes are the input bytes.
    #[verifier::external_body]
    pub fn string_from_utf8(bytes: Vec<u8>) -> (r: Result<String, NfError>)
        ensures
            r matches Ok(s) ==> encode_utf8(s@) == bytes@,
            r is Ok <==> valid_utf8(bytes@),
    {
        match String::from_utf8(bytes) {
            Ok(s) => Ok(s),
            Err(e) => Err(NfError::ConvertError(format!("convert string failed. err: {}", e))),
        }
    }
}

pub struct VecUtil {}

impl VecUtil {
    /// Turns a vector of borrowed strings into a vector of owned ones.
    pub fn str_to_string(source: Vec<&str>) -> (r: Vec<String>)
        ensures
            r@.len() == source@.len(),
            forall|k: int| 0 <= k < source@.len() ==> r@[k]@ == source@[k]@,
    {
        let mut rst: Vec<String> = Vec::new();
        let n = source.len();
        let mut i: usize = 0;
        while i < n
            invariant
                n == source@.len(),
                i <= n,
                rst@.len() == i,
                forall|k: int| 0 <= k < i ==> rst@[k]@ == source@[k]@,
            decreases n - i,
        {
            rst.push(String::from_str(source[i]));
            i = i + 1;
        }
        rst
    }
}

} // verus!
