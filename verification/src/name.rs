//! Patch names and netplay group names.
use vstd::prelude::*;

verus! {

/// Longest accepted patch name / netplay group.
pub const MAX_NAME_LEN: usize = 64;

/// The characters a name may hold: lower-case ASCII letters, digits, `_` and `-`.
pub open spec fn is_name_char(c: char) -> bool {
    ('a' <= c && c <= 'z') || ('0' <= c && c <= '9') || c == '_' || c == '-'
}

/// Why a name was refused.
#[derive(Debug, Clone, Copy, PartialEq, Eq, Structural)]
pub enum NameError {
    Empty,
    TooLong,
    BadChar,
}

/// The first reason, in the order checked, that `s` is not a valid name.
pub open spec fn name_error(s: Seq<char>) -> Option<NameError> {
    if s.len() == 0 {
        Some(NameError::Empty)
    } else if s.len() > MAX_NAME_LEN {
        Some(NameError::TooLong)
    } else if exists|i: int| 0 <= i < s.len() && !is_name_char(#[trigger] s[i]) {
        Some(NameError::BadChar)
    } else {
        None
    }
}

pub open spec fn is_valid_name(s: Seq<char>) -> bool {
    name_error(s) is None
}

/// A name is valid exactly when it has 1 to 64 characters, each a
/// lower-case ASCII letter from `a` to `z`, a digit, `_` or `-`.
pub proof fn lemma_valid_name_charset(s: Seq<char>)
    ensures
        is_valid_name(s) <==> (1 <= s.len() <= 64 && forall|i: int|
            0 <= i < s.len() ==> {
                let c = #[trigger] s[i];
                ('a' <= c && c <= 'z') || ('0' <= c && c <= '9') || c == '_' || c == '-'
            }),
{
    if 1 <= s.len() <= 64 && exists|i: int| 0 <= i < s.len() && !is_name_char(#[trigger] s[i]) {
        let i = choose|i: int| 0 <= i < s.len() && !is_name_char(#[trigger] s[i]);
        assert(!(('a' <= s[i] && s[i] <= 'z') || ('0' <= s[i] && s[i] <= '9') || s[i] == '_'
            || s[i] == '-'));
    }
}

/// The human-readable text of a [`NameError`].
pub open spec fn name_error_text(e: NameError) -> Seq<char> {
    match e {
        NameError::Empty => "must not be empty"@,
        NameError::TooLong => "must be at most 64 characters long"@,
        NameError::BadChar => "may only contain a-z, 0-9, '_' and '-'"@,
    }
}

impl NameError {
    /// The human-readable text of this error.
    pub fn message(&self) -> (r: String)
        ensures
            r@ == name_error_text(*self),
    {
        match self {
            NameError::Empty => String::from_str("must not be empty"),
            NameError::TooLong => String::from_str("must be at most 64 characters long"),
            NameError::BadChar => String::from_str("may only contain a-z, 0-9, '_' and '-'"),
        }
    }
}

/// Checks that `name` is a usable patch or group name.
pub fn validate_name(name: &str) -> (res: Result<(), NameError>)
    ensures
        res matches Err(e) ==> name_error(name@) == Some(e),
        res is Ok <==> is_valid_name(name@),
{
    let len = name.unicode_len();
    if len == 0 {
        return Err(NameError::Empty);
    }
    if len > MAX_NAME_LEN {
        return Err(NameError::TooLong);
    }
    let mut i: usize = 0;
    while i < len
        invariant
            len == name@.len(),
            0 < len <= MAX_NAME_LEN,
            i <= len,
            forall|j: int| 0 <= j < i ==> is_name_char(#[trigger] name@[j]),
        decreases len - i,
    {
        let c = name.get_char(i);
        if !(('a' <= c && c <= 'z') || ('0' <= c && c <= '9') || c == '_' || c == '-') {
            return Err(NameError::BadChar);
        }
        i = i + 1;
    }
    Ok(())
}

} // verus!
