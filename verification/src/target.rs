//! The exact ROM a set of overrides applies to, written like `BR5E_00`.
use vstd::prelude::*;
use crate::error::{Error, ErrorModel};
use crate::text::{debug_quoted, debug_text, push_char};

verus! {

/// One exact ROM: a four-character game code (`BR5E`) and a revision byte,
/// written `BR5E_00` (the revision as two upper-case hexadecimal digits).
#[derive(Debug, Clone, Copy, PartialEq, Eq, Hash, Structural)]
pub struct RomTarget {
    /// The four code characters as ASCII bytes, the first in the highest byte.
    pub code: u32,
    pub revision: u8,
}

/// A character allowed in a game code: `A`-`Z` or `0`-`9`.
pub open spec fn is_code_char(c: char) -> bool {
    ('A' <= c && c <= 'Z') || ('0' <= c && c <= '9')
}

/// An upper-case hexadecimal digit.
pub open spec fn is_hex_digit(c: char) -> bool {
    ('0' <= c && c <= '9') || ('A' <= c && c <= 'F')
}

pub open spec fn hex_value(c: char) -> int {
    if c <= '9' {
        c as int - 48
    } else {
        c as int - 55
    }
}

pub open spec fn hex_char(d: int) -> char {
    if d < 10 {
        (d + 48) as char
    } else {
        (d + 55) as char
    }
}

/// Code byte `i` (0 to 3, from the left) of a packed game code.
pub open spec fn code_byte(code: u32, i: int) -> int {
    if i == 0 {
        code as int / 0x1000000
    } else if i == 1 {
        (code as int / 0x10000) % 256
    } else if i == 2 {
        (code as int / 0x100) % 256
    } else {
        code as int % 256
    }
}

/// The order of targets: by game code, then by revision.
pub open spec fn target_key(t: RomTarget) -> int {
    t.code as int * 256 + t.revision as int
}

/// A target whose game code is made of code characters, i.e. one that can be written.
pub open spec fn target_valid(t: RomTarget) -> bool {
    forall|i: int| 0 <= i < 4 ==> is_code_char(#[trigger] code_byte(t.code, i) as char)
}

/// How a target is written.
pub open spec fn target_text(t: RomTarget) -> Seq<char> {
    seq![
        code_byte(t.code, 0) as char,
        code_byte(t.code, 1) as char,
        code_byte(t.code, 2) as char,
        code_byte(t.code, 3) as char,
        '_',
        hex_char(t.revision as int / 16),
        hex_char(t.revision as int % 16),
    ]
}

/// Whether `s` has the shape `CCCC_RR`.
pub open spec fn target_shaped(s: Seq<char>) -> bool {
    &&& s.len() == 7
    &&& is_code_char(s[0]) && is_code_char(s[1]) && is_code_char(s[2]) && is_code_char(s[3])
    &&& s[4] == '_'
    &&& is_hex_digit(s[5]) && is_hex_digit(s[6])
}

/// The target written as `s`, which has the shape `CCCC_RR`.
pub open spec fn target_of(s: Seq<char>) -> RomTarget {
    RomTarget {
        code: (s[0] as int * 0x1000000 + s[1] as int * 0x10000 + s[2] as int * 0x100
            + s[3] as int) as u32,
        revision: (hex_value(s[5]) * 16 + hex_value(s[6])) as u8,
    }
}

/// The message for a string that is not a target.
pub open spec fn bad_target_text(s: Seq<char>) -> Seq<char> {
    "rom target: expected a game code and revision like BR5E_00, got "@ + debug_quoted(s)
}

/// What reading `s` as a target gives.
pub open spec fn parse_target(s: Seq<char>) -> Result<RomTarget, ErrorModel> {
    if target_shaped(s) {
        Ok(target_of(s))
    } else {
        Err(ErrorModel::Invalid(bad_target_text(s)))
    }
}

fn code_char(c: char) -> (b: bool)
    ensures
        b == is_code_char(c),
{
    ('A' <= c && c <= 'Z') || ('0' <= c && c <= '9')
}

fn hex_digit(c: char) -> (r: Option<u8>)
    ensures
        r is Some <==> is_hex_digit(c),
        r matches Some(v) ==> v as int == hex_value(c) && v < 16,
{
    if '0' <= c && c <= '9' {
        Some((c as u32 - 48) as u8)
    } else if 'A' <= c && c <= 'F' {
        Some((c as u32 - 55) as u8)
    } else {
        None
    }
}

fn hex_char_of(d: u8) -> (c: char)
    requires
        d < 16,
    ensures
        c == hex_char(d as int),
{
    if d < 10 {
        (48u8 + d) as char
    } else {
        (55u8 + d) as char
    }
}

impl RomTarget {
    /// The position of this target in the order of targets.
    pub fn key(&self) -> (k: u64)
        ensures
            k as int == target_key(*self),
    {
        (self.code as u64) * 256 + (self.revision as u64)
    }

    /// Reads a target written like `BR5E_00`.
    pub fn parse(s: &str) -> (r: Result<RomTarget, Error>)
        ensures
            r matches Ok(t) ==> parse_target(s@) == Ok::<RomTarget, ErrorModel>(t),
            r matches Err(e) ==> parse_target(s@) == Err::<RomTarget, ErrorModel>(e@),
    {
        if s.unicode_len() == 7 {
            let c0 = s.get_char(0);
            let c1 = s.get_char(1);
            let c2 = s.get_char(2);
            let c3 = s.get_char(3);
            if code_char(c0) && code_char(c1) && code_char(c2) && code_char(c3) && s.get_char(4)
                == '_' {
                if let Some(hi) = hex_digit(s.get_char(5)) {
                    if let Some(lo) = hex_digit(s.get_char(6)) {
                        let code: u32 = (c0 as u32) * 0x1000000 + (c1 as u32) * 0x10000 + (c2
                            as u32) * 0x100 + (c3 as u32);
                        return Ok(RomTarget { code, revision: hi * 16 + lo });
                    }
                }
            }
        }
        let mut m = String::from_str(
            "rom target: expected a game code and revision like BR5E_00, got ",
        );
        m.append(debug_text(s).as_str());
        Err(Error::Invalid(m))
    }

    /// The target written out, e.g. `BR5E_00`.
    pub fn to_text(&self) -> (r: String)
        ensures
            r@ == target_text(*self),
    {
        let c0 = self.code / 0x1000000;
        let c1 = (self.code / 0x10000) % 256;
        let c2 = (self.code / 0x100) % 256;
        let c3 = self.code % 256;
        let mut r = String::new();
        push_char(&mut r, (c0 as u8) as char);
        push_char(&mut r, (c1 as u8) as char);
        push_char(&mut r, (c2 as u8) as char);
        push_char(&mut r, (c3 as u8) as char);
        push_char(&mut r, '_');
        push_char(&mut r, hex_char_of(self.revision / 16));
        push_char(&mut r, hex_char_of(self.revision % 16));
        proof {
            assert(r@ =~= target_text(*self));
        }
        r
    }
}

/// A packed game code is the sum of its four bytes, each in its place.
proof fn lemma_code_bytes(code: u32)
    ensures
        0 <= code_byte(code, 0) < 256,
        0 <= code_byte(code, 1) < 256,
        0 <= code_byte(code, 2) < 256,
        0 <= code_byte(code, 3) < 256,
        code as int == code_byte(code, 0) * 0x1000000 + code_byte(code, 1) * 0x10000
            + code_byte(code, 2) * 0x100 + code_byte(code, 3),
{
    let c = code as int;
    assert(c / 0x1000000 < 256);
    assert(c == (c / 0x100) * 0x100 + c % 0x100);
    assert(c / 0x100 == (c / 0x10000) * 0x100 + (c / 0x100) % 0x100) by {
        vstd::arithmetic::div_mod::lemma_div_denominator(c, 0x100, 0x100);
    }
    assert(c / 0x10000 == (c / 0x1000000) * 0x100 + (c / 0x10000) % 0x100) by {
        vstd::arithmetic::div_mod::lemma_div_denominator(c, 0x10000, 0x100);
    }
}

/// Writing a valid target and reading the text back gives the same target.
pub proof fn lemma_target_round_trip(t: RomTarget)
    requires
        target_valid(t),
    ensures
        parse_target(target_text(t)) == Ok::<RomTarget, ErrorModel>(t),
{
    let s = target_text(t);
    lemma_code_bytes(t.code);
    assert(is_code_char(code_byte(t.code, 0) as char));
    assert(is_code_char(code_byte(t.code, 1) as char));
    assert(is_code_char(code_byte(t.code, 2) as char));
    assert(is_code_char(code_byte(t.code, 3) as char));
    assert(target_shaped(s));
    assert(target_of(s) == t);
}

/// Whatever reads as a target is valid, and is written back as exactly the
/// text it was read from.
pub proof fn lemma_parse_target_then_write(s: Seq<char>)
    requires
        parse_target(s) is Ok,
    ensures
        target_valid(parse_target(s)->Ok_0),
        target_text(parse_target(s)->Ok_0) == s,
{
    let t = target_of(s);
    lemma_code_bytes(t.code);
    let c = t.code as int;
    let b0 = s[0] as int;
    let b1 = s[1] as int;
    let b2 = s[2] as int;
    let b3 = s[3] as int;
    assert(c == b0 * 0x1000000 + b1 * 0x10000 + b2 * 0x100 + b3);
    assert(code_byte(t.code, 3) == b3);
    assert(code_byte(t.code, 2) == b2);
    assert(code_byte(t.code, 1) == b1);
    assert(code_byte(t.code, 0) == b0);
    assert forall|i: int| 0 <= i < 4 implies is_code_char(#[trigger] code_byte(t.code, i) as char) by {
    }
    assert(target_text(t) =~= s);
}

} // verus!
