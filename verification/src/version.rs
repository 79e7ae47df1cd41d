//! A semantic version, as the manifest's `version` key holds it.
use vstd::prelude::*;
use crate::text::{decimal, push_char, push_decimal};

verus! {

/// A semantic version `MAJOR.MINOR.PATCH[-PRE][+BUILD]`: the parts that a
/// `semver::Version` holds, with its pre-release and build identifiers as
/// their text.
#[derive(Debug, Clone, PartialEq, Eq)]
pub struct Version {
    pub major: u64,
    pub minor: u64,
    pub patch: u64,
    /// Pre-release identifiers without the leading `-`; empty when there
    /// are none. A version read from text holds valid ones (see
    /// [`version_valid`]).
    pub pre: String,
    /// Build metadata without the leading `+`; empty when there is none.
    /// A version read from text holds valid identifiers (see
    /// [`version_valid`]).
    pub build: String,
}

pub open spec fn is_digit(c: char) -> bool {
    '0' <= c && c <= '9'
}

/// A character allowed in a semver identifier: an ASCII letter or digit, or `-`.
pub open spec fn is_identifier_char(c: char) -> bool {
    is_digit(c) || ('A' <= c && c <= 'Z') || ('a' <= c && c <= 'z') || c == '-'
}

/// Nothing, or non-empty identifiers separated by single dots.
pub open spec fn dotted_identifiers(s: Seq<char>) -> bool {
    s.len() == 0 || {
        &&& forall|i: int| 0 <= i < s.len() ==> is_identifier_char(#[trigger] s[i]) || s[i] == '.'
        &&& s[0] != '.'
        &&& s[s.len() - 1] != '.'
        &&& forall|i: int| 0 <= i < s.len() - 1 ==> !(#[trigger] s[i] == '.' && s[i + 1] == '.')
    }
}

/// Whether `s[i..e]` is a whole identifier of more than one digit that
/// starts with `0`.
pub open spec fn leading_zero_at(s: Seq<char>, i: int, e: int) -> bool {
    &&& 0 <= i && i + 1 < e && e <= s.len()
    &&& (i == 0 || s[i - 1] == '.')
    &&& (e == s.len() || s[e] == '.')
    &&& s[i] == '0'
    &&& forall|k: int| i <= k < e ==> is_digit(#[trigger] s[k])
}

/// Whether some numeric identifier of `s` has a leading zero.
pub open spec fn has_leading_zero(s: Seq<char>) -> bool {
    exists|i: int, e: int| leading_zero_at(s, i, e)
}

/// What a semver version requires of its text parts: pre-release
/// identifiers without leading zeros in numeric ones, and build identifiers.
pub open spec fn version_valid(v: Version) -> bool {
    dotted_identifiers(v.pre@) && !has_leading_zero(v.pre@) && dotted_identifiers(v.build@)
}

/// Checks `s` as dotted identifiers; with `numeric`, also refuses a numeric
/// identifier with a leading zero.
fn identifiers_ok(s: &str, numeric: bool) -> (b: bool)
    ensures
        b == (dotted_identifiers(s@) && (numeric ==> !has_leading_zero(s@))),
{
    let n = s.unicode_len();
    if n == 0 {
        assert(!has_leading_zero(s@));
        return true;
    }
    let ghost t = s@;
    let mut k: usize = 0;
    let mut start: usize = 0;
    let mut digits = true;
    while k < n
        invariant
            n == t.len(),
            t == s@,
            n > 0,
            start <= k <= n,
            start == 0 || t[start - 1] == '.',
            forall|j: int| start <= j < k ==> t[j] != '.',
            digits == (forall|j: int| start <= j < k ==> is_digit(#[trigger] t[j])),
            forall|j: int| 0 <= j < k ==> is_identifier_char(#[trigger] t[j]) || t[j] == '.',
            k > 0 ==> t[0] != '.',
            forall|j: int| 0 <= j < k - 1 ==> !(#[trigger] t[j] == '.' && t[j + 1] == '.'),
            numeric ==> forall|i: int, e: int| e < k ==> !leading_zero_at(t, i, e),
        decreases n - k,
    {
        let c = s.get_char(k);
        if c == '.' {
            if k == start {
                assert(!dotted_identifiers(t)) by {
                    if k > 0 {
                        assert(t[k - 1] == '.' && t[k as int] == '.');
                    }
                }
                return false;
            }
            if numeric && k - start > 1 && digits && s.get_char(start) == '0' {
                assert(leading_zero_at(t, start as int, k as int));
                return false;
            }
            proof {
                if numeric {
                    assert forall|i: int, e: int| e < k + 1 implies !leading_zero_at(t, i, e) by {
                        if e == k && leading_zero_at(t, i, e) {
                            if i < start {
                                assert(is_digit(t[start - 1]));
                            } else if i > start {
                                assert(t[i - 1] == '.');
                            }
                        }
                    }
                }
                assert forall|j: int| 0 <= j < k + 1 - 1 implies !(#[trigger] t[j] == '.' && t[j + 1]
                    == '.') by {
                    if j == k - 1 && t[j] == '.' {
                        assert(start > j);
                    }
                }
            }
            start = k + 1;
            digits = true;
        } else if ('0' <= c && c <= '9') || ('A' <= c && c <= 'Z') || ('a' <= c && c <= 'z') || c
            == '-' {
            digits = digits && '0' <= c && c <= '9';
            proof {
                if numeric {
                    assert forall|i: int, e: int| e < k + 1 implies !leading_zero_at(t, i, e) by {
                        if e == k {
                            assert(t[e] != '.');
                        }
                    }
                }
            }
        } else {
            return false;
        }
        k = k + 1;
    }
    if start == n {
        assert(t[n - 1] == '.');
        return false;
    }
    if numeric && n - start > 1 && digits && s.get_char(start) == '0' {
        assert(leading_zero_at(t, start as int, n as int));
        return false;
    }
    proof {
        if numeric {
            assert forall|i: int, e: int| !leading_zero_at(t, i, e) by {
                if e == n && leading_zero_at(t, i, e) {
                    if i < start {
                        assert(is_digit(t[start - 1]));
                    } else if i > start {
                        assert(t[i - 1] == '.');
                    }
                }
            }
        }
    }
    true
}

/// `-PRE` when there is a pre-release, nothing otherwise; likewise `+BUILD`.
pub open spec fn marked(mark: char, part: Seq<char>) -> Seq<char> {
    if part.len() == 0 {
        Seq::empty()
    } else {
        seq![mark] + part
    }
}

/// The text of a version: how `semver::Version` displays it.
pub open spec fn version_text(v: Version) -> Seq<char> {
    decimal(v.major as nat) + seq!['.'] + decimal(v.minor as nat) + seq!['.'] + decimal(
        v.patch as nat,
    ) + marked('-', v.pre@) + marked('+', v.build@)
}

/// The text of a version is `MAJOR.MINOR.PATCH`, then `-PRE` exactly when
/// the pre-release is non-empty, then `+BUILD` exactly when the build
/// metadata is non-empty.
pub proof fn lemma_version_text_parts(v: Version)
    ensures
        version_text(v) == decimal(v.major as nat) + seq!['.'] + decimal(v.minor as nat) + seq![
            '.',
        ] + decimal(v.patch as nat) + (if v.pre@.len() > 0 {
            seq!['-'] + v.pre@
        } else {
            Seq::empty()
        }) + (if v.build@.len() > 0 {
            seq!['+'] + v.build@
        } else {
            Seq::empty()
        }),
{
}

/// Versions that differ only in build metadata have texts that agree up to
/// the end of the pre-release part; the build part never hides the
/// pre-release.
pub proof fn lemma_version_text_pre_release_independent_of_build(a: Version, b: Version)
    requires
        a.major == b.major,
        a.minor == b.minor,
        a.patch == b.patch,
        a.pre@ == b.pre@,
    ensures
        ({
            let head = decimal(a.major as nat) + seq!['.'] + decimal(a.minor as nat) + seq!['.']
                + decimal(a.patch as nat) + (if a.pre@.len() > 0 {
                seq!['-'] + a.pre@
            } else {
                Seq::empty()
            });
            &&& head.len() <= version_text(a).len()
            &&& head.len() <= version_text(b).len()
            &&& version_text(a).subrange(0, head.len() as int) == head
            &&& version_text(b).subrange(0, head.len() as int) == head
        }),
{
    lemma_version_text_parts(a);
    lemma_version_text_parts(b);
    let head = decimal(a.major as nat) + seq!['.'] + decimal(a.minor as nat) + seq!['.'] + decimal(
        a.patch as nat,
    ) + (if a.pre@.len() > 0 {
        seq!['-'] + a.pre@
    } else {
        Seq::empty()
    });
    let ta = version_text(a);
    let tb = version_text(b);
    assert(ta.subrange(0, head.len() as int) =~= head);
    assert(tb.subrange(0, head.len() as int) =~= head);
}

impl Version {
    /// Whether the pre-release and build parts are valid semver identifiers.
    pub fn is_valid(&self) -> (b: bool)
        ensures
            b == version_valid(*self),
    {
        identifiers_ok(self.pre.as_str(), true) && identifiers_ok(self.build.as_str(), false)
    }

    /// The version written out, e.g. `1.1.0` or `2.0.0-rc.1+build.5`.
    pub fn to_text(&self) -> (r: String)
        ensures
            r@ == version_text(*self),
    {
        let mut r = String::new();
        push_decimal(&mut r, self.major);
        push_char(&mut r, '.');
        push_decimal(&mut r, self.minor);
        push_char(&mut r, '.');
        push_decimal(&mut r, self.patch);
        if self.pre.as_str().unicode_len() > 0 {
            push_char(&mut r, '-');
            r.append(self.pre.as_str());
        }
        if self.build.as_str().unicode_len() > 0 {
            push_char(&mut r, '+');
            r.append(self.build.as_str());
        }
        proof {
            assert(r@ =~= version_text(*self));
        }
        r
    }
}

} // verus!
