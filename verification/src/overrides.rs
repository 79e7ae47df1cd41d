//! Overrides applied on top of a patched ROM's own data.
use vstd::prelude::*;
use crate::text::{decimal, push_decimal};

verus! {

/// Per-ROM settings that a patch changes. Every field is optional; a field
/// that is `None` leaves the ROM's own value in place.
#[derive(Debug, PartialEq)]
pub struct Overrides {
    /// The language tag of the patched text, e.g. `en-US`.
    pub language: Option<String>,
    /// The characters of the patched text encoding, in code order.
    pub charset: Option<Vec<String>>,
    /// Inclusive `[start, end]` ranges of chip IDs legal in netplay.
    pub legal_chip_ranges: Option<Vec<[usize; 2]>>,
}

/// What an [`Overrides`] holds, with its strings as sequences of characters.
pub struct OverridesModel {
    pub language: Option<Seq<char>>,
    pub charset: Option<Seq<Seq<char>>>,
    pub legal_chip_ranges: Option<Seq<[usize; 2]>>,
}

impl View for Overrides {
    type V = OverridesModel;

    open spec fn view(&self) -> OverridesModel {
        OverridesModel {
            language: match self.language {
                Some(l) => Some(l@),
                None => None,
            },
            charset: match self.charset {
                Some(c) => Some(c.deep_view()),
                None => None,
            },
            legal_chip_ranges: match self.legal_chip_ranges {
                Some(r) => Some(r@),
                None => None,
            },
        }
    }
}

/// Overrides that change nothing.
pub open spec fn overrides_empty(o: OverridesModel) -> bool {
    o.language is None && o.charset is None && o.legal_chip_ranges is None
}

/// A range whose start exceeds its end.
pub open spec fn range_reversed(r: [usize; 2]) -> bool {
    r[0] > r[1]
}

/// The index of the first reversed range in `rs`, if any.
pub open spec fn first_reversed(rs: Seq<[usize; 2]>) -> Option<int> {
    if exists|i: int| 0 <= i < rs.len() && range_reversed(#[trigger] rs[i]) {
        let i = choose|i: int|
            0 <= i < rs.len() && range_reversed(rs[i]) && forall|j: int|
                0 <= j < i ==> !range_reversed(#[trigger] rs[j]);
        Some(i)
    } else {
        None
    }
}

/// The message for a reversed range.
pub open spec fn reversed_range_text(r: [usize; 2]) -> Seq<char> {
    "legal_chip_ranges: range start "@ + decimal(r[0] as nat) + " exceeds end "@ + decimal(
        r[1] as nat,
    )
}

/// A reversed range is found at the first index where one stands.
proof fn lemma_first_reversed(rs: Seq<[usize; 2]>, i: int)
    requires
        0 <= i < rs.len(),
        range_reversed(rs[i]),
        forall|j: int| 0 <= j < i ==> !range_reversed(#[trigger] rs[j]),
    ensures
        first_reversed(rs) == Some(i),
{
    let k = choose|k: int|
        0 <= k < rs.len() && range_reversed(rs[k]) && forall|j: int|
            0 <= j < k ==> !range_reversed(#[trigger] rs[j]);
    assert(0 <= k < rs.len() && range_reversed(rs[k]) && forall|j: int|
        0 <= j < k ==> !range_reversed(#[trigger] rs[j]));
    if k < i {
        assert(!range_reversed(rs[k]));
    }
    if i < k {
        assert(!range_reversed(rs[i]));
    }
}

/// Checks that no range of chip IDs runs backwards. On failure the message
/// names the first such range.
pub fn check_legal_chip_ranges(ranges: &Vec<[usize; 2]>) -> (r: Result<(), String>)
    ensures
        r is Ok <==> first_reversed(ranges@) is None,
        r matches Err(m) ==> m@ == reversed_range_text(ranges@[first_reversed(ranges@)->0]),
{
    let n = ranges.len();
    let mut i: usize = 0;
    while i < n
        invariant
            n == ranges@.len(),
            i <= n,
            forall|j: int| 0 <= j < i ==> !range_reversed(#[trigger] ranges@[j]),
        decreases n - i,
    {
        let r = ranges[i];
        if r[0] > r[1] {
            proof {
                lemma_first_reversed(ranges@, i as int);
            }
            let mut m = String::from_str("legal_chip_ranges: range start ");
            push_decimal(&mut m, r[0] as u64);
            m.append(" exceeds end ");
            push_decimal(&mut m, r[1] as u64);
            return Err(m);
        }
        i = i + 1;
    }
    Ok(())
}

fn clone_strings(v: &Vec<String>) -> (r: Vec<String>)
    ensures
        r.deep_view() =~= v.deep_view(),
{
    let mut r: Vec<String> = Vec::new();
    let n = v.len();
    let mut i: usize = 0;
    while i < n
        invariant
            n == v@.len(),
            i <= n,
            r@.len() == i,
            forall|j: int| 0 <= j < i ==> (#[trigger] r@[j])@ == v@[j]@,
        decreases n - i,
    {
        r.push(v[i].clone());
        i = i + 1;
    }
    r
}

pub(crate) fn copy_ranges(v: &Vec<[usize; 2]>) -> (r: Vec<[usize; 2]>)
    ensures
        r@ =~= v@,
{
    let mut r: Vec<[usize; 2]> = Vec::new();
    let n = v.len();
    let mut i: usize = 0;
    while i < n
        invariant
            n == v@.len(),
            i <= n,
            r@ =~= v@.subrange(0, i as int),
        decreases n - i,
    {
        r.push(v[i]);
        i = i + 1;
    }
    r
}

impl Overrides {
    /// Overrides that change nothing.
    pub fn new() -> (r: Overrides)
        ensures
            overrides_empty(r@),
    {
        Overrides { language: None, charset: None, legal_chip_ranges: None }
    }

    /// Whether these overrides change nothing.
    pub fn is_empty(&self) -> (r: bool)
        ensures
            r == overrides_empty(self@),
    {
        self.language.is_none() && self.charset.is_none() && self.legal_chip_ranges.is_none()
    }

    /// A copy of these overrides.
    pub fn duplicate(&self) -> (r: Overrides)
        ensures
            r@ == self@,
    {
        let language = match &self.language {
            Some(l) => Some(l.clone()),
            None => None,
        };
        let charset = match &self.charset {
            Some(c) => Some(clone_strings(c)),
            None => None,
        };
        let legal_chip_ranges = match &self.legal_chip_ranges {
            Some(rs) => Some(copy_ranges(rs)),
            None => None,
        };
        Overrides { language, charset, legal_chip_ranges }
    }
}

impl Clone for Overrides {
    fn clone(&self) -> (r: Overrides)
        ensures
            r@ == self@,
    {
        self.duplicate()
    }
}

} // verus!
