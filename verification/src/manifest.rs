//! `manifest.toml`: the one metadata file inside a `.tangopatch`.
//!
//! A package is exactly one version of one patch, so the manifest is flat:
//! nothing in it is repeated per version. Which games a package patches is
//! read off the archive's `roms/` entries; target names appear in the
//! manifest only when an override must differ between those ROMs.
pub mod compat;

use vstd::prelude::*;
use std::borrow::Cow;
use crate::error::{Error, ErrorModel};
use crate::name::{name_error, name_error_text, is_valid_name, validate_name};
use crate::overrides::{
    Overrides, OverridesModel, check_legal_chip_ranges, first_reversed, range_reversed,
    reversed_range_text,
};
use crate::target::{RomTarget, target_key, target_text};
use crate::text::{
    char_is_whitespace, debug_quoted, debug_text, has_prefix, is_whitespace, push_char,
    starts_with, str_eq,
};
use crate::version::{Version, version_text};

verus! {

/// The manifest format this crate writes and reads. Legacy format 1 is
/// read by [`crate::manifest::compat`], which upgrades it.
pub const FORMAT: u32 = 2;

/// The file extension of a patch package.
pub const EXTENSION: &'static str = "tangopatch";

/// One version of one patch.
#[derive(Debug, Clone, PartialEq)]
pub struct Manifest {
    /// Manifest format version; only [`FORMAT`] is accepted.
    pub format: u32,
    /// Stable identifier, unique within a repo; also the on-disk and URL stem.
    pub name: String,
    pub version: Version,
    /// Human-readable name shown in the UI.
    pub title: String,
    /// `Display Name <email@address>` strings, kept raw.
    pub authors: Vec<String>,
    /// SPDX identifier; `None` means unlicensed.
    pub license: Option<String>,
    /// URL to the patch's source.
    pub source: Option<String>,
    /// Who this version can netplay against.
    pub netplay: Compatibility,
    /// Overrides applied on top of each exact patched ROM's own data, one
    /// entry per target, in the order of targets.
    pub rom_overrides: Vec<(RomTarget, Overrides)>,
}

/// Entries ordered strictly by target, so that no target occurs twice.
pub open spec fn targets_sorted(v: Seq<(RomTarget, Overrides)>) -> bool {
    forall|i: int, j: int|
        0 <= i < j < v.len() ==> target_key(#[trigger] v[i].0) < target_key(#[trigger] v[j].0)
}

/// Whether the entries hold `o` for target `t`.
pub open spec fn has_override(v: Seq<(RomTarget, Overrides)>, t: RomTarget, o: OverridesModel) -> bool {
    exists|i: int| 0 <= i < v.len() && (#[trigger] v[i]).0 == t && v[i].1@ == o
}

/// Entries in target order hold at most one set of overrides per target.
pub proof fn lemma_one_entry_per_target(
    v: Seq<(RomTarget, Overrides)>,
    t: RomTarget,
    a: OverridesModel,
    b: OverridesModel,
)
    requires
        targets_sorted(v),
        has_override(v, t, a),
        has_override(v, t, b),
    ensures
        a == b,
{
    let i = choose|i: int| 0 <= i < v.len() && (#[trigger] v[i]).0 == t && v[i].1@ == a;
    let j = choose|j: int| 0 <= j < v.len() && (#[trigger] v[j]).0 == t && v[j].1@ == b;
    if i < j {
        assert(target_key(v[i].0) < target_key(v[j].0));
    } else if j < i {
        assert(target_key(v[j].0) < target_key(v[i].0));
    }
}

/// Whether the entries hold anything for target `t`.
pub open spec fn has_target(v: Seq<(RomTarget, Overrides)>, t: RomTarget) -> bool {
    exists|i: int| 0 <= i < v.len() && (#[trigger] v[i]).0 == t
}

/// A title made of white space only (or of nothing).
pub open spec fn title_blank(t: Seq<char>) -> bool {
    forall|i: int| 0 <= i < t.len() ==> char_is_whitespace(#[trigger] t[i])
}

/// The first rule, in the order checked, that a manifest with this name,
/// title and netplay setting breaks.
pub open spec fn manifest_error(
    name: Seq<char>,
    title: Seq<char>,
    netplay: CompatibilityModel,
) -> Option<ErrorModel> {
    if name_error(name) is Some {
        Some(ErrorModel::Invalid("name: "@ + name_error_text(name_error(name)->0)))
    } else if title_blank(title) {
        Some(ErrorModel::Invalid("title: must not be empty"@))
    } else {
        match netplay {
            CompatibilityModel::Group(g) => match name_error(g) {
                Some(e) => Some(ErrorModel::Invalid("netplay group: "@ + name_error_text(e))),
                None => None,
            },
            _ => None,
        }
    }
}

/// The chip ranges that overrides list (none when they list none).
pub open spec fn entry_ranges(o: OverridesModel) -> Seq<[usize; 2]> {
    match o.legal_chip_ranges {
        Some(r) => r,
        None => Seq::empty(),
    }
}

/// Whether entry `i` lists a reversed chip range.
pub open spec fn override_reversed(v: Seq<(RomTarget, Overrides)>, i: int) -> bool {
    first_reversed(entry_ranges(v[i].1@)) is Some
}

/// Whether entry `i` is the first that lists a reversed chip range.
pub open spec fn is_first_reversed_override(v: Seq<(RomTarget, Overrides)>, i: int) -> bool {
    &&& 0 <= i < v.len()
    &&& override_reversed(v, i)
    &&& forall|j: int| 0 <= j < i ==> !override_reversed(v, j)
}

/// The index of the first entry that lists a reversed chip range, if any.
#[verifier::opaque]
pub open spec fn first_reversed_override(v: Seq<(RomTarget, Overrides)>) -> Option<int> {
    if exists|i: int| is_first_reversed_override(v, i) {
        Some(choose|i: int| is_first_reversed_override(v, i))
    } else {
        None
    }
}

/// Some entry lists a reversed range, so some entry is the first to.
proof fn lemma_first_reversed_override_exists(v: Seq<(RomTarget, Overrides)>, i: int)
    requires
        0 <= i < v.len(),
        override_reversed(v, i),
    ensures
        exists|k: int| is_first_reversed_override(v, k),
    decreases i,
{
    if exists|j: int| 0 <= j < i && override_reversed(v, j) {
        let j = choose|j: int| 0 <= j < i && override_reversed(v, j);
        lemma_first_reversed_override_exists(v, j);
    } else {
        assert(is_first_reversed_override(v, i));
    }
}

/// A manifest that the current reader accepts lists no chip range whose
/// start exceeds its end, in any entry, whatever else that entry sets; and
/// it lists each target once, in target order.
pub proof fn lemma_accepted_ranges_in_order(m: Manifest)
    requires
        manifest_accepted(m),
    ensures
        forall|i: int, j: int|
            0 <= i < m.rom_overrides@.len() && m.rom_overrides@[i].1.legal_chip_ranges is Some
                && 0 <= j < (#[trigger] m.rom_overrides@[i].1.legal_chip_ranges->Some_0@).len()
                ==> #[trigger] m.rom_overrides@[i].1.legal_chip_ranges->Some_0@[j][0]
                <= m.rom_overrides@[i].1.legal_chip_ranges->Some_0@[j][1],
        forall|a: int, b: int|
            0 <= a < b < m.rom_overrides@.len() ==> (#[trigger] m.rom_overrides@[a]).0
                != (#[trigger] m.rom_overrides@[b]).0,
{
    let v = m.rom_overrides@;
    reveal(first_reversed_override);
    assert forall|i: int, j: int|
        0 <= i < v.len() && v[i].1.legal_chip_ranges is Some && 0 <= j < (
        #[trigger] v[i].1.legal_chip_ranges->Some_0@).len() implies #[trigger] v[i].1.legal_chip_ranges->Some_0@[j][0]
        <= v[i].1.legal_chip_ranges->Some_0@[j][1] by {
        let rs = v[i].1.legal_chip_ranges->Some_0@;
        assert(entry_ranges(v[i].1@) == rs);
        if rs[j][0] > rs[j][1] {
            assert(range_reversed(rs[j]));
            assert(override_reversed(v, i));
            lemma_first_reversed_override_exists(v, i);
        }
    }
    assert forall|a: int, b: int| 0 <= a < b < v.len() implies (#[trigger] v[a]).0 != (
    #[trigger] v[b]).0 by {
        assert(target_key(v[a].0) < target_key(v[b].0));
    }
}

/// The message for entries that are not in strict target order.
pub open spec fn unordered_targets_text() -> Seq<char> {
    "rom_overrides: each target must be listed once, in target order"@
}

/// The first rule that a manifest's per-target overrides break: entries in
/// strict target order, then no reversed chip range.
pub open spec fn overrides_error(v: Seq<(RomTarget, Overrides)>) -> Option<ErrorModel> {
    if !targets_sorted(v) {
        Some(ErrorModel::Invalid(unordered_targets_text()))
    } else {
        match first_reversed_override(v) {
            Some(i) => Some(
                ErrorModel::Invalid(
                    "rom_overrides."@ + target_text(v[i].0) + seq!['.'] + reversed_range_text(
                        entry_ranges(v[i].1@)[first_reversed(entry_ranges(v[i].1@))->0],
                    ),
                ),
            ),
            None => None,
        }
    }
}

/// The first rule, in the order checked, that a manifest breaks: its name,
/// title and netplay group, then its per-target overrides.
pub open spec fn rules_error(m: Manifest) -> Option<ErrorModel> {
    match manifest_error(m.name@, m.title@, m.netplay@) {
        Some(e) => Some(e),
        None => overrides_error(m.rom_overrides@),
    }
}

/// What the current reader refuses in a decoded manifest: a format other
/// than [`FORMAT`], then any broken rule.
pub open spec fn check_error(m: Manifest) -> Option<ErrorModel> {
    if m.format != FORMAT {
        Some(ErrorModel::UnsupportedFormat(m.format))
    } else {
        rules_error(m)
    }
}

/// A complete, ordinary current-format manifest.
pub open spec fn manifest_accepted(m: Manifest) -> bool {
    check_error(m) is None
}

proof fn lemma_first_reversed_override(v: Seq<(RomTarget, Overrides)>, i: int)
    requires
        is_first_reversed_override(v, i),
    ensures
        first_reversed_override(v) == Some(i),
{
    reveal(first_reversed_override);
    let k = choose|k: int| is_first_reversed_override(v, k);
    assert(is_first_reversed_override(v, k));
    if k < i {
        assert(!override_reversed(v, k));
    } else if i < k {
        assert(!override_reversed(v, i));
    }
}

/// No entry lists a reversed chip range when none is the first to.
pub(crate) proof fn lemma_no_reversed_override(v: Seq<(RomTarget, Overrides)>)
    requires
        forall|k: int| 0 <= k < v.len() ==> !override_reversed(v, k),
    ensures
        first_reversed_override(v) is None,
{
    reveal(first_reversed_override);
    if exists|i: int| is_first_reversed_override(v, i) {
        let i = choose|i: int| is_first_reversed_override(v, i);
        assert(!override_reversed(v, i));
    }
}

/// Checks that the entries are in strict target order and list no reversed
/// chip range.
fn check_overrides(v: &Vec<(RomTarget, Overrides)>) -> (r: Result<(), Error>)
    ensures
        r is Ok <==> overrides_error(v@) is None,
        r matches Err(e) ==> overrides_error(v@) == Some(e@),
{
    let n = v.len();
    let mut i: usize = 1;
    while i < n
        invariant
            n == v@.len(),
            1 <= i,
            forall|a: int, b: int|
                0 <= a < b < i && b < n ==> target_key(#[trigger] v@[a].0) < target_key(
                    #[trigger] v@[b].0,
                ),
        decreases n - i,
    {
        if v[i - 1].0.key() >= v[i].0.key() {
            assert(!targets_sorted(v@)) by {
                assert(!(target_key(v@[i - 1].0) < target_key(v@[i as int].0)));
            }
            return Err(Error::Invalid(
                String::from_str("rom_overrides: each target must be listed once, in target order"),
            ));
        }
        proof {
            assert forall|a: int, b: int|
                0 <= a < b < i + 1 && b < n implies target_key(#[trigger] v@[a].0) < target_key(
                #[trigger] v@[b].0) by {
                if b < i {
                } else if a < i - 1 {
                    assert(target_key(v@[a].0) < target_key(v@[i - 1].0));
                }
            }
        }
        i = i + 1;
    }
    assert(targets_sorted(v@)) by {
        assert forall|a: int, b: int| 0 <= a < b < v@.len() implies target_key(
            #[trigger] v@[a].0) < target_key(#[trigger] v@[b].0) by {
            if n > 0 {
                assert(b < i);
            }
        }
    }
    let mut j: usize = 0;
    while j < n
        invariant
            n == v@.len(),
            j <= n,
            targets_sorted(v@),
            forall|k: int| 0 <= k < j ==> !override_reversed(v@, k),
        decreases n - j,
    {
        match &v[j].1.legal_chip_ranges {
            Some(ranges) => match check_legal_chip_ranges(ranges) {
                Ok(()) => {},
                Err(msg) => {
                    proof {
                        lemma_first_reversed_override(v@, j as int);
                    }
                    let mut m = String::from_str("rom_overrides.");
                    m.append(v[j].0.to_text().as_str());
                    push_char(&mut m, '.');
                    m.append(msg.as_str());
                    assert(m@ =~= "rom_overrides."@ + target_text(v@[j as int].0) + seq!['.']
                        + msg@);
                    return Err(Error::Invalid(m));
                },
            },
            None => {
                assert(entry_ranges(v@[j as int].1@) =~= Seq::<[usize; 2]>::empty());
            },
        }
        j = j + 1;
    }
    proof {
        lemma_no_reversed_override(v@);
    }
    Ok(())
}

/// Whether `r` is what the current reader gives for the decoded manifest
/// `d`: a decoding error passes through; a decoded manifest is returned when
/// it is accepted, and otherwise the first thing it breaks is reported.
pub open spec fn read_current(d: Result<Manifest, Error>, r: Result<Manifest, Error>) -> bool {
    match d {
        Err(e) => r == Err::<Manifest, Error>(e),
        Ok(m) => if m.format != FORMAT {
            r matches Err(x) && x@ == ErrorModel::ManifestSyntax(format_mismatch_text())
        } else {
            match rules_error(m) {
                Some(e) => r matches Err(x) && x@ == e,
                None => r == Ok::<Manifest, Error>(m),
            }
        },
    }
}

/// Whether two outcomes are the same, errors compared by what they hold.
pub open spec fn same_outcome(a: Result<Manifest, Error>, b: Result<Manifest, Error>) -> bool {
    match (a, b) {
        (Ok(x), Ok(y)) => x == y,
        (Err(x), Err(y)) => x@ == y@,
        _ => false,
    }
}

/// The current reader's outcome is fixed by what the decoder gave: two
/// readings of the same decoded value have the same outcome.
pub proof fn lemma_read_current_determined(
    d: Result<Manifest, Error>,
    r1: Result<Manifest, Error>,
    r2: Result<Manifest, Error>,
)
    requires
        read_current(d, r1),
        read_current(d, r2),
    ensures
        same_outcome(r1, r2),
{
}

/// After a format key that reads as the current format, the current reader
/// reports an unsupported format only when the decoder itself reported it.
pub proof fn lemma_read_current_unsupported(d: Result<Manifest, Error>, r: Result<Manifest, Error>)
    requires
        read_current(d, r),
        r matches Err(e) && e@ is UnsupportedFormat,
    ensures
        d == r,
{
}

/// The message for a decoded manifest whose `format` is not the one its
/// `format` key was first read as.
pub open spec fn format_mismatch_text() -> Seq<char> {
    "format: the decoded manifest disagrees with its format key"@
}

/// `<name>-<version>`.
pub open spec fn stem_text(m: Manifest) -> Seq<char> {
    m.name@ + seq!['-'] + version_text(m.version)
}

/// Whether `s` is white space only.
fn is_blank(s: &str) -> (r: bool)
    ensures
        r == title_blank(s@),
{
    let n = s.unicode_len();
    let mut i: usize = 0;
    while i < n
        invariant
            n == s@.len(),
            i <= n,
            forall|j: int| 0 <= j < i ==> char_is_whitespace(#[trigger] s@[j]),
        decreases n - i,
    {
        if !is_whitespace(s.get_char(i)) {
            return false;
        }
        i = i + 1;
    }
    true
}

impl Manifest {
    /// Checks the `format` key of a manifest about to be read: only the
    /// current [`FORMAT`] is read as it stands.
    pub fn check_format(format: u32) -> (r: Result<(), Error>)
        ensures
            r is Ok <==> format == FORMAT,
            r matches Err(e) ==> e@ == ErrorModel::UnsupportedFormat(format),
    {
        if format != FORMAT {
            Err(Error::UnsupportedFormat(format))
        } else {
            Ok(())
        }
    }

    /// The rules of a decoded manifest, name, title and netplay group
    /// first, then its per-target overrides.
    fn check_rules(&self) -> (r: Result<(), Error>)
        ensures
            r is Ok <==> rules_error(*self) is None,
            r matches Err(e) ==> rules_error(*self) == Some(e@),
    {
        match self.validate() {
            Ok(()) => {},
            Err(e) => {
                return Err(e);
            },
        }
        check_overrides(&self.rom_overrides)
    }

    /// Reads a manifest of the current format. `probed` is what decoding the
    /// `format` key alone gave; `decode` decodes the whole manifest and is
    /// called only when that format is the current one, so an unsupported
    /// format is reported before anything else is decoded.
    pub fn parse<F: FnOnce() -> Result<Manifest, Error>>(
        probed: Result<u32, Error>,
        decode: F,
    ) -> (r: Result<Manifest, Error>)
        requires
            probed == Ok::<u32, Error>(FORMAT) ==> decode.requires(()),
        ensures
            probed matches Err(e) ==> r == Err::<Manifest, Error>(e),
            probed is Ok && probed->Ok_0 != FORMAT ==> (r matches Err(e) && e@
                == ErrorModel::UnsupportedFormat(probed->Ok_0)),
            probed == Ok::<u32, Error>(FORMAT) ==> exists|d: Result<Manifest, Error>|
                #[trigger] decode.ensures((), d) && read_current(d, r),
            r matches Ok(m) ==> manifest_accepted(m),
    {
        let format = match probed {
            Ok(f) => f,
            Err(e) => {
                return Err(e);
            },
        };
        match Manifest::check_format(format) {
            Ok(()) => {},
            Err(e) => {
                return Err(e);
            },
        }
        let decoded = decode();
        let ghost d = decoded;
        let r = match decoded {
            Err(e) => Err(e),
            Ok(m) => if m.format != FORMAT {
                Err(
                    Error::ManifestSyntax(
                        String::from_str("format: the decoded manifest disagrees with its format key"),
                    ),
                )
            } else {
                match m.check_rules() {
                    Ok(()) => Ok(m),
                    Err(e) => Err(e),
                }
            },
        };
        assert(decode.ensures((), d) && read_current(d, r));
        r
    }

    /// Checks a whole decoded manifest: its format, its name, title and
    /// netplay group, then its per-target overrides (listed once each, in
    /// target order, with no reversed chip range).
    pub fn check(&self) -> (r: Result<(), Error>)
        ensures
            r is Ok <==> manifest_accepted(*self),
            r matches Err(e) ==> check_error(*self) == Some(e@),
    {
        match Manifest::check_format(self.format) {
            Ok(()) => {},
            Err(e) => {
                return Err(e);
            },
        }
        self.check_rules()
    }

    /// Checks the rules a decoded manifest must keep: a valid name, a
    /// title that is not blank, and a valid netplay group name.
    pub fn validate(&self) -> (r: Result<(), Error>)
        ensures
            r is Ok <==> manifest_error(self.name@, self.title@, self.netplay@) is None,
            r matches Err(e) ==> manifest_error(self.name@, self.title@, self.netplay@) == Some(
                e@,
            ),
    {
        match validate_name(self.name.as_str()) {
            Ok(()) => {},
            Err(e) => {
                let mut m = String::from_str("name: ");
                m.append(e.message().as_str());
                return Err(Error::Invalid(m));
            },
        }
        if is_blank(self.title.as_str()) {
            return Err(Error::Invalid(String::from_str("title: must not be empty")));
        }
        if let Compatibility::Group(group) = &self.netplay {
            match validate_name(group.as_str()) {
                Ok(()) => {},
                Err(e) => {
                    let mut m = String::from_str("netplay group: ");
                    m.append(e.message().as_str());
                    return Err(Error::Invalid(m));
                },
            }
        }
        Ok(())
    }

    /// `<name>-<version>`: the package's file stem and index key.
    pub fn stem(&self) -> (r: String)
        ensures
            r@ == stem_text(*self),
    {
        let mut r = self.name.clone();
        push_char(&mut r, '-');
        r.append(self.version.to_text().as_str());
        r
    }

    /// `<name>-<version>.tangopatch`.
    pub fn file_name(&self) -> (r: String)
        ensures
            r@ == stem_text(*self) + seq!['.'] + EXTENSION@,
    {
        let mut r = self.stem();
        push_char(&mut r, '.');
        r.append(EXTENSION);
        r
    }

    /// The overrides for one exact target, if the manifest has any.
    pub fn rom_override(&self, target: &RomTarget) -> (r: Option<&Overrides>)
        ensures
            r is Some <==> has_target(self.rom_overrides@, *target),
            r matches Some(o) ==> has_override(self.rom_overrides@, *target, o@),
    {
        let n = self.rom_overrides.len();
        let mut i: usize = 0;
        while i < n
            invariant
                n == self.rom_overrides@.len(),
                i <= n,
                forall|j: int| 0 <= j < i ==> (#[trigger] self.rom_overrides@[j]).0 != *target,
            decreases n - i,
        {
            if self.rom_overrides[i].0 == *target {
                assert(self.rom_overrides@[i as int].0 == *target);
                return Some(&self.rom_overrides[i].1);
            }
            i = i + 1;
        }
        None
    }
}

/// Who a patch version may netplay against.
///
/// Written as a single string, so there is exactly one way to write each
/// case: `"isolated"` (only the identical patch at the identical version;
/// the default), `"vanilla"` (the unpatched game, and any other `vanilla`
/// patch for it) and `"group:NAME"` (anything else declaring the same group).
#[derive(Debug, Clone, PartialEq, Eq)]
pub enum Compatibility {
    /// This exact `(name, version)` and nothing else.
    Isolated,
    /// Cosmetic-only: interchangeable with the unpatched game.
    Vanilla,
    /// A named group, opted into deliberately.
    Group(String),
}

/// What a [`Compatibility`] holds, with the group name as characters.
pub enum CompatibilityModel {
    Isolated,
    Vanilla,
    Group(Seq<char>),
}

impl View for Compatibility {
    type V = CompatibilityModel;

    open spec fn view(&self) -> CompatibilityModel {
        match self {
            Compatibility::Isolated => CompatibilityModel::Isolated,
            Compatibility::Vanilla => CompatibilityModel::Vanilla,
            Compatibility::Group(g) => CompatibilityModel::Group(g@),
        }
    }
}

/// The prefix that marks a named group.
pub open spec fn group_prefix() -> Seq<char> {
    "group:"@
}

/// The one string that writes `c`.
pub open spec fn compatibility_text(c: CompatibilityModel) -> Seq<char> {
    match c {
        CompatibilityModel::Isolated => "isolated"@,
        CompatibilityModel::Vanilla => "vanilla"@,
        CompatibilityModel::Group(g) => group_prefix() + g,
    }
}

/// A compatibility that can be written and read back: a group's name must be
/// a valid name.
pub open spec fn compatibility_valid(c: CompatibilityModel) -> bool {
    match c {
        CompatibilityModel::Group(g) => is_valid_name(g),
        _ => true,
    }
}

/// The message for a string that names no compatibility.
pub open spec fn unknown_netplay_text(s: Seq<char>) -> Seq<char> {
    "netplay: expected \"isolated\", \"vanilla\", or \"group:NAME\", got "@ + debug_quoted(s)
}

/// What reading `s` as a compatibility gives.
pub open spec fn parse_compatibility(s: Seq<char>) -> Result<CompatibilityModel, ErrorModel> {
    if has_prefix(s, group_prefix()) {
        let g = s.subrange(group_prefix().len() as int, s.len() as int);
        match name_error(g) {
            Some(e) => Err(ErrorModel::Invalid("netplay group: "@ + name_error_text(e))),
            None => Ok(CompatibilityModel::Group(g)),
        }
    } else if s == "isolated"@ {
        Ok(CompatibilityModel::Isolated)
    } else if s == "vanilla"@ {
        Ok(CompatibilityModel::Vanilla)
    } else {
        Err(ErrorModel::Invalid(unknown_netplay_text(s)))
    }
}

impl Compatibility {
    /// Whether this is the default, [`Compatibility::Isolated`].
    pub fn is_default(&self) -> (r: bool)
        ensures
            r == (self@ == CompatibilityModel::Isolated),
    {
        match self {
            Compatibility::Isolated => true,
            _ => false,
        }
    }

    /// The one string that writes this compatibility.
    pub fn as_str(&self) -> (r: Cow<'static, str>)
        ensures
            r@ == compatibility_text(self@),
    {
        match self {
            Compatibility::Isolated => Cow::Borrowed("isolated"),
            Compatibility::Vanilla => Cow::Borrowed("vanilla"),
            Compatibility::Group(g) => {
                let mut s = String::from_str("group:");
                s.append(g.as_str());
                Cow::Owned(s)
            },
        }
    }

    /// Reads a compatibility from its string.
    pub fn parse(s: &str) -> (r: Result<Compatibility, Error>)
        ensures
            r matches Ok(c) ==> parse_compatibility(s@) == Ok::<CompatibilityModel, ErrorModel>(c@),
            r matches Err(e) ==> parse_compatibility(s@) == Err::<CompatibilityModel, ErrorModel>(e@),
    {
        proof {
            reveal_strlit("group:");
        }
        if starts_with(s, "group:") {
            let len = s.unicode_len();
            let group = s.substring_char(6, len);
            return match validate_name(group) {
                Ok(()) => Ok(Compatibility::Group(group.to_owned())),
                Err(e) => {
                    let mut m = String::from_str("netplay group: ");
                    m.append(e.message().as_str());
                    Err(Error::Invalid(m))
                },
            };
        }
        if str_eq(s, "isolated") {
            Ok(Compatibility::Isolated)
        } else if str_eq(s, "vanilla") {
            Ok(Compatibility::Vanilla)
        } else {
            let mut m = String::from_str(
                "netplay: expected \"isolated\", \"vanilla\", or \"group:NAME\", got ",
            );
            m.append(debug_text(s).as_str());
            Err(Error::Invalid(m))
        }
    }
}

impl Default for Compatibility {
    /// [`Compatibility::Isolated`]: the conservative choice, since a
    /// gameplay-affecting patch that silently claimed broader compatibility
    /// would desync rather than fail to match.
    fn default() -> (r: Compatibility)
        ensures
            r@ == CompatibilityModel::Isolated,
    {
        Compatibility::Isolated
    }
}

/// Writing a valid compatibility and reading the string back gives the same
/// compatibility.
pub proof fn lemma_compatibility_round_trip(c: CompatibilityModel)
    requires
        compatibility_valid(c),
    ensures
        parse_compatibility(compatibility_text(c)) == Ok::<CompatibilityModel, ErrorModel>(c),
{
    reveal_strlit("group:");
    reveal_strlit("isolated");
    reveal_strlit("vanilla");
    match c {
        CompatibilityModel::Isolated => {
            assert(!has_prefix("isolated"@, group_prefix())) by {
                assert("isolated"@.subrange(0, 6)[0] != group_prefix()[0]);
            }
        },
        CompatibilityModel::Vanilla => {
            assert(!has_prefix("vanilla"@, group_prefix())) by {
                assert("vanilla"@.subrange(0, 6)[0] != group_prefix()[0]);
            }
        },
        CompatibilityModel::Group(g) => {
            let s = group_prefix() + g;
            assert(s.subrange(0, 6) =~= group_prefix());
            assert(s.subrange(6, s.len() as int) =~= g);
        },
    }
}

/// The three spellings: `isolated`, `vanilla` and `group:` followed by the
/// group's name.
pub proof fn lemma_compatibility_spellings(g: Seq<char>)
    ensures
        compatibility_text(CompatibilityModel::Isolated) == "isolated"@,
        compatibility_text(CompatibilityModel::Vanilla) == "vanilla"@,
        compatibility_text(CompatibilityModel::Group(g)) == "group:"@ + g,
{
}

/// A package's stem is its name, a hyphen and its version's text.
pub proof fn lemma_stem_is_name_and_version(m: Manifest)
    ensures
        stem_text(m) == m.name@ + seq!['-'] + version_text(m.version),
{
}

/// `group:NAME` reads as that group whenever `NAME` has 1 to 64
/// characters, each a lower-case ASCII letter from `a` to `z`, a digit,
/// `_` or `-`.
pub proof fn lemma_group_names_read(g: Seq<char>)
    requires
        1 <= g.len() <= 64,
        forall|i: int|
            0 <= i < g.len() ==> {
                let c = #[trigger] g[i];
                ('a' <= c && c <= 'z') || ('0' <= c && c <= '9') || c == '_' || c == '-'
            },
    ensures
        parse_compatibility("group:"@ + g) == Ok::<CompatibilityModel, ErrorModel>(
            CompatibilityModel::Group(g),
        ),
{
    crate::name::lemma_valid_name_charset(g);
    lemma_compatibility_round_trip(CompatibilityModel::Group(g));
}

/// Whatever reads successfully is valid, and is written back as exactly the
/// string it was read from.
pub proof fn lemma_parse_then_write(s: Seq<char>)
    requires
        parse_compatibility(s) is Ok,
    ensures
        compatibility_valid(parse_compatibility(s)->Ok_0),
        compatibility_text(parse_compatibility(s)->Ok_0) == s,
{
    if has_prefix(s, group_prefix()) {
        let g = s.subrange(group_prefix().len() as int, s.len() as int);
        assert(group_prefix() + g =~= s);
    }
}

/// Distinct compatibilities are written as distinct strings.
pub proof fn lemma_compatibility_text_injective(a: CompatibilityModel, b: CompatibilityModel)
    requires
        compatibility_text(a) == compatibility_text(b),
    ensures
        a == b,
{
    reveal_strlit("group:");
    reveal_strlit("isolated");
    reveal_strlit("vanilla");
    let ta = compatibility_text(a);
    let tb = compatibility_text(b);
    if let CompatibilityModel::Group(x) = a {
        if let CompatibilityModel::Group(y) = b {
            assert(x =~= ta.subrange(6, ta.len() as int));
            assert(y =~= tb.subrange(6, tb.len() as int));
        } else {
            assert(ta[0] == 'g');
            assert(tb[0] != 'g');
        }
    } else if let CompatibilityModel::Group(y) = b {
        assert(tb[0] == 'g');
        assert(ta[0] != 'g');
    } else if a is Isolated && b is Vanilla {
        assert(ta.len() != tb.len());
    } else if a is Vanilla && b is Isolated {
        assert(ta.len() != tb.len());
    }
}

impl std::str::FromStr for Compatibility {
    type Err = Error;

    fn from_str(s: &str) -> (r: Result<Compatibility, Error>)
        ensures
            r matches Ok(c) ==> parse_compatibility(s@) == Ok::<CompatibilityModel, ErrorModel>(c@),
            r matches Err(e) ==> parse_compatibility(s@) == Err::<CompatibilityModel, ErrorModel>(e@),
    {
        Compatibility::parse(s)
    }
}

} // verus!
