//! Manifest wire-format compatibility. Everything leaves this module as the
//! current [`Manifest`] type; package and bundle code never carry legacy state.
use vstd::prelude::*;
use crate::error::{Error, ErrorModel};
use crate::manifest::{
    Compatibility, Manifest, FORMAT, entry_ranges, has_override, lemma_no_reversed_override,
    manifest_accepted, manifest_error, override_reversed, overrides_error, read_current,
    targets_sorted,
};
use crate::overrides::{
    Overrides, OverridesModel, check_legal_chip_ranges, copy_ranges, first_reversed,
    overrides_empty, reversed_range_text,
};
use crate::target::{RomTarget, target_key, target_text};
use crate::text::push_char;
use crate::version::Version;

verus! {

/// The legacy format, upgraded on reading.
pub const FORMAT_1: u32 = 1;

/// How a manifest of a given format is read.
#[derive(Debug, Clone, Copy, PartialEq, Eq, Structural)]
pub enum Reader {
    /// The current format, read as it stands.
    Current,
    /// Format 1, adapted by [`adapt_format_1`].
    Format1,
}

/// Picks the reader for a manifest's `format` key.
pub fn reader_for(format: u32) -> (r: Result<Reader, Error>)
    ensures
        format == FORMAT ==> r == Ok::<Reader, Error>(Reader::Current),
        format == FORMAT_1 ==> r == Ok::<Reader, Error>(Reader::Format1),
        format != FORMAT && format != FORMAT_1 ==> (r matches Err(e) && e@
            == ErrorModel::UnsupportedFormat(format)),
{
    if format == FORMAT {
        Ok(Reader::Current)
    } else if format == FORMAT_1 {
        Ok(Reader::Format1)
    } else {
        Err(Error::UnsupportedFormat(format))
    }
}

/// The keys of a format-1 manifest other than `format` and `rom_overrides`.
/// In format 1, `rom_overrides` held one set of overrides shared by every
/// target, plus a table of `legal_chip_ranges` keyed by target.
#[derive(Debug)]
pub struct Format1Manifest {
    pub name: String,
    pub version: Version,
    pub title: String,
    pub authors: Vec<String>,
    pub license: Option<String>,
    pub source: Option<String>,
    pub netplay: Compatibility,
}

/// `common` with its chip ranges set to `ranges`.
pub open spec fn with_ranges(common: OverridesModel, ranges: Seq<[usize; 2]>) -> OverridesModel {
    OverridesModel { legal_chip_ranges: Some(ranges), ..common }
}

/// Whether the per-target chip ranges name target `t`.
pub open spec fn ranges_name(ranges: Seq<(RomTarget, Vec<[usize; 2]>)>, t: RomTarget) -> bool {
    exists|i: int| 0 <= i < ranges.len() && (#[trigger] ranges[i]).0 == t
}

/// Whether the upgraded manifest holds overrides `o` for target `t`: a
/// target with its own chip ranges gets the shared overrides with those
/// ranges; any other target the package patches gets the shared overrides,
/// unless they change nothing.
pub open spec fn adapted_override(
    common: OverridesModel,
    ranges: Seq<(RomTarget, Vec<[usize; 2]>)>,
    targets: Seq<RomTarget>,
    t: RomTarget,
    o: OverridesModel,
) -> bool {
    ||| exists|i: int|
        0 <= i < ranges.len() && (#[trigger] ranges[i]).0 == t && o == with_ranges(
            common,
            ranges[i].1@,
        )
    ||| !ranges_name(ranges, t) && !overrides_empty(common) && targets.contains(t) && o == common
}

/// Whether the chip ranges listed for entry `i` hold a reversed range.
pub open spec fn entry_reversed(ranges: Seq<(RomTarget, Vec<[usize; 2]>)>, i: int) -> bool {
    first_reversed(ranges[i].1@) is Some
}

/// The message for the first reversed range of entry `i`.
pub open spec fn entry_reversed_text(ranges: Seq<(RomTarget, Vec<[usize; 2]>)>, i: int) -> Seq<char> {
    "rom_overrides."@ + target_text(ranges[i].0) + seq!['.'] + reversed_range_text(
        ranges[i].1@[first_reversed(ranges[i].1@)->0],
    )
}

/// The index of the first entry with a reversed range, if any.
pub open spec fn first_reversed_entry(ranges: Seq<(RomTarget, Vec<[usize; 2]>)>) -> Option<int> {
    if exists|i: int| 0 <= i < ranges.len() && entry_reversed(ranges, i) {
        Some(
            choose|i: int|
                0 <= i < ranges.len() && entry_reversed(ranges, i) && forall|j: int|
                    0 <= j < i ==> !entry_reversed(ranges, j),
        )
    } else {
        None
    }
}

/// Why upgrading a format-1 manifest fails, if it does: first a reversed
/// chip range (in target order), then the rules every manifest keeps.
pub open spec fn adapt_error(
    legacy: Format1Manifest,
    ranges: Seq<(RomTarget, Vec<[usize; 2]>)>,
) -> Option<ErrorModel> {
    match first_reversed_entry(ranges) {
        Some(i) => Some(ErrorModel::ManifestSyntax(entry_reversed_text(ranges, i))),
        None => manifest_error(legacy.name@, legacy.title@, legacy.netplay@),
    }
}

proof fn lemma_first_reversed_entry(ranges: Seq<(RomTarget, Vec<[usize; 2]>)>, i: int)
    requires
        0 <= i < ranges.len(),
        entry_reversed(ranges, i),
        forall|j: int| 0 <= j < i ==> !entry_reversed(ranges, j),
    ensures
        first_reversed_entry(ranges) == Some(i),
{
    let k = choose|k: int|
        0 <= k < ranges.len() && entry_reversed(ranges, k) && forall|j: int|
            0 <= j < k ==> !entry_reversed(ranges, j);
    assert(0 <= k < ranges.len() && entry_reversed(ranges, k) && forall|j: int|
        0 <= j < k ==> !entry_reversed(ranges, j));
}

/// Two targets in the same place of the order are the same target.
proof fn lemma_key_injective(a: RomTarget, b: RomTarget)
    requires
        target_key(a) == target_key(b),
    ensures
        a == b,
{
}

/// Sets the overrides of `t` to `o`, keeping the entries in target order.
fn put(v: &mut Vec<(RomTarget, Overrides)>, t: RomTarget, o: Overrides)
    requires
        targets_sorted(old(v)@),
    ensures
        targets_sorted(final(v)@),
        forall|t2: RomTarget, o2: OverridesModel|
            #![trigger has_override(final(v)@, t2, o2)]
            has_override(final(v)@, t2, o2) <==> ((t2 == t && o2 == o@) || (t2 != t
                && has_override(old(v)@, t2, o2))),
{
    let ghost old_v = v@;
    let ghost om = o@;
    let k = t.key();
    let n = v.len();
    let mut i: usize = 0;
    while i < n && v[i].0.key() < k
        invariant
            n == v@.len(),
            v@ == old_v,
            i <= n,
            forall|j: int| 0 <= j < i ==> target_key(#[trigger] v@[j].0) < k,
        decreases n - i,
    {
        i = i + 1;
    }
    assert(i < n ==> target_key(old_v[i as int].0) >= k);
    if i < n && v[i].0.key() == k {
        proof {
            lemma_key_injective(old_v[i as int].0, t);
        }
        v.set(i, (t, o));
        proof {
            assert forall|t2: RomTarget, o2: OverridesModel|
                #[trigger] has_override(v@, t2, o2) <==> ((t2 == t && o2 == om) || (t2 != t
                    && has_override(old_v, t2, o2))) by {
                if has_override(v@, t2, o2) {
                    let j = choose|j: int| 0 <= j < v@.len() && (#[trigger] v@[j]).0 == t2
                        && v@[j].1@ == o2;
                    if j != i {
                        assert(old_v[j] == v@[j]);
                        if t2 == t {
                            assert(target_key(old_v[j].0) == target_key(old_v[i as int].0));
                        }
                    }
                }
                if t2 == t && o2 == om {
                    assert(v@[i as int].0 == t2);
                }
                if t2 != t && has_override(old_v, t2, o2) {
                    let j = choose|j: int| 0 <= j < old_v.len() && (#[trigger] old_v[j]).0 == t2
                        && old_v[j].1@ == o2;
                    assert(v@[j] == old_v[j]);
                }
            }
        }
    } else {
        v.insert(i, (t, o));
        proof {
            assert forall|a: int, b: int|
                0 <= a < b < v@.len() implies target_key(#[trigger] v@[a].0) < target_key(
                #[trigger] v@[b].0) by {
                if a < i && b > i {
                    assert(v@[b] == old_v[b - 1]);
                    assert(target_key(old_v[i as int].0) <= target_key(old_v[b - 1].0));
                } else if a > i {
                    assert(v@[a] == old_v[a - 1]);
                    assert(v@[b] == old_v[b - 1]);
                }
            }
            assert forall|t2: RomTarget, o2: OverridesModel|
                #[trigger] has_override(v@, t2, o2) <==> ((t2 == t && o2 == om) || (t2 != t
                    && has_override(old_v, t2, o2))) by {
                if has_override(v@, t2, o2) {
                    let j = choose|j: int| 0 <= j < v@.len() && (#[trigger] v@[j]).0 == t2
                        && v@[j].1@ == o2;
                    if j < i {
                        assert(old_v[j] == v@[j]);
                        assert(target_key(t2) < k);
                    } else if j > i {
                        assert(old_v[j - 1] == v@[j]);
                        assert(target_key(old_v[i as int].0) <= target_key(old_v[j - 1].0));
                        assert(target_key(t2) > k);
                    }
                }
                if t2 == t && o2 == om {
                    assert(v@[i as int].0 == t2);
                }
                if t2 != t && has_override(old_v, t2, o2) {
                    let j = choose|j: int| 0 <= j < old_v.len() && (#[trigger] old_v[j]).0 == t2
                        && old_v[j].1@ == o2;
                    if j < i {
                        assert(v@[j] == old_v[j]);
                    } else {
                        assert(v@[j + 1] == old_v[j]);
                    }
                }
            }
        }
    }
}

/// The error for a reversed range `msg` describes, listed for `target`.
fn reversed_entry_error(target: &RomTarget, msg: &String) -> (e: Error)
    ensures
        e@ == ErrorModel::ManifestSyntax("rom_overrides."@ + target_text(*target) + seq!['.'] + msg@),
{
    let mut m = String::from_str("rom_overrides.");
    m.append(target.to_text().as_str());
    push_char(&mut m, '.');
    m.append(msg.as_str());
    assert(m@ =~= "rom_overrides."@ + target_text(*target) + seq!['.'] + msg@);
    Error::ManifestSyntax(m)
}

/// Listing the chip ranges of one more target sets that target's
/// overrides and leaves every other target's as they were.
proof fn lemma_adapted_extend(
    cm: OverridesModel,
    rs: Seq<(RomTarget, Vec<[usize; 2]>)>,
    ts: Seq<RomTarget>,
    j: int,
    t: RomTarget,
    o: OverridesModel,
)
    requires
        0 <= j < rs.len(),
        forall|a: int, b: int|
            0 <= a < b < rs.len() ==> target_key(#[trigger] rs[a].0) < target_key(
                #[trigger] rs[b].0,
            ),
    ensures
        adapted_override(cm, rs.subrange(0, j + 1), ts, t, o) <==> ((t == rs[j].0 && o
            == with_ranges(cm, rs[j].1@)) || (t != rs[j].0 && adapted_override(
            cm,
            rs.subrange(0, j),
            ts,
            t,
            o,
        ))),
{
    let prev = rs.subrange(0, j);
    let next = rs.subrange(0, j + 1);
    let target = rs[j].0;
    assert(next[j] == rs[j]);
    assert forall|k: int| 0 <= k < j implies #[trigger] next[k] == prev[k] by {}
    if t == target {
        assert(ranges_name(next, t));
        if adapted_override(cm, next, ts, t, o) {
            let k = choose|k: int|
                0 <= k < next.len() && (#[trigger] next[k]).0 == t && o == with_ranges(
                    cm,
                    next[k].1@,
                );
            if k < j {
                assert(target_key(rs[k].0) < target_key(rs[j].0));
            }
        }
    } else {
        if ranges_name(next, t) {
            let k = choose|k: int| 0 <= k < next.len() && (#[trigger] next[k]).0 == t;
            assert(prev[k].0 == t);
        }
        if ranges_name(prev, t) {
            let k = choose|k: int| 0 <= k < prev.len() && (#[trigger] prev[k]).0 == t;
            assert(next[k].0 == t);
        }
        if exists|k: int|
            0 <= k < prev.len() && (#[trigger] prev[k]).0 == t && o == with_ranges(
                cm,
                prev[k].1@,
            ) {
            let k = choose|k: int|
                0 <= k < prev.len() && (#[trigger] prev[k]).0 == t && o == with_ranges(
                    cm,
                    prev[k].1@,
                );
            assert(next[k] == prev[k]);
        }
        if exists|k: int|
            0 <= k < next.len() && (#[trigger] next[k]).0 == t && o == with_ranges(
                cm,
                next[k].1@,
            ) {
            let k = choose|k: int|
                0 <= k < next.len() && (#[trigger] next[k]).0 == t && o == with_ranges(
                    cm,
                    next[k].1@,
                );
            assert(prev[k] == next[k]);
        }
    }
}

/// What upgrading a format-1 manifest gives: it fails exactly as
/// [`adapt_error`] says; on success it is a complete current-format
/// manifest that keeps the old keys, lists its entries in target order, and
/// holds exactly the overrides [`adapted_override`] describes.
pub open spec fn adapted(
    legacy: Format1Manifest,
    common: OverridesModel,
    ranges: Seq<(RomTarget, Vec<[usize; 2]>)>,
    targets: Seq<RomTarget>,
    r: Result<Manifest, Error>,
) -> bool {
    &&& r is Ok <==> adapt_error(legacy, ranges) is None
    &&& r matches Err(e) ==> adapt_error(legacy, ranges) == Some(e@)
    &&& r matches Ok(m) ==> {
        &&& m.format == FORMAT
        &&& manifest_accepted(m)
        &&& m.name == legacy.name
        &&& m.version == legacy.version
        &&& m.title == legacy.title
        &&& m.authors == legacy.authors
        &&& m.license == legacy.license
        &&& m.source == legacy.source
        &&& m.netplay == legacy.netplay
        &&& targets_sorted(m.rom_overrides@)
        &&& forall|t: RomTarget, o: OverridesModel|
            #![trigger has_override(m.rom_overrides@, t, o)]
            has_override(m.rom_overrides@, t, o) <==> adapted_override(
                common,
                ranges,
                targets,
                t,
                o,
            )
    }
}

/// Entries built from shared overrides without chip ranges and from
/// per-target ranges that are all in order list no reversed range.
proof fn lemma_adapted_entries_ok(
    v: Seq<(RomTarget, Overrides)>,
    cm: OverridesModel,
    rs: Seq<(RomTarget, Vec<[usize; 2]>)>,
    ts: Seq<RomTarget>,
)
    requires
        targets_sorted(v),
        cm.legal_chip_ranges is None,
        forall|k: int| 0 <= k < rs.len() ==> !entry_reversed(rs, k),
        forall|t: RomTarget, o: OverridesModel|
            #![trigger has_override(v, t, o)]
            has_override(v, t, o) <==> adapted_override(cm, rs, ts, t, o),
    ensures
        overrides_error(v) is None,
{
    assert forall|i: int| 0 <= i < v.len() implies !override_reversed(v, i) by {
        let t = v[i].0;
        let o = v[i].1@;
        assert(has_override(v, t, o));
        if exists|k: int|
            0 <= k < rs.len() && (#[trigger] rs[k]).0 == t && o == with_ranges(cm, rs[k].1@) {
            let k = choose|k: int|
                0 <= k < rs.len() && (#[trigger] rs[k]).0 == t && o == with_ranges(
                    cm,
                    rs[k].1@,
                );
            assert(!entry_reversed(rs, k));
            assert(entry_ranges(o) == rs[k].1@);
        } else {
            assert(o == cm);
            assert(entry_ranges(o) == Seq::<[usize; 2]>::empty());
        }
    }
    lemma_no_reversed_override(v);
}

/// Upgrades a format-1 manifest to the current format. `common` is the
/// shared overrides of the old `rom_overrides` table (its keys other than
/// `legal_chip_ranges`), `ranges` the old per-target `legal_chip_ranges`
/// table in target order, and `targets` the ROMs the package patches.
///
/// Every target gets the shared overrides (when they change anything), and
/// every target with its own chip ranges gets the shared overrides with
/// those ranges. A reversed chip range is refused as the current format's
/// reader refuses it; the result then keeps every rule of a manifest.
pub fn adapt_format_1(
    legacy: Format1Manifest,
    common: Overrides,
    ranges: Vec<(RomTarget, Vec<[usize; 2]>)>,
    targets: Vec<RomTarget>,
) -> (r: Result<Manifest, Error>)
    requires
        common@.legal_chip_ranges is None,
        forall|i: int, j: int|
            0 <= i < j < ranges@.len() ==> target_key(#[trigger] ranges@[i].0) < target_key(
                #[trigger] ranges@[j].0,
            ),
    ensures
        adapted(legacy, common@, ranges@, targets@, r),
{
    let ghost cm = common@;
    let ghost rs = ranges@;
    let ghost ts = targets@;
    let mut rom_overrides: Vec<(RomTarget, Overrides)> = Vec::new();
    let shared = !common.is_empty();
    let nt = targets.len();
    let mut i: usize = 0;
    while i < nt
        invariant
            nt == ts.len(),
            ts == targets@,
            cm == common@,
            shared == !overrides_empty(cm),
            i <= nt,
            targets_sorted(rom_overrides@),
            forall|t: RomTarget, o: OverridesModel|
                #![trigger has_override(rom_overrides@, t, o)]
                has_override(rom_overrides@, t, o) <==> (shared && ts.subrange(0, i as int).contains(t)
                    && o == cm),
        decreases nt - i,
    {
        if shared {
            let ghost before = rom_overrides@;
            put(&mut rom_overrides, targets[i], common.duplicate());
            proof {
                assert forall|t: RomTarget, o: OverridesModel|
                    #[trigger] has_override(rom_overrides@, t, o) <==> (shared && ts.subrange(
                        0,
                        i + 1,
                    ).contains(t) && o == cm) by {
                    let small = ts.subrange(0, i as int);
                    let large = ts.subrange(0, i + 1);
                    if large.contains(t) && t != ts[i as int] {
                        let k = choose|k: int| 0 <= k < large.len() && #[trigger] large[k] == t;
                        assert(small[k] == t);
                    }
                    if small.contains(t) {
                        let k = choose|k: int| 0 <= k < small.len() && #[trigger] small[k] == t;
                        assert(large[k] == t);
                    }
                    assert(large[i as int] == ts[i as int]);
                }
            }
        } else {
            proof {
                assert forall|t: RomTarget, o: OverridesModel|
                    #[trigger] has_override(rom_overrides@, t, o) <==> (shared && ts.subrange(
                        0,
                        i + 1,
                    ).contains(t) && o == cm) by {}
            }
        }
        i = i + 1;
    }
    assert(ts.subrange(0, nt as int) =~= ts);
    let nr = ranges.len();
    let mut j: usize = 0;
    while j < nr
        invariant
            nr == rs.len(),
            rs == ranges@,
            ts == targets@,
            cm == common@,
            shared == !overrides_empty(cm),
            j <= nr,
            forall|a: int, b: int|
                0 <= a < b < rs.len() ==> target_key(#[trigger] rs[a].0) < target_key(
                    #[trigger] rs[b].0,
                ),
            forall|k: int| 0 <= k < j ==> !entry_reversed(rs, k),
            targets_sorted(rom_overrides@),
            forall|t: RomTarget, o: OverridesModel|
                #![trigger has_override(rom_overrides@, t, o)]
                has_override(rom_overrides@, t, o) <==> adapted_override(
                    cm,
                    rs.subrange(0, j as int),
                    ts,
                    t,
                    o,
                ),
        decreases nr - j,
    {
        let target = ranges[j].0;
        match check_legal_chip_ranges(&ranges[j].1) {
            Ok(()) => {},
            Err(msg) => {
                proof {
                    lemma_first_reversed_entry(rs, j as int);
                }
                return Err(reversed_entry_error(&target, &msg));
            },
        }
        let mut overrides = common.duplicate();
        overrides.legal_chip_ranges = Some(copy_ranges(&ranges[j].1));
        let ghost om = overrides@;
        assert(om == with_ranges(cm, rs[j as int].1@));
        let ghost before = rom_overrides@;
        put(&mut rom_overrides, target, overrides);
        proof {
            assert forall|t: RomTarget, o: OverridesModel|
                #[trigger] has_override(rom_overrides@, t, o) <==> adapted_override(
                    cm,
                    rs.subrange(0, j + 1),
                    ts,
                    t,
                    o,
                ) by {
                lemma_adapted_extend(cm, rs, ts, j as int, t, o);
            }
        }
        j = j + 1;
    }
    assert(rs.subrange(0, nr as int) =~= rs);
    proof {
        if exists|k: int| 0 <= k < rs.len() && entry_reversed(rs, k) {
            let k = choose|k: int| 0 <= k < rs.len() && entry_reversed(rs, k);
            assert(!entry_reversed(rs, k));
        }
        lemma_adapted_entries_ok(rom_overrides@, cm, rs, ts);
    }
    let manifest = Manifest {
        format: FORMAT,
        name: legacy.name,
        version: legacy.version,
        title: legacy.title,
        authors: legacy.authors,
        license: legacy.license,
        source: legacy.source,
        netplay: legacy.netplay,
        rom_overrides,
    };
    match manifest.validate() {
        Ok(()) => Ok(manifest),
        Err(e) => Err(e),
    }
}

/// A format-1 manifest that lists a reversed chip range for any target is
/// refused as a syntax error, as the current format's reader refuses it.
pub proof fn lemma_reversed_range_refused(
    legacy: Format1Manifest,
    ranges: Seq<(RomTarget, Vec<[usize; 2]>)>,
    i: int,
)
    requires
        0 <= i < ranges.len(),
        first_reversed(ranges[i].1@) is Some,
    ensures
        adapt_error(legacy, ranges) matches Some(ErrorModel::ManifestSyntax(_)),
{
    assert(entry_reversed(ranges, i));
}

/// What decoding a format-1 manifest gives: its other keys, the shared
/// overrides of its `rom_overrides` table (without `legal_chip_ranges`), and
/// that table's per-target `legal_chip_ranges`, in target order.
pub struct Format1Parts {
    pub manifest: Format1Manifest,
    pub common: Overrides,
    pub ranges: Vec<(RomTarget, Vec<[usize; 2]>)>,
}

/// Whether decoded format-1 parts have the shape that decoding gives: no
/// chip ranges among the shared overrides, and per-target ranges listed
/// once each, in target order.
pub open spec fn parts_well_formed(p: Format1Parts) -> bool {
    &&& p.common@.legal_chip_ranges is None
    &&& forall|i: int, j: int|
        0 <= i < j < p.ranges@.len() ==> target_key(#[trigger] p.ranges@[i].0) < target_key(
            #[trigger] p.ranges@[j].0,
        )
}

/// The message for decoded format-1 parts without that shape.
pub open spec fn malformed_parts_text() -> Seq<char> {
    "rom_overrides: legal_chip_ranges must list each target once, in target order"@
}

/// Whether `r` is what the upgrade gives for decoded format-1 parts `p`.
pub open spec fn read_format_1(
    p: Result<Format1Parts, Error>,
    targets: Seq<RomTarget>,
    r: Result<Manifest, Error>,
) -> bool {
    match p {
        Err(e) => r == Err::<Manifest, Error>(e),
        Ok(parts) => if parts_well_formed(parts) {
            adapted(parts.manifest, parts.common@, parts.ranges@, targets, r)
        } else {
            r matches Err(e) && e@ == ErrorModel::ManifestSyntax(malformed_parts_text())
        },
    }
}

fn ranges_in_order(ranges: &Vec<(RomTarget, Vec<[usize; 2]>)>) -> (b: bool)
    ensures
        b == forall|i: int, j: int|
            0 <= i < j < ranges@.len() ==> target_key(#[trigger] ranges@[i].0) < target_key(
                #[trigger] ranges@[j].0,
            ),
{
    let n = ranges.len();
    let mut i: usize = 1;
    while i < n
        invariant
            n == ranges@.len(),
            1 <= i,
            forall|a: int, b: int|
                0 <= a < b < i && b < n ==> target_key(#[trigger] ranges@[a].0) < target_key(
                    #[trigger] ranges@[b].0,
                ),
        decreases n - i,
    {
        if ranges[i - 1].0.key() >= ranges[i].0.key() {
            assert(!(target_key(ranges@[i - 1].0) < target_key(ranges@[i as int].0)));
            return false;
        }
        proof {
            assert forall|a: int, b: int|
                0 <= a < b < i + 1 && b < n implies target_key(#[trigger] ranges@[a].0)
                < target_key(#[trigger] ranges@[b].0) by {
                if b < i {
                } else if a < i - 1 {
                    assert(target_key(ranges@[a].0) < target_key(ranges@[i - 1].0));
                }
            }
        }
        i = i + 1;
    }
    assert forall|a: int, b: int| 0 <= a < b < ranges@.len() implies target_key(
        #[trigger] ranges@[a].0) < target_key(#[trigger] ranges@[b].0) by {
        if n > 0 {
            assert(b < i);
        }
    }
    true
}

/// Reads a manifest of any supported format. `probed` is what decoding the
/// `format` key alone gave. The current format is read by
/// [`Manifest::parse`] with `decode_current`; format 1 is decoded by
/// `decode_format_1` and upgraded for `targets`; any other format is
/// refused. Only the decoder for the manifest's own format is called, and
/// whatever comes back on success is a complete, ordinary current-format
/// manifest.
pub fn parse<FC, FL>(
    probed: Result<u32, Error>,
    decode_current: FC,
    decode_format_1: FL,
    targets: Vec<RomTarget>,
) -> (r: Result<Manifest, Error>) where
    FC: FnOnce() -> Result<Manifest, Error>,
    FL: FnOnce() -> Result<Format1Parts, Error>,

    requires
        probed == Ok::<u32, Error>(FORMAT) ==> decode_current.requires(()),
        probed == Ok::<u32, Error>(FORMAT_1) ==> decode_format_1.requires(()),
    ensures
        probed matches Err(e) ==> r == Err::<Manifest, Error>(e),
        probed is Ok && probed->Ok_0 != FORMAT && probed->Ok_0 != FORMAT_1 ==> (r matches Err(
            e,
        ) && e@ == ErrorModel::UnsupportedFormat(probed->Ok_0)),
        probed == Ok::<u32, Error>(FORMAT) ==> exists|d: Result<Manifest, Error>|
            #[trigger] decode_current.ensures((), d) && read_current(d, r),
        probed == Ok::<u32, Error>(FORMAT_1) ==> exists|p: Result<Format1Parts, Error>|
            #[trigger] decode_format_1.ensures((), p) && read_format_1(p, targets@, r),
        r matches Ok(m) ==> manifest_accepted(m),
{
    let format = match probed {
        Ok(f) => f,
        Err(e) => {
            return Err(e);
        },
    };
    match reader_for(format) {
        Err(e) => Err(e),
        Ok(Reader::Current) => Manifest::parse(Ok(format), decode_current),
        Ok(Reader::Format1) => {
            let decoded = decode_format_1();
            let ghost p = decoded;
            let r = match decoded {
                Err(e) => Err(e),
                Ok(parts) => {
                    let Format1Parts { manifest, common, ranges } = parts;
                    if common.legal_chip_ranges.is_none() && ranges_in_order(&ranges) {
                        adapt_format_1(manifest, common, ranges, targets)
                    } else {
                        Err(
                            Error::ManifestSyntax(
                                String::from_str(
                                    "rom_overrides: legal_chip_ranges must list each target once, in target order",
                                ),
                            ),
                        )
                    }
                },
            };
            assert(decode_format_1.ensures((), p) && read_format_1(p, targets@, r));
            r
        },
    }
}

/// The upgrade reports an unsupported format only when the format-1
/// decoder itself reported it.
pub proof fn lemma_read_format_1_unsupported(
    p: Result<Format1Parts, Error>,
    targets: Seq<RomTarget>,
    r: Result<Manifest, Error>,
)
    requires
        read_format_1(p, targets, r),
        r matches Err(e) && e@ is UnsupportedFormat,
    ensures
        p is Err && p->Err_0 == r->Err_0,
{
}

/// In an upgraded format-1 manifest, a target that lists its own chip
/// ranges has exactly one entry, and that entry is the shared overrides with
/// their language and charset unchanged and the target's own ranges as its
/// chip ranges.
pub proof fn lemma_ranged_target_keeps_shared_overrides(
    legacy: Format1Manifest,
    common: OverridesModel,
    ranges: Seq<(RomTarget, Vec<[usize; 2]>)>,
    targets: Seq<RomTarget>,
    r: Result<Manifest, Error>,
    i: int,
)
    requires
        forall|a: int, b: int|
            0 <= a < b < ranges.len() ==> target_key(#[trigger] ranges[a].0) < target_key(
                #[trigger] ranges[b].0,
            ),
        adapted(legacy, common, ranges, targets, r),
        r is Ok,
        0 <= i < ranges.len(),
    ensures
        exists|o: OverridesModel| has_override(r->Ok_0.rom_overrides@, ranges[i].0, o),
        forall|o: OverridesModel|
            has_override(r->Ok_0.rom_overrides@, ranges[i].0, o) ==> {
                &&& o.language == common.language
                &&& o.charset == common.charset
                &&& o.legal_chip_ranges == Some(ranges[i].1@)
            },
{
    let m = r->Ok_0;
    let t = ranges[i].0;
    let want = OverridesModel {
        language: common.language,
        charset: common.charset,
        legal_chip_ranges: Some(ranges[i].1@),
    };
    assert(want == with_ranges(common, ranges[i].1@));
    assert(adapted_override(common, ranges, targets, t, want));
    assert(has_override(m.rom_overrides@, t, want));
    assert forall|o: OverridesModel| has_override(m.rom_overrides@, t, o) implies {
        &&& o.language == common.language
        &&& o.charset == common.charset
        &&& o.legal_chip_ranges == Some(ranges[i].1@)
    } by {
        assert(adapted_override(common, ranges, targets, t, o));
        assert(ranges_name(ranges, t));
        let k = choose|k: int|
            0 <= k < ranges.len() && (#[trigger] ranges[k]).0 == t && o == with_ranges(
                common,
                ranges[k].1@,
            );
        if k < i {
            assert(target_key(ranges[k].0) < target_key(ranges[i].0));
        } else if i < k {
            assert(target_key(ranges[i].0) < target_key(ranges[k].0));
        }
    }
}

/// Reading format 1 for ROM targets `ts` upgrades the decoded parts for
/// exactly those targets: a target of `ts` without chip ranges of its own
/// holds the shared overrides whenever they set anything, and a target that
/// is neither in `ts` nor lists its own chip ranges has no entry.
pub proof fn lemma_format_1_read_covers_targets(
    parts: Format1Parts,
    ts: Seq<RomTarget>,
    r: Result<Manifest, Error>,
    t: RomTarget,
)
    requires
        parts_well_formed(parts),
        read_format_1(Ok(parts), ts, r),
        r is Ok,
        !(exists|k: int| 0 <= k < parts.ranges@.len() && (#[trigger] parts.ranges@[k]).0 == t),
    ensures
        ts.contains(t) && (parts.common@.language is Some || parts.common@.charset is Some)
            ==> has_override(r->Ok_0.rom_overrides@, t, parts.common@),
        !ts.contains(t) ==> forall|o: OverridesModel|
            !has_override(r->Ok_0.rom_overrides@, t, o),
{
    let cm = parts.common@;
    let rs = parts.ranges@;
    assert(adapted(parts.manifest, cm, rs, ts, r));
    if ts.contains(t) && (cm.language is Some || cm.charset is Some) {
        assert(!ranges_name(rs, t));
        assert(adapted_override(cm, rs, ts, t, cm));
    }
    if !ts.contains(t) {
        assert forall|o: OverridesModel| !has_override(r->Ok_0.rom_overrides@, t, o) by {
            if has_override(r->Ok_0.rom_overrides@, t, o) {
                assert(adapted_override(cm, rs, ts, t, o));
                assert(!ranges_name(rs, t));
            }
        }
    }
}

} // verus!
