//! Keeping the findings that fall on changed lines.
//!
//! Path policy: backslashes count as slashes and case is kept. A finding's path
//! and a change-set path match when one ends with the other at a `/` boundary, or
//! they are equal: `src/lib.rs` matches `crate-a/src/lib.rs`, and `a.rs` matches
//! `src/a.rs`, while `rc/lib.rs` does not match `src/lib.rs`. A finding is kept
//! when some matching path has a changed line inside the finding's range.
use vstd::prelude::*;
use vstd::utf8::encode_utf8;
use crate::changes::{ChangeSet, FileChanges};

verus! {

pub const SLASH: u8 = 47;

pub const BACKSLASH: u8 = 92;

/// One reported issue: a file, an inclusive range of lines, and the message.
#[derive(Clone, PartialEq, Eq, Debug)]
pub struct Finding {
    pub path: String,
    pub start: u64,
    pub end: u64,
    pub message: String,
}

impl Finding {
    /// A copy with the same fields.
    pub fn duplicate(&self) -> (r: Finding)
        ensures
            r == *self,
    {
        Finding {
            path: self.path.clone(),
            start: self.start,
            end: self.end,
            message: self.message.clone(),
        }
    }
}

/// The bytes of a finding's path.
pub open spec fn path_bytes(f: Finding) -> Seq<u8> {
    encode_utf8(f.path@)
}

pub open spec fn normalize(p: Seq<u8>) -> Seq<u8> {
    p.map_values(|b: u8| if b == BACKSLASH { SLASH } else { b })
}

/// `a` is a non-empty tail of `b` made of whole path components.
pub open spec fn component_suffix(a: Seq<u8>, b: Seq<u8>) -> bool {
    &&& 0 < a.len() <= b.len()
    &&& b.subrange(b.len() - a.len(), b.len() as int) == a
    &&& (a.len() == b.len() || b[b.len() - a.len() - 1] == SLASH)
}

pub open spec fn paths_match(x: Seq<u8>, y: Seq<u8>) -> bool {
    component_suffix(normalize(x), normalize(y)) || component_suffix(normalize(y), normalize(x))
}

/// Some line of `lines` lies in `[start, end]`.
pub open spec fn overlaps(lines: Set<u64>, start: u64, end: u64) -> bool {
    exists|l: u64| lines.contains(l) && start <= l <= end
}

/// The finding falls on a changed line of a file whose path matches its own.
pub open spec fn in_diff(cs: Map<Seq<u8>, Set<u64>>, f: Finding) -> bool {
    exists|k: Seq<u8>|
        #[trigger] cs.contains_key(k) && paths_match(path_bytes(f), k) && overlaps(cs[k], f.start, f.end)
}

/// The findings of `fs` that are in the diff, in their order.
pub open spec fn kept(cs: Map<Seq<u8>, Set<u64>>, fs: Seq<Finding>) -> Seq<Finding> {
    fs.filter(|f: Finding| in_diff(cs, f))
}

fn normalized(p: &[u8]) -> (r: Vec<u8>)
    ensures
        r@ == normalize(p@),
{
    let mut r: Vec<u8> = Vec::new();
    let mut i: usize = 0;
    while i < p.len()
        invariant
            i <= p@.len(),
            r@ == normalize(p@.subrange(0, i as int)),
        decreases p@.len() - i,
    {
        let b = if p[i] == BACKSLASH { SLASH } else { p[i] };
        r.push(b);
        i = i + 1;
        proof {
            assert(r@ =~= normalize(p@.subrange(0, i as int)));
        }
    }
    proof {
        assert(p@.subrange(0, p@.len() as int) =~= p@);
    }
    r
}

fn is_component_suffix(a: &[u8], b: &[u8]) -> (r: bool)
    ensures
        r == component_suffix(a@, b@),
{
    if a.len() == 0 || a.len() > b.len() {
        return false;
    }
    let off = b.len() - a.len();
    if !crate::text::has_lit_at(b, off, a) {
        return false;
    }
    a.len() == b.len() || b[off - 1] == SLASH
}

/// Whether a finding's path and a change-set path name the same file.
pub fn path_matches(finding_path: &str, key: &[u8]) -> (r: bool)
    ensures
        r == paths_match(encode_utf8(finding_path@), key@),
{
    let x = normalized(finding_path.as_bytes());
    let y = normalized(key);
    is_component_suffix(x.as_slice(), y.as_slice()) || is_component_suffix(y.as_slice(), x.as_slice())
}

/// Whether a changed line of `e` lies in `[start, end]`.
fn entry_overlaps(e: &FileChanges, start: u64, end: u64) -> (r: bool)
    ensures
        r == (exists|l: u64| e.lines@.contains(l) && start <= l <= end),
{
    let mut i: usize = 0;
    while i < e.lines.len()
        invariant
            i <= e.lines@.len(),
            forall|m: int| 0 <= m < i ==> !(start <= #[trigger] e.lines@[m] <= end),
        decreases e.lines@.len() - i,
    {
        if start <= e.lines[i] && e.lines[i] <= end {
            proof {
                assert(e.lines@.contains(e.lines@[i as int]));
            }
            return true;
        }
        i = i + 1;
    }
    false
}

/// The finding falls on a changed line of the entry at index `i`.
pub open spec fn entry_keeps(cs: &ChangeSet, i: int, f: Finding) -> bool {
    paths_match(path_bytes(f), cs.files@[i].path@)
        && exists|l: u64| cs.files@[i].lines@.contains(l) && f.start <= l <= f.end
}

proof fn lemma_in_diff_by_entry(cs: &ChangeSet, f: Finding)
    ensures
        in_diff(cs@, f) <==> exists|i: int| 0 <= i < cs.files@.len() && #[trigger] entry_keeps(cs, i, f),
{
    if in_diff(cs@, f) {
        let k = choose|k: Seq<u8>|
            #[trigger] cs@.contains_key(k) && paths_match(path_bytes(f), k) && overlaps(cs@[k], f.start, f.end);
        let l = choose|l: u64| cs@[k].contains(l) && f.start <= l <= f.end;
        assert(cs.has_line(k, l));
        let i = choose|i: int|
            0 <= i < cs.files@.len() && #[trigger] cs.files@[i].path@ == k && cs.files@[i].lines@.contains(l);
        assert(entry_keeps(cs, i, f));
    }
    if exists|i: int| 0 <= i < cs.files@.len() && #[trigger] entry_keeps(cs, i, f) {
        let i = choose|i: int| 0 <= i < cs.files@.len() && #[trigger] entry_keeps(cs, i, f);
        let k = cs.files@[i].path@;
        let l = choose|l: u64| cs.files@[i].lines@.contains(l) && f.start <= l <= f.end;
        assert(cs.has_path(k));
        assert(cs.has_line(k, l));
        assert(cs@[k].contains(l));
        assert(cs@.contains_key(k));
    }
}

/// Whether the finding falls on a changed line of a file whose path matches its own.
pub fn is_in_diff(cs: &ChangeSet, f: &Finding) -> (r: bool)
    ensures
        r == in_diff(cs@, *f),
{
    let mut i: usize = 0;
    while i < cs.files.len()
        invariant
            i <= cs.files@.len(),
            forall|m: int| 0 <= m < i ==> !#[trigger] entry_keeps(cs, m, *f),
        decreases cs.files@.len() - i,
    {
        let same_file = path_matches(f.path.as_str(), cs.files[i].path.as_slice());
        let hit = entry_overlaps(&cs.files[i], f.start, f.end);
        if same_file && hit {
            proof {
                assert(entry_keeps(cs, i as int, *f));
                lemma_in_diff_by_entry(cs, *f);
            }
            return true;
        }
        i = i + 1;
    }
    proof {
        lemma_in_diff_by_entry(cs, *f);
    }
    false
}

/// The findings that fall on changed lines, in their original order.
pub fn filter(cs: &ChangeSet, findings: &[Finding]) -> (r: Vec<Finding>)
    ensures
        r@ == kept(cs@, findings@),
{
    let mut r: Vec<Finding> = Vec::new();
    let mut i: usize = 0;
    while i < findings.len()
        invariant
            i <= findings@.len(),
            r@ == kept(cs@, findings@.subrange(0, i as int)),
        decreases findings@.len() - i,
    {
        let keep = is_in_diff(cs, &findings[i]);
        if keep {
            r.push(findings[i].duplicate());
        }
        proof {
            let s = findings@.subrange(0, i + 1);
            assert(s.drop_last() =~= findings@.subrange(0, i as int));
            reveal(Seq::filter);
        }
        i = i + 1;
    }
    proof {
        assert(findings@.subrange(0, findings@.len() as int) =~= findings@);
    }
    r
}

/// A finding whose path matches no file of the change set is dropped.
pub proof fn lemma_unmatched_path_dropped(cs: Map<Seq<u8>, Set<u64>>, f: Finding)
    requires
        forall|k: Seq<u8>| #[trigger] cs.contains_key(k) ==> !paths_match(path_bytes(f), k),
    ensures
        kept(cs, seq![f]) == Seq::<Finding>::empty(),
{
    reveal_with_fuel(Seq::filter, 2);
    assert(seq![f].drop_last() =~= Seq::<Finding>::empty());
}

/// A finding matched to exactly one file, with changed lines `cs[k]`, is kept if and
/// only if one of those lines lies in its range; a single-line range is no exception.
pub proof fn lemma_kept_iff_overlap(cs: Map<Seq<u8>, Set<u64>>, k: Seq<u8>, f: Finding)
    requires
        cs.contains_key(k),
        paths_match(path_bytes(f), k),
        forall|k2: Seq<u8>|
            #[trigger] cs.contains_key(k2) && paths_match(path_bytes(f), k2) ==> k2 == k,
    ensures
        in_diff(cs, f) <==> overlaps(cs[k], f.start, f.end),
        kept(cs, seq![f]) == if overlaps(cs[k], f.start, f.end) {
            seq![f]
        } else {
            Seq::<Finding>::empty()
        },
{
    reveal_with_fuel(Seq::filter, 2);
    assert(seq![f].drop_last() =~= Seq::<Finding>::empty());
    if overlaps(cs[k], f.start, f.end) {
        assert(in_diff(cs, f));
        assert(Seq::<Finding>::empty().push(f) =~= seq![f]);
    }
}

/// Filtering twice keeps what filtering once kept.
pub proof fn lemma_filter_idempotent(cs: Map<Seq<u8>, Set<u64>>, fs: Seq<Finding>)
    ensures
        kept(cs, kept(cs, fs)) == kept(cs, fs),
    decreases fs.len(),
{
    reveal(Seq::filter);
    if fs.len() > 0 {
        lemma_filter_idempotent(cs, fs.drop_last());
        let rest = kept(cs, fs.drop_last());
        if in_diff(cs, fs.last()) {
            let once = rest.push(fs.last());
            assert(once.drop_last() =~= rest);
        }
    }
}

/// Two filterings of the same change set and findings give the same list.
pub proof fn lemma_filter_deterministic(
    cs: Map<Seq<u8>, Set<u64>>,
    fs: Seq<Finding>,
    first: Seq<Finding>,
    second: Seq<Finding>,
)
    requires
        first == kept(cs, fs),
        second == kept(cs, fs),
    ensures
        first == second,
{
}

/// One message reported at two places, one on a changed line and one not, is two
/// findings, and only the one on the changed line is kept.
pub proof fn lemma_split_message_keeps_changed_span(cs: Map<Seq<u8>, Set<u64>>, inside: Finding, outside: Finding)
    requires
        in_diff(cs, inside),
        !in_diff(cs, outside),
    ensures
        kept(cs, seq![inside, outside]) == seq![inside],
        kept(cs, seq![outside, inside]) == seq![inside],
{
    reveal_with_fuel(Seq::filter, 3);
    assert(seq![inside, outside].drop_last() =~= seq![inside]);
    assert(seq![inside].drop_last() =~= Seq::<Finding>::empty());
    assert(seq![outside, inside].drop_last() =~= seq![outside]);
    assert(seq![outside].drop_last() =~= Seq::<Finding>::empty());
    assert(Seq::<Finding>::empty().push(inside) =~= seq![inside]);
}

} // verus!
