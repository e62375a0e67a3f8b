//! The changed lines of each file, as read from a diff.
use vstd::prelude::*;
use crate::text::same_bytes;

verus! {

/// The lines added to one file, in strictly increasing order.
pub struct FileChanges {
    pub path: Vec<u8>,
    pub lines: Vec<u64>,
}

pub open spec fn strictly_increasing(s: Seq<u64>) -> bool {
    forall|i: int, j: int| 0 <= i < j < s.len() ==> s[i] < s[j]
}

/// Repository-relative paths, each with the set of line numbers changed in it.
pub struct ChangeSet {
    pub files: Vec<FileChanges>,
}

impl ChangeSet {
    /// Paths are unique and every line list is strictly increasing.
    pub open spec fn wf(&self) -> bool {
        &&& forall|i: int, j: int|
            0 <= i < j < self.files@.len() ==> self.files@[i].path@ != self.files@[j].path@
        &&& forall|i: int|
            0 <= i < self.files@.len() ==> strictly_increasing(#[trigger] self.files@[i].lines@)
    }

    pub open spec fn has_path(&self, p: Seq<u8>) -> bool {
        exists|i: int| 0 <= i < self.files@.len() && #[trigger] self.files@[i].path@ == p
    }

    pub open spec fn has_line(&self, p: Seq<u8>, l: u64) -> bool {
        exists|i: int|
            0 <= i < self.files@.len() && #[trigger] self.files@[i].path@ == p
                && self.files@[i].lines@.contains(l)
    }
}

impl View for ChangeSet {
    type V = Map<Seq<u8>, Set<u64>>;

    open spec fn view(&self) -> Map<Seq<u8>, Set<u64>> {
        Map::new(|p: Seq<u8>| self.has_path(p), |p: Seq<u8>| Set::new(|l: u64| self.has_line(p, l)))
    }
}

/// The change set `m` after recording line `l` of file `p`.
pub open spec fn with_line(m: Map<Seq<u8>, Set<u64>>, p: Seq<u8>, l: u64) -> Map<Seq<u8>, Set<u64>> {
    m.insert(p, (if m.contains_key(p) { m[p] } else { Set::empty() }).insert(l))
}

/// Puts `v` into a strictly increasing list, keeping it so.
fn insert_sorted(lines: &mut Vec<u64>, v: u64)
    requires
        strictly_increasing(old(lines)@),
    ensures
        strictly_increasing(final(lines)@),
        forall|x: u64| final(lines)@.contains(x) <==> (old(lines)@.contains(x) || x == v),
{
    let n = lines.len();
    if n == 0 || lines[n - 1] < v {
        lines.push(v);
        proof {
            assert forall|x: u64| lines@.contains(x) <==> (old(lines)@.contains(x) || x == v) by {
                if lines@.contains(x) {
                    let k = choose|k: int| 0 <= k < lines@.len() && lines@[k] == x;
                    if k < n {
                        assert(old(lines)@[k] == x);
                    }
                }
                if old(lines)@.contains(x) {
                    let k = choose|k: int| 0 <= k < old(lines)@.len() && old(lines)@[k] == x;
                    assert(lines@[k] == x);
                }
                if x == v {
                    assert(lines@[n as int] == x);
                }
            }
        }
        return;
    }
    let mut k: usize = 0;
    while lines[k] < v
        invariant
            n == lines@.len(),
            *lines == *old(lines),
            0 < n,
            v <= lines@[n - 1],
            k < n,
            forall|m: int| 0 <= m < k ==> lines@[m] < v,
        decreases n - k,
    {
        k = k + 1;
        proof {
            if k == n {
                assert(lines@[n - 1] < v);
            }
        }
    }
    if lines[k] == v {
        return;
    }
    let ghost o = lines@;
    lines.insert(k, v);
    proof {
        assert(lines@ == o.insert(k as int, v));
        assert forall|m: int| 0 <= m < k implies #[trigger] lines@[m] == o[m] by {}
        assert forall|m: int| k < m < lines@.len() implies #[trigger] lines@[m] == o[m - 1] by {}
        assert forall|x: u64| lines@.contains(x) implies (o.contains(x) || x == v) by {
            let m = choose|m: int| 0 <= m < lines@.len() && lines@[m] == x;
            if m < k {
                assert(o[m] == x);
            } else if m > k {
                assert(o[m - 1] == x);
            }
        }
        assert forall|x: u64| (o.contains(x) || x == v) implies lines@.contains(x) by {
            if x == v {
                assert(lines@[k as int] == x);
            } else {
                let m = choose|m: int| 0 <= m < o.len() && o[m] == x;
                if m < k {
                    assert(lines@[m] == x);
                } else {
                    assert(lines@[m + 1] == x);
                }
            }
        }
        assert(o == old(lines)@);
        assert(forall|x: u64| lines@.contains(x) <==> (old(lines)@.contains(x) || x == v));
    }
}

impl ChangeSet {
    /// An empty change set.
    pub fn new() -> (r: Self)
        ensures
            r.wf(),
            r@ == Map::<Seq<u8>, Set<u64>>::empty(),
    {
        let r = ChangeSet { files: Vec::new() };
        proof {
            assert(r@ =~= Map::<Seq<u8>, Set<u64>>::empty());
        }
        r
    }

    /// The index of the entry for `path`, if there is one.
    pub fn find(&self, path: &[u8]) -> (r: Option<usize>)
        requires
            self.wf(),
        ensures
            match r {
                Some(k) => k < self.files@.len() && self.files@[k as int].path@ == path@,
                None => !self.has_path(path@),
            },
    {
        let mut k: usize = 0;
        while k < self.files.len()
            invariant
                k <= self.files@.len(),
                forall|m: int| 0 <= m < k ==> self.files@[m].path@ != path@,
            decreases self.files@.len() - k,
        {
            if same_bytes(self.files[k].path.as_slice(), path) {
                return Some(k);
            }
            k = k + 1;
        }
        None
    }

    /// Records that line `line` of file `path` was changed.
    pub fn add_line(&mut self, path: &[u8], line: u64)
        requires
            old(self).wf(),
        ensures
            final(self).wf(),
            final(self)@ == with_line(old(self)@, path@, line),
    {
        match self.find(path) {
            Some(k) => {
                let ghost before = self.files@;
                insert_sorted(&mut self.files[k].lines, line);
                proof {
                    assert forall|i: int| 0 <= i < self.files@.len() && i != k implies
                        self.files@[i] == before[i] by {}
                }
            },
            None => {
                self.files.push(FileChanges { path: vstd::slice::slice_to_vec(path), lines: vec![line] });
            },
        }
        proof {
            let target = with_line(old(self)@, path@, line);
            assert forall|p: Seq<u8>| self.has_path(p) <==> (old(self).has_path(p) || p == path@) by {
                if self.has_path(p) {
                    let i = choose|i: int| 0 <= i < self.files@.len() && #[trigger] self.files@[i].path@ == p;
                    if i < old(self).files@.len() {
                        assert(old(self).files@[i].path@ == p);
                    }
                }
                if old(self).has_path(p) {
                    let i = choose|i: int| 0 <= i < old(self).files@.len() && #[trigger] old(self).files@[i].path@ == p;
                    assert(self.files@[i].path@ == p);
                }
                if p == path@ && !old(self).has_path(p) {
                    assert(self.files@[old(self).files@.len() as int].path@ == p);
                }
            }
            assert(self@.dom() =~= target.dom());
            assert forall|p: Seq<u8>| #[trigger] self@.contains_key(p) implies self@[p] =~= target[p] by {
                assert forall|l: u64| self@[p].contains(l) == target[p].contains(l) by {
                    assert(self@[p].contains(l) == self.has_line(p, l));
                    if p != path@ {
                        if self.has_line(p, l) {
                            let i = choose|i: int| 0 <= i < self.files@.len() && #[trigger] self.files@[i].path@ == p
                                && self.files@[i].lines@.contains(l);
                            assert(old(self).files@[i] == self.files@[i]);
                        }
                        if old(self).has_line(p, l) {
                            let i = choose|i: int| 0 <= i < old(self).files@.len() && #[trigger] old(self).files@[i].path@ == p
                                && old(self).files@[i].lines@.contains(l);
                            assert(old(self).files@[i] == self.files@[i]);
                        }
                    }
                }
            }
            assert(self@ =~= target);
        }
    }
}

} // verus!
