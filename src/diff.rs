//! Reading the lines added to each file out of a unified diff.
use vstd::prelude::*;
use crate::changes::{ChangeSet, with_line};
use vstd::string::StringSliceAdditionalSpecFns;
use crate::text::{lit_at, number_at, parse_number, has_lit_at};

verus! {

pub const NEWLINE: u8 = 10;

pub const SPACE: u8 = 32;

pub const PLUS: u8 = 43;

pub const MINUS: u8 = 45;

pub const BACKSLASH: u8 = 92;

/// `diff --git `
pub open spec fn git_marker() -> Seq<u8> {
    seq![100u8, 105, 102, 102, 32, 45, 45, 103, 105, 116, 32]
}

/// `--- `
pub open spec fn old_marker() -> Seq<u8> {
    seq![45u8, 45, 45, 32]
}

/// `+++ `
pub open spec fn new_marker() -> Seq<u8> {
    seq![43u8, 43, 43, 32]
}

/// `b/`
pub open spec fn new_prefix() -> Seq<u8> {
    seq![98u8, 47]
}

/// `@@`
pub open spec fn hunk_marker() -> Seq<u8> {
    seq![64u8, 64]
}

/// `@@ -`
pub open spec fn hunk_open() -> Seq<u8> {
    seq![64u8, 64, 32, 45]
}

/// `,`
pub open spec fn comma() -> Seq<u8> {
    seq![44u8]
}

/// ` +`
pub open spec fn new_range_sep() -> Seq<u8> {
    seq![32u8, 43]
}

/// ` @@`
pub open spec fn hunk_close() -> Seq<u8> {
    seq![32u8, 64, 64]
}

/// The four numbers of a hunk header `@@ -<old_start>,<old_len> +<new_start>,<new_len> @@`.
#[derive(Clone, Copy, PartialEq, Eq, Debug)]
pub struct HunkHeader {
    pub old_start: u64,
    pub old_len: u64,
    pub new_start: u64,
    pub new_len: u64,
}

/// The hunk header that `line` holds, if it is one. Text after the closing `@@`
/// (the section heading that git adds) is allowed. A header whose new side is not
/// 1-based, or whose last line number would not fit in 64 bits, is malformed.
pub open spec fn hunk_header(line: Seq<u8>) -> Option<HunkHeader> {
    if !lit_at(line, 0, hunk_open()) {
        None
    } else {
        match number_at(line, 4) {
            None => None,
            Some((os, i1)) => if !lit_at(line, i1, comma()) {
                None
            } else {
                match number_at(line, i1 + 1) {
                    None => None,
                    Some((ol, i2)) => if !lit_at(line, i2, new_range_sep()) {
                        None
                    } else {
                        match number_at(line, i2 + 2) {
                            None => None,
                            Some((ns, i3)) => if !lit_at(line, i3, comma()) {
                                None
                            } else {
                                match number_at(line, i3 + 1) {
                                    None => None,
                                    Some((nl, i4)) => if lit_at(line, i4, hunk_close()) && (nl == 0
                                        || ns >= 1) && ns + nl <= u64::MAX {
                                        Some(HunkHeader { old_start: os, old_len: ol, new_start: ns, new_len: nl })
                                    } else {
                                        None
                                    },
                                }
                            },
                        }
                    },
                }
            },
        }
    }
}

fn lit_bytes(l: &[u8]) -> (r: Vec<u8>)
    ensures
        r@ == l@,
{
    vstd::slice::slice_to_vec(l)
}

/// Reads a hunk header.
pub fn parse_hunk_header(line: &[u8]) -> (r: Option<HunkHeader>)
    ensures
        r == hunk_header(line@),
{
    // Positions below stay within the line, whose length fits in a `usize`.
    let _len = line.len();
    let open = lit_bytes(&[64u8, 64, 32, 45]);
    let comma_b = lit_bytes(&[44u8]);
    let sep = lit_bytes(&[32u8, 43]);
    let close = lit_bytes(&[32u8, 64, 64]);
    proof {
        assert(open@ =~= hunk_open());
        assert(comma_b@ =~= comma());
        assert(sep@ =~= new_range_sep());
        assert(close@ =~= hunk_close());
    }
    if !has_lit_at(line, 0, open.as_slice()) {
        return None;
    }
    let (os, i1) = match parse_number(line, 4) {
        Some(x) => x,
        None => return None,
    };
    if !has_lit_at(line, i1, comma_b.as_slice()) {
        return None;
    }
    let (ol, i2) = match parse_number(line, i1 + 1) {
        Some(x) => x,
        None => return None,
    };
    if !has_lit_at(line, i2, sep.as_slice()) {
        return None;
    }
    let (ns, i3) = match parse_number(line, i2 + 2) {
        Some(x) => x,
        None => return None,
    };
    if !has_lit_at(line, i3, comma_b.as_slice()) {
        return None;
    }
    let (nl, i4) = match parse_number(line, i3 + 1) {
        Some(x) => x,
        None => return None,
    };
    if has_lit_at(line, i4, close.as_slice()) && (nl == 0 || ns >= 1) && ns <= u64::MAX - nl {
        Some(HunkHeader { old_start: os, old_len: ol, new_start: ns, new_len: nl })
    } else {
        None
    }
}

/// Where a reader of a diff stands after some of its lines: the file whose hunks
/// are being read (none for a deleted file, or after a malformed hunk header), the
/// new-side number of the next line, how many old-side and new-side lines the
/// current hunk still holds, and the changes recorded so far.
pub struct DiffModel {
    pub file: Option<Seq<u8>>,
    pub next_line: u64,
    pub old_left: u64,
    pub new_left: u64,
    pub changes: Map<Seq<u8>, Set<u64>>,
}

pub open spec fn initial_model() -> DiffModel {
    DiffModel { file: None, next_line: 0, old_left: 0, new_left: 0, changes: Map::empty() }
}

pub open spec fn in_hunk(m: DiffModel) -> bool {
    m.old_left > 0 || m.new_left > 0
}

/// The effect of a line read as a body line of the current hunk; none where the
/// hunk cannot take it (a leading character the hunk has no room for, or another one).
pub open spec fn body_step(m: DiffModel, line: Seq<u8>) -> Option<DiffModel> {
    if line.len() == 0 {
        None
    } else if line[0] == SPACE && m.old_left > 0 && m.new_left > 0 {
        Some(DiffModel {
            next_line: (m.next_line + 1) as u64,
            old_left: (m.old_left - 1) as u64,
            new_left: (m.new_left - 1) as u64,
            ..m
        })
    } else if line[0] == PLUS && m.new_left > 0 {
        Some(DiffModel {
            next_line: (m.next_line + 1) as u64,
            new_left: (m.new_left - 1) as u64,
            changes: match m.file {
                Some(p) => with_line(m.changes, p, m.next_line),
                None => m.changes,
            },
            ..m
        })
    } else if line[0] == MINUS && m.old_left > 0 {
        Some(DiffModel { old_left: (m.old_left - 1) as u64, ..m })
    } else if line[0] == BACKSLASH {
        Some(m)
    } else {
        None
    }
}

/// The effect of a line outside any hunk: file headers, hunk headers, and
/// metadata, which changes nothing.
pub open spec fn header_step(m: DiffModel, line: Seq<u8>) -> DiffModel {
    let m = DiffModel { old_left: 0, new_left: 0, ..m };
    if lit_at(line, 0, git_marker()) || lit_at(line, 0, old_marker()) {
        DiffModel { file: None, ..m }
    } else if lit_at(line, 0, new_marker()) {
        DiffModel {
            file: if lit_at(line, 4, new_prefix()) {
                Some(line.subrange(6, line.len() as int))
            } else {
                None
            },
            ..m
        }
    } else if lit_at(line, 0, hunk_marker()) {
        match hunk_header(line) {
            Some(h) => DiffModel {
                next_line: h.new_start,
                old_left: h.old_len,
                new_left: h.new_len,
                ..m
            },
            None => DiffModel { file: None, ..m },
        }
    } else {
        m
    }
}

pub open spec fn step(m: DiffModel, line: Seq<u8>) -> DiffModel {
    if in_hunk(m) {
        match body_step(m, line) {
            Some(m2) => m2,
            None => header_step(m, line),
        }
    } else {
        header_step(m, line)
    }
}

/// The reader's state after the first `n` lines.
pub open spec fn run(lines: Seq<Seq<u8>>, n: int) -> DiffModel
    decreases n,
{
    if n <= 0 {
        initial_model()
    } else {
        step(run(lines, n - 1), lines[n - 1])
    }
}

/// Splitting text at newlines: the finished lines and the line under way after
/// the first `n` bytes.
pub open spec fn split_prefix(text: Seq<u8>, n: int) -> (Seq<Seq<u8>>, Seq<u8>)
    decreases n,
{
    if n <= 0 {
        (Seq::empty(), Seq::empty())
    } else {
        let (done, cur) = split_prefix(text, n - 1);
        if text[n - 1] == NEWLINE {
            (done.push(cur), Seq::empty())
        } else {
            (done, cur.push(text[n - 1]))
        }
    }
}

/// The lines of `text`, without their newlines; a last line without a newline counts
/// when it is not empty.
pub open spec fn lines_of(text: Seq<u8>) -> Seq<Seq<u8>> {
    let (done, cur) = split_prefix(text, text.len() as int);
    if cur.len() > 0 {
        done.push(cur)
    } else {
        done
    }
}

/// The changed lines that a unified diff gives each file.
pub open spec fn diff_changes(text: Seq<u8>) -> Map<Seq<u8>, Set<u64>> {
    run(lines_of(text), lines_of(text).len() as int).changes
}

/// Every recorded line number is 1-based, and so is the next one while the hunk
/// has new-side lines left; the hunk's last line number fits in 64 bits.
pub open spec fn lines_positive(m: DiffModel) -> bool {
    &&& (m.new_left > 0 ==> m.next_line >= 1)
    &&& m.next_line + m.new_left <= u64::MAX
    &&& forall|p: Seq<u8>, l: u64|
        #[trigger] m.changes.contains_key(p) && #[trigger] m.changes[p].contains(l) ==> l >= 1
}

proof fn lemma_header_positive(m: DiffModel, line: Seq<u8>)
    requires
        lines_positive(m),
    ensures
        lines_positive(header_step(m, line)),
{
    let h = header_step(m, line);
    assert(h.changes == m.changes);
    if h.new_left > 0 {
        assert(lit_at(line, 0, hunk_marker()));
        let hh = hunk_header(line).unwrap();
        assert(hh.new_len == 0 || hh.new_start >= 1);
    }
}

proof fn lemma_step_positive(m: DiffModel, line: Seq<u8>)
    requires
        lines_positive(m),
    ensures
        lines_positive(step(m, line)),
{
    lemma_header_positive(m, line);
    if in_hunk(m) && body_step(m, line) is Some {
        let m2 = body_step(m, line).unwrap();
        assert forall|q: Seq<u8>, l: u64|
            #[trigger] m2.changes.contains_key(q) && #[trigger] m2.changes[q].contains(l) implies l >= 1 by {
            if !(m.changes.contains_key(q) && m.changes[q].contains(l)) {
                assert(l == m.next_line);
            }
        }
    }
}

proof fn lemma_run_positive(lines: Seq<Seq<u8>>, n: int)
    ensures
        lines_positive(run(lines, n)),
    decreases n,
{
    if n > 0 {
        lemma_run_positive(lines, n - 1);
        lemma_step_positive(run(lines, n - 1), lines[n - 1]);
    }
}

/// Splits `text` into its lines, as `lines_of` says.
pub fn split_lines(text: &[u8]) -> (r: Vec<Vec<u8>>)
    ensures
        r@.map_values(|l: Vec<u8>| l@) == lines_of(text@),
{
    let mut done: Vec<Vec<u8>> = Vec::new();
    let mut cur: Vec<u8> = Vec::new();
    let mut i: usize = 0;
    while i < text.len()
        invariant
            i <= text@.len(),
            done@.map_values(|l: Vec<u8>| l@) == split_prefix(text@, i as int).0,
            cur@ == split_prefix(text@, i as int).1,
        decreases text@.len() - i,
    {
        if text[i] == NEWLINE {
            let line = cur;
            cur = Vec::new();
            done.push(line);
            proof {
                assert(done@.map_values(|l: Vec<u8>| l@) =~= split_prefix(text@, i + 1).0);
            }
        } else {
            cur.push(text[i]);
        }
        i = i + 1;
    }
    if cur.len() > 0 {
        done.push(cur);
        proof {
            assert(done@.map_values(|l: Vec<u8>| l@) =~= lines_of(text@));
        }
    }
    done
}

/// The executable state of a diff reader; see `DiffModel`.
struct Reader {
    file: Option<Vec<u8>>,
    next_line: u64,
    old_left: u64,
    new_left: u64,
    changes: ChangeSet,
}

impl Reader {
    spec fn model(&self) -> DiffModel {
        DiffModel {
            file: match self.file {
                Some(p) => Some(p@),
                None => None,
            },
            next_line: self.next_line,
            old_left: self.old_left,
            new_left: self.new_left,
            changes: self.changes@,
        }
    }

    spec fn inv(&self) -> bool {
        &&& self.changes.wf()
        &&& self.next_line + self.new_left <= u64::MAX
    }

    /// Reads `line` as a body line of the current hunk, if the hunk can take it.
    fn body_line(&mut self, line: &[u8]) -> (took: bool)
        requires
            old(self).inv(),
        ensures
            final(self).inv(),
            took == body_step(old(self).model(), line@) is Some,
            took ==> final(self).model() == body_step(old(self).model(), line@).unwrap(),
            !took ==> *final(self) == *old(self),
    {
        if line.len() == 0 {
            return false;
        }
        let c = line[0];
        if c == SPACE && self.old_left > 0 && self.new_left > 0 {
            self.next_line = self.next_line + 1;
            self.old_left = self.old_left - 1;
            self.new_left = self.new_left - 1;
            true
        } else if c == PLUS && self.new_left > 0 {
            match &self.file {
                Some(p) => self.changes.add_line(p.as_slice(), self.next_line),
                None => {},
            }
            self.next_line = self.next_line + 1;
            self.new_left = self.new_left - 1;
            true
        } else if c == MINUS && self.old_left > 0 {
            self.old_left = self.old_left - 1;
            true
        } else {
            c == BACKSLASH
        }
    }

    /// Reads `line` as a line outside any hunk.
    fn header_line(&mut self, line: &[u8])
        requires
            old(self).inv(),
        ensures
            final(self).inv(),
            final(self).model() == header_step(old(self).model(), line@),
    {
        let git = lit_bytes(&[100u8, 105, 102, 102, 32, 45, 45, 103, 105, 116, 32]);
        let old_m = lit_bytes(&[45u8, 45, 45, 32]);
        let new_m = lit_bytes(&[43u8, 43, 43, 32]);
        let prefix = lit_bytes(&[98u8, 47]);
        let hunk = lit_bytes(&[64u8, 64]);
        proof {
            assert(git@ =~= git_marker());
            assert(old_m@ =~= old_marker());
            assert(new_m@ =~= new_marker());
            assert(prefix@ =~= new_prefix());
            assert(hunk@ =~= hunk_marker());
        }
        self.old_left = 0;
        self.new_left = 0;
        if has_lit_at(line, 0, git.as_slice()) || has_lit_at(line, 0, old_m.as_slice()) {
            self.file = None;
        } else if has_lit_at(line, 0, new_m.as_slice()) {
            if has_lit_at(line, 4, prefix.as_slice()) {
                let path = vstd::slice::slice_to_vec(vstd::slice::slice_subrange(line, 6, line.len()));
                self.file = Some(path);
            } else {
                self.file = None;
            }
        } else if has_lit_at(line, 0, hunk.as_slice()) {
            match parse_hunk_header(line) {
                Some(h) => {
                    self.next_line = h.new_start;
                    self.old_left = h.old_len;
                    self.new_left = h.new_len;
                },
                None => {
                    self.file = None;
                },
            }
        }
    }

    fn read_line(&mut self, line: &[u8])
        requires
            old(self).inv(),
        ensures
            final(self).inv(),
            final(self).model() == step(old(self).model(), line@),
    {
        if self.old_left > 0 || self.new_left > 0 {
            if self.body_line(line) {
                return;
            }
        }
        self.header_line(line);
    }
}

/// Reads a unified diff and gathers, for each file that it leaves in place, the
/// numbers of the lines that it adds.
pub fn parse_diff(text: &str) -> (r: ChangeSet)
    ensures
        r.wf(),
        r@ == diff_changes(text.spec_bytes()),
        forall|p: Seq<u8>, l: u64| #[trigger] r@.contains_key(p) && #[trigger] r@[p].contains(l) ==> l >= 1,
{
    let bytes = text.as_bytes();
    let lines = split_lines(bytes);
    let mut reader = Reader {
        file: None,
        next_line: 0,
        old_left: 0,
        new_left: 0,
        changes: ChangeSet::new(),
    };
    let mut i: usize = 0;
    while i < lines.len()
        invariant
            i <= lines@.len(),
            lines@.map_values(|l: Vec<u8>| l@) == lines_of(bytes@),
            reader.inv(),
            reader.model() == run(lines_of(bytes@), i as int),
        decreases lines@.len() - i,
    {
        proof {
            assert(lines@.map_values(|l: Vec<u8>| l@)[i as int] == lines@[i as int]@);
        }
        reader.read_line(lines[i].as_slice());
        i = i + 1;
    }
    proof {
        lemma_run_positive(lines_of(bytes@), lines@.len() as int);
    }
    reader.changes
}

} // verus!
