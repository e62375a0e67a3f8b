//! Settings of a clippy run over one project, and the command line they give.
use vstd::prelude::*;
use vstd::string::StringSliceAdditionalSpecFns;
use crate::diff::{lines_of, split_lines};
use crate::intersect::Finding;

verus! {

/// The code of a lint and its explanation.
pub struct LintCode {
    pub code: String,
    pub explanation: String,
}

/// The file and first line a lint is reported on.
pub struct LintSpan {
    pub file_name: String,
    pub line_start: usize,
}

/// One record of clippy's JSON output.
pub struct Lint {
    pub package_id: String,
    pub src_path: Option<String>,
    pub message: Option<Message>,
}

/// The rendered text of a lint and the places it is reported at.
pub struct Message {
    pub rendered: String,
    pub spans: Vec<Span>,
}

/// A file and an inclusive range of lines in it.
pub struct Span {
    pub file_name: String,
    pub line_start: i32,
    pub line_end: i32,
}

pub const OPEN_BRACE: u8 = 123;

/// A line that may hold a JSON record: one that starts with `{`.
pub open spec fn is_record_line(l: Seq<u8>) -> bool {
    l.len() > 0 && l[0] == OPEN_BRACE
}

/// The lines of clippy's output that may hold a JSON record, in their order.
pub fn record_lines(output: &str) -> (r: Vec<Vec<u8>>)
    ensures
        r@.map_values(|l: Vec<u8>| l@) == lines_of(output.spec_bytes()).filter(
            |l: Seq<u8>| is_record_line(l),
        ),
{
    let lines = split_lines(output.as_bytes());
    let ghost all = lines@.map_values(|l: Vec<u8>| l@);
    let mut r: Vec<Vec<u8>> = Vec::new();
    let mut i: usize = 0;
    while i < lines.len()
        invariant
            i <= lines@.len(),
            all == lines@.map_values(|l: Vec<u8>| l@),
            r@.map_values(|l: Vec<u8>| l@) == all.subrange(0, i as int).filter(
                |l: Seq<u8>| is_record_line(l),
            ),
        decreases lines@.len() - i,
    {
        let keep = lines[i].len() > 0 && lines[i][0] == OPEN_BRACE;
        proof {
            assert(all[i as int] == lines@[i as int]@);
            assert(all.subrange(0, i + 1).drop_last() =~= all.subrange(0, i as int));
            reveal(Seq::filter);
        }
        if keep {
            r.push(vstd::slice::slice_to_vec(lines[i].as_slice()));
            proof {
                assert(r@.map_values(|l: Vec<u8>| l@) =~= all.subrange(0, i + 1).filter(
                    |l: Seq<u8>| is_record_line(l),
                ));
            }
        }
        i = i + 1;
    }
    proof {
        assert(all.subrange(0, lines@.len() as int) =~= all);
    }
    r
}

/// The lint carries a message reported at one place or more.
pub open spec fn has_spans(l: Lint) -> bool {
    match l.message {
        Some(m) => m.spans@.len() > 0,
        None => false,
    }
}

/// Keeps the lints that carry a message with at least one place, in their order.
pub fn lints_with_spans(lints: Vec<Lint>) -> (r: Vec<Lint>)
    ensures
        r@ == lints@.filter(|l: Lint| has_spans(l)),
{
    let ghost all = lints@;
    let mut lints = lints;
    let mut r: Vec<Lint> = Vec::new();
    let mut i: usize = 0;
    while i < lints.len()
        invariant
            i <= lints@.len() == all.len(),
            forall|m: int| i <= m < all.len() ==> lints@[m] == all[m],
            r@ == all.subrange(0, i as int).filter(|l: Lint| has_spans(l)),
        decreases all.len() - i,
    {
        let mut l = Lint { package_id: String::new(), src_path: None, message: None };
        std::mem::swap(&mut lints[i], &mut l);
        proof {
            assert(all.subrange(0, i + 1).drop_last() =~= all.subrange(0, i as int));
            reveal(Seq::filter);
        }
        let keep = match &l.message {
            Some(m) => m.spans.len() > 0,
            None => false,
        };
        if keep {
            r.push(l);
        }
        i = i + 1;
    }
    proof {
        assert(all.subrange(0, all.len() as int) =~= all);
    }
    r
}

/// The finding for one place of a message; none where the lines do not form a
/// 1-based range.
pub open spec fn span_finding(m: Message, s: Span) -> Option<Finding> {
    if 1 <= s.line_start <= s.line_end {
        Some(Finding { path: s.file_name, start: s.line_start as u64, end: s.line_end as u64, message: m.rendered })
    } else {
        None
    }
}

pub open spec fn option_seq(o: Option<Finding>) -> Seq<Finding> {
    match o {
        Some(f) => seq![f],
        None => Seq::empty(),
    }
}

/// One finding for each well-formed place of the message, in order.
pub open spec fn message_findings(m: Message, spans: Seq<Span>) -> Seq<Finding>
    decreases spans.len(),
{
    if spans.len() == 0 {
        Seq::empty()
    } else {
        message_findings(m, spans.drop_last()) + option_seq(span_finding(m, spans.last()))
    }
}

pub open spec fn lint_findings(l: Lint) -> Seq<Finding> {
    match l.message {
        Some(m) => message_findings(m, m.spans@),
        None => Seq::empty(),
    }
}

/// The findings of all the lints, lint by lint and place by place.
pub open spec fn lints_findings(ls: Seq<Lint>) -> Seq<Finding>
    decreases ls.len(),
{
    if ls.len() == 0 {
        Seq::empty()
    } else {
        lints_findings(ls.drop_last()) + lint_findings(ls.last())
    }
}

/// Turns each place a lint is reported at into a finding of its own; places whose
/// lines are not a 1-based range are skipped.
pub fn findings_from_lints(lints: &[Lint]) -> (r: Vec<Finding>)
    ensures
        r@ == lints_findings(lints@),
{
    let mut r: Vec<Finding> = Vec::new();
    let mut i: usize = 0;
    while i < lints.len()
        invariant
            i <= lints@.len(),
            r@ == lints_findings(lints@.subrange(0, i as int)),
        decreases lints@.len() - i,
    {
        let ghost done = r@;
        proof {
            assert(lints@.subrange(0, i + 1).drop_last() =~= lints@.subrange(0, i as int));
        }
        match &lints[i].message {
            Some(m) => {
                let mut j: usize = 0;
                while j < m.spans.len()
                    invariant
                        j <= m.spans@.len(),
                        r@ == done + message_findings(*m, m.spans@.subrange(0, j as int)),
                    decreases m.spans@.len() - j,
                {
                    let sp = &m.spans[j];
                    proof {
                        assert(m.spans@.subrange(0, j + 1).drop_last() =~= m.spans@.subrange(0, j as int));
                    }
                    if 1 <= sp.line_start && sp.line_start <= sp.line_end {
                        r.push(
                            Finding {
                                path: sp.file_name.clone(),
                                start: sp.line_start as u64,
                                end: sp.line_end as u64,
                                message: m.rendered.clone(),
                            },
                        );
                    }
                    proof {
                        assert(r@ =~= done + message_findings(*m, m.spans@.subrange(0, j + 1)));
                    }
                    j = j + 1;
                }
                proof {
                    assert(m.spans@.subrange(0, m.spans@.len() as int) =~= m.spans@);
                }
            },
            None => {},
        }
        proof {
            assert(r@ =~= lints_findings(lints@.subrange(0, i + 1)));
        }
        i = i + 1;
    }
    proof {
        assert(lints@.subrange(0, lints@.len() as int) =~= lints@);
    }
    r
}

/// Options for a clippy run over a single project or workspace member.
pub struct Linter {
    pub verbose: bool,
    pub no_default_features: bool,
    pub all_features: bool,
}

/// The arguments handed to `cargo` for a run with the given options.
pub open spec fn linter_parameters(verbose: bool, no_default_features: bool, all_features: bool) -> Seq<Seq<char>> {
    seq!["clippy"@, "--message-format"@, "json"@]
        + (if verbose { seq!["--verbose"@] } else { Seq::empty() })
        + (if no_default_features { seq!["--no-default-features"@] } else { Seq::empty() })
        + (if all_features { seq!["--all-features"@] } else { Seq::empty() })
        + seq!["--"@, "-W"@, "clippy::pedantic"@]
}

/// The environment variables set for a run: a full backtrace when verbose.
pub open spec fn linter_envs(verbose: bool) -> Seq<(Seq<char>, Seq<char>)> {
    if verbose {
        seq![("RUST_BACKTRACE"@, "full"@)]
    } else {
        Seq::empty()
    }
}

impl Linter {
    pub fn new() -> (r: Self)
        ensures
            !r.verbose,
            !r.no_default_features,
            !r.all_features,
    {
        Linter { verbose: false, no_default_features: false, all_features: false }
    }

    pub fn set_verbose(&mut self, verbose: bool) -> (r: &mut Self)
        ensures
            *r == (Linter { verbose, ..*old(self) }),
            *final(self) == *final(r),
    {
        self.verbose = verbose;
        self
    }

    pub fn set_no_default_features(&mut self, no_default_features: bool) -> (r: &mut Self)
        ensures
            *r == (Linter { no_default_features, ..*old(self) }),
            *final(self) == *final(r),
    {
        self.no_default_features = no_default_features;
        self
    }

    pub fn set_all_features(&mut self, all_features: bool) -> (r: &mut Self)
        ensures
            *r == (Linter { all_features, ..*old(self) }),
            *final(self) == *final(r),
    {
        self.all_features = all_features;
        self
    }

    /// A run over a whole workspace is possible unless default features are switched off.
    pub fn can_run_in_workspace(&self) -> (r: bool)
        ensures
            r == !self.no_default_features,
    {
        !self.no_default_features
    }

    /// The arguments handed to `cargo` for this run.
    pub fn get_command_parameters(&self) -> (r: Vec<&str>)
        ensures
            r@.map_values(|p: &str| p@) == linter_parameters(
                self.verbose,
                self.no_default_features,
                self.all_features,
            ),
    {
        let mut params: Vec<&str> = vec!["clippy", "--message-format", "json"];
        if self.verbose {
            params.push("--verbose");
        }
        if self.no_default_features {
            params.push("--no-default-features");
        }
        if self.all_features {
            params.push("--all-features");
        }
        params.push("--");
        params.push("-W");
        params.push("clippy::pedantic");
        proof {
            reveal_strlit("clippy");
            reveal_strlit("--message-format");
            reveal_strlit("json");
            reveal_strlit("--verbose");
            reveal_strlit("--no-default-features");
            reveal_strlit("--all-features");
            reveal_strlit("--");
            reveal_strlit("-W");
            reveal_strlit("clippy::pedantic");
            assert(params@.map_values(|p: &str| p@) =~= linter_parameters(
                self.verbose,
                self.no_default_features,
                self.all_features,
            ));
        }
        params
    }

    /// The environment variables set for this run.
    pub fn get_envs(&self) -> (r: Vec<(&str, &str)>)
        ensures
            r@.map_values(|e: (&str, &str)| (e.0@, e.1@)) == linter_envs(self.verbose),
    {
        let mut envs: Vec<(&str, &str)> = Vec::new();
        if self.verbose {
            envs.push(("RUST_BACKTRACE", "full"));
        }
        proof {
            assert(envs@.map_values(|e: (&str, &str)| (e.0@, e.1@)) =~= linter_envs(self.verbose));
        }
        envs
    }
}

} // verus!
