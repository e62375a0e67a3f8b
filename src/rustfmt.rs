//! What rustfmt reports: mismatches, their messages, and the findings they give.
use vstd::prelude::*;
use crate::intersect::Finding;

verus! {

/// A place where rustfmt would change the code: the lines it covers, the text
/// there, and the text rustfmt expects.
pub struct FmtMismatch {
    pub original_begin_line: u32,
    pub original_end_line: u32,
    pub original: String,
    pub expected: String,
}

/// The mismatches rustfmt reports for one file.
pub struct FmtLint {
    pub name: String,
    pub mismatches: Vec<FmtMismatch>,
}

/// Each mismatch of each file, beside the file's name, in order.
pub open spec fn fmt_entries(ls: Seq<FmtLint>) -> Seq<(String, FmtMismatch)>
    decreases ls.len(),
{
    if ls.len() == 0 {
        Seq::empty()
    } else {
        fmt_entries(ls.drop_last()) + ls.last().mismatches@.map_values(
            |m: FmtMismatch| (ls.last().name, m),
        )
    }
}

pub open spec fn digit_char(d: nat) -> char {
    if d == 0 { '0' }
    else if d == 1 { '1' }
    else if d == 2 { '2' }
    else if d == 3 { '3' }
    else if d == 4 { '4' }
    else if d == 5 { '5' }
    else if d == 6 { '6' }
    else if d == 7 { '7' }
    else if d == 8 { '8' }
    else { '9' }
}

/// The decimal digits of `n`, without leading zeros.
pub open spec fn decimal_text(n: nat) -> Seq<char>
    decreases n,
{
    if n < 10 {
        seq![digit_char(n)]
    } else {
        decimal_text(n / 10).push(digit_char(n % 10))
    }
}

pub open spec fn strip_cr(l: Seq<char>) -> Seq<char> {
    if l.len() > 0 && l.last() == '\r' {
        l.drop_last()
    } else {
        l
    }
}

/// Splitting text into lines after the first `n` characters: the finished lines,
/// without `\n` or `\r\n`, and the line under way.
pub open spec fn text_split(s: Seq<char>, n: int) -> (Seq<Seq<char>>, Seq<char>)
    decreases n,
{
    if n <= 0 {
        (Seq::empty(), Seq::empty())
    } else {
        let (done, cur) = text_split(s, n - 1);
        if s[n - 1] == '\n' {
            (done.push(strip_cr(cur)), Seq::empty())
        } else {
            (done, cur.push(s[n - 1]))
        }
    }
}

/// The lines of a text: split at `\n` or `\r\n`, with the last line ending optional.
pub open spec fn text_lines(s: Seq<char>) -> Seq<Seq<char>> {
    let (done, cur) = text_split(s, s.len() as int);
    if cur.len() > 0 {
        done.push(cur)
    } else {
        done
    }
}

/// Each line behind `mark`, the lines joined by `\n`.
pub open spec fn marked_lines(lines: Seq<Seq<char>>, mark: char) -> Seq<char>
    decreases lines.len(),
{
    if lines.len() == 0 {
        Seq::empty()
    } else if lines.len() == 1 {
        seq![mark] + lines[0]
    } else {
        marked_lines(lines.drop_last(), mark) + seq!['\n', mark] + lines.last()
    }
}

/// The message for a mismatch in the file `path`.
pub open spec fn mismatch_message(m: FmtMismatch, path: Seq<char>) -> Seq<char> {
    if m.original_begin_line == m.original_end_line {
        "Diff in "@ + path + " at line "@ + decimal_text(m.original_begin_line as nat) + ": \n-"@
            + m.original@ + "\n+"@ + m.expected@ + "\n"@
    } else {
        "Diff in "@ + path + " between lines "@ + decimal_text(m.original_begin_line as nat)
            + " and "@ + decimal_text(m.original_end_line as nat) + ": \n"@
            + marked_lines(text_lines(m.original@), '-') + "\n"@
            + marked_lines(text_lines(m.expected@), '+') + "\n"@
    }
}

/// The characters of `s`, one by one.
fn chars_of(s: &str) -> (r: Vec<char>)
    ensures
        r@ == s@,
{
    let mut r: Vec<char> = Vec::new();
    for c in it: s.chars()
        invariant
            r@ == it.seq().subrange(0, it.index() as int),
    {
        r.push(c);
    }
    r
}

fn push_all(out: &mut Vec<char>, s: &Vec<char>)
    ensures
        final(out)@ == old(out)@ + s@,
{
    let mut i: usize = 0;
    while i < s.len()
        invariant
            i <= s@.len(),
            out@ == old(out)@ + s@.subrange(0, i as int),
        decreases s@.len() - i,
    {
        out.push(s[i]);
        i = i + 1;
        proof {
            assert(out@ =~= old(out)@ + s@.subrange(0, i as int));
        }
    }
    proof {
        assert(s@.subrange(0, s@.len() as int) =~= s@);
    }
}

fn push_str(out: &mut Vec<char>, s: &str)
    ensures
        final(out)@ == old(out)@ + s@,
{
    let cs = chars_of(s);
    push_all(out, &cs);
}

fn digit(d: u32) -> (c: char)
    requires
        d < 10,
    ensures
        c == digit_char(d as nat),
{
    if d == 0 { '0' }
    else if d == 1 { '1' }
    else if d == 2 { '2' }
    else if d == 3 { '3' }
    else if d == 4 { '4' }
    else if d == 5 { '5' }
    else if d == 6 { '6' }
    else if d == 7 { '7' }
    else if d == 8 { '8' }
    else { '9' }
}

/// Writes `n` in decimal.
fn push_decimal(out: &mut Vec<char>, n: u32)
    ensures
        final(out)@ == old(out)@ + decimal_text(n as nat),
    decreases n,
{
    if n >= 10 {
        push_decimal(out, n / 10);
    }
    out.push(digit(n % 10));
    proof {
        assert(out@ =~= old(out)@ + decimal_text(n as nat));
    }
}

/// Splits `s` into its lines, as `text_lines` says.
fn lines_of_text(s: &Vec<char>) -> (r: Vec<Vec<char>>)
    ensures
        r@.map_values(|l: Vec<char>| l@) == text_lines(s@),
{
    let mut done: Vec<Vec<char>> = Vec::new();
    let mut cur: Vec<char> = Vec::new();
    let mut i: usize = 0;
    while i < s.len()
        invariant
            i <= s@.len(),
            done@.map_values(|l: Vec<char>| l@) == text_split(s@, i as int).0,
            cur@ == text_split(s@, i as int).1,
        decreases s@.len() - i,
    {
        if s[i] == '\n' {
            let mut line = cur;
            cur = Vec::new();
            let n = line.len();
            if n > 0 && line[n - 1] == '\r' {
                line.pop();
            }
            done.push(line);
            proof {
                assert(done@.map_values(|l: Vec<char>| l@) =~= text_split(s@, i + 1).0);
            }
        } else {
            cur.push(s[i]);
        }
        i = i + 1;
    }
    if cur.len() > 0 {
        done.push(cur);
        proof {
            assert(done@.map_values(|l: Vec<char>| l@) =~= text_lines(s@));
        }
    }
    done
}

/// Writes the lines of `text`, each behind `mark`, joined by `\n`.
fn push_marked_lines(out: &mut Vec<char>, text: &str, mark: char)
    ensures
        final(out)@ == old(out)@ + marked_lines(text_lines(text@), mark),
{
    let cs = chars_of(text);
    let lines = lines_of_text(&cs);
    let ghost ls = lines@.map_values(|l: Vec<char>| l@);
    let mut i: usize = 0;
    while i < lines.len()
        invariant
            i <= lines@.len(),
            ls == lines@.map_values(|l: Vec<char>| l@),
            out@ == old(out)@ + marked_lines(ls.subrange(0, i as int), mark),
        decreases lines@.len() - i,
    {
        if i > 0 {
            out.push('\n');
        }
        out.push(mark);
        push_all(out, &lines[i]);
        proof {
            let next = ls.subrange(0, i + 1);
            assert(next.drop_last() =~= ls.subrange(0, i as int));
            assert(next.last() == lines@[i as int]@);
            if i == 0 {
                assert(out@ =~= old(out)@ + marked_lines(next, mark));
            } else {
                assert(out@ =~= old(out)@ + marked_lines(next, mark));
            }
        }
        i = i + 1;
    }
    proof {
        assert(ls.subrange(0, lines@.len() as int) =~= ls);
    }
}

/// Relies on `String`'s `FromIterator<char>`: the string holds the characters in order.
#[verifier::external_body]
fn string_from_chars(cs: &Vec<char>) -> (r: String)
    ensures
        r@ == cs@,
{
    cs.iter().collect()
}

/// Describes a mismatch in the file `path`: the old text behind `-` and the new behind `+`.
pub fn display_missmatch(missmatch: &FmtMismatch, path: &str) -> (r: String)
    ensures
        r@ == mismatch_message(*missmatch, path@),
{
    let mut out: Vec<char> = Vec::new();
    push_str(&mut out, "Diff in ");
    push_str(&mut out, path);
    if missmatch.original_begin_line == missmatch.original_end_line {
        push_str(&mut out, " at line ");
        push_decimal(&mut out, missmatch.original_begin_line);
        push_str(&mut out, ": \n-");
        push_str(&mut out, missmatch.original.as_str());
        push_str(&mut out, "\n+");
        push_str(&mut out, missmatch.expected.as_str());
        push_str(&mut out, "\n");
    } else {
        push_str(&mut out, " between lines ");
        push_decimal(&mut out, missmatch.original_begin_line);
        push_str(&mut out, " and ");
        push_decimal(&mut out, missmatch.original_end_line);
        push_str(&mut out, ": \n");
        push_marked_lines(&mut out, missmatch.original.as_str(), '-');
        push_str(&mut out, "\n");
        push_marked_lines(&mut out, missmatch.expected.as_str(), '+');
        push_str(&mut out, "\n");
    }
    proof {
        assert(out@ =~= mismatch_message(*missmatch, path@));
    }
    string_from_chars(&out)
}

/// One finding for each mismatch: the file, the lines it covers, and its message.
pub fn fmt_findings(lints: &[FmtLint]) -> (r: Vec<Finding>)
    ensures
        r@.len() == fmt_entries(lints@).len(),
        forall|k: int| 0 <= k < r@.len() ==> {
            let (name, m) = #[trigger] fmt_entries(lints@)[k];
            &&& r@[k].path == name
            &&& r@[k].start == m.original_begin_line as u64
            &&& r@[k].end == m.original_end_line as u64
            &&& r@[k].message@ == mismatch_message(m, name@)
        },
{
    let mut r: Vec<Finding> = Vec::new();
    let mut i: usize = 0;
    while i < lints.len()
        invariant
            i <= lints@.len(),
            r@.len() == fmt_entries(lints@.subrange(0, i as int)).len(),
            forall|k: int| 0 <= k < r@.len() ==> {
                let (name, m) = #[trigger] fmt_entries(lints@.subrange(0, i as int))[k];
                &&& r@[k].path == name
                &&& r@[k].start == m.original_begin_line as u64
                &&& r@[k].end == m.original_end_line as u64
                &&& r@[k].message@ == mismatch_message(m, name@)
            },
        decreases lints@.len() - i,
    {
        let lint = &lints[i];
        let ghost before = fmt_entries(lints@.subrange(0, i as int));
        let ghost added = lint.mismatches@.map_values(|m: FmtMismatch| (lint.name, m));
        proof {
            assert(lints@.subrange(0, i + 1).drop_last() =~= lints@.subrange(0, i as int));
            assert(fmt_entries(lints@.subrange(0, i + 1)) == before + added);
        }
        let mut j: usize = 0;
        while j < lint.mismatches.len()
            invariant
                j <= lint.mismatches@.len(),
                added == lint.mismatches@.map_values(|m: FmtMismatch| (lint.name, m)),
                r@.len() == before.len() + j,
                forall|k: int| 0 <= k < r@.len() ==> {
                    let (name, m) = #[trigger] (before + added)[k];
                    &&& r@[k].path == name
                    &&& r@[k].start == m.original_begin_line as u64
                    &&& r@[k].end == m.original_end_line as u64
                    &&& r@[k].message@ == mismatch_message(m, name@)
                },
            decreases lint.mismatches@.len() - j,
        {
            let m = &lint.mismatches[j];
            let message = display_missmatch(m, lint.name.as_str());
            r.push(
                Finding {
                    path: lint.name.clone(),
                    start: m.original_begin_line as u64,
                    end: m.original_end_line as u64,
                    message,
                },
            );
            proof {
                assert(added[j as int] == (lint.name, *m));
                assert((before + added)[before.len() + j] == (lint.name, *m));
            }
            j = j + 1;
        }
        i = i + 1;
    }
    proof {
        assert(lints@.subrange(0, lints@.len() as int) =~= lints@);
    }
    r
}

} // verus!
