//! `uniq`: runs of equal lines, counted.

use vstd::prelude::*;
use crate::text::{
    chars_of, eq_trimmed, trim_end, decimal, pad_left, push_padded, push_str, string_of,
};

verus! {

/// What `uniq` was asked to do.
#[derive(Debug)]
pub struct Config {
    pub in_file: String,
    pub out_file: Option<String>,
    pub count: bool,
}

/// The state of `uniq` between two lines: the line that began the current
/// run and how many lines the run holds so far.
pub struct Uniq {
    prev: Vec<char>,
    count: usize,
}

/// One step of `uniq` on `line` from the state `(prev, count)`: the next
/// state and what is shown. The first line, and a line that differs from
/// `prev` once trailing white space is dropped, starts a new run; when a run
/// was under way, its count is shown together with the line that began it.
/// Any other line extends the run.
pub open spec fn step_spec(prev: Seq<char>, count: nat, line: Seq<char>) -> (
    Seq<char>,
    nat,
    Option<(nat, Seq<char>)>,
) {
    if count == 0 || trim_end(prev) != trim_end(line) {
        (
            line,
            1,
            if count > 0 {
                Some((count, prev))
            } else {
                None
            },
        )
    } else {
        (prev, count + 1, None)
    }
}

/// The state after `lines`, from the start, and all that was shown meanwhile.
pub open spec fn uniq_run(lines: Seq<Seq<char>>) -> (Seq<char>, nat, Seq<(nat, Seq<char>)>)
    decreases lines.len(),
{
    if lines.len() == 0 {
        (Seq::empty(), 0, Seq::empty())
    } else {
        let p = uniq_run(lines.drop_last());
        let s = step_spec(p.0, p.1, lines.last());
        (
            s.0,
            s.1,
            match s.2 {
                Some(x) => p.2.push(x),
                None => p.2,
            },
        )
    }
}

/// Everything `uniq` shows for `lines`: what the steps show, then the count
/// of the last run with the line that began it.
pub open spec fn uniq_output(lines: Seq<Seq<char>>) -> Seq<(nat, Seq<char>)> {
    let r = uniq_run(lines);
    if r.1 > 0 {
        r.2.push((r.1, r.0))
    } else {
        r.2
    }
}

/// The sum of the counts of `out`.
pub open spec fn count_sum(out: Seq<(nat, Seq<char>)>) -> nat
    decreases out.len(),
{
    if out.len() == 0 {
        0
    } else {
        count_sum(out.drop_last()) + out.last().0
    }
}

proof fn lemma_run_counts(lines: Seq<Seq<char>>)
    ensures
        count_sum(uniq_run(lines).2) + uniq_run(lines).1 == lines.len(),
    decreases lines.len(),
{
    if lines.len() > 0 {
        lemma_run_counts(lines.drop_last());
        let p = uniq_run(lines.drop_last());
        let s = step_spec(p.0, p.1, lines.last());
        if let Some(x) = s.2 {
            assert(p.2.push(x).drop_last() =~= p.2);
        }
    }
}

/// Law: every line is counted once, so the counts `uniq` shows add up to
/// the number of lines.
pub proof fn lemma_counts_add_up(lines: Seq<Seq<char>>)
    ensures
        count_sum(uniq_output(lines)) == lines.len(),
{
    lemma_run_counts(lines);
    let r = uniq_run(lines);
    if r.1 > 0 {
        assert(r.2.push((r.1, r.0)).drop_last() =~= r.2);
    }
}

/// The maximal runs of consecutive lines of `lines` that are equal once
/// trailing white space is dropped, each as its length and its first line.
pub open spec fn runs(lines: Seq<Seq<char>>) -> Seq<(nat, Seq<char>)>
    decreases lines.len(),
{
    if lines.len() == 0 {
        Seq::empty()
    } else {
        let r = runs(lines.drop_last());
        if lines.len() >= 2 && trim_end(lines[lines.len() - 1]) == trim_end(
            lines[lines.len() - 2],
        ) {
            r.drop_last().push((r.last().0 + 1, r.last().1))
        } else {
            r.push((1nat, lines.last()))
        }
    }
}

proof fn lemma_run_state(lines: Seq<Seq<char>>)
    requires
        lines.len() > 0,
    ensures
        uniq_run(lines).1 > 0,
        trim_end(uniq_run(lines).0) == trim_end(lines.last()),
        uniq_run(lines).2.push((uniq_run(lines).1, uniq_run(lines).0)) == runs(lines),
    decreases lines.len(),
{
    let d = lines.drop_last();
    if d.len() == 0 {
        assert(runs(d) =~= Seq::<(nat, Seq<char>)>::empty());
        assert(uniq_run(d).2 =~= Seq::<(nat, Seq<char>)>::empty());
    } else {
        lemma_run_state(d);
        let p = uniq_run(d);
        assert(lines[lines.len() - 2] == d.last());
        if trim_end(p.0) != trim_end(lines.last()) {
        } else {
            let r = runs(d);
            assert(r.drop_last() =~= p.2);
            assert(r.last() == (p.1, p.0));
        }
    }
}

/// Law: `uniq` shows each maximal run of consecutive lines that are equal
/// once trailing white space is dropped, in order, as its length and its
/// first line.
pub proof fn lemma_uniq_shows_runs(lines: Seq<Seq<char>>)
    ensures
        uniq_output(lines) == runs(lines),
{
    if lines.len() == 0 {
        assert(uniq_output(lines) =~= runs(lines));
    } else {
        lemma_run_state(lines);
    }
}

impl Uniq {
    /// The state as `(line that began the run, lines in the run)`.
    pub closed spec fn state(&self) -> (Seq<char>, nat) {
        (self.prev@, self.count as nat)
    }

    /// The state before any line.
    pub fn new() -> (r: Uniq)
        ensures
            r.state() == (Seq::<char>::empty(), 0nat),
    {
        Uniq { prev: Vec::new(), count: 0 }
    }

    /// The number of lines in the current run.
    pub fn count(&self) -> (r: usize)
        ensures
            r == self.state().1,
    {
        self.count
    }

    /// Takes in `line`; gives back the count and line to show, if any.
    pub fn step(&mut self, line: &str) -> (r: Option<(usize, String)>)
        requires
            old(self).state().1 < usize::MAX,
        ensures
            ({
                let s = step_spec(old(self).state().0, old(self).state().1, line@);
                &&& final(self).state() == (s.0, s.1)
                &&& r.deep_view() == match s.2 {
                    Some((c, l)) => Some((c as usize, l)),
                    None => None,
                }
            }),
    {
        let cur = chars_of(line);
        if self.count == 0 || !eq_trimmed(&self.prev, &cur) {
            let shown = if self.count > 0 {
                Some((self.count, string_of(&self.prev)))
            } else {
                None
            };
            self.prev = cur;
            self.count = 1;
            shown
        } else {
            self.count = self.count + 1;
            None
        }
    }

    /// What is shown at the end of the input: the count of the last run
    /// with the line that began it, if there was a line.
    pub fn finish(&self) -> (r: Option<(usize, String)>)
        ensures
            r.deep_view() == if self.state().1 > 0 {
                Some((self.state().1 as usize, self.state().0))
            } else {
                None
            },
    {
        if self.count > 0 {
            Some((self.count, string_of(&self.prev)))
        } else {
            None
        }
    }
}

/// How `uniq` shows a run of `count` lines that `line` began: with
/// `show_count`, the count right-aligned in 4 columns and a space first; then
/// the line, ended by a newline when it has none.
pub open spec fn run_line(show_count: bool, count: nat, line: Seq<char>) -> Seq<char> {
    (if show_count {
        pad_left(decimal(count), 4) + seq![' ']
    } else {
        Seq::empty()
    }) + line + if line.len() > 0 && line.last() == '\n' {
        Seq::empty()
    } else {
        seq!['\n']
    }
}

/// Renders a run of `count` lines that `line` began, as `uniq` shows it.
pub fn format_run(show_count: bool, count: usize, line: &str) -> (r: String)
    ensures
        r@ == run_line(show_count, count as nat, line@),
{
    let mut v: Vec<char> = Vec::new();
    if show_count {
        push_padded(&mut v, count as u64, 4);
        v.push(' ');
    }
    let start = v.len();
    push_str(&mut v, line);
    let n = v.len();
    if n == start || v[n - 1] != '\n' {
        v.push('\n');
    }
    assert(v@ =~= run_line(show_count, count as nat, line@));
    string_of(&v)
}

} // verus!
