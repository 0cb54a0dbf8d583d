//! Breaking a text into lines of runs, each run either emoji or ordinary
//! text, so that each run can be drawn with its own font.

use vstd::prelude::*;
use crate::text::{chars_of, push_char};

verus! {

/// A stretch of characters drawn with one font.
pub struct TextRun {
    pub text: String,
    pub emoji: bool,
}

/// One line of the text, as its runs.
pub struct TextLine {
    pub runs: Vec<TextRun>,
}

/// Each character of a run, with the run's kind.
pub open spec fn run_cells(r: TextRun) -> Seq<(char, bool)> {
    Seq::new(r.text@.len(), |i: int| (r.text@[i], r.emoji))
}

/// The characters of a sequence of runs, in order, each with its kind.
pub open spec fn runs_cells(runs: Seq<TextRun>) -> Seq<(char, bool)>
    decreases runs.len(),
{
    if runs.len() == 0 {
        seq![]
    } else {
        runs_cells(runs.drop_last()) + run_cells(runs.last())
    }
}

/// The characters of a sequence of lines, in order, each with its kind.
pub open spec fn lines_cells(lines: Seq<TextLine>) -> Seq<(char, bool)>
    decreases lines.len(),
{
    if lines.len() == 0 {
        seq![]
    } else {
        lines_cells(lines.drop_last()) + runs_cells(lines.last().runs@)
    }
}

/// No run is empty and no two neighbouring runs are of the same kind: each
/// run is as long as it can be.
pub open spec fn maximal_runs(runs: Seq<TextRun>) -> bool {
    &&& forall|i: int| 0 <= i < runs.len() ==> #[trigger] runs[i].text@.len() > 0
    &&& forall|i: int| 0 < i < runs.len() ==> runs[i - 1].emoji != #[trigger] runs[i].emoji
}

/// The text's characters, each paired with whether it is drawn as emoji.
pub open spec fn tagged(text: Seq<char>, emoji: Seq<bool>) -> Seq<(char, bool)> {
    Seq::new(text.len(), |i: int| (text[i], emoji[i]))
}

/// Characters per line: as asked, but never fewer than 6.
pub open spec fn line_limit(chars_per_line: nat) -> nat {
    if chars_per_line < 6 {
        6
    } else {
        chars_per_line
    }
}

proof fn lemma_runs_push(runs: Seq<TextRun>, r: TextRun)
    ensures
        runs_cells(runs.push(r)) == runs_cells(runs) + run_cells(r),
{
    assert(runs.push(r).drop_last() =~= runs);
}

proof fn lemma_lines_push(lines: Seq<TextLine>, l: TextLine)
    ensures
        lines_cells(lines.push(l)) == lines_cells(lines) + runs_cells(l.runs@),
{
    assert(lines.push(l).drop_last() =~= lines);
}

proof fn lemma_extend_last(runs: Seq<TextRun>, longer: Seq<TextRun>, c: char)
    requires
        runs.len() > 0,
        longer.len() == runs.len(),
        longer.drop_last() == runs.drop_last(),
        longer.last().text@ == runs.last().text@.push(c),
        longer.last().emoji == runs.last().emoji,
    ensures
        runs_cells(longer) == runs_cells(runs).push((c, runs.last().emoji)),
{
    let e = runs.last().emoji;
    assert(run_cells(longer.last()) =~= run_cells(runs.last()).push((c, e)));
    assert((runs_cells(runs.drop_last()) + run_cells(runs.last())).push((c, e)) =~= runs_cells(
        runs.drop_last(),
    ) + run_cells(runs.last()).push((c, e)));
}

proof fn lemma_full_lines(lines: Seq<TextLine>, limit: nat)
    requires
        forall|k: int| 0 <= k < lines.len() ==> runs_cells(#[trigger] lines[k].runs@).len() == limit,
    ensures
        lines_cells(lines).len() == lines.len() * limit,
    decreases lines.len(),
{
    if lines.len() > 0 {
        let d = lines.drop_last();
        assert forall|k: int| 0 <= k < d.len() implies runs_cells(#[trigger] d[k].runs@).len() == limit by {
            assert(d[k] == lines[k]);
        }
        lemma_full_lines(d, limit);
        assert(lines.len() * limit == d.len() * limit + limit) by (nonlinear_arith)
            requires
                d.len() == lines.len() - 1,
        ;
    }
}

/// Lines that are all full but the last, which is not empty and not over
/// the limit, number the characters divided by the limit, rounded up.
proof fn lemma_line_count(lines: Seq<TextLine>, limit: nat)
    requires
        limit > 0,
        forall|k: int| 0 <= k < lines.len() ==> runs_cells(#[trigger] lines[k].runs@).len() > 0,
        forall|k: int| 0 <= k < lines.len() - 1 ==> runs_cells(#[trigger] lines[k].runs@).len() == limit,
        lines.len() > 0 ==> runs_cells(lines.last().runs@).len() <= limit,
    ensures
        lines.len() == (lines_cells(lines).len() + limit - 1) / (limit as int),
{
    if lines.len() == 0 {
        assert((0 + limit - 1) / (limit as int) == 0) by (nonlinear_arith)
            requires
                limit > 0,
        ;
    } else {
        let d = lines.drop_last();
        assert forall|k: int| 0 <= k < d.len() implies runs_cells(#[trigger] d[k].runs@).len() == limit by {
            assert(d[k] == lines[k]);
        }
        lemma_full_lines(d, limit);
        let c = runs_cells(lines.last().runs@).len();
        assert(c > 0) by {
            assert(lines[lines.len() - 1] == lines.last());
        }
        let m = lines.len();
        assert((d.len() * limit + c + limit - 1) / (limit as int) == m) by (nonlinear_arith)
            requires
                d.len() == m - 1,
                1 <= c <= limit,
        {
            let q: int = d.len() * limit + c + limit - 1;
            assert(q == m * limit + (c - 1));
            assert(0 <= c - 1 < limit);
            vstd::arithmetic::div_mod::lemma_fundamental_div_mod_converse(q, limit as int, m as int, c - 1);
        }
    }
}

/// Splits a text into lines of at most `line_limit(chars_per_line)`
/// characters, and each line into its runs of emoji and of other text;
/// `emoji` says, character by character, which are drawn as emoji. Every
/// line but the last is full; no line is empty.
pub fn split_emoji_runs(text: &str, emoji: &Vec<bool>, chars_per_line: usize) -> (r: Vec<TextLine>)
    requires
        emoji.len() == text@.len(),
    ensures
        lines_cells(r@) == tagged(text@, emoji@),
        forall|k: int|
            0 <= k < r.len() ==> maximal_runs(#[trigger] r@[k].runs@) && runs_cells(r@[k].runs@).len() > 0,
        forall|k: int|
            0 <= k < r.len() - 1 ==> runs_cells(#[trigger] r@[k].runs@).len() == line_limit(chars_per_line as nat),
        r.len() > 0 ==> runs_cells(r@.last().runs@).len() <= line_limit(chars_per_line as nat),
        r.len() == (text@.len() + line_limit(chars_per_line as nat) - 1) / (line_limit(
            chars_per_line as nat,
        ) as int),
{
    let cs = chars_of(text);
    let n = cs.len();
    let limit: usize = if chars_per_line < 6 {
        6
    } else {
        chars_per_line
    };
    let ghost cells = tagged(text@, emoji@);
    let mut lines: Vec<TextLine> = Vec::new();
    let mut current: Vec<TextRun> = Vec::new();
    let mut chars_in_line: usize = 0;
    let mut i: usize = 0;
    while i < n
        invariant
            n == cs.len(),
            cs@ == text@,
            emoji.len() == n,
            cells == tagged(text@, emoji@),
            limit as nat == line_limit(chars_per_line as nat),
            i <= n,
            chars_in_line <= limit,
            runs_cells(current@).len() == chars_in_line,
            (current.len() == 0) == (chars_in_line == 0),
            i > 0 ==> chars_in_line > 0,
            maximal_runs(current@),
            lines_cells(lines@) + runs_cells(current@) == cells.take(i as int),
            forall|k: int|
                0 <= k < lines.len() ==> maximal_runs(#[trigger] lines@[k].runs@) && runs_cells(
                    lines@[k].runs@,
                ).len() == limit,
        decreases n - i,
    {
        if chars_in_line >= limit {
            let ghost old_lines = lines@;
            let line = TextLine { runs: current };
            let ghost gl = line;
            lines.push(line);
            current = Vec::new();
            chars_in_line = 0;
            proof {
                lemma_lines_push(old_lines, gl);
                assert(runs_cells(current@) =~= seq![]);
                assert(lines_cells(lines@) + runs_cells(current@) =~= lines_cells(lines@));
            }
        }
        let c = cs[i];
        let e = emoji[i];
        let ghost before = current@;
        let n_runs = current.len();
        if n_runs > 0 && current[n_runs - 1].emoji == e {
            match current.pop() {
                Some(mut last) => {
                    push_char(&mut last.text, c);
                    current.push(last);
                },
                None => {},
            }
            proof {
                assert(current@.drop_last() =~= before.drop_last());
                lemma_extend_last(before, current@, c);
            }
        } else {
            let mut t = String::new();
            push_char(&mut t, c);
            let run = TextRun { text: t, emoji: e };
            let ghost gr = run;
            current.push(run);
            proof {
                lemma_runs_push(before, gr);
                assert(run_cells(gr) =~= seq![(c, e)]);
            }
        }
        proof {
            assert(cells[i as int] == (c, e));
            assert(cells.take(i as int + 1) =~= cells.take(i as int).push((c, e)));
            assert(lines_cells(lines@) + runs_cells(before).push((c, e)) =~= (lines_cells(lines@)
                + runs_cells(before)).push((c, e)));
        }
        chars_in_line = chars_in_line + 1;
        i = i + 1;
    }
    if current.len() > 0 {
        let ghost old_lines = lines@;
        let line = TextLine { runs: current };
        let ghost gl = line;
        lines.push(line);
        proof {
            lemma_lines_push(old_lines, gl);
        }
    } else {
        proof {
            assert(runs_cells(current@) =~= seq![]);
            assert(lines_cells(lines@) + runs_cells(current@) =~= lines_cells(lines@));
        }
    }
    proof {
        assert(cells.take(n as int) =~= cells);
        lemma_line_count(lines@, limit as nat);
    }
    lines
}

} // verus!
