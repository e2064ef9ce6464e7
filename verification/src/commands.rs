//! Execution of parsed actions against the buffer: failure reporting
//! with deduplication, case-insensitive substring search, and the
//! snapshot for saving.

use crate::action::Action;
use crate::buffer::LogBuffer;
use crate::text::lower_of;
use crate::text::lowercase;
use crate::text::spec_contains;
use crate::text::spec_lines;
use crate::text::str_contains;
use vstd::prelude::*;

verus! {

broadcast use vstd::seq_lib::lemma_seq_contains_after_push;

/// The failure-line convention of the monitored logs: a completion that
/// is not a 2xx.
pub open spec fn spec_is_failure(l: Seq<char>) -> bool {
    spec_contains(l, "Completed "@) && !spec_contains(l, "Completed 2"@)
}

/// Executable check of the failure-line convention.
pub fn is_failure_line(line: &str) -> (r: bool)
    ensures
        r == spec_is_failure(line@),
{
    str_contains(line, "Completed ") && !str_contains(line, "Completed 2")
}

/// The failure lines among `lines`, as a set of line texts.
pub open spec fn spec_failure_set(lines: Seq<Seq<char>>) -> Set<Seq<char>> {
    Set::new(|l: Seq<char>| lines.contains(l) && spec_is_failure(l))
}

/// The lines one failure report prints: the failure lines of `lines` in
/// order, skipping those in `seen` — where the seen set grows as the
/// scan advances, so a failure line repeated in the buffer is printed
/// at most once.
pub open spec fn spec_report(lines: Seq<Seq<char>>, seen: Set<Seq<char>>) -> Seq<Seq<char>>
    decreases lines.len(),
{
    if lines.len() == 0 {
        Seq::empty()
    } else {
        let l = lines.first();
        let rest = lines.drop_first();
        if spec_is_failure(l) {
            if seen.contains(l) {
                spec_report(rest, seen.insert(l))
            } else {
                seq![l] + spec_report(rest, seen.insert(l))
            }
        } else {
            spec_report(rest, seen)
        }
    }
}

/// The failure lines already reported to the user, kept to deduplicate
/// repeated reports.  Grows monotonically; its view is the set of line
/// texts recorded so far.
pub struct SeenFailureLines {
    lines: Vec<String>,
}

impl View for SeenFailureLines {
    type V = Set<Seq<char>>;

    closed spec fn view(&self) -> Set<Seq<char>> {
        Set::new(|l: Seq<char>| self.lines.deep_view().contains(l))
    }
}

impl SeenFailureLines {
    /// No line reported yet.
    pub fn new() -> (s: SeenFailureLines)
        ensures
            s@ == Set::<Seq<char>>::empty(),
    {
        let s = SeenFailureLines { lines: Vec::new() };
        proof {
            assert(s@ =~= Set::<Seq<char>>::empty());
        }
        s
    }

    /// Is this exact line text already recorded?
    pub fn contains(&self, line: &String) -> (r: bool)
        ensures
            r == self@.contains(line@),
    {
        let n = self.lines.len();
        let mut k: usize = 0;
        while k < n
            invariant
                n == self.lines.len(),
                k <= n,
                forall|t: int| 0 <= t < k ==> self.lines.deep_view()[t] != line@,
            decreases n - k,
        {
            if self.lines[k] == *line {
                proof {
                    assert(self.lines.deep_view()[k as int] == line@);
                }
                return true;
            }
            k += 1;
        }
        proof {
            if self.lines.deep_view().contains(line@) {
                let i = choose|i: int|
                    0 <= i < self.lines.deep_view().len() && self.lines.deep_view()[i] == line@;
                assert(self.lines.deep_view()[i] != line@);
            }
        }
        false
    }

    /// Record a line text as reported.
    pub fn insert(&mut self, line: String)
        ensures
            final(self)@ == old(self)@.insert(line@),
    {
        let ghost before = self.lines.deep_view();
        if !self.contains(&line) {
            let ghost l = line@;
            self.lines.push(line);
            proof {
                assert(self.lines.deep_view() =~= before.push(l));
                assert(self@ =~= old(self)@.insert(l));
            }
        } else {
            proof {
                assert(self@ =~= old(self)@.insert(line@));
            }
        }
    }
}

/// Scan the buffer for failure lines: return the not-yet-reported ones
/// in buffer order, and record every failure line as seen, so the next
/// report only surfaces genuinely new ones.
pub fn report_failures(buffer: &LogBuffer, seen: &mut SeenFailureLines) -> (printed: Vec<String>)
    ensures
        printed.deep_view() == spec_report(spec_lines(buffer@), old(seen)@),
        final(seen)@ == old(seen)@.union(spec_failure_set(spec_lines(buffer@))),
{
    let all = buffer.lines();
    let ghost lv = all.deep_view();
    let n = all.len();
    let mut printed: Vec<String> = Vec::new();
    let mut k: usize = 0;
    proof {
        assert(lv.skip(0) =~= lv);
        assert(printed.deep_view() =~= Seq::<Seq<char>>::empty());
        assert(Seq::<Seq<char>>::empty() + spec_report(lv, old(seen)@) =~= spec_report(
            lv,
            old(seen)@,
        ));
        assert(lv.take(0) =~= Seq::<Seq<char>>::empty());
        assert(seen@ =~= old(seen)@.union(spec_failure_set(lv.take(0))));
    }
    while k < n
        invariant
            n == all.len(),
            lv == all.deep_view(),
            lv == spec_lines(buffer@),
            k <= n,
            spec_report(lv, old(seen)@) == printed.deep_view() + spec_report(
                lv.skip(k as int),
                seen@,
            ),
            seen@ == old(seen)@.union(spec_failure_set(lv.take(k as int))),
        decreases n - k,
    {
        let ghost l = lv[k as int];
        let ghost seen_before = seen@;
        let ghost printed_before = printed.deep_view();
        proof {
            assert(lv.skip(k as int).first() == l);
            assert(lv.skip(k as int).drop_first() =~= lv.skip(k as int + 1));
        }
        let line = &all[k];
        if is_failure_line(line.as_str()) {
            let fresh = !seen.contains(line);
            if fresh {
                printed.push(line.clone());
            }
            seen.insert(line.clone());
            proof {
                if fresh {
                    assert(printed.deep_view() =~= printed_before.push(l));
                    assert(printed.deep_view() + spec_report(lv.skip(k as int + 1), seen@)
                        =~= printed_before + (seq![l] + spec_report(
                        lv.skip(k as int + 1),
                        seen_before.insert(l),
                    )));
                }
                assert(lv.take(k as int + 1) =~= lv.take(k as int).push(l));
                assert(seen@ =~= old(seen)@.union(spec_failure_set(lv.take(k as int + 1))));
            }
        } else {
            proof {
                assert(lv.take(k as int + 1) =~= lv.take(k as int).push(l));
                assert(spec_failure_set(lv.take(k as int + 1)) =~= spec_failure_set(
                    lv.take(k as int),
                ));
            }
        }
        k += 1;
    }
    proof {
        assert(lv.skip(n as int) =~= Seq::<Seq<char>>::empty());
        assert(lv.take(n as int) =~= lv);
        assert(printed.deep_view() + Seq::<Seq<char>>::empty() =~= printed.deep_view());
    }
    printed
}

/// The predicate a search query selects: the line's lowercase form has
/// the query as a substring.
pub open spec fn search_pred(query: Seq<char>) -> spec_fn(Seq<char>) -> bool {
    |l: Seq<char>| spec_contains(lower_of(l), query)
}

/// The lines a search prints: those whose lowercase form contains the
/// query, in buffer order.
pub open spec fn spec_search(lines: Seq<Seq<char>>, query: Seq<char>) -> Seq<Seq<char>> {
    lines.filter(search_pred(query))
}

/// Case-insensitive substring search over the buffer's lines.
pub fn search(buffer: &LogBuffer, query: &str) -> (found: Vec<String>)
    ensures
        found.deep_view() == spec_search(spec_lines(buffer@), query@),
{
    let all = buffer.lines();
    let ghost lv = all.deep_view();
    let n = all.len();
    let mut found: Vec<String> = Vec::new();
    let mut k: usize = 0;
    proof {
        reveal(Seq::filter);
        assert(lv.take(0) =~= Seq::<Seq<char>>::empty());
        assert(found.deep_view() =~= lv.take(0).filter(search_pred(query@)));
    }
    while k < n
        invariant
            n == all.len(),
            lv == all.deep_view(),
            lv == spec_lines(buffer@),
            k <= n,
            found.deep_view() == lv.take(k as int).filter(search_pred(query@)),
        decreases n - k,
    {
        let ghost l = lv[k as int];
        let ghost found_before = found.deep_view();
        let line = &all[k];
        let folded = lowercase(line.as_str());
        let hit = str_contains(folded.as_str(), query);
        if hit {
            found.push(line.clone());
        }
        proof {
            reveal(Seq::filter);
            assert(lv.take(k as int + 1).drop_last() =~= lv.take(k as int));
            assert(lv.take(k as int + 1).last() == l);
            if hit {
                assert(found.deep_view() =~= found_before.push(l));
            }
        }
        k += 1;
    }
    proof {
        assert(lv.take(n as int) =~= lv);
    }
    found
}

/// What the surrounding loop must do after one action was executed.
pub enum Outcome {
    /// Nothing to print; prompt again.
    Quiet,
    /// Print these lines, oldest first.
    Output(Vec<String>),
    /// Overwrite the save file with this snapshot, then confirm.
    Persist(String),
    /// Terminate the process.
    Terminate,
}

/// Execute one parsed action against the buffer and the record of
/// already reported failure lines.  Skip and Exit leave everything
/// untouched; only a failure report changes the seen set.
pub fn execute(action: &Action, buffer: &LogBuffer, seen: &mut SeenFailureLines) -> (outcome:
    Outcome)
    ensures
        match action {
            Action::Skip => outcome == Outcome::Quiet && final(seen)@ == old(seen)@,
            Action::Exit => outcome == Outcome::Terminate && final(seen)@ == old(seen)@,
            Action::Fail => (outcome matches Outcome::Output(p) && p.deep_view() == spec_report(
                spec_lines(buffer@),
                old(seen)@,
            )) && final(seen)@ == old(seen)@.union(spec_failure_set(spec_lines(buffer@))),
            Action::Search(q) => (outcome matches Outcome::Output(p) && p.deep_view()
                == spec_search(spec_lines(buffer@), q@)) && final(seen)@ == old(seen)@,
            Action::Save => (outcome matches Outcome::Persist(c) && c@ == buffer@) && final(seen)@
                == old(seen)@,
        },
{
    match action {
        Action::Skip => Outcome::Quiet,
        Action::Exit => Outcome::Terminate,
        Action::Fail => Outcome::Output(report_failures(buffer, seen)),
        Action::Search(q) => Outcome::Output(search(buffer, q.as_str())),
        Action::Save => Outcome::Persist(buffer.snapshot()),
    }
}

/// Law: a failure report prints only failure lines of the buffer that
/// were not seen before the report began — completions with a 2xx
/// status and already reported lines never appear.
pub proof fn lemma_report_prints_only_new_failures(lines: Seq<Seq<char>>, seen: Set<Seq<char>>)
    ensures
        forall|x: Seq<char>| #[trigger] spec_report(lines, seen).contains(x) ==> lines.contains(x)
            && spec_is_failure(x) && !seen.contains(x),
    decreases lines.len(),
{
    broadcast use vstd::seq_lib::lemma_seq_concat_contains_all_elements;

    if lines.len() > 0 {
        let l = lines.first();
        let rest = lines.drop_first();
        assert(lines[0] == l);
        assert forall|y: Seq<char>| #[trigger] rest.contains(y) implies lines.contains(y) by {
            let i = choose|i: int| 0 <= i < rest.len() && rest[i] == y;
            assert(lines[i + 1] == y);
        }
        if spec_is_failure(l) {
            lemma_report_prints_only_new_failures(rest, seen.insert(l));
            if !seen.contains(l) {
                assert forall|x: Seq<char>| #[trigger] spec_report(lines, seen).contains(
                    x,
                ) implies lines.contains(x) && spec_is_failure(x) && !seen.contains(x) by {
                    if seq![l].contains(x) {
                        assert(x == l);
                    } else {
                        assert(spec_report(rest, seen.insert(l)).contains(x));
                    }
                }
            } else {
                assert forall|x: Seq<char>| #[trigger] spec_report(lines, seen).contains(
                    x,
                ) implies lines.contains(x) && spec_is_failure(x) && !seen.contains(x) by {
                    assert(spec_report(rest, seen.insert(l)).contains(x));
                }
            }
        } else {
            lemma_report_prints_only_new_failures(rest, seen);
            assert forall|x: Seq<char>| #[trigger] spec_report(lines, seen).contains(
                x,
            ) implies lines.contains(x) && spec_is_failure(x) && !seen.contains(x) by {
                assert(spec_report(rest, seen).contains(x));
            }
        }
    }
}

/// A report prints nothing when every failure line is already seen.
pub proof fn lemma_report_nothing_new(lines: Seq<Seq<char>>, seen: Set<Seq<char>>)
    requires
        forall|l: Seq<char>| lines.contains(l) && spec_is_failure(l) ==> seen.contains(l),
    ensures
        spec_report(lines, seen) == Seq::<Seq<char>>::empty(),
    decreases lines.len(),
{
    if lines.len() > 0 {
        let l = lines.first();
        let rest = lines.drop_first();
        assert(lines.contains(l)) by {
            assert(lines[0] == l);
        }
        assert forall|y: Seq<char>| rest.contains(y) && spec_is_failure(y) implies seen.insert(
            l,
        ).contains(y) && seen.contains(y) by {
            let i = choose|i: int| 0 <= i < rest.len() && rest[i] == y;
            assert(lines[i + 1] == y);
        }
        if spec_is_failure(l) {
            lemma_report_nothing_new(rest, seen.insert(l));
        } else {
            lemma_report_nothing_new(rest, seen);
        }
    }
}

/// Law: reporting failures is idempotent.  After one report has recorded
/// the buffer's failure lines, a second report over the same lines —
/// whatever they are and whatever was seen before — prints nothing.
pub proof fn lemma_report_idempotent(lines: Seq<Seq<char>>, seen: Set<Seq<char>>)
    ensures
        spec_report(lines, seen.union(spec_failure_set(lines))) == Seq::<Seq<char>>::empty(),
{
    lemma_report_nothing_new(lines, seen.union(spec_failure_set(lines)));
}

} // verus!
