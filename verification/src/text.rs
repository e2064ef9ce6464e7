//! Substring occurrence, search, splitting and line semantics for the
//! captured text, together with the executable routines that realize them.

use vstd::prelude::*;

verus! {

/// `pat` occurs in `s` starting at character index `i`.
pub open spec fn occurs_at(s: Seq<char>, pat: Seq<char>, i: int) -> bool {
    0 <= i && i + pat.len() <= s.len() && s.subrange(i, i + pat.len() as int) == pat
}

/// `pat` occurs somewhere in `s` (plain substring containment).
pub open spec fn spec_contains(s: Seq<char>, pat: Seq<char>) -> bool {
    exists|i: int| occurs_at(s, pat, i)
}

/// Character index of the leftmost occurrence of `pat` in `s`, or -1 when
/// `pat` does not occur.  The guards in the recursive branch only rule out
/// situations that cannot arise; they keep the definition well-founded.
pub open spec fn first_occurrence(s: Seq<char>, pat: Seq<char>) -> int
    decreases s.len(),
{
    if pat.len() <= s.len() && s.subrange(0, pat.len() as int) == pat {
        0
    } else if s.len() == 0 {
        -1
    } else {
        let r = first_occurrence(s.drop_first(), pat);
        if r < 0 {
            -1
        } else {
            1 + r
        }
    }
}

/// Occurrences in the tail of `s` are occurrences in `s`, shifted by one.
proof fn lemma_occurs_shift(s: Seq<char>, pat: Seq<char>, j: int)
    requires
        s.len() > 0,
        j >= 0,
    ensures
        occurs_at(s.drop_first(), pat, j) <==> occurs_at(s, pat, j + 1),
{
    if occurs_at(s.drop_first(), pat, j) {
        assert(s.subrange(j + 1, j + 1 + pat.len() as int) =~= s.drop_first().subrange(
            j,
            j + pat.len() as int,
        ));
    }
    if occurs_at(s, pat, j + 1) {
        assert(s.drop_first().subrange(j, j + pat.len() as int) =~= s.subrange(
            j + 1,
            j + 1 + pat.len() as int,
        ));
    }
}

/// `first_occurrence` is sound and minimal: when non-negative it is an
/// occurrence and the leftmost one; when negative there is no occurrence.
pub proof fn lemma_first_occurrence(s: Seq<char>, pat: Seq<char>)
    ensures
        first_occurrence(s, pat) >= 0 ==> occurs_at(s, pat, first_occurrence(s, pat)),
        forall|j: int| 0 <= j < first_occurrence(s, pat) ==> !occurs_at(s, pat, j),
        first_occurrence(s, pat) < 0 ==> forall|j: int| !occurs_at(s, pat, j),
    decreases s.len(),
{
    if pat.len() <= s.len() && s.subrange(0, pat.len() as int) == pat {
        assert(occurs_at(s, pat, 0));
    } else if s.len() == 0 {
        assert forall|j: int| !occurs_at(s, pat, j) by {
            if occurs_at(s, pat, j) {
                assert(s.subrange(j, j + pat.len() as int) == pat);
                assert(pat.len() <= s.len());
                assert(j == 0);
            }
        }
    } else {
        lemma_first_occurrence(s.drop_first(), pat);
        let r = first_occurrence(s.drop_first(), pat);
        assert(!occurs_at(s, pat, 0));
        if r < 0 {
            assert forall|j: int| !occurs_at(s, pat, j) by {
                if j > 0 {
                    lemma_occurs_shift(s, pat, j - 1);
                }
            }
        } else {
            lemma_occurs_shift(s, pat, r);
            assert(occurs_at(s, pat, r + 1));
            assert forall|j: int| 0 <= j < r + 1 implies !occurs_at(s, pat, j) by {
                if j > 0 {
                    lemma_occurs_shift(s, pat, j - 1);
                }
            }
        }
    }
}

/// An occurrence with nothing to its left pins down `first_occurrence`.
pub proof fn lemma_first_occurrence_at(s: Seq<char>, pat: Seq<char>, i: int)
    requires
        occurs_at(s, pat, i),
        forall|j: int| 0 <= j < i ==> !occurs_at(s, pat, j),
    ensures
        first_occurrence(s, pat) == i,
{
    lemma_first_occurrence(s, pat);
    let f = first_occurrence(s, pat);
    if f < 0 {
        assert(!occurs_at(s, pat, i));
    } else if f < i {
        assert(!occurs_at(s, pat, f));
    } else if i < f {
        assert(!occurs_at(s, pat, i));
    }
}

/// No occurrence at all means `first_occurrence` is negative.
pub proof fn lemma_no_occurrence(s: Seq<char>, pat: Seq<char>)
    requires
        forall|j: int| !occurs_at(s, pat, j),
    ensures
        first_occurrence(s, pat) < 0,
{
    lemma_first_occurrence(s, pat);
    let f = first_occurrence(s, pat);
    if f >= 0 {
        assert(!occurs_at(s, pat, f));
    }
}

/// Does `pat` occur in `s` at exactly character index `i`?
fn match_at(s: &str, pat: &str, i: usize) -> (r: bool)
    requires
        i + pat@.len() <= s@.len(),
    ensures
        r == occurs_at(s@, pat@, i as int),
{
    let n = s.unicode_len();
    let m = pat.unicode_len();
    let mut k: usize = 0;
    while k < m
        invariant
            n == s@.len(),
            m == pat@.len(),
            i + m <= n,
            k <= m,
            forall|t: int| 0 <= t < k ==> s@[i + t] == pat@[t],
        decreases m - k,
    {
        if s.get_char(i + k) != pat.get_char(k) {
            proof {
                if occurs_at(s@, pat@, i as int) {
                    assert(s@.subrange(i as int, i + m as int)[k as int] == pat@[k as int]);
                }
            }
            return false;
        }
        k += 1;
    }
    proof {
        assert(s@.subrange(i as int, i + m as int) =~= pat@);
    }
    true
}

/// Character index of the leftmost occurrence of `pat` in `s`, if any.
pub fn find_first(s: &str, pat: &str) -> (r: Option<usize>)
    ensures
        match r {
            Some(i) => first_occurrence(s@, pat@) == i as int,
            None => first_occurrence(s@, pat@) < 0,
        },
{
    let n = s.unicode_len();
    let m = pat.unicode_len();
    if m > n {
        proof {
            assert forall|j: int| !occurs_at(s@, pat@, j) by {}
            lemma_no_occurrence(s@, pat@);
        }
        return None;
    }
    if m == 0 {
        proof {
            assert(s@.subrange(0, 0) =~= pat@);
            assert(occurs_at(s@, pat@, 0));
            lemma_first_occurrence_at(s@, pat@, 0);
        }
        return Some(0);
    }
    let mut i: usize = 0;
    while i <= n - m
        invariant
            n == s@.len(),
            m == pat@.len(),
            1 <= m <= n,
            i <= n - m + 1,
            forall|j: int| 0 <= j < i ==> !occurs_at(s@, pat@, j),
        decreases n - m + 1 - i,
    {
        if match_at(s, pat, i) {
            proof {
                lemma_first_occurrence_at(s@, pat@, i as int);
            }
            return Some(i);
        }
        i += 1;
    }
    proof {
        assert forall|j: int| !occurs_at(s@, pat@, j) by {
            if occurs_at(s@, pat@, j) {
                assert(j + m <= n);
                assert(0 <= j < i);
            }
        }
        lemma_no_occurrence(s@, pat@);
    }
    None
}

/// Substring containment test on character sequences.
pub fn str_contains(s: &str, pat: &str) -> (r: bool)
    ensures
        r == spec_contains(s@, pat@),
{
    proof {
        lemma_first_occurrence(s@, pat@);
    }
    match find_first(s, pat) {
        Some(_) => true,
        None => false,
    }
}

/// The pieces of `s` between consecutive occurrences of `sep`, leftmost
/// occurrence first.  A string without an occurrence is one piece, so the
/// result is never empty.  The guards beyond `i < 0` only rule out
/// situations that cannot arise for a non-empty separator; they keep the
/// definition well-founded.
pub open spec fn spec_split(s: Seq<char>, sep: Seq<char>) -> Seq<Seq<char>>
    recommends
        sep.len() > 0,
    decreases s.len(),
{
    let i = first_occurrence(s, sep);
    if sep.len() == 0 || i < 0 || i + sep.len() > s.len() {
        seq![s]
    } else {
        seq![s.subrange(0, i)] + spec_split(s.subrange(i + sep.len() as int, s.len() as int), sep)
    }
}

/// How `spec_split` unfolds once the leftmost occurrence is known.
pub proof fn lemma_split_step(s: Seq<char>, sep: Seq<char>)
    requires
        sep.len() > 0,
    ensures
        first_occurrence(s, sep) < 0 ==> spec_split(s, sep) == seq![s],
        first_occurrence(s, sep) >= 0 ==> spec_split(s, sep) == seq![
            s.subrange(0, first_occurrence(s, sep)),
        ] + spec_split(
            s.subrange(first_occurrence(s, sep) + sep.len() as int, s.len() as int),
            sep,
        ),
{
    lemma_first_occurrence(s, sep);
}

/// The buffer's content split into lines at `'\n'`.  A trailing newline
/// closes the last line rather than opening an empty one, and an empty
/// buffer has no lines.
pub open spec fn spec_lines(s: Seq<char>) -> Seq<Seq<char>> {
    if s.len() == 0 {
        Seq::empty()
    } else if s.last() == '\n' {
        spec_split(s, seq!['\n']).drop_last()
    } else {
        spec_split(s, seq!['\n'])
    }
}

/// What `str::to_lowercase` returns for a given character sequence.
pub uninterp spec fn lower_of(s: Seq<char>) -> Seq<char>;

/// Relies on `str::to_lowercase`: the result depends on the characters
/// alone, and lowercasing the empty string yields the empty string.
#[verifier::external_body]
pub(crate) fn lowercase(s: &str) -> (r: String)
    ensures
        r@ == lower_of(s@),
        s@.len() == 0 ==> r@.len() == 0,
{
    s.to_lowercase()
}

/// The pieces of `s` between consecutive occurrences of `sep`.  An
/// empty separator splits nothing: the whole text is one piece.
pub fn split_str(s: &str, sep: &str) -> (r: Vec<String>)
    ensures
        r.deep_view() == spec_split(s@, sep@),
{
    let mut result: Vec<String> = Vec::new();
    let mut rest: String = s.to_owned();
    if sep.is_empty() {
        result.push(rest);
        proof {
            assert(result.deep_view() =~= seq![s@]);
        }
        return result;
    }
    let mut more: bool = true;
    while more
        invariant
            sep@.len() > 0,
            more ==> spec_split(s@, sep@) == result.deep_view() + spec_split(rest@, sep@),
            !more ==> result.deep_view() == spec_split(s@, sep@),
        decreases (if more { 1int } else { 0int }), rest@.len(),
    {
        let ghost prev = rest@;
        let ghost done = result.deep_view();
        match find_first(rest.as_str(), sep) {
            Some(i) => {
                proof {
                    lemma_first_occurrence(prev, sep@);
                    lemma_split_step(prev, sep@);
                }
                let m = sep.unicode_len();
                let n = rest.unicode_len();
                let piece = String::from_str(rest.as_str().substring_char(0, i));
                let tail = String::from_str(rest.as_str().substring_char(i + m, n));
                result.push(piece);
                rest = tail;
                proof {
                    assert(result.deep_view() =~= done.push(prev.subrange(0, i as int)));
                    assert(result.deep_view() + spec_split(rest@, sep@) =~= done + (seq![
                        prev.subrange(0, i as int),
                    ] + spec_split(prev.subrange(i + sep@.len() as int, prev.len() as int), sep@)));
                }
            }
            None => {
                proof {
                    lemma_split_step(prev, sep@);
                }
                result.push(rest.clone());
                more = false;
                proof {
                    assert(result.deep_view() =~= done + seq![prev]);
                }
            }
        }
    }
    result
}

/// The text split into lines at newline characters.
pub fn lines_of(s: &str) -> (r: Vec<String>)
    ensures
        r.deep_view() == spec_lines(s@),
{
    proof {
        reveal_strlit("\n");
        assert("\n"@ =~= seq!['\n']);
    }
    let mut parts = split_str(s, "\n");
    let n = s.unicode_len();
    if n == 0 {
        let empty: Vec<String> = Vec::new();
        proof {
            assert(empty.deep_view() =~= spec_lines(s@));
        }
        return empty;
    }
    if s.get_char(n - 1) == '\n' {
        proof {
            assert(spec_split(s@, seq!['\n']).len() >= 1);
        }
        let ghost before = parts.deep_view();
        parts.pop();
        proof {
            assert(parts.deep_view() =~= before.drop_last());
        }
    }
    parts
}

/// Character-for-character string equality.
pub fn str_eq(a: &str, b: &str) -> (r: bool)
    ensures
        r == (a@ == b@),
{
    let n = a.unicode_len();
    let m = b.unicode_len();
    if n != m {
        return false;
    }
    let mut k: usize = 0;
    while k < n
        invariant
            n == a@.len(),
            n == b@.len(),
            k <= n,
            forall|t: int| 0 <= t < k ==> a@[t] == b@[t],
        decreases n - k,
    {
        if a.get_char(k) != b.get_char(k) {
            return false;
        }
        k += 1;
    }
    proof {
        assert(a@ =~= b@);
    }
    true
}

} // verus!
