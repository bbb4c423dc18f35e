use vstd::prelude::*;
use crate::request::opt_chars;

verus! {

/// The index of the first `c` in `s` at or after `from`, or `s.len()` when
/// there is none.
pub open spec fn find_from(s: Seq<char>, c: char, from: int) -> int
    decreases s.len() - from,
{
    if from >= s.len() {
        s.len() as int
    } else if s[from] == c {
        from
    } else {
        find_from(s, c, from + 1)
    }
}

/// The path of a request target: everything before the first `?`.
pub open spec fn target_path(t: Seq<char>) -> Seq<char> {
    t.take(find_from(t, '?', 0))
}

/// The query of a request target: when the target holds a `?`, the text
/// between the first `?` and the next one (or the end); otherwise none.
pub open spec fn target_query(t: Seq<char>) -> Option<Seq<char>> {
    let i = find_from(t, '?', 0);
    if i < t.len() {
        Some(t.subrange(i + 1, find_from(t, '?', i + 1)))
    } else {
        None
    }
}

/// `find_from` is the first position at or after `from` that holds `c`.
pub proof fn lemma_find_from(s: Seq<char>, c: char, from: int)
    requires
        0 <= from <= s.len(),
    ensures
        from <= find_from(s, c, from) <= s.len(),
        find_from(s, c, from) < s.len() ==> s[find_from(s, c, from)] == c,
        forall|k: int| from <= k < find_from(s, c, from) ==> s[k] != c,
    decreases s.len() - from,
{
    if from < s.len() && s[from] != c {
        lemma_find_from(s, c, from + 1);
    }
}

/// Any position at or after `from` that holds `c`, with no `c` between
/// `from` and it, is `find_from`; with no `c` at all from `from` on, it is the
/// length.
pub proof fn lemma_find_from_is(s: Seq<char>, c: char, from: int, at: int)
    requires
        0 <= from <= at <= s.len(),
        at < s.len() ==> s[at] == c,
        forall|k: int| from <= k < at ==> s[k] != c,
    ensures
        find_from(s, c, from) == at,
{
    lemma_find_from(s, c, from);
    let f = find_from(s, c, from);
    if f < at {
        assert(s[f] != c);
    } else if at < f {
        assert(s[at] != c);
    }
}

/// Splits a request target into its path and its query, as the framework
/// does before it routes a request: the path is what comes before the first
/// `?`, and the query, where there is a `?`, is what lies between it and the
/// next `?` or the end.
pub fn split_target(target: &str) -> (r: (String, Option<String>))
    ensures
        r.0@ == target_path(target@),
        opt_chars(r.1) == target_query(target@),
{
    let ghost s = target@;
    let n = target.unicode_len();
    let mut first: Option<usize> = None;
    let mut second: Option<usize> = None;
    let mut i: usize = 0;
    for ch in it: target.chars()
        invariant
            it.seq() == s,
            s == target@,
            n == s.len(),
            i == it.index(),
            first is None ==> forall|k: int| 0 <= k < i ==> s[k] != '?',
            first is None ==> second is None,
            first matches Some(a) ==> a < i && s[a as int] == '?' && (forall|k: int|
                0 <= k < a ==> s[k] != '?'),
            first matches Some(a) ==> (second is None ==> forall|k: int|
                a + 1 <= k < i ==> s[k] != '?'),
            first matches Some(a) ==> (second matches Some(b) ==> a < b && b < s.len() && s[b as int]
                == '?' && (forall|k: int| a + 1 <= k < b ==> s[k] != '?')),
    {
        assert(ch == s[i as int]);
        if second.is_none() && ch == '?' {
            if first.is_none() {
                first = Some(i);
            } else {
                second = Some(i);
            }
        }
        i = i + 1;
    }
    match first {
        None => {
            proof {
                lemma_find_from_is(s, '?', 0, s.len() as int);
            }
            (target.to_owned(), None)
        },
        Some(a) => {
            proof {
                lemma_find_from_is(s, '?', 0, a as int);
            }
            let end = match second {
                Some(b) => b,
                None => n,
            };
            proof {
                lemma_find_from_is(s, '?', a + 1, end as int);
            }
            let path = target.substring_char(0, a).to_owned();
            let query = target.substring_char(a + 1, end).to_owned();
            (path, Some(query))
        },
    }
}

/// Neither the path nor the query of a target holds a `?`.
pub proof fn law_split_parts_have_no_mark(t: Seq<char>)
    ensures
        !target_path(t).contains('?'),
        target_query(t) matches Some(q) ==> !q.contains('?'),
{
    lemma_find_from(t, '?', 0);
    let i = find_from(t, '?', 0);
    assert forall|k: int| 0 <= k < target_path(t).len() implies target_path(t)[k] != '?' by {
        assert(target_path(t)[k] == t[k]);
    }
    if i < t.len() {
        lemma_find_from(t, '?', i + 1);
        let j = find_from(t, '?', i + 1);
        let q = t.subrange(i + 1, j);
        assert forall|k: int| 0 <= k < q.len() implies q[k] != '?' by {
            assert(q[k] == t[i + 1 + k]);
        }
    }
}

/// A target with at most one `?` is its path, followed, when there is a
/// query, by `?` and the query: splitting loses nothing.
pub proof fn law_split_rejoins(t: Seq<char>)
    requires
        forall|a: int, b: int| 0 <= a < b < t.len() ==> !(t[a] == '?' && t[b] == '?'),
    ensures
        match target_query(t) {
            None => target_path(t) == t,
            Some(q) => target_path(t) + seq!['?'] + q == t,
        },
{
    lemma_find_from(t, '?', 0);
    let i = find_from(t, '?', 0);
    if i < t.len() {
        lemma_find_from(t, '?', i + 1);
        let j = find_from(t, '?', i + 1);
        if j < t.len() {
            assert(t[i] == '?' && t[j] == '?');
        }
        assert(target_path(t) + seq!['?'] + t.subrange(i + 1, j) =~= t);
    } else {
        assert(target_path(t) =~= t);
    }
}

} // verus!
