//! Case-insensitive substring matching over titles and queries.
//!
//! The substring policy compares characters after ASCII case folding and
//! after trimming the query of surrounding whitespace. Everything here is
//! pure character-sequence logic, verified end to end.
use vstd::prelude::*;

verus! {

/// ASCII case folding: an upper-case letter maps to the code point of its
/// lower-case form, every other character to its own code point.
pub open spec fn fold_char(c: char) -> int {
    if 65 <= c as u32 && c as u32 <= 90 {
        c as u32 + 32
    } else {
        c as u32 as int
    }
}

/// Two characters match when they fold to the same code point.
pub open spec fn chars_match(a: char, b: char) -> bool {
    fold_char(a) == fold_char(b)
}

/// The query matches the title character by character at offset `at`.
pub open spec fn matches_at(t: Seq<char>, q: Seq<char>, at: int) -> bool {
    forall|j: int| 0 <= j < q.len() ==> chars_match(t[at + j], #[trigger] q[j])
}

/// The query occurs somewhere in the title, case-folded.
pub open spec fn is_fold_substring(q: Seq<char>, t: Seq<char>) -> bool {
    exists|at: int| 0 <= at && at + q.len() <= t.len() && matches_at(t, q, at)
}

/// The whitespace that queries are trimmed of.
pub open spec fn is_space(c: char) -> bool {
    c == ' ' || c == '\t' || c == '\n' || c == '\r'
}

pub open spec fn spec_trim_front(s: Seq<char>) -> Seq<char>
    decreases s.len(),
{
    if s.len() > 0 && is_space(s[0]) {
        spec_trim_front(s.drop_first())
    } else {
        s
    }
}

pub open spec fn spec_trim_back(s: Seq<char>) -> Seq<char>
    decreases s.len(),
{
    if s.len() > 0 && is_space(s.last()) {
        spec_trim_back(s.drop_last())
    } else {
        s
    }
}

/// The query with surrounding whitespace removed.
pub open spec fn spec_trim(s: Seq<char>) -> Seq<char> {
    spec_trim_back(spec_trim_front(s))
}

/// The substring policy's predicate: the title, case-folded, contains the
/// query, case-folded and trimmed of surrounding whitespace.
pub open spec fn spec_substring_match(t: Seq<char>, q: Seq<char>) -> bool {
    is_fold_substring(spec_trim(q), t)
}

fn is_space_char(c: char) -> (r: bool)
    ensures
        r == is_space(c),
{
    c == ' ' || c == '\t' || c == '\n' || c == '\r'
}

fn fold_char_value(c: char) -> (r: u32)
    ensures
        r == fold_char(c),
{
    let u = c as u32;
    if 65 <= u && u <= 90 {
        u + 32
    } else {
        u
    }
}

/// Trimming the front takes a skip to the first non-space character.
proof fn lemma_trim_front_at(s: Seq<char>, k: int)
    requires
        0 <= k <= s.len(),
        forall|j: int| 0 <= j < k ==> is_space(s[j]),
        k < s.len() ==> !is_space(s[k]),
    ensures
        spec_trim_front(s) == s.skip(k),
    decreases k,
{
    if k == 0 {
        assert(s.skip(0) =~= s);
    } else {
        let s1 = s.drop_first();
        assert(forall|j: int| 0 <= j < k - 1 ==> is_space(#[trigger] s1[j]));
        lemma_trim_front_at(s1, k - 1);
        assert(s1.skip(k - 1) =~= s.skip(k));
    }
}

/// Trimming the back takes the prefix ending at the last non-space character.
proof fn lemma_trim_back_at(s: Seq<char>, k: int)
    requires
        0 <= k <= s.len(),
        forall|j: int| k <= j < s.len() ==> is_space(s[j]),
        k > 0 ==> !is_space(s[k - 1]),
    ensures
        spec_trim_back(s) == s.take(k),
    decreases s.len(),
{
    if k < s.len() {
        assert(is_space(s.last()));
        let s1 = s.drop_last();
        assert(forall|j: int| k <= j < s1.len() ==> is_space(#[trigger] s1[j]));
        lemma_trim_back_at(s1, k);
        assert(s1.take(k) =~= s.take(k));
    } else {
        assert(s.take(k) =~= s);
    }
}

/// The trim of a sequence whose space prefix ends at `a` and whose space
/// suffix starts at `b` is exactly the subrange between the two.
proof fn lemma_trim_characterize(s: Seq<char>, a: int, b: int)
    requires
        0 <= a <= b <= s.len(),
        forall|j: int| 0 <= j < a ==> is_space(s[j]),
        forall|j: int| b <= j < s.len() ==> is_space(s[j]),
        a < b ==> !is_space(s[a]) && !is_space(s[b - 1]),
        a == b ==> a == s.len(),
    ensures
        spec_trim(s) == s.subrange(a, b),
{
    lemma_trim_front_at(s, a);
    let f = s.skip(a);
    assert(forall|j: int| b - a <= j < f.len() ==> is_space(#[trigger] f[j]));
    lemma_trim_back_at(f, b - a);
    assert(f.take(b - a) =~= s.subrange(a, b));
}

proof fn lemma_trim_front_subrange(s: Seq<char>)
    ensures
        spec_trim_front(s).len() <= s.len(),
        spec_trim_front(s) == s.skip(s.len() - spec_trim_front(s).len()),
    decreases s.len(),
{
    if s.len() > 0 && is_space(s[0]) {
        lemma_trim_front_subrange(s.drop_first());
        let l = spec_trim_front(s).len() as int;
        assert(s.drop_first().skip(s.drop_first().len() - l) =~= s.skip(s.len() - l));
    } else {
        assert(s.skip(0) =~= s);
    }
}

proof fn lemma_trim_back_subrange(s: Seq<char>)
    ensures
        spec_trim_back(s).len() <= s.len(),
        spec_trim_back(s) == s.take(spec_trim_back(s).len() as int),
    decreases s.len(),
{
    if s.len() > 0 && is_space(s.last()) {
        lemma_trim_back_subrange(s.drop_last());
        let l = spec_trim_back(s).len() as int;
        assert(s.drop_last().take(l) =~= s.take(l));
    } else {
        assert(s.take(s.len() as int) =~= s);
    }
}

/// A query that occurs in the title case-folded still occurs after it is
/// trimmed of surrounding whitespace: the substring policy matches.
pub proof fn lemma_query_occurs_after_trim(t: Seq<char>, q: Seq<char>)
    requires
        is_fold_substring(q, t),
    ensures
        spec_substring_match(t, q),
{
    let f = spec_trim_front(q);
    let tr = spec_trim(q);
    lemma_trim_front_subrange(q);
    lemma_trim_back_subrange(f);
    let a = q.len() - f.len();
    let m = tr.len() as int;
    assert(tr =~= q.subrange(a as int, a + m));
    let at = choose|at: int| 0 <= at && at + q.len() <= t.len() && matches_at(t, q, at);
    assert forall|j: int| 0 <= j < m implies chars_match(t[(at + a) + j], #[trigger] tr[j]) by {
        assert(tr[j] == q[a + j]);
        assert(chars_match(t[at + (a + j)], q[a + j]));
    }
    assert(matches_at(t, tr, at + a));
    assert(0 <= at + a && (at + a) + tr.len() <= t.len());
    assert(is_fold_substring(tr, t));
}

/// The empty query matches every title under the substring policy.
pub proof fn lemma_empty_query_matches(t: Seq<char>, q: Seq<char>)
    requires
        q.len() == 0,
    ensures
        spec_substring_match(t, q),
{
    let tr = spec_trim(q);
    assert(tr.len() == 0);
    assert(matches_at(t, tr, 0));
    assert(0 <= 0 && 0 + tr.len() <= t.len() && matches_at(t, tr, 0));
    assert(is_fold_substring(tr, t));
}

/// Decides the substring policy's predicate for one title and the current
/// query: true exactly when the title, case-folded, contains the query,
/// case-folded and trimmed of surrounding whitespace.
pub fn substring_match(title: &str, query: &str) -> (r: bool)
    ensures
        r == spec_substring_match(title@, query@),
{
    let tlen = title.unicode_len();
    let qlen = query.unicode_len();
    let mut start: usize = 0;
    while start < qlen && is_space_char(query.get_char(start))
        invariant
            start <= qlen,
            qlen == query@.len(),
            forall|j: int| 0 <= j < start ==> is_space(query@[j]),
        decreases qlen - start,
    {
        start = start + 1;
    }
    let mut end: usize = qlen;
    while end > start && is_space_char(query.get_char(end - 1))
        invariant
            start <= end <= qlen,
            qlen == query@.len(),
            forall|j: int| end <= j < qlen ==> is_space(query@[j]),
        decreases end,
    {
        end = end - 1;
    }
    proof {
        if start == end && start < qlen {
            assert(is_space(query@[start as int]));
            assert(false);
        }
        lemma_trim_characterize(query@, start as int, end as int);
    }
    let ghost trimmed = spec_trim(query@);
    let mlen = end - start;
    if mlen == 0 {
        proof {
            assert(matches_at(title@, trimmed, 0));
            assert(0 <= 0 && 0 + trimmed.len() <= title@.len() && matches_at(title@, trimmed, 0));
        }
        return true;
    }
    if mlen > tlen {
        proof {
            assert(trimmed.len() > title@.len());
            assert(!is_fold_substring(trimmed, title@));
        }
        return false;
    }
    let mut at: usize = 0;
    while at <= tlen - mlen
        invariant
            1 <= mlen <= tlen,
            tlen == title@.len(),
            qlen == query@.len(),
            start <= end <= qlen,
            end == start + mlen,
            trimmed == spec_trim(query@),
            trimmed == query@.subrange(start as int, end as int),
            trimmed.len() == mlen,
            at <= tlen - mlen + 1,
            forall|k: int| 0 <= k < at ==> !matches_at(title@, trimmed, k),
        decreases tlen - mlen + 1 - at,
    {
        let mut ok = true;
        let mut j: usize = 0;
        while j < mlen
            invariant_except_break
                ok,
                j <= mlen,
                1 <= mlen <= tlen,
                tlen == title@.len(),
                qlen == query@.len(),
                start <= end <= qlen,
                end == start + mlen,
                at + mlen <= tlen,
                trimmed == query@.subrange(start as int, end as int),
                trimmed.len() == mlen,
                forall|l: int| 0 <= l < j ==> chars_match(title@[at + l], #[trigger] trimmed[l]),
            ensures
                ok ==> forall|l: int|
                    0 <= l < mlen ==> chars_match(title@[at + l], #[trigger] trimmed[l]),
                !ok ==> !matches_at(title@, trimmed, at as int),
            decreases mlen - j,
        {
            let tc = fold_char_value(title.get_char(at + j));
            let qc = fold_char_value(query.get_char(start + j));
            proof {
                assert(trimmed[j as int] == query@[start + j]);
            }
            if tc != qc {
                proof {
                    assert(!chars_match(title@[at + j], trimmed[j as int]));
                }
                ok = false;
                break ;
            }
            j = j + 1;
        }
        if ok {
            proof {
                assert(matches_at(title@, trimmed, at as int));
                assert(0 <= at as int && at as int + trimmed.len() <= title@.len());
            }
            return true;
        }
        at = at + 1;
    }
    proof {
        assert forall|k: int| !(0 <= k && k + trimmed.len() <= title@.len() && matches_at(
            title@,
            trimmed,
            k,
        )) by {
            if 0 <= k && k + trimmed.len() <= title@.len() {
                assert(k < at);
            }
        }
        assert(!is_fold_substring(trimmed, title@));
    }
    false
}

} // verus!
