//! The match & rank engine: given the enumerator's entries and the current
//! query, compute a score per entry, drop the non-matches, and order the
//! survivors. Scores are recomputed from scratch on every refresh cycle and
//! on every query change; nothing is cached across cycles.
//!
//! Two configuration-free policies are supported. The substring policy keeps
//! an entry when its title, case-folded, contains the query, case-folded and
//! trimmed, and ranks nothing beyond enumeration order. The fuzzy policy
//! scores entries with a subsequence scorer and sorts descending by score,
//! ties broken by enumeration order (a stable sort).
use vstd::multiset::Multiset;
use vstd::prelude::*;

use crate::entry::Window;
use crate::text::{
    is_fold_substring, lemma_empty_query_matches, lemma_query_occurs_after_trim,
    spec_substring_match, substring_match,
};

verus! {

/// What the fuzzy scorer answers for one title and one query: `None` when
/// the query is no viable subsequence of the title, otherwise the score.
/// The result is a function of the two texts alone.
pub uninterp spec fn fuzzy_score_of(title: Seq<char>, query: Seq<char>) -> Option<i64>;

/// Relies on fuzzy_matcher's `SkimMatcherV2::fuzzy_match`, on a matcher
/// fixed to case-insensitive matching: a deterministic subsequence scorer
/// whose result depends on the title and the query text alone. Its source
/// answers `Some(0)` outright whenever the query is empty.
#[verifier::external_body]
fn fuzzy_match_score(title: &str, query: &str) -> (r: Option<i64>)
    ensures
        r == fuzzy_score_of(title@, query@),
        query@.len() == 0 ==> r == Some(0i64),
{
    fuzzy_matcher::FuzzyMatcher::fuzzy_match(
        &fuzzy_matcher::skim::SkimMatcherV2::default().ignore_case(),
        title,
        query,
    )
}

/// The same entry with its transient score replaced.
pub open spec fn with_score(w: Window, sc: Option<i64>) -> Window {
    Window { score: sc, ..w }
}

/// The rank an entry carries; meaningful only while its score is set.
pub open spec fn score_of(w: Window) -> int {
    match w.score {
        Some(v) => v as int,
        None => i64::MIN as int,
    }
}

/// The fuzzy policy's scoring pass: every entry whose title the scorer
/// matches survives, with its score set; the others are dropped. Order is
/// enumeration order.
pub open spec fn spec_score_fuzzy(s: Seq<Window>, q: Seq<char>) -> Seq<Window>
    decreases s.len(),
{
    if s.len() == 0 {
        Seq::empty()
    } else {
        spec_score_fuzzy(s.drop_last(), q) + match fuzzy_score_of(s.last().name@, q) {
            Some(v) => seq![with_score(s.last(), Some(v))],
            None => Seq::empty(),
        }
    }
}

/// How many entries the fuzzy scorer matches.
pub open spec fn spec_fuzzy_match_count(s: Seq<Window>, q: Seq<char>) -> nat
    decreases s.len(),
{
    if s.len() == 0 {
        0
    } else {
        spec_fuzzy_match_count(s.drop_last(), q) + if fuzzy_score_of(s.last().name@, q) is Some {
            1nat
        } else {
            0nat
        }
    }
}

/// Insertion into a descending run: the new entry goes behind every entry
/// whose score is at least its own, which is what keeps the sort stable.
pub open spec fn spec_insert_desc(s: Seq<Window>, w: Window) -> Seq<Window>
    decreases s.len(),
{
    if s.len() == 0 {
        seq![w]
    } else if score_of(s[0]) >= score_of(w) {
        seq![s[0]] + spec_insert_desc(s.drop_first(), w)
    } else {
        seq![w] + s
    }
}

/// Stable insertion sort, descending by score.
pub open spec fn spec_sort_desc(s: Seq<Window>) -> Seq<Window>
    decreases s.len(),
{
    if s.len() == 0 {
        Seq::empty()
    } else {
        spec_insert_desc(spec_sort_desc(s.drop_last()), s.last())
    }
}

/// The fuzzy policy: score, drop non-matches, sort descending by score with
/// ties in enumeration order.
pub open spec fn spec_rank_fuzzy(s: Seq<Window>, q: Seq<char>) -> Seq<Window> {
    spec_sort_desc(spec_score_fuzzy(s, q))
}

/// The substring policy: keep the matches in enumeration order, each with
/// its score set to the neutral rank 0.
pub open spec fn spec_rank_substring(s: Seq<Window>, q: Seq<char>) -> Seq<Window>
    decreases s.len(),
{
    if s.len() == 0 {
        Seq::empty()
    } else {
        spec_rank_substring(s.drop_last(), q) + if spec_substring_match(s.last().name@, q) {
            seq![with_score(s.last(), Some(0i64))]
        } else {
            Seq::empty()
        }
    }
}

/// Descending order by score.
pub open spec fn sorted_desc(s: Seq<Window>) -> bool {
    forall|i: int, j: int| 0 <= i < j < s.len() ==> score_of(s[i]) >= score_of(s[j])
}

proof fn lemma_score_fuzzy_all_scored(s: Seq<Window>, q: Seq<char>)
    ensures
        forall|l: int|
            0 <= l < spec_score_fuzzy(s, q).len() ==> (#[trigger] spec_score_fuzzy(s, q)[l]).score
                is Some,
    decreases s.len(),
{
    if s.len() > 0 {
        lemma_score_fuzzy_all_scored(s.drop_last(), q);
    }
}

/// The scoring pass keeps exactly the matched entries.
pub proof fn lemma_score_fuzzy_len(s: Seq<Window>, q: Seq<char>)
    ensures
        spec_score_fuzzy(s, q).len() == spec_fuzzy_match_count(s, q),
    decreases s.len(),
{
    if s.len() > 0 {
        lemma_score_fuzzy_len(s.drop_last(), q);
    }
}

proof fn lemma_insert_desc_len(s: Seq<Window>, w: Window)
    ensures
        spec_insert_desc(s, w).len() == s.len() + 1,
    decreases s.len(),
{
    if s.len() > 0 && score_of(s[0]) >= score_of(w) {
        lemma_insert_desc_len(s.drop_first(), w);
    }
}

/// Sorting neither drops nor duplicates entries.
pub proof fn lemma_sort_desc_len(s: Seq<Window>)
    ensures
        spec_sort_desc(s).len() == s.len(),
    decreases s.len(),
{
    if s.len() > 0 {
        lemma_sort_desc_len(s.drop_last());
        lemma_insert_desc_len(spec_sort_desc(s.drop_last()), s.last());
    }
}

proof fn lemma_insert_desc_all(s: Seq<Window>, w: Window, p: spec_fn(Window) -> bool)
    requires
        forall|l: int| 0 <= l < s.len() ==> p(#[trigger] s[l]),
        p(w),
    ensures
        forall|l: int|
            0 <= l < spec_insert_desc(s, w).len() ==> p(#[trigger] spec_insert_desc(s, w)[l]),
    decreases s.len(),
{
    let out = spec_insert_desc(s, w);
    if s.len() == 0 {
        assert(out[0] == w);
    } else if score_of(s[0]) >= score_of(w) {
        assert(forall|l: int| 0 <= l < s.drop_first().len() ==> p(#[trigger] s.drop_first()[l]));
        lemma_insert_desc_all(s.drop_first(), w, p);
        let rest = spec_insert_desc(s.drop_first(), w);
        assert forall|l: int| 0 <= l < out.len() implies p(#[trigger] out[l]) by {
            if l == 0 {
                assert(out[0] == s[0]);
            } else {
                assert(out[l] == rest[l - 1]);
            }
        }
    } else {
        assert forall|l: int| 0 <= l < out.len() implies p(#[trigger] out[l]) by {
            if l == 0 {
                assert(out[0] == w);
            } else {
                assert(out[l] == s[l - 1]);
            }
        }
    }
}

proof fn lemma_insert_desc_all_ge(s: Seq<Window>, w: Window)
    requires
        forall|l: int| 0 <= l < s.len() ==> score_of(#[trigger] s[l]) >= score_of(w),
    ensures
        spec_insert_desc(s, w) == s.push(w),
    decreases s.len(),
{
    if s.len() == 0 {
        assert(seq![w] =~= s.push(w));
    } else {
        assert(forall|l: int|
            0 <= l < s.drop_first().len() ==> score_of(#[trigger] s.drop_first()[l]) >= score_of(
                w,
            ));
        lemma_insert_desc_all_ge(s.drop_first(), w);
        assert(seq![s[0]] + s.drop_first().push(w) =~= s.push(w));
    }
}

/// Entries that all carry one and the same score come out of the sort
/// exactly as they went in: ties keep enumeration order.
pub proof fn lemma_sort_desc_all_equal(s: Seq<Window>, c: int)
    requires
        forall|l: int| 0 <= l < s.len() ==> score_of(#[trigger] s[l]) == c,
    ensures
        spec_sort_desc(s) == s,
    decreases s.len(),
{
    if s.len() > 0 {
        assert(forall|l: int|
            0 <= l < s.drop_last().len() ==> score_of(#[trigger] s.drop_last()[l]) == c);
        lemma_sort_desc_all_equal(s.drop_last(), c);
        assert(forall|l: int|
            0 <= l < s.drop_last().len() ==> score_of(#[trigger] s.drop_last()[l]) >= score_of(
                s.last(),
            ));
        lemma_insert_desc_all_ge(s.drop_last(), s.last());
        assert(s.drop_last().push(s.last()) =~= s);
    }
}

proof fn lemma_insert_desc_sorted(s: Seq<Window>, w: Window)
    requires
        sorted_desc(s),
    ensures
        sorted_desc(spec_insert_desc(s, w)),
    decreases s.len(),
{
    if s.len() > 0 && score_of(s[0]) >= score_of(w) {
        assert(sorted_desc(s.drop_first()));
        lemma_insert_desc_sorted(s.drop_first(), w);
        let rest = spec_insert_desc(s.drop_first(), w);
        lemma_insert_desc_all(
            s.drop_first(),
            w,
            |x: Window| score_of(x) <= score_of(s[0]),
        );
        assert forall|i: int, j: int|
            0 <= i < j < spec_insert_desc(s, w).len() implies score_of(
            spec_insert_desc(s, w)[i],
        ) >= score_of(spec_insert_desc(s, w)[j]) by {
            if i > 0 {
                assert(spec_insert_desc(s, w)[i] == rest[i - 1]);
                assert(spec_insert_desc(s, w)[j] == rest[j - 1]);
            } else {
                assert(spec_insert_desc(s, w)[j] == rest[j - 1]);
            }
        }
    }
}

/// The sorted output really is sorted, descending by score.
pub proof fn lemma_sort_desc_sorted(s: Seq<Window>)
    ensures
        sorted_desc(spec_sort_desc(s)),
    decreases s.len(),
{
    if s.len() > 0 {
        lemma_sort_desc_sorted(s.drop_last());
        lemma_insert_desc_sorted(spec_sort_desc(s.drop_last()), s.last());
    }
}

proof fn lemma_insert_desc_multiset(s: Seq<Window>, w: Window)
    ensures
        spec_insert_desc(s, w).to_multiset() =~= s.to_multiset().insert(w),
    decreases s.len(),
{
    broadcast use vstd::seq_lib::group_to_multiset_ensures;
    broadcast use vstd::multiset::group_multiset_axioms;

    if s.len() == 0 {
        assert(seq![w] =~= Seq::<Window>::empty().push(w));
        assert(Seq::<Window>::empty().to_multiset() =~= Multiset::<Window>::empty());
    } else if score_of(s[0]) >= score_of(w) {
        lemma_insert_desc_multiset(s.drop_first(), w);
        vstd::seq_lib::lemma_multiset_commutative(seq![s[0]], spec_insert_desc(s.drop_first(), w));
        vstd::seq_lib::lemma_multiset_commutative(seq![s[0]], s.drop_first());
        assert(seq![s[0]] + s.drop_first() =~= s);
    } else {
        vstd::seq_lib::lemma_multiset_commutative(seq![w], s);
        assert(seq![w] =~= Seq::<Window>::empty().push(w));
        assert(Seq::<Window>::empty().to_multiset() =~= Multiset::<Window>::empty());
    }
}

/// The sort is a permutation: it neither drops, duplicates nor invents an
/// entry — the ranked list holds exactly the scored survivors.
pub proof fn lemma_sort_desc_multiset(s: Seq<Window>)
    ensures
        spec_sort_desc(s).to_multiset() =~= s.to_multiset(),
    decreases s.len(),
{
    broadcast use vstd::seq_lib::group_to_multiset_ensures;

    if s.len() > 0 {
        lemma_sort_desc_multiset(s.drop_last());
        lemma_insert_desc_multiset(spec_sort_desc(s.drop_last()), s.last());
        assert(s.drop_last().push(s.last()) =~= s);
    }
}

/// The fuzzy policy's ranked list holds exactly the entries its scoring pass
/// kept, reordered and nothing more.
pub proof fn lemma_rank_fuzzy_permutes(s: Seq<Window>, q: Seq<char>)
    ensures
        spec_rank_fuzzy(s, q).to_multiset() =~= spec_score_fuzzy(s, q).to_multiset(),
{
    lemma_sort_desc_multiset(spec_score_fuzzy(s, q));
}

proof fn lemma_insert_desc_at(s: Seq<Window>, w: Window, k: int)
    requires
        0 <= k <= s.len(),
        forall|l: int| 0 <= l < k ==> score_of(#[trigger] s[l]) >= score_of(w),
        k < s.len() ==> score_of(s[k]) < score_of(w),
    ensures
        spec_insert_desc(s, w) == s.take(k) + seq![w] + s.skip(k),
    decreases s.len(),
{
    if k == 0 {
        if s.len() == 0 {
            assert(seq![w] =~= s.take(0) + seq![w] + s.skip(0));
        } else {
            assert(s.take(0) + seq![w] + s.skip(0) =~= seq![w] + s);
        }
    } else {
        let s1 = s.drop_first();
        assert(forall|l: int| 0 <= l < k - 1 ==> score_of(#[trigger] s1[l]) >= score_of(w));
        lemma_insert_desc_at(s1, w, k - 1);
        assert(seq![s[0]] + (s1.take(k - 1) + seq![w] + s1.skip(k - 1)) =~= s.take(k) + seq![w]
            + s.skip(k));
    }
}

proof fn lemma_rank_substring_empty(s: Seq<Window>, q: Seq<char>)
    requires
        q.len() == 0,
    ensures
        spec_rank_substring(s, q) == s.map_values(|w: Window| with_score(w, Some(0i64))),
    decreases s.len(),
{
    let m = s.map_values(|w: Window| with_score(w, Some(0i64)));
    if s.len() == 0 {
        assert(m =~= Seq::<Window>::empty());
    } else {
        lemma_rank_substring_empty(s.drop_last(), q);
        lemma_empty_query_matches(s.last().name@, q);
        assert(s.drop_last().map_values(|w: Window| with_score(w, Some(0i64))) + seq![
            with_score(s.last(), Some(0i64)),
        ] =~= m);
    }
}

/// If the query is a case-insensitive substring of an entry's title, the
/// substring policy always includes that entry (with its score set) in its
/// output.
pub proof fn lemma_substring_policy_includes(entries: Seq<Window>, q: Seq<char>, i: int)
    requires
        0 <= i < entries.len(),
        is_fold_substring(q, entries[i].name@),
    ensures
        spec_rank_substring(entries, q).contains(with_score(entries[i], Some(0i64))),
    decreases entries.len(),
{
    lemma_query_occurs_after_trim(entries[i].name@, q);
    let out = spec_rank_substring(entries, q);
    let prefix = spec_rank_substring(entries.drop_last(), q);
    if i == entries.len() - 1 {
        assert(out[prefix.len() as int] == with_score(entries[i], Some(0i64)));
    } else {
        assert(entries.drop_last()[i] == entries[i]);
        lemma_substring_policy_includes(entries.drop_last(), q, i);
        let k = choose|k: int|
            0 <= k < prefix.len() && prefix[k] == with_score(entries[i], Some(0i64));
        assert(out[k] == with_score(entries[i], Some(0i64)));
    }
}

/// How many entries the substring policy matches.
pub open spec fn spec_substring_match_count(s: Seq<Window>, q: Seq<char>) -> nat
    decreases s.len(),
{
    if s.len() == 0 {
        0
    } else {
        spec_substring_match_count(s.drop_last(), q) + if spec_substring_match(
            s.last().name@,
            q,
        ) {
            1nat
        } else {
            0nat
        }
    }
}

/// The substring policy keeps exactly the matched entries.
pub proof fn lemma_rank_substring_len(s: Seq<Window>, q: Seq<char>)
    ensures
        spec_rank_substring(s, q).len() == spec_substring_match_count(s, q),
    decreases s.len(),
{
    if s.len() > 0 {
        lemma_rank_substring_len(s.drop_last(), q);
    }
}

proof fn lemma_rank_substring_none(s: Seq<Window>, q: Seq<char>)
    requires
        forall|j: int| 0 <= j < s.len() ==> !spec_substring_match((#[trigger] s[j]).name@, q),
    ensures
        spec_rank_substring(s, q) == Seq::<Window>::empty(),
    decreases s.len(),
{
    if s.len() > 0 {
        assert(forall|j: int|
            0 <= j < s.drop_last().len() ==> !spec_substring_match(
                (#[trigger] s.drop_last()[j]).name@,
                q,
            ));
        lemma_rank_substring_none(s.drop_last(), q);
        assert(Seq::<Window>::empty() + Seq::<Window>::empty() =~= Seq::<Window>::empty());
    }
}

/// When the substring policy matches exactly one entry, its output is that
/// entry alone, with its score set.
pub proof fn lemma_rank_substring_single(entries: Seq<Window>, q: Seq<char>, i: int)
    requires
        0 <= i < entries.len(),
        spec_substring_match(entries[i].name@, q),
        forall|j: int|
            0 <= j < entries.len() && j != i ==> !spec_substring_match(
                (#[trigger] entries[j]).name@,
                q,
            ),
    ensures
        spec_rank_substring(entries, q) == seq![with_score(entries[i], Some(0i64))],
    decreases entries.len(),
{
    let x = with_score(entries[i], Some(0i64));
    if i == entries.len() - 1 {
        assert(forall|j: int|
            0 <= j < entries.drop_last().len() ==> !spec_substring_match(
                (#[trigger] entries.drop_last()[j]).name@,
                q,
            ));
        lemma_rank_substring_none(entries.drop_last(), q);
        assert(Seq::<Window>::empty() + seq![x] =~= seq![x]);
    } else {
        assert(entries.drop_last()[i] == entries[i]);
        assert(forall|j: int|
            0 <= j < entries.drop_last().len() && j != i ==> !spec_substring_match(
                (#[trigger] entries.drop_last()[j]).name@,
                q,
            ));
        lemma_rank_substring_single(entries.drop_last(), q, i);
        assert(!spec_substring_match(entries.last().name@, q));
        assert(seq![x] + Seq::<Window>::empty() =~= seq![x]);
    }
}

proof fn lemma_score_fuzzy_none(s: Seq<Window>, q: Seq<char>)
    requires
        forall|j: int| 0 <= j < s.len() ==> fuzzy_score_of((#[trigger] s[j]).name@, q) is None,
    ensures
        spec_score_fuzzy(s, q) == Seq::<Window>::empty(),
    decreases s.len(),
{
    if s.len() > 0 {
        assert(forall|j: int|
            0 <= j < s.drop_last().len() ==> fuzzy_score_of(
                (#[trigger] s.drop_last()[j]).name@,
                q,
            ) is None);
        lemma_score_fuzzy_none(s.drop_last(), q);
        assert(Seq::<Window>::empty() + Seq::<Window>::empty() =~= Seq::<Window>::empty());
    }
}

/// When the fuzzy scorer matches exactly one entry, the ranked list is that
/// entry alone, with its score set to what the scorer answered.
pub proof fn lemma_rank_fuzzy_single(entries: Seq<Window>, q: Seq<char>, i: int)
    requires
        0 <= i < entries.len(),
        fuzzy_score_of(entries[i].name@, q) is Some,
        forall|j: int|
            0 <= j < entries.len() && j != i ==> fuzzy_score_of(
                (#[trigger] entries[j]).name@,
                q,
            ) is None,
    ensures
        spec_rank_fuzzy(entries, q) == seq![
            with_score(entries[i], Some(fuzzy_score_of(entries[i].name@, q)->Some_0)),
        ],
{
    let x = with_score(entries[i], Some(fuzzy_score_of(entries[i].name@, q)->Some_0));
    lemma_score_fuzzy_single(entries, q, i);
    assert(spec_score_fuzzy(entries, q) == seq![x]);
    assert(seq![x].drop_last() =~= Seq::<Window>::empty());
    assert(seq![x].last() == x);
    assert(spec_sort_desc(seq![x]) == spec_insert_desc(spec_sort_desc(Seq::<Window>::empty()), x));
    assert(spec_sort_desc(Seq::<Window>::empty()) == Seq::<Window>::empty());
    assert(spec_insert_desc(Seq::<Window>::empty(), x) == seq![x]);
}

proof fn lemma_score_fuzzy_single(s: Seq<Window>, q: Seq<char>, i: int)
    requires
        0 <= i < s.len(),
        fuzzy_score_of(s[i].name@, q) is Some,
        forall|j: int|
            0 <= j < s.len() && j != i ==> fuzzy_score_of((#[trigger] s[j]).name@, q) is None,
    ensures
        spec_score_fuzzy(s, q) == seq![
            with_score(s[i], Some(fuzzy_score_of(s[i].name@, q)->Some_0)),
        ],
    decreases s.len(),
{
    let x = with_score(s[i], Some(fuzzy_score_of(s[i].name@, q)->Some_0));
    if i == s.len() - 1 {
        assert(forall|j: int|
            0 <= j < s.drop_last().len() ==> fuzzy_score_of(
                (#[trigger] s.drop_last()[j]).name@,
                q,
            ) is None);
        lemma_score_fuzzy_none(s.drop_last(), q);
        assert(Seq::<Window>::empty() + seq![x] =~= seq![x]);
    } else {
        assert(s.drop_last()[i] == s[i]);
        assert(forall|j: int|
            0 <= j < s.drop_last().len() && j != i ==> fuzzy_score_of(
                (#[trigger] s.drop_last()[j]).name@,
                q,
            ) is None);
        lemma_score_fuzzy_single(s.drop_last(), q, i);
        assert(fuzzy_score_of(s.last().name@, q) is None);
        assert(seq![x] + Seq::<Window>::empty() =~= seq![x]);
    }
}

fn score_ge(a: &Window, b: &Window) -> (r: bool)
    requires
        a.score is Some,
        b.score is Some,
    ensures
        r == (score_of(*a) >= score_of(*b)),
{
    match (a.score, b.score) {
        (Some(x), Some(y)) => x >= y,
        _ => false,
    }
}

/// The substring policy over a whole entry collection: keeps exactly the
/// entries whose title, case-folded, contains the trimmed, case-folded
/// query, in enumeration order, each with its score set. An empty query
/// keeps every entry, in order.
pub fn rank_substring(entries: Vec<Window>, query: &str) -> (out: Vec<Window>)
    ensures
        out@ == spec_rank_substring(entries@, query@),
        query@.len() == 0 ==> out@ == entries@.map_values(|w: Window| with_score(w, Some(0i64))),
{
    let ghost orig = entries@;
    let mut rest = entries;
    let mut out: Vec<Window> = Vec::new();
    let ghost mut i: int = 0;
    while rest.len() > 0
        invariant
            0 <= i <= orig.len(),
            rest@ == orig.skip(i),
            out@ == spec_rank_substring(orig.take(i), query@),
        decreases rest@.len(),
    {
        let mut w = rest.remove(0);
        proof {
            assert(orig.skip(i)[0] == orig[i]);
            assert(rest@ =~= orig.skip(i + 1));
            assert(orig.take(i + 1).drop_last() =~= orig.take(i));
            assert(orig.take(i + 1).last() == orig[i]);
        }
        let ghost before = out@;
        if substring_match(w.name.as_str(), query) {
            w.score = Some(0);
            proof {
                assert(w == with_score(orig[i], Some(0i64)));
            }
            out.push(w);
            proof {
                assert(out@ =~= before + seq![with_score(orig[i], Some(0i64))]);
            }
        } else {
            proof {
                assert(out@ =~= before + Seq::<Window>::empty());
            }
        }
        proof {
            i = i + 1;
        }
    }
    proof {
        assert(orig.take(orig.len() as int) =~= orig);
        if query@.len() == 0 {
            lemma_rank_substring_empty(orig, query@);
        }
    }
    out
}

/// The fuzzy policy over a whole entry collection: scores every entry with
/// the subsequence scorer, drops the non-matches, and sorts the survivors
/// descending by score, ties broken by enumeration order. An empty query
/// keeps every entry, in enumeration order, with the neutral score 0.
pub fn rank_fuzzy(entries: Vec<Window>, query: &str) -> (out: Vec<Window>)
    ensures
        out@ == spec_rank_fuzzy(entries@, query@),
        query@.len() == 0 ==> out@ == entries@.map_values(|w: Window| with_score(w, Some(0i64))),
{
    let ghost orig = entries@;
    let mut rest = entries;
    let mut scored: Vec<Window> = Vec::new();
    let ghost mut i: int = 0;
    while rest.len() > 0
        invariant
            0 <= i <= orig.len(),
            rest@ == orig.skip(i),
            scored@ == spec_score_fuzzy(orig.take(i), query@),
            query@.len() == 0 ==> scored@ == orig.take(i).map_values(
                |w: Window| with_score(w, Some(0i64)),
            ),
        decreases rest@.len(),
    {
        let mut w = rest.remove(0);
        proof {
            assert(orig.skip(i)[0] == orig[i]);
            assert(rest@ =~= orig.skip(i + 1));
            assert(orig.take(i + 1).drop_last() =~= orig.take(i));
            assert(orig.take(i + 1).last() == orig[i]);
        }
        let ghost before = scored@;
        let sc = fuzzy_match_score(w.name.as_str(), query);
        match sc {
            Some(v) => {
                w.score = Some(v);
                proof {
                    assert(w == with_score(orig[i], Some(v)));
                }
                scored.push(w);
                proof {
                    assert(scored@ =~= before + seq![with_score(orig[i], Some(v))]);
                    if query@.len() == 0 {
                        assert(orig.take(i + 1).map_values(
                            |w: Window| with_score(w, Some(0i64)),
                        ) =~= orig.take(i).map_values(|w: Window| with_score(w, Some(0i64)))
                            + seq![with_score(orig[i], Some(0i64))]);
                    }
                }
            },
            None => {
                proof {
                    assert(scored@ =~= before + Seq::<Window>::empty());
                }
            },
        }
        proof {
            i = i + 1;
        }
    }
    proof {
        assert(orig.take(orig.len() as int) =~= orig);
    }
    let ghost sorig = scored@;
    proof {
        lemma_score_fuzzy_all_scored(orig, query@);
    }
    let mut out: Vec<Window> = Vec::new();
    let ghost mut j: int = 0;
    while scored.len() > 0
        invariant
            0 <= j <= sorig.len(),
            scored@ == sorig.skip(j),
            out@ == spec_sort_desc(sorig.take(j)),
            forall|l: int| 0 <= l < sorig.len() ==> (#[trigger] sorig[l]).score is Some,
            forall|l: int| 0 <= l < out@.len() ==> (#[trigger] out@[l]).score is Some,
        decreases scored@.len(),
    {
        let w = scored.remove(0);
        proof {
            assert(sorig.skip(j)[0] == sorig[j]);
            assert(scored@ =~= sorig.skip(j + 1));
        }
        let mut k: usize = 0;
        while k < out.len() && score_ge(&out[k], &w)
            invariant
                k <= out@.len(),
                w.score is Some,
                forall|l: int| 0 <= l < out@.len() ==> (#[trigger] out@[l]).score is Some,
                forall|l: int| 0 <= l < k ==> score_of(#[trigger] out@[l]) >= score_of(w),
            decreases out@.len() - k,
        {
            k = k + 1;
        }
        let ghost before = out@;
        proof {
            lemma_insert_desc_at(before, w, k as int);
        }
        out.insert(k, w);
        proof {
            assert(out@ =~= before.take(k as int) + seq![w] + before.skip(k as int));
            assert(out@ == spec_insert_desc(before, w));
            assert(sorig.take(j + 1).drop_last() =~= sorig.take(j));
            assert(sorig.take(j + 1).last() == sorig[j]);
            assert(out@ == spec_sort_desc(sorig.take(j + 1)));
            assert forall|l: int| 0 <= l < out@.len() implies (#[trigger] out@[l]).score
                is Some by {
                if l < k {
                    assert(out@[l] == before[l]);
                } else if l > k {
                    assert(out@[l] == before[l - 1]);
                }
            }
            j = j + 1;
        }
    }
    proof {
        assert(sorig.take(sorig.len() as int) =~= sorig);
        if query@.len() == 0 {
            assert forall|l: int| 0 <= l < sorig.len() implies score_of(#[trigger] sorig[l])
                == 0 by {
                assert(sorig[l] == with_score(orig[l], Some(0i64)));
            }
            lemma_sort_desc_all_equal(sorig, 0);
        }
    }
    out
}

} // verus!
