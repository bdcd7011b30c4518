//! The window enumerator: one pass over the snapshot, in the OS-reported
//! z-order, producing one entry per eligible window. The whole entry
//! collection is rebuilt from scratch on every refresh cycle; nothing is
//! carried over from the previous one.
use vstd::prelude::*;

use crate::directory::{
    is_eligible, spec_eligible, wf_directory, RawWindow, RawWindowV,
};
use crate::entry::{Window, WindowV};

verus! {

/// The entry an eligible raw window gives rise to: its title as display
/// text, its handle, its process label if one was resolved, and no score.
pub open spec fn spec_entry_of(w: RawWindowV) -> WindowV {
    WindowV { name: w.title, window: w.handle, process_label: w.process_label, score: None }
}

/// The entries produced by the prefix `pre` of a snapshot, with eligibility
/// judged against the whole snapshot `dir`.
pub open spec fn spec_enum_rec(dir: Seq<RawWindowV>, pre: Seq<RawWindowV>) -> Seq<WindowV>
    decreases pre.len(),
{
    if pre.len() == 0 {
        Seq::empty()
    } else {
        spec_enum_rec(dir, pre.drop_last()) + if spec_eligible(dir, pre.last()) {
            seq![spec_entry_of(pre.last())]
        } else {
            Seq::empty()
        }
    }
}

/// All entries of one refresh cycle, in enumeration order.
pub open spec fn spec_enumerate(dir: Seq<RawWindowV>) -> Seq<WindowV> {
    spec_enum_rec(dir, dir)
}

/// Walks the snapshot once and builds the cycle's entry collection: exactly
/// the eligible windows, in enumeration order, each with its title, handle
/// and optional process label, and with the score unset.
pub fn enumerate(dir: &Vec<RawWindow>) -> (entries: Vec<Window>)
    ensures
        entries.deep_view() == spec_enumerate(dir.deep_view()),
{
    let ghost gdir = dir.deep_view();
    let mut entries: Vec<Window> = Vec::new();
    let mut i: usize = 0;
    while i < dir.len()
        invariant
            gdir == dir.deep_view(),
            gdir.len() == dir@.len(),
            i <= dir@.len(),
            entries.deep_view() == spec_enum_rec(gdir, gdir.take(i as int)),
        decreases dir@.len() - i,
    {
        proof {
            assert(gdir[i as int] == dir@[i as int]@);
            assert(gdir.take(i + 1).drop_last() =~= gdir.take(i as int));
            assert(gdir.take(i + 1).last() == gdir[i as int]);
        }
        let ghost before = entries.deep_view();
        if is_eligible(dir, &dir[i]) {
            let label = match &dir[i].process_label {
                Some(l) => Some(l.clone()),
                None => None,
            };
            let e = Window {
                name: dir[i].title.clone(),
                window: dir[i].handle,
                process_label: label,
                score: None,
            };
            proof {
                assert(e@ == spec_entry_of(gdir[i as int]));
            }
            entries.push(e);
            proof {
                assert(entries.deep_view() =~= before.push(spec_entry_of(gdir[i as int])));
                assert(before.push(spec_entry_of(gdir[i as int])) =~= before + seq![
                    spec_entry_of(gdir[i as int]),
                ]);
            }
        } else {
            proof {
                assert(entries.deep_view() =~= before + Seq::<WindowV>::empty());
            }
        }
        i = i + 1;
    }
    proof {
        assert(gdir.take(gdir.len() as int) =~= gdir);
    }
    entries
}

/// An eligible window of the prefix owns an entry in the produced sequence.
proof fn lemma_enum_rec_contains(dir: Seq<RawWindowV>, pre: Seq<RawWindowV>, i: int)
    requires
        0 <= i < pre.len(),
        spec_eligible(dir, pre[i]),
    ensures
        exists|k: int|
            0 <= k < spec_enum_rec(dir, pre).len() && spec_enum_rec(dir, pre)[k] == spec_entry_of(
                pre[i],
            ),
    decreases pre.len(),
{
    let out = spec_enum_rec(dir, pre);
    let prefix = spec_enum_rec(dir, pre.drop_last());
    if i == pre.len() - 1 {
        assert(pre.last() == pre[i]);
        assert(out[prefix.len() as int] == spec_entry_of(pre[i]));
    } else {
        assert(pre.drop_last()[i] == pre[i]);
        lemma_enum_rec_contains(dir, pre.drop_last(), i);
        let k = choose|k: int|
            0 <= k < prefix.len() && prefix[k] == spec_entry_of(pre.drop_last()[i]);
        assert(out[k] == spec_entry_of(pre[i]));
    }
}

/// Every produced entry stems from an eligible window of the prefix.
proof fn lemma_enum_rec_sources(dir: Seq<RawWindowV>, pre: Seq<RawWindowV>, k: int)
    requires
        0 <= k < spec_enum_rec(dir, pre).len(),
    ensures
        exists|i: int|
            0 <= i < pre.len() && spec_eligible(dir, pre[i]) && spec_enum_rec(dir, pre)[k]
                == spec_entry_of(pre[i]),
    decreases pre.len(),
{
    let out = spec_enum_rec(dir, pre);
    let prefix = spec_enum_rec(dir, pre.drop_last());
    if k < prefix.len() {
        lemma_enum_rec_sources(dir, pre.drop_last(), k);
        let i = choose|i: int|
            0 <= i < pre.drop_last().len() && spec_eligible(dir, pre.drop_last()[i]) && prefix[k]
                == spec_entry_of(pre.drop_last()[i]);
        assert(pre.drop_last()[i] == pre[i]);
        assert(out[k] == spec_entry_of(pre[i]));
    } else {
        assert(spec_eligible(dir, pre.last()));
        assert(out[k] == spec_entry_of(pre[pre.len() - 1]));
    }
}

/// A raw window of a well-formed snapshot owns an entry in the enumeration
/// exactly when it passes the eligibility filter.
pub proof fn lemma_enumerate_membership(dir: Seq<RawWindowV>, i: int)
    requires
        wf_directory(dir),
        0 <= i < dir.len(),
    ensures
        spec_eligible(dir, dir[i]) <==> exists|k: int|
            0 <= k < spec_enumerate(dir).len() && spec_enumerate(dir)[k].window == dir[i].handle,
{
    let out = spec_enumerate(dir);
    if spec_eligible(dir, dir[i]) {
        lemma_enum_rec_contains(dir, dir, i);
        let k = choose|k: int| 0 <= k < out.len() && out[k] == spec_entry_of(dir[i]);
        assert(out[k].window == dir[i].handle);
    }
    if exists|k: int| 0 <= k < out.len() && out[k].window == dir[i].handle {
        let k = choose|k: int| 0 <= k < out.len() && out[k].window == dir[i].handle;
        lemma_enum_rec_sources(dir, dir, k);
        let j = choose|j: int|
            0 <= j < dir.len() && spec_eligible(dir, dir[j]) && out[k] == spec_entry_of(dir[j]);
        assert(dir[j].handle == dir[i].handle);
        assert(j == i);
    }
}

/// Every entry a cycle produces has a non-empty title and its score unset:
/// empty-titled windows never pass the filter, and scoring is the ranking
/// pass's business alone.
pub proof fn lemma_enumerate_entries_fresh(dir: Seq<RawWindowV>, k: int)
    requires
        0 <= k < spec_enumerate(dir).len(),
    ensures
        spec_enumerate(dir)[k].name.len() > 0,
        spec_enumerate(dir)[k].score is None,
{
    lemma_enum_rec_sources(dir, dir, k);
}

/// Enumerating a well-formed snapshot yields no duplicates: distinct entries
/// name distinct windows.
pub proof fn lemma_enumerate_no_duplicates(dir: Seq<RawWindowV>)
    requires
        wf_directory(dir),
    ensures
        forall|k1: int, k2: int|
            0 <= k1 < k2 < spec_enumerate(dir).len() ==> #[trigger] spec_enumerate(
                dir,
            )[k1].window != #[trigger] spec_enumerate(dir)[k2].window,
{
    lemma_enum_rec_no_dup(dir, dir);
}

proof fn lemma_enum_rec_no_dup(dir: Seq<RawWindowV>, pre: Seq<RawWindowV>)
    requires
        wf_directory(pre),
    ensures
        forall|k: int|
            0 <= k < spec_enum_rec(dir, pre).len() ==> exists|j: int|
                0 <= j < pre.len() && (#[trigger] spec_enum_rec(dir, pre)[k]).window
                    == pre[j].handle,
        forall|k1: int, k2: int|
            0 <= k1 < k2 < spec_enum_rec(dir, pre).len() ==> #[trigger] spec_enum_rec(
                dir,
                pre,
            )[k1].window != #[trigger] spec_enum_rec(dir, pre)[k2].window,
    decreases pre.len(),
{
    if pre.len() > 0 {
        let out = spec_enum_rec(dir, pre);
        let prefix = spec_enum_rec(dir, pre.drop_last());
        assert(wf_directory(pre.drop_last())) by {
            assert(forall|i: int, j: int|
                0 <= i < pre.drop_last().len() && 0 <= j < pre.drop_last().len() && i != j
                    ==> (#[trigger] pre.drop_last()[i]).handle != (
                #[trigger] pre.drop_last()[j]).handle);
        }
        lemma_enum_rec_no_dup(dir, pre.drop_last());
        assert forall|k: int| 0 <= k < out.len() implies exists|j: int|
            0 <= j < pre.len() && (#[trigger] out[k]).window == pre[j].handle by {
            if k < prefix.len() {
                let j2 = choose|j: int|
                    0 <= j < pre.drop_last().len() && prefix[k].window == pre.drop_last()[j].handle;
                assert(out[k] == prefix[k]);
                assert(pre.drop_last()[j2] == pre[j2]);
                assert(out[k].window == pre[j2].handle);
            } else {
                assert(out[k] == spec_entry_of(pre.last()));
                assert(out[k].window == pre[pre.len() - 1].handle);
            }
        }
        assert forall|k1: int, k2: int| 0 <= k1 < k2 < out.len() implies (#[trigger] out[k1]).window
            != (#[trigger] out[k2]).window by {
            if k2 < prefix.len() {
                assert(out[k1] == prefix[k1]);
                assert(out[k2] == prefix[k2]);
            } else {
                assert(out[k2] == spec_entry_of(pre.last()));
                assert(out[k1] == prefix[k1]);
                let j = choose|j: int|
                    0 <= j < pre.drop_last().len() && prefix[k1].window == pre.drop_last()[j].handle;
                assert(pre.drop_last()[j] == pre[j]);
                assert(pre[j].handle != pre[pre.len() - 1].handle);
            }
        }
    }
}

/// Agreement on everything the filter and the entry text read; the process
/// label is free to differ (the best-effort process query may fail on one
/// cycle and succeed on the next).
pub open spec fn same_window_modulo_label(a: RawWindowV, b: RawWindowV) -> bool {
    &&& a.handle == b.handle
    &&& a.visible == b.visible
    &&& a.ex_style == b.ex_style
    &&& a.title == b.title
    &&& a.root_owner == b.root_owner
    &&& a.last_active_popup == b.last_active_popup
}

proof fn lemma_find_modulo(d1: Seq<RawWindowV>, d2: Seq<RawWindowV>, h: crate::handle::WindowHandle)
    requires
        d1.len() == d2.len(),
        forall|i: int| 0 <= i < d1.len() ==> same_window_modulo_label(d1[i], d2[i]),
    ensures
        crate::directory::spec_find(d1, h) is Some <==> crate::directory::spec_find(d2, h) is Some,
        crate::directory::spec_find(d1, h) is Some ==> same_window_modulo_label(
            crate::directory::spec_find(d1, h)->Some_0,
            crate::directory::spec_find(d2, h)->Some_0,
        ),
    decreases d1.len(),
{
    if d1.len() > 0 {
        assert(same_window_modulo_label(d1[0], d2[0]));
        if d1[0].handle != h {
            assert(forall|i: int|
                0 <= i < d1.drop_first().len() ==> same_window_modulo_label(
                    #[trigger] d1.drop_first()[i],
                    d2.drop_first()[i],
                ));
            lemma_find_modulo(d1.drop_first(), d2.drop_first(), h);
        }
    }
}

proof fn lemma_walk_modulo(
    d1: Seq<RawWindowV>,
    d2: Seq<RawWindowV>,
    walker: crate::handle::WindowHandle,
    candidate: crate::handle::WindowHandle,
    fuel: nat,
)
    requires
        d1.len() == d2.len(),
        forall|i: int| 0 <= i < d1.len() ==> same_window_modulo_label(d1[i], d2[i]),
    ensures
        crate::directory::spec_walk(d1, walker, candidate, fuel) == crate::directory::spec_walk(
            d2,
            walker,
            candidate,
            fuel,
        ),
    decreases fuel,
{
    lemma_find_modulo(d1, d2, candidate);
    if walker != candidate && !crate::directory::spec_visible(d1, candidate) && fuel > 0 {
        lemma_walk_modulo(
            d1,
            d2,
            candidate,
            crate::directory::spec_popup(d1, candidate),
            (fuel - 1) as nat,
        );
    }
}

proof fn lemma_eligible_modulo(d1: Seq<RawWindowV>, d2: Seq<RawWindowV>, a: RawWindowV, b: RawWindowV)
    requires
        d1.len() == d2.len(),
        forall|i: int| 0 <= i < d1.len() ==> same_window_modulo_label(d1[i], d2[i]),
        same_window_modulo_label(a, b),
    ensures
        spec_eligible(d1, a) == spec_eligible(d2, b),
{
    lemma_walk_modulo(d1, d2, a.root_owner, a.last_active_popup, d1.len());
}

proof fn lemma_enum_rec_stable(
    d1: Seq<RawWindowV>,
    d2: Seq<RawWindowV>,
    p1: Seq<RawWindowV>,
    p2: Seq<RawWindowV>,
)
    requires
        d1.len() == d2.len(),
        forall|i: int| 0 <= i < d1.len() ==> same_window_modulo_label(d1[i], d2[i]),
        p1.len() == p2.len(),
        forall|i: int| 0 <= i < p1.len() ==> same_window_modulo_label(p1[i], p2[i]),
    ensures
        spec_enum_rec(d1, p1).len() == spec_enum_rec(d2, p2).len(),
        forall|k: int|
            0 <= k < spec_enum_rec(d1, p1).len() ==> #[trigger] spec_enum_rec(d1, p1)[k].name
                == spec_enum_rec(d2, p2)[k].name && spec_enum_rec(d1, p1)[k].window
                == spec_enum_rec(d2, p2)[k].window,
    decreases p1.len(),
{
    if p1.len() > 0 {
        assert(forall|i: int|
            0 <= i < p1.drop_last().len() ==> same_window_modulo_label(
                #[trigger] p1.drop_last()[i],
                p2.drop_last()[i],
            ));
        lemma_enum_rec_stable(d1, d2, p1.drop_last(), p2.drop_last());
        assert(same_window_modulo_label(p1.last(), p2.last()));
        lemma_eligible_modulo(d1, d2, p1.last(), p2.last());
    }
}

/// Two enumerations over snapshots that agree on everything but the process
/// labels yield entry collections of the same length with identical titles
/// and handles, in the same order.
pub proof fn lemma_enumerate_stable(d1: Seq<RawWindowV>, d2: Seq<RawWindowV>)
    requires
        d1.len() == d2.len(),
        forall|i: int| 0 <= i < d1.len() ==> same_window_modulo_label(d1[i], d2[i]),
    ensures
        spec_enumerate(d1).len() == spec_enumerate(d2).len(),
        forall|k: int|
            0 <= k < spec_enumerate(d1).len() ==> #[trigger] spec_enumerate(d1)[k].name
                == spec_enumerate(d2)[k].name && spec_enumerate(d1)[k].window == spec_enumerate(
                d2,
            )[k].window,
{
    lemma_enum_rec_stable(d1, d2, d1, d2);
}

} // verus!
