//! A per-cycle snapshot of the raw top-level OS windows, and the eligibility
//! filter that decides which of them deserve an entry.
//!
//! The unverified shell reads each top-level window once per refresh cycle
//! (visibility, extended style bits, title text, ownership links, process
//! name) and hands the whole snapshot over as a directory. All filter
//! decisions are then taken here, against that snapshot alone.
use vstd::prelude::*;

use crate::handle::WindowHandle;

verus! {

/// The "tool window" extended style bit. A window carrying it is an
/// auxiliary floating palette, never shown by the switcher. The exclusion
/// set is expected to grow over time; new bits join `spec_ignored` and
/// `ignore_window` without changing their signatures.
pub const WS_EX_TOOLWINDOW: u32 = 0x0000_0080;

/// Ghost image of a [`RawWindow`].
pub struct RawWindowV {
    pub handle: WindowHandle,
    pub visible: bool,
    pub ex_style: u32,
    pub title: Seq<char>,
    pub process_label: Option<Seq<char>>,
    pub root_owner: WindowHandle,
    pub last_active_popup: WindowHandle,
}

/// What the OS reports about one top-level window at snapshot time.
pub struct RawWindow {
    /// The window's own handle.
    pub handle: WindowHandle,
    /// Whether the window is currently visible to the user.
    pub visible: bool,
    /// The window's extended style bits.
    pub ex_style: u32,
    /// The window's title text, as read by a bounded-length call; possibly
    /// empty, in which case no entry is produced.
    pub title: String,
    /// Base file name of the owning process's executable, if the best-effort
    /// process query succeeded.
    pub process_label: Option<String>,
    /// The root owner at the top of the window's ownership chain.
    pub root_owner: WindowHandle,
    /// The window's last active popup (the window itself when it has none).
    pub last_active_popup: WindowHandle,
}

impl View for RawWindow {
    type V = RawWindowV;

    open spec fn view(&self) -> RawWindowV {
        RawWindowV {
            handle: self.handle,
            visible: self.visible,
            ex_style: self.ex_style,
            title: self.title@,
            process_label: match self.process_label {
                Some(l) => Some(l@),
                None => None,
            },
            root_owner: self.root_owner,
            last_active_popup: self.last_active_popup,
        }
    }
}

impl DeepView for RawWindow {
    type V = RawWindowV;

    open spec fn deep_view(&self) -> RawWindowV {
        self.view()
    }
}

/// A directory is well formed when no handle names two of its windows:
/// the OS walk visits each top-level window once.
pub open spec fn wf_directory(dir: Seq<RawWindowV>) -> bool {
    forall|i: int, j: int|
        0 <= i < dir.len() && 0 <= j < dir.len() && i != j ==> dir[i].handle != dir[j].handle
}

/// The first window of the directory carrying the given handle, if any.
pub open spec fn spec_find(dir: Seq<RawWindowV>, h: WindowHandle) -> Option<RawWindowV>
    decreases dir.len(),
{
    if dir.len() == 0 {
        None
    } else if dir[0].handle == h {
        Some(dir[0])
    } else {
        spec_find(dir.drop_first(), h)
    }
}

/// Visibility of the window a handle names; a handle the snapshot does not
/// know is treated as not visible.
pub open spec fn spec_visible(dir: Seq<RawWindowV>, h: WindowHandle) -> bool {
    match spec_find(dir, h) {
        Some(w) => w.visible,
        None => false,
    }
}

/// The last active popup of the window a handle names; a handle the snapshot
/// does not know is its own fixed point.
pub open spec fn spec_popup(dir: Seq<RawWindowV>, h: WindowHandle) -> WindowHandle {
    match spec_find(dir, h) {
        Some(w) => w.last_active_popup,
        None => h,
    }
}

/// One walk along the "last active popup" chain, mirroring the alt-tab rule:
/// keep advancing while the walker and the candidate differ and the candidate
/// is invisible; stop as soon as the two meet or the candidate is visible.
/// The fuel bounds the walk by the snapshot size, so a cyclic chain (which a
/// healthy OS never reports) simply ends the walk where it stands.
pub open spec fn spec_walk(
    dir: Seq<RawWindowV>,
    walker: WindowHandle,
    candidate: WindowHandle,
    fuel: nat,
) -> WindowHandle
    decreases fuel,
{
    if walker == candidate {
        walker
    } else if spec_visible(dir, candidate) {
        walker
    } else if fuel == 0 {
        walker
    } else {
        spec_walk(dir, candidate, spec_popup(dir, candidate), (fuel - 1) as nat)
    }
}

/// A window is the representative of its ownership chain ("alt-tab style")
/// when the walk that starts from its root owner and its last active popup
/// lands back on the window itself.
pub open spec fn spec_is_alt_tab_window(dir: Seq<RawWindowV>, w: RawWindowV) -> bool {
    spec_walk(dir, w.root_owner, w.last_active_popup, dir.len()) == w.handle
}

/// Style-bit exclusion: a tool window never gets an entry.
pub open spec fn spec_ignored(w: RawWindowV) -> bool {
    w.ex_style & WS_EX_TOOLWINDOW == WS_EX_TOOLWINDOW
}

/// The whole eligibility filter: visible, representative of its ownership
/// chain, no excluded style bit, and a non-empty title.
pub open spec fn spec_eligible(dir: Seq<RawWindowV>, w: RawWindowV) -> bool {
    &&& w.visible
    &&& spec_is_alt_tab_window(dir, w)
    &&& !spec_ignored(w)
    &&& w.title.len() > 0
}

/// Skipping windows that do not carry the handle leaves the search result
/// unchanged.
proof fn lemma_find_skip(dir: Seq<RawWindowV>, h: WindowHandle, i: int)
    requires
        0 <= i <= dir.len(),
        forall|j: int| 0 <= j < i ==> dir[j].handle != h,
    ensures
        spec_find(dir, h) == spec_find(dir.skip(i), h),
    decreases i,
{
    if i > 0 {
        lemma_find_skip(dir, h, i - 1);
        assert(dir.skip(i - 1).len() > 0);
        assert(dir.skip(i - 1)[0] == dir[i - 1]);
        assert(dir.skip(i - 1).drop_first() =~= dir.skip(i));
    } else {
        assert(dir.skip(0) =~= dir);
    }
}

/// Linear scan for the first window carrying a handle.
fn find_window(dir: &Vec<RawWindow>, h: WindowHandle) -> (r: Option<usize>)
    ensures
        match r {
            Some(i) => {
                &&& i < dir@.len()
                &&& dir@[i as int]@.handle == h
                &&& spec_find(dir.deep_view(), h) == Some(dir@[i as int]@)
            },
            None => spec_find(dir.deep_view(), h) is None,
        },
{
    let ghost gdir = dir.deep_view();
    proof {
        assert(gdir.len() == dir@.len());
    }
    let mut i: usize = 0;
    while i < dir.len()
        invariant
            gdir == dir.deep_view(),
            gdir.len() == dir@.len(),
            i <= dir@.len(),
            forall|j: int| 0 <= j < i ==> gdir[j].handle != h,
        decreases dir@.len() - i,
    {
        proof {
            assert(gdir[i as int] == dir@[i as int]@);
        }
        if dir[i].handle == h {
            proof {
                lemma_find_skip(gdir, h, i as int);
                assert(gdir.skip(i as int)[0] == gdir[i as int]);
            }
            return Some(i);
        }
        i = i + 1;
    }
    proof {
        lemma_find_skip(gdir, h, dir@.len() as int);
        assert(gdir.skip(gdir.len() as int) =~= Seq::<RawWindowV>::empty());
    }
    None
}

/// Visibility lookup against the snapshot.
fn handle_visible(dir: &Vec<RawWindow>, h: WindowHandle) -> (r: bool)
    ensures
        r == spec_visible(dir.deep_view(), h),
{
    match find_window(dir, h) {
        Some(i) => dir[i].visible,
        None => false,
    }
}

/// "Last active popup" lookup against the snapshot.
fn handle_popup(dir: &Vec<RawWindow>, h: WindowHandle) -> (r: WindowHandle)
    ensures
        r == spec_popup(dir.deep_view(), h),
{
    match find_window(dir, h) {
        Some(i) => dir[i].last_active_popup,
        None => h,
    }
}

/// Decides whether a window is the representative of its ownership chain:
/// walk from its root owner through "last active popup" until the walk no
/// longer advances or the candidate turns visible, and check that the walk
/// landed back on the window itself.
pub fn is_alt_tab_window(dir: &Vec<RawWindow>, w: &RawWindow) -> (r: bool)
    ensures
        r == spec_is_alt_tab_window(dir.deep_view(), w@),
{
    let ghost gdir = dir.deep_view();
    let mut walker = w.root_owner;
    let mut candidate = w.last_active_popup;
    let mut fuel = dir.len();
    loop
        invariant
            gdir == dir.deep_view(),
            spec_walk(gdir, walker, candidate, fuel as nat) == spec_walk(
                gdir,
                w.root_owner,
                w.last_active_popup,
                gdir.len(),
            ),
        ensures
            walker == spec_walk(gdir, w.root_owner, w.last_active_popup, gdir.len()),
        decreases fuel,
    {
        if walker == candidate {
            break ;
        }
        if handle_visible(dir, candidate) {
            break ;
        }
        if fuel == 0 {
            break ;
        }
        let next = handle_popup(dir, candidate);
        walker = candidate;
        candidate = next;
        fuel = fuel - 1;
    }
    walker == w.handle
}

/// Style-bit exclusion, as the filter applies it.
pub fn ignore_window(w: &RawWindow) -> (r: bool)
    ensures
        r == spec_ignored(w@),
{
    w.ex_style & WS_EX_TOOLWINDOW == WS_EX_TOOLWINDOW
}

/// The full eligibility filter over one window of the snapshot.
pub fn is_eligible(dir: &Vec<RawWindow>, w: &RawWindow) -> (r: bool)
    ensures
        r == spec_eligible(dir.deep_view(), w@),
{
    w.visible && is_alt_tab_window(dir, w) && !ignore_window(w) && !w.title.as_str().is_empty()
}

} // verus!
