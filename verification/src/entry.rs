//! The snapshot entry that one refresh cycle produces for one user-relevant
//! OS window.
use vstd::prelude::*;

use crate::handle::WindowHandle;

verus! {

/// Ghost image of a [`Window`]: the display text as a character sequence,
/// the handle, the optional process label, and the transient score.
pub struct WindowV {
    pub name: Seq<char>,
    pub window: WindowHandle,
    pub process_label: Option<Seq<char>>,
    pub score: Option<i64>,
}

/// One user-relevant OS window, snapshotted by the refresh cycle that built
/// it. Neither the entry nor its handle outlives that cycle.
pub struct Window {
    /// The window's display text at enumeration time. The enumerator never
    /// produces an entry whose text is empty.
    pub name: String,
    /// Opaque OS handle; a capability token, never interpreted.
    pub window: WindowHandle,
    /// Base file name of the owning process's executable, when the process
    /// could be queried; `None` when the lookup failed (silently omitted).
    pub process_label: Option<String>,
    /// Transient rank, recomputed on every refresh and query change.
    /// `None` means "currently filtered out of the ranked view".
    pub score: Option<i64>,
}

impl View for Window {
    type V = WindowV;

    open spec fn view(&self) -> WindowV {
        WindowV {
            name: self.name@,
            window: self.window,
            process_label: match self.process_label {
                Some(l) => Some(l@),
                None => None,
            },
            score: self.score,
        }
    }
}

impl DeepView for Window {
    type V = WindowV;

    open spec fn deep_view(&self) -> WindowV {
        self.view()
    }
}

impl Window {
    /// A fresh entry: no process label resolved yet, score unset.
    pub fn new(name: String, window: WindowHandle) -> (w: Window)
        ensures
            w@.name == name@,
            w@.window == window,
            w@.process_label is None,
            w@.score is None,
    {
        Window { name, window, process_label: None, score: None }
    }
}

} // verus!
