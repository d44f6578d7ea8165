//! One-shot readiness signaling for the inspection surface.
//!
//! A window that will display an archive listing is created before it can
//! receive events. Until the surface reports readiness, forwarded paths and
//! error messages are buffered; from the readiness transition on, they are
//! emitted directly. This module holds only the decisions: every method
//! returns the events to emit, and the unverified surface performs the
//! emission.

use vstd::prelude::*;

verus! {

/// One event for the inspection surface.
#[derive(Debug, Clone, PartialEq, Eq)]
pub enum UiEvent {
    /// Forwarded paths for an already-ready surface.
    Inspect(Vec<String>),
    /// The buffered paths, delivered on the readiness transition.
    InExtract(Vec<String>),
    /// An error message for the surface to display or log.
    Error(String),
}

/// Mathematical model of a surface event.
#[verifier::ext_equal]
pub enum SpecUiEvent {
    Inspect(Seq<Seq<char>>),
    InExtract(Seq<Seq<char>>),
    Error(Seq<char>),
}

/// Models of a string list.
pub open spec fn strings_view(v: Seq<String>) -> Seq<Seq<char>> {
    v.map_values(|s: String| s@)
}

impl View for UiEvent {
    type V = SpecUiEvent;

    open spec fn view(&self) -> SpecUiEvent {
        match self {
            UiEvent::Inspect(v) => SpecUiEvent::Inspect(strings_view(v@)),
            UiEvent::InExtract(v) => SpecUiEvent::InExtract(strings_view(v@)),
            UiEvent::Error(m) => SpecUiEvent::Error(m@),
        }
    }
}

/// The buffering state of one inspection surface.
pub struct InspectState {
    /// The surface's window label.
    pub label: String,
    /// Whether the surface has reported readiness.
    pub ready: bool,
    /// Paths buffered while the surface was not ready.
    pub path: Vec<String>,
    /// Error messages buffered while the surface was not ready.
    pub errors: Vec<String>,
}

impl InspectState {
    /// A fresh, not-yet-ready state for a surface with this label.
    pub fn new(label: String) -> (s: InspectState)
        ensures
            s.label == label,
            !s.ready,
            s.path@.len() == 0,
            s.errors@.len() == 0,
    {
        InspectState { label, ready: false, path: Vec::new(), errors: Vec::new() }
    }

    /// Forwards paths: emitted at once when the surface is ready, buffered
    /// (replacing any earlier buffer) otherwise.
    pub fn send(&mut self, paths: Vec<String>) -> (r: Option<UiEvent>)
        ensures
            old(self).ready ==> r == Some(UiEvent::Inspect(paths)) && *final(self) == *old(self),
            !old(self).ready ==> r is None && final(self).path == paths && final(self).ready
                == old(self).ready && final(self).label == old(self).label && final(self).errors
                == old(self).errors,
    {
        if self.ready {
            Some(UiEvent::Inspect(paths))
        } else {
            self.path = paths;
            None
        }
    }

    /// The readiness transition: marks the surface ready and, when paths
    /// were buffered, delivers them followed by every buffered error, which
    /// drains the error buffer. The path buffer itself is kept.
    pub fn ready(&mut self) -> (evs: Vec<UiEvent>)
        ensures
            final(self).ready,
            final(self).label == old(self).label,
            final(self).path == old(self).path,
            old(self).path@.len() == 0 ==> evs@.len() == 0 && final(self).errors == old(
                self,
            ).errors,
            old(self).path@.len() > 0 ==> {
                &&& final(self).errors@.len() == 0
                &&& evs@.len() == 1 + old(self).errors@.len()
                &&& evs@[0]@ == SpecUiEvent::InExtract(strings_view(old(self).path@))
                &&& forall|i: int|
                    0 <= i < old(self).errors@.len() ==> (#[trigger] evs@[1 + i])@
                        == SpecUiEvent::Error(old(self).errors@[i]@)
            },
    {
        self.ready = true;
        let mut evs: Vec<UiEvent> = Vec::new();
        if self.path.len() > 0 {
            let mut copy: Vec<String> = Vec::new();
            let n = self.path.len();
            let mut i: usize = 0;
            while i < n
                invariant
                    0 <= i <= n,
                    n == self.path@.len(),
                    copy@.len() == i,
                    forall|t: int| 0 <= t < i ==> (#[trigger] copy@[t])@ == self.path@[t]@,
                decreases n - i,
            {
                copy.push(self.path[i].clone());
                i += 1;
            }
            proof {
                assert(strings_view(copy@) =~= strings_view(self.path@));
            }
            evs.push(UiEvent::InExtract(copy));
            let ghost orig = self.errors@;
            let n_err = self.errors.len();
            let mut consumed: usize = 0;
            while self.errors.len() > 0
                invariant
                    self.ready,
                    self.label == old(self).label,
                    self.path == old(self).path,
                    orig.len() == n_err,
                    consumed + self.errors@.len() == orig.len(),
                    self.errors@ == orig.subrange(consumed as int, orig.len() as int),
                    evs@.len() == 1 + consumed,
                    evs@[0]@ == SpecUiEvent::InExtract(strings_view(old(self).path@)),
                    forall|t: int|
                        0 <= t < consumed ==> (#[trigger] evs@[1 + t])@ == SpecUiEvent::Error(
                            orig[t]@,
                        ),
                decreases self.errors@.len(),
            {
                let e = self.errors.remove(0);
                proof {
                    assert(orig.subrange(consumed as int, orig.len() as int)[0] == orig[
                    consumed as int]);
                    assert(self.errors@ =~= orig.subrange(consumed + 1, orig.len() as int));
                }
                evs.push(UiEvent::Error(e));
                consumed += 1;
            }
        }
        evs
    }

    /// Reports an error message: emitted at once when the surface is
    /// ready, buffered otherwise.
    pub fn error_string(&mut self, error: String) -> (r: Option<UiEvent>)
        ensures
            old(self).ready ==> r == Some(UiEvent::Error(error)) && *final(self) == *old(self),
            !old(self).ready ==> r is None && final(self).errors@ == old(self).errors@.push(error)
                && final(self).ready == old(self).ready && final(self).label == old(self).label
                && final(self).path == old(self).path,
    {
        if self.ready {
            Some(UiEvent::Error(error))
        } else {
            self.errors.push(error);
            None
        }
    }
}

} // verus!
