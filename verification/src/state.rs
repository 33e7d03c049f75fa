//! Process-wide shared application state: a reference-counted,
//! mutually-exclusive-access cell, plus the per-dispatch handle through
//! which handlers reach it.

use vstd::prelude::*;
use vstd::rwlock::{RwLock, WriteHandle};

use std::sync::Arc;

verus! {

/// The one piece of truly shared mutable data: a value owned by the
/// application, reachable from every handler through clones of this handle
/// and mutated only under the exclusive lock.
#[verifier::reject_recursive_types(S)]
pub struct SharedState<S> {
    cell: Arc<RwLock<S, spec_fn(S) -> bool>>,
}

/// Exclusive access to the shared value, held between [`SharedState::lock`]
/// and [`SharedGuard::unlock`]; release it as soon as possible so unrelated
/// concurrent dispatches are not serialized.
#[verifier::reject_recursive_types(S)]
pub struct SharedGuard<'a, S> {
    handle: WriteHandle<'a, S, spec_fn(S) -> bool>,
}

impl<S> SharedState<S> {
    /// The cell accepts every replacement value.
    pub closed spec fn wf(&self) -> bool {
        forall|v: S| #[trigger] ((*self.cell).pred())(v)
    }

    /// Construct a cell holding an initial value.
    pub fn new(val: S) -> (r: Self)
        ensures
            r.wf(),
    {
        let lock = RwLock::<S, spec_fn(S) -> bool>::new(val, Ghost(|v: S| true));
        SharedState { cell: Arc::new(lock) }
    }

    /// Another handle to the same cell.
    ///
    /// Relies on `Arc::clone`: the clone refers to the same allocation.
    #[verifier::external_body]
    pub fn handle(&self) -> (r: Self)
        ensures
            r == *self,
    {
        SharedState { cell: Arc::clone(&self.cell) }
    }

    /// Acquire the exclusive lock, taking the stored value; the guard must
    /// be given back, with a replacement value, through
    /// [`SharedGuard::unlock`].
    pub fn lock<'a>(&'a self) -> (r: (S, SharedGuard<'a, S>))
        requires
            self.wf(),
        ensures
            r.1.wf(),
    {
        let (val, wh) = self.cell.acquire_write();
        (val, SharedGuard { handle: wh })
    }
}

impl<'a, S> SharedGuard<'a, S> {
    /// The guarded cell accepts every replacement value.
    pub closed spec fn wf(&self) -> bool {
        forall|v: S| #[trigger] (self.handle.rwlock().pred())(v)
    }

    /// Store a value in the cell and release the exclusive lock.
    pub fn unlock(self, val: S)
        requires
            self.wf(),
    {
        self.handle.release_write(val);
    }
}

/// What a handler receives of the application shell: the optional shared
/// state handle. Callers must acquire the lock before reading or mutating
/// the shared value.
#[verifier::reject_recursive_types(S)]
pub struct AppHandle<S> {
    pub global_state: Option<SharedState<S>>,
}

impl<S> AppHandle<S> {
    /// Every shared-state handle reachable through this handle is usable.
    pub open spec fn wf(&self) -> bool {
        match self.global_state {
            None => true,
            Some(s) => s.wf(),
        }
    }

    /// A handle with no shared state.
    pub fn none() -> (r: Self)
        ensures
            r.global_state is None,
            r.wf(),
    {
        AppHandle { global_state: None }
    }

    /// The shared state of the application, if any was configured; the
    /// returned handle must be locked before use.
    pub fn state(&self) -> (r: Option<SharedState<S>>)
        ensures
            match r {
                None => self.global_state is None,
                Some(s) => self.global_state matches Some(o) && s == o,
            },
    {
        match &self.global_state {
            None => None,
            Some(s) => Some(s.handle()),
        }
    }

    /// A copy of the handle, reaching the same shared state.
    pub fn dup(&self) -> (r: Self)
        ensures
            r == *self,
    {
        match &self.global_state {
            None => AppHandle { global_state: None },
            Some(s) => AppHandle { global_state: Some(s.handle()) },
        }
    }
}

} // verus!
