//! Ownership of one native session handle.
//!
//! A `Session` wraps the raw handle returned by a successful transport open
//! call. The duty to close it exactly once rests with its owner: the resource
//! manager closes cached instrument sessions explicitly, and ownership can be
//! relinquished through `into_vi_session`, after which the receiver carries
//! the duty.

use vstd::prelude::*;

verus! {

/// A raw native session handle.
pub type ViSession = u32;

/// An owned native session handle.
#[derive(Debug, Clone, PartialEq, Eq, Hash)]
pub struct Session {
    inner: ViSession,
}

impl View for Session {
    type V = ViSession;

    closed spec fn view(&self) -> ViSession {
        self.inner
    }
}

impl Session {
    /// Takes ownership of a raw handle already returned by a successful
    /// transport open call; the caller must not use the raw handle again.
    pub fn from_vi_session(session: ViSession) -> (r: Self)
        ensures
            r@ == session,
    {
        Self { inner: session }
    }

    /// The wrapped handle, read-only, for passing into transport calls
    /// without transferring ownership.
    pub fn as_vi_session(&self) -> (r: ViSession)
        ensures
            r == self@,
    {
        self.inner
    }

    /// Relinquishes ownership: the returned raw handle is live and the duty
    /// to close it passes to the caller.
    pub fn into_vi_session(self) -> (r: ViSession)
        ensures
            r == self@,
    {
        self.inner
    }
}

/// Read-only access to the wrapped native handle.
pub trait AsViSession: View<V = ViSession> {
    fn as_vi_session(&self) -> (r: ViSession)
        ensures
            r == self@,
    ;
}

/// Construction from a raw native handle, taking ownership of it.
pub trait FromViSession: View<V = ViSession> + Sized {
    fn from_vi_session(session: ViSession) -> (r: Self)
        ensures
            r@ == session,
    ;
}

/// Relinquishing ownership of the wrapped native handle.
pub trait IntoViSession: View<V = ViSession> + Sized {
    fn into_vi_session(self) -> (r: ViSession)
        ensures
            r == self@,
    ;
}

impl AsViSession for Session {
    fn as_vi_session(&self) -> (r: ViSession)
        ensures
            r == self@,
    {
        self.inner
    }
}

impl FromViSession for Session {
    fn from_vi_session(session: ViSession) -> (r: Self)
        ensures
            r@ == session,
    {
        Self { inner: session }
    }
}

impl IntoViSession for Session {
    fn into_vi_session(self) -> (r: ViSession)
        ensures
            r == self@,
    {
        self.inner
    }
}

} // verus!
