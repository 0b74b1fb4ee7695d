//! One instrument: a session handle plus the identification snapshot captured
//! when it was opened, with the line-oriented write/read/query protocol and
//! the locking operations.
//!
//! Writes send the exact byte sequence, retrying short transport writes until
//! the whole buffer is accepted. Reads accumulate bytes up to and including a
//! line terminator; a read that times out first does not invent a line, and
//! `read_raw` hands the partial bytes back to the caller.

use vstd::prelude::*;
use vstd::slice::slice_subrange;
use vstd::utf8::{decode_utf8, valid_utf8};
use crate::error::{Error, IoErrorKind, Status, VisaError};
use crate::mode::{AccessMode, FlushMode};
use crate::scpi::Identification;
use crate::session::{Session, ViSession};
use crate::text::{bytes_to_string, spec_first_line};
use crate::transport::{
    flush_post, lemma_read_amount, lemma_write_effect_concat, lemma_write_effect_frame, lock_post,
    read_amount, unlock_post, SessionModel, Transport, TransportModel,
};

verus! {

/// A handle onto one open instrument: the native session and the
/// identification captured from it.
#[derive(Debug)]
pub struct Instrument {
    inner: Session,
    pub identification: Identification,
}

/// The mathematical value of an instrument handle.
pub ghost struct InstrumentView {
    pub handle: ViSession,
    pub identification: crate::scpi::IdentificationView,
}

impl View for Instrument {
    type V = InstrumentView;

    closed spec fn view(&self) -> InstrumentView {
        InstrumentView { handle: self.inner@, identification: self.identification@ }
    }
}

/// What a complete verified write does to the transport: nothing on an empty
/// buffer; a dead handle or a lock held against the session is an error that
/// changes nothing; otherwise every byte is accepted.
pub open spec fn io_write_post(
    m0: TransportModel,
    h: ViSession,
    data: Seq<u8>,
    r: Result<(), Error>,
    m1: TransportModel,
) -> bool {
    if data.len() == 0 {
        r == Ok::<(), Error>(()) && m1 == m0
    } else if !m0.sessions.dom().contains(h) {
        r == Err::<(), Error>(Error::Visa(VisaError::InvalidObject)) && m1 == m0
    } else if !m0.io_permitted(h) {
        r == Err::<(), Error>(Error::Visa(VisaError::ResourceLocked)) && m1 == m0
    } else {
        r == Ok::<(), Error>(()) && m1 == m0.write_effect(h, data)
    }
}

/// What a complete verified read does to the transport and to the caller's
/// buffer: the first pending line, terminator included, lands in the buffer;
/// with no terminator pending, everything received lands there and the read
/// times out — received bytes are never discarded.
pub open spec fn io_read_post(
    m0: TransportModel,
    h: ViSession,
    r: Result<(), Error>,
    m1: TransportModel,
    b0: Seq<u8>,
    b1: Seq<u8>,
) -> bool {
    if !m0.sessions.dom().contains(h) {
        r == Err::<(), Error>(Error::Visa(VisaError::InvalidObject)) && m1 == m0 && b1 == b0
    } else if !m0.io_permitted(h) {
        r == Err::<(), Error>(Error::Visa(VisaError::ResourceLocked)) && m1 == m0 && b1 == b0
    } else {
        let rx = m0.sessions[h].rx;
        match spec_first_line(rx) {
            Some(line) => r == Ok::<(), Error>(()) && b1 == b0 + line && m1 == m0.read_effect(h),
            None => r == Err::<(), Error>(Error::Visa(VisaError::Timeout)) && b1 == b0 + rx && m1
                == m0.read_effect(h),
        }
    }
}

/// What a complete verified read does when the line is wanted as text: a
/// line that is not valid UTF-8 is an invalid-data error; the bytes are
/// consumed either way.
pub open spec fn read_str_post(
    m0: TransportModel,
    h: ViSession,
    r: Result<String, Error>,
    m1: TransportModel,
) -> bool {
    if !m0.sessions.dom().contains(h) {
        r == Err::<String, Error>(Error::Visa(VisaError::InvalidObject)) && m1 == m0
    } else if !m0.io_permitted(h) {
        r == Err::<String, Error>(Error::Visa(VisaError::ResourceLocked)) && m1 == m0
    } else {
        let rx = m0.sessions[h].rx;
        match spec_first_line(rx) {
            Some(line) => m1 == m0.read_effect(h) && if valid_utf8(line) {
                match r {
                    Ok(s) => s@ == decode_utf8(line),
                    Err(_) => false,
                }
            } else {
                r == Err::<String, Error>(Error::Io(IoErrorKind::InvalidData))
            },
            None => r == Err::<String, Error>(Error::Visa(VisaError::Timeout)) && m1
                == m0.read_effect(h),
        }
    }
}

/// What a query does: exactly a write followed by a read, with no
/// interleaving in between.
pub open spec fn query_post(
    m0: TransportModel,
    h: ViSession,
    data: Seq<u8>,
    r: Result<String, Error>,
    m1: TransportModel,
) -> bool {
    if data.len() > 0 && !m0.sessions.dom().contains(h) {
        r == Err::<String, Error>(Error::Visa(VisaError::InvalidObject)) && m1 == m0
    } else if data.len() > 0 && !m0.io_permitted(h) {
        r == Err::<String, Error>(Error::Visa(VisaError::ResourceLocked)) && m1 == m0
    } else {
        read_str_post(
            if data.len() == 0 {
                m0
            } else {
                m0.write_effect(h, data)
            },
            h,
            r,
            m1,
        )
    }
}

impl Instrument {
    /// The native handle of this instrument's session, read-only.
    pub fn as_vi_session(&self) -> (r: ViSession)
        ensures
            r == self@.handle,
    {
        self.inner.as_vi_session()
    }

    /// Builds an instrument directly from its parts. The session must be the
    /// live handle the identification was captured from.
    pub(crate) fn from_parts(inner: Session, identification: Identification) -> (r: Instrument)
        ensures
            r@.handle == inner@,
            r@.identification == identification@,
    {
        Instrument { inner, identification }
    }

    /// Replaces the cached identification snapshot.
    pub(crate) fn set_identification(&mut self, identification: Identification)
        ensures
            final(self)@.handle == old(self)@.handle,
            final(self)@.identification == identification@,
    {
        self.identification = identification;
    }

    /// Another handle onto the same native session, for handing a cached
    /// instrument to one more caller. Both values name one session; the duty
    /// to close it stays where it was.
    pub fn share(&self) -> (r: Instrument)
        ensures
            r@ == self@,
    {
        Instrument {
            inner: Session::from_vi_session(self.inner.as_vi_session()),
            identification: self.identification.duplicate(),
        }
    }

    /// Sends the exact byte sequence `buf`, retrying short transport writes
    /// until every byte has been accepted. The caller appends the line
    /// terminator itself.
    pub fn write<T: Transport>(&mut self, t: &mut T, buf: &[u8]) -> (r: Result<(), Error>)
        requires
            buf@.len() <= 4294967295,
        ensures
            io_write_post(old(t).model(), old(self)@.handle, buf@, r, final(t).model()),
            *final(self) == *old(self),
    {
        let h = self.inner.as_vi_session();
        if buf.len() == 0 {
            return Ok(());
        }
        let ghost m0 = t.model();
        let mut offset: usize;
        match t.write_chunk(h, buf) {
            Ok(n) => {
                offset = n as usize;
                proof {
                    assert(m0.sessions.dom().contains(h) && m0.io_permitted(h));
                }
            },
            Err(e) => {
                return Err(Error::Visa(e));
            },
        }
        while offset < buf.len()
            invariant
                buf@.len() <= 4294967295,
                0 < offset <= buf@.len(),
                m0.sessions.dom().contains(h),
                m0.io_permitted(h),
                t.model() == m0.write_effect(h, buf@.take(offset as int)),
            decreases buf@.len() - offset,
        {
            proof {
                lemma_write_effect_frame(m0, h, buf@.take(offset as int));
            }
            let chunk = slice_subrange(buf, offset, buf.len());
            let ghost m_before = t.model();
            match t.write_chunk(h, chunk) {
                Ok(n) => {
                    proof {
                        lemma_write_effect_concat(
                            m0,
                            h,
                            buf@.take(offset as int),
                            chunk@.take(n as int),
                        );
                        assert(buf@.take(offset as int) + chunk@.take(n as int) =~= buf@.take(
                            offset + n as int,
                        ));
                    }
                    offset = offset + n as usize;
                },
                Err(e) => {
                    proof {
                        assert(false);
                    }
                    return Err(Error::Visa(e));
                },
            }
        }
        proof {
            assert(buf@.take(buf@.len() as int) =~= buf@);
        }
        Ok(())
    }

    /// Receives bytes up to and including the next line terminator, appending
    /// them to `buf`. On a timeout the bytes received so far are still in
    /// `buf`, so the caller can inspect the partial line.
    #[verifier::loop_isolation(false)]
    pub fn read_raw<T: Transport>(&self, t: &mut T, buf: &mut Vec<u8>) -> (r: Result<(), Error>)
        ensures
            io_read_post(old(t).model(), self@.handle, r, final(t).model(), old(buf)@, final(buf)@),
    {
        let h = self.inner.as_vi_session();
        let ghost m0 = t.model();
        let ghost b0 = buf@;
        let ghost rx0 = m0.sessions[h].rx;
        let ghost mut consumed: int = 0;
        loop
            invariant
                consumed == 0 ==> t.model() == m0 && buf@ == b0,
                consumed > 0 ==> {
                    &&& m0.sessions.dom().contains(h)
                    &&& m0.io_permitted(h)
                    &&& consumed <= rx0.len()
                    &&& buf@ == b0 + rx0.take(consumed)
                    &&& (forall|j: int| 0 <= j < consumed ==> rx0[j] != 10u8)
                    &&& t.model() == m0.with_session(
                        h,
                        (SessionModel { rx: rx0.skip(consumed), ..m0.sessions[h] }),
                    )
                },
                0 <= consumed,
            decreases rx0.len() - consumed,
        {
            let ghost m_cur = t.model();
            proof {
                if consumed > 0 {
                    assert(m_cur.sessions.dom().contains(h));
                    assert(m_cur.sessions[h].resource == m0.sessions[h].resource);
                    assert(m_cur.io_permitted(h) == m0.io_permitted(h));
                }
            }
            let ghost rx_cur = m_cur.sessions[h].rx;
            match t.read_chunk(h, 256) {
                Ok(mut chunk) => {
                    proof {
                        lemma_read_amount(rx_cur, 256);
                        if consumed > 0 {
                            assert(rx_cur =~= rx0.skip(consumed));
                        }
                    }
                    let ghost amount = read_amount(rx_cur, 256);
                    let last = chunk[chunk.len() - 1];
                    buf.append(&mut chunk);
                    proof {
                        assert(rx0.take(consumed) + rx_cur.take(amount as int) =~= rx0.take(
                            consumed + amount,
                        ));
                        assert(buf@ =~= b0 + rx0.take(consumed + amount));
                        assert(forall|j: int|
                            consumed <= j < consumed + amount ==> rx0[j] == rx_cur[j - consumed]);
                        let st_new = t.model().sessions[h];
                        assert(st_new.rx =~= rx0.skip(consumed + amount));
                        assert(t.model() =~= m0.with_session(
                            h,
                            (SessionModel { rx: rx0.skip(consumed + amount), ..m0.sessions[h] }),
                        ));
                        consumed = consumed + amount;
                    }
                    if last == 10u8 {
                        proof {
                            crate::text::lemma_first_index_of_witness(rx0, 10u8, consumed - 1);
                            assert(spec_first_line(rx0) == Some(rx0.take(consumed)));
                            assert(m0.read_effect(h) =~= m0.with_session(
                                h,
                                (SessionModel { rx: rx0.skip(consumed), ..m0.sessions[h] }),
                            ));
                        }
                        return Ok(());
                    }
                },
                Err(e) => {
                    proof {
                        if consumed > 0 {
                            assert(e == VisaError::Timeout);
                            assert(rx_cur =~= rx0.skip(consumed));
                            assert(rx_cur.len() == 0);
                            assert(consumed == rx0.len());
                            assert(rx0.take(consumed) =~= rx0);
                            crate::text::lemma_first_index_of_absent(rx0, 10u8);
                            assert(spec_first_line(rx0) is None);
                            assert(m0.read_effect(h) =~= m0.with_session(
                                h,
                                (SessionModel { rx: seq![], ..m0.sessions[h] }),
                            ));
                            assert(t.model() =~~= m0.read_effect(h));
                        } else {
                            if m0.sessions.dom().contains(h) && m0.io_permitted(h) && rx0.len()
                                == 0 {
                                assert(rx0.take(0) =~= Seq::<u8>::empty());
                                assert(b0 + rx0 =~= b0);
                                crate::text::lemma_first_index_of_absent(rx0, 10u8);
                                assert(m0.read_effect(h).sessions[h] =~= m0.sessions[h]);
                                assert(m0.read_effect(h).sessions =~= m0.sessions);
                                assert(m0.read_effect(h) =~= m0);
                            }
                        }
                    }
                    return Err(Error::Visa(e));
                },
            }
        }
    }

    /// Receives one line as text: everything up to and including the next
    /// line terminator. A timeout before the terminator, or a line that is
    /// not valid UTF-8, is an error.
    pub fn read<T: Transport>(&self, t: &mut T) -> (r: Result<String, Error>)
        ensures
            read_str_post(old(t).model(), self@.handle, r, final(t).model()),
    {
        let mut buf: Vec<u8> = Vec::new();
        match self.read_raw(t, &mut buf) {
            Ok(()) => {
                match bytes_to_string(buf) {
                    Some(s) => Ok(s),
                    None => Err(Error::Io(IoErrorKind::InvalidData)),
                }
            },
            Err(e) => Err(e),
        }
    }

    /// Writes the command `buf` and immediately reads the one-line response,
    /// with no interleaving in between.
    pub fn query<T: Transport>(&mut self, t: &mut T, buf: &[u8]) -> (r: Result<String, Error>)
        requires
            buf@.len() <= 4294967295,
        ensures
            query_post(old(t).model(), old(self)@.handle, buf@, r, final(t).model()),
            *final(self) == *old(self),
    {
        let ghost m0 = t.model();
        let h = self.inner.as_vi_session();
        match self.write(t, buf) {
            Ok(()) => {
                proof {
                    if buf@.len() > 0 {
                        lemma_write_effect_frame(m0, h, buf@);
                    }
                }
                self.read(t)
            },
            Err(e) => Err(e),
        }
    }

    /// Forces out or discards buffered data per the buffer-selection mask,
    /// used to resynchronise a session after a protocol violation.
    pub fn flush<T: Transport>(&self, t: &mut T, mode: FlushMode) -> (r: Result<(), IoErrorKind>)
        ensures
            match r {
                Ok(()) => flush_post(
                    old(t).model(),
                    self@.handle,
                    mode,
                    Ok(Status::OperationCompleted),
                    final(t).model(),
                ),
                Err(k) => final(t).model() == old(t).model() && (k == IoErrorKind::AddrNotAvailable
                    && !old(t).model().sessions.dom().contains(self@.handle) || k
                    == IoErrorKind::InvalidInput && !crate::mode::spec_flush_mask_valid(mode)),
            },
    {
        let h = self.inner.as_vi_session();
        match t.flush(h, mode) {
            Ok(_) => Ok(()),
            Err(e) => Err(e.to_io_error()),
        }
    }

    /// A human-readable description of a typed error, as the transport
    /// renders it.
    pub fn status_description<T: Transport>(&self, t: &T, error: VisaError) -> (r: Result<
        String,
        Error,
    >)
        ensures
            t.model().is_live(self@.handle) ==> r is Ok,
            !t.model().is_live(self@.handle) ==> r == Err::<String, Error>(
                Error::Visa(VisaError::InvalidObject),
            ),
    {
        match t.status_description(self.inner.as_vi_session(), error.code()) {
            Ok(text) => Ok(text),
            Err(e) => Err(Error::Visa(e)),
        }
    }

    /// Requests a lock per `mode`: an exclusive lock returns no key; a shared
    /// lock returns the access key under which other sessions may join,
    /// either the caller's own or one the transport generated. A key with an
    /// interior NUL byte is rejected before anything is sent.
    pub fn lock<T: Transport>(
        &self,
        t: &mut T,
        mode: AccessMode,
        timeout_ms: u32,
        key: Option<&str>,
    ) -> (r: Result<Option<String>, Error>)
        ensures
            match r {
                Ok(k) => lock_post(
                    old(t).model(),
                    self@.handle,
                    mode,
                    (match key {
                        Some(s) => Some(s@),
                        None => None,
                    }),
                    Ok(k),
                    final(t).model(),
                ) && (match key {
                    Some(s) => !s@.contains('\u{0}'),
                    None => true,
                }),
                Err(Error::InvalidString) => final(t).model() == old(t).model() && (match key {
                    Some(s) => s@.contains('\u{0}'),
                    None => false,
                }),
                Err(Error::Visa(e)) => lock_post(
                    old(t).model(),
                    self@.handle,
                    mode,
                    (match key {
                        Some(s) => Some(s@),
                        None => None,
                    }),
                    Err(e),
                    final(t).model(),
                ) && (match key {
                    Some(s) => !s@.contains('\u{0}'),
                    None => true,
                }),
                Err(_) => false,
            },
    {
        match key {
            Some(k) => {
                match crate::text::find_char(k, '\u{0}') {
                    Some(i) => {
                        proof {
                            crate::text::lemma_first_index_of(k@, '\u{0}');
                        }
                        return Err(Error::InvalidString);
                    },
                    None => {
                        proof {
                            crate::text::lemma_first_index_of(k@, '\u{0}');
                        }
                    },
                }
            },
            None => {},
        }
        match t.lock(self.inner.as_vi_session(), mode, timeout_ms, key) {
            Ok(k) => Ok(k),
            Err(e) => Err(Error::Visa(e)),
        }
    }

    /// Takes the exclusive lock on this instrument's resource, blocking up to
    /// the timeout.
    pub fn lock_exclusive<T: Transport>(&self, t: &mut T, timeout_ms: u32) -> (r: Result<
        (),
        Error,
    >)
        ensures
            match r {
                Ok(()) => lock_post(
                    old(t).model(),
                    self@.handle,
                    (AccessMode { bits: crate::mode::VI_EXCLUSIVE_LOCK }),
                    None,
                    Ok(None),
                    final(t).model(),
                ),
                Err(Error::Visa(e)) => lock_post(
                    old(t).model(),
                    self@.handle,
                    (AccessMode { bits: crate::mode::VI_EXCLUSIVE_LOCK }),
                    None,
                    Err(e),
                    final(t).model(),
                ),
                Err(_) => false,
            },
    {
        proof {
            assert(1u32 & 2 == 0 && 1u32 & 1 == 1) by (bit_vector);
        }
        match t.lock(self.inner.as_vi_session(), AccessMode::exclusive_lock(), timeout_ms, None) {
            Ok(_) => Ok(()),
            Err(e) => Err(Error::Visa(e)),
        }
    }

    /// Takes a shared lock under a transport-generated access key and
    /// returns the key for distribution to cooperating sessions.
    pub fn lock_shared<T: Transport>(&self, t: &mut T, timeout_ms: u32) -> (r: Result<
        String,
        Error,
    >)
        ensures
            match r {
                Ok(k) => lock_post(
                    old(t).model(),
                    self@.handle,
                    (AccessMode { bits: crate::mode::VI_SHARED_LOCK }),
                    None,
                    Ok(Some(k)),
                    final(t).model(),
                ),
                Err(Error::Visa(e)) => lock_post(
                    old(t).model(),
                    self@.handle,
                    (AccessMode { bits: crate::mode::VI_SHARED_LOCK }),
                    None,
                    Err(e),
                    final(t).model(),
                ),
                Err(_) => false,
            },
    {
        proof {
            assert(2u32 & 2 == 2) by (bit_vector);
        }
        match t.lock(self.inner.as_vi_session(), AccessMode::shared_lock(), timeout_ms, None) {
            Ok(Some(k)) => Ok(k),
            Ok(None) => {
                proof {
                    assert(false);
                }
                Err(Error::InvalidString)
            },
            Err(e) => Err(Error::Visa(e)),
        }
    }

    /// Presents `key` to join an existing shared lock group, returning the
    /// group's key. A key with an interior NUL byte is rejected before
    /// anything is sent.
    pub fn lock_shared_with_key<T: Transport>(&self, t: &mut T, timeout_ms: u32, key: &str) -> (r:
        Result<String, Error>)
        ensures
            match r {
                Ok(k) => lock_post(
                    old(t).model(),
                    self@.handle,
                    (AccessMode { bits: crate::mode::VI_SHARED_LOCK }),
                    Some(key@),
                    Ok(Some(k)),
                    final(t).model(),
                ) && !key@.contains('\u{0}'),
                Err(Error::InvalidString) => final(t).model() == old(t).model() && key@.contains('\u{0}'),
                Err(Error::Visa(e)) => lock_post(
                    old(t).model(),
                    self@.handle,
                    (AccessMode { bits: crate::mode::VI_SHARED_LOCK }),
                    Some(key@),
                    Err(e),
                    final(t).model(),
                ) && !key@.contains('\u{0}'),
                Err(_) => false,
            },
    {
        proof {
            assert(2u32 & 2 == 2) by (bit_vector);
        }
        match self.lock(t, AccessMode::shared_lock(), timeout_ms, Some(key)) {
            Ok(Some(k)) => Ok(k),
            Ok(None) => {
                proof {
                    assert(false);
                }
                Err(Error::InvalidString)
            },
            Err(e) => Err(e),
        }
    }

    /// Releases whatever lock this session holds; a session holding none is
    /// told so.
    pub fn unlock<T: Transport>(&self, t: &mut T) -> (r: Result<(), Error>)
        ensures
            match r {
                Ok(()) => unlock_post(
                    old(t).model(),
                    self@.handle,
                    Ok(Status::OperationCompleted),
                    final(t).model(),
                ),
                Err(Error::Visa(e)) => unlock_post(
                    old(t).model(),
                    self@.handle,
                    Err(e),
                    final(t).model(),
                ),
                Err(_) => false,
            },
    {
        match t.unlock(self.inner.as_vi_session()) {
            Ok(_) => Ok(()),
            Err(e) => Err(Error::Visa(e)),
        }
    }
}

} // verus!
