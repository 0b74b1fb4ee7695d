//! The capability interface to the underlying transport, and the
//! mathematical model every implementation is held to.
//!
//! The transport hands out native handles for the default-manager context,
//! for instrument sessions and for discovery find-lists; it carries bytes to
//! and from the instrument behind each session; and it arbitrates the
//! per-resource lock. `TransportModel` is the abstract state of all of that,
//! and each trait method carries a postcondition predicate over the model, so
//! that the session, instrument and resource-manager layers are verified
//! against the transport's behaviour rather than around it.
//!
//! The model is deterministic where the real world is well-behaved: an
//! instrument answers an identification query with its identification line,
//! answers any other query with an acknowledgement, and stays silent
//! otherwise, provided it is currently responding.

use vstd::prelude::*;
use crate::error::{Status, VisaError};
use crate::expr::{expr_matches, expr_valid};
use crate::mode::{
    spec_discards_read, spec_flush_mask_valid, spec_has_exclusive_lock, spec_has_shared_lock,
    AccessMode, FlushMode,
};
use crate::session::ViSession;
use crate::text::{first_index_of, lemma_first_index_of, spec_first_line};

verus! {

/// The lock state of one resource: free, held exclusively by one session, or
/// held shared by a set of sessions that presented one access key.
#[verifier::ext_equal]
pub ghost enum LockModel {
    Unlocked,
    Exclusive(ViSession),
    Shared(Seq<char>, Set<ViSession>),
}

/// The state of one open instrument session.
#[verifier::ext_equal]
pub ghost struct SessionModel {
    /// The default-manager handle the session was opened under.
    pub parent: ViSession,
    /// The resource identifier the session is connected to.
    pub resource: Seq<char>,
    /// Every byte ever accepted for transmission on this session.
    pub tx: Seq<u8>,
    /// The bytes of the current, not yet terminated command line.
    pub pending: Seq<u8>,
    /// Bytes received from the instrument and not yet read.
    pub rx: Seq<u8>,
}

/// The state of one discoverable resource and of the instrument behind it.
#[verifier::ext_equal]
pub ghost struct ResourceModel {
    /// The identification line the instrument answers to an identification
    /// query, without the terminator.
    pub idn: Seq<u8>,
    /// Whether the instrument currently answers queries at all.
    pub responding: bool,
    /// The lock state of the resource.
    pub lock: LockModel,
}

/// The abstract state of the transport.
#[verifier::ext_equal]
pub ghost struct TransportModel {
    /// Live default-manager handles.
    pub managers: Set<ViSession>,
    /// Live instrument sessions, by handle.
    pub sessions: Map<ViSession, SessionModel>,
    /// Live discovery find-lists: the identifiers not yet handed out.
    pub find_lists: Map<ViSession, Seq<Seq<char>>>,
    /// All discoverable resource identifiers, in discovery order.
    pub resource_names: Seq<Seq<char>>,
    /// The resources, by identifier.
    pub resources: Map<Seq<char>, ResourceModel>,
}

/// The bytes of the identification query line.
pub open spec fn idn_query_bytes() -> Seq<u8> {
    seq![42u8, 73u8, 68u8, 78u8, 63u8, 10u8]
}

/// What the instrument behind a resource answers to one completed command
/// line: its identification line to an identification query, an
/// acknowledgement to any other query, nothing otherwise — and nothing at all
/// while it is not responding.
pub open spec fn scpi_response(r: ResourceModel, line: Seq<u8>) -> Seq<u8> {
    if !r.responding {
        seq![]
    } else if line == idn_query_bytes() {
        r.idn + seq![10u8]
    } else if line.len() >= 2 && line[line.len() - 2] == 63u8 && line[line.len() - 1] == 10u8 {
        seq![48u8, 10u8]
    } else {
        seq![]
    }
}

/// The session state after `data` is accepted for transmission: the bytes
/// join the transmit log, each newline completes a command line, and each
/// completed line may append the instrument's response to the receive
/// buffer.
pub open spec fn process_write(st: SessionModel, r: ResourceModel, data: Seq<u8>) -> SessionModel
    decreases data.len(),
    via process_write_decreases
{
    if data.len() == 0 {
        st
    } else {
        match first_index_of(data, 10u8) {
            None => SessionModel { tx: st.tx + data, pending: st.pending + data, ..st },
            Some(i) => {
                let line = st.pending + data.take(i + 1);
                let st1 = SessionModel {
                    tx: st.tx + data.take(i + 1),
                    pending: seq![],
                    rx: st.rx + scpi_response(r, line),
                    ..st
                };
                process_write(st1, r, data.skip(i + 1))
            },
        }
    }
}

#[via_fn]
proof fn process_write_decreases(st: SessionModel, r: ResourceModel, data: Seq<u8>) {
    if data.len() > 0 {
        lemma_first_index_of(data, 10u8);
    }
}

/// Accepting `a` and then `b` leaves a session exactly where accepting
/// `a + b` at once would have.
pub proof fn lemma_process_write_concat(
    st: SessionModel,
    r: ResourceModel,
    a: Seq<u8>,
    b: Seq<u8>,
)
    ensures
        process_write(st, r, a + b) == process_write(process_write(st, r, a), r, b),
    decreases a.len(),
{
    crate::text::lemma_first_index_of_concat(a, b, 10u8);
    crate::text::lemma_first_index_of(a, 10u8);
    crate::text::lemma_first_index_of(b, 10u8);
    if a.len() == 0 {
        assert(a + b =~= b);
    } else {
        match first_index_of(a, 10u8) {
            Some(i) => {
                assert((a + b).take(i + 1) =~= a.take(i + 1));
                assert((a + b).skip(i + 1) =~= a.skip(i + 1) + b);
                let line = st.pending + a.take(i + 1);
                let st1 = SessionModel {
                    tx: st.tx + a.take(i + 1),
                    pending: seq![],
                    rx: st.rx + scpi_response(r, line),
                    ..st
                };
                lemma_process_write_concat(st1, r, a.skip(i + 1), b);
            },
            None => {
                match first_index_of(b, 10u8) {
                    Some(j) => {
                        // The concatenation's first newline sits at the end
                        // of `a`'s contribution plus `b`'s prefix.
                        assert((a + b).take(a.len() + j + 1) =~= a + b.take(j + 1));
                        assert((a + b).skip(a.len() + j + 1) =~= b.skip(j + 1));
                        let st_mid = SessionModel { tx: st.tx + a, pending: st.pending + a, ..st };
                        assert(st.pending + (a + b.take(j + 1)) =~= st_mid.pending + b.take(j + 1));
                        assert(st.tx + (a + b.take(j + 1)) =~= st_mid.tx + b.take(j + 1));
                        let line = st_mid.pending + b.take(j + 1);
                        let st1 = SessionModel {
                            tx: st_mid.tx + b.take(j + 1),
                            pending: seq![],
                            rx: st.rx + scpi_response(r, line),
                            ..st
                        };
                        assert(process_write(st, r, a + b) == process_write(
                            st1,
                            r,
                            b.skip(j + 1),
                        ));
                        assert(process_write(process_write(st, r, a), r, b) == process_write(
                            st1,
                            r,
                            b.skip(j + 1),
                        ));
                    },
                    None => {
                        if b.len() == 0 {
                            assert(a + b =~= a);
                        } else {
                            assert(st.tx + (a + b) =~= (st.tx + a) + b);
                            assert(st.pending + (a + b) =~= (st.pending + a) + b);
                            assert(process_write(st, r, a + b) =~= process_write(
                                process_write(st, r, a),
                                r,
                                b,
                            ));
                        }
                    },
                }
            },
        }
    }
}

/// A write leaves the session roster, every resource, and the session's own
/// identity untouched: only its byte streams move.
pub proof fn lemma_write_effect_frame(m: TransportModel, h: ViSession, data: Seq<u8>)
    requires
        m.sessions.dom().contains(h),
    ensures
        m.write_effect(h, data).sessions.dom() =~= m.sessions.dom(),
        m.write_effect(h, data).resources == m.resources,
        m.write_effect(h, data).managers == m.managers,
        m.write_effect(h, data).find_lists == m.find_lists,
        m.write_effect(h, data).resource_names == m.resource_names,
        m.write_effect(h, data).sessions[h].resource == m.sessions[h].resource,
        m.write_effect(h, data).sessions[h].parent == m.sessions[h].parent,
        m.write_effect(h, data).io_permitted(h) == m.io_permitted(h),
        m.wf() ==> m.write_effect(h, data).wf(),
{
    lemma_process_write_preserves_identity(
        m.sessions[h],
        m.resources[m.sessions[h].resource],
        data,
    );
    let m1 = m.write_effect(h, data);
    assert(m1.sessions.dom() =~= m.sessions.dom());
    if m.wf() {
        assert(m1.wf());
    }
}

/// What a write leaves in the pending and receive buffers depends only on
/// what those buffers held, not on the session's identity or transmit log.
pub proof fn lemma_process_write_streams(
    st1: SessionModel,
    st2: SessionModel,
    r: ResourceModel,
    data: Seq<u8>,
)
    requires
        st1.pending == st2.pending,
        st1.rx == st2.rx,
    ensures
        process_write(st1, r, data).pending == process_write(st2, r, data).pending,
        process_write(st1, r, data).rx == process_write(st2, r, data).rx,
    decreases data.len(),
{
    if data.len() > 0 {
        crate::text::lemma_first_index_of(data, 10u8);
        match first_index_of(data, 10u8) {
            None => {},
            Some(i) => {
                let line = st1.pending + data.take(i + 1);
                let n1 = SessionModel {
                    tx: st1.tx + data.take(i + 1),
                    pending: seq![],
                    rx: st1.rx + scpi_response(r, line),
                    ..st1
                };
                let n2 = SessionModel {
                    tx: st2.tx + data.take(i + 1),
                    pending: seq![],
                    rx: st2.rx + scpi_response(r, line),
                    ..st2
                };
                lemma_process_write_streams(n1, n2, r, data.skip(i + 1));
            },
        }
    }
}

/// What a write leaves behind is decided by the instrument's answers alone:
/// two resources with the same identification line and the same responding
/// switch process it identically.
pub proof fn lemma_process_write_resource_depends(
    st: SessionModel,
    r1: ResourceModel,
    r2: ResourceModel,
    data: Seq<u8>,
)
    requires
        r1.idn == r2.idn,
        r1.responding == r2.responding,
    ensures
        process_write(st, r1, data) == process_write(st, r2, data),
    decreases data.len(),
{
    if data.len() > 0 {
        lemma_first_index_of(data, 10u8);
        match first_index_of(data, 10u8) {
            None => {},
            Some(i) => {
                let line = st.pending + data.take(i + 1);
                assert(scpi_response(r1, line) == scpi_response(r2, line));
                let st1 = SessionModel {
                    tx: st.tx + data.take(i + 1),
                    pending: seq![],
                    rx: st.rx + scpi_response(r1, line),
                    ..st
                };
                lemma_process_write_resource_depends(st1, r1, r2, data.skip(i + 1));
            },
        }
    }
}

/// Processing a write never changes which resource a session belongs to.
pub proof fn lemma_process_write_preserves_identity(
    st: SessionModel,
    r: ResourceModel,
    data: Seq<u8>,
)
    ensures
        process_write(st, r, data).resource == st.resource,
        process_write(st, r, data).parent == st.parent,
    decreases data.len(),
{
    if data.len() > 0 {
        crate::text::lemma_first_index_of(data, 10u8);
        match first_index_of(data, 10u8) {
            None => {},
            Some(i) => {
                let line = st.pending + data.take(i + 1);
                let st1 = SessionModel {
                    tx: st.tx + data.take(i + 1),
                    pending: seq![],
                    rx: st.rx + scpi_response(r, line),
                    ..st
                };
                lemma_process_write_preserves_identity(st1, r, data.skip(i + 1));
            },
        }
    }
}

/// Two writes in a row amount to one write of the concatenation.
pub proof fn lemma_write_effect_concat(m: TransportModel, h: ViSession, a: Seq<u8>, b: Seq<u8>)
    requires
        m.sessions.dom().contains(h),
    ensures
        m.write_effect(h, a).write_effect(h, b) == m.write_effect(h, a + b),
{
    let st = m.sessions[h];
    let r = m.resources[st.resource];
    lemma_process_write_concat(st, r, a, b);
    lemma_process_write_preserves_identity(st, r, a);
    let ma = m.write_effect(h, a);
    assert(ma.sessions[h] == process_write(st, r, a));
    assert(ma.sessions[h].resource == st.resource);
    assert(ma.resources == m.resources);
    assert(ma.write_effect(h, b).sessions =~= m.write_effect(h, a + b).sessions);
    assert(ma.write_effect(h, b) =~= m.write_effect(h, a + b));
}

/// How many bytes one receive of at most `max` bytes hands back: up to and
/// including the first newline, or as much as is available.
pub open spec fn read_amount(rx: Seq<u8>, max: nat) -> nat {
    let lim: nat = if max <= rx.len() {
        max
    } else {
        rx.len()
    };
    match first_index_of(rx.take(lim as int), 10u8) {
        Some(i) => (i + 1) as nat,
        None => lim,
    }
}

/// What one receive hands back: the bytes up to the first newline within
/// reach, newline included, or everything within reach when none has arrived.
pub proof fn lemma_read_amount(rx: Seq<u8>, max: nat)
    requires
        rx.len() > 0,
        max >= 1,
    ensures
        ({
            let lim: nat = if max <= rx.len() {
                max
            } else {
                rx.len()
            };
            let a = read_amount(rx, max);
            &&& 1 <= a <= lim
            &&& forall|j: int| 0 <= j < a - 1 ==> rx[j] != 10u8
            &&& (rx[a - 1] == 10u8 || (a == lim && rx[lim - 1] != 10u8))
        }),
{
    let lim: nat = if max <= rx.len() {
        max
    } else {
        rx.len()
    };
    let t = rx.take(lim as int);
    crate::text::lemma_first_index_of(t, 10u8);
    assert(forall|j: int| 0 <= j < lim ==> t[j] == rx[j]);
}

/// Whether a lock's holders are all live sessions, and a shared group is
/// never empty: what every transport transition maintains.
pub open spec fn lock_holders_live(l: LockModel, live: Set<ViSession>) -> bool {
    match l {
        LockModel::Unlocked => true,
        LockModel::Exclusive(owner) => live.contains(owner),
        LockModel::Shared(_, holders) => holders.subset_of(live) && holders != Set::<
            ViSession,
        >::empty(),
    }
}

/// The lock state after every session in `hs` has released its holds.
pub open spec fn release_lock(l: LockModel, hs: Set<ViSession>) -> LockModel {
    match l {
        LockModel::Unlocked => LockModel::Unlocked,
        LockModel::Exclusive(owner) => if hs.contains(owner) {
            LockModel::Unlocked
        } else {
            l
        },
        LockModel::Shared(key, holders) => {
            let holders2 = holders.difference(hs);
            if holders2 =~= Set::<ViSession>::empty() {
                LockModel::Unlocked
            } else {
                LockModel::Shared(key, holders2)
            }
        },
    }
}

impl TransportModel {
    /// Whether `h` is a live handle of any kind.
    pub open spec fn is_live(self, h: ViSession) -> bool {
        self.managers.contains(h) || self.sessions.dom().contains(h) || self.find_lists.dom().contains(h)
    }

    /// Well-formedness: every session's resource exists, every discoverable
    /// name exists, and the listing is short enough to count.
    pub open spec fn wf(self) -> bool {
        &&& forall|h: ViSession|
            self.sessions.dom().contains(h) ==> self.resources.dom().contains(
                #[trigger] self.sessions[h].resource,
            )
        &&& forall|i: int|
            0 <= i < self.resource_names.len() ==> self.resources.dom().contains(
                #[trigger] self.resource_names[i],
            )
        &&& self.resource_names.len() < 4294967295
        &&& forall|res: Seq<char>|
            self.resources.dom().contains(res) ==> lock_holders_live(
                (#[trigger] self.resources[res]).lock,
                self.sessions.dom(),
            )
    }

    /// The discoverable identifiers matching expression `e`, in discovery
    /// order.
    pub open spec fn matching_resources(self, e: Seq<char>) -> Seq<Seq<char>> {
        self.resource_names.filter(|n: Seq<char>| expr_matches(e, n))
    }

    /// The lock state governing session `h`.
    pub open spec fn lock_of(self, h: ViSession) -> LockModel {
        self.resources[self.sessions[h].resource].lock
    }

    /// Whether session `h` may exchange bytes with its resource under the
    /// current lock state.
    pub open spec fn io_permitted(self, h: ViSession) -> bool {
        match self.lock_of(h) {
            LockModel::Unlocked => true,
            LockModel::Exclusive(owner) => owner == h,
            LockModel::Shared(_, holders) => holders.contains(h),
        }
    }

    /// The model with session `h` replaced.
    pub open spec fn with_session(self, h: ViSession, st: SessionModel) -> TransportModel {
        TransportModel { sessions: self.sessions.insert(h, st), ..self }
    }

    /// The model with the lock of resource `res` replaced.
    pub open spec fn with_lock(self, res: Seq<char>, l: LockModel) -> TransportModel {
        TransportModel {
            resources: self.resources.insert(
                res,
                ResourceModel { lock: l, ..self.resources[res] },
            ),
            ..self
        }
    }

    /// The model after a complete verified write of `data` on session `h`.
    pub open spec fn write_effect(self, h: ViSession, data: Seq<u8>) -> TransportModel {
        self.with_session(
            h,
            process_write(self.sessions[h], self.resources[self.sessions[h].resource], data),
        )
    }

    /// The line a complete verified read on session `h` returns, if a full
    /// line is pending.
    pub open spec fn read_line_result(self, h: ViSession) -> Option<Seq<u8>> {
        spec_first_line(self.sessions[h].rx)
    }

    /// The model after a complete verified read on session `h`: the first
    /// line is consumed, or everything is consumed while waiting in vain for
    /// a terminator.
    pub open spec fn read_effect(self, h: ViSession) -> TransportModel {
        let st = self.sessions[h];
        match spec_first_line(st.rx) {
            Some(line) => self.with_session(
                h,
                SessionModel { rx: st.rx.skip(line.len() as int), ..st },
            ),
            None => self.with_session(h, SessionModel { rx: seq![], ..st }),
        }
    }

    /// The sessions opened under manager `manager`.
    pub open spec fn children_of(self, manager: ViSession) -> Set<ViSession> {
        self.sessions.dom().filter(|h: ViSession| self.sessions[h].parent == manager)
    }

    /// The model after the sessions in `hs` are closed: they disappear and
    /// their lock holds are released.
    pub open spec fn close_sessions(self, hs: Set<ViSession>) -> TransportModel {
        TransportModel {
            sessions: self.sessions.remove_keys(hs),
            resources: self.resources.map_values(
                |r: ResourceModel| ResourceModel { lock: release_lock(r.lock, hs), ..r },
            ),
            ..self
        }
    }

    /// The model after handle `h` is closed: an instrument session releases
    /// its locks and disappears; a manager takes all its sessions with it; a
    /// find-list disappears; anything else changes nothing.
    pub open spec fn close_effect(self, h: ViSession) -> TransportModel {
        if self.sessions.dom().contains(h) {
            self.close_sessions(set![h])
        } else if self.managers.contains(h) {
            let m1 = self.close_sessions(self.children_of(h));
            TransportModel { managers: m1.managers.remove(h), ..m1 }
        } else if self.find_lists.dom().contains(h) {
            TransportModel { find_lists: self.find_lists.remove(h), ..self }
        } else {
            self
        }
    }
}

/// A read leaves the session roster, every resource, and the session's own
/// identity untouched: only the receive buffer shrinks.
pub proof fn lemma_read_effect_frame(m: TransportModel, h: ViSession)
    requires
        m.sessions.dom().contains(h),
    ensures
        m.read_effect(h).sessions.dom() =~= m.sessions.dom(),
        m.read_effect(h).resources == m.resources,
        m.read_effect(h).managers == m.managers,
        m.read_effect(h).find_lists == m.find_lists,
        m.read_effect(h).resource_names == m.resource_names,
        m.read_effect(h).sessions[h].resource == m.sessions[h].resource,
        m.read_effect(h).sessions[h].parent == m.sessions[h].parent,
        m.read_effect(h).io_permitted(h) == m.io_permitted(h),
        m.wf() ==> m.read_effect(h).wf(),
{
    let m1 = m.read_effect(h);
    assert(m1.sessions.dom() =~= m.sessions.dom());
    if m.wf() {
        assert(m1.wf());
    }
}

/// Closing sessions keeps the model well-formed: the closed sessions vanish
/// and every hold they had is released.
pub proof fn lemma_close_sessions_wf(m: TransportModel, hs: Set<ViSession>)
    requires
        m.wf(),
    ensures
        m.close_sessions(hs).wf(),
{
    let m1 = m.close_sessions(hs);
    assert forall|res: Seq<char>| m1.resources.dom().contains(res) implies lock_holders_live(
        (#[trigger] m1.resources[res]).lock,
        m1.sessions.dom(),
    ) by {
        assert(m.resources.dom().contains(res));
        assert(m1.resources[res].lock == release_lock(m.resources[res].lock, hs));
        match m.resources[res].lock {
            LockModel::Unlocked => {},
            LockModel::Exclusive(owner) => {},
            LockModel::Shared(key, holders) => {
                let holders2 = holders.difference(hs);
                if !(holders2 =~= Set::<ViSession>::empty()) {
                    assert(holders2.subset_of(m1.sessions.dom()));
                    assert(exists|x: ViSession| holders2.contains(x));
                    assert(holders2 != Set::<ViSession>::empty());
                }
            },
        }
    }
    assert(m1.wf());
}

/// Closing any handle keeps the model well-formed.
pub proof fn lemma_close_effect_wf(m: TransportModel, h: ViSession)
    requires
        m.wf(),
    ensures
        m.close_effect(h).wf(),
{
    if m.sessions.dom().contains(h) {
        lemma_close_sessions_wf(m, set![h]);
    } else if m.managers.contains(h) {
        lemma_close_sessions_wf(m, m.children_of(h));
    } else {
    }
}

/// The first identifier and the count a discovery search answers with, plus
/// the handle under which the rest of the identifiers can be walked.
pub struct FindList {
    pub handle: ViSession,
    pub count: u32,
    pub first: String,
}

/// What opening the default-manager context does to the model.
pub open spec fn open_default_manager_post(
    m0: TransportModel,
    r: Result<ViSession, VisaError>,
    m1: TransportModel,
) -> bool {
    match r {
        Ok(h) => !m0.is_live(h) && m1 == (TransportModel { managers: m0.managers.insert(h), ..m0 }),
        Err(_) => m1 == m0,
    }
}

/// What a discovery search does to the model: a malformed expression is
/// rejected, a well-formed one answers with the matching identifiers in
/// discovery order, registering a find-list when there are any.
pub open spec fn find_first_post(
    m0: TransportModel,
    manager: ViSession,
    expression: Seq<char>,
    r: Result<FindList, VisaError>,
    m1: TransportModel,
) -> bool {
    if !m0.managers.contains(manager) {
        r is Err && m1 == m0
    } else if !expr_valid(expression) {
        r == Err::<FindList, VisaError>(VisaError::InvalidExpression) && m1 == m0
    } else {
        let ms = m0.matching_resources(expression);
        match r {
            Ok(fl) => fl.count == ms.len() && if ms.len() == 0 {
                m1 == m0
            } else {
                fl.first@ == ms[0] && !m0.is_live(fl.handle) && m1 == (TransportModel {
                    find_lists: m0.find_lists.insert(fl.handle, ms.skip(1)),
                    ..m0
                })
            },
            // A search that found something needs a fresh find-list handle,
            // and the transport may have none left to give.
            Err(e) => ms.len() > 0 && e == VisaError::Allocation && m1 == m0,
        }
    }
}

/// What taking the next identifier from a find-list does to the model.
pub open spec fn find_next_post(
    m0: TransportModel,
    list: ViSession,
    r: Result<String, VisaError>,
    m1: TransportModel,
) -> bool {
    if m0.find_lists.dom().contains(list) && m0.find_lists[list].len() > 0 {
        match r {
            Ok(s) => s@ == m0.find_lists[list][0] && m1 == (TransportModel {
                find_lists: m0.find_lists.insert(list, m0.find_lists[list].skip(1)),
                ..m0
            }),
            Err(_) => false,
        }
    } else {
        r is Err && m1 == m0
    }
}

/// What opening a session does to the model: an absent resource is not
/// found, a shared-lock request is an invalid access mode, an
/// exclusive-lock request on a locked resource is refused, and otherwise a
/// fresh handle appears with empty buffers, acquiring the exclusive lock
/// when one was requested.
pub open spec fn open_session_post(
    m0: TransportModel,
    manager: ViSession,
    resource: Seq<char>,
    mode: AccessMode,
    r: Result<ViSession, VisaError>,
    m1: TransportModel,
) -> bool {
    if !m0.managers.contains(manager) {
        r is Err && m1 == m0
    } else if !m0.resources.dom().contains(resource) {
        r == Err::<ViSession, VisaError>(VisaError::ResourceNotFound) && m1 == m0
    } else if spec_has_shared_lock(mode) {
        r == Err::<ViSession, VisaError>(VisaError::InvalidAccessMode) && m1 == m0
    } else if spec_has_exclusive_lock(mode) && !(m0.resources[resource].lock is Unlocked) {
        r == Err::<ViSession, VisaError>(VisaError::ResourceLocked) && m1 == m0
    } else {
        match r {
            Ok(h) => !m0.is_live(h) && {
                let opened = m0.with_session(
                    h,
                    SessionModel {
                        parent: manager,
                        resource: resource,
                        tx: seq![],
                        pending: seq![],
                        rx: seq![],
                    },
                );
                if spec_has_exclusive_lock(mode) {
                    m1 == opened.with_lock(resource, LockModel::Exclusive(h))
                } else {
                    m1 == opened
                }
            },
            // The transport may have no fresh session handle left to give.
            Err(e) => e == VisaError::Allocation && m1 == m0,
        }
    }
}

/// What closing a handle does to the model.
pub open spec fn close_post(
    m0: TransportModel,
    h: ViSession,
    r: Result<Status, VisaError>,
    m1: TransportModel,
) -> bool {
    if m0.is_live(h) {
        r == Ok::<Status, VisaError>(Status::OperationCompleted) && m1 == m0.close_effect(h)
    } else {
        r == Err::<Status, VisaError>(VisaError::InvalidObject) && m1 == m0
    }
}

/// What one send of a chunk does to the model: a dead handle or a lock held
/// against the session refuses it; otherwise at least one byte is accepted
/// and processed.
pub open spec fn write_chunk_post(
    m0: TransportModel,
    h: ViSession,
    data: Seq<u8>,
    r: Result<u32, VisaError>,
    m1: TransportModel,
) -> bool {
    if !m0.sessions.dom().contains(h) {
        r == Err::<u32, VisaError>(VisaError::InvalidObject) && m1 == m0
    } else if !m0.io_permitted(h) {
        r == Err::<u32, VisaError>(VisaError::ResourceLocked) && m1 == m0
    } else if data.len() == 0 {
        r == Ok::<u32, VisaError>(0) && m1 == m0
    } else {
        match r {
            Ok(n) => 1 <= n <= data.len() && m1 == m0.write_effect(h, data.take(n as int)),
            Err(_) => false,
        }
    }
}

/// What one receive of at most `max` bytes does to the model: a dead handle
/// or a lock held against the session refuses it, an empty receive buffer
/// times out, and otherwise the next bytes up to the first newline are
/// handed over.
pub open spec fn read_chunk_post(
    m0: TransportModel,
    h: ViSession,
    max: nat,
    r: Result<Vec<u8>, VisaError>,
    m1: TransportModel,
) -> bool {
    if !m0.sessions.dom().contains(h) {
        r is Err && (r matches Err(e) ==> e == VisaError::InvalidObject) && m1 == m0
    } else if !m0.io_permitted(h) {
        r is Err && (r matches Err(e) ==> e == VisaError::ResourceLocked) && m1 == m0
    } else if m0.sessions[h].rx.len() == 0 {
        r is Err && (r matches Err(e) ==> e == VisaError::Timeout) && m1 == m0
    } else {
        let st = m0.sessions[h];
        let amount = read_amount(st.rx, max);
        match r {
            Ok(chunk) => chunk@ == st.rx.take(amount as int) && 1 <= amount && m1
                == m0.with_session(h, SessionModel { rx: st.rx.skip(amount as int), ..st }),
            Err(_) => false,
        }
    }
}

/// What a flush does to the model: discarding the receive side empties it;
/// forcing out the transmit side changes nothing visible, since the transmit
/// log already holds every accepted byte.
pub open spec fn flush_post(
    m0: TransportModel,
    h: ViSession,
    mode: FlushMode,
    r: Result<Status, VisaError>,
    m1: TransportModel,
) -> bool {
    if !m0.sessions.dom().contains(h) {
        r == Err::<Status, VisaError>(VisaError::InvalidObject) && m1 == m0
    } else if !spec_flush_mask_valid(mode) {
        r == Err::<Status, VisaError>(VisaError::InvalidBufferMask) && m1 == m0
    } else if spec_discards_read(mode) {
        r == Ok::<Status, VisaError>(Status::OperationCompleted) && m1 == m0.with_session(
            h,
            SessionModel { rx: seq![], ..m0.sessions[h] },
        )
    } else {
        r == Ok::<Status, VisaError>(Status::OperationCompleted) && m1 == m0
    }
}

/// What a lock request does to the model, per the locking state machine: an
/// exclusive request takes a free resource or is refused; a shared request
/// takes a free resource under a key (the caller's, or one the transport
/// generates) or joins an existing group when the presented key equals the
/// group's key.
pub open spec fn lock_post(
    m0: TransportModel,
    h: ViSession,
    mode: AccessMode,
    key: Option<Seq<char>>,
    r: Result<Option<String>, VisaError>,
    m1: TransportModel,
) -> bool {
    if !m0.sessions.dom().contains(h) {
        r == Err::<Option<String>, VisaError>(VisaError::InvalidObject) && m1 == m0
    } else {
        let res = m0.sessions[h].resource;
        let l = m0.resources[res].lock;
        if spec_has_shared_lock(mode) {
            match l {
                LockModel::Unlocked => match r {
                    Ok(Some(k)) => (match key {
                        Some(rk) => k@ == rk,
                        // A key the transport generates is a terminated
                        // string, so it never holds an interior NUL and a
                        // cooperating session can always present it.
                        None => !k@.contains('\u{0}'),
                    }) && m1 == m0.with_lock(res, LockModel::Shared(k@, set![h])),
                    _ => false,
                },
                LockModel::Shared(k0, holders) => match key {
                    Some(rk) => if rk == k0 {
                        match r {
                            Ok(Some(k)) => k@ == k0 && m1 == m0.with_lock(
                                res,
                                LockModel::Shared(k0, holders.insert(h)),
                            ),
                            _ => false,
                        }
                    } else {
                        r == Err::<Option<String>, VisaError>(VisaError::InvalidAccessKey) && m1
                            == m0
                    },
                    None => r == Err::<Option<String>, VisaError>(VisaError::ResourceLocked) && m1
                        == m0,
                },
                LockModel::Exclusive(_) => r == Err::<Option<String>, VisaError>(
                    VisaError::ResourceLocked,
                ) && m1 == m0,
            }
        } else if spec_has_exclusive_lock(mode) {
            match l {
                LockModel::Unlocked => r == Ok::<Option<String>, VisaError>(None) && m1
                    == m0.with_lock(res, LockModel::Exclusive(h)),
                _ => r == Err::<Option<String>, VisaError>(VisaError::ResourceLocked) && m1 == m0,
            }
        } else {
            r == Err::<Option<String>, VisaError>(VisaError::InvalidLockType) && m1 == m0
        }
    }
}

/// What an unlock does to the model: the session's hold is released, and a
/// session holding nothing is told so.
pub open spec fn unlock_post(
    m0: TransportModel,
    h: ViSession,
    r: Result<Status, VisaError>,
    m1: TransportModel,
) -> bool {
    if !m0.sessions.dom().contains(h) {
        r == Err::<Status, VisaError>(VisaError::InvalidObject) && m1 == m0
    } else {
        let res = m0.sessions[h].resource;
        let l = m0.resources[res].lock;
        match l {
            LockModel::Exclusive(owner) => if owner == h {
                r == Ok::<Status, VisaError>(Status::OperationCompleted) && m1 == m0.with_lock(
                    res,
                    LockModel::Unlocked,
                )
            } else {
                r == Err::<Status, VisaError>(VisaError::SessionNotLocked) && m1 == m0
            },
            LockModel::Shared(k, holders) => if holders.contains(h) {
                r == Ok::<Status, VisaError>(Status::OperationCompleted) && {
                    let holders2 = holders.remove(h);
                    if holders2 =~= Set::<ViSession>::empty() {
                        m1 == m0.with_lock(res, LockModel::Unlocked)
                    } else {
                        m1 == m0.with_lock(res, LockModel::Shared(k, holders2))
                    }
                }
            } else {
                r == Err::<Status, VisaError>(VisaError::SessionNotLocked) && m1 == m0
            },
            LockModel::Unlocked => r == Err::<Status, VisaError>(VisaError::SessionNotLocked) && m1
                == m0,
        }
    }
}

/// The capability interface consumed from the transport collaborator.
///
/// `model` is the abstract state an implementation exhibits; every method is
/// held to its postcondition predicate over that state. The library ships one
/// verified implementation, the in-memory [`crate::sim::SimTransport`]; a
/// binding to a native transport library would implement the same trait
/// outside the verified world.
pub trait Transport: Sized {
    /// The abstract state of this transport.
    spec fn model(&self) -> TransportModel;

    /// Opens the default-manager context and hands back its handle.
    fn open_default_manager(&mut self) -> (r: Result<ViSession, VisaError>)
        ensures
            open_default_manager_post(old(self).model(), r, final(self).model()),
            old(self).model().wf() ==> final(self).model().wf(),
    ;

    /// Starts a discovery search for `expression`, answering the match
    /// count, the first match, and a find-list for the rest.
    fn find_first(&mut self, manager: ViSession, expression: &str) -> (r: Result<
        FindList,
        VisaError,
    >)
        ensures
            find_first_post(old(self).model(), manager, expression@, r, final(self).model()),
            old(self).model().wf() ==> final(self).model().wf(),
    ;

    /// Takes the next identifier from a find-list.
    fn find_next(&mut self, list: ViSession) -> (r: Result<String, VisaError>)
        ensures
            find_next_post(old(self).model(), list, r, final(self).model()),
            old(self).model().wf() ==> final(self).model().wf(),
    ;

    /// Opens a session to `resource` under the given access mode.
    fn open_session(
        &mut self,
        manager: ViSession,
        resource: &str,
        mode: AccessMode,
        timeout_ms: u32,
    ) -> (r: Result<ViSession, VisaError>)
        ensures
            open_session_post(
                old(self).model(),
                manager,
                resource@,
                mode,
                r,
                final(self).model(),
            ),
            old(self).model().wf() ==> final(self).model().wf(),
    ;

    /// Closes a handle of any kind.
    fn close(&mut self, h: ViSession) -> (r: Result<Status, VisaError>)
        ensures
            close_post(old(self).model(), h, r, final(self).model()),
            old(self).model().wf() ==> final(self).model().wf(),
    ;

    /// Sends one chunk of `data`, answering how many bytes were accepted.
    fn write_chunk(&mut self, h: ViSession, data: &[u8]) -> (r: Result<u32, VisaError>)
        requires
            data@.len() <= 4294967295,
        ensures
            write_chunk_post(old(self).model(), h, data@, r, final(self).model()),
            old(self).model().wf() ==> final(self).model().wf(),
    ;

    /// Receives one chunk of at most `max` bytes.
    fn read_chunk(&mut self, h: ViSession, max: u32) -> (r: Result<Vec<u8>, VisaError>)
        requires
            max >= 1,
        ensures
            read_chunk_post(old(self).model(), h, max as nat, r, final(self).model()),
            old(self).model().wf() ==> final(self).model().wf(),
    ;

    /// Forces out or discards buffered data per the buffer-selection mask.
    fn flush(&mut self, h: ViSession, mode: FlushMode) -> (r: Result<Status, VisaError>)
        ensures
            flush_post(old(self).model(), h, mode, r, final(self).model()),
            old(self).model().wf() ==> final(self).model().wf(),
    ;

    /// Requests a lock on the resource behind session `h`.
    fn lock(
        &mut self,
        h: ViSession,
        mode: AccessMode,
        timeout_ms: u32,
        key: Option<&str>,
    ) -> (r: Result<Option<String>, VisaError>)
        ensures
            lock_post(
                old(self).model(),
                h,
                mode,
                match key {
                    Some(k) => Some(k@),
                    None => None,
                },
                r,
                final(self).model(),
            ),
            old(self).model().wf() ==> final(self).model().wf(),
    ;

    /// Releases whatever lock session `h` holds.
    fn unlock(&mut self, h: ViSession) -> (r: Result<Status, VisaError>)
        ensures
            unlock_post(old(self).model(), h, r, final(self).model()),
            old(self).model().wf() ==> final(self).model().wf(),
    ;

    /// A human-readable description of a status code, from the transport.
    fn status_description(&self, h: ViSession, code: i32) -> (r: Result<String, VisaError>)
        ensures
            self.model().is_live(h) ==> r is Ok,
            !self.model().is_live(h) ==> r == Err::<String, VisaError>(VisaError::InvalidObject),
    ;
}

} // verus!
