//! The resource manager: discovery of instruments by expression or scope, and
//! the identifier-to-instrument session cache.
//!
//! The cache keeps at most one live instrument per resource identifier. An
//! `open` on a cached identifier first checks liveness with an identification
//! query: a live entry is shared as it is (no new native session), a dead one
//! is evicted, its session closed, and the open path runs afresh.

use vstd::prelude::*;
use vstd::string::StringExecFns;
use crate::error::{Error, Status, VisaError};
use crate::instrument::{Instrument, InstrumentView};
use crate::matcher::{matches_full, regex_is_match, regex_pattern_valid, spec_anchored};
use crate::mode::{spec_has_exclusive_lock, spec_has_shared_lock, AccessMode};
use crate::scpi::{
    idn_exchange_model, idn_exchange_result, idn_io_allowed, idn_refresh_ok,
    spec_parse_identification, IdentificationView,
};
use crate::session::{Session, ViSession};
use crate::expr::expr_matches;
use crate::text::{find_char, spec_first_line};
use crate::transport::{
    close_post, idn_query_bytes, lock_holders_live, open_default_manager_post, process_write,
    release_lock, scpi_response, FindList, LockModel, ResourceModel, SessionModel, Transport,
    TransportModel,
};
use vstd::utf8::{decode_utf8, valid_utf8};

verus! {

/// How wide a discovery sweep reaches: every instrument-class resource, or
/// only the local transports (USB, GPIB, VXI, serial, and link-local TCP).
#[derive(Clone, Copy, Debug, PartialEq, Eq, PartialOrd, Ord, Hash, Structural)]
pub enum Scope {
    Global,
    Local,
}

/// The discovery expression a scope stands for.
pub open spec fn scope_expression(scope: Scope) -> Seq<char> {
    match scope {
        Scope::Global => "?*INSTR"@,
        Scope::Local => "(USB|GPIB|VXI|ASRL|TCPIP?::169.254)?*INSTR"@,
    }
}

/// The resource manager: the root session against the default-manager
/// context, plus the identifier-to-instrument cache.
pub struct ResourceManager {
    inner: Session,
    pub(crate) instruments: Vec<(String, Instrument)>,
}

/// The mathematical value of a resource manager: its root handle and the
/// cache as a keyed sequence.
pub ghost struct ManagerView {
    pub root: ViSession,
    pub cache: Seq<(Seq<char>, InstrumentView)>,
}

/// The cache entries as the view sees them.
spec fn cache_view(v: Seq<(String, Instrument)>) -> Seq<(Seq<char>, InstrumentView)> {
    v.map_values(|p: (String, Instrument)| (p.0@, p.1@))
}

impl View for ResourceManager {
    type V = ManagerView;

    closed spec fn view(&self) -> ManagerView {
        ManagerView { root: self.inner@, cache: cache_view(self.instruments@) }
    }
}

/// Appending an entry appends its view.
proof fn lemma_cache_view_push(v: Seq<(String, Instrument)>, e: (String, Instrument))
    ensures
        cache_view(v.push(e)) =~= cache_view(v).push((e.0@, e.1@)),
{
}

/// Removing an entry removes its view.
proof fn lemma_cache_view_remove(v: Seq<(String, Instrument)>, i: int)
    requires
        0 <= i < v.len(),
    ensures
        cache_view(v.remove(i)) =~= cache_view(v).remove(i),
{
    assert forall|j: int| 0 <= j < v.len() - 1 implies cache_view(v.remove(i))[j] == cache_view(
        v,
    ).remove(i)[j] by {
        assert(v.remove(i).len() == v.len() - 1);
        if j < i {
            assert(v.remove(i)[j] == v[j]);
        } else {
            assert(v.remove(i)[j] == v[j + 1]);
        }
    }
}

/// The index of the entry cached under `r`, if any.
pub open spec fn cache_index(c: Seq<(Seq<char>, InstrumentView)>, r: Seq<char>) -> Option<int>
    decreases c.len(),
{
    if c.len() == 0 {
        None
    } else if c[0].0 == r {
        Some(0)
    } else {
        match cache_index(c.skip(1), r) {
            Some(i) => Some(i + 1),
            None => None,
        }
    }
}

/// Whether the cache keeps at most one entry per identifier.
pub open spec fn cache_keys_distinct(c: Seq<(Seq<char>, InstrumentView)>) -> bool {
    forall|i: int, j: int| 0 <= i < j < c.len() ==> (#[trigger] c[i]).0 != (#[trigger] c[j]).0
}

/// What `cache_index` finds: the first entry under the key, with no earlier
/// one.
pub proof fn lemma_cache_index(c: Seq<(Seq<char>, InstrumentView)>, r: Seq<char>)
    ensures
        match cache_index(c, r) {
            Some(i) => 0 <= i < c.len() && c[i].0 == r && (forall|j: int|
                0 <= j < i ==> (#[trigger] c[j]).0 != r),
            None => forall|j: int| 0 <= j < c.len() ==> (#[trigger] c[j]).0 != r,
        },
    decreases c.len(),
{
    if c.len() == 0 {
    } else if c[0].0 == r {
    } else {
        lemma_cache_index(c.skip(1), r);
        let t = c.skip(1);
        match cache_index(t, r) {
            Some(i) => {
                assert(c[i + 1] == t[i]);
                assert forall|j: int| 0 <= j < i + 1 implies (#[trigger] c[j]).0 != r by {
                    if j > 0 {
                        assert(t[j - 1] == c[j]);
                    }
                }
            },
            None => {
                assert forall|j: int| 0 <= j < c.len() implies (#[trigger] c[j]).0 != r by {
                    if j > 0 {
                        assert(t[j - 1] == c[j]);
                    }
                }
            },
        }
    }
}

/// An entry at `i` with no earlier entry under the same key pins
/// `cache_index` down.
pub proof fn lemma_cache_index_witness(
    c: Seq<(Seq<char>, InstrumentView)>,
    r: Seq<char>,
    i: int,
)
    requires
        0 <= i < c.len(),
        c[i].0 == r,
        forall|j: int| 0 <= j < i ==> (#[trigger] c[j]).0 != r,
    ensures
        cache_index(c, r) == Some(i),
    decreases c.len(),
{
    if i == 0 {
    } else {
        assert(forall|j: int| 0 <= j < i - 1 ==> #[trigger] c.skip(1)[j] == c[j + 1]);
        lemma_cache_index_witness(c.skip(1), r, i - 1);
    }
}

/// A cache with no entry under `r` indexes to nothing.
pub proof fn lemma_cache_index_absent(c: Seq<(Seq<char>, InstrumentView)>, r: Seq<char>)
    requires
        forall|j: int| 0 <= j < c.len() ==> (#[trigger] c[j]).0 != r,
    ensures
        cache_index(c, r) is None,
    decreases c.len(),
{
    if c.len() > 0 {
        assert(forall|j: int| 0 <= j < c.skip(1).len() ==> #[trigger] c.skip(1)[j] == c[j + 1]);
        lemma_cache_index_absent(c.skip(1), r);
    }
}

/// The state of a just-opened session: clean buffers, bound to its resource
/// and to the manager that opened it.
pub open spec fn fresh_session_state(root: ViSession, resource: Seq<char>) -> SessionModel {
    SessionModel { parent: root, resource: resource, tx: seq![], pending: seq![], rx: seq![] }
}

/// The model right after a session to `resource` is opened under `mode`: the
/// fresh session appears, and an exclusive-lock request takes the lock.
pub open spec fn opened_model(
    m: TransportModel,
    root: ViSession,
    resource: Seq<char>,
    mode: AccessMode,
    h: ViSession,
) -> TransportModel {
    let base = m.with_session(h, fresh_session_state(root, resource));
    if spec_has_exclusive_lock(mode) {
        base.with_lock(resource, LockModel::Exclusive(h))
    } else {
        base
    }
}

/// What the identification exchange on a clean, fresh session yields: a
/// function of the resource alone, since nothing else is buffered.
pub open spec fn fresh_idn_result(rs: ResourceModel) -> Result<IdentificationView, Error> {
    match spec_first_line(scpi_response(rs, idn_query_bytes())) {
        Some(line) => if valid_utf8(line) {
            match spec_parse_identification(decode_utf8(line)) {
                Ok(v) => Ok(v),
                Err(f) => Err(Error::InvalidIdentification(f)),
            }
        } else {
            Err(Error::Io(crate::error::IoErrorKind::InvalidData))
        },
        None => Err(Error::Visa(VisaError::Timeout)),
    }
}

/// What remains buffered on a fresh session after its first identification
/// exchange: whatever followed the first line of the instrument's answer.
pub open spec fn fresh_leftover(rs: ResourceModel) -> Seq<u8> {
    let resp = scpi_response(rs, idn_query_bytes());
    match spec_first_line(resp) {
        Some(line) => resp.skip(line.len() as int),
        None => seq![],
    }
}

/// What the scan's own identification query yields on a session fresh from
/// its first exchange: the second look, a function of the resource alone.
pub open spec fn second_look_result(rs: ResourceModel) -> Result<IdentificationView, Error> {
    crate::scpi::session_exchange_result(
        (SessionModel {
            parent: 0,
            resource: Seq::empty(),
            tx: Seq::empty(),
            pending: Seq::empty(),
            rx: fresh_leftover(rs),
        }),
        rs,
    )
}

/// Whether the identification scan, reaching `name` with no cache entry for
/// it, would open it, draw its identification, and find all three anchored
/// patterns matching. Lock contention and handle exhaustion are left out on
/// purpose: they only make a candidate fail to open, which a scan skips.
pub open spec fn scan_accepts(
    m: TransportModel,
    name: Seq<char>,
    mode: AccessMode,
    manufacturer: Seq<char>,
    model: Seq<char>,
    serial_number: Seq<char>,
) -> bool {
    &&& !name.contains('\u{0}')
    &&& m.resources.dom().contains(name)
    &&& !spec_has_shared_lock(mode)
    &&& fresh_idn_result(m.resources[name]) is Ok
    &&& match second_look_result(m.resources[name]) {
        Ok(v) => regex_is_match(manufacturer, v.manufacturer) && regex_is_match(model, v.model)
            && regex_is_match(serial_number, v.serial_number),
        Err(_) => false,
    }
}

/// A scan bound to come up empty: the root manager is live, the three
/// anchored patterns are ones the regex crate accepts, the discovery listing
/// repeats no identifier, and no discoverable candidate is accepted.
pub open spec fn scan_is_barren(
    m0: TransportModel,
    root: ViSession,
    scope: Scope,
    mode: AccessMode,
    manufacturer: Seq<char>,
    model: Seq<char>,
    serial_number: Seq<char>,
) -> bool {
    let ms = m0.matching_resources(scope_expression(scope));
    &&& m0.managers.contains(root)
    &&& regex_pattern_valid(manufacturer)
    &&& regex_pattern_valid(model)
    &&& regex_pattern_valid(serial_number)
    &&& (forall|a: int, b: int|
        0 <= a < b < m0.resource_names.len() ==> m0.resource_names[a] != m0.resource_names[b])
    &&& (forall|j: int|
        0 <= j < ms.len() ==> !scan_accepts(
            m0,
            #[trigger] ms[j],
            mode,
            manufacturer,
            model,
            serial_number,
        ))
}

/// The handle of the instrument cached under `name`, if one is.
pub open spec fn cache_entry_handle(
    c: Seq<(Seq<char>, InstrumentView)>,
    name: Seq<char>,
) -> Option<ViSession> {
    match cache_index(c, name) {
        Some(k) => Some(c[k].1.handle),
        None => None,
    }
}

/// Every outcome the scan draws from a candidate is decided by the
/// instrument's answers alone: its identification line and whether it
/// answers at all.
pub proof fn lemma_scan_outcomes_depend_on_instrument(r1: ResourceModel, r2: ResourceModel)
    requires
        r1.idn == r2.idn,
        r1.responding == r2.responding,
    ensures
        fresh_idn_result(r1) == fresh_idn_result(r2),
        fresh_leftover(r1) == fresh_leftover(r2),
        second_look_result(r1) == second_look_result(r2),
{
    assert(scpi_response(r1, idn_query_bytes()) == scpi_response(r2, idn_query_bytes()));
    let st1 = SessionModel {
        parent: 0,
        resource: Seq::empty(),
        tx: Seq::empty(),
        pending: Seq::empty(),
        rx: fresh_leftover(r1),
    };
    crate::scpi::lemma_session_exchange_resource_depends(st1, r1, r2);
}

/// The model after a cached session's liveness check and eviction: the
/// identification exchange ran if the lock state let it, and the session was
/// closed either way.
pub open spec fn refresh_close_model(m: TransportModel, h: ViSession) -> TransportModel {
    (if idn_io_allowed(m, h) {
        idn_exchange_model(m, h)
    } else {
        m
    }).close_effect(h)
}

/// How a fresh session's identification exchange relates to the surrounding
/// model: the exchange is decided by the resource alone, and closing the
/// fresh session afterwards restores the model exactly.
pub proof fn lemma_fresh_session_exchange(
    m: TransportModel,
    root: ViSession,
    resource: Seq<char>,
    mode: AccessMode,
    h: ViSession,
)
    requires
        m.wf(),
        m.resources.dom().contains(resource),
        !m.is_live(h),
        spec_has_exclusive_lock(mode) ==> m.resources[resource].lock is Unlocked,
    ensures
        ({
            let mo = opened_model(m, root, resource, mode, h);
            let rs = m.resources[resource];
            let permitted = spec_has_exclusive_lock(mode) || rs.lock is Unlocked;
            &&& mo.sessions.dom().contains(h)
            &&& mo.wf()
            &&& mo.io_permitted(h) == permitted
            &&& (!permitted ==> mo.close_effect(h) == m)
            &&& (permitted ==> ({
                let mx = idn_exchange_model(mo, h);
                let expected_resources = if spec_has_exclusive_lock(mode) {
                    m.resources.insert(
                        resource,
                        (ResourceModel { lock: LockModel::Exclusive(h), ..rs }),
                    )
                } else {
                    m.resources
                };
                idn_exchange_result(mo, h) == fresh_idn_result(rs)
                    && mx.sessions.dom() == m.sessions.dom().insert(h)
                    && mx.sessions[h].resource == resource
                    && mx.sessions[h].parent == root
                    && mx.sessions[h].tx == idn_query_bytes()
                    && mx.sessions[h].pending == Seq::<u8>::empty()
                    && mx.sessions[h].rx == fresh_leftover(rs)
                    && mx.managers == m.managers
                    && mx.find_lists == m.find_lists
                    && mx.resource_names == m.resource_names
                    && mx.resources == expected_resources
                    && mx.wf()
                    && mx.close_effect(h) == m
            }))
        }),
{
    let mo = opened_model(m, root, resource, mode, h);
    let rs = m.resources[resource];
    let permitted = spec_has_exclusive_lock(mode) || rs.lock is Unlocked;
    let excl = spec_has_exclusive_lock(mode);

    // The opened model in both shapes.
    assert(mo.sessions == m.sessions.insert(h, fresh_session_state(root, resource)));
    assert(mo.sessions.dom() =~= m.sessions.dom().insert(h));
    if excl {
        assert(mo.resources == m.resources.insert(
            resource,
            (ResourceModel { lock: LockModel::Exclusive(h), ..rs }),
        ));
    } else {
        assert(mo.resources == m.resources);
    }
    assert(mo.resources.dom() =~= m.resources.dom());

    // Well-formedness of the opened model.
    assert forall|res: Seq<char>| mo.resources.dom().contains(res) implies lock_holders_live(
        (#[trigger] mo.resources[res]).lock,
        mo.sessions.dom(),
    ) by {
        assert(m.resources.dom().contains(res));
        if excl && res == resource {
        } else {
            assert(mo.resources[res] == m.resources[res]);
            assert(lock_holders_live(m.resources[res].lock, m.sessions.dom()));
            assert(m.sessions.dom().subset_of(mo.sessions.dom()));
        }
    }
    assert(mo.wf());

    // Permission of the fresh session under the lock it sees.
    assert(mo.sessions[h].resource == resource);
    if excl {
        assert(mo.io_permitted(h));
    } else {
        match rs.lock {
            LockModel::Unlocked => {
                assert(mo.io_permitted(h));
            },
            LockModel::Exclusive(owner) => {
                assert(m.sessions.dom().contains(owner));
                assert(owner != h);
                assert(!mo.io_permitted(h));
            },
            LockModel::Shared(key, holders) => {
                assert(holders.subset_of(m.sessions.dom()));
                assert(!holders.contains(h));
                assert(!mo.io_permitted(h));
            },
        }
    }

    // Closing the fresh session puts every lock back and removes it.
    if !permitted {
        let mc = mo.close_effect(h);
        assert(mc.sessions =~= m.sessions);
        assert forall|res: Seq<char>| #[trigger]
            m.resources.dom().contains(res) implies release_lock(mo.resources[res].lock, set![h])
            == m.resources[res].lock by {
            assert(!excl);
            assert(mo.resources[res] == m.resources[res]);
            lock_release_clean(m, res, h);
        }
        assert(mc.resources =~= m.resources);
        assert(mc =~~= m);
    }

    if permitted {
        // Unfold the write of the identification query on the clean session.
        let data = idn_query_bytes();
        let st0 = fresh_session_state(root, resource);
        let rs_used = mo.resources[resource];
        assert(rs_used.responding == rs.responding && rs_used.idn == rs.idn);
        assert(data[5] == 10u8);
        assert(forall|j: int| 0 <= j < 5 ==> data[j] != 10u8);
        crate::text::lemma_first_index_of_witness(data, 10u8, 5);
        assert(data.take(6) =~= data);
        assert(data.skip(6) =~= Seq::<u8>::empty());
        let line = st0.pending + data.take(6);
        assert(line =~= data);
        let resp = scpi_response(rs_used, data);
        assert(scpi_response(rs, data) == resp);
        let st1 = SessionModel {
            tx: st0.tx + data.take(6),
            pending: seq![],
            rx: st0.rx + resp,
            ..st0
        };
        assert(process_write(st0, rs_used, data) == process_write(st1, rs_used, data.skip(6)));
        assert(process_write(st1, rs_used, data.skip(6)) == st1);
        assert(st1.rx =~= resp);
        let mw = mo.write_effect(h, data);
        assert(mo.sessions[h] == st0);
        assert(mw.sessions[h] == st1);

        // The exchange result is the resource's own answer.
        assert(idn_exchange_result(mo, h) == fresh_idn_result(rs));

        // The exchanged model, field by field.
        let mx = idn_exchange_model(mo, h);
        assert(mx.sessions.dom() =~= m.sessions.dom().insert(h));
        assert(mx.sessions[h].resource == resource);
        assert(mx.sessions[h].parent == root);
        assert(st1.tx =~= idn_query_bytes());
        assert(st1.rx =~= resp);
        assert(mx.sessions[h].tx == idn_query_bytes());
        assert(mx.sessions[h].pending =~= Seq::<u8>::empty());
        assert(mx.sessions[h].rx == fresh_leftover(rs));
        assert(mx.resources == mo.resources);
        assert(mx.managers == m.managers);
        assert(mx.find_lists == m.find_lists);
        assert(mx.resource_names == m.resource_names);

        // Well-formedness carries over.
        crate::transport::lemma_write_effect_frame(mo, h, data);
        crate::transport::lemma_read_effect_frame(mw, h);
        assert(mx.wf());

        // Closing the fresh session afterwards restores the model exactly.
        let mc = mx.close_effect(h);
        assert(mx.sessions.dom().contains(h));
        assert(mc.sessions =~= m.sessions);
        assert forall|res: Seq<char>| #[trigger]
            m.resources.dom().contains(res) implies release_lock(mx.resources[res].lock, set![h])
            == m.resources[res].lock by {
            if excl && res == resource {
                assert(mx.resources[res].lock == LockModel::Exclusive(h));
                assert(release_lock(mx.resources[res].lock, set![h]) == LockModel::Unlocked);
                assert(m.resources[res].lock is Unlocked);
            } else {
                assert(mx.resources[res] == m.resources[res]);
                lock_release_clean(m, res, h);
            }
        }
        assert(mc.resources =~= m.resources);
        assert(mc =~~= m);
    }
}

/// Releasing a handle that holds nothing changes no lock: a fresh handle is
/// in no holder set of a well-formed model.
proof fn lock_release_clean(m: TransportModel, res: Seq<char>, h: ViSession)
    requires
        m.wf(),
        m.resources.dom().contains(res),
        !m.sessions.dom().contains(h),
    ensures
        release_lock(m.resources[res].lock, set![h]) == m.resources[res].lock,
{
    match m.resources[res].lock {
        LockModel::Unlocked => {},
        LockModel::Exclusive(owner) => {
            assert(m.sessions.dom().contains(owner));
            assert(!set![h].contains(owner));
        },
        LockModel::Shared(key, holders) => {
            assert(holders.subset_of(m.sessions.dom()));
            assert(holders.difference(set![h]) =~= holders);
            assert(!(holders =~= Set::<ViSession>::empty()));
        },
    }
}

/// What the open path does when the cache has no entry: the outcome of one
/// native open plus the identification capture, with the fresh instrument
/// cached on success and the session closed again on failure.
pub open spec fn fresh_open_post(
    root: ViSession,
    m: TransportModel,
    c0: Seq<(Seq<char>, InstrumentView)>,
    resource: Seq<char>,
    mode: AccessMode,
    rv: Result<InstrumentView, Error>,
    m1: TransportModel,
    c1: Seq<(Seq<char>, InstrumentView)>,
) -> bool {
    if resource.contains('\u{0}') {
        rv == Err::<InstrumentView, Error>(Error::InvalidString) && m1 == m && c1 == c0
    } else if !m.managers.contains(root) {
        (rv matches Err(Error::Visa(_))) && m1 == m && c1 == c0
    } else if !m.resources.dom().contains(resource) {
        rv == Err::<InstrumentView, Error>(Error::Visa(VisaError::ResourceNotFound)) && m1 == m
            && c1 == c0
    } else if spec_has_shared_lock(mode) {
        rv == Err::<InstrumentView, Error>(Error::Visa(VisaError::InvalidAccessMode)) && m1 == m
            && c1 == c0
    } else if spec_has_exclusive_lock(mode) && !(m.resources[resource].lock is Unlocked) {
        rv == Err::<InstrumentView, Error>(Error::Visa(VisaError::ResourceLocked)) && m1 == m && c1
            == c0
    } else if rv == Err::<InstrumentView, Error>(Error::Visa(VisaError::Allocation)) {
        // The transport had no fresh session handle left to give.
        m1 == m && c1 == c0
    } else if !(spec_has_exclusive_lock(mode) || m.resources[resource].lock is Unlocked) {
        rv == Err::<InstrumentView, Error>(Error::Visa(VisaError::ResourceLocked)) && m1 == m && c1
            == c0
    } else {
        let rs = m.resources[resource];
        match fresh_idn_result(rs) {
            Ok(v) => match rv {
                Ok(iv) => {
                    let expected_resources = if spec_has_exclusive_lock(mode) {
                        m.resources.insert(
                            resource,
                            (ResourceModel { lock: LockModel::Exclusive(iv.handle), ..rs }),
                        )
                    } else {
                        m.resources
                    };
                    iv.identification == v && !m.is_live(iv.handle)
                        && m1.sessions.dom() == m.sessions.dom().insert(iv.handle)
                        && m1.sessions[iv.handle].resource == resource
                        && m1.sessions[iv.handle].parent == root
                        && m1.sessions[iv.handle].tx == idn_query_bytes()
                        && m1.sessions[iv.handle].pending == Seq::<u8>::empty()
                        && m1.sessions[iv.handle].rx == fresh_leftover(rs)
                        && m1.managers == m.managers
                        && m1.find_lists == m.find_lists
                        && m1.resource_names == m.resource_names
                        && m1.resources == expected_resources
                        && c1 == c0.push((resource, iv))
                },
                Err(_) => false,
            },
            Err(e) => rv == Err::<InstrumentView, Error>(e) && m1 == m && c1 == c0,
        }
    }
}

/// What `open` does: a cached, live entry is shared as it is with a refreshed
/// identification and no new native session; a cached, dead entry is evicted
/// and closed, and the fresh path runs; an uncached identifier takes the
/// fresh path directly.
pub open spec fn open_post(
    root: ViSession,
    m0: TransportModel,
    c0: Seq<(Seq<char>, InstrumentView)>,
    resource: Seq<char>,
    mode: AccessMode,
    rv: Result<InstrumentView, Error>,
    m1: TransportModel,
    c1: Seq<(Seq<char>, InstrumentView)>,
) -> bool {
    match cache_index(c0, resource) {
        Some(i) => {
            let h0 = c0[i].1.handle;
            if idn_refresh_ok(m0, h0) {
                &&& m1 == idn_exchange_model(m0, h0)
                &&& match idn_exchange_result(m0, h0) {
                    Ok(v) => rv == Ok::<InstrumentView, Error>(
                        (InstrumentView { handle: h0, identification: v }),
                    ) && c1 == c0.remove(i).push(
                        (c0[i].0, (InstrumentView { handle: h0, identification: v })),
                    ),
                    Err(_) => false,
                }
            } else {
                fresh_open_post(
                    root,
                    refresh_close_model(m0, h0),
                    c0.remove(i),
                    resource,
                    mode,
                    rv,
                    m1,
                    c1,
                )
            }
        },
        None => fresh_open_post(root, m0, c0, resource, mode, rv, m1, c1),
    }
}

/// Everything but the discovery find-lists is unchanged: what a completed
/// discovery sweep leaves behind.
pub open spec fn same_but_find_lists(m0: TransportModel, m1: TransportModel) -> bool {
    &&& m1.managers == m0.managers
    &&& m1.sessions == m0.sessions
    &&& m1.resources == m0.resources
    &&& m1.resource_names == m0.resource_names
}

impl ResourceManager {
    /// Well-formedness: the cache keeps at most one entry per identifier.
    pub open spec fn wf(&self) -> bool {
        cache_keys_distinct(self@.cache)
    }

    /// Opens the default-manager context and starts with an empty cache.
    pub fn new<T: Transport>(t: &mut T) -> (r: Result<ResourceManager, Error>)
        ensures
            match r {
                Ok(rm) => rm.wf() && rm@.cache =~= Seq::<(Seq<char>, InstrumentView)>::empty()
                    && open_default_manager_post(old(t).model(), Ok(rm@.root), final(t).model()),
                Err(Error::Visa(e)) => open_default_manager_post(
                    old(t).model(),
                    Err(e),
                    final(t).model(),
                ),
                Err(_) => false,
            },
    {
        match t.open_default_manager() {
            Ok(h) => Ok(
                ResourceManager { inner: Session::from_vi_session(h), instruments: Vec::new() },
            ),
            Err(e) => Err(Error::Visa(e)),
        }
    }

    /// Wraps an already-open default-manager handle, with an empty cache;
    /// the duty to close the handle passes to the manager.
    pub fn from_vi_session(session: ViSession) -> (r: ResourceManager)
        ensures
            r.wf(),
            r@.root == session,
            r@.cache =~= Seq::<(Seq<char>, InstrumentView)>::empty(),
    {
        ResourceManager { inner: Session::from_vi_session(session), instruments: Vec::new() }
    }

    /// The root handle, read-only, for passing into transport calls.
    pub fn as_vi_session(&self) -> (r: ViSession)
        ensures
            r == self@.root,
    {
        self.inner.as_vi_session()
    }

    /// The index of the cache entry for `resource`, if one exists.
    fn cache_lookup(&self, resource: &String) -> (r: Option<usize>)
        ensures
            match r {
                Some(i) => cache_index(self@.cache, resource@) == Some(i as int),
                None => cache_index(self@.cache, resource@) is None,
            },
    {
        let n = self.instruments.len();
        let mut i: usize = 0;
        while i < n
            invariant
                0 <= i <= n,
                n == self@.cache.len(),
                forall|j: int| 0 <= j < i ==> (#[trigger] self@.cache[j]).0 != resource@,
            decreases n - i,
        {
            if self.instruments[i].0 == *resource {
                proof {
                    lemma_cache_index_witness(self@.cache, resource@, i as int);
                }
                return Some(i);
            }
            i = i + 1;
        }
        proof {
            lemma_cache_index_absent(self@.cache, resource@);
        }
        None
    }

    /// Issues a pattern-matching search and walks the whole find-list: the
    /// discoverable identifiers matching `expression`, in discovery order.
    pub fn get_resources_with_expression<T: Transport>(&self, t: &mut T, expression: &str) -> (r:
        Result<Vec<String>, Error>)
        ensures
            ({
                let m0 = old(t).model();
                let m1 = final(t).model();
                &&& (m0.wf() ==> m1.wf())
                &&& if expression@.contains('\u{0}') {
                    // A search expression must be a terminated string; one
                    // with an interior NUL is rejected before anything is
                    // asked of the transport.
                    r == Err::<Vec<String>, Error>(Error::InvalidString) && m1 == m0
                } else if !m0.managers.contains(self@.root) {
                    (r matches Err(Error::Visa(_))) && m1 == m0
                } else if !crate::expr::expr_valid(expression@) {
                    r == Err::<Vec<String>, Error>(Error::Visa(VisaError::InvalidExpression)) && m1
                        == m0
                } else {
                    match r {
                        Ok(v) => v.deep_view() == m0.matching_resources(expression@)
                            && same_but_find_lists(m0, m1),
                        Err(e) => e == Error::Visa(VisaError::Allocation) && m1 == m0
                            && m0.matching_resources(expression@).len() > 0,
                    }
                }
            }),
    {
        let ghost m0 = t.model();
        match find_char(expression, '\u{0}') {
            Some(_) => {
                proof {
                    crate::text::lemma_first_index_of(expression@, '\u{0}');
                }
                return Err(Error::InvalidString);
            },
            None => {
                proof {
                    crate::text::lemma_first_index_of(expression@, '\u{0}');
                    assert(!expression@.contains('\u{0}')) by {
                        if expression@.contains('\u{0}') {
                            let i = choose|i: int|
                                0 <= i < expression@.len() && expression@[i] == '\u{0}';
                            assert(false);
                        }
                    }
                }
            },
        }
        let root = self.inner.as_vi_session();
        let fl = match t.find_first(root, expression) {
            Ok(fl) => fl,
            Err(e) => {
                return Err(Error::Visa(e));
            },
        };
        let ghost ms = m0.matching_resources(expression@);
        let mut resources: Vec<String> = Vec::new();
        if fl.count == 0 {
            proof {
                assert(resources.deep_view() =~= ms);
            }
            return Ok(resources);
        }
        resources.push(fl.first);
        proof {
            assert(resources.deep_view() =~= ms.take(1));
        }
        let mut i: u32 = 1;
        while i < fl.count
            invariant
                1 <= i <= fl.count,
                fl.count == ms.len(),
                ms == m0.matching_resources(expression@),
                m0.managers.contains(self@.root),
                crate::expr::expr_valid(expression@),
                resources.deep_view() == ms.take(i as int),
                t.model() == (TransportModel {
                    find_lists: m0.find_lists.insert(fl.handle, ms.skip(i as int)),
                    ..m0
                }),
            decreases fl.count - i,
        {
            let ghost m_cur = t.model();
            match t.find_next(fl.handle) {
                Ok(s) => {
                    proof {
                        assert(m_cur.find_lists[fl.handle] == ms.skip(i as int));
                        assert(ms.skip(i as int)[0] == ms[i as int]);
                        assert(ms.skip(i as int).skip(1) =~= ms.skip(i + 1));
                        assert(m_cur.find_lists.insert(fl.handle, ms.skip(i + 1))
                            =~= m0.find_lists.insert(fl.handle, ms.skip(i + 1)));
                    }
                    let ghost old_vec = resources@;
                    let ghost old_dv = resources.deep_view();
                    let ghost spushed = s;
                    resources.push(s);
                    proof {
                        assert(resources@ == old_vec.push(spushed));
                        assert(old_dv.len() == i);
                        assert(old_vec.len() == i);
                        assert(resources@.len() == i + 1);
                        assert forall|j: int| 0 <= j < i + 1 implies resources.deep_view()[j]
                            == ms.take(i + 1)[j] by {
                            if j < i {
                                assert(resources@[j] == old_vec[j]);
                                assert(old_dv[j] == ms.take(i as int)[j]);
                            } else {
                                assert(resources@[j] == spushed);
                            }
                        }
                        assert(resources.deep_view() =~= ms.take(i + 1));
                    }
                    i = i + 1;
                },
                Err(e) => {
                    proof {
                        assert(false);
                    }
                    return Err(Error::Visa(e));
                },
            }
        }
        proof {
            assert(ms.take(ms.len() as int) =~= ms);
        }
        Ok(resources)
    }

    /// The discoverable identifiers within a scope: everything for `Global`,
    /// only the local transports for `Local`.
    pub fn get_resources_with_scope<T: Transport>(&self, t: &mut T, scope: Scope) -> (r: Result<
        Vec<String>,
        Error,
    >)
        ensures
            ({
                let m0 = old(t).model();
                let m1 = final(t).model();
                &&& (m0.wf() ==> m1.wf())
                &&& if !m0.managers.contains(self@.root) {
                    (r matches Err(Error::Visa(_))) && m1 == m0
                } else if !crate::expr::expr_valid(scope_expression(scope)) {
                    r == Err::<Vec<String>, Error>(Error::Visa(VisaError::InvalidExpression)) && m1
                        == m0
                } else {
                    match r {
                        Ok(v) => v.deep_view() == m0.matching_resources(scope_expression(scope))
                            && same_but_find_lists(m0, m1),
                        Err(e) => e == Error::Visa(VisaError::Allocation) && m1 == m0
                            && m0.matching_resources(scope_expression(scope)).len() > 0,
                    }
                }
            }),
    {
        proof {
            reveal_strlit("?*INSTR");
            reveal_strlit("(USB|GPIB|VXI|ASRL|TCPIP?::169.254)?*INSTR");
            assert(!scope_expression(scope).contains('\u{0}')) by {
                if scope_expression(scope).contains('\u{0}') {
                    let i = choose|i: int|
                        0 <= i < scope_expression(scope).len() && scope_expression(scope)[i]
                            == '\u{0}';
                    assert(false);
                }
            }
        }
        match scope {
            Scope::Global => self.get_resources_with_expression(t, "?*INSTR"),
            Scope::Local => self.get_resources_with_expression(
                t,
                "(USB|GPIB|VXI|ASRL|TCPIP?::169.254)?*INSTR",
            ),
        }
    }

    /// The fresh-open path: one native open, the identification capture, and
    /// the cache insertion; on failure the fresh session is closed again.
    fn open_uncached<T: Transport>(
        &mut self,
        t: &mut T,
        resource: &str,
        access_mode: AccessMode,
        timeout_ms: u32,
    ) -> (r: Result<Instrument, Error>)
        requires
            old(self).wf(),
            old(t).model().wf(),
            cache_index(old(self)@.cache, resource@) is None,
        ensures
            final(self).wf(),
            final(t).model().wf(),
            final(self)@.root == old(self)@.root,
            fresh_open_post(
                old(self)@.root,
                old(t).model(),
                old(self)@.cache,
                resource@,
                access_mode,
                (match r {
                    Ok(i) => Ok::<InstrumentView, Error>(i@),
                    Err(e) => Err::<InstrumentView, Error>(e),
                }),
                final(t).model(),
                final(self)@.cache,
            ),
    {
        let ghost m0 = t.model();
        let ghost c0 = self@.cache;
        // A resource string with an interior NUL cannot name anything where a
        // terminated string is required.
        match find_char(resource, '\u{0}') {
            Some(_) => {
                proof {
                    crate::text::lemma_first_index_of(resource@, '\u{0}');
                }
                return Err(Error::InvalidString);
            },
            None => {
                proof {
                    crate::text::lemma_first_index_of(resource@, '\u{0}');
                    assert(!resource@.contains('\u{0}')) by {
                        if resource@.contains('\u{0}') {
                            let i = choose|i: int|
                                0 <= i < resource@.len() && resource@[i] == '\u{0}';
                            assert(false);
                        }
                    }
                }
            },
        }
        let root = self.inner.as_vi_session();
        let h = match t.open_session(root, resource, access_mode, timeout_ms) {
            Ok(h) => h,
            Err(e) => {
                return Err(Error::Visa(e));
            },
        };
        proof {
            assert(t.model() == opened_model(m0, self@.root, resource@, access_mode, h));
            lemma_fresh_session_exchange(m0, self@.root, resource@, access_mode, h);
        }
        match Instrument::new(Session::from_vi_session(h), t) {
            Ok(inst) => {
                let shared = inst.share();
                let key = resource.to_owned();
                let ghost v1 = self.instruments@;
                let ghost keyg = key;
                let ghost instg = inst;
                self.instruments.push((key, inst));
                proof {
                    lemma_cache_view_push(v1, (keyg, instg));
                    assert(self@.cache == c0.push((resource@, instg@)));
                    lemma_cache_index(c0, resource@);
                    assert forall|i: int, j: int|
                        0 <= i < j < self@.cache.len() implies (#[trigger] self@.cache[i]).0 != (
                    #[trigger] self@.cache[j]).0 by {
                        if j == self@.cache.len() - 1 {
                            assert(self@.cache[i] == c0[i]);
                        } else {
                            assert(self@.cache[i] == c0[i]);
                            assert(self@.cache[j] == c0[j]);
                        }
                    }
                }
                Ok(shared)
            },
            Err(e) => Err(e),
        }
    }

    /// Opens a resource, going through the cache: a cached, live instrument
    /// is shared as it is, with no new native session; a cached instrument
    /// that no longer answers an identification query is evicted, its session
    /// closed, and a fresh session opened in its place.
    pub fn open<T: Transport>(
        &mut self,
        t: &mut T,
        resource: &str,
        access_mode: AccessMode,
        timeout_ms: u32,
    ) -> (r: Result<Instrument, Error>)
        requires
            old(self).wf(),
            old(t).model().wf(),
        ensures
            final(self).wf(),
            final(t).model().wf(),
            final(self)@.root == old(self)@.root,
            open_post(
                old(self)@.root,
                old(t).model(),
                old(self)@.cache,
                resource@,
                access_mode,
                (match r {
                    Ok(i) => Ok::<InstrumentView, Error>(i@),
                    Err(e) => Err::<InstrumentView, Error>(e),
                }),
                final(t).model(),
                final(self)@.cache,
            ),
    {
        let ghost m0 = t.model();
        let ghost c0 = self@.cache;
        let resource_owned = resource.to_owned();
        match self.cache_lookup(&resource_owned) {
            Some(i) => {
                proof {
                    lemma_cache_index(c0, resource@);
                }
                let ghost v0 = self.instruments@;
                let (cache_key, mut inst) = self.instruments.remove(i);
                let ghost keyg = cache_key;
                let ghost instg = inst;
                proof {
                    lemma_cache_view_remove(v0, i as int);
                    assert(self@.cache == c0.remove(i as int));
                    assert(keyg@ == c0[i as int].0 && instg@ == c0[i as int].1);
                }
                let ghost h0 = instg@.handle;
                match inst.query_identification(t) {
                    Ok(_) => {
                        let shared = inst.share();
                        let ghost v1 = self.instruments@;
                        let ghost keyg2 = cache_key;
                        let ghost instg2 = inst;
                        self.instruments.push((cache_key, inst));
                        proof {
                            lemma_cache_view_push(v1, (keyg2, instg2));
                            assert(self@.cache == c0.remove(i as int).push(
                                (c0[i as int].0, instg2@),
                            ));
                            assert forall|a: int, b: int|
                                0 <= a < b < self@.cache.len() implies (
                            #[trigger] self@.cache[a]).0 != (#[trigger] self@.cache[b]).0 by {
                                lemma_remove_keeps_distinct(c0, i as int);
                                if b == self@.cache.len() - 1 {
                                    assert(self@.cache[a] == c0.remove(i as int)[a]);
                                    assert(cache_key_absent_after_remove(c0, i as int, resource@));
                                } else {
                                    assert(self@.cache[a] == c0.remove(i as int)[a]);
                                    assert(self@.cache[b] == c0.remove(i as int)[b]);
                                }
                            }
                            crate::transport::lemma_write_effect_frame(m0, h0, idn_query_bytes());
                            crate::transport::lemma_read_effect_frame(
                                m0.write_effect(h0, idn_query_bytes()),
                                h0,
                            );
                        }
                        Ok(shared)
                    },
                    Err(_) => {
                        let ghost m_mid = t.model();
                        let _ = t.close(inst.as_vi_session());
                        proof {
                            if m0.sessions.dom().contains(h0) && m0.io_permitted(h0) {
                                assert(m_mid == idn_exchange_model(m0, h0));
                                crate::transport::lemma_write_effect_frame(
                                    m0,
                                    h0,
                                    idn_query_bytes(),
                                );
                                crate::transport::lemma_read_effect_frame(
                                    m0.write_effect(h0, idn_query_bytes()),
                                    h0,
                                );
                                crate::transport::lemma_close_effect_wf(m_mid, h0);
                            } else {
                                assert(m_mid == m0);
                                crate::transport::lemma_close_effect_wf(m0, h0);
                            }
                            assert(t.model() == refresh_close_model(m0, h0));
                            lemma_remove_keeps_distinct(c0, i as int);
                            assert(cache_key_absent_after_remove(c0, i as int, resource@));
                            lemma_cache_index_absent(c0.remove(i as int), resource@);
                        }
                        self.open_uncached(t, resource, access_mode, timeout_ms)
                    },
                }
            },
            None => self.open_uncached(t, resource, access_mode, timeout_ms),
        }
    }

    /// Scans the discoverable resources in scope order, opening each and
    /// querying its identification, and returns the first instrument whose
    /// manufacturer, model and serial number each match the corresponding
    /// pattern in full. Candidates that fail to open or to answer are
    /// skipped — their failures never surface to the caller — and a scan
    /// that exhausts every candidate finds no instrument.
    #[verifier::loop_isolation(false)]
    pub fn open_with_identification<T: Transport>(
        &mut self,
        t: &mut T,
        manufacturer: &str,
        model: &str,
        serial_number: &str,
        access_mode: AccessMode,
        scope: Scope,
        timeout_ms: u32,
    ) -> (r: Result<Instrument, Error>)
        requires
            old(self).wf(),
            old(t).model().wf(),
        ensures
            final(self).wf(),
            final(t).model().wf(),
            final(self)@.root == old(self)@.root,
            match r {
                Ok(inst) => {
                    &&& regex_pattern_valid(spec_anchored(manufacturer@))
                    &&& regex_pattern_valid(spec_anchored(model@))
                    &&& regex_pattern_valid(spec_anchored(serial_number@))
                    &&& regex_is_match(
                        spec_anchored(manufacturer@),
                        inst@.identification.manufacturer,
                    )
                    &&& regex_is_match(spec_anchored(model@), inst@.identification.model)
                    &&& regex_is_match(
                        spec_anchored(serial_number@),
                        inst@.identification.serial_number,
                    )
                    // The instrument sits on a session that is live in the
                    // final state, cached under one of the identifiers the
                    // scoped discovery surfaced.
                    &&& final(t).model().sessions.dom().contains(inst@.handle)
                    &&& exists|j: int|
                        #![trigger old(t).model().matching_resources(scope_expression(scope))[j]]
                        {
                            let ms = old(t).model().matching_resources(scope_expression(scope));
                            0 <= j < ms.len() && cache_entry_handle(final(self)@.cache, ms[j])
                                == Some(inst@.handle)
                        }
                },
                Err(e) => match e {
                    Error::InstrumentNotFound => true,
                    Error::InvalidString => true,
                    // Transport failures surface only from the discovery
                    // step, never from a skipped candidate.
                    Error::Visa(ve) => !old(t).model().managers.contains(old(self)@.root) || (ve
                        == VisaError::Allocation && old(t).model().matching_resources(
                        scope_expression(scope),
                    ).len() > 0),
                    _ => false,
                },
            },
            // A scan over an empty scoped discovery finds no instrument.
            (old(t).model().managers.contains(old(self)@.root) && crate::expr::expr_valid(
                scope_expression(scope),
            ) && old(t).model().matching_resources(scope_expression(scope)).len() == 0 ==> r
                == Err::<Instrument, Error>(Error::InstrumentNotFound)),
            // Not-found propagation: a scan that starts with an empty cache
            // and in which no discoverable candidate is accepted finds no
            // instrument — unless the transport had no handle left for the
            // search itself.
            (old(self)@.cache.len() == 0 && scan_is_barren(
                old(t).model(),
                old(self)@.root,
                scope,
                access_mode,
                spec_anchored(manufacturer@),
                spec_anchored(model@),
                spec_anchored(serial_number@),
            ) ==> (r == Err::<Instrument, Error>(Error::InstrumentNotFound) || (r == Err::<
                Instrument,
                Error,
            >(Error::Visa(VisaError::Allocation)) && old(t).model().matching_resources(
                scope_expression(scope),
            ).len() > 0))),
    {
        let ghost m0 = t.model();
        let ghost ms = m0.matching_resources(scope_expression(scope));
        let ghost barren = old(self)@.cache.len() == 0 && scan_is_barren(
            m0,
            old(self)@.root,
            scope,
            access_mode,
            spec_anchored(manufacturer@),
            spec_anchored(model@),
            spec_anchored(serial_number@),
        );
        proof {
            crate::laws::lemma_scope_expressions_valid();
            if barren {
                assert forall|a: int, b: int| 0 <= a < b < ms.len() implies ms[a] != ms[b] by {
                    crate::text::lemma_filter_distinct(
                        m0.resource_names,
                        |nm: Seq<char>| expr_matches(scope_expression(scope), nm),
                        a,
                        b,
                    );
                }
            }
        }
        let resources = match self.get_resources_with_scope(t, scope) {
            Ok(v) => v,
            Err(e) => {
                return Err(e);
            },
        };
        let n = resources.len();
        let mut i: usize = 0;
        while i < n
            invariant
                0 <= i <= n,
                self.wf(),
                t.model().wf(),
                self@.root == old(self)@.root,
                barren ==> {
                    &&& forall|a: int|
                        0 <= a < self@.cache.len() ==> exists|j: int|
                            0 <= j < i && (#[trigger] self@.cache[a]).0 == ms[j]
                    &&& t.model().resources.dom() =~= m0.resources.dom()
                    &&& forall|nm: Seq<char>|
                        m0.resources.dom().contains(nm) ==> ((
                        #[trigger] t.model().resources[nm]).idn == m0.resources[nm].idn
                            && t.model().resources[nm].responding == m0.resources[nm].responding)
                },
            decreases n - i,
        {
            let ghost m_k = t.model();
            let ghost c_k = self@.cache;
            proof {
                if barren {
                    // No cache entry sits under this candidate: every cached
                    // key is an earlier, distinct candidate.
                    lemma_cache_index(c_k, ms[i as int]);
                    match cache_index(c_k, ms[i as int]) {
                        Some(k) => {
                            assert(exists|j: int|
                                0 <= j < i && #[trigger] c_k[k].0 == ms[j]) by {
                                assert(c_k[k] == c_k[k]);
                            }
                            let j = choose|j: int| 0 <= j < i && c_k[k].0 == ms[j];
                            assert(ms[j] == ms[i as int]);
                            assert(false);
                        },
                        None => {},
                    }
                }
            }
            match self.open(t, resources[i].as_str(), access_mode, timeout_ms) {
                Ok(mut instrument) => {
                    let ghost m_opened = t.model();
                    let ghost c_opened = self@.cache;
                    let ghost h = instrument@.handle;
                    proof {
                        if barren {
                            let rsk = m_k.resources[ms[i as int]];
                            let rs0 = m0.resources[ms[i as int]];
                            lemma_scan_outcomes_depend_on_instrument(rsk, rs0);
                            assert(m_opened.sessions[h].pending == Seq::<u8>::empty());
                            assert(m_opened.sessions[h].rx == fresh_leftover(rsk));
                            assert(m_opened.io_permitted(h)) by {
                                if spec_has_exclusive_lock(access_mode) {
                                    assert(m_opened.resources[ms[i as int]].lock
                                        == LockModel::Exclusive(h));
                                } else {
                                    assert(m_opened.resources == m_k.resources);
                                    assert(rsk.lock is Unlocked);
                                }
                            }
                        }
                    }
                    match instrument.query_identification(t) {
                        Ok(identification) => {
                            proof {
                                assert(m_opened.sessions.dom().contains(h));
                                crate::transport::lemma_write_effect_frame(
                                    m_opened,
                                    h,
                                    idn_query_bytes(),
                                );
                                crate::transport::lemma_read_effect_frame(
                                    m_opened.write_effect(h, idn_query_bytes()),
                                    h,
                                );
                                if barren {
                                    let rsk = m_k.resources[ms[i as int]];
                                    let rs0 = m0.resources[ms[i as int]];
                                    let rs_op = m_opened.resources[ms[i as int]];
                                    crate::scpi::lemma_idn_exchange_is_session_local(m_opened, h);
                                    let canonical = SessionModel {
                                        parent: 0,
                                        resource: Seq::empty(),
                                        tx: Seq::empty(),
                                        pending: Seq::empty(),
                                        rx: fresh_leftover(rs0),
                                    };
                                    lemma_scan_outcomes_depend_on_instrument(rsk, rs0);
                                    assert(rs_op.idn == rs0.idn && rs_op.responding
                                        == rs0.responding);
                                    crate::scpi::lemma_session_exchange_streams(
                                        m_opened.sessions[h],
                                        canonical,
                                        rs_op,
                                    );
                                    crate::scpi::lemma_session_exchange_resource_depends(
                                        canonical,
                                        rs_op,
                                        rs0,
                                    );
                                    assert(identification@ == second_look_result(rs0)->Ok_0);
                                }
                            }
                            let manufacturer_matches = match matches_full(
                                manufacturer,
                                identification.manufacturer.as_str(),
                            ) {
                                Ok(b) => b,
                                Err(e) => {
                                    return Err(e);
                                },
                            };
                            let model_matches = match matches_full(
                                model,
                                identification.model.as_str(),
                            ) {
                                Ok(b) => b,
                                Err(e) => {
                                    return Err(e);
                                },
                            };
                            let serial_matches = match matches_full(
                                serial_number,
                                identification.serial_number.as_str(),
                            ) {
                                Ok(b) => b,
                                Err(e) => {
                                    return Err(e);
                                },
                            };
                            if manufacturer_matches && model_matches && serial_matches {
                                proof {
                                    if barren {
                                        // Under a barren scan no candidate is
                                        // accepted, so this branch is
                                        // unreachable.
                                        let rs0 = m0.resources[ms[i as int]];
                                        assert(scan_accepts(
                                            m0,
                                            ms[i as int],
                                            access_mode,
                                            spec_anchored(manufacturer@),
                                            spec_anchored(model@),
                                            spec_anchored(serial_number@),
                                        ));
                                        assert(false);
                                    }
                                    // The returned instrument is cached under
                                    // this candidate's identifier, as the
                                    // last entry, and its session is live.
                                    assert(resources.deep_view()[i as int] == resources@[
                                        i as int]@);
                                    lemma_cache_index(c_k, ms[i as int]);
                                    match cache_index(c_k, ms[i as int]) {
                                        Some(k0) => {
                                            assert(c_k[k0].0 == ms[i as int]);
                                        },
                                        None => {},
                                    }
                                    assert(c_opened.len() > 0);
                                    assert(c_opened[c_opened.len() - 1].0 == ms[i as int]);
                                    assert(c_opened[c_opened.len() - 1].1.handle == h);
                                    assert(cache_keys_distinct(c_opened));
                                    assert forall|a: int|
                                        0 <= a < c_opened.len() - 1 implies (
                                    #[trigger] c_opened[a]).0 != ms[i as int] by {
                                        assert(c_opened[a].0 != c_opened[c_opened.len() - 1].0);
                                    }
                                    lemma_cache_index_witness(
                                        c_opened,
                                        ms[i as int],
                                        c_opened.len() - 1,
                                    );
                                    assert(cache_entry_handle(self@.cache, ms[i as int]) == Some(
                                        h,
                                    ));
                                    assert(t.model().sessions.dom().contains(h));
                                }
                                return Ok(instrument);
                            }
                        },
                        Err(_) => {
                            proof {
                                if m_opened.sessions.dom().contains(h) && m_opened.io_permitted(
                                    h,
                                ) {
                                    crate::transport::lemma_write_effect_frame(
                                        m_opened,
                                        h,
                                        idn_query_bytes(),
                                    );
                                    crate::transport::lemma_read_effect_frame(
                                        m_opened.write_effect(h, idn_query_bytes()),
                                        h,
                                    );
                                }
                            }
                        },
                    }
                },
                Err(_) => {},
            }
            i = i + 1;
        }
        Err(Error::InstrumentNotFound)
    }

    /// Removes the cached instrument for `resource` and closes its session;
    /// an identifier with no cache entry is not found.
    pub fn close<T: Transport>(&mut self, t: &mut T, resource: &str) -> (r: Result<(), Error>)
        requires
            old(self).wf(),
            old(t).model().wf(),
        ensures
            final(self).wf(),
            final(t).model().wf(),
            final(self)@.root == old(self)@.root,
            ({
                let m0 = old(t).model();
                let c0 = old(self)@.cache;
                match cache_index(c0, resource@) {
                    Some(i) => final(self)@.cache == c0.remove(i) && (match r {
                        Ok(()) => close_post(
                            m0,
                            c0[i].1.handle,
                            Ok(Status::OperationCompleted),
                            final(t).model(),
                        ),
                        Err(Error::Visa(e)) => close_post(m0, c0[i].1.handle, Err(e), final(t).model()),
                        Err(_) => false,
                    }),
                    None => r == Err::<(), Error>(Error::InstrumentNotFound) && final(t).model()
                        == m0 && final(self)@.cache == c0,
                }
            }),
    {
        let ghost m0 = t.model();
        let ghost c0 = self@.cache;
        let resource_owned = resource.to_owned();
        match self.cache_lookup(&resource_owned) {
            Some(i) => {
                proof {
                    lemma_cache_index(c0, resource@);
                }
                let ghost v0 = self.instruments@;
                let (cache_key, inst) = self.instruments.remove(i);
                proof {
                    lemma_cache_view_remove(v0, i as int);
                    lemma_remove_keeps_distinct(c0, i as int);
                    crate::transport::lemma_close_effect_wf(m0, c0[i as int].1.handle);
                }
                match t.close(inst.as_vi_session()) {
                    Ok(_) => Ok(()),
                    Err(e) => Err(Error::Visa(e)),
                }
            },
            None => Err(Error::InstrumentNotFound),
        }
    }

    /// Closes the root session, which transitively closes every session
    /// opened under it and invalidates the manager; the cache is emptied.
    pub fn close_all<T: Transport>(&mut self, t: &mut T) -> (r: Result<(), Error>)
        requires
            old(t).model().wf(),
        ensures
            final(self).wf(),
            final(t).model().wf(),
            final(self)@.root == old(self)@.root,
            final(self)@.cache =~= Seq::<(Seq<char>, InstrumentView)>::empty(),
            match r {
                Ok(()) => close_post(
                    old(t).model(),
                    old(self)@.root,
                    Ok(Status::OperationCompleted),
                    final(t).model(),
                ),
                Err(Error::Visa(e)) => close_post(
                    old(t).model(),
                    old(self)@.root,
                    Err(e),
                    final(t).model(),
                ),
                Err(_) => false,
            },
    {
        proof {
            crate::transport::lemma_close_effect_wf(t.model(), self@.root);
        }
        self.instruments = Vec::new();
        match t.close(self.inner.as_vi_session()) {
            Ok(_) => Ok(()),
            Err(e) => Err(Error::Visa(e)),
        }
    }
}

/// After the entry at `i` is removed from a distinct-keyed cache, its key is
/// nowhere.
pub open spec fn cache_key_absent_after_remove(
    c: Seq<(Seq<char>, InstrumentView)>,
    i: int,
    r: Seq<char>,
) -> bool {
    forall|j: int| 0 <= j < c.remove(i).len() ==> (#[trigger] c.remove(i)[j]).0 != r
}

/// Removing an entry keeps the keys distinct, and takes the removed key out
/// entirely.
pub proof fn lemma_remove_keeps_distinct(c: Seq<(Seq<char>, InstrumentView)>, i: int)
    requires
        cache_keys_distinct(c),
        0 <= i < c.len(),
    ensures
        cache_keys_distinct(c.remove(i)),
        cache_key_absent_after_remove(c, i, c[i].0),
{
    let d = c.remove(i);
    assert forall|a: int, b: int| 0 <= a < b < d.len() implies (#[trigger] d[a]).0 != (
    #[trigger] d[b]).0 by {
        let a0 = if a < i {
            a
        } else {
            a + 1
        };
        let b0 = if b < i {
            b
        } else {
            b + 1
        };
        assert(d[a] == c[a0]);
        assert(d[b] == c[b0]);
    }
    assert forall|j: int| 0 <= j < d.len() implies (#[trigger] d[j]).0 != c[i].0 by {
        let j0 = if j < i {
            j
        } else {
            j + 1
        };
        assert(d[j] == c[j0]);
    }
}

} // verus!
