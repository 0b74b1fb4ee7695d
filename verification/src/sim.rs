//! An in-memory transport: a rack of simulated instruments behind the
//! capability interface, verified against the same model as every other
//! implementation would be.
//!
//! Handles are slots in one table, so a fresh handle is never a live one.
//! Each resource carries the identification line its instrument answers with
//! and a switch for whether it currently answers at all, which lets a test
//! bench stage a dead instrument.

use vstd::prelude::*;
use vstd::slice::slice_to_vec;
use vstd::string::StrSliceExecFns;
use vstd::string::StringExecFns;
use crate::error::{Status, VisaError};
use crate::expr::{check_expression, expr_matches, matches_expression};
use crate::mode::{AccessMode, FlushMode};
use crate::session::ViSession;
use crate::text::{find_byte, first_index_of, lemma_filter_distinct, lemma_filter_subset};
use crate::transport::{
    close_post, find_first_post, find_next_post, flush_post, lock_post, open_default_manager_post,
    open_session_post, process_write, read_amount, read_chunk_post, release_lock, scpi_response,
    unlock_post, write_chunk_post, FindList, LockModel, ResourceModel, SessionModel, Transport,
    TransportModel,
};

verus! {

struct SimSession {
    parent: ViSession,
    resource: String,
    tx: Vec<u8>,
    pending: Vec<u8>,
    rx: Vec<u8>,
}

enum SimLock {
    Unlocked,
    Exclusive(ViSession),
    Shared(String, Vec<ViSession>),
}

struct SimResource {
    name: String,
    idn: Vec<u8>,
    responding: bool,
    lock: SimLock,
}

enum SimObject {
    Manager,
    Session(SimSession),
    FindList(Vec<String>),
}

/// The in-memory transport: a handle table and the simulated resources.
pub struct SimTransport {
    objects: Vec<Option<SimObject>>,
    resources: Vec<SimResource>,
}

spec fn sim_session_view(s: SimSession) -> SessionModel {
    SessionModel {
        parent: s.parent,
        resource: s.resource@,
        tx: s.tx@,
        pending: s.pending@,
        rx: s.rx@,
    }
}

spec fn sim_lock_view(l: SimLock) -> LockModel {
    match l {
        SimLock::Unlocked => LockModel::Unlocked,
        SimLock::Exclusive(h) => LockModel::Exclusive(h),
        SimLock::Shared(k, hs) => LockModel::Shared(k@, hs@.to_set()),
    }
}

spec fn sim_resource_view(r: SimResource) -> ResourceModel {
    ResourceModel { idn: r.idn@, responding: r.responding, lock: sim_lock_view(r.lock) }
}

spec fn obj_at(objs: Seq<Option<SimObject>>, h: ViSession) -> Option<SimObject> {
    if 0 <= (h as int) < objs.len() {
        objs[h as int]
    } else {
        None
    }
}

spec fn default_session_model() -> SessionModel {
    SessionModel {
        parent: 0,
        resource: Seq::empty(),
        tx: Seq::empty(),
        pending: Seq::empty(),
        rx: Seq::empty(),
    }
}

spec fn managers_of(objs: Seq<Option<SimObject>>) -> Set<ViSession> {
    Set::new(|h: ViSession| obj_at(objs, h) matches Some(SimObject::Manager))
}

spec fn sessions_of(objs: Seq<Option<SimObject>>) -> Map<ViSession, SessionModel> {
    Map::new(
        |h: ViSession| obj_at(objs, h) matches Some(SimObject::Session(_)),
        |h: ViSession|
            match obj_at(objs, h) {
                Some(SimObject::Session(s)) => sim_session_view(s),
                _ => default_session_model(),
            },
    )
}

spec fn find_lists_of(objs: Seq<Option<SimObject>>) -> Map<ViSession, Seq<Seq<char>>> {
    Map::new(
        |h: ViSession| obj_at(objs, h) matches Some(SimObject::FindList(_)),
        |h: ViSession|
            match obj_at(objs, h) {
                Some(SimObject::FindList(v)) => v.deep_view(),
                _ => Seq::empty(),
            },
    )
}

spec fn res_index_of(rs: Seq<SimResource>, n: Seq<char>) -> Option<int>
    decreases rs.len(),
{
    if rs.len() == 0 {
        None
    } else if rs[0].name@ == n {
        Some(0)
    } else {
        match res_index_of(rs.skip(1), n) {
            Some(i) => Some(i + 1),
            None => None,
        }
    }
}

spec fn resource_names_of(rs: Seq<SimResource>) -> Seq<Seq<char>> {
    Seq::new(rs.len(), |i: int| rs[i].name@)
}

spec fn default_resource_model() -> ResourceModel {
    ResourceModel { idn: Seq::empty(), responding: false, lock: LockModel::Unlocked }
}

spec fn resources_of(rs: Seq<SimResource>) -> Map<Seq<char>, ResourceModel> {
    Map::new(
        |n: Seq<char>| res_index_of(rs, n) is Some,
        |n: Seq<char>|
            match res_index_of(rs, n) {
                Some(i) => sim_resource_view(rs[i]),
                None => default_resource_model(),
            },
    )
}

/// What `res_index_of` finds: the first resource under the name, with none
/// earlier.
proof fn lemma_res_index_of(rs: Seq<SimResource>, n: Seq<char>)
    ensures
        match res_index_of(rs, n) {
            Some(i) => 0 <= i < rs.len() && rs[i].name@ == n && (forall|j: int|
                0 <= j < i ==> (#[trigger] rs[j]).name@ != n),
            None => forall|j: int| 0 <= j < rs.len() ==> (#[trigger] rs[j]).name@ != n,
        },
    decreases rs.len(),
{
    if rs.len() == 0 {
    } else if rs[0].name@ == n {
    } else {
        lemma_res_index_of(rs.skip(1), n);
        let t = rs.skip(1);
        match res_index_of(t, n) {
            Some(i) => {
                assert(rs[i + 1] == t[i]);
                assert forall|j: int| 0 <= j < i + 1 implies (#[trigger] rs[j]).name@ != n by {
                    if j > 0 {
                        assert(t[j - 1] == rs[j]);
                    }
                }
            },
            None => {
                assert forall|j: int| 0 <= j < rs.len() implies (#[trigger] rs[j]).name@ != n by {
                    if j > 0 {
                        assert(t[j - 1] == rs[j]);
                    }
                }
            },
        }
    }
}

/// A name at `i` with none earlier pins `res_index_of` down.
proof fn lemma_res_index_of_witness(rs: Seq<SimResource>, n: Seq<char>, i: int)
    requires
        0 <= i < rs.len(),
        rs[i].name@ == n,
        forall|j: int| 0 <= j < i ==> (#[trigger] rs[j]).name@ != n,
    ensures
        res_index_of(rs, n) == Some(i),
    decreases rs.len(),
{
    if i == 0 {
    } else {
        assert(forall|j: int| 0 <= j < i - 1 ==> #[trigger] rs.skip(1)[j] == rs[j + 1]);
        lemma_res_index_of_witness(rs.skip(1), n, i - 1);
    }
}

/// A name that no resource bears indexes to nothing.
proof fn lemma_res_index_of_absent(rs: Seq<SimResource>, n: Seq<char>)
    requires
        forall|j: int| 0 <= j < rs.len() ==> (#[trigger] rs[j]).name@ != n,
    ensures
        res_index_of(rs, n) is None,
    decreases rs.len(),
{
    if rs.len() > 0 {
        assert(forall|j: int| 0 <= j < rs.skip(1).len() ==> #[trigger] rs.skip(1)[j] == rs[j + 1]);
        lemma_res_index_of_absent(rs.skip(1), n);
    }
}

/// Distinct resource names.
spec fn res_names_distinct(rs: Seq<SimResource>) -> bool {
    forall|i: int, j: int| 0 <= i < j < rs.len() ==> (#[trigger] rs[i]).name@ != (
    #[trigger] rs[j]).name@
}

/// Whether a shared-lock holder list is sound: distinct and never empty.
spec fn holders_sound(l: SimLock) -> bool {
    match l {
        SimLock::Shared(_, hs) => hs@.len() > 0 && (forall|i: int, j: int|
            0 <= i < j < hs@.len() ==> hs@[i] != hs@[j]),
        _ => true,
    }
}

impl SimTransport {
    #[verifier::type_invariant]
    spec fn inv(&self) -> bool {
        &&& self.objects@.len() <= 0xFFFF_FFFF
        &&& self.resources@.len() < 0xFFFF_FFFF
        &&& res_names_distinct(self.resources@)
        &&& forall|k: int|
            0 <= k < self.objects@.len() ==> match #[trigger] self.objects@[k] {
                Some(SimObject::Session(s)) => res_index_of(self.resources@, s.resource@) is Some,
                _ => true,
            }
        &&& forall|i: int|
            0 <= i < self.resources@.len() ==> holders_sound((#[trigger] self.resources@[i]).lock)
    }

    /// An empty rack: no handles, no resources.
    pub fn new() -> (r: SimTransport)
        ensures
            r.model().managers =~= Set::<ViSession>::empty(),
            r.model().sessions =~= Map::<ViSession, SessionModel>::empty(),
            r.model().find_lists =~= Map::<ViSession, Seq<Seq<char>>>::empty(),
            r.model().resource_names =~= Seq::<Seq<char>>::empty(),
            r.model().resources =~= Map::<Seq<char>, ResourceModel>::empty(),
            r.model().wf(),
    {
        let r = SimTransport { objects: Vec::new(), resources: Vec::new() };
        proof {
            assert(r.model().sessions.dom() =~= Set::<ViSession>::empty());
            assert(r.model().find_lists.dom() =~= Set::<ViSession>::empty());
            assert(r.model().resources.dom() =~= Set::<Seq<char>>::empty());
        }
        r
    }

    /// Adds a discoverable resource whose instrument answers `idn` to an
    /// identification query. A name already present, or a full rack, is
    /// refused.
    pub fn add_resource(&mut self, name: &str, idn: &str) -> (r: bool)
        ensures
            r ==> final(self).model() == (TransportModel {
                resource_names: old(self).model().resource_names.push(name@),
                resources: old(self).model().resources.insert(
                    name@,
                    (ResourceModel {
                        idn: name_idn_bytes(idn@),
                        responding: true,
                        lock: LockModel::Unlocked,
                    }),
                ),
                ..old(self).model()
            }) && !old(self).model().resources.dom().contains(name@),
            !r ==> final(self).model() == old(self).model(),
            old(self).model().wf() ==> final(self).model().wf(),
    {
        proof {
            use_type_invariant(&*self);
        }
        if self.resources.len() >= 4294967294 {
            return false;
        }
        let name_owned = name.to_owned();
        match res_lookup(&self.resources, &name_owned) {
            Some(_) => false,
            None => {
                proof {
                    lemma_res_index_of(self.resources@, name@);
                }
                let entry = SimResource {
                    name: name_owned,
                    idn: idn.as_bytes_vec(),
                    responding: true,
                    lock: SimLock::Unlocked,
                };
                let ghost rs0 = self.resources@;
                let ghost o0 = self.objects@;
                let mut objects = Vec::new();
                let mut resources = Vec::new();
                core::mem::swap(&mut objects, &mut self.objects);
                core::mem::swap(&mut resources, &mut self.resources);
                resources.push(entry);
                proof {
                    assert forall|i: int, j: int|
                        0 <= i < j < resources@.len() implies (#[trigger] resources@[i]).name@ != (
                    #[trigger] resources@[j]).name@ by {
                        if j < rs0.len() {
                            assert(resources@[i] == rs0[i] && resources@[j] == rs0[j]);
                        } else {
                            assert(resources@[i] == rs0[i]);
                        }
                    }
                    assert forall|k: int|
                        0 <= k < objects@.len() implies match #[trigger] objects@[k] {
                        Some(SimObject::Session(s)) => res_index_of(
                            resources@,
                            s.resource@,
                        ) is Some,
                        _ => true,
                    } by {
                        match objects@[k] {
                            Some(SimObject::Session(s)) => {
                                lemma_res_index_of(rs0, s.resource@);
                                match res_index_of(rs0, s.resource@) {
                                    Some(i) => {
                                        lemma_res_index_of_witness(resources@, s.resource@, i);
                                    },
                                    None => {},
                                }
                            },
                            _ => {},
                        }
                    }
                }
                self.resources = resources;
                self.objects = objects;
                proof {
                    lemma_rack_grown(rs0, self.resources@, name@);
                }
                true
            },
        }
    }

    /// Turns the instrument behind `name` on or off: while off it answers
    /// nothing, so its sessions stop passing liveness checks.
    pub fn set_responding(&mut self, name: &str, responding: bool) -> (r: bool)
        ensures
            ({
                let m0 = old(self).model();
                let m1 = final(self).model();
                if m0.resources.dom().contains(name@) {
                    r && m1 == (TransportModel {
                        resources: m0.resources.insert(
                            name@,
                            (ResourceModel { responding, ..m0.resources[name@] }),
                        ),
                        ..m0
                    })
                } else {
                    !r && m1 == m0
                }
            }),
            old(self).model().wf() ==> final(self).model().wf(),
    {
        proof {
            use_type_invariant(&*self);
        }
        let name_owned = name.to_owned();
        match res_lookup(&self.resources, &name_owned) {
            Some(i) => {
                proof {
                    lemma_res_index_of(self.resources@, name@);
                }
                let ghost rs0 = self.resources@;
                let ghost o0 = self.objects@;
                let mut objects = Vec::new();
                let mut resources = Vec::new();
                core::mem::swap(&mut objects, &mut self.objects);
                core::mem::swap(&mut resources, &mut self.resources);
                let old_entry = resources.remove(i);
                let new_entry = SimResource { responding, ..old_entry };
                resources.insert(i, new_entry);
                proof {
                    assert(resources@ =~= rs0.update(
                        i as int,
                        (SimResource { responding, ..rs0[i as int] }),
                    ));
                    lemma_rack_updated(rs0, resources@, i as int);
                    assert forall|k: int|
                        0 <= k < objects@.len() implies match #[trigger] objects@[k] {
                        Some(SimObject::Session(s)) => res_index_of(
                            resources@,
                            s.resource@,
                        ) is Some,
                        _ => true,
                    } by {
                        match objects@[k] {
                            Some(SimObject::Session(s)) => {
                                lemma_res_index_same(rs0, resources@, s.resource@);
                            },
                            _ => {},
                        }
                    }
                }
                self.resources = resources;
                self.objects = objects;
                proof {
                    lemma_res_index_same(rs0, self.resources@, name@);
                    assert(res_index_of(self.resources@, name@) == Some(i as int));
                    assert(final(self).model().resources =~= (TransportModel {
                        resources: old(self).model().resources.insert(
                            name@,
                            (ResourceModel {
                                responding,
                                ..old(self).model().resources[name@]
                            }),
                        ),
                        ..old(self).model()
                    }).resources) by {
                        lemma_rack_resources_update(rs0, self.resources@, i as int);
                    }
                    assert(final(self).model().resource_names =~= old(
                        self,
                    ).model().resource_names);
                    if old(self).model().wf() {
                        lemma_wf_after_resources_update(old(self).model(), final(self).model());
                    }
                }
                true
            },
            None => {
                proof {
                    lemma_res_index_of(self.resources@, name@);
                }
                false
            },
        }
    }
}

/// The identification bytes a rack entry stores for a configured line.
pub open spec fn name_idn_bytes(idn: Seq<char>) -> Seq<u8> {
    vstd::utf8::encode_utf8(idn)
}

/// The first rack entry with the given name.
fn res_lookup(resources: &Vec<SimResource>, name: &String) -> (r: Option<usize>)
    ensures
        match r {
            Some(i) => res_index_of(resources@, name@) == Some(i as int),
            None => res_index_of(resources@, name@) is None,
        },
{
    let n = resources.len();
    let mut i: usize = 0;
    while i < n
        invariant
            0 <= i <= n,
            n == resources@.len(),
            forall|j: int| 0 <= j < i ==> (#[trigger] resources@[j]).name@ != name@,
        decreases n - i,
    {
        if resources[i].name == *name {
            proof {
                lemma_res_index_of_witness(resources@, name@, i as int);
            }
            return Some(i);
        }
        i = i + 1;
    }
    proof {
        lemma_res_index_of_absent(resources@, name@);
    }
    None
}

/// Growing the rack by one fresh name extends the listing and the map and
/// nothing else.
proof fn lemma_rack_grown(rs0: Seq<SimResource>, rs1: Seq<SimResource>, n: Seq<char>)
    requires
        rs1.len() == rs0.len() + 1,
        forall|j: int| 0 <= j < rs0.len() ==> rs1[j] == rs0[j],
        rs1[rs0.len() as int].name@ == n,
        res_index_of(rs0, n) is None,
    ensures
        resource_names_of(rs1) =~= resource_names_of(rs0).push(n),
        resources_of(rs1) =~~= resources_of(rs0).insert(n, sim_resource_view(rs1[rs0.len() as int])),
        !resources_of(rs0).dom().contains(n),
{
    lemma_res_index_of(rs0, n);
    assert forall|n2: Seq<char>| true implies #[trigger] res_index_of(rs1, n2) == (if n2 == n {
        Some(rs0.len() as int)
    } else {
        res_index_of(rs0, n2)
    }) by {
        lemma_res_index_of(rs0, n2);
        if n2 == n {
            lemma_res_index_of_witness(rs1, n2, rs0.len() as int);
        } else {
            match res_index_of(rs0, n2) {
                Some(i) => {
                    lemma_res_index_of_witness(rs1, n2, i);
                },
                None => {
                    if n2 != n {
                        lemma_res_index_of_absent(rs1, n2);
                    }
                },
            }
        }
    }
    let v = sim_resource_view(rs1[rs0.len() as int]);
    assert forall|n2: Seq<char>|
        resources_of(rs1).dom().contains(n2) implies resources_of(rs1)[n2] == resources_of(
        rs0,
    ).insert(n, v)[n2] by {
        if n2 != n {
            lemma_res_index_of(rs0, n2);
            match res_index_of(rs0, n2) {
                Some(i) => {
                    assert(rs1[i] == rs0[i]);
                },
                None => {},
            }
        }
    }
    assert(resources_of(rs1).dom() =~= resources_of(rs0).insert(n, v).dom());
}

/// Updating one rack entry in place, name unchanged, keeps every index.
proof fn lemma_rack_updated(rs0: Seq<SimResource>, rs1: Seq<SimResource>, i: int)
    requires
        rs1.len() == rs0.len(),
        0 <= i < rs0.len(),
        rs1[i].name@ == rs0[i].name@,
        forall|j: int| 0 <= j < rs0.len() && j != i ==> rs1[j] == rs0[j],
    ensures
        forall|n: Seq<char>| #[trigger] res_index_of(rs1, n) == res_index_of(rs0, n),
        resource_names_of(rs1) =~= resource_names_of(rs0),
{
    assert forall|n: Seq<char>| true implies #[trigger] res_index_of(rs1, n) == res_index_of(
        rs0,
        n,
    ) by {
        lemma_res_index_same(rs0, rs1, n);
    }
}

/// Two racks with the same names in the same order index every name alike.
proof fn lemma_res_index_same(rs0: Seq<SimResource>, rs1: Seq<SimResource>, n: Seq<char>)
    requires
        rs1.len() == rs0.len(),
        forall|j: int| 0 <= j < rs0.len() ==> (#[trigger] rs1[j]).name@ == rs0[j].name@,
    ensures
        res_index_of(rs1, n) == res_index_of(rs0, n),
{
    lemma_res_index_of(rs0, n);
    match res_index_of(rs0, n) {
        Some(i) => {
            lemma_res_index_of_witness(rs1, n, i);
        },
        None => {
            lemma_res_index_of_absent(rs1, n);
        },
    }
}

/// The resources map after an in-place entry update is the map updated at
/// that entry's name.
proof fn lemma_rack_resources_update(rs0: Seq<SimResource>, rs1: Seq<SimResource>, i: int)
    requires
        rs1.len() == rs0.len(),
        0 <= i < rs0.len(),
        rs1[i].name@ == rs0[i].name@,
        res_names_distinct(rs0),
        forall|j: int| 0 <= j < rs0.len() && j != i ==> rs1[j] == rs0[j],
    ensures
        resources_of(rs1) =~~= resources_of(rs0).insert(rs0[i].name@, sim_resource_view(rs1[i])),
{
    lemma_rack_updated(rs0, rs1, i);
    assert forall|n: Seq<char>| resources_of(rs1).dom().contains(n) implies resources_of(rs1)[n]
        == resources_of(rs0).insert(rs0[i].name@, sim_resource_view(rs1[i]))[n] by {
        lemma_res_index_of(rs0, n);
        match res_index_of(rs0, n) {
            Some(k) => {
                if n == rs0[i].name@ {
                    lemma_res_index_of_witness(rs0, n, i);
                    assert(k == i);
                } else {
                    assert(k != i);
                    assert(rs1[k] == rs0[k]);
                }
            },
            None => {},
        }
    }
    assert(forall|j: int| 0 <= j < i ==> (#[trigger] rs0[j]).name@ != rs0[i].name@);
    lemma_res_index_of_witness(rs0, rs0[i].name@, i);
    assert(resources_of(rs1).dom() =~= resources_of(rs0).insert(
        rs0[i].name@,
        sim_resource_view(rs1[i]),
    ).dom());
}

/// Whether two byte strings hold the same bytes.
fn bytes_eq(a: &Vec<u8>, b: &Vec<u8>) -> (r: bool)
    ensures
        r == (a@ == b@),
{
    if a.len() != b.len() {
        return false;
    }
    let n = a.len();
    let mut i: usize = 0;
    while i < n
        invariant
            0 <= i <= n,
            n == a@.len(),
            n == b@.len(),
            forall|j: int| 0 <= j < i ==> a@[j] == b@[j],
        decreases n - i,
    {
        if a[i] != b[i] {
            return false;
        }
        i = i + 1;
    }
    proof {
        assert(a@ =~= b@);
    }
    true
}

/// The bytes an instrument answers with, built for one completed line.
fn respond(res: &SimResource, line: &Vec<u8>) -> (r: Vec<u8>)
    ensures
        r@ == scpi_response(sim_resource_view(*res), line@),
{
    if !res.responding {
        let empty: Vec<u8> = Vec::new();
        proof {
            assert(empty@ =~= scpi_response(sim_resource_view(*res), line@));
        }
        return empty;
    }
    let idn_query: Vec<u8> = vec![42u8, 73u8, 68u8, 78u8, 63u8, 10u8];
    proof {
        assert(idn_query@ =~= crate::transport::idn_query_bytes());
    }
    if bytes_eq(line, &idn_query) {
        let mut r = slice_to_vec(res.idn.as_slice());
        r.push(10u8);
        proof {
            assert(r@ =~= scpi_response(sim_resource_view(*res), line@));
        }
        r
    } else if line.len() >= 2 && line[line.len() - 2] == 63u8 && line[line.len() - 1] == 10u8 {
        let r: Vec<u8> = vec![48u8, 10u8];
        proof {
            assert(r@ =~= scpi_response(sim_resource_view(*res), line@));
        }
        r
    } else {
        let empty: Vec<u8> = Vec::new();
        proof {
            assert(empty@ =~= scpi_response(sim_resource_view(*res), line@));
        }
        empty
    }
}

/// Accepts `data` on a session: logs it, completes command lines at each
/// newline, and queues the instrument's responses.
fn process_data(sess: &mut SimSession, res: &SimResource, data: &[u8])
    ensures
        sim_session_view(*final(sess)) == process_write(
            sim_session_view(*old(sess)),
            sim_resource_view(*res),
            data@,
        ),
    decreases data@.len(),
{
    let ghost st0 = sim_session_view(*sess);
    if data.len() == 0 {
        return ;
    }
    match find_byte(data, 10u8) {
        None => {
            sess.tx.extend_from_slice(data);
            sess.pending.extend_from_slice(data);
        },
        Some(i) => {
            proof {
                crate::text::lemma_first_index_of(data@, 10u8);
            }
            let head = vstd::slice::slice_subrange(data, 0, i + 1);
            let rest = vstd::slice::slice_subrange(data, i + 1, data.len());
            sess.tx.extend_from_slice(head);
            let mut line = Vec::new();
            core::mem::swap(&mut line, &mut sess.pending);
            line.extend_from_slice(head);
            let resp = respond(res, &line);
            sess.rx.extend_from_slice(resp.as_slice());
            proof {
                assert(head@ =~= data@.take(i + 1));
                assert(rest@ =~= data@.skip(i + 1));
                assert(line@ == st0.pending + data@.take(i + 1));
                assert(sim_session_view(*sess) == (SessionModel {
                    tx: st0.tx + data@.take(i + 1),
                    pending: seq![],
                    rx: st0.rx + scpi_response(sim_resource_view(*res), line@),
                    ..st0
                }));
            }
            process_data(sess, res, rest);
        },
    }
}

/// The lock after session `h` releases its hold, for a single-session close.
fn release_lock_single(lock: SimLock, h: ViSession) -> (r: SimLock)
    requires
        holders_sound(lock),
    ensures
        sim_lock_view(r) == release_lock(sim_lock_view(lock), set![h]),
        holders_sound(r),
{
    match lock {
        SimLock::Unlocked => {
            proof {
                assert(release_lock(LockModel::Unlocked, set![h]) == LockModel::Unlocked);
            }
            SimLock::Unlocked
        },
        SimLock::Exclusive(owner) => {
            if owner == h {
                SimLock::Unlocked
            } else {
                SimLock::Exclusive(owner)
            }
        },
        SimLock::Shared(key, holders) => {
            let ghost hs0 = holders@;
            let mut remaining: Vec<ViSession> = Vec::new();
            let n = holders.len();
            let mut i: usize = 0;
            while i < n
                invariant
                    0 <= i <= n,
                    n == hs0.len(),
                    holders@ == hs0,
                    remaining@ == hs0.take(i as int).filter(|o: ViSession| o != h),
                decreases n - i,
            {
                let ghost before = remaining@;
                if holders[i] != h {
                    remaining.push(holders[i]);
                }
                proof {
                    assert(hs0.take(i + 1) =~= hs0.take(i as int) + seq![hs0[i as int]]);
                    Seq::filter_distributes_over_add(
                        hs0.take(i as int),
                        seq![hs0[i as int]],
                        |o: ViSession| o != h,
                    );
                    lemma_filter_singleton(hs0[i as int], |o: ViSession| o != h);
                    if hs0[i as int] != h {
                        assert(remaining@ =~= before + seq![hs0[i as int]]);
                    } else {
                        assert(remaining@ =~= before + Seq::<ViSession>::empty());
                    }
                }
                i = i + 1;
            }
            proof {
                assert(hs0.take(n as int) =~= hs0);
            }
            let ghost pred = |o: ViSession| o != h;
            proof {
                broadcast use vstd::seq_lib::group_filter_ensures;

                assert forall|x: ViSession|
                    remaining@.to_set().contains(x) <==> hs0.to_set().difference(
                        set![h],
                    ).contains(x) by {
                    if remaining@.contains(x) {
                        let k = choose|k: int| 0 <= k < remaining@.len() && remaining@[k] == x;
                        hs0.lemma_filter_pred(pred, k);
                        lemma_filter_subset(hs0, pred, k);
                    }
                    if hs0.contains(x) && x != h {
                        let k = choose|k: int| 0 <= k < hs0.len() && hs0[k] == x;
                        hs0.lemma_filter_contains(pred, k);
                    }
                }
                assert(remaining@.to_set() =~= hs0.to_set().difference(set![h]));
            }
            if remaining.len() == 0 {
                proof {
                    assert(remaining@.to_set() =~= Set::<ViSession>::empty());
                }
                SimLock::Unlocked
            } else {
                proof {
                    assert(remaining@.contains(remaining@[0]));
                    assert(remaining@.to_set().contains(remaining@[0]));
                    assert(!(remaining@.to_set() =~= Set::<ViSession>::empty()));
                    assert forall|a: int, b: int|
                        0 <= a < b < remaining@.len() implies remaining@[a] != remaining@[b] by {
                        lemma_filter_distinct(hs0, pred, a, b);
                    }
                }
                SimLock::Shared(key, remaining)
            }
        },
    }
}

/// Filtering one element keeps it or drops it.
proof fn lemma_filter_singleton<A>(x: A, pred: spec_fn(A) -> bool)
    ensures
        seq![x].filter(pred) == if pred(x) {
            seq![x]
        } else {
            Seq::<A>::empty()
        },
{
    reveal(Seq::filter);
    assert(seq![x].drop_last() =~= Seq::<A>::empty());
    assert(Seq::<A>::empty().filter(pred) =~= Seq::<A>::empty());
    if pred(x) {
        assert(seq![x].filter(pred) =~= seq![x]);
    } else {
        assert(seq![x].filter(pred) =~= Seq::<A>::empty());
    }
}

/// How a handle table looks after one slot is overwritten.
proof fn lemma_obj_at_update(objs: Seq<Option<SimObject>>, h: int, v: Option<SimObject>)
    requires
        0 <= h < objs.len(),
        objs.len() <= 0xFFFF_FFFF,
    ensures
        forall|h2: ViSession| #[trigger]
            obj_at(objs.update(h, v), h2) == (if h2 as int == h {
                v
            } else {
                obj_at(objs, h2)
            }),
{
}

/// How a handle table looks after one slot is appended.
proof fn lemma_obj_at_push(objs: Seq<Option<SimObject>>, v: Option<SimObject>)
    requires
        objs.len() < 0xFFFF_FFFF,
    ensures
        forall|h2: ViSession| #[trigger]
            obj_at(objs.push(v), h2) == (if h2 as int == objs.len() {
                v
            } else {
                obj_at(objs, h2)
            }),
{
    assert forall|h2: ViSession| true implies #[trigger] obj_at(objs.push(v), h2) == (if h2 as int
        == objs.len() {
        v
    } else {
        obj_at(objs, h2)
    }) by {
        if (h2 as int) < objs.len() {
            assert(objs.push(v)[h2 as int] == objs[h2 as int]);
        }
    }
}

/// The three handle families of a table, after a change at one handle, seen
/// against the family maps before it.
proof fn lemma_maps_after_obj_change(
    objs0: Seq<Option<SimObject>>,
    objs1: Seq<Option<SimObject>>,
    h: ViSession,
)
    requires
        forall|h2: ViSession| h2 != h ==> #[trigger] obj_at(objs1, h2) == obj_at(objs0, h2),
    ensures
        forall|h2: ViSession|
            h2 != h ==> (managers_of(objs1).contains(h2) == managers_of(objs0).contains(h2)),
        forall|h2: ViSession|
            h2 != h ==> (sessions_of(objs1).dom().contains(h2) == sessions_of(
                objs0,
            ).dom().contains(h2)),
        forall|h2: ViSession|
            #![trigger sessions_of(objs1)[h2]]
            h2 != h && sessions_of(objs0).dom().contains(h2) ==> sessions_of(objs1)[h2]
                == sessions_of(objs0)[h2],
        forall|h2: ViSession|
            h2 != h ==> (find_lists_of(objs1).dom().contains(h2) == find_lists_of(
                objs0,
            ).dom().contains(h2)),
        forall|h2: ViSession|
            #![trigger find_lists_of(objs1)[h2]]
            h2 != h && find_lists_of(objs0).dom().contains(h2) ==> find_lists_of(objs1)[h2]
                == find_lists_of(objs0)[h2],
{
}

/// Whether a slot holds a session opened under `root`.
spec fn is_child_slot(slot: Option<SimObject>, root: ViSession) -> bool {
    match slot {
        Some(SimObject::Session(s)) => s.parent == root,
        _ => false,
    }
}

/// The sessions of a table opened under `root`, as a handle set.
spec fn children_of_table(objs: Seq<Option<SimObject>>, root: ViSession) -> Set<ViSession> {
    Set::new(|h: ViSession| is_child_slot(obj_at(objs, h), root))
}

/// Whether `hs` contains `h`.
fn holders_contain(hs: &Vec<ViSession>, h: ViSession) -> (r: bool)
    ensures
        r == hs@.contains(h),
{
    let n = hs.len();
    let mut i: usize = 0;
    while i < n
        invariant
            0 <= i <= n,
            n == hs@.len(),
            forall|j: int| 0 <= j < i ==> hs@[j] != h,
        decreases n - i,
    {
        if hs[i] == h {
            return true;
        }
        i = i + 1;
    }
    false
}

/// Whether `o` is a session opened under `root` in the current table.
fn is_closing_child(objects: &Vec<Option<SimObject>>, root: ViSession, o: ViSession) -> (r: bool)
    ensures
        r == children_of_table(objects@, root).contains(o),
{
    let oi = o as usize;
    if oi >= objects.len() {
        return false;
    }
    match &objects[oi] {
        Some(SimObject::Session(s)) => s.parent == root,
        _ => false,
    }
}

/// The lock after the holds of every session opened under `root` are
/// released, against the current table.
fn release_lock_children(
    lock: SimLock,
    objects: &Vec<Option<SimObject>>,
    root: ViSession,
) -> (r: SimLock)
    requires
        holders_sound(lock),
    ensures
        sim_lock_view(r) == release_lock(sim_lock_view(lock), children_of_table(objects@, root)),
        holders_sound(r),
{
    let ghost closed = children_of_table(objects@, root);
    match lock {
        SimLock::Unlocked => SimLock::Unlocked,
        SimLock::Exclusive(owner) => {
            if is_closing_child(objects, root, owner) {
                SimLock::Unlocked
            } else {
                SimLock::Exclusive(owner)
            }
        },
        SimLock::Shared(key, holders) => {
            let ghost hs0 = holders@;
            let mut remaining: Vec<ViSession> = Vec::new();
            let n = holders.len();
            let mut i: usize = 0;
            let ghost pred = |o: ViSession| !closed.contains(o);
            proof {
                reveal(Seq::filter);
                assert(hs0.take(0) =~= Seq::<ViSession>::empty());
                assert(remaining@ =~= hs0.take(0).filter(pred));
            }
            while i < n
                invariant
                    0 <= i <= n,
                    n == hs0.len(),
                    holders@ == hs0,
                    closed == children_of_table(objects@, root),
                    pred == (|o: ViSession| !closed.contains(o)),
                    remaining@ == hs0.take(i as int).filter(pred),
                decreases n - i,
            {
                let ghost before = remaining@;
                if !is_closing_child(objects, root, holders[i]) {
                    remaining.push(holders[i]);
                }
                proof {
                    assert(hs0.take(i + 1) =~= hs0.take(i as int) + seq![hs0[i as int]]);
                    Seq::filter_distributes_over_add(
                        hs0.take(i as int),
                        seq![hs0[i as int]],
                        pred,
                    );
                    lemma_filter_singleton(hs0[i as int], pred);
                    if pred(hs0[i as int]) {
                        assert(remaining@ =~= before + seq![hs0[i as int]]);
                    } else {
                        assert(remaining@ =~= before + Seq::<ViSession>::empty());
                    }
                }
                i = i + 1;
            }
            proof {
                assert(hs0.take(n as int) =~= hs0);
                broadcast use vstd::seq_lib::group_filter_ensures;

                assert forall|x: ViSession|
                    remaining@.to_set().contains(x) <==> hs0.to_set().difference(closed).contains(
                        x,
                    ) by {
                    if remaining@.contains(x) {
                        let k = choose|k: int| 0 <= k < remaining@.len() && remaining@[k] == x;
                        hs0.lemma_filter_pred(pred, k);
                        lemma_filter_subset(hs0, pred, k);
                    }
                    if hs0.contains(x) && !closed.contains(x) {
                        let k = choose|k: int| 0 <= k < hs0.len() && hs0[k] == x;
                        hs0.lemma_filter_contains(pred, k);
                    }
                }
                assert(remaining@.to_set() =~= hs0.to_set().difference(closed));
            }
            if remaining.len() == 0 {
                proof {
                    assert(remaining@.to_set() =~= Set::<ViSession>::empty());
                }
                SimLock::Unlocked
            } else {
                proof {
                    assert(remaining@.contains(remaining@[0]));
                    assert(remaining@.to_set().contains(remaining@[0]));
                    assert(!(remaining@.to_set() =~= Set::<ViSession>::empty()));
                    assert forall|a: int, b: int|
                        0 <= a < b < remaining@.len() implies remaining@[a] != remaining@[b] by {
                        lemma_filter_distinct(hs0, pred, a, b);
                    }
                }
                SimLock::Shared(key, remaining)
            }
        },
    }
}

impl SimTransport {
    /// The resource name of session `h`, if `h` is a live session.
    fn session_resource_name(&self, h: ViSession) -> (r: Option<String>)
        ensures
            match r {
                Some(n) => self.model().sessions.dom().contains(h) && n@
                    == self.model().sessions[h].resource,
                None => !self.model().sessions.dom().contains(h),
            },
    {
        let hi = h as usize;
        if hi >= self.objects.len() {
            return None;
        }
        match &self.objects[hi] {
            Some(SimObject::Session(s)) => Some(s.resource.clone()),
            _ => None,
        }
    }

    /// Admits session `h` to I/O: the handle must be a live session and no
    /// lock may be held against it. Hands back the index of its resource.
    fn session_io_gate(&self, h: ViSession) -> (r: Result<usize, VisaError>)
        ensures
            match r {
                Ok(ri) => {
                    &&& self.model().sessions.dom().contains(h)
                    &&& self.model().io_permitted(h)
                    &&& ri < self.resources@.len()
                    &&& res_index_of(self.resources@, self.model().sessions[h].resource) == Some(
                        ri as int,
                    )
                },
                Err(e) => if !self.model().sessions.dom().contains(h) {
                    e == VisaError::InvalidObject
                } else {
                    !self.model().io_permitted(h) && e == VisaError::ResourceLocked
                },
            },
    {
        proof {
            use_type_invariant(&*self);
        }
        let name = match self.session_resource_name(h) {
            Some(n) => n,
            None => {
                return Err(VisaError::InvalidObject);
            },
        };
        let ri = match res_lookup(&self.resources, &name) {
            Some(ri) => ri,
            None => {
                proof {
                    lemma_res_index_of(self.resources@, name@);
                    assert(false);
                }
                return Err(VisaError::InvalidObject);
            },
        };
        proof {
            lemma_res_index_of(self.resources@, name@);
            assert(self.model().resources[name@] == sim_resource_view(
                self.resources@[ri as int],
            ));
        }
        match &self.resources[ri].lock {
            SimLock::Unlocked => Ok(ri),
            SimLock::Exclusive(owner) => {
                if *owner == h {
                    Ok(ri)
                } else {
                    Err(VisaError::ResourceLocked)
                }
            },
            SimLock::Shared(_, hs) => {
                if holders_contain(hs, h) {
                    Ok(ri)
                } else {
                    Err(VisaError::ResourceLocked)
                }
            },
        }
    }

    /// Replaces the lock of the rack entry at `ri`, leaving everything else
    /// as it was.
    fn set_resource_lock(&mut self, ri: usize, lock: SimLock)
        requires
            ri < old(self).resources@.len(),
            holders_sound(lock),
        ensures
            final(self).objects@ == old(self).objects@,
            final(self).resources@.len() == old(self).resources@.len(),
            forall|k: int|
                0 <= k < old(self).resources@.len() && k != ri ==> final(self).resources@[k]
                    == old(self).resources@[k],
            final(self).resources@[ri as int] == (SimResource {
                lock,
                ..old(self).resources@[ri as int]
            }),
    {
        proof {
            use_type_invariant(&*self);
        }
        let ghost rs0 = self.resources@;
        let ghost lockg = lock;
        let mut objects = Vec::new();
        let mut resources = Vec::new();
        core::mem::swap(&mut objects, &mut self.objects);
        core::mem::swap(&mut resources, &mut self.resources);
        let entry = resources.remove(ri);
        let new_entry = SimResource { lock, ..entry };
        resources.insert(ri, new_entry);
        proof {
            assert(resources@ =~= rs0.update(ri as int, (SimResource { lock: lockg, ..rs0[ri as int] })));
        }
        proof {
            assert forall|k: int|
                0 <= k < resources@.len() implies (#[trigger] resources@[k]).name@
                == rs0[k].name@ by {
                if k != ri as int {
                    assert(resources@[k] == rs0[k]);
                }
            }
            assert forall|k: int|
                0 <= k < resources@.len() implies holders_sound(
                (#[trigger] resources@[k]).lock,
            ) by {
                if k != ri as int {
                    assert(resources@[k] == rs0[k]);
                }
            }
        }
        proof {
            assert forall|k: int|
                0 <= k < objects@.len() implies match #[trigger] objects@[k] {
                Some(SimObject::Session(s)) => res_index_of(resources@, s.resource@) is Some,
                _ => true,
            } by {
                match objects@[k] {
                    Some(SimObject::Session(s)) => {
                        lemma_res_index_same(rs0, resources@, s.resource@);
                    },
                    _ => {},
                }
            }
        }
        self.resources = resources;
        self.objects = objects;
    }
}

/// What the model looks like after only the lock of one rack entry changed.
proof fn lemma_lock_only_change(
    objs: Seq<Option<SimObject>>,
    rs0: Seq<SimResource>,
    rs1: Seq<SimResource>,
    ri: int,
)
    requires
        rs1.len() == rs0.len(),
        0 <= ri < rs0.len(),
        res_names_distinct(rs0),
        forall|k: int| 0 <= k < rs0.len() && k != ri ==> rs1[k] == rs0[k],
        rs1[ri].name@ == rs0[ri].name@,
        rs1[ri].idn@ == rs0[ri].idn@,
        rs1[ri].responding == rs0[ri].responding,
    ensures
        resource_names_of(rs1) =~= resource_names_of(rs0),
        resources_of(rs1) =~~= resources_of(rs0).insert(
            rs0[ri].name@,
            (ResourceModel {
                lock: sim_lock_view(rs1[ri].lock),
                ..sim_resource_view(rs0[ri])
            }),
        ),
{
    lemma_rack_resources_update(rs0, rs1, ri);
    assert(sim_resource_view(rs1[ri]) == (ResourceModel {
        lock: sim_lock_view(rs1[ri].lock),
        ..sim_resource_view(rs0[ri])
    }));
}

/// Well-formedness survives a change that touches neither the session roster
/// nor the set of names nor any lock.
proof fn lemma_wf_after_resources_update(m0: TransportModel, m1: TransportModel)
    requires
        m0.wf(),
        m1.sessions == m0.sessions,
        m1.resource_names == m0.resource_names,
        m1.resources.dom() =~= m0.resources.dom(),
        forall|n: Seq<char>|
            m1.resources.dom().contains(n) ==> (#[trigger] m1.resources[n]).lock
                == m0.resources[n].lock,
        forall|h: ViSession|
            m1.sessions.dom().contains(h) ==> (#[trigger] m1.sessions[h]).resource
                == m0.sessions[h].resource,
    ensures
        m1.wf(),
{
}

impl Transport for SimTransport {
    closed spec fn model(&self) -> TransportModel {
        TransportModel {
            managers: managers_of(self.objects@),
            sessions: sessions_of(self.objects@),
            find_lists: find_lists_of(self.objects@),
            resource_names: resource_names_of(self.resources@),
            resources: resources_of(self.resources@),
        }
    }

    fn open_default_manager(&mut self) -> (r: Result<ViSession, VisaError>) {
        proof {
            use_type_invariant(&*self);
        }
        if self.objects.len() >= 4294967295 {
            return Err(VisaError::Allocation);
        }
        let h = self.objects.len() as ViSession;
        let ghost o0 = self.objects@;
        let mut objects = Vec::new();
        core::mem::swap(&mut objects, &mut self.objects);
        objects.push(Some(SimObject::Manager));
        proof {
            assert(forall|k: int| 0 <= k < o0.len() ==> objects@[k] == o0[k]);
        }
        self.objects = objects;
        proof {
            lemma_obj_at_push(o0, Some(SimObject::Manager));
            lemma_maps_after_obj_change(o0, self.objects@, h);
            assert(obj_at(o0, h) is None);
            let m0 = old(self).model();
            let m1 = self.model();
            assert(!m0.is_live(h));
            assert(m1.managers =~= m0.managers.insert(h));
            assert(m1.sessions =~~= m0.sessions);
            assert(m1.find_lists =~~= m0.find_lists);
            assert(m1 =~~= (TransportModel { managers: m0.managers.insert(h), ..m0 }));
            if m0.wf() {
                assert(m1.wf());
            }
        }
        Ok(h)
    }

    fn find_first(&mut self, manager: ViSession, expression: &str) -> (r: Result<
        FindList,
        VisaError,
    >) {
        proof {
            use_type_invariant(&*self);
        }
        let mi = manager as usize;
        let manager_live = mi < self.objects.len() && (match &self.objects[mi] {
            Some(SimObject::Manager) => true,
            _ => false,
        });
        if !manager_live {
            return Err(VisaError::InvalidObject);
        }
        if !check_expression(expression) {
            return Err(VisaError::InvalidExpression);
        }
        let ghost m0 = self.model();
        let ghost e = expression@;
        let mut matches: Vec<String> = Vec::new();
        let rn = self.resources.len();
        let mut i: usize = 0;
        proof {
            reveal(Seq::filter);
            assert(resource_names_of(self.resources@).take(0) =~= Seq::<Seq<char>>::empty());
            assert(matches.deep_view() =~= Seq::<Seq<char>>::empty().filter(
                |n: Seq<char>| expr_matches(e, n),
            ));
        }
        while i < rn
            invariant
                0 <= i <= rn,
                rn == self.resources@.len(),
                e == expression@,
                matches.deep_view() == resource_names_of(self.resources@).take(i as int).filter(
                    |n: Seq<char>| expr_matches(e, n),
                ),
            decreases rn - i,
        {
            let ghost names = resource_names_of(self.resources@);
            let ghost before = matches.deep_view();
            let matched = matches_expression(expression, self.resources[i].name.as_str());
            proof {
                assert(names[i as int] == self.resources@[i as int].name@);
                assert(matched == expr_matches(e, names[i as int]));
            }
            if matched {
                let ghost mv0 = matches@;
                let picked = self.resources[i].name.clone();
                let ghost pickedg = picked;
                matches.push(picked);
                proof {
                    assert(matches@ == mv0.push(pickedg));
                    assert forall|j: int|
                        0 <= j < matches@.len() implies matches.deep_view()[j] == before.push(
                        names[i as int],
                    )[j] by {
                        if j < mv0.len() {
                            assert(matches@[j] == mv0[j]);
                        } else {
                            assert(matches@[j] == pickedg);
                        }
                    }
                    assert(matches.deep_view() =~= before.push(names[i as int]));
                }
            }
            proof {
                assert(names.take(i + 1) =~= names.take(i as int) + seq![names[i as int]]);
                Seq::filter_distributes_over_add(
                    names.take(i as int),
                    seq![names[i as int]],
                    |n: Seq<char>| expr_matches(e, n),
                );
                lemma_filter_singleton(names[i as int], |n: Seq<char>| expr_matches(e, n));
                if matched {
                    assert(before.push(names[i as int]) =~= before + seq![names[i as int]]);
                    assert(matches.deep_view() =~= before + seq![names[i as int]]);
                } else {
                    assert(matches.deep_view() == before);
                    assert(matches.deep_view() =~= before + Seq::<Seq<char>>::empty());
                }
                assert(matches.deep_view() =~= names.take(i + 1).filter(
                    |n: Seq<char>| expr_matches(e, n),
                ));
            }
            i = i + 1;
        }
        let ghost names = resource_names_of(self.resources@);
        proof {
            assert(names.take(rn as int) =~= names);
            assert(matches.deep_view() == m0.matching_resources(e));
            names.lemma_filter_len(|n: Seq<char>| expr_matches(e, n));
            assert(matches.deep_view().len() <= names.len());
            assert(matches@.len() == matches.deep_view().len());
        }
        let count = matches.len() as u32;
        if matches.len() == 0 {
            proof {
                assert(m0.matching_resources(e).len() == 0);
            }
            return Ok(FindList { handle: 0, count: 0, first: String::new() });
        }
        if self.objects.len() >= 4294967295 {
            return Err(VisaError::Allocation);
        }
        let h = self.objects.len() as ViSession;
        let ghost o0 = self.objects@;
        let ghost full = matches@;
        let first = matches.remove(0);
        let ghost restg = matches;
        proof {
            assert forall|j: int|
                0 <= j < restg@.len() implies restg.deep_view()[j] == m0.matching_resources(
                e,
            ).skip(1)[j] by {
                assert(restg@[j] == full[j + 1]);
            }
            assert(restg.deep_view() =~= m0.matching_resources(e).skip(1));
        }
        let mut objects = Vec::new();
        core::mem::swap(&mut objects, &mut self.objects);
        objects.push(Some(SimObject::FindList(matches)));
        proof {
            assert(forall|k: int| 0 <= k < o0.len() ==> objects@[k] == o0[k]);
        }
        self.objects = objects;
        proof {
            lemma_obj_at_push(o0, Some(SimObject::FindList(restg)));
            lemma_maps_after_obj_change(o0, self.objects@, h);
            assert(obj_at(o0, h) is None);
            let m1 = self.model();
            assert(!m0.is_live(h));
            assert(m1.find_lists =~~= m0.find_lists.insert(h, m0.matching_resources(e).skip(1)));
            assert(m1.managers =~= m0.managers);
            assert(m1.sessions =~~= m0.sessions);
            assert(m1 =~~= (TransportModel {
                find_lists: m0.find_lists.insert(h, m0.matching_resources(e).skip(1)),
                ..m0
            }));
            if m0.wf() {
                assert(m1.wf());
            }
        }
        Ok(FindList { handle: h, count, first })
    }

    fn find_next(&mut self, list: ViSession) -> (r: Result<String, VisaError>) {
        proof {
            use_type_invariant(&*self);
        }
        let li = list as usize;
        if li >= self.objects.len() {
            return Err(VisaError::InvalidObject);
        }
        let is_nonempty_list = match &self.objects[li] {
            Some(SimObject::FindList(v)) => v.len() > 0,
            _ => false,
        };
        if !is_nonempty_list {
            return Err(VisaError::InvalidObject);
        }
        let ghost m0 = self.model();
        let ghost o0 = self.objects@;
        let mut objects = Vec::new();
        core::mem::swap(&mut objects, &mut self.objects);
        let mut slot: Option<SimObject> = None;
        core::mem::swap(&mut slot, &mut objects[li]);
        let result;
        match slot {
            Some(SimObject::FindList(mut v)) => {
                let ghost v0 = v@;
                result = v.remove(0);
                let ghost restg = v;
                objects[li] = Some(SimObject::FindList(v));
                proof {
                    assert forall|j: int|
                        0 <= j < restg@.len() implies restg.deep_view()[j] == m0.find_lists[
                        list].skip(1)[j] by {
                        assert(restg@[j] == v0[j + 1]);
                    }
                    assert(restg.deep_view() =~= m0.find_lists[list].skip(1));
                    assert(result == v0[0]);
                }
            },
            _ => {
                proof {
                    assert(false);
                }
                return Err(VisaError::InvalidObject);
            },
        }
        proof {
            assert(forall|k: int| 0 <= k < o0.len() && k != li ==> objects@[k] == o0[k]);
        }
        self.objects = objects;
        proof {
            assert(forall|h2: ViSession|
                h2 != list ==> #[trigger] obj_at(self.objects@, h2) == obj_at(o0, h2));
            lemma_maps_after_obj_change(o0, self.objects@, list);
            let m1 = self.model();
            assert(m1.find_lists =~~= m0.find_lists.insert(list, m0.find_lists[list].skip(1)));
            assert(m1.managers =~= m0.managers);
            assert(m1.sessions =~~= m0.sessions);
            assert(m1 =~~= (TransportModel {
                find_lists: m0.find_lists.insert(list, m0.find_lists[list].skip(1)),
                ..m0
            }));
            if m0.wf() {
                assert(m1.wf());
            }
        }
        Ok(result)
    }

    fn open_session(
        &mut self,
        manager: ViSession,
        resource: &str,
        mode: AccessMode,
        timeout_ms: u32,
    ) -> (r: Result<ViSession, VisaError>) {
        proof {
            use_type_invariant(&*self);
        }
        let mi = manager as usize;
        let manager_live = mi < self.objects.len() && (match &self.objects[mi] {
            Some(SimObject::Manager) => true,
            _ => false,
        });
        if !manager_live {
            return Err(VisaError::InvalidObject);
        }
        let resource_owned = resource.to_owned();
        let ri = match res_lookup(&self.resources, &resource_owned) {
            Some(ri) => ri,
            None => {
                proof {
                    lemma_res_index_of(self.resources@, resource@);
                }
                return Err(VisaError::ResourceNotFound);
            },
        };
        proof {
            lemma_res_index_of(self.resources@, resource@);
        }
        if mode.has_shared_lock() {
            return Err(VisaError::InvalidAccessMode);
        }
        let wants_exclusive = mode.has_exclusive_lock();
        let resource_unlocked = match &self.resources[ri].lock {
            SimLock::Unlocked => true,
            _ => false,
        };
        if wants_exclusive && !resource_unlocked {
            return Err(VisaError::ResourceLocked);
        }
        if self.objects.len() >= 4294967295 {
            return Err(VisaError::Allocation);
        }
        let h = self.objects.len() as ViSession;
        let ghost m0 = self.model();
        let ghost o0 = self.objects@;
        let ghost rs0 = self.resources@;
        let session = SimSession {
            parent: manager,
            resource: resource_owned,
            tx: Vec::new(),
            pending: Vec::new(),
            rx: Vec::new(),
        };
        let ghost sessiong = session;
        let mut objects = Vec::new();
        core::mem::swap(&mut objects, &mut self.objects);
        objects.push(Some(SimObject::Session(session)));
        proof {
            assert(forall|k: int| 0 <= k < o0.len() ==> objects@[k] == o0[k]);
        }
        if wants_exclusive {
            self.set_resource_lock(ri, SimLock::Exclusive(h));
        }
        proof {
            assert forall|k: int|
                0 <= k < objects@.len() implies match #[trigger] objects@[k] {
                Some(SimObject::Session(s)) => res_index_of(self.resources@, s.resource@) is Some,
                _ => true,
            } by {
                if k < o0.len() {
                    match o0[k] {
                        Some(SimObject::Session(s)) => {
                            lemma_res_index_same(rs0, self.resources@, s.resource@);
                        },
                        _ => {},
                    }
                } else {
                    lemma_res_index_same(rs0, self.resources@, resource@);
                }
            }
            assert forall|i2: int, j2: int|
                0 <= i2 < j2 < self.resources@.len() implies (
            #[trigger] self.resources@[i2]).name@ != (#[trigger] self.resources@[j2]).name@ by {}
        }
        self.objects = objects;
        proof {
            lemma_obj_at_push(o0, Some(SimObject::Session(sessiong)));
            lemma_maps_after_obj_change(o0, self.objects@, h);
            assert(obj_at(o0, h) is None);
            let m1 = self.model();
            assert(!m0.is_live(h));
            let sv = sim_session_view(sessiong);
            let opened = m0.with_session(h, sv);
            assert(m1.sessions =~~= opened.sessions);
            if wants_exclusive {
                lemma_lock_only_change(o0, rs0, self.resources@, ri as int);
                assert(m1.resources =~~= m0.resources.insert(
                    resource@,
                    (ResourceModel {
                        lock: LockModel::Exclusive(h),
                        ..m0.resources[resource@]
                    }),
                ));
                assert(m1 =~~= opened.with_lock(resource@, LockModel::Exclusive(h)));
            } else {
                assert(m1.resources =~~= m0.resources);
                assert(m1.resource_names =~= m0.resource_names);
                assert(m1 =~~= opened);
            }
            if m0.wf() {
                assert forall|res: Seq<char>|
                    m1.resources.dom().contains(res) implies crate::transport::lock_holders_live(
                    (#[trigger] m1.resources[res]).lock,
                    m1.sessions.dom(),
                ) by {
                    assert(m0.resources.dom().contains(res));
                    if wants_exclusive && res == resource@ {
                        assert(m1.sessions.dom().contains(h));
                    } else {
                        assert(m1.resources[res] == m0.resources[res]);
                        assert(m0.sessions.dom().subset_of(m1.sessions.dom()));
                    }
                }
                assert(m1.wf());
            }
        }
        Ok(h)
    }

    fn close(&mut self, h: ViSession) -> (r: Result<Status, VisaError>) {
        proof {
            use_type_invariant(&*self);
        }
        let hi = h as usize;
        if hi >= self.objects.len() {
            return Err(VisaError::InvalidObject);
        }
        let kind: u8 = match &self.objects[hi] {
            Some(SimObject::Manager) => 1,
            Some(SimObject::Session(_)) => 2,
            Some(SimObject::FindList(_)) => 3,
            None => 0,
        };
        if kind == 0 {
            return Err(VisaError::InvalidObject);
        }
        if kind == 3 {
            let ghost m0 = self.model();
            let ghost o0 = self.objects@;
            let mut objects = Vec::new();
            core::mem::swap(&mut objects, &mut self.objects);
            objects[hi] = None;
            proof {
                assert(forall|k: int| 0 <= k < o0.len() && k != hi ==> objects@[k] == o0[k]);
            }
            self.objects = objects;
            proof {
                lemma_obj_at_update(o0, hi as int, None);
                lemma_maps_after_obj_change(o0, self.objects@, h);
                let m1 = self.model();
                assert(m1.find_lists =~~= m0.find_lists.remove(h));
                assert(m1.managers =~= m0.managers);
                assert(m1.sessions =~~= m0.sessions);
                assert(m1 =~~= (TransportModel { find_lists: m0.find_lists.remove(h), ..m0 }));
                assert(m1 == m0.close_effect(h));
                if m0.wf() {
                    assert(m1.wf());
                }
            }
            return Ok(Status::OperationCompleted);
        }
        if kind == 2 {
            let ghost m0 = self.model();
            let ghost o0 = self.objects@;
            let ghost rs0 = self.resources@;
            let ghost closed = set![h];
            let mut objects = Vec::new();
            let mut resources = Vec::new();
            core::mem::swap(&mut objects, &mut self.objects);
            core::mem::swap(&mut resources, &mut self.resources);
            objects[hi] = None;
            let rn = resources.len();
            let mut j: usize = 0;
            while j < rn
                invariant
                    0 <= j <= rn,
                    rn == resources@.len(),
                    resources@.len() == rs0.len(),
                    forall|k: int|
                        0 <= k < j ==> {
                            &&& (#[trigger] resources@[k]).name@ == rs0[k].name@
                            &&& resources@[k].idn@ == rs0[k].idn@
                            &&& resources@[k].responding == rs0[k].responding
                            &&& sim_lock_view(resources@[k].lock) == release_lock(
                                sim_lock_view(rs0[k].lock),
                                set![h],
                            )
                            &&& holders_sound(resources@[k].lock)
                        },
                    forall|k: int| j <= k < rn ==> #[trigger] resources@[k] == rs0[k],
                    forall|k: int| j <= k < rn ==> holders_sound(#[trigger] resources@[k].lock),
                decreases rn - j,
            {
                let entry = resources.remove(j);
                let new_lock = release_lock_single(entry.lock, h);
                let new_entry = SimResource { lock: new_lock, ..entry };
                resources.insert(j, new_entry);
                j = j + 1;
            }
            proof {
                assert forall|k: int|
                    0 <= k < objects@.len() implies match #[trigger] objects@[k] {
                    Some(SimObject::Session(s)) => res_index_of(resources@, s.resource@) is Some,
                    _ => true,
                } by {
                    if k != hi {
                        match o0[k] {
                            Some(SimObject::Session(s)) => {
                                lemma_res_index_same(rs0, resources@, s.resource@);
                            },
                            _ => {},
                        }
                    }
                }
                assert forall|i2: int, j2: int|
                    0 <= i2 < j2 < resources@.len() implies (#[trigger] resources@[i2]).name@ != (
                #[trigger] resources@[j2]).name@ by {}
            }
            self.resources = resources;
            self.objects = objects;
            proof {
                lemma_obj_at_update(o0, hi as int, None);
                lemma_maps_after_obj_change(o0, self.objects@, h);
                let m1 = self.model();
                assert(m1.sessions.dom() =~= m0.sessions.dom().remove(h));
                assert(m1.sessions =~~= m0.sessions.remove_keys(closed));
                assert(m1.managers =~= m0.managers);
                assert(m1.find_lists =~~= m0.find_lists);
                assert forall|n: Seq<char>| true implies #[trigger] res_index_of(
                    self.resources@,
                    n,
                ) == res_index_of(rs0, n) by {
                    lemma_res_index_same(rs0, self.resources@, n);
                }
                assert(m1.resource_names =~= m0.resource_names);
                assert forall|n: Seq<char>|
                    m1.resources.dom().contains(n) implies m1.resources[n]
                    == m0.resources.map_values(
                    |r: ResourceModel| ResourceModel { lock: release_lock(r.lock, closed), ..r },
                )[n] by {
                    lemma_res_index_of(rs0, n);
                }
                assert(m1.resources.dom() =~= m0.resources.dom());
                assert(m1.resources =~~= m0.resources.map_values(
                    |r: ResourceModel| ResourceModel { lock: release_lock(r.lock, closed), ..r },
                ));
                assert(m0.sessions.dom().contains(h));
                assert(m1 =~~= m0.close_sessions(closed));
                assert(m1 == m0.close_effect(h));
                if m0.wf() {
                    crate::transport::lemma_close_effect_wf(m0, h);
                }
            }
            return Ok(Status::OperationCompleted);
        }
        // A manager: every session opened under it goes with it.
        let ghost m0 = self.model();
        let ghost o0 = self.objects@;
        let ghost rs0 = self.resources@;
        let ghost closed = children_of_table(o0, h);
        let mut objects = Vec::new();
        let mut resources = Vec::new();
        core::mem::swap(&mut objects, &mut self.objects);
        core::mem::swap(&mut resources, &mut self.resources);
        let rn = resources.len();
        let mut j: usize = 0;
        while j < rn
            invariant
                0 <= j <= rn,
                rn == resources@.len(),
                resources@.len() == rs0.len(),
                objects@ == o0,
                closed == children_of_table(o0, h),
                forall|k: int|
                    0 <= k < j ==> {
                        &&& (#[trigger] resources@[k]).name@ == rs0[k].name@
                        &&& resources@[k].idn@ == rs0[k].idn@
                        &&& resources@[k].responding == rs0[k].responding
                        &&& sim_lock_view(resources@[k].lock) == release_lock(
                            sim_lock_view(rs0[k].lock),
                            closed,
                        )
                        &&& holders_sound(resources@[k].lock)
                    },
                forall|k: int| j <= k < rn ==> #[trigger] resources@[k] == rs0[k],
                forall|k: int| j <= k < rn ==> holders_sound(#[trigger] resources@[k].lock),
            decreases rn - j,
        {
            let entry = resources.remove(j);
            let new_lock = release_lock_children(entry.lock, &objects, h);
            let new_entry = SimResource { lock: new_lock, ..entry };
            resources.insert(j, new_entry);
            j = j + 1;
        }
        let on = objects.len();
        let mut k: usize = 0;
        while k < on
            invariant
                0 <= k <= on,
                on == objects@.len(),
                objects@.len() == o0.len(),
                forall|k2: int|
                    0 <= k2 < k ==> #[trigger] objects@[k2] == (if is_child_slot(o0[k2], h) {
                        None
                    } else {
                        o0[k2]
                    }),
                forall|k2: int| k <= k2 < on ==> #[trigger] objects@[k2] == o0[k2],
            decreases on - k,
        {
            let remove_slot = match &objects[k] {
                Some(SimObject::Session(s)) => s.parent == h,
                _ => false,
            };
            if remove_slot {
                objects[k] = None;
            }
            k = k + 1;
        }
        objects[hi] = None;
        proof {
            assert forall|k2: int|
                0 <= k2 < objects@.len() implies match #[trigger] objects@[k2] {
                Some(SimObject::Session(s)) => res_index_of(resources@, s.resource@) is Some,
                _ => true,
            } by {
                if objects@[k2] is Some && k2 != hi {
                    assert(objects@[k2] == o0[k2]);
                    match o0[k2] {
                        Some(SimObject::Session(s)) => {
                            lemma_res_index_same(rs0, resources@, s.resource@);
                        },
                        _ => {},
                    }
                }
            }
            assert forall|i2: int, j2: int|
                0 <= i2 < j2 < resources@.len() implies (#[trigger] resources@[i2]).name@ != (
            #[trigger] resources@[j2]).name@ by {}
        }
        self.resources = resources;
        self.objects = objects;
        proof {
            assert forall|h2: ViSession| true implies #[trigger] obj_at(self.objects@, h2) == (
            if h2 == h {
                None
            } else if is_child_slot(obj_at(o0, h2), h) {
                None
            } else {
                obj_at(o0, h2)
            }) by {
                if (h2 as int) < o0.len() && h2 != h {
                    assert(self.objects@[h2 as int] == (if is_child_slot(o0[h2 as int], h) {
                        None
                    } else {
                        o0[h2 as int]
                    }));
                }
            }
            let m1 = self.model();
            assert forall|h2: ViSession| true implies (closed.contains(h2) <==> (
            m0.sessions.dom().contains(h2) && m0.sessions[h2].parent == h)) by {}
            assert(closed =~= m0.children_of(h));
            assert(m1.sessions.dom() =~= m0.sessions.dom().difference(closed));
            assert(m1.sessions =~~= m0.sessions.remove_keys(closed));
            assert(m1.managers =~= m0.managers.remove(h));
            assert(m1.find_lists =~~= m0.find_lists);
            assert forall|n: Seq<char>| true implies #[trigger] res_index_of(self.resources@, n)
                == res_index_of(rs0, n) by {
                lemma_res_index_same(rs0, self.resources@, n);
            }
            assert(m1.resource_names =~= m0.resource_names);
            assert forall|n: Seq<char>|
                m1.resources.dom().contains(n) implies m1.resources[n] == m0.resources.map_values(
                |r: ResourceModel| ResourceModel { lock: release_lock(r.lock, closed), ..r },
            )[n] by {
                lemma_res_index_of(rs0, n);
            }
            assert(m1.resources.dom() =~= m0.resources.dom());
            assert(m1.resources =~~= m0.resources.map_values(
                |r: ResourceModel| ResourceModel { lock: release_lock(r.lock, closed), ..r },
            ));
            assert(!m0.sessions.dom().contains(h));
            assert(m0.managers.contains(h));
            let mc = m0.close_sessions(m0.children_of(h));
            assert(m0.close_sessions(closed) =~~= mc);
            assert(m1 =~~= (TransportModel { managers: mc.managers.remove(h), ..mc }));
            assert(m1 == m0.close_effect(h));
            if m0.wf() {
                crate::transport::lemma_close_effect_wf(m0, h);
            }
        }
        Ok(Status::OperationCompleted)
    }

    fn write_chunk(&mut self, h: ViSession, data: &[u8]) -> (r: Result<u32, VisaError>) {
        proof {
            use_type_invariant(&*self);
        }
        let ri = match self.session_io_gate(h) {
            Ok(ri) => ri,
            Err(e) => {
                return Err(e);
            },
        };
        if data.len() == 0 {
            return Ok(0);
        }
        let ghost m0 = self.model();
        let ghost o0 = self.objects@;
        let hi = h as usize;
        let mut objects = Vec::new();
        core::mem::swap(&mut objects, &mut self.objects);
        let mut slot: Option<SimObject> = None;
        core::mem::swap(&mut slot, &mut objects[hi]);
        match slot {
            Some(SimObject::Session(mut sess)) => {
                let ghost s0 = sim_session_view(sess);
                proof {
                    assert(m0.sessions[h] == s0);
                    assert(m0.resources[s0.resource] == sim_resource_view(
                        self.resources@[ri as int],
                    ));
                }
                process_data(&mut sess, &self.resources[ri], data);
                let ghost s1 = sim_session_view(sess);
                let ghost sessg = sess;
                objects[hi] = Some(SimObject::Session(sess));
                proof {
                    assert(forall|k: int| 0 <= k < o0.len() && k != hi ==> objects@[k] == o0[k]);
                    crate::transport::lemma_process_write_preserves_identity(
                        s0,
                        sim_resource_view(self.resources@[ri as int]),
                        data@,
                    );
                }
                self.objects = objects;
                proof {
                    lemma_obj_at_update(o0, hi as int, Some(SimObject::Session(sessg)));
                    lemma_maps_after_obj_change(o0, self.objects@, h);
                    let m1 = self.model();
                    assert(m1.sessions =~~= m0.sessions.insert(h, s1));
                    assert(m1.managers =~= m0.managers);
                    assert(m1.find_lists =~~= m0.find_lists);
                    assert(m1.resources =~~= m0.resources);
                    assert(m1.resource_names =~= m0.resource_names);
                    assert(data@.take(data@.len() as int) =~= data@);
                    assert(m1 =~~= m0.write_effect(h, data@));
                    if m0.wf() {
                        crate::transport::lemma_write_effect_frame(m0, h, data@);
                    }
                }
                Ok(data.len() as u32)
            },
            _ => {
                proof {
                    assert(false);
                }
                Err(VisaError::InvalidObject)
            },
        }
    }

    fn read_chunk(&mut self, h: ViSession, max: u32) -> (r: Result<Vec<u8>, VisaError>) {
        proof {
            use_type_invariant(&*self);
        }
        match self.session_io_gate(h) {
            Ok(_ri) => {},
            Err(e) => {
                return Err(e);
            },
        }
        let ghost m0 = self.model();
        let ghost o0 = self.objects@;
        let hi = h as usize;
        let mut objects = Vec::new();
        core::mem::swap(&mut objects, &mut self.objects);
        let mut slot: Option<SimObject> = None;
        core::mem::swap(&mut slot, &mut objects[hi]);
        match slot {
            Some(SimObject::Session(mut sess)) => {
                let ghost s0 = sim_session_view(sess);
                proof {
                    assert(m0.sessions[h] == s0);
                }
                if sess.rx.len() == 0 {
                    let ghost sessg = sess;
                    objects[hi] = Some(SimObject::Session(sess));
                    proof {
                        assert(forall|k: int|
                            0 <= k < o0.len() && k != hi ==> objects@[k] == o0[k]);
                        assert(objects@[hi as int] == o0[hi as int]);
                        assert(objects@ =~= o0);
                    }
                    self.objects = objects;
                    return Err(VisaError::Timeout);
                }
                let lim = if (max as usize) <= sess.rx.len() {
                    max as usize
                } else {
                    sess.rx.len()
                };
                let head = vstd::slice::slice_subrange(sess.rx.as_slice(), 0, lim);
                proof {
                    crate::text::lemma_first_index_of(head@, 10u8);
                }
                let amount = match find_byte(head, 10u8) {
                    Some(i) => i + 1,
                    None => lim,
                };
                proof {
                    assert(head@ =~= s0.rx.take(lim as int));
                    assert(amount == read_amount(s0.rx, max as nat));
                    assert(1 <= amount <= s0.rx.len());
                }
                let chunk = slice_to_vec(
                    vstd::slice::slice_subrange(sess.rx.as_slice(), 0, amount),
                );
                let rest = slice_to_vec(
                    vstd::slice::slice_subrange(sess.rx.as_slice(), amount, sess.rx.len()),
                );
                sess.rx = rest;
                let ghost s1 = sim_session_view(sess);
                let ghost sessg = sess;
                objects[hi] = Some(SimObject::Session(sess));
                proof {
                    assert(forall|k: int| 0 <= k < o0.len() && k != hi ==> objects@[k] == o0[k]);
                }
                self.objects = objects;
                proof {
                    lemma_obj_at_update(o0, hi as int, Some(SimObject::Session(sessg)));
                    lemma_maps_after_obj_change(o0, self.objects@, h);
                    let m1 = self.model();
                    assert(s1 == (SessionModel {
                        rx: s0.rx.skip(read_amount(s0.rx, max as nat) as int),
                        ..s0
                    }));
                    assert(m1.sessions =~~= m0.sessions.insert(h, s1));
                    assert(m1.managers =~= m0.managers);
                    assert(m1.find_lists =~~= m0.find_lists);
                    assert(m1.resources =~~= m0.resources);
                    assert(m1.resource_names =~= m0.resource_names);
                    assert(m1 =~~= m0.with_session(h, s1));
                    assert(chunk@ == s0.rx.take(read_amount(s0.rx, max as nat) as int));
                    if m0.wf() {
                        assert(m1.sessions.dom() =~= m0.sessions.dom());
                        assert(m1.wf());
                    }
                }
                Ok(chunk)
            },
            _ => {
                proof {
                    assert(false);
                }
                Err(VisaError::InvalidObject)
            },
        }
    }

    fn flush(&mut self, h: ViSession, mode: FlushMode) -> (r: Result<Status, VisaError>) {
        proof {
            use_type_invariant(&*self);
        }
        let hi = h as usize;
        let is_session = hi < self.objects.len() && (match &self.objects[hi] {
            Some(SimObject::Session(_)) => true,
            _ => false,
        });
        if !is_session {
            return Err(VisaError::InvalidObject);
        }
        if !mode.is_valid_mask() {
            return Err(VisaError::InvalidBufferMask);
        }
        if !mode.discards_read() {
            return Ok(Status::OperationCompleted);
        }
        let ghost m0 = self.model();
        let ghost o0 = self.objects@;
        let mut objects = Vec::new();
        core::mem::swap(&mut objects, &mut self.objects);
        let mut slot: Option<SimObject> = None;
        core::mem::swap(&mut slot, &mut objects[hi]);
        match slot {
            Some(SimObject::Session(mut sess)) => {
                let ghost s0 = sim_session_view(sess);
                proof {
                    assert(m0.sessions[h] == s0);
                }
                sess.rx = Vec::new();
                let ghost s1 = sim_session_view(sess);
                let ghost sessg = sess;
                objects[hi] = Some(SimObject::Session(sess));
                proof {
                    assert(forall|k: int| 0 <= k < o0.len() && k != hi ==> objects@[k] == o0[k]);
                }
                self.objects = objects;
                proof {
                    lemma_obj_at_update(o0, hi as int, Some(SimObject::Session(sessg)));
                    lemma_maps_after_obj_change(o0, self.objects@, h);
                    let m1 = self.model();
                    assert(m1.sessions =~~= m0.sessions.insert(h, s1));
                    assert(m1.managers =~= m0.managers);
                    assert(m1.find_lists =~~= m0.find_lists);
                    assert(m1.resources =~~= m0.resources);
                    assert(m1.resource_names =~= m0.resource_names);
                    assert(m1 =~~= m0.with_session(
                        h,
                        (SessionModel { rx: seq![], ..m0.sessions[h] }),
                    ));
                    if m0.wf() {
                        assert(m1.sessions.dom() =~= m0.sessions.dom());
                        assert(m1.wf());
                    }
                }
                Ok(Status::OperationCompleted)
            },
            _ => {
                proof {
                    assert(false);
                }
                Err(VisaError::InvalidObject)
            },
        }
    }

    fn lock(
        &mut self,
        h: ViSession,
        mode: AccessMode,
        timeout_ms: u32,
        key: Option<&str>,
    ) -> (r: Result<Option<String>, VisaError>) {
        proof {
            use_type_invariant(&*self);
        }
        let resource_name = match self.session_resource_name(h) {
            Some(n) => n,
            None => {
                return Err(VisaError::InvalidObject);
            },
        };
        let ri = match res_lookup(&self.resources, &resource_name) {
            Some(ri) => ri,
            None => {
                proof {
                    lemma_res_index_of(self.resources@, resource_name@);
                    assert(false);
                }
                return Err(VisaError::InvalidObject);
            },
        };
        proof {
            lemma_res_index_of(self.resources@, resource_name@);
        }
        let ghost m0 = self.model();
        let ghost rs0 = self.resources@;
        let ghost name = resource_name@;
        proof {
            assert(m0.sessions[h].resource == name);
            assert(m0.resources[name] == sim_resource_view(rs0[ri as int]));
        }
        let wants_shared = mode.has_shared_lock();
        let wants_exclusive = mode.has_exclusive_lock();
        if !wants_shared && !wants_exclusive {
            return Err(VisaError::InvalidLockType);
        }
        let mut take_shared_key: Option<String> = None;
        let mut join_key: Option<String> = None;
        let mut take_exclusive: bool = false;
        let mut refusal: Option<VisaError> = None;
        match &self.resources[ri].lock {
            SimLock::Unlocked => {
                if wants_shared {
                    match key {
                        Some(k) => {
                            take_shared_key = Some(k.to_owned());
                        },
                        None => {
                            let generated = String::from_str("session-access-key");
                            proof {
                                reveal_strlit("session-access-key");
                                assert(!generated@.contains('\u{0}')) by {
                                    if generated@.contains('\u{0}') {
                                        let i = choose|i: int|
                                            0 <= i < generated@.len() && generated@[i] == '\u{0}';
                                        assert(false);
                                    }
                                }
                            }
                            take_shared_key = Some(generated);
                        },
                    }
                } else {
                    take_exclusive = true;
                }
            },
            SimLock::Shared(k0, _) => {
                if wants_shared {
                    match key {
                        Some(k) => {
                            if *k0 == k.to_owned() {
                                join_key = Some(k0.clone());
                            } else {
                                refusal = Some(VisaError::InvalidAccessKey);
                            }
                        },
                        None => {
                            refusal = Some(VisaError::ResourceLocked);
                        },
                    }
                } else {
                    refusal = Some(VisaError::ResourceLocked);
                }
            },
            SimLock::Exclusive(_) => {
                refusal = Some(VisaError::ResourceLocked);
            },
        }
        match refusal {
            Some(e) => {
                return Err(e);
            },
            None => {},
        }
        if take_exclusive {
            self.set_resource_lock(ri, SimLock::Exclusive(h));
            proof {
                lemma_lock_only_change(self.objects@, rs0, self.resources@, ri as int);
                let m1 = self.model();
                assert(m1.sessions =~~= m0.sessions);
                assert(m1.managers =~= m0.managers);
                assert(m1.find_lists =~~= m0.find_lists);
                assert(m1 =~~= m0.with_lock(name, LockModel::Exclusive(h)));
                if m0.wf() {
                    lemma_wf_after_lock_change(m0, m1, name, h);
                }
            }
            return Ok(None);
        }
        match take_shared_key {
            Some(k) => {
                let stored = k.clone();
                let holders: Vec<ViSession> = vec![h];
                proof {
                    assert(holders@ =~= seq![h]);
                }
                self.set_resource_lock(ri, SimLock::Shared(stored, holders));
                proof {
                    lemma_lock_only_change(self.objects@, rs0, self.resources@, ri as int);
                    assert(seq![h].to_set() =~= set![h]);
                    let m1 = self.model();
                    assert(m1.sessions =~~= m0.sessions);
                    assert(m1.managers =~= m0.managers);
                    assert(m1.find_lists =~~= m0.find_lists);
                    assert(m1 =~~= m0.with_lock(name, LockModel::Shared(k@, set![h])));
                    if m0.wf() {
                        assert(set![h].contains(h));
                        assert(set![h] != Set::<ViSession>::empty());
                        lemma_wf_after_lock_change(m0, m1, name, h);
                    }
                }
                return Ok(Some(k));
            },
            None => {},
        }
        match join_key {
            Some(k) => {
                let mut new_holders: Vec<ViSession>;
                let key_copy: String;
                match &self.resources[ri].lock {
                    SimLock::Shared(k0, hs) => {
                        key_copy = k0.clone();
                        new_holders = slice_to_vec(hs.as_slice());
                    },
                    _ => {
                        proof {
                            assert(false);
                        }
                        return Err(VisaError::InvalidObject);
                    },
                }
                let ghost hs0 = new_holders@;
                let already = holders_contain(&new_holders, h);
                if !already {
                    new_holders.push(h);
                }
                proof {
                    assert forall|x: ViSession|
                        new_holders@.to_set().contains(x) <==> hs0.to_set().insert(h).contains(
                            x,
                        ) by {
                        if new_holders@.contains(x) {
                            let kk = choose|kk: int|
                                0 <= kk < new_holders@.len() && new_holders@[kk] == x;
                            if kk < hs0.len() {
                                assert(hs0[kk] == x);
                            } else {
                                assert(x == h);
                            }
                        }
                        if hs0.contains(x) {
                            let kk = choose|kk: int| 0 <= kk < hs0.len() && hs0[kk] == x;
                            assert(new_holders@[kk] == x);
                        }
                        if x == h {
                            if already {
                                assert(hs0.contains(h));
                            } else {
                                assert(new_holders@[new_holders@.len() - 1] == h);
                            }
                        }
                    }
                    assert(new_holders@.to_set() =~= hs0.to_set().insert(h));
                    assert forall|a: int, b: int|
                        0 <= a < b < new_holders@.len() implies new_holders@[a]
                        != new_holders@[b] by {
                        if !already && b == new_holders@.len() - 1 {
                            assert(!hs0.contains(h));
                            assert(hs0[a] == new_holders@[a]);
                        }
                    }
                    assert(new_holders@.len() > 0);
                }
                self.set_resource_lock(ri, SimLock::Shared(key_copy, new_holders));
                proof {
                    lemma_lock_only_change(self.objects@, rs0, self.resources@, ri as int);
                    let m1 = self.model();
                    assert(m1.sessions =~~= m0.sessions);
                    assert(m1.managers =~= m0.managers);
                    assert(m1.find_lists =~~= m0.find_lists);
                    match sim_lock_view(rs0[ri as int].lock) {
                        LockModel::Shared(k0v, holders0) => {
                            assert(m1 =~~= m0.with_lock(
                                name,
                                LockModel::Shared(k0v, holders0.insert(h)),
                            ));
                        },
                        _ => {
                            assert(false);
                        },
                    }
                    if m0.wf() {
                        assert(crate::transport::lock_holders_live(
                            m0.resources[name].lock,
                            m0.sessions.dom(),
                        ));
                        match sim_lock_view(rs0[ri as int].lock) {
                            LockModel::Shared(k0v, holders0) => {
                                assert(holders0.insert(h).contains(h));
                                assert(holders0.insert(h) != Set::<ViSession>::empty());
                                assert(holders0.insert(h).subset_of(
                                    m0.sessions.dom().insert(h),
                                ));
                            },
                            _ => {},
                        }
                        lemma_wf_after_lock_change(m0, self.model(), name, h);
                    }
                }
                return Ok(Some(k));
            },
            None => {},
        }
        proof {
            assert(false);
        }
        Err(VisaError::InvalidObject)
    }

    fn unlock(&mut self, h: ViSession) -> (r: Result<Status, VisaError>) {
        proof {
            use_type_invariant(&*self);
        }
        let resource_name = match self.session_resource_name(h) {
            Some(n) => n,
            None => {
                return Err(VisaError::InvalidObject);
            },
        };
        let ri = match res_lookup(&self.resources, &resource_name) {
            Some(ri) => ri,
            None => {
                proof {
                    lemma_res_index_of(self.resources@, resource_name@);
                    assert(false);
                }
                return Err(VisaError::InvalidObject);
            },
        };
        proof {
            lemma_res_index_of(self.resources@, resource_name@);
        }
        let ghost m0 = self.model();
        let ghost rs0 = self.resources@;
        let ghost name = resource_name@;
        proof {
            assert(m0.sessions[h].resource == name);
            assert(m0.resources[name] == sim_resource_view(rs0[ri as int]));
        }
        let holds = match &self.resources[ri].lock {
            SimLock::Unlocked => false,
            SimLock::Exclusive(owner) => *owner == h,
            SimLock::Shared(_, hs) => holders_contain(hs, h),
        };
        if !holds {
            return Err(VisaError::SessionNotLocked);
        }
        let new_lock = match &self.resources[ri].lock {
            SimLock::Exclusive(_) => SimLock::Unlocked,
            SimLock::Shared(k0, hs) => {
                let rebuilt = SimLock::Shared(k0.clone(), slice_to_vec(hs.as_slice()));
                proof {
                    assert(sim_lock_view(rebuilt) == sim_lock_view(rs0[ri as int].lock));
                }
                release_lock_single(rebuilt, h)
            },
            SimLock::Unlocked => {
                proof {
                    assert(false);
                }
                SimLock::Unlocked
            },
        };
        let ghost new_lock_view = sim_lock_view(new_lock);
        self.set_resource_lock(ri, new_lock);
        proof {
            lemma_lock_only_change(self.objects@, rs0, self.resources@, ri as int);
            let m1 = self.model();
            assert(m1.sessions =~~= m0.sessions);
            assert(m1.managers =~= m0.managers);
            assert(m1.find_lists =~~= m0.find_lists);
            match sim_lock_view(rs0[ri as int].lock) {
                LockModel::Unlocked => {
                    assert(false);
                },
                LockModel::Exclusive(owner) => {
                    assert(owner == h);
                    assert(m1 =~~= m0.with_lock(name, LockModel::Unlocked));
                },
                LockModel::Shared(k0v, holders0) => {
                    assert(holders0.contains(h));
                    assert(holders0.remove(h) =~= holders0.difference(set![h]));
                    if holders0.remove(h) =~= Set::<ViSession>::empty() {
                        assert(new_lock_view == LockModel::Unlocked);
                        assert(m1 =~~= m0.with_lock(name, LockModel::Unlocked));
                    } else {
                        assert(new_lock_view == LockModel::Shared(
                            k0v,
                            holders0.difference(set![h]),
                        ));
                        assert(m1 =~~= m0.with_lock(
                            name,
                            LockModel::Shared(k0v, holders0.remove(h)),
                        ));
                    }
                },
            }
            if m0.wf() {
                lemma_wf_after_lock_change(m0, self.model(), name, h);
            }
        }
        Ok(Status::OperationCompleted)
    }

    fn status_description(&self, h: ViSession, code: i32) -> (r: Result<String, VisaError>) {
        let hi = h as usize;
        let live = hi < self.objects.len() && (match &self.objects[hi] {
            Some(_) => true,
            None => false,
        });
        if live {
            Ok(String::from_str("status rendered by the in-memory transport"))
        } else {
            Err(VisaError::InvalidObject)
        }
    }
}

/// Well-formedness survives a lock change whose new holders are live.
proof fn lemma_wf_after_lock_change(
    m0: TransportModel,
    m1: TransportModel,
    name: Seq<char>,
    h: ViSession,
)
    requires
        m0.wf(),
        m1.sessions == m0.sessions,
        m1.resource_names == m0.resource_names,
        m1.resources.dom() =~= m0.resources.dom(),
        m0.sessions.dom().contains(h),
        forall|n: Seq<char>|
            n != name && m1.resources.dom().contains(n) ==> #[trigger] m1.resources[n]
                == m0.resources[n],
        m1.resources.dom().contains(name),
        crate::transport::lock_holders_live(m1.resources[name].lock, m0.sessions.dom().insert(h)),
    ensures
        m1.wf(),
{
    assert(m0.sessions.dom().insert(h) =~= m0.sessions.dom());
    assert forall|res: Seq<char>|
        m1.resources.dom().contains(res) implies crate::transport::lock_holders_live(
        (#[trigger] m1.resources[res]).lock,
        m1.sessions.dom(),
    ) by {
        if res != name {
            assert(m1.resources[res] == m0.resources[res]);
            assert(m0.resources.dom().contains(res));
        }
    }
}

} // verus!
