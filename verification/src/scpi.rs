//! The identification snapshot of an instrument and its parser, plus the
//! small command vocabulary every instrument answers (reset, self test,
//! status registers), built on the write/read/query protocol.
//!
//! An identification response is comma-delimited: the first three commas
//! separate manufacturer, model and serial number; the fourth field, the
//! firmware version, keeps any further commas. Fields are trimmed. A response
//! missing one of the three delimiters is rejected, naming the first field
//! whose delimiter was absent.

use vstd::prelude::*;
use vstd::string::StrSliceExecFns;
use vstd::utf8::{decode_utf8, valid_utf8};
use crate::error::{Error, IdentificationField, IoErrorKind, VisaError};
use crate::instrument::{io_write_post, query_post, Instrument};
use crate::session::{Session, ViSession};
use crate::text::{find_char, first_index_of, spec_first_line, spec_trim, trim_to_string};
use crate::transport::{
    idn_query_bytes, lemma_read_effect_frame, lemma_write_effect_frame, ResourceModel,
    SessionModel, Transport, TransportModel,
};

verus! {

/// The identification snapshot captured from an instrument: manufacturer,
/// model, serial number and firmware version.
#[derive(Clone, Debug, PartialEq, PartialOrd, Hash)]
pub struct Identification {
    pub manufacturer: String,
    pub model: String,
    pub serial_number: String,
    pub firmware_version: String,
}

/// The mathematical value of an identification: its four fields as character
/// sequences.
pub ghost struct IdentificationView {
    pub manufacturer: Seq<char>,
    pub model: Seq<char>,
    pub serial_number: Seq<char>,
    pub firmware_version: Seq<char>,
}

impl View for Identification {
    type V = IdentificationView;

    open spec fn view(&self) -> IdentificationView {
        IdentificationView {
            manufacturer: self.manufacturer@,
            model: self.model@,
            serial_number: self.serial_number@,
            firmware_version: self.firmware_version@,
        }
    }
}

/// What parsing an identification response yields: the four trimmed fields,
/// split at the first three commas, or the first field whose comma delimiter
/// was missing.
pub open spec fn spec_parse_identification(s: Seq<char>) -> Result<
    IdentificationView,
    IdentificationField,
> {
    match first_index_of(s, ',') {
        None => Err(IdentificationField::Model),
        Some(i) => {
            let after_manufacturer = s.skip(i + 1);
            match first_index_of(after_manufacturer, ',') {
                None => Err(IdentificationField::SerialNumber),
                Some(j) => {
                    let after_model = after_manufacturer.skip(j + 1);
                    match first_index_of(after_model, ',') {
                        None => Err(IdentificationField::FirmwareVersion),
                        Some(k) => Ok(
                            IdentificationView {
                                manufacturer: spec_trim(s.take(i)),
                                model: spec_trim(after_manufacturer.take(j)),
                                serial_number: spec_trim(after_model.take(k)),
                                firmware_version: spec_trim(after_model.skip(k + 1)),
                            },
                        ),
                    }
                },
            }
        },
    }
}

impl Identification {
    /// An equal copy of this identification.
    pub fn duplicate(&self) -> (r: Identification)
        ensures
            r == *self,
    {
        Identification {
            manufacturer: self.manufacturer.clone(),
            model: self.model.clone(),
            serial_number: self.serial_number.clone(),
            firmware_version: self.firmware_version.clone(),
        }
    }

    /// Parses a comma-delimited identification response into its four
    /// trimmed fields.
    pub fn parse(s: &str) -> (r: Result<Identification, Error>)
        ensures
            match (r, spec_parse_identification(s@)) {
                (Ok(id), Ok(v)) => id@ == v,
                (Err(e), Err(f)) => e == Error::InvalidIdentification(f),
                _ => false,
            },
    {
        let n = s.unicode_len();
        let i = match find_char(s, ',') {
            Some(i) => i,
            None => {
                return Err(Error::InvalidIdentification(IdentificationField::Model));
            },
        };
        proof {
            crate::text::lemma_first_index_of(s@, ',');
        }
        let manufacturer_part = s.substring_char(0, i);
        let after_manufacturer = s.substring_char(i + 1, n);
        proof {
            assert(manufacturer_part@ =~= s@.take(i as int));
            assert(after_manufacturer@ =~= s@.skip(i + 1));
        }
        let n1 = after_manufacturer.unicode_len();
        let j = match find_char(after_manufacturer, ',') {
            Some(j) => j,
            None => {
                return Err(Error::InvalidIdentification(IdentificationField::SerialNumber));
            },
        };
        proof {
            crate::text::lemma_first_index_of(after_manufacturer@, ',');
        }
        let model_part = after_manufacturer.substring_char(0, j);
        let after_model = after_manufacturer.substring_char(j + 1, n1);
        proof {
            assert(model_part@ =~= after_manufacturer@.take(j as int));
            assert(after_model@ =~= after_manufacturer@.skip(j + 1));
        }
        let n2 = after_model.unicode_len();
        let k = match find_char(after_model, ',') {
            Some(k) => k,
            None => {
                return Err(Error::InvalidIdentification(IdentificationField::FirmwareVersion));
            },
        };
        proof {
            crate::text::lemma_first_index_of(after_model@, ',');
        }
        let serial_part = after_model.substring_char(0, k);
        let firmware_part = after_model.substring_char(k + 1, n2);
        proof {
            assert(serial_part@ =~= after_model@.take(k as int));
            assert(firmware_part@ =~= after_model@.skip(k + 1));
        }
        Ok(
            Identification {
                manufacturer: trim_to_string(manufacturer_part),
                model: trim_to_string(model_part),
                serial_number: trim_to_string(serial_part),
                firmware_version: trim_to_string(firmware_part),
            },
        )
    }
}

/// Whether an identification exchange on session `h` can run: the handle is
/// live and no lock is held against it.
pub open spec fn idn_io_allowed(m: TransportModel, h: ViSession) -> bool {
    m.sessions.dom().contains(h) && m.io_permitted(h)
}

/// The transport state after a full identification exchange on `h`: the
/// query line is written, and the one-line answer (or everything pending, if
/// no full line arrives) is consumed.
pub open spec fn idn_exchange_model(m: TransportModel, h: ViSession) -> TransportModel {
    m.write_effect(h, idn_query_bytes()).read_effect(h)
}

/// What an identification exchange on `h` yields: the parsed snapshot, or the
/// error that stopped it (no full answer line, text that is not UTF-8, or a
/// response missing a field).
pub open spec fn idn_exchange_result(m: TransportModel, h: ViSession) -> Result<
    IdentificationView,
    Error,
> {
    let mw = m.write_effect(h, idn_query_bytes());
    match spec_first_line(mw.sessions[h].rx) {
        Some(line) => if valid_utf8(line) {
            match spec_parse_identification(decode_utf8(line)) {
                Ok(v) => Ok(v),
                Err(f) => Err(Error::InvalidIdentification(f)),
            }
        } else {
            Err(Error::Io(IoErrorKind::InvalidData))
        },
        None => Err(Error::Visa(VisaError::Timeout)),
    }
}

/// What one identification exchange yields on a single session, as a
/// function of that session's buffered streams and its resource alone.
pub open spec fn session_exchange_result(st: SessionModel, rs: ResourceModel) -> Result<
    IdentificationView,
    Error,
> {
    let stw = crate::transport::process_write(st, rs, idn_query_bytes());
    match spec_first_line(stw.rx) {
        Some(line) => if valid_utf8(line) {
            match spec_parse_identification(decode_utf8(line)) {
                Ok(v) => Ok(v),
                Err(f) => Err(Error::InvalidIdentification(f)),
            }
        } else {
            Err(Error::Io(IoErrorKind::InvalidData))
        },
        None => Err(Error::Visa(VisaError::Timeout)),
    }
}

/// The session after that exchange: the command logged, the answer line (or
/// everything pending) consumed.
pub open spec fn session_after_exchange(st: SessionModel, rs: ResourceModel) -> SessionModel {
    let stw = crate::transport::process_write(st, rs, idn_query_bytes());
    match spec_first_line(stw.rx) {
        Some(line) => SessionModel { rx: stw.rx.skip(line.len() as int), ..stw },
        None => SessionModel { rx: seq![], ..stw },
    }
}

/// The identification exchange touches one session: its result and the
/// session's new state are functions of that session and its resource.
pub proof fn lemma_idn_exchange_is_session_local(m: TransportModel, h: ViSession)
    requires
        m.sessions.dom().contains(h),
    ensures
        idn_exchange_result(m, h) == session_exchange_result(
            m.sessions[h],
            m.resources[m.sessions[h].resource],
        ),
        idn_exchange_model(m, h).sessions[h] == session_after_exchange(
            m.sessions[h],
            m.resources[m.sessions[h].resource],
        ),
{
    let st = m.sessions[h];
    let rs = m.resources[st.resource];
    let mw = m.write_effect(h, idn_query_bytes());
    assert(mw.sessions[h] == crate::transport::process_write(st, rs, idn_query_bytes()));
    crate::transport::lemma_write_effect_frame(m, h, idn_query_bytes());
}

/// The exchange result and the streams it leaves behind depend only on the
/// session's pending and receive buffers, not on its identity or its
/// transmit log.
pub proof fn lemma_session_exchange_streams(st1: SessionModel, st2: SessionModel, rs: ResourceModel)
    requires
        st1.pending == st2.pending,
        st1.rx == st2.rx,
    ensures
        session_exchange_result(st1, rs) == session_exchange_result(st2, rs),
        session_after_exchange(st1, rs).pending == session_after_exchange(st2, rs).pending,
        session_after_exchange(st1, rs).rx == session_after_exchange(st2, rs).rx,
{
    crate::transport::lemma_process_write_streams(st1, st2, rs, idn_query_bytes());
}

/// The exchange outcome is decided by the instrument's answers alone: two
/// resources with the same identification line and responding switch answer
/// any session identically.
pub proof fn lemma_session_exchange_resource_depends(
    st: SessionModel,
    r1: ResourceModel,
    r2: ResourceModel,
)
    requires
        r1.idn == r2.idn,
        r1.responding == r2.responding,
    ensures
        session_exchange_result(st, r1) == session_exchange_result(st, r2),
{
    crate::transport::lemma_process_write_resource_depends(st, r1, r2, idn_query_bytes());
}

/// Whether an identification exchange on `h` would succeed: this is the
/// liveness check the resource-manager cache applies to a cached session.
pub open spec fn idn_refresh_ok(m: TransportModel, h: ViSession) -> bool {
    idn_io_allowed(m, h) && idn_exchange_result(m, h) is Ok
}

/// What an identification query does: the exchange runs when the session is
/// live and unimpeded, and its result is handed back.
pub open spec fn idn_query_post(
    m0: TransportModel,
    h: ViSession,
    r: Result<Identification, Error>,
    m1: TransportModel,
) -> bool {
    if !m0.sessions.dom().contains(h) {
        r == Err::<Identification, Error>(Error::Visa(VisaError::InvalidObject)) && m1 == m0
    } else if !m0.io_permitted(h) {
        r == Err::<Identification, Error>(Error::Visa(VisaError::ResourceLocked)) && m1 == m0
    } else {
        m1 == idn_exchange_model(m0, h) && (match (r, idn_exchange_result(m0, h)) {
            (Ok(id), Ok(v)) => id@ == v,
            (Err(e1), Err(e2)) => e1 == e2,
            _ => false,
        })
    }
}

/// What a command that only writes does: exactly a verified write of the
/// command line.
pub open spec fn command_write_post(
    m0: TransportModel,
    h: ViSession,
    cmd: Seq<u8>,
    r: Result<(), Error>,
    m1: TransportModel,
) -> bool {
    io_write_post(m0, h, cmd, r, m1)
}

/// What a command query with a discarded response does: the command line is
/// written and the one-line answer is consumed; only whether an answer
/// arrived is reported.
pub open spec fn command_query_post(
    m0: TransportModel,
    h: ViSession,
    cmd: Seq<u8>,
    r: Result<(), Error>,
    m1: TransportModel,
) -> bool {
    if !m0.sessions.dom().contains(h) {
        r == Err::<(), Error>(Error::Visa(VisaError::InvalidObject)) && m1 == m0
    } else if !m0.io_permitted(h) {
        r == Err::<(), Error>(Error::Visa(VisaError::ResourceLocked)) && m1 == m0
    } else {
        let mw = m0.write_effect(h, cmd);
        m1 == mw.read_effect(h) && (match spec_first_line(mw.sessions[h].rx) {
            Some(line) => if valid_utf8(line) {
                r == Ok::<(), Error>(())
            } else {
                r == Err::<(), Error>(Error::Io(IoErrorKind::InvalidData))
            },
            None => r == Err::<(), Error>(Error::Visa(VisaError::Timeout)),
        })
    }
}

impl Instrument {
    /// Opens an instrument over a freshly opened session: captures the
    /// identification snapshot, or closes the session again and reports why
    /// it gave no identification.
    pub fn new<T: Transport>(session: Session, t: &mut T) -> (r: Result<Instrument, Error>)
        ensures
            ({
                let m0 = old(t).model();
                let h = session@;
                match r {
                    Ok(inst) => {
                        &&& idn_refresh_ok(m0, h)
                        &&& inst@.handle == h
                        &&& idn_exchange_result(m0, h) == Ok::<IdentificationView, Error>(
                            inst@.identification,
                        )
                        &&& final(t).model() == idn_exchange_model(m0, h)
                    },
                    Err(e) => {
                        &&& !idn_refresh_ok(m0, h)
                        &&& if !m0.sessions.dom().contains(h) {
                            e == Error::Visa(VisaError::InvalidObject) && final(t).model()
                                == m0.close_effect(h)
                        } else if !m0.io_permitted(h) {
                            e == Error::Visa(VisaError::ResourceLocked) && final(t).model()
                                == m0.close_effect(h)
                        } else {
                            idn_exchange_result(m0, h) == Err::<IdentificationView, Error>(e)
                                && final(t).model() == idn_exchange_model(m0, h).close_effect(h)
                        }
                    },
                }
            }),
    {
        let ghost m0 = t.model();
        let h = session.as_vi_session();
        let mut instrument = Instrument::from_parts(
            session,
            Identification {
                manufacturer: String::new(),
                model: String::new(),
                serial_number: String::new(),
                firmware_version: String::new(),
            },
        );
        match instrument.query_identification(t) {
            Ok(_) => Ok(instrument),
            Err(e) => {
                proof {
                    if m0.sessions.dom().contains(h) && m0.io_permitted(h) {
                        lemma_write_effect_frame(m0, h, idn_query_bytes());
                        lemma_read_effect_frame(m0.write_effect(h, idn_query_bytes()), h);
                    }
                }
                let _ = t.close(instrument.as_vi_session());
                Err(e)
            },
        }
    }

    /// Queries the instrument's identification and refreshes the cached
    /// snapshot with the answer.
    pub fn query_identification<T: Transport>(&mut self, t: &mut T) -> (r: Result<
        Identification,
        Error,
    >)
        ensures
            idn_query_post(old(t).model(), old(self)@.handle, r, final(t).model()),
            final(self)@.handle == old(self)@.handle,
            match r {
                Ok(id) => final(self)@.identification == id@,
                Err(_) => *final(self) == *old(self),
            },
    {
        let ghost m0 = t.model();
        let ghost h = self@.handle;
        let cmd: Vec<u8> = vec![42u8, 73u8, 68u8, 78u8, 63u8, 10u8];
        proof {
            assert(cmd@ =~= idn_query_bytes());
            if m0.sessions.dom().contains(h) && m0.io_permitted(h) {
                lemma_write_effect_frame(m0, h, cmd@);
            }
        }
        let response = match self.query(t, cmd.as_slice()) {
            Ok(s) => s,
            Err(e) => {
                return Err(e);
            },
        };
        match Identification::parse(response.as_str()) {
            Ok(id) => {
                self.set_identification(id.duplicate());
                Ok(id)
            },
            Err(e) => Err(e),
        }
    }

    /// Resets the instrument to a known state.
    pub fn reset<T: Transport>(&mut self, t: &mut T) -> (r: Result<(), Error>)
        ensures
            command_write_post(
                old(t).model(),
                old(self)@.handle,
                seq![42u8, 82u8, 83u8, 84u8, 10u8],
                r,
                final(t).model(),
            ),
            *final(self) == *old(self),
    {
        let ghost m0 = t.model();
        let ghost h = self@.handle;
        let cmd: Vec<u8> = vec![42u8, 82u8, 83u8, 84u8, 10u8];
        proof {
            assert(cmd@ =~= seq![42u8, 82u8, 83u8, 84u8, 10u8]);
        }
        self.write(t, cmd.as_slice())
    }

    /// Runs the instrument's self test, discarding the verdict line.
    pub fn query_self_test<T: Transport>(&mut self, t: &mut T) -> (r: Result<(), Error>)
        ensures
            command_query_post(
                old(t).model(),
                old(self)@.handle,
                seq![42u8, 84u8, 83u8, 84u8, 63u8, 10u8],
                r,
                final(t).model(),
            ),
            *final(self) == *old(self),
    {
        let ghost m0 = t.model();
        let ghost h = self@.handle;
        let cmd: Vec<u8> = vec![42u8, 84u8, 83u8, 84u8, 63u8, 10u8];
        proof {
            assert(cmd@ =~= seq![42u8, 84u8, 83u8, 84u8, 63u8, 10u8]);
            if m0.sessions.dom().contains(h) && m0.io_permitted(h) {
                lemma_write_effect_frame(m0, h, cmd@);
            }
        }
        match self.query(t, cmd.as_slice()) {
            Ok(_) => Ok(()),
            Err(e) => Err(e),
        }
    }

    /// Asks the instrument to raise its operation-complete flag when all
    /// pending operations finish.
    pub fn operation_complete<T: Transport>(&mut self, t: &mut T) -> (r: Result<(), Error>)
        ensures
            command_write_post(
                old(t).model(),
                old(self)@.handle,
                seq![42u8, 79u8, 80u8, 67u8, 10u8],
                r,
                final(t).model(),
            ),
            *final(self) == *old(self),
    {
        let ghost m0 = t.model();
        let ghost h = self@.handle;
        let cmd: Vec<u8> = vec![42u8, 79u8, 80u8, 67u8, 10u8];
        proof {
            assert(cmd@ =~= seq![42u8, 79u8, 80u8, 67u8, 10u8]);
        }
        self.write(t, cmd.as_slice())
    }

    /// Waits for the instrument to answer that pending operations completed,
    /// discarding the answer line.
    pub fn query_operation_completed<T: Transport>(&mut self, t: &mut T) -> (r: Result<(), Error>)
        ensures
            command_query_post(
                old(t).model(),
                old(self)@.handle,
                seq![42u8, 79u8, 80u8, 67u8, 63u8, 10u8],
                r,
                final(t).model(),
            ),
            *final(self) == *old(self),
    {
        let ghost m0 = t.model();
        let ghost h = self@.handle;
        let cmd: Vec<u8> = vec![42u8, 79u8, 80u8, 67u8, 63u8, 10u8];
        proof {
            assert(cmd@ =~= seq![42u8, 79u8, 80u8, 67u8, 63u8, 10u8]);
            if m0.sessions.dom().contains(h) && m0.io_permitted(h) {
                lemma_write_effect_frame(m0, h, cmd@);
            }
        }
        match self.query(t, cmd.as_slice()) {
            Ok(_) => Ok(()),
            Err(e) => Err(e),
        }
    }

    /// Tells the instrument to hold further commands until pending
    /// operations finish.
    pub fn wait_on_complete<T: Transport>(&mut self, t: &mut T) -> (r: Result<(), Error>)
        ensures
            command_write_post(
                old(t).model(),
                old(self)@.handle,
                seq![42u8, 87u8, 65u8, 73u8, 10u8],
                r,
                final(t).model(),
            ),
            *final(self) == *old(self),
    {
        let ghost m0 = t.model();
        let ghost h = self@.handle;
        let cmd: Vec<u8> = vec![42u8, 87u8, 65u8, 73u8, 10u8];
        proof {
            assert(cmd@ =~= seq![42u8, 87u8, 65u8, 73u8, 10u8]);
        }
        self.write(t, cmd.as_slice())
    }

    /// Clears the instrument's status registers.
    pub fn clear_status<T: Transport>(&mut self, t: &mut T) -> (r: Result<(), Error>)
        ensures
            command_write_post(
                old(t).model(),
                old(self)@.handle,
                seq![42u8, 67u8, 76u8, 83u8, 10u8],
                r,
                final(t).model(),
            ),
            *final(self) == *old(self),
    {
        let ghost m0 = t.model();
        let ghost h = self@.handle;
        let cmd: Vec<u8> = vec![42u8, 67u8, 76u8, 83u8, 10u8];
        proof {
            assert(cmd@ =~= seq![42u8, 67u8, 76u8, 83u8, 10u8]);
        }
        self.write(t, cmd.as_slice())
    }

    /// Sets the event-status-enable register.
    pub fn event_status_enable<T: Transport>(&mut self, t: &mut T) -> (r: Result<(), Error>)
        ensures
            command_write_post(
                old(t).model(),
                old(self)@.handle,
                seq![42u8, 69u8, 83u8, 69u8, 10u8],
                r,
                final(t).model(),
            ),
            *final(self) == *old(self),
    {
        let ghost m0 = t.model();
        let ghost h = self@.handle;
        let cmd: Vec<u8> = vec![42u8, 69u8, 83u8, 69u8, 10u8];
        proof {
            assert(cmd@ =~= seq![42u8, 69u8, 83u8, 69u8, 10u8]);
        }
        self.write(t, cmd.as_slice())
    }

    /// Reads the event-status-enable register, discarding the answer line.
    pub fn query_event_status_enable<T: Transport>(&mut self, t: &mut T) -> (r: Result<(), Error>)
        ensures
            command_query_post(
                old(t).model(),
                old(self)@.handle,
                seq![42u8, 69u8, 83u8, 69u8, 63u8, 10u8],
                r,
                final(t).model(),
            ),
            *final(self) == *old(self),
    {
        let ghost m0 = t.model();
        let ghost h = self@.handle;
        let cmd: Vec<u8> = vec![42u8, 69u8, 83u8, 69u8, 63u8, 10u8];
        proof {
            assert(cmd@ =~= seq![42u8, 69u8, 83u8, 69u8, 63u8, 10u8]);
            if m0.sessions.dom().contains(h) && m0.io_permitted(h) {
                lemma_write_effect_frame(m0, h, cmd@);
            }
        }
        match self.query(t, cmd.as_slice()) {
            Ok(_) => Ok(()),
            Err(e) => Err(e),
        }
    }

    /// Reads the event-status register, discarding the answer line.
    pub fn query_event_status_register<T: Transport>(&mut self, t: &mut T) -> (r: Result<
        (),
        Error,
    >)
        ensures
            command_query_post(
                old(t).model(),
                old(self)@.handle,
                seq![42u8, 69u8, 83u8, 82u8, 63u8, 10u8],
                r,
                final(t).model(),
            ),
            *final(self) == *old(self),
    {
        let ghost m0 = t.model();
        let ghost h = self@.handle;
        let cmd: Vec<u8> = vec![42u8, 69u8, 83u8, 82u8, 63u8, 10u8];
        proof {
            assert(cmd@ =~= seq![42u8, 69u8, 83u8, 82u8, 63u8, 10u8]);
            if m0.sessions.dom().contains(h) && m0.io_permitted(h) {
                lemma_write_effect_frame(m0, h, cmd@);
            }
        }
        match self.query(t, cmd.as_slice()) {
            Ok(_) => Ok(()),
            Err(e) => Err(e),
        }
    }

    /// Sets the service-request-enable register.
    pub fn service_request_enable<T: Transport>(&mut self, t: &mut T) -> (r: Result<(), Error>)
        ensures
            command_write_post(
                old(t).model(),
                old(self)@.handle,
                seq![42u8, 83u8, 82u8, 69u8, 10u8],
                r,
                final(t).model(),
            ),
            *final(self) == *old(self),
    {
        let ghost m0 = t.model();
        let ghost h = self@.handle;
        let cmd: Vec<u8> = vec![42u8, 83u8, 82u8, 69u8, 10u8];
        proof {
            assert(cmd@ =~= seq![42u8, 83u8, 82u8, 69u8, 10u8]);
        }
        self.write(t, cmd.as_slice())
    }

    /// Reads the service-request-enable register, discarding the answer
    /// line.
    pub fn query_service_request_enable<T: Transport>(&mut self, t: &mut T) -> (r: Result<
        (),
        Error,
    >)
        ensures
            command_query_post(
                old(t).model(),
                old(self)@.handle,
                seq![42u8, 83u8, 82u8, 69u8, 63u8, 10u8],
                r,
                final(t).model(),
            ),
            *final(self) == *old(self),
    {
        let ghost m0 = t.model();
        let ghost h = self@.handle;
        let cmd: Vec<u8> = vec![42u8, 83u8, 82u8, 69u8, 63u8, 10u8];
        proof {
            assert(cmd@ =~= seq![42u8, 83u8, 82u8, 69u8, 63u8, 10u8]);
            if m0.sessions.dom().contains(h) && m0.io_permitted(h) {
                lemma_write_effect_frame(m0, h, cmd@);
            }
        }
        match self.query(t, cmd.as_slice()) {
            Ok(_) => Ok(()),
            Err(e) => Err(e),
        }
    }

    /// Reads the status byte, discarding the answer line.
    pub fn query_read_status_byte<T: Transport>(&mut self, t: &mut T) -> (r: Result<(), Error>)
        ensures
            command_query_post(
                old(t).model(),
                old(self)@.handle,
                seq![42u8, 83u8, 84u8, 66u8, 63u8, 10u8],
                r,
                final(t).model(),
            ),
            *final(self) == *old(self),
    {
        let ghost m0 = t.model();
        let ghost h = self@.handle;
        let cmd: Vec<u8> = vec![42u8, 83u8, 84u8, 66u8, 63u8, 10u8];
        proof {
            assert(cmd@ =~= seq![42u8, 83u8, 84u8, 66u8, 63u8, 10u8]);
            if m0.sessions.dom().contains(h) && m0.io_permitted(h) {
                lemma_write_effect_frame(m0, h, cmd@);
            }
        }
        match self.query(t, cmd.as_slice()) {
            Ok(_) => Ok(()),
            Err(e) => Err(e),
        }
    }
}

} // verus!
