//! Classification of raw transport status codes into completion statuses and
//! typed errors, and the projection of typed errors onto a coarse I/O error
//! taxonomy.
//!
//! Every raw code is classified totally and stably: the classification is a
//! pure function of the code, so the same code yields the same classification
//! on every call. Codes that are neither a known completion status nor a known
//! error are classified as `VisaError::Unknown`.

use vstd::prelude::*;

verus! {

/// Raw status code as returned by every transport operation.
pub type ViStatus = i32;

// Completion and warning codes (non-errors).
pub const VI_SUCCESS: i32 = 0;
pub const VI_SUCCESS_EVENT_EN: i32 = 1073676290; // 0x3FFF0002
pub const VI_SUCCESS_EVENT_DIS: i32 = 1073676291; // 0x3FFF0003
pub const VI_SUCCESS_QUEUE_EMPTY: i32 = 1073676292; // 0x3FFF0004
pub const VI_SUCCESS_TERM_CHAR: i32 = 1073676293; // 0x3FFF0005
pub const VI_SUCCESS_MAX_CNT: i32 = 1073676294; // 0x3FFF0006
pub const VI_WARN_QUEUE_OVERFLOW: i32 = 1073676300; // 0x3FFF000C
pub const VI_WARN_CONFIG_NLOADED: i32 = 1073676407; // 0x3FFF0077
pub const VI_SUCCESS_DEV_NPRESENT: i32 = 1073676413; // 0x3FFF007D
pub const VI_SUCCESS_TRIG_MAPPED: i32 = 1073676414; // 0x3FFF007E
pub const VI_SUCCESS_QUEUE_NEMPTY: i32 = 1073676416; // 0x3FFF0080
pub const VI_WARN_NULL_OBJECT: i32 = 1073676418; // 0x3FFF0082
pub const VI_WARN_NSUP_ATTR_STATE: i32 = 1073676420; // 0x3FFF0084
pub const VI_WARN_UNKNOWN_STATUS: i32 = 1073676421; // 0x3FFF0085
pub const VI_WARN_NSUP_BUF: i32 = 1073676424; // 0x3FFF0088
pub const VI_SUCCESS_NCHAIN: i32 = 1073676440; // 0x3FFF0098
pub const VI_SUCCESS_NESTED_SHARED: i32 = 1073676441; // 0x3FFF0099
pub const VI_SUCCESS_NESTED_EXCLUSIVE: i32 = 1073676442; // 0x3FFF009A
pub const VI_SUCCESS_SYNC: i32 = 1073676443; // 0x3FFF009B
pub const VI_WARN_EXT_FUNC_NIMPL: i32 = 1073676457; // 0x3FFF00A9

// Error codes.
pub const VI_ERROR_SYSTEM_ERROR: i32 = -1073807360; // 0xBFFF0000
pub const VI_ERROR_INV_OBJECT: i32 = -1073807346; // 0xBFFF000E
pub const VI_ERROR_RSRC_LOCKED: i32 = -1073807345; // 0xBFFF000F
pub const VI_ERROR_INV_EXPR: i32 = -1073807344; // 0xBFFF0010
pub const VI_ERROR_RSRC_NFOUND: i32 = -1073807343; // 0xBFFF0011
pub const VI_ERROR_INV_RSRC_NAME: i32 = -1073807342; // 0xBFFF0012
pub const VI_ERROR_INV_ACC_MODE: i32 = -1073807341; // 0xBFFF0013
pub const VI_ERROR_TMO: i32 = -1073807339; // 0xBFFF0015
pub const VI_ERROR_CLOSING_FAILED: i32 = -1073807338; // 0xBFFF0016
pub const VI_ERROR_INV_DEGREE: i32 = -1073807333; // 0xBFFF001B
pub const VI_ERROR_INV_JOB_ID: i32 = -1073807332; // 0xBFFF001C
pub const VI_ERROR_NSUP_ATTR: i32 = -1073807331; // 0xBFFF001D
pub const VI_ERROR_NSUP_ATTR_STATE: i32 = -1073807330; // 0xBFFF001E
pub const VI_ERROR_ATTR_READONLY: i32 = -1073807329; // 0xBFFF001F
pub const VI_ERROR_INV_LOCK_TYPE: i32 = -1073807328; // 0xBFFF0020
pub const VI_ERROR_INV_ACCESS_KEY: i32 = -1073807327; // 0xBFFF0021
pub const VI_ERROR_INV_EVENT: i32 = -1073807322; // 0xBFFF0026
pub const VI_ERROR_INV_MECH: i32 = -1073807321; // 0xBFFF0027
pub const VI_ERROR_HNDLR_NINSTALLED: i32 = -1073807320; // 0xBFFF0028
pub const VI_ERROR_INV_HNDLR_REF: i32 = -1073807319; // 0xBFFF0029
pub const VI_ERROR_INV_CONTEXT: i32 = -1073807318; // 0xBFFF002A
pub const VI_ERROR_QUEUE_OVERFLOW: i32 = -1073807315; // 0xBFFF002D
pub const VI_ERROR_NENABLED: i32 = -1073807313; // 0xBFFF002F
pub const VI_ERROR_ABORT: i32 = -1073807312; // 0xBFFF0030
pub const VI_ERROR_RAW_WR_PROT_VIOL: i32 = -1073807308; // 0xBFFF0034
pub const VI_ERROR_RAW_RD_PROT_VIOL: i32 = -1073807307; // 0xBFFF0035
pub const VI_ERROR_OUTP_PROT_VIOL: i32 = -1073807306; // 0xBFFF0036
pub const VI_ERROR_INP_PROT_VIOL: i32 = -1073807305; // 0xBFFF0037
pub const VI_ERROR_BERR: i32 = -1073807304; // 0xBFFF0038
pub const VI_ERROR_IN_PROGRESS: i32 = -1073807303; // 0xBFFF0039
pub const VI_ERROR_INV_SETUP: i32 = -1073807302; // 0xBFFF003A
pub const VI_ERROR_QUEUE_ERROR: i32 = -1073807301; // 0xBFFF003B
pub const VI_ERROR_ALLOC: i32 = -1073807300; // 0xBFFF003C
pub const VI_ERROR_INV_MASK: i32 = -1073807299; // 0xBFFF003D
pub const VI_ERROR_IO: i32 = -1073807298; // 0xBFFF003E
pub const VI_ERROR_INV_FMT: i32 = -1073807297; // 0xBFFF003F
pub const VI_ERROR_NSUP_FMT: i32 = -1073807295; // 0xBFFF0041
pub const VI_ERROR_LINE_IN_USE: i32 = -1073807294; // 0xBFFF0042
pub const VI_ERROR_NSUP_MODE: i32 = -1073807290; // 0xBFFF0046
pub const VI_ERROR_SRQ_NOCCURRED: i32 = -1073807286; // 0xBFFF004A
pub const VI_ERROR_INV_SPACE: i32 = -1073807282; // 0xBFFF004E
pub const VI_ERROR_INV_OFFSET: i32 = -1073807279; // 0xBFFF0051
pub const VI_ERROR_INV_WIDTH: i32 = -1073807278; // 0xBFFF0052
pub const VI_ERROR_NSUP_OFFSET: i32 = -1073807276; // 0xBFFF0054
pub const VI_ERROR_NSUP_VAR_WIDTH: i32 = -1073807275; // 0xBFFF0055
pub const VI_ERROR_WINDOW_NMAPPED: i32 = -1073807273; // 0xBFFF0057
pub const VI_ERROR_RESP_PENDING: i32 = -1073807271; // 0xBFFF0059
pub const VI_ERROR_NLISTENERS: i32 = -1073807265; // 0xBFFF005F
pub const VI_ERROR_NCIC: i32 = -1073807264; // 0xBFFF0060
pub const VI_ERROR_NSYS_CNTLR: i32 = -1073807263; // 0xBFFF0061
pub const VI_ERROR_NSUP_OPER: i32 = -1073807257; // 0xBFFF0067
pub const VI_ERROR_INTR_PENDING: i32 = -1073807256; // 0xBFFF0068
pub const VI_ERROR_ASRL_PARITY: i32 = -1073807254; // 0xBFFF006A
pub const VI_ERROR_ASRL_FRAMING: i32 = -1073807253; // 0xBFFF006B
pub const VI_ERROR_ASRL_OVERRUN: i32 = -1073807252; // 0xBFFF006C
pub const VI_ERROR_TRIG_NMAPPED: i32 = -1073807250; // 0xBFFF006E
pub const VI_ERROR_NSUP_ALIGN_OFFSET: i32 = -1073807248; // 0xBFFF0070
pub const VI_ERROR_USER_BUF: i32 = -1073807247; // 0xBFFF0071
pub const VI_ERROR_RSRC_BUSY: i32 = -1073807246; // 0xBFFF0072
pub const VI_ERROR_NSUP_WIDTH: i32 = -1073807242; // 0xBFFF0076
pub const VI_ERROR_INV_PARAMETER: i32 = -1073807240; // 0xBFFF0078
pub const VI_ERROR_INV_PROT: i32 = -1073807239; // 0xBFFF0079
pub const VI_ERROR_INV_SIZE: i32 = -1073807237; // 0xBFFF007B
pub const VI_ERROR_WINDOW_MAPPED: i32 = -1073807232; // 0xBFFF0080
pub const VI_ERROR_NIMPL_OPER: i32 = -1073807231; // 0xBFFF0081
pub const VI_ERROR_INV_LENGTH: i32 = -1073807229; // 0xBFFF0083
pub const VI_ERROR_INV_MODE: i32 = -1073807215; // 0xBFFF0091
pub const VI_ERROR_SESN_NLOCKED: i32 = -1073807204; // 0xBFFF009C
pub const VI_ERROR_MEM_NSHARED: i32 = -1073807203; // 0xBFFF009D
pub const VI_ERROR_LIBRARY_NFOUND: i32 = -1073807202; // 0xBFFF009E
pub const VI_ERROR_NSUP_INTR: i32 = -1073807201; // 0xBFFF009F
pub const VI_ERROR_INV_LINE: i32 = -1073807200; // 0xBFFF00A0
pub const VI_ERROR_FILE_ACCESS: i32 = -1073807199; // 0xBFFF00A1
pub const VI_ERROR_FILE_IO: i32 = -1073807198; // 0xBFFF00A2
pub const VI_ERROR_NSUP_LINE: i32 = -1073807197; // 0xBFFF00A3
pub const VI_ERROR_NSUP_MECH: i32 = -1073807196; // 0xBFFF00A4
pub const VI_ERROR_INTF_NUM_NCONFIG: i32 = -1073807195; // 0xBFFF00A5
pub const VI_ERROR_CONN_LOST: i32 = -1073807194; // 0xBFFF00A6
pub const VI_ERROR_MACHINE_NAVAIL: i32 = -1073807193; // 0xBFFF00A7
pub const VI_ERROR_NPERMISSION: i32 = -1073807192; // 0xBFFF00A8

/// A non-error completion or warning status.
#[derive(Clone, Copy, Debug, PartialEq, Eq, Structural)]
pub enum Status {
    /// Operation completed successfully.
    OperationCompleted,
    /// Specified event is already enabled for at least one of the specified mechanisms.
    EventAlreadyEnabled,
    /// Specified event is already disabled for at least one of the specified mechanisms.
    EventAlreadyDisabled,
    /// Operation completed successfully, but queue was already empty.
    OperationCompletedQueueEmpty,
    /// The specified termination character was read.
    TerminationCharacterRead,
    /// The number of bytes read is equal to the input count.
    BytesReadEqualInput,
    /// One or more events that occurred have not been raised for want of queue room.
    QueueOverflow,
    /// The specified configuration either does not exist or could not be loaded.
    ConfigurationNotLoaded,
    /// Session opened successfully, but the device at the specified address is not responding.
    DeviceNotResponding,
    /// The path from the trigger source to the trigger destination is already mapped.
    TriggerAlreadyMapped,
    /// Wait terminated on an event; more events of the requested kinds remain queued.
    QueueNotEmpty,
    /// The specified object reference is uninitialized.
    NullObject,
    /// The specified attribute state is valid but unsupported by this resource.
    AttributeStateNotSupported,
    /// The status code passed to the operation could not be interpreted.
    Unknown,
    /// The specified buffer is not supported.
    BufferNotSupported,
    /// Event handled; no other handlers should be invoked for this event.
    DoNotInvokeEvent,
    /// Operation completed successfully, and this session has nested shared locks.
    NestedSharedLocks,
    /// Operation completed successfully, and this session has nested exclusive locks.
    NestedExclusiveLocks,
    /// Asynchronous operation request was actually performed synchronously.
    AsynchronousOperationHandledSynchronously,
    /// The operation succeeded, but a lower-level driver lacks the extended functionality.
    ExtendedFunctionNotImplemented,
}

/// A typed transport error, classified from a raw status code.
#[derive(Clone, Copy, Debug, PartialEq, Eq, Structural)]
pub enum VisaError {
    /// Unknown system error (miscellaneous error), or an unrecognised status code.
    Unknown,
    /// The given session or object reference is invalid.
    InvalidObject,
    /// The lock cannot be obtained or the operation performed: the resource is locked.
    ResourceLocked,
    /// Invalid expression specified for search.
    InvalidExpression,
    /// Insufficient location information, or the device or resource is not present.
    ResourceNotFound,
    /// Invalid resource reference specified; parsing error.
    InvalidResourceName,
    /// Invalid access mode.
    InvalidAccessMode,
    /// Timeout expired before operation completed.
    Timeout,
    /// Unable to deallocate the previously allocated data structures.
    DeallocationFailed,
    /// Specified degree is invalid.
    InvalidDegree,
    /// Specified job identifier is invalid.
    InvalidJobId,
    /// The specified attribute is not defined or supported by the referenced object.
    AttributeNotSupported,
    /// The specified state of the attribute is not valid or not supported.
    AttributeStateNotSupported,
    /// The specified attribute is read-only.
    AttributeReadOnly,
    /// The specified type of lock is not supported by this resource.
    InvalidLockType,
    /// The access key to the resource associated with this session is invalid.
    InvalidAccessKey,
    /// Specified event type is not supported by the resource.
    InvalidEvent,
    /// Invalid mechanism specified.
    InvalidMechanism,
    /// A handler is not currently installed for the specified event.
    HandlerNotInstalled,
    /// The given handler reference is invalid.
    InvalidHandlerReference,
    /// Specified event context is invalid.
    InvalidContext,
    /// The event queue for the specified type has overflowed.
    QueueOverflow,
    /// The session must be enabled for events of the specified type to receive them.
    SessionNotEnabled,
    /// The operation was aborted.
    OperationAborted,
    /// Violation of raw write protocol occurred during transfer.
    RawWriteProtocolViolation,
    /// Violation of raw read protocol occurred during transfer.
    RawReadProtocolViolation,
    /// Device reported an output protocol error during transfer.
    OutputProtocolViolation,
    /// Device reported an input protocol error during transfer.
    InputProtocolViolation,
    /// Bus error occurred during transfer.
    Bus,
    /// Unable to queue the asynchronous operation: an operation is already in progress.
    OperationAlreadyInProgress,
    /// Unable to start operation because the setup is invalid.
    InvalidSetup,
    /// Unable to queue the asynchronous operation.
    Queue,
    /// Insufficient system resources to perform necessary memory allocation.
    Allocation,
    /// Invalid buffer mask specified.
    InvalidBufferMask,
    /// Could not perform operation because of I/O error.
    Io,
    /// A format specifier in the format string is invalid.
    InvalidFormatSpecifier,
    /// A format specifier in the format string is not supported.
    FormatSpecifierNotSupported,
    /// The specified trigger line is currently in use.
    LineInUse,
    /// The specified mode is not supported by this implementation.
    ModeNotSupported,
    /// Service request has not been received for the session.
    ServiceRequestNotReceived,
    /// Invalid address space specified.
    InvalidAddressSpace,
    /// Invalid offset specified.
    InvalidOffset,
    /// Invalid source or destination width specified.
    InvalidWidth,
    /// Specified offset is not accessible from this hardware.
    OffsetNotSupported,
    /// Cannot support source and destination widths that are different.
    DifferentWidthNotSupported,
    /// The specified session is not currently mapped.
    SessionNotMapped,
    /// The previous response is still pending, causing a multiple query error.
    PreviousResponsePending,
    /// No-listeners condition was detected.
    NoListeners,
    /// The interface associated with this session is not currently the controller in charge.
    NotControllerInCharge,
    /// The interface associated with this session is not the system controller.
    NotSystemController,
    /// The given session or object reference does not support this operation.
    OperationNotSupported,
    /// An interrupt is still pending from a previous call.
    PreviousInterruptPending,
    /// A parity error occurred during transfer.
    Parity,
    /// A framing error occurred during transfer.
    Framing,
    /// An overrun error occurred during transfer; a character was lost.
    Overrun,
    /// The path from the trigger source to the trigger destination is not mapped.
    TriggerNotMapped,
    /// The specified offset is not properly aligned for the access width.
    OffsetNotAligned,
    /// A specified user buffer is not valid or cannot be accessed for the required size.
    InvalidUserBuffer,
    /// The resource is valid, but the transport cannot currently access it.
    ResourceBusy,
    /// Specified width is not supported by this hardware.
    WidthNotSupported,
    /// The value of some parameter is invalid.
    InvalidParameter,
    /// The protocol specified is invalid.
    InvalidProtocol,
    /// Invalid size of window specified.
    InvalidSize,
    /// The specified session currently contains a mapped window.
    MappedWindow,
    /// The given operation is not implemented.
    OperationNotImplemented,
    /// Invalid length specified.
    InvalidLength,
    /// The specified mode is invalid.
    InvalidMode,
    /// The current session did not have any lock on the resource.
    SessionNotLocked,
    /// The device does not export any memory.
    NoMemorySupport,
    /// A required code library could not be located or loaded.
    LibraryNotFound,
    /// The interface cannot generate an interrupt on the requested level or status value.
    InterruptNotSupported,
    /// The value specified by the line parameter is invalid.
    InvalidLine,
    /// An error occurred while trying to open the specified file.
    FileAccess,
    /// An error occurred while performing I/O on the specified file.
    IoFile,
    /// One of the specified lines is not supported, or the combination is invalid.
    LineNotSupported,
    /// The specified mechanism is not supported for the given event type.
    MechanismNotSupported,
    /// The interface type is valid but the specified interface number is not configured.
    InterfaceNumberNotConfigured,
    /// The connection for the given session has been lost.
    ConnectionLost,
    /// The remote machine does not exist or is not accepting any connections.
    MachineNotAvailable,
    /// Access to the resource or remote machine is denied.
    NoPermission,
}

/// Coarse I/O error taxonomy for callers that want generic handling.
#[derive(Clone, Copy, Debug, PartialEq, Eq, Structural)]
pub enum IoErrorKind {
    AddrNotAvailable,
    Unsupported,
    ConnectionRefused,
    TimedOut,
    InvalidData,
    BrokenPipe,
    InvalidInput,
    PermissionDenied,
    Other,
}

/// Names the identification field whose delimiter was missing from a parsed
/// identification response.
#[derive(Clone, Copy, Debug, PartialEq, Eq, Structural)]
pub enum IdentificationField {
    Manufacturer,
    Model,
    SerialNumber,
    FirmwareVersion,
}

/// The error type surfaced by every fallible operation of this library.
#[derive(Clone, Debug, PartialEq, Eq)]
pub enum Error {
    /// A typed transport error.
    Visa(VisaError),
    /// A coarse I/O failure (for example, text that was not valid UTF-8).
    Io(IoErrorKind),
    /// A string was invalid where a terminated string was required
    /// (for example, an access key containing an interior NUL byte).
    InvalidString,
    /// An identification response was missing the named field.
    InvalidIdentification(IdentificationField),
    /// The requested instrument was absent from the cache or from a discovery scan.
    InstrumentNotFound,
}

/// The completion status denoted by `code`, or `None` if `code` does not
/// denote a non-error status.
pub open spec fn spec_status_from_code(code: i32) -> Option<Status> {
    if code == VI_SUCCESS {
        Some(Status::OperationCompleted)
    } else if code == VI_SUCCESS_EVENT_EN {
        Some(Status::EventAlreadyEnabled)
    } else if code == VI_SUCCESS_EVENT_DIS {
        Some(Status::EventAlreadyDisabled)
    } else if code == VI_SUCCESS_QUEUE_EMPTY {
        Some(Status::OperationCompletedQueueEmpty)
    } else if code == VI_SUCCESS_TERM_CHAR {
        Some(Status::TerminationCharacterRead)
    } else if code == VI_SUCCESS_MAX_CNT {
        Some(Status::BytesReadEqualInput)
    } else if code == VI_WARN_QUEUE_OVERFLOW {
        Some(Status::QueueOverflow)
    } else if code == VI_WARN_CONFIG_NLOADED {
        Some(Status::ConfigurationNotLoaded)
    } else if code == VI_SUCCESS_DEV_NPRESENT {
        Some(Status::DeviceNotResponding)
    } else if code == VI_SUCCESS_TRIG_MAPPED {
        Some(Status::TriggerAlreadyMapped)
    } else if code == VI_SUCCESS_QUEUE_NEMPTY {
        Some(Status::QueueNotEmpty)
    } else if code == VI_WARN_NULL_OBJECT {
        Some(Status::NullObject)
    } else if code == VI_WARN_NSUP_ATTR_STATE {
        Some(Status::AttributeStateNotSupported)
    } else if code == VI_WARN_UNKNOWN_STATUS {
        Some(Status::Unknown)
    } else if code == VI_WARN_NSUP_BUF {
        Some(Status::BufferNotSupported)
    } else if code == VI_SUCCESS_NCHAIN {
        Some(Status::DoNotInvokeEvent)
    } else if code == VI_SUCCESS_NESTED_SHARED {
        Some(Status::NestedSharedLocks)
    } else if code == VI_SUCCESS_NESTED_EXCLUSIVE {
        Some(Status::NestedExclusiveLocks)
    } else if code == VI_SUCCESS_SYNC {
        Some(Status::AsynchronousOperationHandledSynchronously)
    } else if code == VI_WARN_EXT_FUNC_NIMPL {
        Some(Status::ExtendedFunctionNotImplemented)
    } else {
        None
    }
}

/// The typed error denoted by `code`. Total: codes that denote no known
/// error are classified as `VisaError::Unknown`.
pub open spec fn spec_visa_error_from_code(code: i32) -> VisaError {
    if code == VI_ERROR_INV_OBJECT {
        VisaError::InvalidObject
    } else if code == VI_ERROR_RSRC_LOCKED {
        VisaError::ResourceLocked
    } else if code == VI_ERROR_INV_EXPR {
        VisaError::InvalidExpression
    } else if code == VI_ERROR_RSRC_NFOUND {
        VisaError::ResourceNotFound
    } else if code == VI_ERROR_INV_RSRC_NAME {
        VisaError::InvalidResourceName
    } else if code == VI_ERROR_INV_ACC_MODE {
        VisaError::InvalidAccessMode
    } else if code == VI_ERROR_TMO {
        VisaError::Timeout
    } else if code == VI_ERROR_CLOSING_FAILED {
        VisaError::DeallocationFailed
    } else if code == VI_ERROR_INV_DEGREE {
        VisaError::InvalidDegree
    } else if code == VI_ERROR_INV_JOB_ID {
        VisaError::InvalidJobId
    } else if code == VI_ERROR_NSUP_ATTR {
        VisaError::AttributeNotSupported
    } else if code == VI_ERROR_NSUP_ATTR_STATE {
        VisaError::AttributeStateNotSupported
    } else if code == VI_ERROR_ATTR_READONLY {
        VisaError::AttributeReadOnly
    } else if code == VI_ERROR_INV_LOCK_TYPE {
        VisaError::InvalidLockType
    } else if code == VI_ERROR_INV_ACCESS_KEY {
        VisaError::InvalidAccessKey
    } else if code == VI_ERROR_INV_EVENT {
        VisaError::InvalidEvent
    } else if code == VI_ERROR_INV_MECH {
        VisaError::InvalidMechanism
    } else if code == VI_ERROR_HNDLR_NINSTALLED {
        VisaError::HandlerNotInstalled
    } else if code == VI_ERROR_INV_HNDLR_REF {
        VisaError::InvalidHandlerReference
    } else if code == VI_ERROR_INV_CONTEXT {
        VisaError::InvalidContext
    } else if code == VI_ERROR_QUEUE_OVERFLOW {
        VisaError::QueueOverflow
    } else if code == VI_ERROR_NENABLED {
        VisaError::SessionNotEnabled
    } else if code == VI_ERROR_ABORT {
        VisaError::OperationAborted
    } else if code == VI_ERROR_RAW_WR_PROT_VIOL {
        VisaError::RawWriteProtocolViolation
    } else if code == VI_ERROR_RAW_RD_PROT_VIOL {
        VisaError::RawReadProtocolViolation
    } else if code == VI_ERROR_OUTP_PROT_VIOL {
        VisaError::OutputProtocolViolation
    } else if code == VI_ERROR_INP_PROT_VIOL {
        VisaError::InputProtocolViolation
    } else if code == VI_ERROR_BERR {
        VisaError::Bus
    } else if code == VI_ERROR_IN_PROGRESS {
        VisaError::OperationAlreadyInProgress
    } else if code == VI_ERROR_INV_SETUP {
        VisaError::InvalidSetup
    } else if code == VI_ERROR_QUEUE_ERROR {
        VisaError::Queue
    } else if code == VI_ERROR_ALLOC {
        VisaError::Allocation
    } else if code == VI_ERROR_INV_MASK {
        VisaError::InvalidBufferMask
    } else if code == VI_ERROR_IO {
        VisaError::Io
    } else if code == VI_ERROR_INV_FMT {
        VisaError::InvalidFormatSpecifier
    } else if code == VI_ERROR_NSUP_FMT {
        VisaError::FormatSpecifierNotSupported
    } else if code == VI_ERROR_LINE_IN_USE {
        VisaError::LineInUse
    } else if code == VI_ERROR_NSUP_MODE {
        VisaError::ModeNotSupported
    } else if code == VI_ERROR_SRQ_NOCCURRED {
        VisaError::ServiceRequestNotReceived
    } else if code == VI_ERROR_INV_SPACE {
        VisaError::InvalidAddressSpace
    } else if code == VI_ERROR_INV_OFFSET {
        VisaError::InvalidOffset
    } else if code == VI_ERROR_INV_WIDTH {
        VisaError::InvalidWidth
    } else if code == VI_ERROR_NSUP_OFFSET {
        VisaError::OffsetNotSupported
    } else if code == VI_ERROR_NSUP_VAR_WIDTH {
        VisaError::DifferentWidthNotSupported
    } else if code == VI_ERROR_WINDOW_NMAPPED {
        VisaError::SessionNotMapped
    } else if code == VI_ERROR_RESP_PENDING {
        VisaError::PreviousResponsePending
    } else if code == VI_ERROR_NLISTENERS {
        VisaError::NoListeners
    } else if code == VI_ERROR_NCIC {
        VisaError::NotControllerInCharge
    } else if code == VI_ERROR_NSYS_CNTLR {
        VisaError::NotSystemController
    } else if code == VI_ERROR_NSUP_OPER {
        VisaError::OperationNotSupported
    } else if code == VI_ERROR_INTR_PENDING {
        VisaError::PreviousInterruptPending
    } else if code == VI_ERROR_ASRL_PARITY {
        VisaError::Parity
    } else if code == VI_ERROR_ASRL_FRAMING {
        VisaError::Framing
    } else if code == VI_ERROR_ASRL_OVERRUN {
        VisaError::Overrun
    } else if code == VI_ERROR_TRIG_NMAPPED {
        VisaError::TriggerNotMapped
    } else if code == VI_ERROR_NSUP_ALIGN_OFFSET {
        VisaError::OffsetNotAligned
    } else if code == VI_ERROR_USER_BUF {
        VisaError::InvalidUserBuffer
    } else if code == VI_ERROR_RSRC_BUSY {
        VisaError::ResourceBusy
    } else if code == VI_ERROR_NSUP_WIDTH {
        VisaError::WidthNotSupported
    } else if code == VI_ERROR_INV_PARAMETER {
        VisaError::InvalidParameter
    } else if code == VI_ERROR_INV_PROT {
        VisaError::InvalidProtocol
    } else if code == VI_ERROR_INV_SIZE {
        VisaError::InvalidSize
    } else if code == VI_ERROR_WINDOW_MAPPED {
        VisaError::MappedWindow
    } else if code == VI_ERROR_NIMPL_OPER {
        VisaError::OperationNotImplemented
    } else if code == VI_ERROR_INV_LENGTH {
        VisaError::InvalidLength
    } else if code == VI_ERROR_INV_MODE {
        VisaError::InvalidMode
    } else if code == VI_ERROR_SESN_NLOCKED {
        VisaError::SessionNotLocked
    } else if code == VI_ERROR_MEM_NSHARED {
        VisaError::NoMemorySupport
    } else if code == VI_ERROR_LIBRARY_NFOUND {
        VisaError::LibraryNotFound
    } else if code == VI_ERROR_NSUP_INTR {
        VisaError::InterruptNotSupported
    } else if code == VI_ERROR_INV_LINE {
        VisaError::InvalidLine
    } else if code == VI_ERROR_FILE_ACCESS {
        VisaError::FileAccess
    } else if code == VI_ERROR_FILE_IO {
        VisaError::IoFile
    } else if code == VI_ERROR_NSUP_LINE {
        VisaError::LineNotSupported
    } else if code == VI_ERROR_NSUP_MECH {
        VisaError::MechanismNotSupported
    } else if code == VI_ERROR_INTF_NUM_NCONFIG {
        VisaError::InterfaceNumberNotConfigured
    } else if code == VI_ERROR_CONN_LOST {
        VisaError::ConnectionLost
    } else if code == VI_ERROR_MACHINE_NAVAIL {
        VisaError::MachineNotAvailable
    } else if code == VI_ERROR_NPERMISSION {
        VisaError::NoPermission
    } else {
        VisaError::Unknown
    }
}

/// The total classification of a raw status code: a non-error status, or a
/// typed error.
pub open spec fn spec_parse_vi_status(code: i32) -> Result<Status, Error> {
    match spec_status_from_code(code) {
        Some(status) => Ok(status),
        None => Err(Error::Visa(spec_visa_error_from_code(code))),
    }
}

/// The projection of a typed error onto the coarse I/O taxonomy.
pub open spec fn spec_io_error_kind(error: VisaError) -> IoErrorKind {
    match error {
        VisaError::InvalidObject => IoErrorKind::AddrNotAvailable,
        VisaError::OperationNotSupported => IoErrorKind::Unsupported,
        VisaError::ResourceLocked => IoErrorKind::ConnectionRefused,
        VisaError::Timeout => IoErrorKind::TimedOut,
        VisaError::RawWriteProtocolViolation => IoErrorKind::InvalidData,
        VisaError::RawReadProtocolViolation => IoErrorKind::InvalidData,
        VisaError::InputProtocolViolation => IoErrorKind::BrokenPipe,
        VisaError::OutputProtocolViolation => IoErrorKind::BrokenPipe,
        VisaError::Bus => IoErrorKind::BrokenPipe,
        VisaError::InvalidSetup => IoErrorKind::InvalidInput,
        VisaError::InvalidBufferMask => IoErrorKind::InvalidInput,
        VisaError::NotControllerInCharge => IoErrorKind::PermissionDenied,
        VisaError::ConnectionLost => IoErrorKind::BrokenPipe,
        _ => IoErrorKind::Other,
    }
}

/// The total classification of a raw status code for callers that want the
/// coarse I/O taxonomy instead of the typed error.
pub open spec fn spec_parse_vi_status_to_io(code: i32) -> Result<Status, IoErrorKind> {
    match spec_status_from_code(code) {
        Some(status) => Ok(status),
        None => Err(spec_io_error_kind(spec_visa_error_from_code(code))),
    }
}

impl Status {
    /// The completion status denoted by `code`, if any.
    pub fn from_code(code: i32) -> (r: Option<Status>)
        ensures
            r == spec_status_from_code(code),
    {
        if code == VI_SUCCESS {
            Some(Status::OperationCompleted)
        } else if code == VI_SUCCESS_EVENT_EN {
            Some(Status::EventAlreadyEnabled)
        } else if code == VI_SUCCESS_EVENT_DIS {
            Some(Status::EventAlreadyDisabled)
        } else if code == VI_SUCCESS_QUEUE_EMPTY {
            Some(Status::OperationCompletedQueueEmpty)
        } else if code == VI_SUCCESS_TERM_CHAR {
            Some(Status::TerminationCharacterRead)
        } else if code == VI_SUCCESS_MAX_CNT {
            Some(Status::BytesReadEqualInput)
        } else if code == VI_WARN_QUEUE_OVERFLOW {
            Some(Status::QueueOverflow)
        } else if code == VI_WARN_CONFIG_NLOADED {
            Some(Status::ConfigurationNotLoaded)
        } else if code == VI_SUCCESS_DEV_NPRESENT {
            Some(Status::DeviceNotResponding)
        } else if code == VI_SUCCESS_TRIG_MAPPED {
            Some(Status::TriggerAlreadyMapped)
        } else if code == VI_SUCCESS_QUEUE_NEMPTY {
            Some(Status::QueueNotEmpty)
        } else if code == VI_WARN_NULL_OBJECT {
            Some(Status::NullObject)
        } else if code == VI_WARN_NSUP_ATTR_STATE {
            Some(Status::AttributeStateNotSupported)
        } else if code == VI_WARN_UNKNOWN_STATUS {
            Some(Status::Unknown)
        } else if code == VI_WARN_NSUP_BUF {
            Some(Status::BufferNotSupported)
        } else if code == VI_SUCCESS_NCHAIN {
            Some(Status::DoNotInvokeEvent)
        } else if code == VI_SUCCESS_NESTED_SHARED {
            Some(Status::NestedSharedLocks)
        } else if code == VI_SUCCESS_NESTED_EXCLUSIVE {
            Some(Status::NestedExclusiveLocks)
        } else if code == VI_SUCCESS_SYNC {
            Some(Status::AsynchronousOperationHandledSynchronously)
        } else if code == VI_WARN_EXT_FUNC_NIMPL {
            Some(Status::ExtendedFunctionNotImplemented)
        } else {
            None
        }
    }
}

impl VisaError {
    /// The typed error denoted by `code`; unknown codes yield `Unknown`.
    pub fn from_code(code: i32) -> (r: VisaError)
        ensures
            r == spec_visa_error_from_code(code),
    {
        if code == VI_ERROR_INV_OBJECT {
            VisaError::InvalidObject
        } else if code == VI_ERROR_RSRC_LOCKED {
            VisaError::ResourceLocked
        } else if code == VI_ERROR_INV_EXPR {
            VisaError::InvalidExpression
        } else if code == VI_ERROR_RSRC_NFOUND {
            VisaError::ResourceNotFound
        } else if code == VI_ERROR_INV_RSRC_NAME {
            VisaError::InvalidResourceName
        } else if code == VI_ERROR_INV_ACC_MODE {
            VisaError::InvalidAccessMode
        } else if code == VI_ERROR_TMO {
            VisaError::Timeout
        } else if code == VI_ERROR_CLOSING_FAILED {
            VisaError::DeallocationFailed
        } else if code == VI_ERROR_INV_DEGREE {
            VisaError::InvalidDegree
        } else if code == VI_ERROR_INV_JOB_ID {
            VisaError::InvalidJobId
        } else if code == VI_ERROR_NSUP_ATTR {
            VisaError::AttributeNotSupported
        } else if code == VI_ERROR_NSUP_ATTR_STATE {
            VisaError::AttributeStateNotSupported
        } else if code == VI_ERROR_ATTR_READONLY {
            VisaError::AttributeReadOnly
        } else if code == VI_ERROR_INV_LOCK_TYPE {
            VisaError::InvalidLockType
        } else if code == VI_ERROR_INV_ACCESS_KEY {
            VisaError::InvalidAccessKey
        } else if code == VI_ERROR_INV_EVENT {
            VisaError::InvalidEvent
        } else if code == VI_ERROR_INV_MECH {
            VisaError::InvalidMechanism
        } else if code == VI_ERROR_HNDLR_NINSTALLED {
            VisaError::HandlerNotInstalled
        } else if code == VI_ERROR_INV_HNDLR_REF {
            VisaError::InvalidHandlerReference
        } else if code == VI_ERROR_INV_CONTEXT {
            VisaError::InvalidContext
        } else if code == VI_ERROR_QUEUE_OVERFLOW {
            VisaError::QueueOverflow
        } else if code == VI_ERROR_NENABLED {
            VisaError::SessionNotEnabled
        } else if code == VI_ERROR_ABORT {
            VisaError::OperationAborted
        } else if code == VI_ERROR_RAW_WR_PROT_VIOL {
            VisaError::RawWriteProtocolViolation
        } else if code == VI_ERROR_RAW_RD_PROT_VIOL {
            VisaError::RawReadProtocolViolation
        } else if code == VI_ERROR_OUTP_PROT_VIOL {
            VisaError::OutputProtocolViolation
        } else if code == VI_ERROR_INP_PROT_VIOL {
            VisaError::InputProtocolViolation
        } else if code == VI_ERROR_BERR {
            VisaError::Bus
        } else if code == VI_ERROR_IN_PROGRESS {
            VisaError::OperationAlreadyInProgress
        } else if code == VI_ERROR_INV_SETUP {
            VisaError::InvalidSetup
        } else if code == VI_ERROR_QUEUE_ERROR {
            VisaError::Queue
        } else if code == VI_ERROR_ALLOC {
            VisaError::Allocation
        } else if code == VI_ERROR_INV_MASK {
            VisaError::InvalidBufferMask
        } else if code == VI_ERROR_IO {
            VisaError::Io
        } else if code == VI_ERROR_INV_FMT {
            VisaError::InvalidFormatSpecifier
        } else if code == VI_ERROR_NSUP_FMT {
            VisaError::FormatSpecifierNotSupported
        } else if code == VI_ERROR_LINE_IN_USE {
            VisaError::LineInUse
        } else if code == VI_ERROR_NSUP_MODE {
            VisaError::ModeNotSupported
        } else if code == VI_ERROR_SRQ_NOCCURRED {
            VisaError::ServiceRequestNotReceived
        } else if code == VI_ERROR_INV_SPACE {
            VisaError::InvalidAddressSpace
        } else if code == VI_ERROR_INV_OFFSET {
            VisaError::InvalidOffset
        } else if code == VI_ERROR_INV_WIDTH {
            VisaError::InvalidWidth
        } else if code == VI_ERROR_NSUP_OFFSET {
            VisaError::OffsetNotSupported
        } else if code == VI_ERROR_NSUP_VAR_WIDTH {
            VisaError::DifferentWidthNotSupported
        } else if code == VI_ERROR_WINDOW_NMAPPED {
            VisaError::SessionNotMapped
        } else if code == VI_ERROR_RESP_PENDING {
            VisaError::PreviousResponsePending
        } else if code == VI_ERROR_NLISTENERS {
            VisaError::NoListeners
        } else if code == VI_ERROR_NCIC {
            VisaError::NotControllerInCharge
        } else if code == VI_ERROR_NSYS_CNTLR {
            VisaError::NotSystemController
        } else if code == VI_ERROR_NSUP_OPER {
            VisaError::OperationNotSupported
        } else if code == VI_ERROR_INTR_PENDING {
            VisaError::PreviousInterruptPending
        } else if code == VI_ERROR_ASRL_PARITY {
            VisaError::Parity
        } else if code == VI_ERROR_ASRL_FRAMING {
            VisaError::Framing
        } else if code == VI_ERROR_ASRL_OVERRUN {
            VisaError::Overrun
        } else if code == VI_ERROR_TRIG_NMAPPED {
            VisaError::TriggerNotMapped
        } else if code == VI_ERROR_NSUP_ALIGN_OFFSET {
            VisaError::OffsetNotAligned
        } else if code == VI_ERROR_USER_BUF {
            VisaError::InvalidUserBuffer
        } else if code == VI_ERROR_RSRC_BUSY {
            VisaError::ResourceBusy
        } else if code == VI_ERROR_NSUP_WIDTH {
            VisaError::WidthNotSupported
        } else if code == VI_ERROR_INV_PARAMETER {
            VisaError::InvalidParameter
        } else if code == VI_ERROR_INV_PROT {
            VisaError::InvalidProtocol
        } else if code == VI_ERROR_INV_SIZE {
            VisaError::InvalidSize
        } else if code == VI_ERROR_WINDOW_MAPPED {
            VisaError::MappedWindow
        } else if code == VI_ERROR_NIMPL_OPER {
            VisaError::OperationNotImplemented
        } else if code == VI_ERROR_INV_LENGTH {
            VisaError::InvalidLength
        } else if code == VI_ERROR_INV_MODE {
            VisaError::InvalidMode
        } else if code == VI_ERROR_SESN_NLOCKED {
            VisaError::SessionNotLocked
        } else if code == VI_ERROR_MEM_NSHARED {
            VisaError::NoMemorySupport
        } else if code == VI_ERROR_LIBRARY_NFOUND {
            VisaError::LibraryNotFound
        } else if code == VI_ERROR_NSUP_INTR {
            VisaError::InterruptNotSupported
        } else if code == VI_ERROR_INV_LINE {
            VisaError::InvalidLine
        } else if code == VI_ERROR_FILE_ACCESS {
            VisaError::FileAccess
        } else if code == VI_ERROR_FILE_IO {
            VisaError::IoFile
        } else if code == VI_ERROR_NSUP_LINE {
            VisaError::LineNotSupported
        } else if code == VI_ERROR_NSUP_MECH {
            VisaError::MechanismNotSupported
        } else if code == VI_ERROR_INTF_NUM_NCONFIG {
            VisaError::InterfaceNumberNotConfigured
        } else if code == VI_ERROR_CONN_LOST {
            VisaError::ConnectionLost
        } else if code == VI_ERROR_MACHINE_NAVAIL {
            VisaError::MachineNotAvailable
        } else if code == VI_ERROR_NPERMISSION {
            VisaError::NoPermission
        } else {
            VisaError::Unknown
        }
    }

    /// The raw status code this typed error was classified from; the
    /// classification maps it back to this error.
    pub fn code(&self) -> (r: i32)
        ensures
            spec_visa_error_from_code(r) == *self,
    {
        match *self {
            VisaError::Unknown => VI_ERROR_SYSTEM_ERROR,
            VisaError::InvalidObject => VI_ERROR_INV_OBJECT,
            VisaError::ResourceLocked => VI_ERROR_RSRC_LOCKED,
            VisaError::InvalidExpression => VI_ERROR_INV_EXPR,
            VisaError::ResourceNotFound => VI_ERROR_RSRC_NFOUND,
            VisaError::InvalidResourceName => VI_ERROR_INV_RSRC_NAME,
            VisaError::InvalidAccessMode => VI_ERROR_INV_ACC_MODE,
            VisaError::Timeout => VI_ERROR_TMO,
            VisaError::DeallocationFailed => VI_ERROR_CLOSING_FAILED,
            VisaError::InvalidDegree => VI_ERROR_INV_DEGREE,
            VisaError::InvalidJobId => VI_ERROR_INV_JOB_ID,
            VisaError::AttributeNotSupported => VI_ERROR_NSUP_ATTR,
            VisaError::AttributeStateNotSupported => VI_ERROR_NSUP_ATTR_STATE,
            VisaError::AttributeReadOnly => VI_ERROR_ATTR_READONLY,
            VisaError::InvalidLockType => VI_ERROR_INV_LOCK_TYPE,
            VisaError::InvalidAccessKey => VI_ERROR_INV_ACCESS_KEY,
            VisaError::InvalidEvent => VI_ERROR_INV_EVENT,
            VisaError::InvalidMechanism => VI_ERROR_INV_MECH,
            VisaError::HandlerNotInstalled => VI_ERROR_HNDLR_NINSTALLED,
            VisaError::InvalidHandlerReference => VI_ERROR_INV_HNDLR_REF,
            VisaError::InvalidContext => VI_ERROR_INV_CONTEXT,
            VisaError::QueueOverflow => VI_ERROR_QUEUE_OVERFLOW,
            VisaError::SessionNotEnabled => VI_ERROR_NENABLED,
            VisaError::OperationAborted => VI_ERROR_ABORT,
            VisaError::RawWriteProtocolViolation => VI_ERROR_RAW_WR_PROT_VIOL,
            VisaError::RawReadProtocolViolation => VI_ERROR_RAW_RD_PROT_VIOL,
            VisaError::OutputProtocolViolation => VI_ERROR_OUTP_PROT_VIOL,
            VisaError::InputProtocolViolation => VI_ERROR_INP_PROT_VIOL,
            VisaError::Bus => VI_ERROR_BERR,
            VisaError::OperationAlreadyInProgress => VI_ERROR_IN_PROGRESS,
            VisaError::InvalidSetup => VI_ERROR_INV_SETUP,
            VisaError::Queue => VI_ERROR_QUEUE_ERROR,
            VisaError::Allocation => VI_ERROR_ALLOC,
            VisaError::InvalidBufferMask => VI_ERROR_INV_MASK,
            VisaError::Io => VI_ERROR_IO,
            VisaError::InvalidFormatSpecifier => VI_ERROR_INV_FMT,
            VisaError::FormatSpecifierNotSupported => VI_ERROR_NSUP_FMT,
            VisaError::LineInUse => VI_ERROR_LINE_IN_USE,
            VisaError::ModeNotSupported => VI_ERROR_NSUP_MODE,
            VisaError::ServiceRequestNotReceived => VI_ERROR_SRQ_NOCCURRED,
            VisaError::InvalidAddressSpace => VI_ERROR_INV_SPACE,
            VisaError::InvalidOffset => VI_ERROR_INV_OFFSET,
            VisaError::InvalidWidth => VI_ERROR_INV_WIDTH,
            VisaError::OffsetNotSupported => VI_ERROR_NSUP_OFFSET,
            VisaError::DifferentWidthNotSupported => VI_ERROR_NSUP_VAR_WIDTH,
            VisaError::SessionNotMapped => VI_ERROR_WINDOW_NMAPPED,
            VisaError::PreviousResponsePending => VI_ERROR_RESP_PENDING,
            VisaError::NoListeners => VI_ERROR_NLISTENERS,
            VisaError::NotControllerInCharge => VI_ERROR_NCIC,
            VisaError::NotSystemController => VI_ERROR_NSYS_CNTLR,
            VisaError::OperationNotSupported => VI_ERROR_NSUP_OPER,
            VisaError::PreviousInterruptPending => VI_ERROR_INTR_PENDING,
            VisaError::Parity => VI_ERROR_ASRL_PARITY,
            VisaError::Framing => VI_ERROR_ASRL_FRAMING,
            VisaError::Overrun => VI_ERROR_ASRL_OVERRUN,
            VisaError::TriggerNotMapped => VI_ERROR_TRIG_NMAPPED,
            VisaError::OffsetNotAligned => VI_ERROR_NSUP_ALIGN_OFFSET,
            VisaError::InvalidUserBuffer => VI_ERROR_USER_BUF,
            VisaError::ResourceBusy => VI_ERROR_RSRC_BUSY,
            VisaError::WidthNotSupported => VI_ERROR_NSUP_WIDTH,
            VisaError::InvalidParameter => VI_ERROR_INV_PARAMETER,
            VisaError::InvalidProtocol => VI_ERROR_INV_PROT,
            VisaError::InvalidSize => VI_ERROR_INV_SIZE,
            VisaError::MappedWindow => VI_ERROR_WINDOW_MAPPED,
            VisaError::OperationNotImplemented => VI_ERROR_NIMPL_OPER,
            VisaError::InvalidLength => VI_ERROR_INV_LENGTH,
            VisaError::InvalidMode => VI_ERROR_INV_MODE,
            VisaError::SessionNotLocked => VI_ERROR_SESN_NLOCKED,
            VisaError::NoMemorySupport => VI_ERROR_MEM_NSHARED,
            VisaError::LibraryNotFound => VI_ERROR_LIBRARY_NFOUND,
            VisaError::InterruptNotSupported => VI_ERROR_NSUP_INTR,
            VisaError::InvalidLine => VI_ERROR_INV_LINE,
            VisaError::FileAccess => VI_ERROR_FILE_ACCESS,
            VisaError::IoFile => VI_ERROR_FILE_IO,
            VisaError::LineNotSupported => VI_ERROR_NSUP_LINE,
            VisaError::MechanismNotSupported => VI_ERROR_NSUP_MECH,
            VisaError::InterfaceNumberNotConfigured => VI_ERROR_INTF_NUM_NCONFIG,
            VisaError::ConnectionLost => VI_ERROR_CONN_LOST,
            VisaError::MachineNotAvailable => VI_ERROR_MACHINE_NAVAIL,
            VisaError::NoPermission => VI_ERROR_NPERMISSION,
        }
    }

    /// Projects this typed error onto the coarse I/O taxonomy.
    pub fn to_io_error(self) -> (r: IoErrorKind)
        ensures
            r == spec_io_error_kind(self),
    {
        match self {
            VisaError::InvalidObject => IoErrorKind::AddrNotAvailable,
            VisaError::OperationNotSupported => IoErrorKind::Unsupported,
            VisaError::ResourceLocked => IoErrorKind::ConnectionRefused,
            VisaError::Timeout => IoErrorKind::TimedOut,
            VisaError::RawWriteProtocolViolation => IoErrorKind::InvalidData,
            VisaError::RawReadProtocolViolation => IoErrorKind::InvalidData,
            VisaError::InputProtocolViolation => IoErrorKind::BrokenPipe,
            VisaError::OutputProtocolViolation => IoErrorKind::BrokenPipe,
            VisaError::Bus => IoErrorKind::BrokenPipe,
            VisaError::InvalidSetup => IoErrorKind::InvalidInput,
            VisaError::InvalidBufferMask => IoErrorKind::InvalidInput,
            VisaError::NotControllerInCharge => IoErrorKind::PermissionDenied,
            VisaError::ConnectionLost => IoErrorKind::BrokenPipe,
            _ => IoErrorKind::Other,
        }
    }
}

/// Classifies a raw status code as a non-error status or a typed error.
pub fn parse_vi_status(status: ViStatus) -> (r: Result<Status, Error>)
    ensures
        r == spec_parse_vi_status(status),
{
    match Status::from_code(status) {
        Some(s) => Ok(s),
        None => Err(Error::Visa(VisaError::from_code(status))),
    }
}

/// Classifies a raw status code, projecting any error onto the coarse I/O
/// taxonomy.
pub fn parse_vi_status_to_io(status: ViStatus) -> (r: Result<Status, IoErrorKind>)
    ensures
        r == spec_parse_vi_status_to_io(status),
{
    match Status::from_code(status) {
        Some(s) => Ok(s),
        None => Err(VisaError::from_code(status).to_io_error()),
    }
}

} // verus!
