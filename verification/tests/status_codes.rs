use visa_session::error::{
    parse_vi_status, parse_vi_status_to_io, Error, IoErrorKind, Status, VisaError, VI_ERROR_NPERMISSION,
    VI_ERROR_RSRC_LOCKED, VI_ERROR_RSRC_NFOUND, VI_ERROR_SESN_NLOCKED, VI_ERROR_TMO,
    VI_SUCCESS, VI_SUCCESS_TERM_CHAR, VI_SUCCESS_QUEUE_NEMPTY, VI_WARN_QUEUE_OVERFLOW,
};

#[test]
fn success_codes_are_statuses() {
    assert_eq!(parse_vi_status(VI_SUCCESS), Ok(Status::OperationCompleted));
    assert_eq!(
        parse_vi_status(VI_SUCCESS_TERM_CHAR),
        Ok(Status::TerminationCharacterRead)
    );
    assert_eq!(
        parse_vi_status(VI_SUCCESS_QUEUE_NEMPTY),
        Ok(Status::QueueNotEmpty)
    );
    assert_eq!(
        parse_vi_status(VI_WARN_QUEUE_OVERFLOW),
        Ok(Status::QueueOverflow)
    );
}

#[test]
fn error_codes_are_typed_errors() {
    assert_eq!(
        parse_vi_status(VI_ERROR_TMO),
        Err(Error::Visa(VisaError::Timeout))
    );
    assert_eq!(
        parse_vi_status(VI_ERROR_RSRC_LOCKED),
        Err(Error::Visa(VisaError::ResourceLocked))
    );
    assert_eq!(
        parse_vi_status(VI_ERROR_RSRC_NFOUND),
        Err(Error::Visa(VisaError::ResourceNotFound))
    );
    assert_eq!(
        parse_vi_status(VI_ERROR_SESN_NLOCKED),
        Err(Error::Visa(VisaError::SessionNotLocked))
    );
    assert_eq!(
        parse_vi_status(VI_ERROR_NPERMISSION),
        Err(Error::Visa(VisaError::NoPermission))
    );
}

#[test]
fn unknown_codes_map_to_unknown() {
    assert_eq!(parse_vi_status(-7), Err(Error::Visa(VisaError::Unknown)));
    assert_eq!(parse_vi_status(12345), Err(Error::Visa(VisaError::Unknown)));
}

#[test]
fn classification_is_stable() {
    assert_eq!(parse_vi_status(VI_ERROR_TMO), parse_vi_status(VI_ERROR_TMO));
    assert_eq!(parse_vi_status(12345), parse_vi_status(12345));
}

#[test]
fn io_taxonomy_projection() {
    assert_eq!(VisaError::Timeout.to_io_error(), IoErrorKind::TimedOut);
    assert_eq!(
        VisaError::ResourceLocked.to_io_error(),
        IoErrorKind::ConnectionRefused
    );
    assert_eq!(
        VisaError::InvalidObject.to_io_error(),
        IoErrorKind::AddrNotAvailable
    );
    assert_eq!(
        VisaError::OperationNotSupported.to_io_error(),
        IoErrorKind::Unsupported
    );
    assert_eq!(
        VisaError::RawReadProtocolViolation.to_io_error(),
        IoErrorKind::InvalidData
    );
    assert_eq!(VisaError::ConnectionLost.to_io_error(), IoErrorKind::BrokenPipe);
    assert_eq!(
        VisaError::NotControllerInCharge.to_io_error(),
        IoErrorKind::PermissionDenied
    );
    assert_eq!(VisaError::InvalidSetup.to_io_error(), IoErrorKind::InvalidInput);
    assert_eq!(VisaError::Parity.to_io_error(), IoErrorKind::Other);
}

#[test]
fn io_projection_of_raw_codes() {
    assert_eq!(parse_vi_status_to_io(VI_SUCCESS), Ok(Status::OperationCompleted));
    assert_eq!(parse_vi_status_to_io(VI_ERROR_TMO), Err(IoErrorKind::TimedOut));
}

#[test]
fn codes_round_trip_through_classification() {
    assert_eq!(VisaError::Timeout.code(), VI_ERROR_TMO);
    assert_eq!(parse_vi_status(VisaError::NoPermission.code()), Err(Error::Visa(VisaError::NoPermission)));
    assert_eq!(parse_vi_status(VisaError::Unknown.code()), Err(Error::Visa(VisaError::Unknown)));
}
