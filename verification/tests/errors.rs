use update_delivery_system::errors::UdsError;

#[test]
fn client_errors_keep_their_message_and_code() {
    let id = uuid::Uuid::nil();
    let cases = [
        (UdsError::BadRequest("bad thing".into()), 400, "bad thing", "bad_request"),
        (UdsError::Unauthorized, 401, "unauthorized", "unauthorized"),
        (UdsError::Forbidden, 403, "forbidden", "forbidden"),
        (UdsError::PayloadTooLarge("too big".into()), 413, "too big", "payload_too_large"),
        (UdsError::NotFound("missing".into()), 404, "missing", "not_found"),
        (UdsError::Conflict("clash".into()), 409, "clash", "conflict"),
    ];
    for (error, status, message, code) in cases {
        let reply = error.reply(id);
        assert_eq!(error.status(), status);
        assert_eq!(reply.status, status);
        assert_eq!(reply.error, message);
        assert_eq!(reply.code, code);
        assert!(!reply.metadata.internal);
        assert_eq!(reply.metadata.error_id, id);
    }
}

#[test]
fn internal_errors_hide_their_details() {
    let id = uuid::Uuid::from_u128(7);
    let io = std::io::Error::new(std::io::ErrorKind::Other, "/secret/path");
    let json = serde_json::from_str::<u8>("nope").unwrap_err();
    let semver_error = semver::Version::parse("x").unwrap_err();
    let cases = [
        UdsError::Config("token=SECRET-REDACTED".into()),
        UdsError::Storage("/var/lib/uds".into()),
        UdsError::Io(io),
        UdsError::Json(json),
        UdsError::Semver(semver_error),
    ];
    for error in cases {
        let reply = error.reply(id);
        assert_eq!(reply.status, 500);
        assert_eq!(reply.error, "internal server error");
        assert_eq!(reply.code, "internal_error");
        assert!(reply.metadata.internal);
    }
    let fleet = UdsError::FleetUnavailable.reply(id);
    assert_eq!(fleet.status, 503);
    assert_eq!(fleet.error, "fleet confirmation unavailable");
    assert_eq!(fleet.code, "fleet_confirmation_unavailable");
    assert!(fleet.metadata.internal);
}
