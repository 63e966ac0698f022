use broker::admission::{
    authorize_source, check_origin, parse_source_header, receive_data, validate_source_id,
    AdmissionError,
};
use broker::models::Source;
use broker::net::IpAddress;
use broker::store::Store;

fn store_with_source(src_id: &str, active: bool) -> Store {
    let mut s = Store::new();
    let source = Source { src_id: src_id.to_string(), cfg: None, active };
    broker::store::add_source(&mut s, &source).unwrap();
    s
}

fn private_peer() -> Option<IpAddress> {
    Some(IpAddress::v4(192, 168, 1, 1))
}

#[test]
fn test_validate_source_id_missing_header() {
    let s = Store::new();
    let result = validate_source_id(None, &s);
    match result {
        Err(e) => {
            assert_eq!(e.status_code(), 400);
            assert_eq!(e.message(), "Missing X-Source-Id header");
        }
        Ok(_) => panic!("a missing header must be refused"),
    }
}

#[test]
fn test_validate_source_id_invalid_header() {
    let s = Store::new();
    let header = vec![0xFFu8];
    let result = validate_source_id(Some(&header), &s);
    match result {
        Err(e) => {
            assert_eq!(e.status_code(), 400);
            assert_eq!(e.message(), "Invalid X-Source-Id header value");
        }
        Ok(_) => panic!("an unprintable header must be refused"),
    }
}

#[test]
fn test_validate_source_id_empty_header() {
    let s = Store::new();
    let header: Vec<u8> = Vec::new();
    let result = validate_source_id(Some(&header), &s);
    match result {
        Err(e) => {
            assert_eq!(e.status_code(), 400);
            assert_eq!(e.message(), "X-Source-Id header cannot be empty");
        }
        Ok(_) => panic!("an empty header must be refused"),
    }
}

#[test]
fn test_validate_source_id_source_not_found() {
    let s = Store::new();
    let header = b"src1".to_vec();
    let result = validate_source_id(Some(&header), &s);
    match result {
        Err(e) => {
            assert_eq!(e.status_code(), 403);
            assert_eq!(
                e.message(),
                format!("Source with ID {} does not registered. Access denied.", "src1")
            );
        }
        Ok(_) => panic!("an unknown source must be refused"),
    }
}

#[test]
fn test_validate_source_id_source_disabled() {
    let s = store_with_source("src1", false);
    let header = b"src1".to_vec();
    let result = validate_source_id(Some(&header), &s);
    match result {
        Err(e) => {
            assert_eq!(e.status_code(), 403);
            assert_eq!(
                e.message(),
                format!("Source with ID {} is disabled. Access denied.", "src1")
            );
        }
        Ok(_) => panic!("a disabled source must be refused"),
    }
}

#[test]
fn test_validate_source_id_success() {
    let s = store_with_source("src1", true);
    let header = b"src1".to_vec();
    let result = validate_source_id(Some(&header), &s);
    assert!(result.is_ok());
    assert_eq!(result.unwrap(), "src1");
}

#[test]
fn test_validate_source_id_database_error() {
    let detail = "error returned from database: (code: 1) no such table: sources";
    let result = authorize_source("src1", Err(detail.to_string()));
    match result {
        Err(e) => {
            assert_eq!(e.status_code(), 500);
            assert_eq!(e.message(), detail);
        }
        Ok(_) => panic!("a store failure must be surfaced"),
    }
}

#[test]
fn test_authorize_source_outcomes() {
    let active = Source { src_id: "src1".to_string(), cfg: None, active: true };
    let disabled = Source { src_id: "src1".to_string(), cfg: None, active: false };
    assert_eq!(authorize_source("src1", Ok(Some(active))).unwrap(), "src1");
    assert!(matches!(
        authorize_source("src1", Ok(Some(disabled))),
        Err(AdmissionError::SourceDisabled(_))
    ));
    assert!(matches!(
        authorize_source("src1", Ok(None)),
        Err(AdmissionError::UnknownSource(_))
    ));
}

#[test]
fn test_parse_source_header_reads_bytes() {
    let header = b"sensor-7".to_vec();
    assert_eq!(parse_source_header(Some(&header)).unwrap(), "sensor-7");
}

#[test]
fn test_save_data_success() {
    let mut s = store_with_source("src1", true);
    let payload = b"a".to_vec();
    let body_len = payload.len();
    let result = receive_data(&mut s, private_peer(), Some(b"src1".to_vec()), payload);
    assert_eq!(result.unwrap(), 1);
    assert_eq!(format!("{}", body_len), "1");
    assert_eq!(s.records.len(), 1);
    assert_eq!(s.records[0].src_id, "src1");
    assert_eq!(s.records[0].data, vec![0x61]);
    assert!(!s.records[0].sent);
}

#[test]
fn test_save_data_error() {
    let mut s = store_with_source("src1", true);
    let result = receive_data(&mut s, private_peer(), Some(b"src1".to_vec()), Vec::new());
    match result {
        Err(e) => {
            assert_eq!(e.status_code(), 500);
            assert_eq!(e.message(), "Empty data is not allowed.");
        }
        Ok(_) => panic!("an empty payload must be refused"),
    }
    assert_eq!(s.records.len(), 0);
}

#[test]
fn test_private_ipv4_allowed() {
    let peer = Some(IpAddress::v4(192, 168, 1, 1));
    assert!(check_origin(&peer).is_ok(), "Private IPv4 should be allowed");
}

#[test]
#[should_panic(expected = "Access is allowed only from private IP addresses")]
fn test_public_ipv4_forbidden() {
    let peer = Some(IpAddress::v4(8, 8, 8, 8));
    if let Err(e) = check_origin(&peer) {
        panic!("{}", e.message());
    }
}

#[test]
fn test_private_ipv6_allowed() {
    let peer = Some(IpAddress::v6(0xfd00, 0, 0, 0, 0, 0, 0, 1));
    assert!(check_origin(&peer).is_ok(), "Private IPv6 should be allowed");
}

#[test]
#[should_panic(expected = "Access is allowed only from private IP addresses")]
fn test_public_ipv6_forbidden() {
    let peer = Some(IpAddress::v6(0x2001, 0x0db8, 0, 0, 0, 0, 0, 1));
    if let Err(e) = check_origin(&peer) {
        panic!("{}", e.message());
    }
}

#[test]
#[should_panic(expected = "Unable to determine client IP address")]
fn test_no_ip_forbidden() {
    if let Err(e) = check_origin(&None) {
        panic!("{}", e.message());
    }
}

#[test]
fn test_disabled_source_rejected_for_any_payload() {
    let mut s = store_with_source("src1", false);
    for payload in [b"a".to_vec(), b"some larger payload".to_vec(), vec![0u8; 100]] {
        let result = receive_data(&mut s, private_peer(), Some(b"src1".to_vec()), payload);
        assert!(matches!(result, Err(AdmissionError::SourceDisabled(_))));
        assert_eq!(s.records.len(), 0);
    }
}

#[test]
fn test_two_admissions_get_distinct_increasing_ids() {
    let mut s = store_with_source("src1", true);
    let id1 = receive_data(&mut s, private_peer(), Some(b"src1".to_vec()), b"a".to_vec()).unwrap();
    let id2 = receive_data(&mut s, private_peer(), Some(b"src1".to_vec()), b"b".to_vec()).unwrap();
    assert_ne!(id1, id2);
    assert!(id2 > id1);
    assert_eq!((id1, id2), (1, 2));
}

#[test]
fn test_empty_body_creates_no_record() {
    let mut s = store_with_source("src1", true);
    let result = receive_data(&mut s, private_peer(), Some(b"src1".to_vec()), Vec::new());
    assert!(result.is_err());
    assert_eq!(s.records.len(), 0);
}

#[test]
fn test_public_address_rejected_without_store_interaction() {
    let mut s = store_with_source("src1", true);
    let sources_before = s.sources.len();
    let result = receive_data(
        &mut s,
        Some(IpAddress::v4(8, 8, 8, 8)),
        Some(b"src1".to_vec()),
        b"a".to_vec(),
    );
    match result {
        Err(e) => {
            assert_eq!(e.status_code(), 403);
            assert_eq!(e.message(), "Access is allowed only from private IP addresses");
        }
        Ok(_) => panic!("a public peer must be refused"),
    }
    assert_eq!(s.records.len(), 0);
    assert_eq!(s.sources.len(), sources_before);
}

#[test]
fn test_checks_run_in_order() {
    let mut s = Store::new();
    let result = receive_data(&mut s, None, None, Vec::new());
    assert!(matches!(result, Err(AdmissionError::OriginUnknown)));
    let result = receive_data(&mut s, Some(IpAddress::v4(8, 8, 8, 8)), None, Vec::new());
    assert!(matches!(result, Err(AdmissionError::OriginNotPrivate)));
    let result = receive_data(&mut s, private_peer(), None, Vec::new());
    assert!(matches!(result, Err(AdmissionError::EmptyPayload)));
    let result = receive_data(&mut s, private_peer(), None, b"a".to_vec());
    assert!(matches!(result, Err(AdmissionError::MissingIdentifier)));
    let result = receive_data(&mut s, private_peer(), Some(vec![0xFF]), b"a".to_vec());
    assert!(matches!(result, Err(AdmissionError::MalformedIdentifier)));
    let result = receive_data(&mut s, private_peer(), Some(Vec::new()), b"a".to_vec());
    assert!(matches!(result, Err(AdmissionError::EmptyIdentifier)));
    let result = receive_data(&mut s, private_peer(), Some(b"src1".to_vec()), b"a".to_vec());
    assert!(matches!(result, Err(AdmissionError::UnknownSource(_))));
}
