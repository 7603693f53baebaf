use messenger::endpoint_list::{is_white_space, parse_endpoint_list, EndpointListError};
use messenger::hex::HexError;

const ID_A: &str = "00112233445566778899aabbccddeeff";
const ID_B: &str = "ffeeddccbbaa99887766554433221100";

#[test]
fn endpoint_list_reads_lines_in_order_and_skips_comments() {
    let text = format!(
        "# relays\n\n  {ID_A} 10 wss://a.example/v1/ws https://a.example/v1/relay\r\n\t{ID_B}\t+7 ws://b.example http://b.example  \n   # trailing comment\n"
    );
    let endpoints = parse_endpoint_list(&text).unwrap();
    assert_eq!(endpoints.len(), 2);
    assert_eq!(endpoints[0].endpoint_id[0], 0x00);
    assert_eq!(endpoints[0].endpoint_id[15], 0xff);
    assert_eq!(endpoints[0].priority, 10);
    assert_eq!(endpoints[0].websocket_url, "wss://a.example/v1/ws");
    assert_eq!(endpoints[0].https_url, "https://a.example/v1/relay");
    assert_eq!(endpoints[1].endpoint_id[0], 0xff);
    assert_eq!(endpoints[1].priority, 7);
    assert_eq!(endpoints[1].websocket_url, "ws://b.example");
    assert_eq!(endpoints[1].https_url, "http://b.example");
}

#[test]
fn endpoint_list_splits_fields_at_unicode_white_space() {
    let text = format!("{ID_A}\u{a0}1\u{3000}wss://a https://a");
    let endpoints = parse_endpoint_list(&text).unwrap();
    assert_eq!(endpoints.len(), 1);
    assert_eq!(endpoints[0].priority, 1);
    assert!(is_white_space('\u{2028}'));
    assert!(is_white_space('\u{85}'));
    assert!(!is_white_space('\u{200b}'));
    assert!(!is_white_space('x'));
}

#[test]
fn endpoint_list_reports_the_first_bad_line() {
    let text = format!("{ID_A} 1 wss://a https://a\n\n{ID_B} 2 wss://b\n{ID_A} 3");
    assert_eq!(parse_endpoint_list(&text).unwrap_err(), EndpointListError::FieldCount(3));
}

#[test]
fn endpoint_list_rejects_bad_ids_and_priorities() {
    assert_eq!(
        parse_endpoint_list("abc 1 wss://a https://a").unwrap_err(),
        EndpointListError::InvalidId(HexError::OddLength)
    );
    assert_eq!(
        parse_endpoint_list("zz 1 wss://a https://a").unwrap_err(),
        EndpointListError::InvalidId(HexError::InvalidDigit)
    );
    assert_eq!(
        parse_endpoint_list("0011 1 wss://a https://a").unwrap_err(),
        EndpointListError::IdLength
    );
    for priority in ["65536", "-1", "+", "1x", ""] {
        let text = format!("{ID_A} {priority} wss://a https://a");
        let expected = if priority.is_empty() {
            EndpointListError::FieldCount(1)
        } else {
            EndpointListError::InvalidPriority
        };
        assert_eq!(parse_endpoint_list(&text).unwrap_err(), expected);
    }
    let text = format!("{ID_A} 65535 wss://a https://a");
    assert_eq!(parse_endpoint_list(&text).unwrap()[0].priority, 65535);
    let text = format!("{ID_A} 0007 wss://a https://a");
    assert_eq!(parse_endpoint_list(&text).unwrap()[0].priority, 7);
}

#[test]
fn endpoint_list_without_endpoints_is_refused() {
    assert_eq!(parse_endpoint_list("").unwrap_err(), EndpointListError::NoEndpoints);
    assert_eq!(
        parse_endpoint_list("# only a comment\n   \n").unwrap_err(),
        EndpointListError::NoEndpoints
    );
}
