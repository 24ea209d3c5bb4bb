use ip_updater::address::{parse_address, string_to_ipv4, Address};
use ip_updater::error::Error;

#[test]
fn parses_dotted_decimal() {
    assert_eq!(parse_address("203.0.113.7"), Ok(Address::new(203, 0, 113, 7)));
    assert_eq!(parse_address("0.0.0.0"), Ok(Address(0, 0, 0, 0)));
    assert_eq!(parse_address("255.255.255.255"), Ok(Address(255, 255, 255, 255)));
}

#[test]
fn canonical_text_round_trips() {
    for text in ["203.0.113.7", "10.0.0.1", "255.255.255.255", "0.0.0.0", "1.22.133.9"] {
        let a = parse_address(text).unwrap();
        assert_eq!(a.to_text(), text);
    }
}

#[test]
fn text_of_address() {
    assert_eq!(Address(192, 168, 1, 20).to_text(), "192.168.1.20");
    assert_eq!(Address(8, 8, 4, 4).to_text(), "8.8.4.4");
}

#[test]
fn octets_in_order() {
    assert_eq!(Address::new(1, 2, 3, 4).octets(), [1, 2, 3, 4]);
}

#[test]
fn leading_zeros_and_plus_are_accepted() {
    assert_eq!(parse_address("010.001.0.+7"), Ok(Address(10, 1, 0, 7)));
}

#[test]
fn wrong_segment_count_is_rejected() {
    assert_eq!(parse_address("1.2.3"), Err(Error::Parse));
    assert_eq!(parse_address("1.2.3.4.5"), Err(Error::Parse));
    assert_eq!(parse_address(""), Err(Error::Parse));
    assert_eq!(parse_address("1234"), Err(Error::Parse));
}

#[test]
fn bad_segments_are_rejected() {
    assert_eq!(parse_address("256.0.0.1"), Err(Error::Parse));
    assert_eq!(parse_address("1.2.3.1000"), Err(Error::Parse));
    assert_eq!(parse_address("1.2.-3.4"), Err(Error::Parse));
    assert_eq!(parse_address("1.2.x.4"), Err(Error::Parse));
    assert_eq!(parse_address("1..3.4"), Err(Error::Parse));
    assert_eq!(parse_address("1.2.3.4\n"), Err(Error::Parse));
    assert_eq!(parse_address("1.2.3.+"), Err(Error::Parse));
}

#[test]
fn string_to_ipv4_parses_owned_text() {
    assert_eq!(string_to_ipv4("203.0.113.9".to_string()), Ok(Address(203, 0, 113, 9)));
    assert_eq!(string_to_ipv4("203.0.113".to_string()), Err(Error::Parse));
}
