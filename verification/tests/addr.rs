use pong::ipv4::{Addr, ParseAddrError};

#[test]
fn parse_simple() {
    let a = Addr::from_str("8.8.8.8").unwrap();
    assert_eq!(a.0, [8, 8, 8, 8]);
}

#[test]
fn parse_full_range() {
    let a = Addr::from_str("0.255.1.254").unwrap();
    assert_eq!(a.0, [0, 255, 1, 254]);
}

#[test]
fn round_trip_text() {
    for s in ["8.8.8.8", "0.0.0.0", "255.255.255.255", "192.168.0.1", "1.22.133.45"] {
        let a = Addr::from_str(s).unwrap();
        assert_eq!(a.to_text(), s);
    }
}

#[test]
fn to_text_of_octets() {
    assert_eq!(Addr([0, 0, 0, 0]).to_text(), "0.0.0.0");
    assert_eq!(Addr([127, 0, 0, 1]).to_text(), "127.0.0.1");
    assert_eq!(Addr([255, 9, 10, 99]).to_text(), "255.9.10.99");
}

#[test]
fn leading_zeros_parse_but_are_not_canonical() {
    let a = Addr::from_str("007.8.9.10").unwrap();
    assert_eq!(a.0, [7, 8, 9, 10]);
    assert_eq!(a.to_text(), "7.8.9.10");
}

#[test]
fn not_enough_parts() {
    assert_eq!(Addr::from_str("1.2.3"), Err(ParseAddrError::NotEnoughParts));
    assert_eq!(Addr::from_str("8"), Err(ParseAddrError::NotEnoughParts));
}

#[test]
fn too_many_parts() {
    assert_eq!(Addr::from_str("1.2.3.4.5"), Err(ParseAddrError::TooManyParts));
    assert_eq!(Addr::from_str("1.2.3.4."), Err(ParseAddrError::TooManyParts));
    // The fifth component is never examined: four good ones and a dot suffice.
    assert_eq!(Addr::from_str("1.2.3.4.x"), Err(ParseAddrError::TooManyParts));
}

#[test]
fn invalid_component() {
    assert_eq!(Addr::from_str("1.2.x.4"), Err(ParseAddrError::InvalidComponent));
    assert_eq!(Addr::from_str("256.0.0.1"), Err(ParseAddrError::InvalidComponent));
    assert_eq!(Addr::from_str("1.2.3.999"), Err(ParseAddrError::InvalidComponent));
    assert_eq!(Addr::from_str(""), Err(ParseAddrError::InvalidComponent));
    assert_eq!(Addr::from_str("1..3.4"), Err(ParseAddrError::InvalidComponent));
    assert_eq!(Addr::from_str("1.2.3."), Err(ParseAddrError::InvalidComponent));
    assert_eq!(Addr::from_str("-1.2.3.4"), Err(ParseAddrError::InvalidComponent));
    assert_eq!(Addr::from_str("+1.2.3.4"), Err(ParseAddrError::InvalidComponent));
    assert_eq!(Addr::from_str("1.2.3.4 "), Err(ParseAddrError::InvalidComponent));
}

#[test]
fn invalid_before_missing() {
    // The bad second component is found before the count comes up short.
    assert_eq!(Addr::from_str("1.x"), Err(ParseAddrError::InvalidComponent));
}
