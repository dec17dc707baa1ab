use port_scanner::ports::{ParseError, PortRange};

#[test]
fn parse_valid_round_trips() {
    let r = PortRange::parse("1-5").unwrap();
    assert_eq!(r, PortRange { start: 1, end: 5 });
    let v = r.to_vec();
    assert_eq!(v, vec![1, 2, 3, 4, 5]);

    let r = PortRange::parse("80-80").unwrap();
    assert_eq!(v_props(&r.to_vec(), 80, 80), true);

    let r = PortRange::parse("1-1000").unwrap();
    assert_eq!(v_props(&r.to_vec(), 1, 1000), true);

    let r = PortRange::parse("65535-65535").unwrap();
    assert_eq!(r.to_vec(), vec![65535]);

    let r = PortRange::parse("65530-65535").unwrap();
    assert_eq!(v_props(&r.to_vec(), 65530, 65535), true);
}

/// length end-start+1, strictly ascending, first = start, last = end
fn v_props(v: &[u16], start: u16, end: u16) -> bool {
    if v.len() != (end - start) as usize + 1 {
        return false;
    }
    if v[0] != start || v[v.len() - 1] != end {
        return false;
    }
    for i in 1..v.len() {
        if v[i - 1] >= v[i] {
            return false;
        }
    }
    true
}

#[test]
fn parse_rejects_malformed() {
    for bad in ["0-10", "1-0", "100-1", "abc-10", "10", "10-20-30"] {
        assert!(PortRange::parse(bad).is_err(), "{bad} should be rejected");
    }
}

#[test]
fn parse_error_kinds() {
    assert_eq!(PortRange::parse("10"), Err(ParseError::Format));
    assert_eq!(PortRange::parse("10-20-30"), Err(ParseError::Format));
    assert_eq!(PortRange::parse(""), Err(ParseError::Format));
    assert_eq!(PortRange::parse("abc-10"), Err(ParseError::NotANumber));
    assert_eq!(PortRange::parse("10-abc"), Err(ParseError::NotANumber));
    assert_eq!(PortRange::parse("-10"), Err(ParseError::NotANumber));
    assert_eq!(PortRange::parse("10-"), Err(ParseError::NotANumber));
    assert_eq!(PortRange::parse("1x-10"), Err(ParseError::NotANumber));
    assert_eq!(PortRange::parse("0-10"), Err(ParseError::OutOfRange));
    assert_eq!(PortRange::parse("1-0"), Err(ParseError::OutOfRange));
    assert_eq!(PortRange::parse("1-65536"), Err(ParseError::OutOfRange));
    assert_eq!(PortRange::parse("99999999999999999999-1"), Err(ParseError::OutOfRange));
    assert_eq!(PortRange::parse("100-1"), Err(ParseError::Inverted));
    assert_eq!(PortRange::parse("65535-1"), Err(ParseError::Inverted));
}

#[test]
fn parse_error_messages() {
    assert_eq!(
        ParseError::Format.message(),
        "ports must be in format start-end (example: 1-1000)"
    );
    assert_eq!(ParseError::NotANumber.message(), "port must be a number");
    assert_eq!(
        ParseError::OutOfRange.message(),
        "port range must be between 1 and 65535"
    );
    assert_eq!(ParseError::Inverted.message(), "start port must be <= end port");
}

#[test]
fn parse_from_str_reports_message() {
    let e = "100-1".parse::<PortRange>().unwrap_err();
    assert_eq!(e, "start port must be <= end port".to_string());
}

#[test]
fn parse_bytes_matches_str_parse() {
    assert_eq!(
        PortRange::parse_bytes(b"22-443"),
        Ok(PortRange { start: 22, end: 443 })
    );
    assert_eq!(PortRange::parse_bytes(b"7"), Err(ParseError::Format));
}
