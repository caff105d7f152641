use asn1::object_identifier::{Error, ObjectIdentifier};

#[test]
fn test_oid_decode1() {
    {
        let input = [0x2au8, 0x86, 0x48, 0x86, 0xf7, 0x0d, 0x01, 0x07, 0x02];

        let oid = ObjectIdentifier::from_bytes(&input).unwrap();

        assert_eq!(oid.components(), &[1, 2, 840, 113549, 1, 7, 2]);
    }
}

#[test]
fn test_oid_roundtrip1() {
    {
        let input = [0x2au8, 0x86, 0x48, 0x86, 0xf7, 0x0d, 0x01, 0x07, 0x02];

        let oid = ObjectIdentifier::from_bytes(&input).unwrap();

        assert_eq!(oid.components(), &[1, 2, 840, 113549, 1, 7, 2]);

        let oid_bytes = oid.to_bytes();

        assert_eq!(oid_bytes.len(), oid.bytes_len());
        assert_eq!(oid_bytes, input);
    }
}

#[test]
fn oid_empty_input_is_refused() {
    let e = ObjectIdentifier::from_bytes(&[]).unwrap_err();
    assert_eq!(e, Error::UnexpectedEndOfData);
    assert_eq!(e.description(), "unexpected endofdata");
}

#[test]
fn oid_of_one_octet_has_two_arcs() {
    let oid = ObjectIdentifier::from_bytes(&[0x2b]).unwrap();
    assert_eq!(oid.components(), &[1, 3]);
    assert_eq!(oid.bytes_len(), 1);
    assert_eq!(oid.to_bytes(), vec![0x2b]);
}

#[test]
fn oid_first_octet_is_split_by_forty() {
    let oid = ObjectIdentifier::from_bytes(&[0]).unwrap();
    assert_eq!(oid.components(), &[0, 0]);
    let oid = ObjectIdentifier::from_bytes(&[39]).unwrap();
    assert_eq!(oid.components(), &[0, 39]);
    let oid = ObjectIdentifier::from_bytes(&[40]).unwrap();
    assert_eq!(oid.components(), &[1, 0]);
    let oid = ObjectIdentifier::from_bytes(&[80]).unwrap();
    assert_eq!(oid.components(), &[2, 0]);
    let oid = ObjectIdentifier::from_bytes(&[119]).unwrap();
    assert_eq!(oid.components(), &[2, 39]);
    let oid = ObjectIdentifier::from_bytes(&[255]).unwrap();
    assert_eq!(oid.components(), &[6, 15]);
    assert_eq!(oid.to_bytes(), vec![255]);
}

#[test]
fn oid_truncated_arc_is_refused() {
    let e = ObjectIdentifier::from_bytes(&[0x2a, 0x86]).unwrap_err();
    assert_eq!(e, Error::UnexpectedEndOfData);
    let e = ObjectIdentifier::from_bytes(&[0x2a, 0x01, 0x86, 0x80]).unwrap_err();
    assert_eq!(e, Error::UnexpectedEndOfData);
}

#[test]
fn oid_largest_arc_is_read() {
    let input = [
        0x2a, 0x81, 0xff, 0xff, 0xff, 0xff, 0xff, 0xff, 0xff, 0xff, 0x7f,
    ];
    let oid = ObjectIdentifier::from_bytes(&input).unwrap();
    assert_eq!(oid.components(), &[1, 2, u64::MAX]);
    assert_eq!(oid.bytes_len(), 11);
    assert_eq!(oid.to_bytes(), input);
}

#[test]
fn oid_arc_overflow_is_refused() {
    let input = [
        0x2a, 0x82, 0x80, 0x80, 0x80, 0x80, 0x80, 0x80, 0x80, 0x80, 0x00,
    ];
    let e = ObjectIdentifier::from_bytes(&input).unwrap_err();
    assert_eq!(e, Error::ComponentOverflow);
    assert_eq!(e.description(), "oid component overflow");
}

#[test]
fn oid_overflow_is_seen_before_the_end_of_the_octets() {
    let input = [0x2a, 0x82, 0x80, 0x80, 0x80, 0x80, 0x80, 0x80, 0x80, 0x80];
    let e = ObjectIdentifier::from_bytes(&input).unwrap_err();
    assert_eq!(e, Error::ComponentOverflow);
}

#[test]
fn oid_zero_arc_takes_one_octet() {
    let input = [0x2a, 0x00, 0x05, 0x00];
    let oid = ObjectIdentifier::from_bytes(&input).unwrap();
    assert_eq!(oid.components(), &[1, 2, 0, 5, 0]);
    assert_eq!(oid.bytes_len(), 4);
    assert_eq!(oid.to_bytes(), input);
}

#[test]
fn oid_is_written_in_the_least_number_of_octets() {
    let padded = [0x2a, 0x80, 0x80, 0x05, 0x80, 0x00];
    let oid = ObjectIdentifier::from_bytes(&padded).unwrap();
    assert_eq!(oid.components(), &[1, 2, 5, 0]);
    assert_eq!(oid.to_bytes(), vec![0x2a, 0x05, 0x00]);
    assert_eq!(oid.bytes_len(), 3);
}

#[test]
fn oid_write_to_appends_and_counts() {
    let oid = ObjectIdentifier::from_bytes(&[0x2a, 0x86, 0x48]).unwrap();
    let mut sink = vec![0x06, 0x03];
    let n = oid.write_to(&mut sink);
    assert_eq!(n, 3);
    assert_eq!(sink, vec![0x06, 0x03, 0x2a, 0x86, 0x48]);
}

#[test]
fn oid_round_trips_through_its_octets() {
    let inputs: [&[u8]; 5] = [
        &[0x00],
        &[0x55, 0x04, 0x03],
        &[0x2b, 0x06, 0x01, 0x04, 0x01, 0x82, 0x37, 0x15, 0x14],
        &[0x60, 0x86, 0x48, 0x01, 0x65, 0x03, 0x04, 0x02, 0x01],
        &[0x2a, 0xff, 0x7f, 0x81, 0x00, 0x7f],
    ];
    for input in inputs {
        let oid = ObjectIdentifier::from_bytes(input).unwrap();
        let bytes = oid.to_bytes();
        assert_eq!(bytes, input);
        assert_eq!(bytes.len(), oid.bytes_len());
        let again = ObjectIdentifier::from_bytes(&bytes).unwrap();
        assert_eq!(again.components(), oid.components());
    }
}
