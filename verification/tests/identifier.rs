use asn1::identifier::{Class, Identifier, UniversalTag};

#[test]
fn smoke_roundtrip() {
    for v in 0..254 {
        match v & 0b11111 {
            0b01110 => continue,
            0b01111 => continue,
            0b11111 => continue,
            _ => (),
        }
        let i = Identifier::from_u8(v).unwrap();
        assert_eq!(i.to_bytes(), &[v]);
    }
}

#[test]
fn every_single_octet_round_trips() {
    for v in 0..=255u8 {
        match Identifier::from_u8(v) {
            Some(i) => {
                assert_ne!(v & 0x1f, 0x1f);
                assert_eq!(i.to_bytes(), vec![v]);
                assert_eq!(i.bytes_len(), 1);
            }
            None => assert_eq!(v & 0x1f, 0x1f),
        }
    }
}

#[test]
fn constructor_round_trips_for_short_tags() {
    let classes = [
        Class::Universal,
        Class::Application,
        Class::ContextSpecific,
        Class::Private,
    ];
    for class in classes {
        for constructed in [false, true] {
            for tag in 0..31u64 {
                let id = Identifier::new(class, constructed, tag);
                let bytes = id.to_bytes();
                assert_eq!(bytes.len(), 1);
                assert_eq!(Identifier::from_u8(bytes[0]), Some(id));
            }
        }
    }
}

#[test]
fn first_octet_layout() {
    assert_eq!(
        Identifier::new(Class::Universal, true, 16).to_bytes(),
        vec![0x30]
    );
    assert_eq!(
        Identifier::new(Class::Application, false, 0).to_bytes(),
        vec![0x40]
    );
    assert_eq!(
        Identifier::new(Class::ContextSpecific, true, 3).to_bytes(),
        vec![0xa3]
    );
    assert_eq!(
        Identifier::new(Class::Private, false, 30).to_bytes(),
        vec![0xde]
    );
}

#[test]
fn accessors_give_the_parts_back() {
    let id = Identifier::new(Class::ContextSpecific, true, 77);
    assert_eq!(id.class(), Class::ContextSpecific);
    assert!(id.is_constructed());
    assert_eq!(id.tag(), 77);
}

#[test]
fn long_form_tags_are_written_in_base_128() {
    let id = Identifier::new(Class::Universal, false, 31);
    assert_eq!(id.to_bytes(), vec![0x1f, 0x1f]);
    assert_eq!(id.bytes_len(), 2);

    let id = Identifier::new(Class::Private, false, 200);
    assert_eq!(id.to_bytes(), vec![0xdf, 0x81, 0x48]);
    assert_eq!(id.bytes_len(), 3);

    let id = Identifier::new(Class::Application, true, 127);
    assert_eq!(id.to_bytes(), vec![0x7f, 0x7f]);

    let id = Identifier::new(Class::Application, true, 128);
    assert_eq!(id.to_bytes(), vec![0x7f, 0x81, 0x00]);

    let id = Identifier::new(Class::Universal, false, u64::MAX);
    assert_eq!(
        id.to_bytes(),
        vec![0x1f, 0x81, 0xff, 0xff, 0xff, 0xff, 0xff, 0xff, 0xff, 0xff, 0x7f]
    );
    assert_eq!(id.bytes_len(), 11);
}

#[test]
fn bytes_len_agrees_with_to_bytes() {
    let tags = [
        0u64,
        1,
        30,
        31,
        127,
        128,
        16383,
        16384,
        1 << 21,
        1 << 35,
        1 << 63,
        u64::MAX,
    ];
    for tag in tags {
        let id = Identifier::new(Class::ContextSpecific, false, tag);
        assert_eq!(id.bytes_len(), id.to_bytes().len());
    }
}

#[test]
fn write_to_appends_and_counts() {
    let mut sink = vec![0xaa];
    let n = Identifier::new(Class::Private, true, 200).write_to(&mut sink);
    assert_eq!(n, 3);
    assert_eq!(sink, vec![0xaa, 0xff, 0x81, 0x48]);
}

#[test]
fn class_comes_from_the_top_two_bits() {
    assert_eq!(Class::from_u8(0x00), Class::Universal);
    assert_eq!(Class::from_u8(0x3f), Class::Universal);
    assert_eq!(Class::from_u8(0x40), Class::Application);
    assert_eq!(Class::from_u8(0x7f), Class::Application);
    assert_eq!(Class::from_u8(0x80), Class::ContextSpecific);
    assert_eq!(Class::from_u8(0xbf), Class::ContextSpecific);
    assert_eq!(Class::from_u8(0xc0), Class::Private);
    assert_eq!(Class::from_u8(0xff), Class::Private);
}

#[test]
fn class_goes_to_the_top_two_bits() {
    assert_eq!(Class::Universal.into_u8(), 0x00);
    assert_eq!(Class::Application.into_u8(), 0x40);
    assert_eq!(Class::ContextSpecific.into_u8(), 0x80);
    assert_eq!(Class::Private.into_u8(), 0xc0);
    assert_eq!(u8::from(Class::Private), 0xc0);
}

#[test]
fn classes_are_ordered() {
    assert!(Class::Universal < Class::Application);
    assert!(Class::Application < Class::ContextSpecific);
    assert!(Class::ContextSpecific < Class::Private);
}

#[test]
fn universal_tag_numbers() {
    assert_eq!(UniversalTag::EndOfContent.into_u8(), 0);
    assert_eq!(UniversalTag::Boolean.into_u8(), 1);
    assert_eq!(UniversalTag::ObjectIdentifier.into_u8(), 6);
    assert_eq!(UniversalTag::EmbeddedPdv.into_u8(), 11);
    assert_eq!(UniversalTag::RelativeOid.into_u8(), 13);
    assert_eq!(UniversalTag::Sequence.into_u8(), 16);
    assert_eq!(UniversalTag::SetOf.into_u8(), 17);
    assert_eq!(UniversalTag::BmpString.into_u8(), 30);
    assert_eq!(u8::from(UniversalTag::Integer), 2);
    assert_eq!(u32::from(UniversalTag::UtcTime), 23);
    assert_eq!(u64::from(UniversalTag::GeneralizedTime), 24);
    let n: u64 = UniversalTag::Sequence.into();
    assert_eq!(n, 16);
}

#[test]
fn universal_tag_from_number() {
    assert_eq!(UniversalTag::from_u64(1), Some(UniversalTag::Boolean));
    assert_eq!(UniversalTag::from_u64(16), Some(UniversalTag::Sequence));
    assert_eq!(UniversalTag::from_u64(30), Some(UniversalTag::BmpString));
    assert_eq!(UniversalTag::from_u64(14), None);
    assert_eq!(UniversalTag::from_u64(15), None);
    assert_eq!(UniversalTag::from_u64(31), None);
}

#[test]
fn universal_tag_from_number_above_30_is_none() {
    assert_eq!(UniversalTag::from_u64(32), None);
    assert_eq!(UniversalTag::from_u64(32 + 1), None);
    assert_eq!(UniversalTag::from_u64(32 + 16), None);
    assert_eq!(UniversalTag::from_u64(64 + 14), None);
    assert_eq!(UniversalTag::from_u64(1 << 40), None);
    assert_eq!(UniversalTag::from_u64(u64::MAX), None);
}

#[test]
fn universal_tag_from_number_names_exactly_the_29_tags() {
    for v in 0..200u64 {
        let named = v <= 30 && v != 14 && v != 15;
        match UniversalTag::from_u64(v) {
            Some(tag) => {
                assert!(named);
                assert_eq!(u64::from(tag), v);
            }
            None => assert!(!named),
        }
    }
}

#[test]
fn universal_tag_number_round_trips() {
    let mut named = 0;
    for n in 0..32u64 {
        if let Some(tag) = UniversalTag::from_u64(n) {
            assert_eq!(u64::from(tag), n);
            named += 1;
        }
    }
    assert_eq!(named, 29);
}
