use asn1::identifier::{Class, Identifier, UniversalTag};
use asn1::reading::Asn1Reader;
use asn1::writing::der::{Error, Writer};

#[test]
fn test_indefinite_length_roundtrip() {
    {
        let mut buf = Vec::with_capacity(4);
        {
            let mut w = Writer::new(&mut buf);
            w.write_indefinite_tag(
                Identifier::new(Class::Universal, false, UniversalTag::Boolean.into()),
                |w| w.write(&[0xffu8]),
            )
            .unwrap();
        }
        assert_eq!(buf, [0x01u8, 0x80, 0xff, 0, 0]);

        let (t, v) = {
            let mut r = Asn1Reader::new(&buf);
            let tv = r.next().unwrap();
            assert!(r.is_at_end());
            tv
        }
        .unwrap();
        assert_eq!(
            t,
            Identifier::new(Class::Universal, false, UniversalTag::Boolean.into())
        );
        assert_eq!(v, [0xffu8]);
    }
}

#[test]
fn der_smoke_boolean() {
    {
        let mut output = Vec::with_capacity(4);
        {
            let mut w = Writer::new(&mut output);
            w.write_boolean(false).unwrap();
        }
        assert_eq!(output, [0x01u8, 1, 0]);
    }
    {
        let mut output = Vec::with_capacity(4);
        {
            let mut w = Writer::new(&mut output);
            w.write_boolean(true).unwrap();
        }
        assert_eq!(output, [0x01u8, 1, 0xff]);
    }
}

#[test]
fn test_write_indefinite_length() {
    {
        let mut output = Vec::with_capacity(4);
        {
            let mut w = Writer::new(&mut output);
            w.write_indefinite_tag(
                Identifier::new(Class::Universal, false, UniversalTag::Boolean.into()),
                |w| w.write(&[0xffu8]),
            )
            .unwrap();
        }
        assert_eq!(output, [0x01u8, 0x80, 0xff, 0, 0]);
    }
}

#[test]
fn write_boolean_counts_three_octets() {
    let mut output = Vec::new();
    let mut w = Writer::new(&mut output);
    assert_eq!(w.write_boolean(true).unwrap(), 3);
    assert_eq!(w.write_boolean(false).unwrap(), 3);
    assert_eq!(output, [0x01u8, 1, 0xff, 0x01, 1, 0]);
}

#[test]
fn writer_appends_to_what_the_sink_holds() {
    let mut output = vec![0xeeu8];
    let mut w = Writer::new(&mut output);
    let n = w
        .write_tag_and_data(Identifier::new(Class::Universal, false, 4), &[1, 2, 3])
        .unwrap();
    assert_eq!(n, 5);
    assert_eq!(output, [0xeeu8, 0x04, 0x03, 1, 2, 3]);
}

#[test]
fn short_lengths_take_one_octet() {
    let id = Identifier::new(Class::Universal, false, 4);

    let mut output = Vec::new();
    let n = Writer::new(&mut output).write_tag_and_data(id, &[]).unwrap();
    assert_eq!(n, 2);
    assert_eq!(output, [0x04u8, 0x00]);

    let data = [0x5au8; 127];
    let mut output = Vec::new();
    let n = Writer::new(&mut output)
        .write_tag_and_data(id, &data)
        .unwrap();
    assert_eq!(n, 2 + 127);
    assert_eq!(output[..2], [0x04u8, 0x7f]);
    assert_eq!(output[2..], data);
}

#[test]
fn long_lengths_take_the_least_number_of_octets() {
    let id = Identifier::new(Class::Universal, false, 4);

    let data = [0x5au8; 128];
    let mut output = Vec::new();
    let n = Writer::new(&mut output)
        .write_tag_and_data(id, &data)
        .unwrap();
    assert_eq!(n, 3 + 128);
    assert_eq!(output[..3], [0x04u8, 0x81, 0x80]);
    assert_eq!(output[3..], data);

    let data = [0x5au8; 255];
    let mut output = Vec::new();
    Writer::new(&mut output)
        .write_tag_and_data(id, &data)
        .unwrap();
    assert_eq!(output[..3], [0x04u8, 0x81, 0xff]);

    let data = [0x5au8; 256];
    let mut output = Vec::new();
    let n = Writer::new(&mut output)
        .write_tag_and_data(id, &data)
        .unwrap();
    assert_eq!(n, 4 + 256);
    assert_eq!(output[..4], [0x04u8, 0x82, 0x01, 0x00]);

    let data = vec![0x5au8; 65536];
    let mut output = Vec::new();
    let n = Writer::new(&mut output)
        .write_tag_and_data(id, &data)
        .unwrap();
    assert_eq!(n, 5 + 65536);
    assert_eq!(output[..5], [0x04u8, 0x83, 0x01, 0x00, 0x00]);
    assert_eq!(output[5..], data[..]);
}

#[test]
fn long_tags_are_written_before_the_length() {
    let mut output = Vec::new();
    let n = Writer::new(&mut output)
        .write_tag_and_data(Identifier::new(Class::Private, true, 200), &[9])
        .unwrap();
    assert_eq!(n, 5);
    assert_eq!(output, [0xffu8, 0x81, 0x48, 0x01, 0x09]);
}

#[test]
fn indefinite_unit_counts_every_octet() {
    let mut output = Vec::new();
    let n = Writer::new(&mut output)
        .write_indefinite_tag(Identifier::new(Class::Universal, true, 16), |w| {
            w.write(&[0x05, 0x00])?;
            w.write(&[0x01, 0x01, 0xff])
        })
        .unwrap();
    assert_eq!(output, [0x30u8, 0x80, 0x05, 0x00, 0x01, 0x01, 0xff, 0, 0]);
    assert_eq!(n, 9);
}

#[test]
fn indefinite_unit_with_no_contents() {
    let mut output = vec![0x05u8, 0x00];
    let n = Writer::new(&mut output)
        .write_indefinite_tag(Identifier::new(Class::Universal, true, 17), |_| Ok(()))
        .unwrap();
    assert_eq!(output, [0x05u8, 0x00, 0x31, 0x80, 0, 0]);
    assert_eq!(n, 4);
}

#[test]
fn a_failing_callback_leaves_the_unit_open() {
    let mut output = Vec::new();
    let r = Writer::new(&mut output).write_indefinite_tag(
        Identifier::new(Class::Universal, false, 4),
        |w| {
            w.write(&[0x11, 0x22])?;
            Err(Error::from(std::io::Error::new(
                std::io::ErrorKind::Other,
                "no more contents",
            )))
        },
    );
    match r {
        Err(Error::Io(e)) => assert_eq!(e.kind(), std::io::ErrorKind::Other),
        Ok(_) => panic!("the error of the callback was dropped"),
    }
    assert_eq!(output, [0x04u8, 0x80, 0x11, 0x22]);
}

#[test]
fn definite_units_round_trip() {
    let ids = [
        Identifier::new(Class::Universal, false, 4),
        Identifier::new(Class::Application, true, 30),
        Identifier::new(Class::ContextSpecific, false, 31),
        Identifier::new(Class::Private, true, 1 << 40),
        Identifier::new(Class::Universal, false, u64::MAX),
    ];
    let lengths = [0usize, 1, 127, 128, 255, 256, 1000, 70000];
    for id in ids {
        for len in lengths {
            let data: Vec<u8> = (0..len).map(|i| (i % 251) as u8).collect();
            let mut output = Vec::new();
            let n = Writer::new(&mut output)
                .write_tag_and_data(id, &data)
                .unwrap();
            assert_eq!(n, output.len());

            let mut it = Asn1Reader::new(&output).into_iter();
            let (t, v) = it.next().unwrap().unwrap();
            assert_eq!(t, id);
            assert_eq!(v, &data[..]);
            assert!(it.next().is_none());
            assert!(it.next().is_none());
        }
    }
}

#[test]
fn indefinite_units_round_trip() {
    let contents: [&[u8]; 5] = [
        &[],
        &[0xff],
        &[0x00, 0x01],
        &[0x01, 0x00, 0x02, 0x00, 0x03],
        &[0x30, 0x03, 0x01, 0x01, 0xff],
    ];
    let id = Identifier::new(Class::ContextSpecific, true, 500);
    for content in contents {
        let mut output = Vec::new();
        let n = Writer::new(&mut output)
            .write_indefinite_tag(id, |w| w.write(content))
            .unwrap();
        assert_eq!(n, output.len());

        let mut it = Asn1Reader::new(&output).into_iter();
        let (t, v) = it.next().unwrap().unwrap();
        assert_eq!(t, id);
        assert_eq!(v, content);
        assert!(it.next().is_none());
    }
}

#[test]
fn contents_that_end_in_zero_do_not_round_trip() {
    let id = Identifier::new(Class::Universal, false, 4);
    let mut output = Vec::new();
    Writer::new(&mut output)
        .write_indefinite_tag(id, |w| w.write(&[0x07, 0x00]))
        .unwrap();
    assert_eq!(output, [0x04u8, 0x80, 0x07, 0x00, 0x00, 0x00]);

    let mut r = Asn1Reader::new(&output);
    let (_, v) = r.next().unwrap().unwrap();
    assert_eq!(v, [0x07u8]);
    assert!(!r.is_at_end());
}

#[test]
fn units_written_in_a_row_are_read_in_a_row() {
    let mut output = Vec::new();
    {
        let mut w = Writer::new(&mut output);
        w.write_boolean(true).unwrap();
        w.write_tag_and_data(Identifier::new(Class::Universal, false, 4), &[1, 2])
            .unwrap();
        w.write_indefinite_tag(Identifier::new(Class::Universal, true, 16), |c| {
            c.write(&[0x05])
        })
        .unwrap();
    }
    let mut r = Asn1Reader::new(&output);
    let (t, v) = r.next().unwrap().unwrap();
    assert_eq!((t.tag(), v), (1, &[0xffu8][..]));
    let (t, v) = r.next().unwrap().unwrap();
    assert_eq!((t.tag(), v), (4, &[1u8, 2][..]));
    let (t, v) = r.next().unwrap().unwrap();
    assert_eq!((t.tag(), v), (16, &[0x05u8][..]));
    assert!(r.is_at_end());
}
