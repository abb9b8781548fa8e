use amq_proto::codec::{ArgumentsReader, ArgumentsWriter};
use amq_proto::error::{AmqpError, ProtocolErrorKind};
use amq_proto::framing::{ContentHeaderFrame, EncodedProperties, Frame, FramePayload, FrameType, MethodFrame};
use amq_proto::method::{EncodedMethod, Method};
use amq_proto::protocol::{Foo, FooNoFields, FooProperties};

fn foo_fixture() -> Foo {
    Foo {
        a: 1,
        b: b"test".to_vec(),
        c: b"bar".to_vec(),
        d: false,
        e: true,
        f: 0xDEADBEEF,
    }
}

fn foo_bytes() -> Vec<u8> {
    vec![
        1, // 1
        4, // "test".len()
        116, 101, 115, 116, // "test"
        0, 0, 0, 3, // "bar".len()
        98, 97, 114, // "bar"
        2, // false, true => 0b00000010
        0xDE, 0xAD, 0xBE, 0xEF, // 0xDEADBEEF
    ]
}

#[test]
fn test_encoding() {
    let f = foo_fixture();
    assert_eq!(f.encode().unwrap().into_inner(), foo_bytes());
}

#[test]
fn test_decoding() {
    let f = foo_fixture();
    let frame = MethodFrame {
        class_id: 1,
        method_id: 2,
        arguments: EncodedMethod::new(foo_bytes()),
    };
    assert_eq!(Foo::decode(frame).unwrap(), f);
}

#[test]
fn test_decoding_wrong_ids() {
    let frame = MethodFrame {
        class_id: 42,
        method_id: 55,
        arguments: EncodedMethod::new(foo_bytes()),
    };
    assert_eq!(Foo::decode(frame).is_err(), true);
}

#[test]
fn test_encode_decode() {
    let frame = Frame {
        frame_type: FrameType::METHOD,
        channel: 5,
        payload: FramePayload::new(vec![1, 2, 3, 4, 5]),
    };
    let frame_encoded = frame.encode().ok().unwrap();
    assert_eq!(frame, Frame::decode(&frame_encoded).ok().unwrap());
}

#[test]
fn frame_wire_bytes() {
    let frame = Frame {
        frame_type: FrameType::METHOD,
        channel: 5,
        payload: FramePayload::new(vec![1, 2, 3, 4, 5]),
    };
    let encoded = frame.encode().unwrap();
    assert_eq!(encoded, vec![0x01, 0x00, 0x05, 0x00, 0x00, 0x00, 0x05, 1, 2, 3, 4, 5, 0xCE]);
}

#[test]
fn frame_missing_end_marker() {
    let mut bytes = Frame {
        frame_type: FrameType::METHOD,
        channel: 0,
        payload: FramePayload::new(vec![9]),
    }
    .encode()
    .unwrap();
    let last = bytes.len() - 1;
    bytes[last] = 0x00;
    assert_eq!(
        Frame::decode(&bytes),
        Err(AmqpError::Protocol(ProtocolErrorKind::FrameEndMarker))
    );
}

#[test]
fn frame_unknown_type() {
    let mut bytes = Frame {
        frame_type: FrameType::BODY,
        channel: 0,
        payload: FramePayload::new(vec![]),
    }
    .encode()
    .unwrap();
    bytes[0] = 7;
    assert_eq!(
        Frame::decode(&bytes),
        Err(AmqpError::Protocol(ProtocolErrorKind::UnknownFrameType))
    );
}

#[test]
fn frame_at_max_size_accepted() {
    let frame = Frame {
        frame_type: FrameType::BODY,
        channel: 1,
        payload: FramePayload::new(vec![0u8; 131072]),
    };
    let bytes = frame.encode().unwrap();
    let back = Frame::decode(&bytes).unwrap();
    assert_eq!(back.payload.inner().len(), 131072);
}

#[test]
fn frame_over_max_size_rejected() {
    let frame = Frame {
        frame_type: FrameType::BODY,
        channel: 1,
        payload: FramePayload::new(vec![0u8; 131073]),
    };
    assert_eq!(
        frame.encode(),
        Err(AmqpError::Protocol(ProtocolErrorKind::FrameTooLarge))
    );
    // A header declaring one octet more than the bound is rejected on decode.
    let mut bytes = vec![0x03, 0x00, 0x01, 0x00, 0x02, 0x00, 0x01];
    bytes.extend(std::iter::repeat(0u8).take(131073));
    bytes.push(0xCE);
    assert_eq!(
        Frame::decode(&bytes),
        Err(AmqpError::Protocol(ProtocolErrorKind::FrameTooLarge))
    );
}

#[test]
fn empty_method_encodes_to_nothing() {
    let m = FooNoFields;
    assert_eq!(m.encode().unwrap().into_inner(), Vec::<u8>::new());
    let frame = MethodFrame {
        class_id: 1,
        method_id: 2,
        arguments: EncodedMethod::new(vec![]),
    };
    assert_eq!(FooNoFields::decode(frame).unwrap(), FooNoFields);
}

#[test]
fn method_frame_round_trip() {
    let f = foo_fixture();
    let frame = f.to_frame(9).unwrap();
    assert_eq!(frame.frame_type, FrameType::METHOD);
    assert_eq!(frame.channel, 9);
    let mf = MethodFrame::decode(&frame).unwrap();
    assert_eq!(mf.class_id, 1);
    assert_eq!(mf.method_id, 2);
    assert_eq!(Foo::decode(mf).unwrap(), f);
}

#[test]
fn method_frame_wrong_frame_type() {
    let frame = Frame {
        frame_type: FrameType::HEARTBEAT,
        channel: 0,
        payload: FramePayload::new(vec![]),
    };
    assert_eq!(
        MethodFrame::decode(&frame),
        Err(AmqpError::Protocol(ProtocolErrorKind::NotMethodFrame))
    );
}

#[test]
fn method_names_and_content() {
    let mf = MethodFrame {
        class_id: 60,
        method_id: 40,
        arguments: EncodedMethod::new(vec![]),
    };
    assert_eq!(mf.method_name(), "basic.publish");
    assert!(mf.carries_content());
    let mf2 = MethodFrame {
        class_id: 10,
        method_id: 10,
        arguments: EncodedMethod::new(vec![]),
    };
    assert_eq!(mf2.method_name(), "connection.start");
    assert!(!mf2.carries_content());
}

#[test]
fn shortstr_boundaries() {
    for len in [0usize, 1, 255] {
        let s = vec![b'x'; len];
        let mut w = ArgumentsWriter::new();
        w.write_shortstr(&s).unwrap();
        let bytes = w.as_bytes();
        assert_eq!(bytes.len(), 1 + len);
        let mut r = ArgumentsReader::new(bytes);
        assert_eq!(r.read_shortstr().unwrap(), s);
    }
    let long = vec![b'x'; 256];
    let mut w = ArgumentsWriter::new();
    assert_eq!(
        w.write_shortstr(&long),
        Err(AmqpError::Protocol(ProtocolErrorKind::ShortStrOverflow))
    );
}

#[test]
fn nine_bits_take_two_octets() {
    let mut w = ArgumentsWriter::new();
    for i in 0..9 {
        w.write_bit(&(i % 2 == 0)).unwrap();
    }
    let bytes = w.as_bytes();
    // bits 0..7 alternate starting true at the least significant bit;
    // the ninth bit starts a second octet.
    assert_eq!(bytes, vec![0b0101_0101, 0b0000_0001]);
    let mut r = ArgumentsReader::new(bytes);
    for i in 0..9 {
        assert_eq!(r.read_bit().unwrap(), i % 2 == 0);
    }
}

#[test]
fn content_header_round_trip() {
    let header = ContentHeaderFrame {
        content_class: 60,
        weight: 0,
        body_size: 12,
        properties_flags: 0xB400,
        properties: EncodedProperties::new(vec![1, 2, 3]),
    };
    let payload = header.encode().unwrap();
    let frame = Frame {
        frame_type: FrameType::HEADERS,
        channel: 3,
        payload: FramePayload::new(payload),
    };
    let back = ContentHeaderFrame::decode(&frame).unwrap();
    assert_eq!(back, header);
}

#[test]
fn properties_all_absent_round_trip() {
    let p = FooProperties::default();
    let flags = p.flags();
    assert_eq!(flags, 0);
    let encoded = p.clone().encode().unwrap();
    assert_eq!(encoded, Vec::<u8>::new());
    let header = ContentHeaderFrame {
        content_class: 60,
        weight: 0,
        body_size: 0,
        properties_flags: flags,
        properties: EncodedProperties::new(encoded),
    };
    assert_eq!(FooProperties::decode(header).unwrap(), p);
}

#[test]
fn properties_all_present_round_trip() {
    let p = FooProperties {
        a: Some(7),
        b: Some(b"ab".to_vec()),
        c: Some(b"xyz".to_vec()),
        d: Some(true),
        e: Some(false),
        f: Some(99),
    };
    let flags = p.flags();
    assert_eq!(flags, 0xFC00);
    let encoded = p.clone().encode().unwrap();
    let header = ContentHeaderFrame {
        content_class: 60,
        weight: 0,
        body_size: 0,
        properties_flags: flags,
        properties: EncodedProperties::new(encoded),
    };
    assert_eq!(FooProperties::decode(header).unwrap(), p);
}

#[test]
fn properties_mixed_round_trip() {
    let p = FooProperties {
        a: Some(1),
        b: None,
        c: Some(b"x".to_vec()),
        d: Some(true),
        e: None,
        f: Some(7),
    };
    let flags = p.flags();
    assert_eq!(flags, 0xB400);
    let encoded = p.clone().encode().unwrap();
    assert_eq!(encoded, vec![1, 0, 0, 0, 1, b'x', 0x01, 0, 0, 0, 7]);
    let header = ContentHeaderFrame {
        content_class: 60,
        weight: 0,
        body_size: 0,
        properties_flags: flags,
        properties: EncodedProperties::new(encoded),
    };
    assert_eq!(FooProperties::decode(header).unwrap(), p);
}

#[test]
fn reader_truncated_fields_fail() {
    let mut r = ArgumentsReader::new(vec![5, b'a']);
    assert_eq!(r.read_shortstr(), Err(AmqpError::Io));
    let mut r2 = ArgumentsReader::new(vec![0, 0, 0]);
    assert_eq!(r2.read_long(), Err(AmqpError::Io));
    let mut r3 = ArgumentsReader::new(vec![]);
    assert_eq!(r3.read_bit(), Err(AmqpError::Io));
}
