use amq_proto::codec::{ArgumentsReader, ArgumentsWriter};
use amq_proto::error::{AmqpError, ProtocolErrorKind};
use amq_proto::table::{decode_table, encode_table, Table, TableEntry, TableField};

fn encode(table: &Table) -> Vec<u8> {
    let mut out = Vec::new();
    encode_table(&mut out, table).unwrap();
    out
}

#[test]
fn nested_table_round_trips_byte_for_byte() {
    let inner = Table {
        entries: vec![TableField {
            key: b"c".to_vec(),
            value: TableEntry::ShortString(b"z".to_vec()),
        }],
    };
    let table = Table {
        entries: vec![
            TableField { key: b"a".to_vec(), value: TableEntry::LongUint(1) },
            TableField { key: b"b".to_vec(), value: TableEntry::Table(inner) },
        ],
    };
    let bytes = encode(&table);
    let (decoded, consumed) = decode_table(&bytes).unwrap();
    assert_eq!(consumed, bytes.len());
    assert_eq!(encode(&decoded), bytes);
    assert_eq!(decoded.entries.len(), 2);
    assert_eq!(decoded.entries[0].key, b"a".to_vec());
    assert!(matches!(decoded.entries[0].value, TableEntry::LongUint(1)));
}

#[test]
fn every_tag_round_trips() {
    let table = Table {
        entries: vec![
            TableField { key: b"t".to_vec(), value: TableEntry::Bool(true) },
            TableField { key: b"b".to_vec(), value: TableEntry::ShortShortInt(-7) },
            TableField { key: b"bb".to_vec(), value: TableEntry::ShortShortUint(200) },
            TableField { key: b"u".to_vec(), value: TableEntry::ShortInt(-300) },
            TableField { key: b"uu".to_vec(), value: TableEntry::ShortUint(60000) },
            TableField { key: b"i".to_vec(), value: TableEntry::LongInt(-70000) },
            TableField { key: b"ii".to_vec(), value: TableEntry::LongUint(4000000000) },
            TableField { key: b"l".to_vec(), value: TableEntry::LongLongInt(-5000000000) },
            TableField { key: b"ll".to_vec(), value: TableEntry::LongLongUint(18000000000000000000) },
            TableField { key: b"f".to_vec(), value: TableEntry::FloatBits(0x3F800000) },
            TableField { key: b"d".to_vec(), value: TableEntry::DoubleBits(0x3FF0000000000000) },
            TableField { key: b"dec".to_vec(), value: TableEntry::Decimal(2, -12345) },
            TableField { key: b"s".to_vec(), value: TableEntry::ShortString(b"hi".to_vec()) },
            TableField { key: b"ss".to_vec(), value: TableEntry::LongString(b"there".to_vec()) },
            TableField {
                key: b"arr".to_vec(),
                value: TableEntry::Array(vec![
                    TableEntry::LongUint(1),
                    TableEntry::Bool(false),
                    TableEntry::Void,
                ]),
            },
            TableField { key: b"ts".to_vec(), value: TableEntry::Timestamp(1234567890) },
            TableField { key: b"v".to_vec(), value: TableEntry::Void },
            TableField { key: b"x".to_vec(), value: TableEntry::ByteArray(vec![0, 255, 128]) },
        ],
    };
    let bytes = encode(&table);
    let (decoded, consumed) = decode_table(&bytes).unwrap();
    assert_eq!(consumed, bytes.len());
    assert_eq!(encode(&decoded), bytes);
}

#[test]
fn empty_table() {
    let table = Table { entries: vec![] };
    let bytes = encode(&table);
    assert_eq!(bytes, vec![0, 0, 0, 0]);
    let (decoded, consumed) = decode_table(&bytes).unwrap();
    assert_eq!(consumed, 4);
    assert_eq!(decoded.entries.len(), 0);
}

#[test]
fn unknown_tag_rejected() {
    // length 3: key "k" (2 octets) then tag 'Q' with no value
    let bytes = vec![0, 0, 0, 3, 1, b'k', b'Q'];
    let r = decode_table(&bytes);
    assert!(matches!(
        r,
        Err(AmqpError::Protocol(ProtocolErrorKind::UnknownTableTag))
    ));
}

#[test]
fn truncated_table_rejected() {
    // declared length runs past the buffer
    let bytes = vec![0, 0, 0, 9, 1, b'k', b't', 1];
    assert!(matches!(decode_table(&bytes), Err(AmqpError::Io)));
}

#[test]
fn length_mismatch_rejected() {
    // entries stop mid-field inside the declared length: key then no tag
    let bytes = vec![0, 0, 0, 2, 1, b'k'];
    assert!(decode_table(&bytes).is_err());
}

#[test]
fn table_through_reader_and_writer() {
    let table = Table {
        entries: vec![TableField { key: b"n".to_vec(), value: TableEntry::ShortUint(5) }],
    };
    let mut w = ArgumentsWriter::new();
    w.write_bit(&true).unwrap();
    w.write_table(&table).unwrap();
    let bytes = w.as_bytes();
    // the pending bit is flushed into one octet before the table
    assert_eq!(bytes[0], 0x01);
    let mut r = ArgumentsReader::new(bytes);
    assert_eq!(r.read_bit().unwrap(), true);
    let back = r.read_table().unwrap();
    assert_eq!(back.entries.len(), 1);
    assert_eq!(back.entries[0].key, b"n".to_vec());
    assert!(matches!(back.entries[0].value, TableEntry::ShortUint(5)));
}
