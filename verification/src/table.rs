//! The field-table codec: AMQP's recursive dictionary of tagged values,
//! encoded as a four-octet byte length followed by entries of the form
//! shortstr key, one-octet type tag, tagged value. Tables and arrays nest.
//!
//! Float and double entries carry their IEEE-754 bit patterns as plain
//! integers: the codec moves the octets, it never does arithmetic on them.

use vstd::prelude::*;

use crate::error::{AmqpError, ProtocolErrorKind};
use crate::wire::{
    copy_range, lemma_parse_u32_at, lemma_parse_u8_at, longstr_bytes, parse_longstr,
    parse_shortstr, parse_u16, parse_u32, parse_u64, parse_u8, push_bytes, push_u16_be,
    push_u32_be, push_u64_be, read_u16_be, read_u32_be, read_u64_be, shortstr_bytes, u16_be,
    u32_be, u64_be,
};

verus! {

broadcast use vstd::std_specs::vec::group_vec_axioms, vstd::seq::group_seq_axioms;

/// One tagged value of a field table.
pub enum TableEntry {
    Bool(bool),
    ShortShortInt(i8),
    ShortShortUint(u8),
    ShortInt(i16),
    ShortUint(u16),
    LongInt(i32),
    LongUint(u32),
    LongLongInt(i64),
    LongLongUint(u64),
    /// A 32-bit IEEE-754 float, kept as its raw bit pattern.
    FloatBits(u32),
    /// A 64-bit IEEE-754 float, kept as its raw bit pattern.
    DoubleBits(u64),
    /// A decimal: scale octet, then a signed 32-bit value.
    Decimal(u8, i32),
    ShortString(Vec<u8>),
    LongString(Vec<u8>),
    Array(Vec<TableEntry>),
    Timestamp(u64),
    Table(Table),
    Void,
    ByteArray(Vec<u8>),
}

/// One key/value entry of a field table.
pub struct TableField {
    pub key: Vec<u8>,
    pub value: TableEntry,
}

/// A field table: an ordered sequence of key/value entries.
pub struct Table {
    pub entries: Vec<TableField>,
}

/// The abstract value of a [`TableEntry`].
#[verifier::ext_equal]
pub enum TableEntryV {
    Bool(bool),
    ShortShortInt(i8),
    ShortShortUint(u8),
    ShortInt(i16),
    ShortUint(u16),
    LongInt(i32),
    LongUint(u32),
    LongLongInt(i64),
    LongLongUint(u64),
    FloatBits(u32),
    DoubleBits(u64),
    Decimal(u8, i32),
    ShortString(Seq<u8>),
    LongString(Seq<u8>),
    Array(Seq<TableEntryV>),
    Timestamp(u64),
    Table(Seq<FieldV>),
    Void,
    ByteArray(Seq<u8>),
}

/// The abstract value of a [`TableField`].
#[verifier::ext_equal]
pub struct FieldV {
    pub key: Seq<u8>,
    pub value: TableEntryV,
}

/// The abstract value of a table entry.
pub open spec fn entry_view(e: TableEntry) -> TableEntryV
    decreases e,
{
    match e {
        TableEntry::Bool(x) => TableEntryV::Bool(x),
        TableEntry::ShortShortInt(x) => TableEntryV::ShortShortInt(x),
        TableEntry::ShortShortUint(x) => TableEntryV::ShortShortUint(x),
        TableEntry::ShortInt(x) => TableEntryV::ShortInt(x),
        TableEntry::ShortUint(x) => TableEntryV::ShortUint(x),
        TableEntry::LongInt(x) => TableEntryV::LongInt(x),
        TableEntry::LongUint(x) => TableEntryV::LongUint(x),
        TableEntry::LongLongInt(x) => TableEntryV::LongLongInt(x),
        TableEntry::LongLongUint(x) => TableEntryV::LongLongUint(x),
        TableEntry::FloatBits(x) => TableEntryV::FloatBits(x),
        TableEntry::DoubleBits(x) => TableEntryV::DoubleBits(x),
        TableEntry::Decimal(s, x) => TableEntryV::Decimal(s, x),
        TableEntry::ShortString(s) => TableEntryV::ShortString(s@),
        TableEntry::LongString(s) => TableEntryV::LongString(s@),
        TableEntry::Array(items) => TableEntryV::Array(items_view(items@)),
        TableEntry::Timestamp(x) => TableEntryV::Timestamp(x),
        TableEntry::Table(t) => TableEntryV::Table(fields_view(t.entries@)),
        TableEntry::Void => TableEntryV::Void,
        TableEntry::ByteArray(s) => TableEntryV::ByteArray(s@),
    }
}

/// The abstract values of a sequence of array items.
pub open spec fn items_view(items: Seq<TableEntry>) -> Seq<TableEntryV>
    decreases items,
{
    if items.len() == 0 {
        Seq::empty()
    } else {
        seq![entry_view(items[0])] + items_view(items.drop_first())
    }
}

/// The abstract values of a sequence of table entries.
pub open spec fn fields_view(fields: Seq<TableField>) -> Seq<FieldV>
    decreases fields,
{
    if fields.len() == 0 {
        Seq::empty()
    } else {
        seq![FieldV { key: fields[0].key@, value: entry_view(fields[0].value) }] + fields_view(
            fields.drop_first(),
        )
    }
}

impl View for TableEntry {
    type V = TableEntryV;

    open spec fn view(&self) -> TableEntryV {
        entry_view(*self)
    }
}

impl View for Table {
    type V = Seq<FieldV>;

    open spec fn view(&self) -> Seq<FieldV> {
        fields_view(self.entries@)
    }
}

/// The one-octet type tag of a value.
pub open spec fn value_tag(v: TableEntryV) -> u8 {
    match v {
        TableEntryV::Bool(_) => 116,  // 't'
        TableEntryV::ShortShortInt(_) => 98,  // 'b'
        TableEntryV::ShortShortUint(_) => 66,  // 'B'
        TableEntryV::ShortInt(_) => 85,  // 'U'
        TableEntryV::ShortUint(_) => 117,  // 'u'
        TableEntryV::LongInt(_) => 73,  // 'I'
        TableEntryV::LongUint(_) => 105,  // 'i'
        TableEntryV::LongLongInt(_) => 76,  // 'L'
        TableEntryV::LongLongUint(_) => 108,  // 'l'
        TableEntryV::FloatBits(_) => 102,  // 'f'
        TableEntryV::DoubleBits(_) => 100,  // 'd'
        TableEntryV::Decimal(_, _) => 68,  // 'D'
        TableEntryV::ShortString(_) => 115,  // 's'
        TableEntryV::LongString(_) => 83,  // 'S'
        TableEntryV::Array(_) => 65,  // 'A'
        TableEntryV::Timestamp(_) => 84,  // 'T'
        TableEntryV::Table(_) => 70,  // 'F'
        TableEntryV::Void => 86,  // 'V'
        TableEntryV::ByteArray(_) => 120,  // 'x'
    }
}

/// The octets of a value, without its tag.
pub open spec fn value_bytes(v: TableEntryV) -> Seq<u8>
    decreases v, 1int,
{
    match v {
        TableEntryV::Bool(x) => seq![
            if x {
                1u8
            } else {
                0u8
            },
        ],
        TableEntryV::ShortShortInt(x) => seq![x as u8],
        TableEntryV::ShortShortUint(x) => seq![x],
        TableEntryV::ShortInt(x) => u16_be(x as u16),
        TableEntryV::ShortUint(x) => u16_be(x),
        TableEntryV::LongInt(x) => u32_be(x as u32),
        TableEntryV::LongUint(x) => u32_be(x),
        TableEntryV::LongLongInt(x) => u64_be(x as u64),
        TableEntryV::LongLongUint(x) => u64_be(x),
        TableEntryV::FloatBits(x) => u32_be(x),
        TableEntryV::DoubleBits(x) => u64_be(x),
        TableEntryV::Decimal(s, x) => seq![s] + u32_be(x as u32),
        TableEntryV::ShortString(s) => shortstr_bytes(s),
        TableEntryV::LongString(s) => longstr_bytes(s),
        TableEntryV::Array(items) => u32_be(items_bytes(items).len() as u32) + items_bytes(items),
        TableEntryV::Timestamp(x) => u64_be(x),
        TableEntryV::Table(fields) => u32_be(entries_bytes(fields).len() as u32) + entries_bytes(
            fields,
        ),
        TableEntryV::Void => Seq::empty(),
        TableEntryV::ByteArray(s) => u32_be(s.len() as u32) + s,
    }
}

/// The concatenated octets of an array's values, each preceded by its tag.
pub open spec fn items_bytes(items: Seq<TableEntryV>) -> Seq<u8>
    decreases items, 2int,
{
    if items.len() == 0 {
        Seq::empty()
    } else {
        seq![value_tag(items[0])] + value_bytes(items[0]) + items_bytes(items.drop_first())
    }
}

/// The concatenated octets of a table's entries: key, tag, value each.
pub open spec fn entries_bytes(fields: Seq<FieldV>) -> Seq<u8>
    decreases fields, 2int,
{
    if fields.len() == 0 {
        Seq::empty()
    } else {
        shortstr_bytes(fields[0].key) + seq![value_tag(fields[0].value)] + value_bytes(
            fields[0].value,
        ) + entries_bytes(fields.drop_first())
    }
}

/// The complete octets of a field table: its entries' byte length, then the
/// entries.
pub open spec fn table_bytes(fields: Seq<FieldV>) -> Seq<u8> {
    u32_be(entries_bytes(fields).len() as u32) + entries_bytes(fields)
}

/// Which values the encoder accepts: strings and nested encodings within
/// their length bounds.
pub open spec fn value_wf(v: TableEntryV) -> bool
    decreases v, 1int,
{
    match v {
        TableEntryV::ShortString(s) => s.len() <= 255,
        TableEntryV::LongString(s) => s.len() <= 0xFFFFFFFF,
        TableEntryV::ByteArray(s) => s.len() <= 0xFFFFFFFF,
        TableEntryV::Array(items) => items_wf(items) && items_bytes(items).len() <= 0xFFFFFFFF,
        TableEntryV::Table(fields) => entries_wf(fields) && entries_bytes(fields).len()
            <= 0xFFFFFFFF,
        _ => true,
    }
}

/// Every array value is encodable.
pub open spec fn items_wf(items: Seq<TableEntryV>) -> bool
    decreases items, 2int,
{
    if items.len() == 0 {
        true
    } else {
        value_wf(items[0]) && items_wf(items.drop_first())
    }
}

/// Every entry has a key of at most 255 bytes and an encodable value.
pub open spec fn entries_wf(fields: Seq<FieldV>) -> bool
    decreases fields, 2int,
{
    if fields.len() == 0 {
        true
    } else {
        fields[0].key.len() <= 255 && value_wf(fields[0].value) && entries_wf(fields.drop_first())
    }
}

/// A table view is encodable when its entries are and their encoding fits
/// the four-octet length field.
pub open spec fn table_wf(fields: Seq<FieldV>) -> bool {
    entries_wf(fields) && entries_bytes(fields).len() <= 0xFFFFFFFF
}

/// The value denoted by the octets at `i` under `tag`, and the position
/// after them, if they parse.
pub open spec fn parse_value(tag: u8, d: Seq<u8>, i: int) -> Option<(TableEntryV, int)>
    decreases d.len() - i, 0int,
    when 0 <= i <= d.len()
{
    if tag == 116 {
        match parse_u8(d, i) {
            Some((x, q)) => Some((TableEntryV::Bool(x != 0), q)),
            None => None,
        }
    } else if tag == 98 {
        match parse_u8(d, i) {
            Some((x, q)) => Some((TableEntryV::ShortShortInt(x as i8), q)),
            None => None,
        }
    } else if tag == 66 {
        match parse_u8(d, i) {
            Some((x, q)) => Some((TableEntryV::ShortShortUint(x), q)),
            None => None,
        }
    } else if tag == 85 {
        match parse_u16(d, i) {
            Some((x, q)) => Some((TableEntryV::ShortInt(x as i16), q)),
            None => None,
        }
    } else if tag == 117 {
        match parse_u16(d, i) {
            Some((x, q)) => Some((TableEntryV::ShortUint(x), q)),
            None => None,
        }
    } else if tag == 73 {
        match parse_u32(d, i) {
            Some((x, q)) => Some((TableEntryV::LongInt(x as i32), q)),
            None => None,
        }
    } else if tag == 105 {
        match parse_u32(d, i) {
            Some((x, q)) => Some((TableEntryV::LongUint(x), q)),
            None => None,
        }
    } else if tag == 76 {
        match parse_u64(d, i) {
            Some((x, q)) => Some((TableEntryV::LongLongInt(x as i64), q)),
            None => None,
        }
    } else if tag == 108 {
        match parse_u64(d, i) {
            Some((x, q)) => Some((TableEntryV::LongLongUint(x), q)),
            None => None,
        }
    } else if tag == 102 {
        match parse_u32(d, i) {
            Some((x, q)) => Some((TableEntryV::FloatBits(x), q)),
            None => None,
        }
    } else if tag == 100 {
        match parse_u64(d, i) {
            Some((x, q)) => Some((TableEntryV::DoubleBits(x), q)),
            None => None,
        }
    } else if tag == 68 {
        match parse_u8(d, i) {
            Some((s, p)) => match parse_u32(d, p) {
                Some((x, q)) => Some((TableEntryV::Decimal(s, x as i32), q)),
                None => None,
            },
            None => None,
        }
    } else if tag == 115 {
        match parse_shortstr(d, i) {
            Some((s, q)) => Some((TableEntryV::ShortString(s), q)),
            None => None,
        }
    } else if tag == 83 {
        match parse_longstr(d, i) {
            Some((s, q)) => Some((TableEntryV::LongString(s), q)),
            None => None,
        }
    } else if tag == 65 {
        match parse_u32(d, i) {
            Some((n, p)) => if p + n <= d.len() {
                match parse_items_exact(d.subrange(p, p + n)) {
                    Some(items) => Some((TableEntryV::Array(items), p + n)),
                    None => None,
                }
            } else {
                None
            },
            None => None,
        }
    } else if tag == 84 {
        match parse_u64(d, i) {
            Some((x, q)) => Some((TableEntryV::Timestamp(x), q)),
            None => None,
        }
    } else if tag == 70 {
        match parse_u32(d, i) {
            Some((n, p)) => if p + n <= d.len() {
                match parse_entries_exact(d.subrange(p, p + n)) {
                    Some(fields) => Some((TableEntryV::Table(fields), p + n)),
                    None => None,
                }
            } else {
                None
            },
            None => None,
        }
    } else if tag == 86 {
        Some((TableEntryV::Void, i))
    } else if tag == 120 {
        match parse_longstr(d, i) {
            Some((s, q)) => Some((TableEntryV::ByteArray(s), q)),
            None => None,
        }
    } else {
        None
    }
}

/// The array values denoted by `d`, which they must fill exactly.
pub open spec fn parse_items_exact(d: Seq<u8>) -> Option<Seq<TableEntryV>>
    decreases d.len(), 1int,
{
    if d.len() == 0 {
        Some(Seq::empty())
    } else {
        match parse_u8(d, 0) {
            None => None,
            Some((tag, p)) => match parse_value(tag, d, p) {
                None => None,
                Some((v, q)) => if 0 < q <= d.len() {
                    match parse_items_exact(d.subrange(q, d.len() as int)) {
                        Some(rest) => Some(seq![v] + rest),
                        None => None,
                    }
                } else {
                    None
                },
            },
        }
    }
}

/// The table entries denoted by `d`, which they must fill exactly.
pub open spec fn parse_entries_exact(d: Seq<u8>) -> Option<Seq<FieldV>>
    decreases d.len(), 1int,
{
    if d.len() == 0 {
        Some(Seq::empty())
    } else {
        match parse_shortstr(d, 0) {
            None => None,
            Some((k, p)) => match parse_u8(d, p) {
                None => None,
                Some((tag, p2)) => match parse_value(tag, d, p2) {
                    None => None,
                    Some((v, q)) => if 0 < q <= d.len() {
                        match parse_entries_exact(d.subrange(q, d.len() as int)) {
                            Some(rest) => Some(seq![FieldV { key: k, value: v }] + rest),
                            None => None,
                        }
                    } else {
                        None
                    },
                },
            },
        }
    }
}

/// The table denoted by the octets at the start of `d` — a four-octet byte
/// length, then entries filling it exactly — and the count of octets it
/// occupies. Octets past the table are tolerated.
pub open spec fn table_parsed(d: Seq<u8>) -> Option<(Seq<FieldV>, int)> {
    match parse_u32(d, 0) {
        None => None,
        Some((n, p)) => if p + n <= d.len() {
            match parse_entries_exact(d.subrange(p, p + n)) {
                Some(fields) => Some((fields, p + n)),
                None => None,
            }
        } else {
            None
        },
    }
}

/// Encodes one value, without its tag.
#[verifier::rlimit(100)]
pub fn encode_value(v: &TableEntry) -> (r: Result<Vec<u8>, AmqpError>)
    ensures
        value_wf(v@) ==> (r matches Ok(out) && out@ == value_bytes(v@)),
        !value_wf(v@) ==> (r matches Err(e) && e is Protocol),
    decreases *v, 0int,
{
    let mut out: Vec<u8> = Vec::new();
    match v {
        TableEntry::Bool(x) => {
            out.push(if *x { 1 } else { 0 });
            proof {
                assert(out@ =~= value_bytes(v@));
            }
        },
        TableEntry::ShortShortInt(x) => {
            out.push(*x as u8);
            proof {
                assert(out@ =~= value_bytes(v@));
            }
        },
        TableEntry::ShortShortUint(x) => {
            out.push(*x);
            proof {
                assert(out@ =~= value_bytes(v@));
            }
        },
        TableEntry::ShortInt(x) => {
            push_u16_be(&mut out, *x as u16);
            proof {
                assert(out@ =~= value_bytes(v@));
            }
        },
        TableEntry::ShortUint(x) => {
            push_u16_be(&mut out, *x);
            proof {
                assert(out@ =~= value_bytes(v@));
            }
        },
        TableEntry::LongInt(x) => {
            push_u32_be(&mut out, *x as u32);
            proof {
                assert(out@ =~= value_bytes(v@));
            }
        },
        TableEntry::LongUint(x) => {
            push_u32_be(&mut out, *x);
            proof {
                assert(out@ =~= value_bytes(v@));
            }
        },
        TableEntry::LongLongInt(x) => {
            push_u64_be(&mut out, *x as u64);
            proof {
                assert(out@ =~= value_bytes(v@));
            }
        },
        TableEntry::LongLongUint(x) => {
            push_u64_be(&mut out, *x);
            proof {
                assert(out@ =~= value_bytes(v@));
            }
        },
        TableEntry::FloatBits(x) => {
            push_u32_be(&mut out, *x);
            proof {
                assert(out@ =~= value_bytes(v@));
            }
        },
        TableEntry::DoubleBits(x) => {
            push_u64_be(&mut out, *x);
            proof {
                assert(out@ =~= value_bytes(v@));
            }
        },
        TableEntry::Decimal(s, x) => {
            out.push(*s);
            push_u32_be(&mut out, *x as u32);
            proof {
                assert(out@ =~= value_bytes(v@));
            }
        },
        TableEntry::ShortString(s) => {
            if s.len() > 255 {
                return Err(AmqpError::Protocol(ProtocolErrorKind::ShortStrOverflow));
            }
            out.push(s.len() as u8);
            push_bytes(&mut out, s);
            proof {
                assert(out@ =~= value_bytes(v@));
            }
        },
        TableEntry::LongString(s) => {
            if s.len() > 0xFFFFFFFF {
                return Err(AmqpError::Protocol(ProtocolErrorKind::LongStrOverflow));
            }
            push_u32_be(&mut out, s.len() as u32);
            push_bytes(&mut out, s);
            proof {
                assert(out@ =~= value_bytes(v@));
            }
        },
        TableEntry::Array(items) => {
            proof {
                assert(items@.skip(0) =~= items@);
            }
            let body = match encode_items(items, 0) {
                Ok(b) => b,
                Err(e) => {
                    return Err(e);
                },
            };
            if body.len() > 0xFFFFFFFF {
                return Err(AmqpError::Protocol(ProtocolErrorKind::TableOverflow));
            }
            push_u32_be(&mut out, body.len() as u32);
            push_bytes(&mut out, &body);
            proof {
                assert(out@ =~= value_bytes(v@));
            }
        },
        TableEntry::Timestamp(x) => {
            push_u64_be(&mut out, *x);
            proof {
                assert(out@ =~= value_bytes(v@));
            }
        },
        TableEntry::Table(t) => {
            proof {
                assert(t.entries@.skip(0) =~= t.entries@);
            }
            let body = match encode_fields(&t.entries, 0) {
                Ok(b) => b,
                Err(e) => {
                    return Err(e);
                },
            };
            if body.len() > 0xFFFFFFFF {
                return Err(AmqpError::Protocol(ProtocolErrorKind::TableOverflow));
            }
            push_u32_be(&mut out, body.len() as u32);
            push_bytes(&mut out, &body);
            proof {
                assert(out@ =~= value_bytes(v@));
            }
        },
        TableEntry::Void => {},
        TableEntry::ByteArray(s) => {
            if s.len() > 0xFFFFFFFF {
                return Err(AmqpError::Protocol(ProtocolErrorKind::LongStrOverflow));
            }
            push_u32_be(&mut out, s.len() as u32);
            push_bytes(&mut out, s);
            proof {
                assert(out@ =~= value_bytes(v@));
            }
        },
    }
    Ok(out)
}

/// Encodes the array items from `start` on, each preceded by its tag.
#[verifier::rlimit(100)]
fn encode_items(items: &Vec<TableEntry>, start: usize) -> (r: Result<Vec<u8>, AmqpError>)
    requires
        start <= items@.len(),
    ensures
        items_wf(items_view(items@.skip(start as int))) ==> (r matches Ok(out) && out@
            == items_bytes(items_view(items@.skip(start as int)))),
        !items_wf(items_view(items@.skip(start as int))) ==> (r matches Err(e) && e is Protocol),
    decreases *items, items@.len() - start,
{
    if start == items.len() {
        let out: Vec<u8> = Vec::new();
        proof {
            assert(items@.skip(start as int) =~= Seq::<TableEntry>::empty());
            assert(out@ =~= items_bytes(items_view(items@.skip(start as int))));
        }
        return Ok(out);
    }
    proof {
        assert(items@.skip(start as int)[0] == items@[start as int]);
        assert(items@.skip(start as int).drop_first() =~= items@.skip(start + 1));
        assert(items_view(items@.skip(start as int))[0] == entry_view(items@[start as int]));
        assert(items_view(items@.skip(start as int)).drop_first() =~= items_view(
            items@.skip(start + 1),
        ));
    }
    let head = match encode_value(&items[start]) {
        Ok(b) => b,
        Err(e) => {
            return Err(e);
        },
    };
    let rest = match encode_items(items, start + 1) {
        Ok(b) => b,
        Err(e) => {
            return Err(e);
        },
    };
    let mut out: Vec<u8> = Vec::new();
    out.push(value_tag_of(&items[start]));
    push_bytes(&mut out, &head);
    push_bytes(&mut out, &rest);
    proof {
        assert(out@ =~= items_bytes(items_view(items@.skip(start as int))));
    }
    Ok(out)
}

/// Encodes the table entries from `start` on: key, tag, value each.
#[verifier::rlimit(100)]
fn encode_fields(fields: &Vec<TableField>, start: usize) -> (r: Result<Vec<u8>, AmqpError>)
    requires
        start <= fields@.len(),
    ensures
        entries_wf(fields_view(fields@.skip(start as int))) ==> (r matches Ok(out) && out@
            == entries_bytes(fields_view(fields@.skip(start as int)))),
        !entries_wf(fields_view(fields@.skip(start as int))) ==> (r matches Err(e) && e
            is Protocol),
    decreases *fields, fields@.len() - start,
{
    if start == fields.len() {
        let out: Vec<u8> = Vec::new();
        proof {
            assert(fields@.skip(start as int) =~= Seq::<TableField>::empty());
            assert(out@ =~= entries_bytes(fields_view(fields@.skip(start as int))));
        }
        return Ok(out);
    }
    proof {
        assert(fields@.skip(start as int)[0] == fields@[start as int]);
        assert(fields@.skip(start as int).drop_first() =~= fields@.skip(start + 1));
        assert(fields_view(fields@.skip(start as int))[0] == FieldV {
            key: fields@[start as int].key@,
            value: entry_view(fields@[start as int].value),
        });
        assert(fields_view(fields@.skip(start as int)).drop_first() =~= fields_view(
            fields@.skip(start + 1),
        ));
    }
    if fields[start].key.len() > 255 {
        return Err(AmqpError::Protocol(ProtocolErrorKind::ShortStrOverflow));
    }
    let head = match encode_value(&fields[start].value) {
        Ok(b) => b,
        Err(e) => {
            return Err(e);
        },
    };
    let rest = match encode_fields(fields, start + 1) {
        Ok(b) => b,
        Err(e) => {
            return Err(e);
        },
    };
    let mut out: Vec<u8> = Vec::new();
    out.push(fields[start].key.len() as u8);
    push_bytes(&mut out, &fields[start].key);
    out.push(value_tag_of(&fields[start].value));
    push_bytes(&mut out, &head);
    push_bytes(&mut out, &rest);
    proof {
        assert(out@ =~= entries_bytes(fields_view(fields@.skip(start as int))));
    }
    Ok(out)
}

/// The one-octet type tag of a value.
pub fn value_tag_of(v: &TableEntry) -> (r: u8)
    ensures
        r == value_tag(v@),
{
    match v {
        TableEntry::Bool(_) => 116,
        TableEntry::ShortShortInt(_) => 98,
        TableEntry::ShortShortUint(_) => 66,
        TableEntry::ShortInt(_) => 85,
        TableEntry::ShortUint(_) => 117,
        TableEntry::LongInt(_) => 73,
        TableEntry::LongUint(_) => 105,
        TableEntry::LongLongInt(_) => 76,
        TableEntry::LongLongUint(_) => 108,
        TableEntry::FloatBits(_) => 102,
        TableEntry::DoubleBits(_) => 100,
        TableEntry::Decimal(_, _) => 68,
        TableEntry::ShortString(_) => 115,
        TableEntry::LongString(_) => 83,
        TableEntry::Array(_) => 65,
        TableEntry::Timestamp(_) => 84,
        TableEntry::Table(_) => 70,
        TableEntry::Void => 86,
        TableEntry::ByteArray(_) => 120,
    }
}

/// Appends a complete field table: entry byte length, then the entries. An
/// unencodable table is refused and the buffer left unchanged.
pub fn encode_table(out: &mut Vec<u8>, table: &Table) -> (r: Result<(), AmqpError>)
    ensures
        table_wf(table@) ==> r == Ok::<(), AmqpError>(()) && final(out)@ == old(out)@ + table_bytes(
            table@,
        ),
        !table_wf(table@) ==> (r matches Err(e) && e is Protocol) && final(out)@ == old(out)@,
{
    let body = match encode_fields(&table.entries, 0) {
        Ok(b) => b,
        Err(e) => {
            proof {
                assert(table.entries@.skip(0) =~= table.entries@);
            }
            return Err(e);
        },
    };
    proof {
        assert(table.entries@.skip(0) =~= table.entries@);
    }
    if body.len() > 0xFFFFFFFF {
        return Err(AmqpError::Protocol(ProtocolErrorKind::TableOverflow));
    }
    push_u32_be(out, body.len() as u32);
    push_bytes(out, &body);
    Ok(())
}

/// The round trip for the single-octet values.
#[verifier::rlimit(100)]
proof fn lemma_value_round_trip_octet(v: TableEntryV, pre: Seq<u8>, rest: Seq<u8>)
    requires
        v is Bool || v is ShortShortInt || v is ShortShortUint || v is Void,
    ensures
        parse_value(value_tag(v), pre + value_bytes(v) + rest, pre.len() as int) == Some(
            (v, pre.len() + value_bytes(v).len() as int),
        ),
{
    let d = pre + value_bytes(v) + rest;
    match v {
        TableEntryV::Bool(x) => {
            let b: u8 = if x {
                1u8
            } else {
                0u8
            };
            assert(d =~= pre + seq![b] + rest);
            lemma_parse_u8_at(d, pre, b, rest);
        },
        TableEntryV::ShortShortInt(x) => {
            assert(d =~= pre + seq![x as u8] + rest);
            lemma_parse_u8_at(d, pre, x as u8, rest);
            assert(x as u8 as i8 == x) by (bit_vector);
        },
        TableEntryV::ShortShortUint(x) => {
            assert(d =~= pre + seq![x] + rest);
            lemma_parse_u8_at(d, pre, x, rest);
        },
        _ => {},
    }
}

/// The round trip for the fixed-width multi-octet values.
#[verifier::rlimit(100)]
proof fn lemma_value_round_trip_fixed(v: TableEntryV, pre: Seq<u8>, rest: Seq<u8>)
    requires
        v is ShortInt || v is ShortUint || v is LongInt || v is LongUint || v is LongLongInt || v
            is LongLongUint || v is FloatBits || v is DoubleBits || v is Timestamp || v is Decimal,
    ensures
        parse_value(value_tag(v), pre + value_bytes(v) + rest, pre.len() as int) == Some(
            (v, pre.len() + value_bytes(v).len() as int),
        ),
{
    let d = pre + value_bytes(v) + rest;
    match v {
        TableEntryV::ShortInt(x) => {
            assert(d =~= pre + u16_be(x as u16) + rest);
            crate::wire::lemma_parse_u16_at(d, pre, x as u16, rest);
            assert(x as u16 as i16 == x) by (bit_vector);
        },
        TableEntryV::ShortUint(x) => {
            assert(d =~= pre + u16_be(x) + rest);
            crate::wire::lemma_parse_u16_at(d, pre, x, rest);
        },
        TableEntryV::LongInt(x) => {
            assert(d =~= pre + u32_be(x as u32) + rest);
            lemma_parse_u32_at(d, pre, x as u32, rest);
            assert(x as u32 as i32 == x) by (bit_vector);
        },
        TableEntryV::LongUint(x) => {
            assert(d =~= pre + u32_be(x) + rest);
            lemma_parse_u32_at(d, pre, x, rest);
        },
        TableEntryV::LongLongInt(x) => {
            assert(d =~= pre + u64_be(x as u64) + rest);
            crate::wire::lemma_parse_u64_at(d, pre, x as u64, rest);
            assert(x as u64 as i64 == x) by (bit_vector);
        },
        TableEntryV::LongLongUint(x) => {
            assert(d =~= pre + u64_be(x) + rest);
            crate::wire::lemma_parse_u64_at(d, pre, x, rest);
        },
        TableEntryV::FloatBits(x) => {
            assert(d =~= pre + u32_be(x) + rest);
            lemma_parse_u32_at(d, pre, x, rest);
        },
        TableEntryV::DoubleBits(x) => {
            assert(d =~= pre + u64_be(x) + rest);
            crate::wire::lemma_parse_u64_at(d, pre, x, rest);
        },
        TableEntryV::Timestamp(x) => {
            assert(d =~= pre + u64_be(x) + rest);
            crate::wire::lemma_parse_u64_at(d, pre, x, rest);
        },
        TableEntryV::Decimal(sc, x) => {
            assert(d =~= pre + seq![sc] + (u32_be(x as u32) + rest));
            lemma_parse_u8_at(d, pre, sc, u32_be(x as u32) + rest);
            assert(d =~= (pre + seq![sc]) + u32_be(x as u32) + rest);
            lemma_parse_u32_at(d, pre + seq![sc], x as u32, rest);
            assert(x as u32 as i32 == x) by (bit_vector);
        },
        _ => {},
    }
}

/// The round trip for the short-string value.
#[verifier::rlimit(100)]
proof fn lemma_value_round_trip_shortstring(v: TableEntryV, pre: Seq<u8>, rest: Seq<u8>)
    requires
        v is ShortString,
        value_wf(v),
    ensures
        parse_value(value_tag(v), pre + value_bytes(v) + rest, pre.len() as int) == Some(
            (v, pre.len() + value_bytes(v).len() as int),
        ),
{
    let d = pre + value_bytes(v) + rest;
    let s = v->ShortString_0;
    assert(d =~= pre + shortstr_bytes(s) + rest);
    crate::wire::lemma_parse_shortstr_at(d, pre, s, rest);
}

/// The round trip for the long-string value.
#[verifier::rlimit(100)]
proof fn lemma_value_round_trip_longstring(v: TableEntryV, pre: Seq<u8>, rest: Seq<u8>)
    requires
        v is LongString,
        value_wf(v),
    ensures
        parse_value(value_tag(v), pre + value_bytes(v) + rest, pre.len() as int) == Some(
            (v, pre.len() + value_bytes(v).len() as int),
        ),
{
    let d = pre + value_bytes(v) + rest;
    let s = v->LongString_0;
    assert(d =~= pre + longstr_bytes(s) + rest);
    crate::wire::lemma_parse_longstr_at(d, pre, s, rest);
}

/// The round trip for the byte-array value.
#[verifier::rlimit(100)]
proof fn lemma_value_round_trip_bytearray(v: TableEntryV, pre: Seq<u8>, rest: Seq<u8>)
    requires
        v is ByteArray,
        value_wf(v),
    ensures
        parse_value(value_tag(v), pre + value_bytes(v) + rest, pre.len() as int) == Some(
            (v, pre.len() + value_bytes(v).len() as int),
        ),
{
    let d = pre + value_bytes(v) + rest;
    let s = v->ByteArray_0;
    assert(value_bytes(v) == longstr_bytes(s));
    assert(d =~= pre + longstr_bytes(s) + rest);
    crate::wire::lemma_parse_longstr_at(d, pre, s, rest);
}

/// An encodable value embedded in a larger buffer parses, under its own
/// tag, back to itself.
#[verifier::rlimit(100)]
pub proof fn lemma_value_round_trip(v: TableEntryV, pre: Seq<u8>, rest: Seq<u8>)
    requires
        value_wf(v),
    ensures
        parse_value(value_tag(v), pre + value_bytes(v) + rest, pre.len() as int) == Some(
            (v, pre.len() + value_bytes(v).len() as int),
        ),
    decreases v, 0int,
{
    let d = pre + value_bytes(v) + rest;
    let i = pre.len() as int;
    match v {
        TableEntryV::Array(items) => {
            let ib = items_bytes(items);
            let lv: u32 = ib.len() as u32;
            assert(d =~= pre + u32_be(lv) + (ib + rest));
            lemma_parse_u32_at(d, pre, lv, ib + rest);
            assert(d.subrange(i + 4, i + 4 + ib.len() as int) =~= ib);
            lemma_items_round_trip(items);
        },
        TableEntryV::Table(fields) => {
            let eb = entries_bytes(fields);
            let lv: u32 = eb.len() as u32;
            assert(d =~= pre + u32_be(lv) + (eb + rest));
            lemma_parse_u32_at(d, pre, lv, eb + rest);
            assert(d.subrange(i + 4, i + 4 + eb.len() as int) =~= eb);
            lemma_entries_round_trip(fields);
        },
        TableEntryV::Bool(_) => {
            lemma_value_round_trip_octet(v, pre, rest);
        },
        TableEntryV::ShortShortInt(_) => {
            lemma_value_round_trip_octet(v, pre, rest);
        },
        TableEntryV::ShortShortUint(_) => {
            lemma_value_round_trip_octet(v, pre, rest);
        },
        TableEntryV::Void => {
            lemma_value_round_trip_octet(v, pre, rest);
        },
        TableEntryV::ShortString(_) => {
            lemma_value_round_trip_shortstring(v, pre, rest);
        },
        TableEntryV::LongString(_) => {
            lemma_value_round_trip_longstring(v, pre, rest);
        },
        TableEntryV::ByteArray(_) => {
            lemma_value_round_trip_bytearray(v, pre, rest);
        },
        _ => {
            lemma_value_round_trip_fixed(v, pre, rest);
        },
    }
}

/// An encodable run of array items parses back to itself from exactly its
/// own octets.
#[verifier::rlimit(100)]
pub proof fn lemma_items_round_trip(items: Seq<TableEntryV>)
    requires
        items_wf(items),
    ensures
        parse_items_exact(items_bytes(items)) == Some(items),
    decreases items, 1int,
{
    let d = items_bytes(items);
    if items.len() == 0 {
        assert(items =~= Seq::<TableEntryV>::empty());
    } else {
        let v0 = items[0];
        let tagb = seq![value_tag(v0)];
        let vb = value_bytes(v0);
        let rb = items_bytes(items.drop_first());
        assert(d =~= Seq::<u8>::empty() + seq![value_tag(v0)] + (vb + rb));
        lemma_parse_u8_at(d, Seq::empty(), value_tag(v0), vb + rb);
        assert(d =~= tagb + value_bytes(v0) + rb);
        lemma_value_round_trip(v0, tagb, rb);
        let q: int = 1 + vb.len() as int;
        assert(d.subrange(q, d.len() as int) =~= rb);
        lemma_items_round_trip(items.drop_first());
        assert(seq![v0] + items.drop_first() =~= items);
    }
}

/// An encodable run of table entries parses back to itself from exactly
/// its own octets.
#[verifier::rlimit(100)]
pub proof fn lemma_entries_round_trip(fields: Seq<FieldV>)
    requires
        entries_wf(fields),
    ensures
        parse_entries_exact(entries_bytes(fields)) == Some(fields),
    decreases fields, 1int,
{
    let d = entries_bytes(fields);
    if fields.len() == 0 {
        assert(fields =~= Seq::<FieldV>::empty());
    } else {
        let f0 = fields[0];
        let kb = shortstr_bytes(f0.key);
        let tagb = seq![value_tag(f0.value)];
        let vb = value_bytes(f0.value);
        let rb = entries_bytes(fields.drop_first());
        assert(d =~= Seq::<u8>::empty() + shortstr_bytes(f0.key) + (tagb + vb + rb));
        crate::wire::lemma_parse_shortstr_at(d, Seq::empty(), f0.key, tagb + vb + rb);
        let p: int = 1 + f0.key.len() as int;
        assert(d =~= kb + seq![value_tag(f0.value)] + (vb + rb));
        lemma_parse_u8_at(d, kb, value_tag(f0.value), vb + rb);
        assert(d =~= (kb + tagb) + value_bytes(f0.value) + rb);
        lemma_value_round_trip(f0.value, kb + tagb, rb);
        let q: int = (kb + tagb).len() + vb.len() as int;
        assert(d.subrange(q, d.len() as int) =~= rb);
        lemma_entries_round_trip(fields.drop_first());
        assert(seq![FieldV { key: f0.key, value: f0.value }] + fields.drop_first() =~= fields);
        assert(seq![f0] + fields.drop_first() =~= fields);
    }
}

/// Every encodable field table survives the encode/decode round trip, at
/// any nesting depth: parsing its encoding restores the table exactly and
/// consumes exactly its octets.
pub proof fn lemma_table_round_trip(fields: Seq<FieldV>)
    requires
        table_wf(fields),
    ensures
        table_parsed(table_bytes(fields)) == Some(
            (fields, table_bytes(fields).len() as int),
        ),
{
    let eb = entries_bytes(fields);
    let lv: u32 = eb.len() as u32;
    let d = table_bytes(fields);
    assert(d =~= Seq::<u8>::empty() + u32_be(lv) + eb);
    lemma_parse_u32_at(d, Seq::empty(), lv, eb);
    assert(d.subrange(4, 4 + eb.len() as int) =~= eb);
    lemma_entries_round_trip(fields);
}

/// Decodes one value under `tag` at `pos`.
#[verifier::rlimit(100)]
pub fn decode_value(tag: u8, data: &Vec<u8>, pos: usize) -> (r: Result<
    (TableEntry, usize),
    AmqpError,
>)
    requires
        pos <= data@.len(),
    ensures
        parse_value(tag, data@, pos as int) matches Some(wq) ==> (r matches Ok(p) && p.0@ == wq.0
            && p.1 == wq.1 && pos <= p.1 <= data@.len()),
        parse_value(tag, data@, pos as int) is None ==> r matches Err(_),
    decreases data@.len() - pos, 0int,
{
    let n: usize = data.len();
    if tag == 116 {
        if n - pos < 1 {
            return Err(AmqpError::Io);
        }
        Ok((TableEntry::Bool(data[pos] != 0), pos + 1))
    } else if tag == 98 {
        if n - pos < 1 {
            return Err(AmqpError::Io);
        }
        Ok((TableEntry::ShortShortInt(data[pos] as i8), pos + 1))
    } else if tag == 66 {
        if n - pos < 1 {
            return Err(AmqpError::Io);
        }
        Ok((TableEntry::ShortShortUint(data[pos]), pos + 1))
    } else if tag == 85 {
        if n - pos < 2 {
            return Err(AmqpError::Io);
        }
        Ok((TableEntry::ShortInt(read_u16_be(data, pos) as i16), pos + 2))
    } else if tag == 117 {
        if n - pos < 2 {
            return Err(AmqpError::Io);
        }
        Ok((TableEntry::ShortUint(read_u16_be(data, pos)), pos + 2))
    } else if tag == 73 {
        if n - pos < 4 {
            return Err(AmqpError::Io);
        }
        Ok((TableEntry::LongInt(read_u32_be(data, pos) as i32), pos + 4))
    } else if tag == 105 {
        if n - pos < 4 {
            return Err(AmqpError::Io);
        }
        Ok((TableEntry::LongUint(read_u32_be(data, pos)), pos + 4))
    } else if tag == 76 {
        if n - pos < 8 {
            return Err(AmqpError::Io);
        }
        Ok((TableEntry::LongLongInt(read_u64_be(data, pos) as i64), pos + 8))
    } else if tag == 108 {
        if n - pos < 8 {
            return Err(AmqpError::Io);
        }
        Ok((TableEntry::LongLongUint(read_u64_be(data, pos)), pos + 8))
    } else if tag == 102 {
        if n - pos < 4 {
            return Err(AmqpError::Io);
        }
        Ok((TableEntry::FloatBits(read_u32_be(data, pos)), pos + 4))
    } else if tag == 100 {
        if n - pos < 8 {
            return Err(AmqpError::Io);
        }
        Ok((TableEntry::DoubleBits(read_u64_be(data, pos)), pos + 8))
    } else if tag == 68 {
        if n - pos < 1 {
            return Err(AmqpError::Io);
        }
        let scale = data[pos];
        if n - (pos + 1) < 4 {
            return Err(AmqpError::Io);
        }
        Ok((TableEntry::Decimal(scale, read_u32_be(data, pos + 1) as i32), pos + 5))
    } else if tag == 115 {
        if n - pos < 1 {
            return Err(AmqpError::Io);
        }
        let sl = data[pos] as usize;
        if n - (pos + 1) < sl {
            return Err(AmqpError::Io);
        }
        Ok((TableEntry::ShortString(copy_range(data, pos + 1, sl)), pos + 1 + sl))
    } else if tag == 83 {
        if n - pos < 4 {
            return Err(AmqpError::Io);
        }
        let sl = read_u32_be(data, pos) as usize;
        if n - (pos + 4) < sl {
            return Err(AmqpError::Io);
        }
        Ok((TableEntry::LongString(copy_range(data, pos + 4, sl)), pos + 4 + sl))
    } else if tag == 65 {
        if n - pos < 4 {
            return Err(AmqpError::Io);
        }
        let m = read_u32_be(data, pos) as usize;
        if n - (pos + 4) < m {
            return Err(AmqpError::Io);
        }
        let body = copy_range(data, pos + 4, m);
        let items = match decode_items(&body) {
            Ok(v) => v,
            Err(e) => {
                return Err(e);
            },
        };
        proof {
            assert((TableEntry::Array(items))@ =~= TableEntryV::Array(items_view(items@)));
        }
        Ok((TableEntry::Array(items), pos + 4 + m))
    } else if tag == 84 {
        if n - pos < 8 {
            return Err(AmqpError::Io);
        }
        Ok((TableEntry::Timestamp(read_u64_be(data, pos)), pos + 8))
    } else if tag == 70 {
        if n - pos < 4 {
            return Err(AmqpError::Io);
        }
        let m = read_u32_be(data, pos) as usize;
        if n - (pos + 4) < m {
            return Err(AmqpError::Io);
        }
        let body = copy_range(data, pos + 4, m);
        let fields = match decode_fields(&body) {
            Ok(v) => v,
            Err(e) => {
                return Err(e);
            },
        };
        proof {
            assert((TableEntry::Table(Table { entries: fields }))@ =~= TableEntryV::Table(
                fields_view(fields@),
            ));
        }
        Ok((TableEntry::Table(Table { entries: fields }), pos + 4 + m))
    } else if tag == 86 {
        Ok((TableEntry::Void, pos))
    } else if tag == 120 {
        if n - pos < 4 {
            return Err(AmqpError::Io);
        }
        let sl = read_u32_be(data, pos) as usize;
        if n - (pos + 4) < sl {
            return Err(AmqpError::Io);
        }
        Ok((TableEntry::ByteArray(copy_range(data, pos + 4, sl)), pos + 4 + sl))
    } else {
        Err(AmqpError::Protocol(ProtocolErrorKind::UnknownTableTag))
    }
}

/// Decodes array items that must fill `data` exactly.
#[verifier::rlimit(100)]
fn decode_items(data: &Vec<u8>) -> (r: Result<Vec<TableEntry>, AmqpError>)
    ensures
        parse_items_exact(data@) matches Some(ws) ==> (r matches Ok(v) && items_view(v@) == ws),
        parse_items_exact(data@) is None ==> r matches Err(_),
    decreases data@.len(), 1int,
{
    let n: usize = data.len();
    if n == 0 {
        let out: Vec<TableEntry> = Vec::new();
        proof {
            assert(items_view(out@) =~= Seq::<TableEntryV>::empty());
        }
        return Ok(out);
    }
    let tag = data[0];
    let (value, q) = match decode_value(tag, data, 1) {
        Ok(p) => p,
        Err(e) => {
            return Err(e);
        },
    };
    if !(0 < q && q <= n) {
        return Err(AmqpError::Protocol(ProtocolErrorKind::TableLengthMismatch));
    }
    let restb = copy_range(data, q, n - q);
    let rest = match decode_items(&restb) {
        Ok(v) => v,
        Err(e) => {
            return Err(e);
        },
    };
    let mut out: Vec<TableEntry> = Vec::new();
    out.push(value);
    let mut rest_m = rest;
    out.append(&mut rest_m);
    proof {
        assert(out@[0] == value);
        assert(out@.drop_first() =~= rest@);
        assert(items_view(out@.drop_first()) == items_view(rest@));
        assert(restb@ == data@.subrange(q as int, n as int));
        assert(items_view(out@) =~= parse_items_exact(data@)->Some_0);
    }
    Ok(out)
}

/// Decodes table entries that must fill `data` exactly.
#[verifier::rlimit(100)]
fn decode_fields(data: &Vec<u8>) -> (r: Result<Vec<TableField>, AmqpError>)
    ensures
        parse_entries_exact(data@) matches Some(ws) ==> (r matches Ok(v) && fields_view(v@) == ws),
        parse_entries_exact(data@) is None ==> r matches Err(_),
    decreases data@.len(), 1int,
{
    let n: usize = data.len();
    if n == 0 {
        let out: Vec<TableField> = Vec::new();
        proof {
            assert(fields_view(out@) =~= Seq::<FieldV>::empty());
        }
        return Ok(out);
    }
    let kl = data[0] as usize;
    if n - 1 < kl {
        return Err(AmqpError::Io);
    }
    let key = copy_range(data, 1, kl);
    let p = 1 + kl;
    if p >= n {
        return Err(AmqpError::Io);
    }
    let tag = data[p];
    let (value, q) = match decode_value(tag, data, p + 1) {
        Ok(pr) => pr,
        Err(e) => {
            return Err(e);
        },
    };
    if !(0 < q && q <= n) {
        return Err(AmqpError::Protocol(ProtocolErrorKind::TableLengthMismatch));
    }
    let restb = copy_range(data, q, n - q);
    let rest = match decode_fields(&restb) {
        Ok(v) => v,
        Err(e) => {
            return Err(e);
        },
    };
    let mut out: Vec<TableField> = Vec::new();
    out.push(TableField { key, value });
    let mut rest_m = rest;
    out.append(&mut rest_m);
    proof {
        assert(out@[0].key@ == data@.subrange(1, 1 + kl as int));
        assert(out@.drop_first() =~= rest@);
        assert(fields_view(out@.drop_first()) == fields_view(rest@));
        assert(restb@ == data@.subrange(q as int, n as int));
        assert(parse_shortstr(data@, 0) == Some((data@.subrange(1, 1 + kl as int), 1 + kl as int)));
        assert(fields_view(out@) =~= parse_entries_exact(data@)->Some_0);
    }
    Ok(out)
}

/// Decodes the field table at the start of `data`: its entry byte length,
/// then entries filling that length exactly. Returns the table and the
/// count of octets it occupied; octets past it are left alone.
pub fn decode_table(data: &Vec<u8>) -> (r: Result<(Table, usize), AmqpError>)
    ensures
        table_parsed(data@) matches Some(wc) ==> (r matches Ok(p) && p.0@ == wc.0 && p.1 == wc.1
            && p.1 <= data@.len()),
        table_parsed(data@) is None ==> r matches Err(_),
{
    let n: usize = data.len();
    if n < 4 {
        return Err(AmqpError::Io);
    }
    let m = read_u32_be(data, 0) as usize;
    if n - 4 < m {
        return Err(AmqpError::Io);
    }
    let body = copy_range(data, 4, m);
    let fields = match decode_fields(&body) {
        Ok(v) => v,
        Err(e) => {
            return Err(e);
        },
    };
    Ok((Table { entries: fields }, 4 + m))
}

} // verus!
