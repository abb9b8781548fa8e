//! Schema bindings: method and content-property structs whose encode and
//! decode are contracted against the field-type codec, field by field.
//!
//! `Foo` exercises every non-table field type in one schema entry
//! (octet, shortstr, longstr, bit, bit, long); `FooNoFields` is the empty
//! schema entry; `FooProperties` is the optional-property analogue of
//! `Foo`'s schema behind a presence bitmap.

use vstd::prelude::*;

use crate::bits::{bit_at, flushed, pack_octet};
use crate::codec::{ArgumentsReader, ArgumentsWriter};
use crate::error::{AmqpError, ProtocolErrorKind};
use crate::framing::ContentHeaderFrame;
use crate::framing::MethodFrame;
use crate::method::{EncodedMethod, Method};
use crate::wire::{
    lemma_parse_longstr_at, lemma_parse_shortstr_at, lemma_parse_u32_at, lemma_parse_u8_at,
    longstr_bytes, parse_longstr, parse_shortstr, parse_u32, parse_u8, shortstr_bytes, u32_be,
};

verus! {

/// A six-field demonstration method: one field of every non-table type,
/// with the two `bit` fields sharing a packed octet.
#[derive(Debug, PartialEq)]
pub struct Foo {
    pub a: u8,
    pub b: Vec<u8>,
    pub c: Vec<u8>,
    pub d: bool,
    pub e: bool,
    pub f: u32,
}

/// The abstract field assignment of a [`Foo`].
#[verifier::ext_equal]
pub struct FooView {
    pub a: u8,
    pub b: Seq<u8>,
    pub c: Seq<u8>,
    pub d: bool,
    pub e: bool,
    pub f: u32,
}

impl View for Foo {
    type V = FooView;

    open spec fn view(&self) -> FooView {
        FooView { a: self.a, b: self.b@, c: self.c@, d: self.d, e: self.e, f: self.f }
    }
}

/// The argument octets of a [`Foo`] assignment: octet, short string, long
/// string, one packed octet holding both bits, 32-bit integer.
pub open spec fn foo_encoded(v: FooView) -> Seq<u8> {
    seq![v.a] + shortstr_bytes(v.b) + longstr_bytes(v.c) + seq![pack_octet(seq![v.d, v.e])]
        + u32_be(v.f)
}

/// The [`Foo`] assignment denoted by argument octets, if they parse;
/// trailing octets are tolerated.
pub open spec fn foo_parsed(data: Seq<u8>) -> Option<FooView> {
    match parse_u8(data, 0) {
        None => None,
        Some((a, p1)) => match parse_shortstr(data, p1) {
            None => None,
            Some((b, p2)) => match parse_longstr(data, p2) {
                None => None,
                Some((c, p3)) => match parse_u8(data, p3) {
                    None => None,
                    Some((o, p4)) => match parse_u32(data, p4) {
                        None => None,
                        Some((f, _p5)) => Some(
                            FooView { a, b, c, d: bit_at(o, 0), e: bit_at(o, 1), f },
                        ),
                    },
                },
            },
        },
    }
}

impl Method for Foo {
    open spec fn spec_class_id() -> u16 {
        1
    }

    open spec fn spec_method_id() -> u16 {
        2
    }

    open spec fn spec_name() -> Seq<char> {
        "test.foo"@
    }

    open spec fn wf_view(v: FooView) -> bool {
        v.b.len() <= 255 && v.c.len() <= 0xFFFFFFFF
    }

    open spec fn view_encoded(v: FooView) -> Seq<u8> {
        foo_encoded(v)
    }

    open spec fn parsed(d: Seq<u8>) -> Option<FooView> {
        foo_parsed(d)
    }

    fn class_id() -> u16 {
        1
    }

    fn id() -> u16 {
        2
    }

    fn decode(method_frame: MethodFrame) -> Result<Self, AmqpError> {
        if !(method_frame.class_id == 1 && method_frame.method_id == 2) {
            return Err(AmqpError::Protocol(ProtocolErrorKind::UnexpectedClassMethodId));
        }
        let data = method_frame.arguments.into_inner();
        let mut reader = ArgumentsReader::new(data);
        let a = match reader.read_octet() {
            Ok(v) => v,
            Err(e) => {
                return Err(e);
            },
        };
        let b = match reader.read_shortstr() {
            Ok(v) => v,
            Err(e) => {
                return Err(e);
            },
        };
        let c = match reader.read_longstr() {
            Ok(v) => v,
            Err(e) => {
                return Err(e);
            },
        };
        let d = match reader.read_bit() {
            Ok(v) => v,
            Err(e) => {
                return Err(e);
            },
        };
        let e = match reader.read_bit() {
            Ok(v) => v,
            Err(e) => {
                return Err(e);
            },
        };
        let f = match reader.read_long() {
            Ok(v) => v,
            Err(e) => {
                return Err(e);
            },
        };
        Ok(Foo { a, b, c, d, e, f })
    }

    fn encode(&self) -> Result<EncodedMethod, AmqpError> {
        let mut writer = ArgumentsWriter::new();
        match writer.write_octet(&self.a) {
            Ok(()) => (),
            Err(e) => {
                return Err(e);
            },
        };
        match writer.write_shortstr(&self.b) {
            Ok(()) => (),
            Err(e) => {
                return Err(e);
            },
        };
        match writer.write_longstr(&self.c) {
            Ok(()) => (),
            Err(e) => {
                return Err(e);
            },
        };
        match writer.write_bit(&self.d) {
            Ok(()) => (),
            Err(e) => {
                return Err(e);
            },
        };
        match writer.write_bit(&self.e) {
            Ok(()) => (),
            Err(e) => {
                return Err(e);
            },
        };
        match writer.write_long(&self.f) {
            Ok(()) => (),
            Err(e) => {
                return Err(e);
            },
        };
        let out = writer.as_bytes();
        proof {
            assert(Seq::<bool>::empty().push(self.d).push(self.e) =~= seq![self.d, self.e]);
            assert(out@ =~= foo_encoded(self@));
        }
        Ok(EncodedMethod::new(out))
    }

    fn name(&self) -> &'static str {
        "test.foo"
    }
}

/// Every encodable `Foo` assignment survives the encode/decode round trip:
/// parsing the encoding restores the assignment exactly.
#[verifier::rlimit(50)]
pub proof fn lemma_foo_round_trip(v: FooView)
    requires
        Foo::wf_view(v),
    ensures
        foo_parsed(foo_encoded(v)) == Some(v),
{
    let d = foo_encoded(v);
    let sa = seq![v.a];
    let sb = shortstr_bytes(v.b);
    let sc = longstr_bytes(v.c);
    let o = pack_octet(seq![v.d, v.e]);
    let so = seq![o];
    let sf = u32_be(v.f);
    let p2: int = 2 + v.b.len() as int;
    let p3: int = p2 + 4 + v.c.len() as int;
    let p4: int = p3 + 1;
    assert(sa.len() == 1 && sb.len() == 1 + v.b.len() && sc.len() == 4 + v.c.len() && so.len() == 1
        && sf.len() == 4);
    assert(d =~= Seq::<u8>::empty() + seq![v.a] + (sb + sc + so + sf));
    lemma_parse_u8_at(d, Seq::empty(), v.a, sb + sc + so + sf);
    assert(parse_u8(d, 0) == Some((v.a, 1int)));
    assert(d =~= sa + shortstr_bytes(v.b) + (sc + so + sf));
    lemma_parse_shortstr_at(d, sa, v.b, sc + so + sf);
    assert(parse_shortstr(d, 1) == Some((v.b, p2)));
    assert(d =~= (sa + sb) + longstr_bytes(v.c) + (so + sf));
    lemma_parse_longstr_at(d, sa + sb, v.c, so + sf);
    assert((sa + sb).len() == p2);
    assert(parse_longstr(d, p2) == Some((v.c, p3)));
    assert(d =~= (sa + sb + sc) + seq![o] + sf);
    lemma_parse_u8_at(d, sa + sb + sc, o, sf);
    assert((sa + sb + sc).len() == p3);
    assert(parse_u8(d, p3) == Some((o, p4)));
    assert(d =~= (sa + sb + sc + so) + u32_be(v.f) + Seq::<u8>::empty());
    lemma_parse_u32_at(d, sa + sb + sc + so, v.f, Seq::empty());
    assert((sa + sb + sc + so).len() == p4);
    assert(parse_u32(d, p4) == Some((v.f, p4 + 4)));
    crate::bits::lemma_pack_octet_bit(seq![v.d, v.e], 0);
    crate::bits::lemma_pack_octet_bit(seq![v.d, v.e], 1);
    assert(bit_at(o, 0) == v.d && bit_at(o, 1) == v.e);
    assert(foo_parsed(d) matches Some(pv) && pv =~= v);
}

/// The empty schema entry: a method with no arguments, which encodes to a
/// zero-length argument buffer.
#[derive(Debug, PartialEq, Clone)]
pub struct FooNoFields;

impl View for FooNoFields {
    type V = ();

    open spec fn view(&self) -> () {
        ()
    }
}

impl Method for FooNoFields {
    open spec fn spec_class_id() -> u16 {
        1
    }

    open spec fn spec_method_id() -> u16 {
        2
    }

    open spec fn spec_name() -> Seq<char> {
        "test.foo_no_fields"@
    }

    open spec fn wf_view(v: ()) -> bool {
        true
    }

    open spec fn view_encoded(v: ()) -> Seq<u8> {
        Seq::empty()
    }

    open spec fn parsed(d: Seq<u8>) -> Option<()> {
        Some(())
    }

    fn class_id() -> u16 {
        1
    }

    fn id() -> u16 {
        2
    }

    fn decode(method_frame: MethodFrame) -> Result<Self, AmqpError> {
        if !(method_frame.class_id == 1 && method_frame.method_id == 2) {
            return Err(AmqpError::Protocol(ProtocolErrorKind::UnexpectedClassMethodId));
        }
        Ok(FooNoFields)
    }

    fn encode(&self) -> Result<EncodedMethod, AmqpError> {
        let out: Vec<u8> = Vec::new();
        proof {
            assert(out@ =~= Seq::<u8>::empty());
        }
        Ok(EncodedMethod::new(out))
    }

    fn name(&self) -> &'static str {
        "test.foo_no_fields"
    }
}

/// A content-property list over `Foo`'s schema: every property optional,
/// present ones recorded in a 16-bit bitmap, most significant bit first.
#[derive(Debug, PartialEq, Clone)]
pub struct FooProperties {
    pub a: Option<u8>,
    pub b: Option<Vec<u8>>,
    pub c: Option<Vec<u8>>,
    pub d: Option<bool>,
    pub e: Option<bool>,
    pub f: Option<u32>,
}

/// The abstract assignment of a [`FooProperties`].
#[verifier::ext_equal]
pub struct FooPropertiesView {
    pub a: Option<u8>,
    pub b: Option<Seq<u8>>,
    pub c: Option<Seq<u8>>,
    pub d: Option<bool>,
    pub e: Option<bool>,
    pub f: Option<u32>,
}

impl View for FooProperties {
    type V = FooPropertiesView;

    open spec fn view(&self) -> FooPropertiesView {
        FooPropertiesView {
            a: self.a,
            b: match self.b {
                Some(ref s) => Some(s@),
                None => None,
            },
            c: match self.c {
                Some(ref s) => Some(s@),
                None => None,
            },
            d: self.d,
            e: self.e,
            f: self.f,
        }
    }
}

/// Which property assignments the encoder accepts: present strings within
/// their length bounds.
pub open spec fn props_wf(v: FooPropertiesView) -> bool {
    &&& (v.b matches Some(s) ==> s.len() <= 255)
    &&& (v.c matches Some(s) ==> s.len() <= 0xFFFFFFFF)
}

/// The 16-bit presence bitmap: bit `15 - i` set iff property `i` is
/// present.
pub open spec fn props_flags_of(
    pa: bool,
    pb: bool,
    pc: bool,
    pd: bool,
    pe: bool,
    pf: bool,
) -> u16 {
    (if pa {
        0x8000u16
    } else {
        0u16
    }) | (if pb {
        0x4000u16
    } else {
        0u16
    }) | (if pc {
        0x2000u16
    } else {
        0u16
    }) | (if pd {
        0x1000u16
    } else {
        0u16
    }) | (if pe {
        0x0800u16
    } else {
        0u16
    }) | (if pf {
        0x0400u16
    } else {
        0u16
    })
}

/// The presence bitmap of a property assignment.
pub open spec fn props_flags(v: FooPropertiesView) -> u16 {
    props_flags_of(v.a is Some, v.b is Some, v.c is Some, v.d is Some, v.e is Some, v.f is Some)
}

/// Each bit of the bitmap reports exactly one property's presence.
pub proof fn lemma_props_flag_bits(pa: bool, pb: bool, pc: bool, pd: bool, pe: bool, pf: bool)
    by (bit_vector)
    ensures
        (props_flags_of(pa, pb, pc, pd, pe, pf) & 0x8000u16 != 0) == pa,
        (props_flags_of(pa, pb, pc, pd, pe, pf) & 0x4000u16 != 0) == pb,
        (props_flags_of(pa, pb, pc, pd, pe, pf) & 0x2000u16 != 0) == pc,
        (props_flags_of(pa, pb, pc, pd, pe, pf) & 0x1000u16 != 0) == pd,
        (props_flags_of(pa, pb, pc, pd, pe, pf) & 0x0800u16 != 0) == pe,
        (props_flags_of(pa, pb, pc, pd, pe, pf) & 0x0400u16 != 0) == pf,
{
}

/// The bit run formed by the present `bit` properties, in schema order.
pub open spec fn props_bit_run(v: FooPropertiesView) -> Seq<bool> {
    (match v.d {
        Some(x) => seq![x],
        None => Seq::<bool>::empty(),
    }) + (match v.e {
        Some(x) => seq![x],
        None => Seq::<bool>::empty(),
    })
}

/// The encoded property section: each present property's octets in schema
/// order, with no padding for absent ones; the present `bit` properties
/// share one packed octet.
pub open spec fn props_encoded(v: FooPropertiesView) -> Seq<u8> {
    (match v.a {
        Some(x) => seq![x],
        None => Seq::<u8>::empty(),
    }) + (match v.b {
        Some(s) => shortstr_bytes(s),
        None => Seq::<u8>::empty(),
    }) + (match v.c {
        Some(s) => longstr_bytes(s),
        None => Seq::<u8>::empty(),
    }) + flushed(props_bit_run(v)) + (match v.f {
        Some(x) => u32_be(x),
        None => Seq::<u8>::empty(),
    })
}

/// The tail of property parsing: the optional 32-bit property.
pub open spec fn props_parsed_f(
    flags: u16,
    d: Seq<u8>,
    p: int,
    a: Option<u8>,
    b: Option<Seq<u8>>,
    c: Option<Seq<u8>>,
    dv: Option<bool>,
    ev: Option<bool>,
) -> Option<FooPropertiesView> {
    if flags & 0x0400u16 != 0 {
        match parse_u32(d, p) {
            None => None,
            Some((fv, _q)) => Some(FooPropertiesView { a, b, c, d: dv, e: ev, f: Some(fv) }),
        }
    } else {
        Some(FooPropertiesView { a, b, c, d: dv, e: ev, f: None })
    }
}

/// Property parsing at the `bit` properties: the present ones share one
/// packed octet, consumed least significant bit first.
pub open spec fn props_parsed_bits(
    flags: u16,
    d: Seq<u8>,
    p: int,
    a: Option<u8>,
    b: Option<Seq<u8>>,
    c: Option<Seq<u8>>,
) -> Option<FooPropertiesView> {
    if flags & 0x1000u16 != 0 || flags & 0x0800u16 != 0 {
        match parse_u8(d, p) {
            None => None,
            Some((o, q)) => if flags & 0x1000u16 != 0 && flags & 0x0800u16 != 0 {
                props_parsed_f(flags, d, q, a, b, c, Some(bit_at(o, 0)), Some(bit_at(o, 1)))
            } else if flags & 0x1000u16 != 0 {
                props_parsed_f(flags, d, q, a, b, c, Some(bit_at(o, 0)), None)
            } else {
                props_parsed_f(flags, d, q, a, b, c, None, Some(bit_at(o, 0)))
            },
        }
    } else {
        props_parsed_f(flags, d, p, a, b, c, None, None)
    }
}

/// Property parsing at the long-string property.
pub open spec fn props_parsed_c(
    flags: u16,
    d: Seq<u8>,
    p: int,
    a: Option<u8>,
    b: Option<Seq<u8>>,
) -> Option<FooPropertiesView> {
    if flags & 0x2000u16 != 0 {
        match parse_longstr(d, p) {
            None => None,
            Some((s, q)) => props_parsed_bits(flags, d, q, a, b, Some(s)),
        }
    } else {
        props_parsed_bits(flags, d, p, a, b, None)
    }
}

/// Property parsing at the short-string property.
pub open spec fn props_parsed_b(flags: u16, d: Seq<u8>, p: int, a: Option<u8>) -> Option<
    FooPropertiesView,
> {
    if flags & 0x4000u16 != 0 {
        match parse_shortstr(d, p) {
            None => None,
            Some((s, q)) => props_parsed_c(flags, d, q, a, Some(s)),
        }
    } else {
        props_parsed_c(flags, d, p, a, None)
    }
}

/// The property assignment denoted by a presence bitmap and encoded
/// property octets, if they parse; trailing octets are tolerated.
pub open spec fn props_parsed(flags: u16, d: Seq<u8>) -> Option<FooPropertiesView> {
    if flags & 0x8000u16 != 0 {
        match parse_u8(d, 0) {
            None => None,
            Some((a, p)) => props_parsed_b(flags, d, p, Some(a)),
        }
    } else {
        props_parsed_b(flags, d, 0, None)
    }
}

impl Default for FooProperties {
    /// The all-absent property list.
    fn default() -> (r: FooProperties)
        ensures
            r.a is None && r.b is None && r.c is None && r.d is None && r.e is None && r.f is None,
    {
        FooProperties { a: None, b: None, c: None, d: None, e: None, f: None }
    }
}

impl FooProperties {
    /// Decodes the property list of a content header: one presence flag per
    /// schema property, most significant bit first, then the present
    /// properties' octets in order.
    pub fn decode(content_header_frame: ContentHeaderFrame) -> (r: Result<
        FooProperties,
        AmqpError,
    >)
        ensures
            props_parsed(content_header_frame.properties_flags, content_header_frame.properties@)
                matches Some(v) ==> (r matches Ok(x) && x@ == v),
            props_parsed(content_header_frame.properties_flags, content_header_frame.properties@)
                is None ==> r == Err::<FooProperties, AmqpError>(AmqpError::Io),
    {
        let flags = content_header_frame.properties_flags;
        let data = content_header_frame.properties.into_inner();
        let mut reader = ArgumentsReader::new(data);
        let a = if flags & 0x8000u16 != 0 {
            match reader.read_octet() {
                Ok(v) => Some(v),
                Err(e) => {
                    return Err(e);
                },
            }
        } else {
            None
        };
        let b = if flags & 0x4000u16 != 0 {
            match reader.read_shortstr() {
                Ok(v) => Some(v),
                Err(e) => {
                    return Err(e);
                },
            }
        } else {
            None
        };
        let c = if flags & 0x2000u16 != 0 {
            match reader.read_longstr() {
                Ok(v) => Some(v),
                Err(e) => {
                    return Err(e);
                },
            }
        } else {
            None
        };
        let d = if flags & 0x1000u16 != 0 {
            match reader.read_bit() {
                Ok(v) => Some(v),
                Err(e) => {
                    return Err(e);
                },
            }
        } else {
            None
        };
        let e = if flags & 0x0800u16 != 0 {
            match reader.read_bit() {
                Ok(v) => Some(v),
                Err(e) => {
                    return Err(e);
                },
            }
        } else {
            None
        };
        let f = if flags & 0x0400u16 != 0 {
            match reader.read_long() {
                Ok(v) => Some(v),
                Err(e) => {
                    return Err(e);
                },
            }
        } else {
            None
        };
        Ok(FooProperties { a, b, c, d, e, f })
    }

    /// Encodes the present properties in schema order, with no padding for
    /// absent ones; a present string beyond its length bound is refused.
    pub fn encode(self) -> (r: Result<Vec<u8>, AmqpError>)
        ensures
            props_wf(self@) ==> (r matches Ok(out) && out@ == props_encoded(self@)),
            !props_wf(self@) ==> (r matches Err(e) && e is Protocol),
    {
        let mut writer = ArgumentsWriter::new();
        match self.a {
            Some(ref x) => match writer.write_octet(x) {
                Ok(()) => (),
                Err(e) => {
                    return Err(e);
                },
            },
            None => (),
        };
        match self.b {
            Some(ref s) => match writer.write_shortstr(s) {
                Ok(()) => (),
                Err(e) => {
                    return Err(e);
                },
            },
            None => (),
        };
        match self.c {
            Some(ref s) => match writer.write_longstr(s) {
                Ok(()) => (),
                Err(e) => {
                    return Err(e);
                },
            },
            None => (),
        };
        match self.d {
            Some(ref x) => match writer.write_bit(x) {
                Ok(()) => (),
                Err(e) => {
                    return Err(e);
                },
            },
            None => (),
        };
        match self.e {
            Some(ref x) => match writer.write_bit(x) {
                Ok(()) => (),
                Err(e) => {
                    return Err(e);
                },
            },
            None => (),
        };
        match self.f {
            Some(ref x) => match writer.write_long(x) {
                Ok(()) => (),
                Err(e) => {
                    return Err(e);
                },
            },
            None => (),
        };
        let out = writer.as_bytes();
        proof {
            assert(Seq::<bool>::empty() + Seq::<bool>::empty() =~= Seq::<bool>::empty());
            match (self.d, self.e) {
                (Some(dv), Some(ev)) => {
                    assert(Seq::<bool>::empty().push(dv).push(ev) =~= seq![dv] + seq![ev]);
                },
                (Some(dv), None) => {
                    assert(Seq::<bool>::empty().push(dv) =~= seq![dv] + Seq::<bool>::empty());
                },
                (None, Some(ev)) => {
                    assert(Seq::<bool>::empty().push(ev) =~= Seq::<bool>::empty() + seq![ev]);
                },
                (None, None) => {},
            }
            assert(out@ =~= props_encoded(self@));
        }
        Ok(out)
    }

    /// The presence bitmap of this property list: bit `15 - i` set iff
    /// property `i` is present.
    pub fn flags(&self) -> (r: u16)
        ensures
            r == props_flags(self@),
    {
        (if self.a.is_some() {
            0x8000u16
        } else {
            0u16
        }) | (if self.b.is_some() {
            0x4000u16
        } else {
            0u16
        }) | (if self.c.is_some() {
            0x2000u16
        } else {
            0u16
        }) | (if self.d.is_some() {
            0x1000u16
        } else {
            0u16
        }) | (if self.e.is_some() {
            0x0800u16
        } else {
            0u16
        }) | (if self.f.is_some() {
            0x0400u16
        } else {
            0u16
        })
    }
}

/// The cursor positions of the property segments inside an encoded
/// property section.
pub open spec fn props_pa(v: FooPropertiesView) -> int {
    match v.a {
        Some(_x) => 1,
        None => 0,
    }
}

/// The position after the short-string property.
pub open spec fn props_pb(v: FooPropertiesView) -> int {
    props_pa(v) + (match v.b {
        Some(s) => 1 + s.len() as int,
        None => 0,
    })
}

/// The position after the long-string property.
pub open spec fn props_pc(v: FooPropertiesView) -> int {
    props_pb(v) + (match v.c {
        Some(s) => 4 + s.len() as int,
        None => 0,
    })
}

/// The position after the packed `bit` octet, if any property bit is
/// present.
pub open spec fn props_pbits(v: FooPropertiesView) -> int {
    props_pc(v) + (if v.d is Some || v.e is Some {
        1int
    } else {
        0int
    })
}

/// Shorthand for the five conditional segments of an encoded property
/// section, in order.
pub open spec fn props_seg_a(v: FooPropertiesView) -> Seq<u8> {
    match v.a {
        Some(x) => seq![x],
        None => Seq::<u8>::empty(),
    }
}

/// The short-string segment.
pub open spec fn props_seg_b(v: FooPropertiesView) -> Seq<u8> {
    match v.b {
        Some(s) => shortstr_bytes(s),
        None => Seq::<u8>::empty(),
    }
}

/// The long-string segment.
pub open spec fn props_seg_c(v: FooPropertiesView) -> Seq<u8> {
    match v.c {
        Some(s) => longstr_bytes(s),
        None => Seq::<u8>::empty(),
    }
}

/// The 32-bit-integer segment.
pub open spec fn props_seg_f(v: FooPropertiesView) -> Seq<u8> {
    match v.f {
        Some(x) => u32_be(x),
        None => Seq::<u8>::empty(),
    }
}

/// The segment lengths are exactly the distances between the parse
/// positions.
proof fn lemma_props_seg_lens(v: FooPropertiesView)
    ensures
        props_seg_a(v).len() == props_pa(v),
        (props_seg_a(v) + props_seg_b(v)).len() == props_pb(v),
        (props_seg_a(v) + props_seg_b(v) + props_seg_c(v)).len() == props_pc(v),
        (props_seg_a(v) + props_seg_b(v) + props_seg_c(v) + flushed(props_bit_run(v))).len()
            == props_pbits(v),
{
    if v.d is Some || v.e is Some {
        assert(props_bit_run(v).len() >= 1);
    } else {
        assert(props_bit_run(v) =~= Seq::<bool>::empty());
    }
}

/// The present octet property parses back at position 0.
proof fn lemma_props_parse_a(v: FooPropertiesView)
    ensures
        v.a matches Some(x) ==> parse_u8(props_encoded(v), 0) == Some((x, props_pa(v))),
{
    lemma_props_seg_lens(v);
    match v.a {
        Some(x) => {
            let rest = props_seg_b(v) + props_seg_c(v) + flushed(props_bit_run(v)) + props_seg_f(v);
            assert(props_encoded(v) =~= Seq::<u8>::empty() + seq![x] + rest);
            lemma_parse_u8_at(props_encoded(v), Seq::empty(), x, rest);
        },
        None => {},
    }
}

/// The present short-string property parses back at its position.
proof fn lemma_props_parse_b(v: FooPropertiesView)
    requires
        props_wf(v),
    ensures
        v.b matches Some(s) ==> parse_shortstr(props_encoded(v), props_pa(v)) == Some(
            (s, props_pb(v)),
        ),
{
    lemma_props_seg_lens(v);
    match v.b {
        Some(s) => {
            let rest = props_seg_c(v) + flushed(props_bit_run(v)) + props_seg_f(v);
            assert(props_encoded(v) =~= props_seg_a(v) + shortstr_bytes(s) + rest);
            lemma_parse_shortstr_at(props_encoded(v), props_seg_a(v), s, rest);
        },
        None => {},
    }
}

/// The present long-string property parses back at its position.
proof fn lemma_props_parse_c(v: FooPropertiesView)
    requires
        props_wf(v),
    ensures
        v.c matches Some(s) ==> parse_longstr(props_encoded(v), props_pb(v)) == Some(
            (s, props_pc(v)),
        ),
{
    lemma_props_seg_lens(v);
    match v.c {
        Some(s) => {
            let rest = flushed(props_bit_run(v)) + props_seg_f(v);
            assert(props_encoded(v) =~= (props_seg_a(v) + props_seg_b(v)) + longstr_bytes(s)
                + rest);
            lemma_parse_longstr_at(props_encoded(v), props_seg_a(v) + props_seg_b(v), s, rest);
        },
        None => {},
    }
}

/// The packed `bit` octet parses back at its position when any property
/// bit is present.
proof fn lemma_props_parse_bits(v: FooPropertiesView)
    ensures
        (v.d is Some || v.e is Some) ==> parse_u8(props_encoded(v), props_pc(v)) == Some(
            (pack_octet(props_bit_run(v)), props_pbits(v)),
        ),
{
    lemma_props_seg_lens(v);
    if v.d is Some || v.e is Some {
        let o = pack_octet(props_bit_run(v));
        assert(flushed(props_bit_run(v)) =~= seq![o]);
        let pre = props_seg_a(v) + props_seg_b(v) + props_seg_c(v);
        assert(props_encoded(v) =~= pre + seq![o] + props_seg_f(v));
        lemma_parse_u8_at(props_encoded(v), pre, o, props_seg_f(v));
    }
}

/// The present 32-bit property parses back at its position.
proof fn lemma_props_parse_f(v: FooPropertiesView)
    ensures
        v.f matches Some(x) ==> parse_u32(props_encoded(v), props_pbits(v)) == Some(
            (x, props_pbits(v) + 4),
        ),
{
    lemma_props_seg_lens(v);
    match v.f {
        Some(x) => {
            let pre = props_seg_a(v) + props_seg_b(v) + props_seg_c(v) + flushed(props_bit_run(v));
            assert(props_encoded(v) =~= pre + u32_be(x) + Seq::<u8>::empty());
            lemma_parse_u32_at(props_encoded(v), pre, x, Seq::empty());
        },
        None => {},
    }
}

/// The packed `bit` octet of an encoded property section reports the
/// present property bits in order, least significant bit first.
proof fn lemma_props_bit_octet(v: FooPropertiesView)
    ensures
        v.d matches Some(dv) ==> bit_at(pack_octet(props_bit_run(v)), 0) == dv,
        v.d is Some ==> (v.e matches Some(ev) ==> bit_at(pack_octet(props_bit_run(v)), 1) == ev),
        v.d is None ==> (v.e matches Some(ev) ==> bit_at(pack_octet(props_bit_run(v)), 0) == ev),
{
    let run = props_bit_run(v);
    match (v.d, v.e) {
        (Some(dv), Some(ev)) => {
            assert(run =~= seq![dv, ev]);
            crate::bits::lemma_pack_octet_bit(seq![dv, ev], 0);
            crate::bits::lemma_pack_octet_bit(seq![dv, ev], 1);
        },
        (Some(dv), None) => {
            assert(run =~= seq![dv]);
            crate::bits::lemma_pack_octet_bit(seq![dv], 0);
        },
        (None, Some(ev)) => {
            assert(run =~= seq![ev]);
            crate::bits::lemma_pack_octet_bit(seq![ev], 0);
        },
        (None, None) => {},
    }
}

/// Every encodable property assignment survives the encode/decode round
/// trip — with all properties absent, all present, or any mixture: parsing
/// the encoding under the assignment's own presence bitmap restores the
/// assignment exactly.
#[verifier::rlimit(100)]
pub proof fn lemma_props_round_trip(v: FooPropertiesView)
    requires
        props_wf(v),
    ensures
        props_parsed(props_flags(v), props_encoded(v)) == Some(v),
{
    let flags = props_flags(v);
    let d = props_encoded(v);
    lemma_props_flag_bits(
        v.a is Some,
        v.b is Some,
        v.c is Some,
        v.d is Some,
        v.e is Some,
        v.f is Some,
    );
    lemma_props_parse_a(v);
    lemma_props_parse_b(v);
    lemma_props_parse_c(v);
    lemma_props_parse_bits(v);
    lemma_props_parse_f(v);
    lemma_props_seg_lens(v);
    lemma_props_bit_octet(v);
    assert(props_parsed_f(flags, d, props_pbits(v), v.a, v.b, v.c, v.d, v.e) matches Some(pv) && pv
        =~= v);
    assert(props_parsed_bits(flags, d, props_pc(v), v.a, v.b, v.c) == props_parsed_f(
        flags,
        d,
        props_pbits(v),
        v.a,
        v.b,
        v.c,
        v.d,
        v.e,
    ));
    assert(props_parsed_c(flags, d, props_pb(v), v.a, v.b) == props_parsed_bits(
        flags,
        d,
        props_pc(v),
        v.a,
        v.b,
        v.c,
    ));
    assert(props_parsed_b(flags, d, props_pa(v), v.a) == props_parsed_c(
        flags,
        d,
        props_pb(v),
        v.a,
        v.b,
    ));
    assert(props_parsed(flags, d) == props_parsed_b(flags, d, props_pa(v), v.a));
}

} // verus!
