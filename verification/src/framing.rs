//! The frame layer: the outermost envelope (type, channel, size, payload,
//! end marker) that carries all protocol traffic, and the method and
//! content-header interpretations of its payload.

use vstd::prelude::*;

use crate::error::{AmqpError, ProtocolErrorKind};
use crate::method::EncodedMethod;
use crate::wire::{
    copy_range, push_bytes, push_u16_be, push_u32_be, push_u64_be, read_u16_be, read_u32_be,
    read_u64_be, u16_be, u16_of_be, u32_be, u32_of_be, u64_be, u64_of_be,
};

verus! {

/// The largest payload the codec will encode or allocate on decode, in
/// octets: the customary default negotiated at connection setup.
pub const MAX_FRAME_SIZE: u32 = 131072;

/// The kind of traffic a frame carries.
#[derive(Debug, Clone, Copy, PartialEq, Eq, Structural)]
pub enum FrameType {
    METHOD,
    HEADERS,
    BODY,
    HEARTBEAT,
}

/// The on-wire identifier of a frame type.
pub open spec fn frame_type_id(t: FrameType) -> u8 {
    match t {
        FrameType::METHOD => 1,
        FrameType::HEADERS => 2,
        FrameType::BODY => 3,
        FrameType::HEARTBEAT => 8,
    }
}

/// The frame type denoted by an on-wire identifier, if any.
pub open spec fn frame_type_of_id(b: u8) -> Option<FrameType> {
    if b == 1 {
        Some(FrameType::METHOD)
    } else if b == 2 {
        Some(FrameType::HEADERS)
    } else if b == 3 {
        Some(FrameType::BODY)
    } else if b == 8 {
        Some(FrameType::HEARTBEAT)
    } else {
        None
    }
}

impl FrameType {
    /// The on-wire identifier of this frame type.
    pub fn id(&self) -> (r: u8)
        ensures
            r == frame_type_id(*self),
    {
        match self {
            FrameType::METHOD => 1,
            FrameType::HEADERS => 2,
            FrameType::BODY => 3,
            FrameType::HEARTBEAT => 8,
        }
    }

    /// The frame type denoted by an on-wire identifier, if any.
    pub fn from_id(b: u8) -> (r: Option<FrameType>)
        ensures
            r == frame_type_of_id(b),
    {
        if b == 1 {
            Some(FrameType::METHOD)
        } else if b == 2 {
            Some(FrameType::HEADERS)
        } else if b == 3 {
            Some(FrameType::BODY)
        } else if b == 8 {
            Some(FrameType::HEARTBEAT)
        } else {
            None
        }
    }
}

/// The payload of a frame: opaque bytes whose interpretation depends on the
/// frame type.
#[derive(Debug, PartialEq, Eq, Clone)]
pub struct FramePayload(Vec<u8>);

impl View for FramePayload {
    type V = Seq<u8>;

    closed spec fn view(&self) -> Seq<u8> {
        self.0@
    }
}

impl FramePayload {
    /// Wraps payload bytes.
    pub fn new(data: Vec<u8>) -> (r: FramePayload)
        ensures
            r@ == data@,
    {
        FramePayload(data)
    }

    /// Hands the bytes back.
    pub fn into_inner(self) -> (r: Vec<u8>)
        ensures
            r@ == self@,
    {
        self.0
    }

    /// Borrows the bytes.
    pub fn inner(&self) -> (r: &Vec<u8>)
        ensures
            r@ == self@,
    {
        &self.0
    }
}

/// The encoded optional-property section of a content header, kept distinct
/// from arbitrary payload bytes.
#[derive(Debug, PartialEq, Eq, Clone)]
pub struct EncodedProperties(Vec<u8>);

impl View for EncodedProperties {
    type V = Seq<u8>;

    closed spec fn view(&self) -> Seq<u8> {
        self.0@
    }
}

impl EncodedProperties {
    /// Wraps already-encoded properties.
    pub fn new(data: Vec<u8>) -> (r: EncodedProperties)
        ensures
            r@ == data@,
    {
        EncodedProperties(data)
    }

    /// Hands the bytes back.
    pub fn into_inner(self) -> (r: Vec<u8>)
        ensures
            r@ == self@,
    {
        self.0
    }

    /// Borrows the bytes.
    pub fn inner(&self) -> (r: &Vec<u8>)
        ensures
            r@ == self@,
    {
        &self.0
    }
}

/// A frame: the unit of transport.
#[derive(Debug, Clone, PartialEq, Eq)]
pub struct Frame {
    pub frame_type: FrameType,
    pub channel: u16,
    pub payload: FramePayload,
}

/// The seven header octets of a frame, parsed.
pub struct FrameHeader {
    pub frame_type_id: u8,
    pub channel: u16,
    pub payload_size: u32,
}

impl FrameHeader {
    /// Parses the seven header octets: type, channel, payload size.
    pub fn new(header: [u8; 7]) -> (r: FrameHeader)
        ensures
            r.frame_type_id == header@[0],
            r.channel == u16_of_be(header@[1], header@[2]),
            r.payload_size == u32_of_be(header@[3], header@[4], header@[5], header@[6]),
    {
        FrameHeader {
            frame_type_id: header[0],
            channel: (header[1] as u16) * 0x100 + (header[2] as u16),
            payload_size: (header[3] as u32) * 0x1000000 + (header[4] as u32) * 0x10000 + (
            header[5] as u32) * 0x100 + (header[6] as u32),
        }
    }
}

/// The complete on-wire octets of a frame: type, channel, payload size,
/// payload, end marker.
pub open spec fn frame_bytes(f: Frame) -> Seq<u8> {
    seq![frame_type_id(f.frame_type)] + u16_be(f.channel) + u32_be(f.payload@.len() as u32)
        + f.payload@ + seq![0xCEu8]
}

/// The payload size a frame's header declares.
pub open spec fn frame_size_of(d: Seq<u8>) -> u32 {
    u32_of_be(d[3], d[4], d[5], d[6])
}

/// Whether `d` begins with a complete well-formed frame: a full header, a
/// payload within the size bound, the `0xCE` end marker, and a known frame
/// type.
pub open spec fn frame_ok(d: Seq<u8>) -> bool {
    &&& d.len() >= 7
    &&& frame_size_of(d) <= MAX_FRAME_SIZE
    &&& d.len() >= 8 + frame_size_of(d)
    &&& d[7 + frame_size_of(d)] == 0xCE
    &&& frame_type_of_id(d[0]) is Some
}

impl Frame {
    /// Decodes the frame at the start of `data`; octets past the frame's
    /// end marker belong to the next frame and are left alone. A declared
    /// payload size beyond [`MAX_FRAME_SIZE`] is rejected before any
    /// payload buffer is allocated.
    pub fn decode(data: &Vec<u8>) -> (r: Result<Frame, AmqpError>)
        ensures
            data@.len() < 7 ==> r == Err::<Frame, AmqpError>(AmqpError::Io),
            data@.len() >= 7 && frame_size_of(data@) > MAX_FRAME_SIZE ==> r == Err::<
                Frame,
                AmqpError,
            >(AmqpError::Protocol(ProtocolErrorKind::FrameTooLarge)),
            data@.len() >= 7 && frame_size_of(data@) <= MAX_FRAME_SIZE && data@.len() < 8
                + frame_size_of(data@) ==> r == Err::<Frame, AmqpError>(AmqpError::Io),
            data@.len() >= 8 + frame_size_of(data@) && frame_size_of(data@) <= MAX_FRAME_SIZE
                && data@[7 + frame_size_of(data@)] != 0xCE ==> r == Err::<Frame, AmqpError>(
                AmqpError::Protocol(ProtocolErrorKind::FrameEndMarker),
            ),
            data@.len() >= 8 + frame_size_of(data@) && frame_size_of(data@) <= MAX_FRAME_SIZE
                && data@[7 + frame_size_of(data@)] == 0xCE && frame_type_of_id(data@[0]) is None
                ==> r == Err::<Frame, AmqpError>(
                AmqpError::Protocol(ProtocolErrorKind::UnknownFrameType),
            ),
            frame_ok(data@) ==> (r matches Ok(f) && frame_type_of_id(data@[0]) == Some(f.frame_type)
                && f.channel == u16_of_be(data@[1], data@[2]) && f.payload@ == data@.subrange(
                7,
                7 + frame_size_of(data@),
            )),
    {
        let n: usize = data.len();
        if n < 7 {
            return Err(AmqpError::Io);
        }
        let size32 = read_u32_be(data, 3);
        if size32 > MAX_FRAME_SIZE {
            return Err(AmqpError::Protocol(ProtocolErrorKind::FrameTooLarge));
        }
        let size = size32 as usize;
        if n < 8 + size {
            return Err(AmqpError::Io);
        }
        if data[7 + size] != 0xCE {
            return Err(AmqpError::Protocol(ProtocolErrorKind::FrameEndMarker));
        }
        let frame_type = match FrameType::from_id(data[0]) {
            Some(ft) => ft,
            None => {
                return Err(AmqpError::Protocol(ProtocolErrorKind::UnknownFrameType));
            },
        };
        let channel = read_u16_be(data, 1);
        let payload = copy_range(data, 7, size);
        Ok(Frame { frame_type, channel, payload: FramePayload::new(payload) })
    }

    /// Encodes the frame: header, payload, end marker. A payload beyond
    /// [`MAX_FRAME_SIZE`] is refused.
    pub fn encode(&self) -> (r: Result<Vec<u8>, AmqpError>)
        ensures
            self.payload@.len() <= MAX_FRAME_SIZE ==> (r matches Ok(v) && v@ == frame_bytes(*self)),
            self.payload@.len() > MAX_FRAME_SIZE ==> r == Err::<Vec<u8>, AmqpError>(
                AmqpError::Protocol(ProtocolErrorKind::FrameTooLarge),
            ),
    {
        let payload = self.payload.inner();
        if payload.len() > MAX_FRAME_SIZE as usize {
            return Err(AmqpError::Protocol(ProtocolErrorKind::FrameTooLarge));
        }
        let mut out: Vec<u8> = Vec::new();
        out.push(self.frame_type.id());
        push_u16_be(&mut out, self.channel);
        push_u32_be(&mut out, payload.len() as u32);
        push_bytes(&mut out, payload);
        out.push(0xCE);
        proof {
            assert(out@ =~= frame_bytes(*self));
        }
        Ok(out)
    }
}

/// A frame holding an encoded frame round-trips: its encoding is a
/// well-formed frame whose header fields, payload and end marker denote
/// exactly the frame that was encoded, so `decode` restores it.
pub proof fn lemma_frame_round_trip(f: Frame)
    requires
        f.payload@.len() <= MAX_FRAME_SIZE,
    ensures
        frame_ok(frame_bytes(f)),
        frame_bytes(f).len() == 8 + f.payload@.len(),
        frame_size_of(frame_bytes(f)) == f.payload@.len(),
        frame_type_of_id(frame_bytes(f)[0]) == Some(f.frame_type),
        u16_of_be(frame_bytes(f)[1], frame_bytes(f)[2]) == f.channel,
        frame_bytes(f).subrange(7, 7 + frame_size_of(frame_bytes(f))) == f.payload@,
{
    let d = frame_bytes(f);
    let sz: u32 = f.payload@.len() as u32;
    assert(d.len() == 8 + f.payload@.len());
    assert(d[0] == frame_type_id(f.frame_type));
    assert(d[1] == u16_be(f.channel)[0]);
    assert(d[2] == u16_be(f.channel)[1]);
    assert(d[3] == u32_be(sz)[0]);
    assert(d[4] == u32_be(sz)[1]);
    assert(d[5] == u32_be(sz)[2]);
    assert(d[6] == u32_be(sz)[3]);
    crate::wire::lemma_u32_be_round(sz);
    assert(frame_size_of(d) == sz);
    crate::wire::lemma_u16_be_round(f.channel);
    assert(d[7 + sz] == 0xCE);
    assert(d.subrange(7, 7 + sz as int) =~= f.payload@);
}

/// The METHOD-frame interpretation of a frame payload: which method it
/// names, and its encoded arguments.
#[derive(Debug, Clone, PartialEq, Eq)]
pub struct MethodFrame {
    pub class_id: u16,
    pub method_id: u16,
    pub arguments: EncodedMethod,
}

/// The octets of a METHOD-frame payload: class id, method id, arguments.
pub open spec fn method_payload_bytes(mf: MethodFrame) -> Seq<u8> {
    u16_be(mf.class_id) + u16_be(mf.method_id) + mf.arguments@
}

impl MethodFrame {
    /// Encodes the method frame as a frame payload.
    pub fn encode(&self) -> (r: Result<FramePayload, AmqpError>)
        ensures
            r matches Ok(p) && p@ == method_payload_bytes(*self),
    {
        let mut out: Vec<u8> = Vec::new();
        push_u16_be(&mut out, self.class_id);
        push_u16_be(&mut out, self.method_id);
        push_bytes(&mut out, self.arguments.inner());
        proof {
            assert(out@ =~= method_payload_bytes(*self));
        }
        Ok(FramePayload::new(out))
    }

    /// Splits a METHOD frame's payload into class id, method id and opaque
    /// arguments, so the caller can dispatch on the ids.
    pub fn decode(frame: &Frame) -> (r: Result<MethodFrame, AmqpError>)
        ensures
            frame.frame_type != FrameType::METHOD ==> r == Err::<MethodFrame, AmqpError>(
                AmqpError::Protocol(ProtocolErrorKind::NotMethodFrame),
            ),
            frame.frame_type == FrameType::METHOD && frame.payload@.len() < 4 ==> r == Err::<
                MethodFrame,
                AmqpError,
            >(AmqpError::Io),
            frame.frame_type == FrameType::METHOD && frame.payload@.len() >= 4 ==> (r matches Ok(mf)
                && mf.class_id == u16_of_be(frame.payload@[0], frame.payload@[1]) && mf.method_id
                == u16_of_be(frame.payload@[2], frame.payload@[3]) && mf.arguments@
                == frame.payload@.subrange(4, frame.payload@.len() as int)),
    {
        if !matches!(frame.frame_type, FrameType::METHOD) {
            return Err(AmqpError::Protocol(ProtocolErrorKind::NotMethodFrame));
        }
        let payload = frame.payload.inner();
        let n: usize = payload.len();
        if n < 4 {
            return Err(AmqpError::Io);
        }
        let class_id = read_u16_be(payload, 0);
        let method_id = read_u16_be(payload, 2);
        let arguments = copy_range(payload, 4, n - 4);
        Ok(MethodFrame { class_id, method_id, arguments: EncodedMethod::new(arguments) })
    }

    /// The schema name of the method this frame carries, or `"unknown"`.
    pub fn method_name(&self) -> (r: &'static str)
        ensures
            r@ == spec_method_name(self.class_id, self.method_id),
    {
        method_name_of(self.class_id, self.method_id)
    }

    /// Whether the method this frame carries is followed by a content
    /// header and body.
    pub fn carries_content(&self) -> (r: bool)
        ensures
            r == spec_carries_content(self.class_id, self.method_id),
    {
        method_carries_content(self.class_id, self.method_id)
    }
}

/// A method frame's payload encoding splits back into exactly its ids and
/// arguments.
pub proof fn lemma_method_payload_round_trip(mf: MethodFrame)
    ensures
        method_payload_bytes(mf).len() == 4 + mf.arguments@.len(),
        u16_of_be(method_payload_bytes(mf)[0], method_payload_bytes(mf)[1]) == mf.class_id,
        u16_of_be(method_payload_bytes(mf)[2], method_payload_bytes(mf)[3]) == mf.method_id,
        method_payload_bytes(mf).subrange(4, method_payload_bytes(mf).len() as int)
            == mf.arguments@,
{
    let p = method_payload_bytes(mf);
    assert(p[0] == u16_be(mf.class_id)[0]);
    assert(p[1] == u16_be(mf.class_id)[1]);
    assert(p[2] == u16_be(mf.method_id)[0]);
    assert(p[3] == u16_be(mf.method_id)[1]);
    crate::wire::lemma_u16_be_round(mf.class_id);
    crate::wire::lemma_u16_be_round(mf.method_id);
    assert(p.subrange(4, p.len() as int) =~= mf.arguments@);
}

/// The schema names of the methods the codec knows by id.
pub open spec fn spec_method_name(class_id: u16, method_id: u16) -> Seq<char> {
    if class_id == 10 && method_id == 10 {
        "connection.start"@
    } else if class_id == 10 && method_id == 11 {
        "connection.start-ok"@
    } else if class_id == 10 && method_id == 30 {
        "connection.tune"@
    } else if class_id == 10 && method_id == 31 {
        "connection.tune-ok"@
    } else if class_id == 10 && method_id == 40 {
        "connection.open"@
    } else if class_id == 10 && method_id == 41 {
        "connection.open-ok"@
    } else if class_id == 10 && method_id == 50 {
        "connection.close"@
    } else if class_id == 10 && method_id == 51 {
        "connection.close-ok"@
    } else if class_id == 20 && method_id == 10 {
        "channel.open"@
    } else if class_id == 20 && method_id == 11 {
        "channel.open-ok"@
    } else if class_id == 20 && method_id == 40 {
        "channel.close"@
    } else if class_id == 20 && method_id == 41 {
        "channel.close-ok"@
    } else if class_id == 60 && method_id == 40 {
        "basic.publish"@
    } else if class_id == 60 && method_id == 50 {
        "basic.return"@
    } else if class_id == 60 && method_id == 60 {
        "basic.deliver"@
    } else if class_id == 60 && method_id == 71 {
        "basic.get-ok"@
    } else {
        "unknown"@
    }
}

/// The methods that are followed by a content header and body.
pub open spec fn spec_carries_content(class_id: u16, method_id: u16) -> bool {
    class_id == 60 && (method_id == 40 || method_id == 50 || method_id == 60 || method_id == 71)
}

/// The schema name of a method by id, or `"unknown"`.
pub fn method_name_of(class_id: u16, method_id: u16) -> (r: &'static str)
    ensures
        r@ == spec_method_name(class_id, method_id),
{
    if class_id == 10 && method_id == 10 {
        "connection.start"
    } else if class_id == 10 && method_id == 11 {
        "connection.start-ok"
    } else if class_id == 10 && method_id == 30 {
        "connection.tune"
    } else if class_id == 10 && method_id == 31 {
        "connection.tune-ok"
    } else if class_id == 10 && method_id == 40 {
        "connection.open"
    } else if class_id == 10 && method_id == 41 {
        "connection.open-ok"
    } else if class_id == 10 && method_id == 50 {
        "connection.close"
    } else if class_id == 10 && method_id == 51 {
        "connection.close-ok"
    } else if class_id == 20 && method_id == 10 {
        "channel.open"
    } else if class_id == 20 && method_id == 11 {
        "channel.open-ok"
    } else if class_id == 20 && method_id == 40 {
        "channel.close"
    } else if class_id == 20 && method_id == 41 {
        "channel.close-ok"
    } else if class_id == 60 && method_id == 40 {
        "basic.publish"
    } else if class_id == 60 && method_id == 50 {
        "basic.return"
    } else if class_id == 60 && method_id == 60 {
        "basic.deliver"
    } else if class_id == 60 && method_id == 71 {
        "basic.get-ok"
    } else {
        "unknown"
    }
}

/// Whether the method with these ids is followed by content frames.
pub fn method_carries_content(class_id: u16, method_id: u16) -> (r: bool)
    ensures
        r == spec_carries_content(class_id, method_id),
{
    class_id == 60 && (method_id == 40 || method_id == 50 || method_id == 60 || method_id == 71)
}

/// The HEADERS-frame interpretation of a frame payload: the content class,
/// the reserved weight, the body size, and the optional-property section
/// behind its presence bitmap.
#[derive(Debug, Clone, PartialEq, Eq)]
pub struct ContentHeaderFrame {
    pub content_class: u16,
    pub weight: u16,
    pub body_size: u64,
    pub properties_flags: u16,
    pub properties: EncodedProperties,
}

/// The octets of a HEADERS-frame payload.
pub open spec fn content_header_bytes(h: ContentHeaderFrame) -> Seq<u8> {
    u16_be(h.content_class) + u16_be(h.weight) + u64_be(h.body_size) + u16_be(h.properties_flags)
        + h.properties@
}

impl ContentHeaderFrame {
    /// Splits a HEADERS frame's payload into its fixed fields and the
    /// opaque encoded properties.
    pub fn decode(frame: &Frame) -> (r: Result<ContentHeaderFrame, AmqpError>)
        ensures
            frame.payload@.len() < 14 ==> r == Err::<ContentHeaderFrame, AmqpError>(AmqpError::Io),
            frame.payload@.len() >= 14 ==> (r matches Ok(h) && h.content_class == u16_of_be(
                frame.payload@[0],
                frame.payload@[1],
            ) && h.weight == u16_of_be(frame.payload@[2], frame.payload@[3]) && h.body_size
                == u64_of_be(
                frame.payload@[4],
                frame.payload@[5],
                frame.payload@[6],
                frame.payload@[7],
                frame.payload@[8],
                frame.payload@[9],
                frame.payload@[10],
                frame.payload@[11],
            ) && h.properties_flags == u16_of_be(frame.payload@[12], frame.payload@[13])
                && h.properties@ == frame.payload@.subrange(14, frame.payload@.len() as int)),
    {
        let payload = frame.payload.inner();
        let n: usize = payload.len();
        if n < 14 {
            return Err(AmqpError::Io);
        }
        let content_class = read_u16_be(payload, 0);
        let weight = read_u16_be(payload, 2);
        let body_size = read_u64_be(payload, 4);
        let properties_flags = read_u16_be(payload, 12);
        let properties = copy_range(payload, 14, n - 14);
        Ok(
            ContentHeaderFrame {
                content_class,
                weight,
                body_size,
                properties_flags,
                properties: EncodedProperties::new(properties),
            },
        )
    }

    /// Encodes the content header as a frame payload.
    pub fn encode(&self) -> (r: Result<Vec<u8>, AmqpError>)
        ensures
            r matches Ok(v) && v@ == content_header_bytes(*self),
    {
        let mut out: Vec<u8> = Vec::new();
        push_u16_be(&mut out, self.content_class);
        push_u16_be(&mut out, self.weight);
        push_u64_be(&mut out, self.body_size);
        push_u16_be(&mut out, self.properties_flags);
        push_bytes(&mut out, self.properties.inner());
        proof {
            assert(out@ =~= content_header_bytes(*self));
        }
        Ok(out)
    }
}

} // verus!
