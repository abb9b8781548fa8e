//! The typed-method abstraction: an opaque container for encoded method
//! arguments, and the trait every schema-bound method type implements.

use vstd::prelude::*;

use crate::error::AmqpError;
use crate::framing::{Frame, FramePayload, FrameType, MethodFrame};
use crate::wire::u16_be;

verus! {

/// The encoded argument section of a method, kept distinct from arbitrary
/// frame payloads so the layers cannot be mixed up.
#[derive(Debug, PartialEq, Eq, Clone)]
pub struct EncodedMethod(Vec<u8>);

impl View for EncodedMethod {
    type V = Seq<u8>;

    closed spec fn view(&self) -> Seq<u8> {
        self.0@
    }
}

impl EncodedMethod {
    /// Wraps already-encoded method arguments.
    pub fn new(data: Vec<u8>) -> (r: EncodedMethod)
        ensures
            r@ == data@,
    {
        EncodedMethod(data)
    }

    /// Hands the bytes back.
    pub fn into_inner(self) -> (r: Vec<u8>)
        ensures
            r@ == self@,
    {
        self.0
    }

    /// Borrows the bytes.
    pub fn inner(&self) -> (r: &Vec<u8>)
        ensures
            r@ == self@,
    {
        &self.0
    }
}

/// A schema-bound protocol method: a struct with one field per argument,
/// encode/decode symmetric against its `(class_id, method_id)` entry.
///
/// The spec functions fix the mathematical content: which field assignments
/// are encodable (`wf_view`), the exact argument octets of an encodable
/// assignment (`view_encoded`), and the assignment denoted by argument
/// octets (`parsed`). The executable operations are contracted against
/// them, so decoding what was encoded provably restores the assignment.
pub trait Method: View + Sized {
    /// The class id of the schema entry.
    spec fn spec_class_id() -> u16;

    /// The method id of the schema entry.
    spec fn spec_method_id() -> u16;

    /// The human-readable schema name.
    spec fn spec_name() -> Seq<char>;

    /// Which field assignments the encoder accepts (string length bounds).
    spec fn wf_view(v: Self::V) -> bool;

    /// The argument octets of an encodable field assignment.
    spec fn view_encoded(v: Self::V) -> Seq<u8>;

    /// The field assignment denoted by argument octets, if they parse;
    /// octets past the schema's last field are tolerated.
    spec fn parsed(d: Seq<u8>) -> Option<Self::V>;

    /// The class id of the schema entry.
    fn class_id() -> (r: u16)
        ensures
            r == Self::spec_class_id(),
    ;

    /// The method id of the schema entry.
    fn id() -> (r: u16)
        ensures
            r == Self::spec_method_id(),
    ;

    /// Decodes the method from a method frame: the frame must carry this
    /// method's ids, and the arguments must parse.
    fn decode(method_frame: MethodFrame) -> (r: Result<Self, AmqpError>)
        ensures
            !(method_frame.class_id == Self::spec_class_id() && method_frame.method_id
                == Self::spec_method_id()) ==> r == Err::<Self, AmqpError>(
                AmqpError::Protocol(crate::error::ProtocolErrorKind::UnexpectedClassMethodId),
            ),
            method_frame.class_id == Self::spec_class_id() && method_frame.method_id
                == Self::spec_method_id() ==> {
                &&& (Self::parsed(method_frame.arguments@) matches Some(v) ==> (r matches Ok(x)
                    && x@ == v))
                &&& (Self::parsed(method_frame.arguments@) is None ==> r == Err::<Self, AmqpError>(
                    AmqpError::Io,
                ))
            },
    ;

    /// Encodes the method's arguments.
    fn encode(&self) -> (r: Result<EncodedMethod, AmqpError>)
        ensures
            Self::wf_view(self@) ==> (r matches Ok(e) && e@ == Self::view_encoded(self@)),
            !Self::wf_view(self@) ==> (r matches Err(e) && e is Protocol),
    ;

    /// The schema name, e.g. `"connection.start"`.
    fn name(&self) -> (r: &'static str)
        ensures
            r@ == Self::spec_name(),
    ;

    /// Encodes the method as a METHOD-frame payload: class id, method id,
    /// then the arguments.
    fn encode_method_frame(&self) -> (r: Result<FramePayload, AmqpError>)
        ensures
            Self::wf_view(self@) ==> (r matches Ok(p) && p@ == u16_be(Self::spec_class_id())
                + u16_be(Self::spec_method_id()) + Self::view_encoded(self@)),
            !Self::wf_view(self@) ==> (r matches Err(e) && e is Protocol),
    {
        let arguments = match self.encode() {
            Ok(a) => a,
            Err(e) => {
                return Err(e);
            },
        };
        let frame = MethodFrame {
            class_id: Self::class_id(),
            method_id: Self::id(),
            arguments,
        };
        frame.encode()
    }

    /// Wraps the method in a METHOD frame on the given channel.
    fn to_frame(&self, channel: u16) -> (r: Result<Frame, AmqpError>)
        ensures
            Self::wf_view(self@) ==> (r matches Ok(f) && f.frame_type == FrameType::METHOD
                && f.channel == channel && f.payload@ == u16_be(Self::spec_class_id()) + u16_be(
                Self::spec_method_id(),
            ) + Self::view_encoded(self@)),
            !Self::wf_view(self@) ==> (r matches Err(e) && e is Protocol),
    {
        let payload = match self.encode_method_frame() {
            Ok(p) => p,
            Err(e) => {
                return Err(e);
            },
        };
        Ok(Frame { frame_type: FrameType::METHOD, channel, payload })
    }
}

} // verus!
