//! The typed argument codec: a writer that appends the nine AMQP field
//! types to a byte buffer and a reader that consumes them from one, both
//! carrying the bit accumulator that packs adjacent `bit` fields into
//! shared octets.

use vstd::prelude::*;

use crate::bits::{bit_at, flushed, pack_octet};
use crate::error::{AmqpError, ProtocolErrorKind};
use crate::wire::{
    longstr_bytes, parse_longstr, parse_shortstr, parse_u16, parse_u32, parse_u64, parse_u8,
    push_u16_be, push_u32_be, push_u64_be, read_u16_be, read_u32_be, read_u64_be, shortstr_bytes,
    u16_be, u32_be, u64_be,
};

verus! {

/// The abstract state of an [`ArgumentsWriter`]: the octets committed so
/// far, and the pending run of bits not yet flushed into an octet.
pub struct WriterModel {
    pub bytes: Seq<u8>,
    pub bits: Seq<bool>,
}

/// A writer for the typed argument section of a method or property payload.
///
/// Non-`bit` writes first flush any pending bits into a single octet;
/// consecutive `bit` writes share an octet, filled from its least
/// significant bit upward.
pub struct ArgumentsWriter {
    data: Vec<u8>,
    bits: Vec<bool>,
}

impl View for ArgumentsWriter {
    type V = WriterModel;

    closed spec fn view(&self) -> WriterModel {
        WriterModel { bytes: self.data@, bits: self.bits@ }
    }
}

impl ArgumentsWriter {
    /// A pending run never holds a full octet: the eighth bit flushes it.
    pub closed spec fn wf(&self) -> bool {
        self.bits@.len() <= 7
    }

    /// A fresh writer with nothing committed and no pending bits.
    pub fn new() -> (r: ArgumentsWriter)
        ensures
            r.wf(),
            r@.bytes == Seq::<u8>::empty(),
            r@.bits == Seq::<bool>::empty(),
    {
        let r = ArgumentsWriter { data: Vec::new(), bits: Vec::new() };
        proof {
            assert(r@.bytes =~= Seq::<u8>::empty());
            assert(r@.bits =~= Seq::<bool>::empty());
        }
        r
    }

    /// Flushes the pending bits (at most a full octet) into the buffer.
    fn flush_pending(&mut self)
        requires
            old(self)@.bits.len() <= 8,
        ensures
            final(self).wf(),
            final(self)@.bytes == old(self)@.bytes + flushed(old(self)@.bits),
            final(self)@.bits == Seq::<bool>::empty(),
    {
        if self.bits.len() > 0 {
            let mut octet: u8 = 0;
            let mut i: usize = 0;
            while i < self.bits.len()
                invariant
                    i <= self.bits@.len() <= 8,
                    octet == pack_octet(self.bits@.take(i as int)),
                decreases self.bits@.len() - i,
            {
                if self.bits[i] {
                    let mask: u8 = 1u8 << (i as u8);
                    octet = octet | mask;
                } else {
                    proof {
                        assert(octet | 0u8 == octet) by (bit_vector);
                    }
                }
                proof {
                    assert(self.bits@.take(i + 1).drop_last() =~= self.bits@.take(i as int));
                    assert(self.bits@.take(i + 1).last() == self.bits@[i as int]);
                }
                i = i + 1;
            }
            proof {
                assert(self.bits@.take(self.bits@.len() as int) =~= self.bits@);
            }
            self.data.push(octet);
            self.bits.clear();
            proof {
                assert(self@.bytes =~= old(self)@.bytes + flushed(old(self)@.bits));
            }
        } else {
            proof {
                assert(self@.bytes =~= old(self)@.bytes + flushed(old(self)@.bits));
            }
        }
    }

    /// Flushes any pending bits into one octet, as before every non-`bit`
    /// field and at finalization.
    pub fn flush_bits(&mut self) -> (r: Result<(), AmqpError>)
        requires
            old(self).wf(),
        ensures
            final(self).wf(),
            final(self)@.bytes == old(self)@.bytes + flushed(old(self)@.bits),
            final(self)@.bits == Seq::<bool>::empty(),
            r == Ok::<(), AmqpError>(()),
    {
        self.flush_pending();
        Ok(())
    }

    /// Appends one octet.
    pub fn write_octet(&mut self, data: &u8) -> (r: Result<(), AmqpError>)
        requires
            old(self).wf(),
        ensures
            final(self).wf(),
            final(self)@.bytes == old(self)@.bytes + flushed(old(self)@.bits) + seq![*data],
            final(self)@.bits == Seq::<bool>::empty(),
            r == Ok::<(), AmqpError>(()),
    {
        self.flush_pending();
        self.data.push(*data);
        proof {
            assert(self@.bytes =~= old(self)@.bytes + flushed(old(self)@.bits) + seq![*data]);
        }
        Ok(())
    }

    /// Appends a 16-bit integer, big-endian.
    pub fn write_short(&mut self, data: &u16) -> (r: Result<(), AmqpError>)
        requires
            old(self).wf(),
        ensures
            final(self).wf(),
            final(self)@.bytes == old(self)@.bytes + flushed(old(self)@.bits) + u16_be(*data),
            final(self)@.bits == Seq::<bool>::empty(),
            r == Ok::<(), AmqpError>(()),
    {
        self.flush_pending();
        push_u16_be(&mut self.data, *data);
        Ok(())
    }

    /// Appends a 32-bit integer, big-endian.
    pub fn write_long(&mut self, data: &u32) -> (r: Result<(), AmqpError>)
        requires
            old(self).wf(),
        ensures
            final(self).wf(),
            final(self)@.bytes == old(self)@.bytes + flushed(old(self)@.bits) + u32_be(*data),
            final(self)@.bits == Seq::<bool>::empty(),
            r == Ok::<(), AmqpError>(()),
    {
        self.flush_pending();
        push_u32_be(&mut self.data, *data);
        Ok(())
    }

    /// Appends a 64-bit integer, big-endian.
    pub fn write_longlong(&mut self, data: &u64) -> (r: Result<(), AmqpError>)
        requires
            old(self).wf(),
        ensures
            final(self).wf(),
            final(self)@.bytes == old(self)@.bytes + flushed(old(self)@.bits) + u64_be(*data),
            final(self)@.bits == Seq::<bool>::empty(),
            r == Ok::<(), AmqpError>(()),
    {
        self.flush_pending();
        push_u64_be(&mut self.data, *data);
        Ok(())
    }

    /// Appends a timestamp: a 64-bit integer, big-endian.
    pub fn write_timestamp(&mut self, data: &u64) -> (r: Result<(), AmqpError>)
        requires
            old(self).wf(),
        ensures
            final(self).wf(),
            final(self)@.bytes == old(self)@.bytes + flushed(old(self)@.bits) + u64_be(*data),
            final(self)@.bits == Seq::<bool>::empty(),
            r == Ok::<(), AmqpError>(()),
    {
        self.write_longlong(data)
    }

    /// Appends a short string: a one-octet length, then the bytes. A string
    /// longer than 255 bytes is refused and the writer is left unchanged.
    pub fn write_shortstr(&mut self, data: &Vec<u8>) -> (r: Result<(), AmqpError>)
        requires
            old(self).wf(),
        ensures
            final(self).wf(),
            data@.len() <= 255 ==> {
                &&& final(self)@.bytes == old(self)@.bytes + flushed(old(self)@.bits)
                    + shortstr_bytes(data@)
                &&& final(self)@.bits == Seq::<bool>::empty()
                &&& r == Ok::<(), AmqpError>(())
            },
            data@.len() > 255 ==> {
                &&& *final(self) == *old(self)
                &&& r == Err::<(), AmqpError>(
                    AmqpError::Protocol(ProtocolErrorKind::ShortStrOverflow),
                )
            },
    {
        if data.len() > 255 {
            return Err(AmqpError::Protocol(ProtocolErrorKind::ShortStrOverflow));
        }
        self.flush_pending();
        self.data.push(data.len() as u8);
        self.append_bytes(data);
        proof {
            assert(self@.bytes =~= old(self)@.bytes + flushed(old(self)@.bits) + shortstr_bytes(
                data@,
            ));
        }
        Ok(())
    }

    /// Appends a long string: a four-octet big-endian length, then the
    /// bytes. A string of `u32::MAX` bytes or more is refused and the writer
    /// is left unchanged.
    pub fn write_longstr(&mut self, data: &Vec<u8>) -> (r: Result<(), AmqpError>)
        requires
            old(self).wf(),
        ensures
            final(self).wf(),
            data@.len() <= 0xFFFFFFFF ==> {
                &&& final(self)@.bytes == old(self)@.bytes + flushed(old(self)@.bits)
                    + longstr_bytes(data@)
                &&& final(self)@.bits == Seq::<bool>::empty()
                &&& r == Ok::<(), AmqpError>(())
            },
            data@.len() > 0xFFFFFFFF ==> {
                &&& *final(self) == *old(self)
                &&& r == Err::<(), AmqpError>(
                    AmqpError::Protocol(ProtocolErrorKind::LongStrOverflow),
                )
            },
    {
        if data.len() > 0xFFFFFFFF {
            return Err(AmqpError::Protocol(ProtocolErrorKind::LongStrOverflow));
        }
        self.flush_pending();
        push_u32_be(&mut self.data, data.len() as u32);
        self.append_bytes(data);
        proof {
            assert(self@.bytes =~= old(self)@.bytes + flushed(old(self)@.bits) + longstr_bytes(
                data@,
            ));
        }
        Ok(())
    }

    /// Appends one `bit` field: it joins the pending run, and the run is
    /// flushed into an octet as soon as the eighth bit arrives.
    pub fn write_bit(&mut self, data: &bool) -> (r: Result<(), AmqpError>)
        requires
            old(self).wf(),
        ensures
            final(self).wf(),
            old(self)@.bits.len() < 7 ==> {
                &&& final(self)@.bytes == old(self)@.bytes
                &&& final(self)@.bits == old(self)@.bits.push(*data)
            },
            old(self)@.bits.len() == 7 ==> {
                &&& final(self)@.bytes == old(self)@.bytes + seq![
                    pack_octet(old(self)@.bits.push(*data)),
                ]
                &&& final(self)@.bits == Seq::<bool>::empty()
            },
            r == Ok::<(), AmqpError>(()),
    {
        self.bits.push(*data);
        if self.bits.len() == 8 {
            self.flush_pending();
        }
        Ok(())
    }

    /// Appends a complete field table; any pending bits are flushed first.
    /// An unencodable table is refused after that flush.
    pub fn write_table(&mut self, data: &crate::table::Table) -> (r: Result<(), AmqpError>)
        requires
            old(self).wf(),
        ensures
            final(self).wf(),
            final(self)@.bits == Seq::<bool>::empty(),
            crate::table::table_wf(data@) ==> r == Ok::<(), AmqpError>(()) && final(self)@.bytes
                == old(self)@.bytes + flushed(old(self)@.bits) + crate::table::table_bytes(data@),
            !crate::table::table_wf(data@) ==> (r matches Err(e) && e is Protocol)
                && final(self)@.bytes == old(self)@.bytes + flushed(old(self)@.bits),
    {
        self.flush_pending();
        crate::table::encode_table(&mut self.data, data)
    }

    /// Finalizes the writer: flushes any trailing bits and hands back the
    /// whole encoded buffer.
    pub fn as_bytes(self) -> (r: Vec<u8>)
        requires
            self.wf(),
        ensures
            r@ == self@.bytes + flushed(self@.bits),
    {
        let mut w = self;
        w.flush_pending();
        w.data
    }

    /// Appends raw bytes; used beneath the string writers after their length
    /// prefix is in place.
    pub(crate) fn append_bytes(&mut self, data: &Vec<u8>)
        ensures
            final(self)@.bytes == old(self)@.bytes + data@,
            final(self)@.bits == old(self)@.bits,
    {
        let mut i: usize = 0;
        while i < data.len()
            invariant
                i <= data@.len(),
                self@.bytes == old(self)@.bytes + data@.take(i as int),
                self@.bits == old(self)@.bits,
            decreases data@.len() - i,
        {
            self.data.push(data[i]);
            proof {
                assert(self@.bytes =~= old(self)@.bytes + data@.take(i + 1));
            }
            i = i + 1;
        }
        proof {
            assert(data@.take(data@.len() as int) =~= data@);
        }
    }
}

/// The abstract state of an [`ArgumentsReader`]: the underlying octets, the
/// cursor position, and the partially consumed packed octet.
pub struct ReaderModel {
    pub bytes: Seq<u8>,
    pub pos: int,
    pub pending: u8,
    pub bit: int,
}

/// A reader for the typed argument section of a method or property payload.
///
/// Every non-`bit` read discards any partially consumed packed octet;
/// consecutive `bit` reads consume one octet bit by bit, least significant
/// bit first.
pub struct ArgumentsReader {
    data: Vec<u8>,
    pos: usize,
    byte: u8,
    current_bit: u8,
}

impl View for ArgumentsReader {
    type V = ReaderModel;

    closed spec fn view(&self) -> ReaderModel {
        ReaderModel {
            bytes: self.data@,
            pos: self.pos as int,
            pending: self.byte,
            bit: self.current_bit as int,
        }
    }
}

impl ArgumentsReader {
    /// The cursor stays within the buffer and the bit index within an octet.
    pub closed spec fn wf(&self) -> bool {
        self.pos <= self.data@.len() && self.current_bit <= 8
    }

    /// A fresh reader over the given octets.
    pub fn new(data: Vec<u8>) -> (r: ArgumentsReader)
        ensures
            r.wf(),
            r@.bytes == data@,
            r@.pos == 0,
            r@.bit == 0,
    {
        ArgumentsReader { data, pos: 0, byte: 0, current_bit: 0 }
    }

    /// Reads one octet; discards any pending bits.
    pub fn read_octet(&mut self) -> (r: Result<u8, AmqpError>)
        requires
            old(self).wf(),
        ensures
            final(self).wf(),
            final(self)@.bytes == old(self)@.bytes,
            final(self)@.bit == 0,
            parse_u8(old(self)@.bytes, old(self)@.pos) matches Some((b, q)) ==> r == Ok::<
                u8,
                AmqpError,
            >(b) && final(self)@.pos == q,
            parse_u8(old(self)@.bytes, old(self)@.pos) is None ==> r == Err::<u8, AmqpError>(
                AmqpError::Io,
            ) && final(self)@.pos == old(self)@.pos,
    {
        self.current_bit = 0;
        if self.pos < self.data.len() {
            let b = self.data[self.pos];
            self.pos = self.pos + 1;
            Ok(b)
        } else {
            Err(AmqpError::Io)
        }
    }

    /// Reads a big-endian 16-bit integer; discards any pending bits.
    pub fn read_short(&mut self) -> (r: Result<u16, AmqpError>)
        requires
            old(self).wf(),
        ensures
            final(self).wf(),
            final(self)@.bytes == old(self)@.bytes,
            final(self)@.bit == 0,
            parse_u16(old(self)@.bytes, old(self)@.pos) matches Some((v, q)) ==> r == Ok::<
                u16,
                AmqpError,
            >(v) && final(self)@.pos == q,
            parse_u16(old(self)@.bytes, old(self)@.pos) is None ==> r == Err::<u16, AmqpError>(
                AmqpError::Io,
            ) && final(self)@.pos == old(self)@.pos,
    {
        self.current_bit = 0;
        let n = self.data.len();
        if n - self.pos >= 2 {
            let v = read_u16_be(&self.data, self.pos);
            self.pos = self.pos + 2;
            Ok(v)
        } else {
            Err(AmqpError::Io)
        }
    }

    /// Reads a big-endian 32-bit integer; discards any pending bits.
    pub fn read_long(&mut self) -> (r: Result<u32, AmqpError>)
        requires
            old(self).wf(),
        ensures
            final(self).wf(),
            final(self)@.bytes == old(self)@.bytes,
            final(self)@.bit == 0,
            parse_u32(old(self)@.bytes, old(self)@.pos) matches Some((v, q)) ==> r == Ok::<
                u32,
                AmqpError,
            >(v) && final(self)@.pos == q,
            parse_u32(old(self)@.bytes, old(self)@.pos) is None ==> r == Err::<u32, AmqpError>(
                AmqpError::Io,
            ) && final(self)@.pos == old(self)@.pos,
    {
        self.current_bit = 0;
        let n = self.data.len();
        if n - self.pos >= 4 {
            let v = read_u32_be(&self.data, self.pos);
            self.pos = self.pos + 4;
            Ok(v)
        } else {
            Err(AmqpError::Io)
        }
    }

    /// Reads a big-endian 64-bit integer; discards any pending bits.
    pub fn read_longlong(&mut self) -> (r: Result<u64, AmqpError>)
        requires
            old(self).wf(),
        ensures
            final(self).wf(),
            final(self)@.bytes == old(self)@.bytes,
            final(self)@.bit == 0,
            parse_u64(old(self)@.bytes, old(self)@.pos) matches Some((v, q)) ==> r == Ok::<
                u64,
                AmqpError,
            >(v) && final(self)@.pos == q,
            parse_u64(old(self)@.bytes, old(self)@.pos) is None ==> r == Err::<u64, AmqpError>(
                AmqpError::Io,
            ) && final(self)@.pos == old(self)@.pos,
    {
        self.current_bit = 0;
        let n = self.data.len();
        if n - self.pos >= 8 {
            let v = read_u64_be(&self.data, self.pos);
            self.pos = self.pos + 8;
            Ok(v)
        } else {
            Err(AmqpError::Io)
        }
    }

    /// Reads a timestamp: a big-endian 64-bit integer.
    pub fn read_timestamp(&mut self) -> (r: Result<u64, AmqpError>)
        requires
            old(self).wf(),
        ensures
            final(self).wf(),
            final(self)@.bytes == old(self)@.bytes,
            final(self)@.bit == 0,
            parse_u64(old(self)@.bytes, old(self)@.pos) matches Some((v, q)) ==> r == Ok::<
                u64,
                AmqpError,
            >(v) && final(self)@.pos == q,
            parse_u64(old(self)@.bytes, old(self)@.pos) is None ==> r == Err::<u64, AmqpError>(
                AmqpError::Io,
            ) && final(self)@.pos == old(self)@.pos,
    {
        self.read_longlong()
    }

    /// Reads a short string: a one-octet length, then exactly that many
    /// bytes; discards any pending bits.
    pub fn read_shortstr(&mut self) -> (r: Result<Vec<u8>, AmqpError>)
        requires
            old(self).wf(),
        ensures
            final(self).wf(),
            final(self)@.bytes == old(self)@.bytes,
            final(self)@.bit == 0,
            parse_shortstr(old(self)@.bytes, old(self)@.pos) matches Some((s, q)) ==> (r matches Ok(
                v,
            ) && v@ == s && final(self)@.pos == q),
            parse_shortstr(old(self)@.bytes, old(self)@.pos) is None ==> r == Err::<
                Vec<u8>,
                AmqpError,
            >(AmqpError::Io) && final(self)@.pos == old(self)@.pos,
    {
        self.current_bit = 0;
        let n = self.data.len();
        if n - self.pos < 1 {
            return Err(AmqpError::Io);
        }
        let sl = self.data[self.pos] as usize;
        if n - (self.pos + 1) < sl {
            return Err(AmqpError::Io);
        }
        let out = self.take_bytes(1, sl);
        Ok(out)
    }

    /// Reads a long string: a four-octet big-endian length, then exactly
    /// that many bytes; discards any pending bits.
    pub fn read_longstr(&mut self) -> (r: Result<Vec<u8>, AmqpError>)
        requires
            old(self).wf(),
        ensures
            final(self).wf(),
            final(self)@.bytes == old(self)@.bytes,
            final(self)@.bit == 0,
            parse_longstr(old(self)@.bytes, old(self)@.pos) matches Some((s, q)) ==> (r matches Ok(
                v,
            ) && v@ == s && final(self)@.pos == q),
            parse_longstr(old(self)@.bytes, old(self)@.pos) is None ==> r == Err::<
                Vec<u8>,
                AmqpError,
            >(AmqpError::Io) && final(self)@.pos == old(self)@.pos,
    {
        self.current_bit = 0;
        let n = self.data.len();
        if n - self.pos < 4 {
            return Err(AmqpError::Io);
        }
        let sl32 = read_u32_be(&self.data, self.pos);
        let sl = sl32 as usize;
        if n - (self.pos + 4) < sl {
            return Err(AmqpError::Io);
        }
        let out = self.take_bytes(4, sl);
        Ok(out)
    }

    /// Reads one `bit` field, refilling the packed octet from the stream at
    /// the start of a run and after its eighth bit.
    pub fn read_bit(&mut self) -> (r: Result<bool, AmqpError>)
        requires
            old(self).wf(),
        ensures
            final(self).wf(),
            final(self)@.bytes == old(self)@.bytes,
            (old(self)@.bit == 0 || old(self)@.bit == 8) ==> {
                &&& (parse_u8(old(self)@.bytes, old(self)@.pos) matches Some((o, q)) ==> r == Ok::<
                    bool,
                    AmqpError,
                >(bit_at(o, 0)) && final(self)@.pos == q && final(self)@.pending == o
                    && final(self)@.bit == 1)
                &&& (parse_u8(old(self)@.bytes, old(self)@.pos) is None ==> r == Err::<
                    bool,
                    AmqpError,
                >(AmqpError::Io) && final(self)@.pos == old(self)@.pos && final(self)@.bit == 0)
            },
            1 <= old(self)@.bit <= 7 ==> r == Ok::<bool, AmqpError>(
                bit_at(old(self)@.pending, old(self)@.bit as u8),
            ) && final(self)@.pos == old(self)@.pos && final(self)@.pending == old(self)@.pending
                && final(self)@.bit == old(self)@.bit + 1,
    {
        if self.current_bit == 0 || self.current_bit == 8 {
            self.current_bit = 0;
            if self.pos < self.data.len() {
                self.byte = self.data[self.pos];
                self.pos = self.pos + 1;
            } else {
                return Err(AmqpError::Io);
            }
        }
        let mask: u8 = 1u8 << self.current_bit;
        let bit = self.byte & mask != 0;
        self.current_bit = self.current_bit + 1;
        Ok(bit)
    }

    /// Reads a complete field table; discards any pending bits.
    pub fn read_table(&mut self) -> (r: Result<crate::table::Table, AmqpError>)
        requires
            old(self).wf(),
        ensures
            final(self).wf(),
            final(self)@.bytes == old(self)@.bytes,
            final(self)@.bit == 0,
            crate::table::table_parsed(
                old(self)@.bytes.subrange(old(self)@.pos, old(self)@.bytes.len() as int),
            ) matches Some(wc) ==> (r matches Ok(t) && t@ == wc.0
                && final(self)@.pos == old(self)@.pos + wc.1),
            crate::table::table_parsed(
                old(self)@.bytes.subrange(old(self)@.pos, old(self)@.bytes.len() as int),
            ) is None ==> (r matches Err(_) && final(self)@.pos == old(self)@.pos),
    {
        self.current_bit = 0;
        let n = self.data.len();
        let tail = crate::wire::copy_range(&self.data, self.pos, n - self.pos);
        match crate::table::decode_table(&tail) {
            Ok((t, c)) => {
                self.pos = self.pos + c;
                Ok(t)
            },
            Err(e) => Err(e),
        }
    }

    /// Copies `count` bytes that start `skip` bytes past the cursor, and
    /// moves the cursor past them; used beneath the string readers once
    /// their length prefix is known.
    fn take_bytes(&mut self, skip: usize, count: usize) -> (r: Vec<u8>)
        requires
            old(self).wf(),
            old(self)@.pos + skip + count <= old(self)@.bytes.len(),
        ensures
            final(self).wf(),
            final(self)@.bytes == old(self)@.bytes,
            final(self)@.bit == old(self)@.bit,
            final(self)@.pos == old(self)@.pos + skip + count,
            r@ == old(self)@.bytes.subrange(
                old(self)@.pos + skip,
                old(self)@.pos + skip + count,
            ),
    {
        let n: usize = self.data.len();
        let start = self.pos + skip;
        let mut out: Vec<u8> = Vec::new();
        let mut i: usize = 0;
        while i < count
            invariant
                i <= count,
                self.data@.len() <= usize::MAX,
                start + count <= self.data@.len(),
                start == old(self)@.pos + skip,
                self@ == old(self)@,
                out@ == self.data@.subrange(start as int, start + i),
            decreases count - i,
        {
            out.push(self.data[start + i]);
            proof {
                assert(out@ =~= self.data@.subrange(start as int, start + i + 1));
            }
            i = i + 1;
        }
        self.pos = start + count;
        out
    }
}

} // verus!
