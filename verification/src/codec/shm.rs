//! The wire format of the descriptors of a shared-memory buffer.

use vstd::prelude::*;
use crate::buffer::SharedMemoryBufInfo;
use crate::chunk::ChunkDescriptor;
use crate::codec::zint::{
    decoded_u32, decoded_u64, encoded_u32, encoded_u64, lemma_u32_roundtrip, lemma_u64_roundtrip,
    read_u32_at, read_u64_at, write_u32, write_u64, DidntRead,
};
use crate::header::HeaderDescriptor;
use crate::watchdog::descriptor::Descriptor;

verus! {

/// The codec of the protocol's version 0x08.
#[derive(Clone, Copy, Debug, Default, PartialEq, Eq)]
pub struct Zenoh080;

impl Zenoh080 {
    pub fn new() -> (codec: Self) {
        Zenoh080
    }
}

/// Bytes under reading: all bytes, and the position of the next one.
pub struct Reader<'a> {
    bytes: &'a [u8],
    pos: usize,
}

impl<'a> Reader<'a> {
    /// All bytes, read or not.
    pub closed spec fn source(&self) -> Seq<u8> {
        self.bytes@
    }

    /// The number of bytes that were read.
    pub closed spec fn position(&self) -> nat {
        self.pos as nat
    }

    /// The bytes that are still to be read.
    pub open spec fn remaining(&self) -> Seq<u8> {
        self.source().skip(self.position() as int)
    }

    pub open spec fn wf(&self) -> bool {
        self.position() <= self.source().len()
    }

    /// A reader at the start of `bytes`.
    pub fn new(bytes: &'a [u8]) -> (reader: Self)
        ensures
            reader.wf(),
            reader.source() == bytes@,
            reader.position() == 0,
            reader.remaining() == bytes@,
    {
        let reader = Reader { bytes, pos: 0 };
        assert(bytes@.skip(0) =~= bytes@);
        reader
    }

    /// The position of the reader, to come back to.
    pub fn mark(&self) -> (pos: usize)
        ensures
            pos == self.position(),
    {
        self.pos
    }

    /// Goes back to a position that the reader was at.
    pub fn rewind(&mut self, pos: usize)
        requires
            pos <= old(self).position(),
        ensures
            final(self).source() == old(self).source(),
            final(self).position() == pos,
    {
        self.pos = pos;
    }

    /// The number of bytes that are still to be read.
    pub fn len(&self) -> (len: usize)
        requires
            self.wf(),
        ensures
            len == self.remaining().len(),
    {
        self.bytes.len() - self.pos
    }

    /// Takes what a reading function found at the position of the reader:
    /// moves behind it, or stays where nothing was found.
    fn take<T>(&mut self, found: Option<(T, usize)>) -> (result: Result<T, DidntRead>)
        requires
            old(self).wf(),
            found is Some ==> old(self).pos <= found->Some_0.1 <= old(self).bytes@.len(),
        ensures
            final(self).wf(),
            final(self).source() == old(self).source(),
            found is None ==> final(self).position() == old(self).position(),
            found is Some ==> final(self).position() == found->Some_0.1,
            found is None ==> result is Err && final(self).remaining() == old(self).remaining(),
            found is Some ==> result == Ok::<T, DidntRead>(found->Some_0.0) && final(self).remaining() == old(self).remaining().skip(found->Some_0.1 - old(self).pos) && found->Some_0.1 - old(self).pos <= old(self).remaining().len(),
    {
        match found {
            None => Err(DidntRead),
            Some((value, end)) => {
                proof {
                    assert(self.bytes@.skip(end as int) =~= self.bytes@.skip(self.pos as int).skip(
                        end - self.pos,
                    ));
                }
                self.pos = end;
                Ok(value)
            },
        }
    }
}

/// Writing of messages of one type.
pub trait WCodec<Message> {
    /// The bytes of a message.
    spec fn encoding(message: Message) -> Seq<u8>;

    /// Appends the bytes of `x` to `writer`.
    fn write(self, writer: &mut Vec<u8>, x: Message)
        ensures
            final(writer)@ == old(writer)@ + Self::encoding(x),
    ;
}

/// Reading of messages of one type.
pub trait RCodec<Message>: Sized {
    /// The message at the front of `bytes` and the number of bytes it
    /// takes, or `None` where there is no message.
    spec fn decoding(bytes: Seq<u8>) -> Option<(Message, nat)>;

    /// Reads a message and moves the reader behind it. Where there is no
    /// message, reading fails and the reader stays where it was.
    fn read(self, reader: &mut Reader) -> (result: Result<Message, DidntRead>)
        requires
            old(reader).wf(),
        ensures
            final(reader).wf(),
            final(reader).source() == old(reader).source(),
            final(reader).position() == old(reader).position() + (match Self::decoding(
                old(reader).remaining(),
            ) {
                Some((_, taken)) => taken,
                None => 0,
            }),
            match Self::decoding(old(reader).remaining()) {
                Some((message, taken)) => result == Ok::<Message, DidntRead>(message) && final(reader).remaining() == old(reader).remaining().skip(taken as int) && taken <= old(reader).remaining().len(),
                None => result is Err && final(reader).remaining() == old(reader).remaining(),
            },
    ;
}

impl WCodec<u64> for Zenoh080 {
    open spec fn encoding(message: u64) -> Seq<u8> {
        encoded_u64(message)
    }

    fn write(self, writer: &mut Vec<u8>, x: u64) {
        write_u64(writer, x)
    }
}

impl WCodec<u32> for Zenoh080 {
    open spec fn encoding(message: u32) -> Seq<u8> {
        encoded_u32(message)
    }

    fn write(self, writer: &mut Vec<u8>, x: u32) {
        write_u32(writer, x)
    }
}

impl WCodec<u8> for Zenoh080 {
    open spec fn encoding(message: u8) -> Seq<u8> {
        seq![message]
    }

    fn write(self, writer: &mut Vec<u8>, x: u8) {
        writer.push(x);
        assert(writer@ =~= old(writer)@ + seq![x]);
    }
}

impl RCodec<u64> for Zenoh080 {
    open spec fn decoding(bytes: Seq<u8>) -> Option<(u64, nat)> {
        decoded_u64(bytes)
    }

    fn read(self, reader: &mut Reader) -> (result: Result<u64, DidntRead>) {
        let found = read_u64_at(reader.bytes, reader.pos);
        reader.take(found)
    }
}

impl RCodec<u32> for Zenoh080 {
    open spec fn decoding(bytes: Seq<u8>) -> Option<(u32, nat)> {
        decoded_u32(bytes)
    }

    fn read(self, reader: &mut Reader) -> (result: Result<u32, DidntRead>) {
        let found = read_u32_at(reader.bytes, reader.pos);
        reader.take(found)
    }
}

/// The byte at the front of `bytes`.
pub open spec fn decoded_u8(bytes: Seq<u8>) -> Option<(u8, nat)> {
    if bytes.len() == 0 {
        None
    } else {
        Some((bytes[0], 1))
    }
}

impl RCodec<u8> for Zenoh080 {
    open spec fn decoding(bytes: Seq<u8>) -> Option<(u8, nat)> {
        decoded_u8(bytes)
    }

    fn read(self, reader: &mut Reader) -> (result: Result<u8, DidntRead>) {
        let found = if reader.pos < reader.bytes.len() {
            assert(reader.remaining()[0] == reader.bytes@[reader.pos as int]);
            Some((reader.bytes[reader.pos], reader.pos + 1))
        } else {
            None
        };
        reader.take(found)
    }
}

/// A watchdog descriptor on the wire: the segment id, then the word index
/// and bit position in one field.
pub open spec fn encoded_descriptor(x: Descriptor) -> Seq<u8> {
    encoded_u32(x.id) + encoded_u32(x.index_and_bitpos)
}

/// The watchdog descriptor at the front of `bytes`, and its length.
pub open spec fn decoded_descriptor(bytes: Seq<u8>) -> Option<(Descriptor, nat)> {
    match decoded_u32(bytes) {
        None => None,
        Some((id, first)) => match decoded_u32(bytes.skip(first as int)) {
            None => None,
            Some((index_and_bitpos, second)) => Some(
                (Descriptor { id, index_and_bitpos }, first + second),
            ),
        },
    }
}

/// A header descriptor on the wire: the segment id, then the index.
pub open spec fn encoded_header_descriptor(x: HeaderDescriptor) -> Seq<u8> {
    encoded_u32(x.id) + encoded_u32(x.index)
}

/// The header descriptor at the front of `bytes`, and its length.
pub open spec fn decoded_header_descriptor(bytes: Seq<u8>) -> Option<(HeaderDescriptor, nat)> {
    match decoded_u32(bytes) {
        None => None,
        Some((id, first)) => match decoded_u32(bytes.skip(first as int)) {
            None => None,
            Some((index, second)) => Some((HeaderDescriptor { id, index }, first + second)),
        },
    }
}

/// A chunk descriptor on the wire: the segment, the chunk, the length.
pub open spec fn encoded_chunk_descriptor(x: ChunkDescriptor) -> Seq<u8> {
    encoded_u32(x.segment) + encoded_u32(x.chunk) + encoded_u32(x.len)
}

/// The chunk descriptor at the front of `bytes`, and its length.
pub open spec fn decoded_chunk_descriptor(bytes: Seq<u8>) -> Option<(ChunkDescriptor, nat)> {
    match decoded_u32(bytes) {
        None => None,
        Some((segment, first)) => match decoded_u32(bytes.skip(first as int)) {
            None => None,
            Some((chunk, second)) => match decoded_u32(bytes.skip(first as int).skip(second as int)) {
                None => None,
                Some((len, third)) => Some(
                    (ChunkDescriptor { segment, chunk, len }, first + second + third),
                ),
            },
        },
    }
}

/// The descriptor of a buffer on the wire: the watchdog descriptor, the
/// header descriptor, the generation, the chunk descriptor, the protocol
/// and the length of the data.
pub open spec fn encoded_buf_info(x: SharedMemoryBufInfo) -> Seq<u8> {
    encoded_descriptor(x.watchdog_descriptor) + encoded_header_descriptor(x.header_descriptor)
        + encoded_u32(x.generation) + encoded_chunk_descriptor(x.data_descriptor) + encoded_u32(
        x.shm_protocol,
    ) + encoded_u64(x.data_len)
}

/// The descriptor of a buffer at the front of `bytes`, and its length.
pub open spec fn decoded_buf_info(bytes: Seq<u8>) -> Option<(SharedMemoryBufInfo, nat)> {
    match decoded_descriptor(bytes) {
        None => None,
        Some((watchdog_descriptor, n1)) => match decoded_header_descriptor(bytes.skip(n1 as int)) {
            None => None,
            Some((header_descriptor, n2)) => match decoded_u32(bytes.skip((n1 + n2) as int)) {
                None => None,
                Some((generation, n3)) => match decoded_chunk_descriptor(
                    bytes.skip((n1 + n2 + n3) as int),
                ) {
                    None => None,
                    Some((data_descriptor, n4)) => match decoded_u32(
                        bytes.skip((n1 + n2 + n3 + n4) as int),
                    ) {
                        None => None,
                        Some((shm_protocol, n5)) => match decoded_u64(
                            bytes.skip((n1 + n2 + n3 + n4 + n5) as int),
                        ) {
                            None => None,
                            Some((data_len, n6)) => Some(
                                (
                                    SharedMemoryBufInfo {
                                        watchdog_descriptor,
                                        header_descriptor,
                                        generation,
                                        data_descriptor,
                                        shm_protocol,
                                        data_len,
                                    },
                                    n1 + n2 + n3 + n4 + n5 + n6,
                                ),
                            ),
                        },
                    },
                },
            },
        },
    }
}

/// Skipping twice is skipping once by the sum.
pub proof fn lemma_skip_skip(bytes: Seq<u8>, first: nat, second: nat)
    requires
        first + second <= bytes.len(),
    ensures
        bytes.skip(first as int).skip(second as int) == bytes.skip((first + second) as int),
{
    assert(bytes.skip(first as int).skip(second as int) =~= bytes.skip((first + second) as int));
}

/// What follows a prefix is what is left when the prefix is skipped.
pub proof fn lemma_skip_prefix(prefix: Seq<u8>, rest: Seq<u8>)
    ensures
        (prefix + rest).skip(prefix.len() as int) == rest,
{
    assert((prefix + rest).skip(prefix.len() as int) =~= rest);
}

impl WCodec<&Descriptor> for Zenoh080 {
    open spec fn encoding(message: &Descriptor) -> Seq<u8> {
        encoded_descriptor(*message)
    }

    fn write(self, writer: &mut Vec<u8>, x: &Descriptor) {
        write_u32(writer, x.id);
        write_u32(writer, x.index_and_bitpos);
        assert(writer@ =~= old(writer)@ + encoded_descriptor(*x));
    }
}

impl WCodec<&HeaderDescriptor> for Zenoh080 {
    open spec fn encoding(message: &HeaderDescriptor) -> Seq<u8> {
        encoded_header_descriptor(*message)
    }

    fn write(self, writer: &mut Vec<u8>, x: &HeaderDescriptor) {
        write_u32(writer, x.id);
        write_u32(writer, x.index);
        assert(writer@ =~= old(writer)@ + encoded_header_descriptor(*x));
    }
}

impl WCodec<&ChunkDescriptor> for Zenoh080 {
    open spec fn encoding(message: &ChunkDescriptor) -> Seq<u8> {
        encoded_chunk_descriptor(*message)
    }

    fn write(self, writer: &mut Vec<u8>, x: &ChunkDescriptor) {
        write_u32(writer, x.segment);
        write_u32(writer, x.chunk);
        write_u32(writer, x.len);
        assert(writer@ =~= old(writer)@ + encoded_chunk_descriptor(*x));
    }
}

impl WCodec<&SharedMemoryBufInfo> for Zenoh080 {
    open spec fn encoding(message: &SharedMemoryBufInfo) -> Seq<u8> {
        encoded_buf_info(*message)
    }

    fn write(self, writer: &mut Vec<u8>, x: &SharedMemoryBufInfo) {
        self.write(writer, &x.watchdog_descriptor);
        self.write(writer, &x.header_descriptor);
        self.write(writer, x.generation);
        self.write(writer, &x.data_descriptor);
        self.write(writer, x.shm_protocol);
        self.write(writer, x.data_len);
        assert(writer@ =~= old(writer)@ + encoded_buf_info(*x));
    }
}

impl RCodec<Descriptor> for Zenoh080 {
    open spec fn decoding(bytes: Seq<u8>) -> Option<(Descriptor, nat)> {
        decoded_descriptor(bytes)
    }

    fn read(self, reader: &mut Reader) -> (result: Result<Descriptor, DidntRead>) {
        let start = reader.pos;
        let ghost all = reader.remaining();
        let id: u32 = match self.read(reader) {
            Ok(id) => id,
            Err(e) => {
                return Err(e);
            },
        };
        let ghost first = decoded_u32(all)->Some_0.1;
        let index_and_bitpos: u32 = match self.read(reader) {
            Ok(index_and_bitpos) => index_and_bitpos,
            Err(e) => {
                reader.pos = start;
                return Err(e);
            },
        };
        proof {
            lemma_skip_skip(all, first, decoded_u32(all.skip(first as int))->Some_0.1);
        }
        Ok(Descriptor { id, index_and_bitpos })
    }
}

impl RCodec<HeaderDescriptor> for Zenoh080 {
    open spec fn decoding(bytes: Seq<u8>) -> Option<(HeaderDescriptor, nat)> {
        decoded_header_descriptor(bytes)
    }

    fn read(self, reader: &mut Reader) -> (result: Result<HeaderDescriptor, DidntRead>) {
        let start = reader.pos;
        let ghost all = reader.remaining();
        let id: u32 = match self.read(reader) {
            Ok(id) => id,
            Err(e) => {
                return Err(e);
            },
        };
        let ghost first = decoded_u32(all)->Some_0.1;
        let index: u32 = match self.read(reader) {
            Ok(index) => index,
            Err(e) => {
                reader.pos = start;
                return Err(e);
            },
        };
        proof {
            lemma_skip_skip(all, first, decoded_u32(all.skip(first as int))->Some_0.1);
        }
        Ok(HeaderDescriptor { id, index })
    }
}

impl RCodec<ChunkDescriptor> for Zenoh080 {
    open spec fn decoding(bytes: Seq<u8>) -> Option<(ChunkDescriptor, nat)> {
        decoded_chunk_descriptor(bytes)
    }

    fn read(self, reader: &mut Reader) -> (result: Result<ChunkDescriptor, DidntRead>) {
        let start = reader.pos;
        let ghost all = reader.remaining();
        let segment: u32 = match self.read(reader) {
            Ok(segment) => segment,
            Err(e) => {
                return Err(e);
            },
        };
        let ghost first = decoded_u32(all)->Some_0.1;
        let chunk: u32 = match self.read(reader) {
            Ok(chunk) => chunk,
            Err(e) => {
                reader.pos = start;
                return Err(e);
            },
        };
        let ghost second = decoded_u32(all.skip(first as int))->Some_0.1;
        let len: u32 = match self.read(reader) {
            Ok(len) => len,
            Err(e) => {
                reader.pos = start;
                return Err(e);
            },
        };
        proof {
            let third = decoded_u32(all.skip(first as int).skip(second as int))->Some_0.1;
            lemma_skip_skip(all, first, second);
            lemma_skip_skip(all, first + second, third);
        }
        Ok(ChunkDescriptor { segment, chunk, len })
    }
}

impl RCodec<SharedMemoryBufInfo> for Zenoh080 {
    open spec fn decoding(bytes: Seq<u8>) -> Option<(SharedMemoryBufInfo, nat)> {
        decoded_buf_info(bytes)
    }

    fn read(self, reader: &mut Reader) -> (result: Result<SharedMemoryBufInfo, DidntRead>) {
        let start = reader.pos;
        let ghost all = reader.remaining();
        let watchdog_descriptor: Descriptor = match self.read(reader) {
            Ok(watchdog_descriptor) => watchdog_descriptor,
            Err(e) => {
                return Err(e);
            },
        };
        let ghost n1 = decoded_descriptor(all)->Some_0.1;
        let header_descriptor: HeaderDescriptor = match self.read(reader) {
            Ok(header_descriptor) => header_descriptor,
            Err(e) => {
                reader.pos = start;
                return Err(e);
            },
        };
        let ghost n2 = decoded_header_descriptor(all.skip(n1 as int))->Some_0.1;
        proof {
            lemma_skip_skip(all, n1, n2);
        }
        let generation: u32 = match self.read(reader) {
            Ok(generation) => generation,
            Err(e) => {
                reader.pos = start;
                return Err(e);
            },
        };
        let ghost n3 = decoded_u32(all.skip((n1 + n2) as int))->Some_0.1;
        proof {
            lemma_skip_skip(all, n1 + n2, n3);
        }
        let data_descriptor: ChunkDescriptor = match self.read(reader) {
            Ok(data_descriptor) => data_descriptor,
            Err(e) => {
                reader.pos = start;
                return Err(e);
            },
        };
        let ghost n4 = decoded_chunk_descriptor(all.skip((n1 + n2 + n3) as int))->Some_0.1;
        proof {
            lemma_skip_skip(all, n1 + n2 + n3, n4);
        }
        let shm_protocol: u32 = match self.read(reader) {
            Ok(shm_protocol) => shm_protocol,
            Err(e) => {
                reader.pos = start;
                return Err(e);
            },
        };
        let ghost n5 = decoded_u32(all.skip((n1 + n2 + n3 + n4) as int))->Some_0.1;
        proof {
            lemma_skip_skip(all, n1 + n2 + n3 + n4, n5);
        }
        let data_len: u64 = match self.read(reader) {
            Ok(data_len) => data_len,
            Err(e) => {
                reader.pos = start;
                return Err(e);
            },
        };
        proof {
            let n6 = decoded_u64(all.skip((n1 + n2 + n3 + n4 + n5) as int))->Some_0.1;
            lemma_skip_skip(all, n1 + n2 + n3 + n4 + n5, n6);
        }
        Ok(
            SharedMemoryBufInfo::new(
                data_descriptor,
                shm_protocol,
                data_len,
                watchdog_descriptor,
                header_descriptor,
                generation,
            ),
        )
    }
}

/// A watchdog descriptor is read back as it was written, whatever follows
/// it.
pub proof fn lemma_descriptor_roundtrip(x: Descriptor, rest: Seq<u8>)
    ensures
        decoded_descriptor(encoded_descriptor(x) + rest) == Some(
            (x, encoded_descriptor(x).len()),
        ),
{
    let a = encoded_u32(x.id);
    let b = encoded_u32(x.index_and_bitpos);
    let bytes = encoded_descriptor(x) + rest;
    assert(bytes =~= a + (b + rest));
    lemma_u32_roundtrip(x.id, b + rest);
    lemma_skip_prefix(a, b + rest);
    lemma_u32_roundtrip(x.index_and_bitpos, rest);
}

/// A header descriptor is read back as it was written, whatever follows
/// it.
pub proof fn lemma_header_descriptor_roundtrip(x: HeaderDescriptor, rest: Seq<u8>)
    ensures
        decoded_header_descriptor(encoded_header_descriptor(x) + rest) == Some(
            (x, encoded_header_descriptor(x).len()),
        ),
{
    let a = encoded_u32(x.id);
    let b = encoded_u32(x.index);
    let bytes = encoded_header_descriptor(x) + rest;
    assert(bytes =~= a + (b + rest));
    lemma_u32_roundtrip(x.id, b + rest);
    lemma_skip_prefix(a, b + rest);
    lemma_u32_roundtrip(x.index, rest);
}

/// A chunk descriptor is read back as it was written, whatever follows
/// it.
pub proof fn lemma_chunk_descriptor_roundtrip(x: ChunkDescriptor, rest: Seq<u8>)
    ensures
        decoded_chunk_descriptor(encoded_chunk_descriptor(x) + rest) == Some(
            (x, encoded_chunk_descriptor(x).len()),
        ),
{
    let a = encoded_u32(x.segment);
    let b = encoded_u32(x.chunk);
    let c = encoded_u32(x.len);
    let bytes = encoded_chunk_descriptor(x) + rest;
    assert(bytes =~= a + (b + (c + rest)));
    lemma_u32_roundtrip(x.segment, b + (c + rest));
    lemma_skip_prefix(a, b + (c + rest));
    lemma_u32_roundtrip(x.chunk, c + rest);
    lemma_skip_prefix(b, c + rest);
    lemma_u32_roundtrip(x.len, rest);
}

/// The descriptor of a buffer is read back as it was written, whatever
/// follows it.
pub proof fn lemma_buf_info_roundtrip(x: SharedMemoryBufInfo, rest: Seq<u8>)
    ensures
        decoded_buf_info(encoded_buf_info(x) + rest) == Some((x, encoded_buf_info(x).len())),
{
    let a = encoded_descriptor(x.watchdog_descriptor);
    let b = encoded_header_descriptor(x.header_descriptor);
    let c = encoded_u32(x.generation);
    let d = encoded_chunk_descriptor(x.data_descriptor);
    let e = encoded_u32(x.shm_protocol);
    let f = encoded_u64(x.data_len);
    let bytes = encoded_buf_info(x) + rest;
    let r5 = f + rest;
    let r4 = e + r5;
    let r3 = d + r4;
    let r2 = c + r3;
    let r1 = b + r2;
    let n1 = a.len();
    let n2 = b.len();
    let n3 = c.len();
    let n4 = d.len();
    let n5 = e.len();
    let n6 = f.len();
    assert(encoded_buf_info(x) == a + b + c + d + e + f);
    assert(encoded_buf_info(x).len() == n1 + n2 + n3 + n4 + n5 + n6);
    assert(decoded_descriptor(bytes) == Some((x.watchdog_descriptor, n1))) by {
        assert(bytes =~= a + r1);
        lemma_descriptor_roundtrip(x.watchdog_descriptor, r1);
    }
    assert(decoded_header_descriptor(bytes.skip(n1 as int)) == Some((x.header_descriptor, n2)))
        by {
        assert(bytes.skip(n1 as int) =~= b + r2);
        lemma_header_descriptor_roundtrip(x.header_descriptor, r2);
    }
    assert(decoded_u32(bytes.skip((n1 + n2) as int)) == Some((x.generation, n3))) by {
        assert(bytes.skip((n1 + n2) as int) =~= c + r3);
        lemma_u32_roundtrip(x.generation, r3);
    }
    assert(decoded_chunk_descriptor(bytes.skip((n1 + n2 + n3) as int)) == Some(
        (x.data_descriptor, n4),
    )) by {
        assert(bytes.skip((n1 + n2 + n3) as int) =~= d + r4);
        lemma_chunk_descriptor_roundtrip(x.data_descriptor, r4);
    }
    assert(decoded_u32(bytes.skip((n1 + n2 + n3 + n4) as int)) == Some((x.shm_protocol, n5))) by {
        assert(bytes.skip((n1 + n2 + n3 + n4) as int) =~= e + r5);
        lemma_u32_roundtrip(x.shm_protocol, r5);
    }
    assert(decoded_u64(bytes.skip((n1 + n2 + n3 + n4 + n5) as int)) == Some((x.data_len, n6)))
        by {
        assert(bytes.skip((n1 + n2 + n3 + n4 + n5) as int) =~= f + rest);
        lemma_u64_roundtrip(x.data_len, rest);
    }
}

} // verus!
