//! One chunk of a PNG file: a type code, a payload, and the length and
//! checksum that are derived from them.
use crate::chunk_type::ChunkType;
use crate::chunk_type::ChunkTypeError;
use crate::chunk_type::code_text;
use crate::endian::be_bytes;
use crate::endian::be_value;
use crate::endian::from_be_bytes;
use crate::endian::lemma_be_bytes_of_value;
use crate::endian::lemma_be_value_of_bytes;
use crate::endian::to_be_bytes;
use crate::text::decimal;
use crate::text::push_decimal;
use vstd::prelude::*;
use vstd::slice::slice_subrange;
use vstd::std_specs::convert::TryFromSpecImpl;
use vstd::utf8::decode_utf8;
use vstd::utf8::encode_utf8;
use vstd::utf8::encode_utf8_decode_utf8;
use vstd::utf8::valid_utf8;

verus! {

/// The CRC-32 checksum of a byte sequence with the IEEE polynomial, as
/// `crc::crc32::checksum_ieee` computes it. The value depends on the bytes
/// alone.
pub uninterp spec fn crc32_ieee(bytes: Seq<u8>) -> u32;

/// Calls `crc::crc32::checksum_ieee`. The contract claims only that the
/// result is the checksum that `crc32_ieee` names, for the bytes given.
#[verifier::external_body]
fn checksum_ieee(bytes: &[u8]) -> (r: u32)
    ensures
        r == crc32_ieee(bytes@),
{
    crc::crc32::checksum_ieee(bytes)
}

/// Calls `String::from_utf8`. The contract claims what std documents: the
/// call succeeds exactly on valid UTF-8, and the bytes of the string are
/// then the bytes that were given.
#[verifier::external_body]
fn string_from_utf8(bytes: Vec<u8>) -> (r: Option<String>)
    ensures
        r is Some <==> valid_utf8(bytes@),
        r matches Some(s) ==> encode_utf8(s@) == bytes@,
{
    match String::from_utf8(bytes) {
        Ok(s) => Some(s),
        Err(_) => None,
    }
}

/// Why bytes are not a chunk, or why a chunk does not give what was asked.
#[derive(Debug, Clone, Copy, PartialEq, Eq, Structural)]
pub enum ChunkError {
    /// The length or the checksum that the bytes declare is not the one that
    /// their type code and payload have.
    Invalid,
    /// There are fewer than the twelve bytes of an empty chunk.
    Length,
    /// The type code was refused.
    ChunkType(ChunkTypeError),
    /// The payload is not UTF-8 text.
    NonString,
}

/// What a chunk is: its type code and its payload. Length and checksum
/// follow from the two.
pub struct ChunkView {
    pub chunk_type: Seq<u8>,
    pub data: Seq<u8>,
}

impl ChunkView {
    /// A type code of four bytes and a payload whose size fits the four-byte
    /// length field.
    pub open spec fn well_formed(self) -> bool {
        self.chunk_type.len() == 4 && self.data.len() <= u32::MAX
    }

    /// The number of payload bytes.
    pub open spec fn length(self) -> nat {
        self.data.len()
    }

    /// The bytes that the checksum covers: the type code, then the payload.
    pub open spec fn checked_bytes(self) -> Seq<u8> {
        self.chunk_type + self.data
    }

    /// The checksum of the type code and the payload.
    pub open spec fn crc(self) -> u32 {
        crc32_ieee(self.checked_bytes())
    }

    /// The encoding of the chunk: length, type code, payload, checksum, the
    /// two numbers as four bytes each, most significant first.
    pub open spec fn bytes(self) -> Seq<u8> {
        be_bytes(self.data.len() as u32) + self.chunk_type + self.data + be_bytes(self.crc())
    }

    /// The description of the chunk for a reader, one field to a line.
    pub open spec fn text(self) -> Seq<char> {
        "Chunk {\n  Length: "@ + decimal(self.length()) + "\n  Type: "@ + code_text(
            self.chunk_type,
        ) + "\n  Data: "@ + decimal(self.data.len()) + " bytes\n  Crc: "@ + decimal(
            self.crc() as nat,
        ) + "\n}\n"@
    }
}

/// What `bytes` hold when read as one chunk: a length of four bytes, a type
/// code of four bytes, the payload, and a checksum of four bytes. Fewer than
/// twelve bytes are too short; a declared length or checksum that is not the
/// one of the type code and payload makes the bytes invalid.
pub open spec fn parse_chunk(bytes: Seq<u8>) -> Result<ChunkView, ChunkError> {
    if bytes.len() < 12 {
        Err(ChunkError::Length)
    } else {
        let chunk = ChunkView {
            chunk_type: bytes.subrange(4, 8),
            data: bytes.subrange(8, bytes.len() - 4),
        };
        if be_value(bytes.subrange(0, 4)) == chunk.length() && be_value(
            bytes.subrange(bytes.len() - 4, bytes.len() as int),
        ) == chunk.crc() {
            Ok(chunk)
        } else {
            Err(ChunkError::Invalid)
        }
    }
}

/// Appends a copy of `src` to `out`.
pub(crate) fn append_bytes(out: &mut Vec<u8>, src: &[u8])
    ensures
        final(out)@ == old(out)@ + src@,
{
    let n = src.len();
    let mut i: usize = 0;
    while i < n
        invariant
            n == src@.len(),
            i <= n,
            out@ == old(out)@ + src@.subrange(0, i as int),
        decreases n - i,
    {
        out.push(src[i]);
        i += 1;
        assert(src@.subrange(0, i as int) =~= src@.subrange(0, i - 1).push(src@[i - 1]));
    }
    assert(src@.subrange(0, n as int) =~= src@);
}

/// The checksum of a type code followed by a payload.
fn checksum_of(chunk_type: &ChunkType, data: &[u8]) -> (r: u32)
    ensures
        r == crc32_ieee(chunk_type@ + data@),
{
    let mut crc_bytes: Vec<u8> = Vec::new();
    append_bytes(&mut crc_bytes, chunk_type.bytes().as_slice());
    append_bytes(&mut crc_bytes, data);
    assert(crc_bytes@ =~= chunk_type@ + data@);
    checksum_ieee(crc_bytes.as_slice())
}

/// A chunk of a PNG file. The length it reports is always the size of its
/// payload, and its checksum is always that of its type code and payload.
pub struct Chunk {
    length: u32,
    c_type: ChunkType,
    data: Vec<u8>,
    crc: u32,
}

impl View for Chunk {
    type V = ChunkView;

    closed spec fn view(&self) -> ChunkView {
        ChunkView { chunk_type: self.c_type@, data: self.data@ }
    }
}

impl Chunk {
    #[verifier::type_invariant]
    spec fn consistent(self) -> bool {
        &&& self.length == self.data@.len()
        &&& self.crc == crc32_ieee(self.c_type@ + self.data@)
    }

    /// The checksum of a type code followed by a payload.
    pub fn calculate_crc(chunk_type: ChunkType, data: Vec<u8>) -> (r: u32)
        ensures
            r == crc32_ieee(chunk_type@ + data@),
    {
        checksum_of(&chunk_type, data.as_slice())
    }

    /// The chunk with the given type code and payload. The payload must fit
    /// the four-byte length field.
    pub fn new(chunk_type: ChunkType, data: Vec<u8>) -> (r: Chunk)
        requires
            data@.len() <= u32::MAX,
        ensures
            r@ == (ChunkView { chunk_type: chunk_type@, data: data@ }),
            r@.well_formed(),
    {
        let crc = checksum_of(&chunk_type, data.as_slice());
        Chunk { length: data.len() as u32, c_type: chunk_type, data, crc }
    }

    /// The number of payload bytes.
    pub fn length(&self) -> (r: u32)
        ensures
            r == self@.length(),
            self@.well_formed(),
    {
        proof {
            use_type_invariant(self);
        }
        self.length
    }

    /// The type code.
    pub fn chunk_type(&self) -> (r: &ChunkType)
        ensures
            r@ == self@.chunk_type,
    {
        &self.c_type
    }

    /// The payload.
    pub fn data(&self) -> (r: &[u8])
        ensures
            r@ == self@.data,
    {
        self.data.as_slice()
    }

    /// The checksum of the type code and the payload.
    pub fn crc(&self) -> (r: u32)
        ensures
            r == self@.crc(),
    {
        proof {
            use_type_invariant(self);
        }
        self.crc
    }

    /// The payload as text. It fails where the payload is not valid UTF-8.
    pub fn data_as_string(&self) -> (r: Result<String, ChunkError>)
        ensures
            r is Ok <==> valid_utf8(self@.data),
            r matches Ok(s) ==> s@ == decode_utf8(self@.data) && encode_utf8(s@) == self@.data,
            r matches Err(e) ==> e == ChunkError::NonString,
    {
        let mut copy: Vec<u8> = Vec::new();
        append_bytes(&mut copy, self.data.as_slice());
        match string_from_utf8(copy) {
            Some(s) => {
                proof {
                    encode_utf8_decode_utf8(s@);
                }
                Ok(s)
            },
            None => Err(ChunkError::NonString),
        }
    }

    /// The description of the chunk for a reader: its length, type code,
    /// payload size and checksum, one to a line.
    pub fn to_string(&self) -> (r: String)
        ensures
            r@ == self@.text(),
    {
        proof {
            use_type_invariant(self);
        }
        let mut r = String::from_str("Chunk {\n  Length: ");
        push_decimal(&mut r, self.length as u64);
        r.append("\n  Type: ");
        r.append(self.c_type.to_string().as_str());
        r.append("\n  Data: ");
        push_decimal(&mut r, self.data.len() as u64);
        r.append(" bytes\n  Crc: ");
        push_decimal(&mut r, self.crc as u64);
        r.append("\n}\n");
        r
    }

    /// The encoding of the chunk: length, type code, payload, checksum.
    /// Parsing these bytes gives the same chunk again.
    pub fn as_bytes(&self) -> (r: Vec<u8>)
        ensures
            r@ == self@.bytes(),
            self@.well_formed(),
            parse_chunk(r@) == Ok::<ChunkView, ChunkError>(self@),
    {
        proof {
            use_type_invariant(self);
            lemma_parse_of_bytes(self@);
        }
        let mut out: Vec<u8> = Vec::new();
        append_bytes(&mut out, to_be_bytes(self.length).as_slice());
        append_bytes(&mut out, self.c_type.bytes().as_slice());
        append_bytes(&mut out, self.data.as_slice());
        append_bytes(&mut out, to_be_bytes(self.crc).as_slice());
        out
    }
}

/// Parsing the encoding of a chunk gives the chunk back, with the same type
/// code and payload and so the same length and checksum.
pub proof fn lemma_parse_of_bytes(chunk: ChunkView)
    requires
        chunk.well_formed(),
    ensures
        parse_chunk(chunk.bytes()) == Ok::<ChunkView, ChunkError>(chunk),
{
    let bytes = chunk.bytes();
    let n = bytes.len() as int;
    lemma_be_value_of_bytes(chunk.data.len() as u32);
    lemma_be_value_of_bytes(chunk.crc());
    assert(bytes.subrange(0, 4) =~= be_bytes(chunk.data.len() as u32));
    assert(bytes.subrange(4, 8) =~= chunk.chunk_type);
    assert(bytes.subrange(8, n - 4) =~= chunk.data);
    assert(bytes.subrange(n - 4, n) =~= be_bytes(chunk.crc()));
}

/// Bytes that parse as a chunk are the encoding of that chunk, and no other
/// bytes parse as it.
pub proof fn lemma_bytes_of_parse(bytes: Seq<u8>, chunk: ChunkView)
    requires
        parse_chunk(bytes) == Ok::<ChunkView, ChunkError>(chunk),
    ensures
        chunk.well_formed(),
        chunk.bytes() == bytes,
{
    let n = bytes.len() as int;
    lemma_be_bytes_of_value(bytes.subrange(0, 4));
    lemma_be_bytes_of_value(bytes.subrange(n - 4, n));
    assert(chunk.bytes() =~= bytes);
}

/// Tampering shows. Bytes of the size of a chunk's encoding, with the same
/// first four bytes and the same last four, are refused as invalid whenever
/// what stands between, the type code and the payload, has another checksum
/// than the chunk has. Whether a given change, such as one flipped bit, does
/// give another checksum is a matter of CRC-32 that this lemma leaves to its
/// caller.
pub proof fn lemma_tampering_is_invalid(chunk: ChunkView, tampered: Seq<u8>)
    requires
        chunk.well_formed(),
        tampered.len() == chunk.bytes().len(),
        tampered.subrange(0, 4) == chunk.bytes().subrange(0, 4),
        tampered.subrange(tampered.len() - 4, tampered.len() as int) == chunk.bytes().subrange(
            tampered.len() - 4,
            tampered.len() as int,
        ),
        crc32_ieee(tampered.subrange(4, tampered.len() - 4)) != chunk.crc(),
    ensures
        parse_chunk(tampered) == Err::<ChunkView, ChunkError>(ChunkError::Invalid),
{
    let bytes = chunk.bytes();
    let n = bytes.len() as int;
    lemma_be_value_of_bytes(chunk.data.len() as u32);
    lemma_be_value_of_bytes(chunk.crc());
    assert(bytes.subrange(0, 4) =~= be_bytes(chunk.data.len() as u32));
    assert(bytes.subrange(n - 4, n) =~= be_bytes(chunk.crc()));
    assert(tampered.subrange(4, 8) + tampered.subrange(8, n - 4) =~= tampered.subrange(4, n - 4));
}

/// A damaged length or checksum shows. Bytes of the size of a chunk's
/// encoding that hold the same type code and payload, but differ from the
/// encoding in the first four bytes or in the last four, are refused as
/// invalid.
pub proof fn lemma_damaged_fields_are_invalid(chunk: ChunkView, damaged: Seq<u8>)
    requires
        chunk.well_formed(),
        damaged.len() == chunk.bytes().len(),
        damaged.subrange(4, damaged.len() - 4) == chunk.bytes().subrange(4, damaged.len() - 4),
        damaged != chunk.bytes(),
    ensures
        parse_chunk(damaged) == Err::<ChunkView, ChunkError>(ChunkError::Invalid),
{
    let bytes = chunk.bytes();
    let n = bytes.len() as int;
    lemma_parse_of_bytes(chunk);
    assert(damaged.subrange(4, 8) =~= damaged.subrange(4, n - 4).subrange(0, 4));
    assert(bytes.subrange(4, 8) =~= bytes.subrange(4, n - 4).subrange(0, 4));
    assert(damaged.subrange(8, n - 4) =~= damaged.subrange(4, n - 4).subrange(4, n - 8));
    assert(bytes.subrange(8, n - 4) =~= bytes.subrange(4, n - 4).subrange(4, n - 8));
    if parse_chunk(damaged) is Ok {
        lemma_bytes_of_parse(damaged, parse_chunk(damaged)->Ok_0);
    }
}

impl TryFrom<&[u8]> for Chunk {
    type Error = ChunkError;

    /// Reads bytes as one chunk, and checks the declared length and checksum
    /// against the type code and payload that were read. Fewer than twelve
    /// bytes are too short. A chunk that was read has the given bytes as its
    /// encoding.
    fn try_from(values: &[u8]) -> (r: Result<Chunk, ChunkError>)
        ensures
            match r {
                Ok(chunk) => parse_chunk(values@) == Ok::<ChunkView, ChunkError>(chunk@),
                Err(e) => parse_chunk(values@) == Err::<ChunkView, ChunkError>(e),
            },
            values@.len() < 12 <==> r matches Err(ChunkError::Length),
            r matches Ok(chunk) ==> chunk@.well_formed() && chunk@.bytes() == values@,
    {
        proof {
            if parse_chunk(values@) is Ok {
                lemma_bytes_of_parse(values@, parse_chunk(values@)->Ok_0);
            }
        }
        let n = values.len();
        if n < 12 {
            return Err(ChunkError::Length);
        }
        let crc_pos = n - 4;
        let length_bytes = [values[0], values[1], values[2], values[3]];
        let c_type = [values[4], values[5], values[6], values[7]];
        let crc_bytes = [
            values[crc_pos],
            values[crc_pos + 1],
            values[crc_pos + 2],
            values[crc_pos + 3],
        ];
        assert(length_bytes@ =~= values@.subrange(0, 4));
        assert(crc_bytes@ =~= values@.subrange(n - 4, n as int));
        let length = from_be_bytes(length_bytes);
        let crc = from_be_bytes(crc_bytes);
        let c_type = match ChunkType::try_from(c_type) {
            Ok(ct) => ct,
            Err(err) => return Err(ChunkError::ChunkType(err)),
        };
        assert(c_type@ =~= values@.subrange(4, 8));
        if crc_pos - 8 > u32::MAX as usize {
            return Err(ChunkError::Invalid);
        }
        let mut data: Vec<u8> = Vec::new();
        append_bytes(&mut data, slice_subrange(values, 8, crc_pos));
        let new_chunk = Chunk::new(c_type, data);
        proof {
            use_type_invariant(&new_chunk);
        }
        if new_chunk.length == length && new_chunk.crc == crc {
            Ok(new_chunk)
        } else {
            Err(ChunkError::Invalid)
        }
    }
}

/// `try_from` states what it returns in its own contract, over what the
/// chunk is. The general contract of `TryFrom` speaks of the chunk itself and
/// is not taken up.
impl TryFromSpecImpl<&[u8]> for Chunk {
    open spec fn obeys_try_from_spec() -> bool {
        false
    }

    open spec fn try_from_spec(v: &[u8]) -> Result<Self, Self::Error> {
        arbitrary()
    }
}

} // verus!
