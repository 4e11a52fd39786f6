//! A PNG file as its signature and the sequence of its chunks.
use crate::chunk::append_bytes;
use crate::chunk::lemma_bytes_of_parse;
use crate::chunk::lemma_parse_of_bytes;
use crate::chunk::parse_chunk;
use crate::chunk::Chunk;
use crate::chunk::ChunkError;
use crate::chunk::ChunkView;
use crate::chunk_type::code_text;
use crate::endian::be_bytes;
use crate::endian::be_value;
use crate::endian::from_be_bytes;
use crate::endian::lemma_be_value_of_bytes;
use crate::endian::lemma_be_value_of_prefix;
use vstd::prelude::*;
use vstd::slice::slice_subrange;
use vstd::std_specs::convert::TryFromSpecImpl;

verus! {

/// Why bytes are not a PNG file, or why a file does not give what was asked.
#[derive(Debug, Clone, Copy, PartialEq, Eq, Structural)]
pub enum PngError {
    /// There are fewer than the eight bytes of the signature.
    TooShort,
    /// The first eight bytes are not the PNG signature.
    BadSignature,
    /// The bytes after the signature are not a sequence of chunks; the cause
    /// is that of the first chunk that failed.
    Chunk(ChunkError),
    /// No chunk has the type that was asked for.
    ChunkNotFound,
}

/// The eight bytes that begin every PNG file.
pub open spec fn signature() -> Seq<u8> {
    seq![137u8, 80u8, 78u8, 71u8, 13u8, 10u8, 26u8, 10u8]
}

/// The encodings of the chunks, one after another.
pub open spec fn chunks_bytes(chunks: Seq<ChunkView>) -> Seq<u8>
    decreases chunks.len(),
{
    if chunks.len() == 0 {
        Seq::empty()
    } else {
        chunks[0].bytes() + chunks_bytes(chunks.drop_first())
    }
}

/// The encoding of a file: the signature, then the chunks in order.
pub open spec fn png_bytes(chunks: Seq<ChunkView>) -> Seq<u8> {
    signature() + chunks_bytes(chunks)
}

/// How many of the bytes belong to the first chunk: twelve and the payload
/// length that the first four bytes declare, or all bytes where fewer than
/// that are left.
pub open spec fn first_chunk_size(bytes: Seq<u8>) -> nat {
    if bytes.len() < 12 || bytes.len() - 12 < be_value(bytes) {
        bytes.len()
    } else {
        12 + be_value(bytes)
    }
}

/// What bytes hold when read as chunks one after another until none is left.
/// The first chunk that fails to parse fails the whole, with its cause.
pub open spec fn parse_chunks(bytes: Seq<u8>) -> Result<Seq<ChunkView>, ChunkError>
    decreases bytes.len(),
{
    if bytes.len() == 0 {
        Ok(Seq::empty())
    } else {
        let size = first_chunk_size(bytes);
        match parse_chunk(bytes.subrange(0, size as int)) {
            Err(e) => Err(e),
            Ok(chunk) => match parse_chunks(bytes.skip(size as int)) {
                Err(e) => Err(e),
                Ok(rest) => Ok(seq![chunk] + rest),
            },
        }
    }
}

/// What bytes hold when read as a PNG file: the signature, then chunks up to
/// the last byte. The last chunk need not be the end marker.
pub open spec fn parse_png(bytes: Seq<u8>) -> Result<Seq<ChunkView>, PngError> {
    if bytes.len() < 8 {
        Err(PngError::TooShort)
    } else if bytes.subrange(0, 8) != signature() {
        Err(PngError::BadSignature)
    } else {
        match parse_chunks(bytes.skip(8)) {
            Err(e) => Err(PngError::Chunk(e)),
            Ok(chunks) => Ok(chunks),
        }
    }
}

/// Every chunk has a type code of four bytes and a payload that fits the
/// length field.
pub open spec fn all_well_formed(chunks: Seq<ChunkView>) -> bool {
    forall|i: int| 0 <= i < chunks.len() ==> (#[trigger] chunks[i]).well_formed()
}

/// The chunk at `i` is the first whose type code reads as `text`.
pub open spec fn is_first_of_type(chunks: Seq<ChunkView>, text: Seq<char>, i: int) -> bool {
    &&& 0 <= i < chunks.len()
    &&& code_text(chunks[i].chunk_type) == text
    &&& forall|j: int| 0 <= j < i ==> code_text((#[trigger] chunks[j]).chunk_type) != text
}

/// No chunk has a type code that reads as `text`.
pub open spec fn none_of_type(chunks: Seq<ChunkView>, text: Seq<char>) -> bool {
    forall|j: int| 0 <= j < chunks.len() ==> code_text((#[trigger] chunks[j]).chunk_type) != text
}

/// The index of the first chunk whose type code reads as `text`, or the
/// number of chunks where there is none.
pub open spec fn position_of_type(chunks: Seq<ChunkView>, text: Seq<char>) -> int
    decreases chunks.len(),
{
    if chunks.len() == 0 || code_text(chunks[0].chunk_type) == text {
        0
    } else {
        1 + position_of_type(chunks.drop_first(), text)
    }
}

/// The sequence after `chunk` was added: it stands just before the last
/// chunk, which keeps the end marker last; in an empty sequence it stands
/// alone.
pub open spec fn with_appended(chunks: Seq<ChunkView>, chunk: ChunkView) -> Seq<ChunkView> {
    if chunks.len() == 0 {
        seq![chunk]
    } else {
        chunks.insert(chunks.len() - 1, chunk)
    }
}

/// The encoding of two sequences of chunks, one after the other, is the
/// encoding of the first followed by the encoding of the second.
pub proof fn lemma_chunks_bytes_concat(front: Seq<ChunkView>, back: Seq<ChunkView>)
    ensures
        chunks_bytes(front + back) == chunks_bytes(front) + chunks_bytes(back),
    decreases front.len(),
{
    if front.len() == 0 {
        assert(front + back =~= back);
        assert(chunks_bytes(front) + chunks_bytes(back) =~= chunks_bytes(back));
    } else {
        lemma_chunks_bytes_concat(front.drop_first(), back);
        assert((front + back).drop_first() =~= front.drop_first() + back);
        assert(front[0].bytes() + (chunks_bytes(front.drop_first()) + chunks_bytes(back))
            =~= (front[0].bytes() + chunks_bytes(front.drop_first())) + chunks_bytes(back));
    }
}

/// Adding a chunk changes no byte of the chunks that were there: the new
/// encoding is the old one with the encoding of the new chunk put in just
/// before that of the last chunk.
pub proof fn lemma_bytes_after_append(chunks: Seq<ChunkView>, chunk: ChunkView)
    requires
        chunks.len() > 0,
    ensures
        chunks_bytes(chunks) == chunks_bytes(chunks.drop_last()) + chunks.last().bytes(),
        chunks_bytes(with_appended(chunks, chunk)) == chunks_bytes(chunks.drop_last())
            + chunk.bytes() + chunks.last().bytes(),
{
    let front = chunks.drop_last();
    lemma_chunks_bytes_one(chunk);
    lemma_chunks_bytes_one(chunks.last());
    lemma_chunks_bytes_concat(front, seq![chunks.last()]);
    lemma_chunks_bytes_concat(front, seq![chunk]);
    lemma_chunks_bytes_concat(front + seq![chunk], seq![chunks.last()]);
    assert(chunks =~= front + seq![chunks.last()]);
    assert(with_appended(chunks, chunk) =~= (front + seq![chunk]) + seq![chunks.last()]);
}

/// Removing a chunk changes no byte of the others: the new encoding is the
/// old one without the encoding of the chunk that left.
pub proof fn lemma_bytes_after_remove(chunks: Seq<ChunkView>, i: int)
    requires
        0 <= i < chunks.len(),
    ensures
        chunks_bytes(chunks) == chunks_bytes(chunks.take(i)) + chunks[i].bytes() + chunks_bytes(
            chunks.skip(i + 1),
        ),
        chunks_bytes(chunks.remove(i)) == chunks_bytes(chunks.take(i)) + chunks_bytes(
            chunks.skip(i + 1),
        ),
{
    let front = chunks.take(i);
    let back = chunks.skip(i + 1);
    lemma_chunks_bytes_one(chunks[i]);
    lemma_chunks_bytes_concat(front, seq![chunks[i]]);
    lemma_chunks_bytes_concat(front + seq![chunks[i]], back);
    lemma_chunks_bytes_concat(front, back);
    assert(chunks =~= (front + seq![chunks[i]]) + back);
    assert(chunks.remove(i) =~= front + back);
}

/// The encoding of a single chunk as a sequence of one.
proof fn lemma_chunks_bytes_one(chunk: ChunkView)
    ensures
        chunks_bytes(seq![chunk]) == chunk.bytes(),
{
    let one = seq![chunk];
    assert(one.drop_first() =~= Seq::<ChunkView>::empty());
    assert(chunks_bytes(one.drop_first()) =~= Seq::<u8>::empty());
    assert(chunk.bytes() + Seq::<u8>::empty() =~= chunk.bytes());
}

/// Adding a chunk to a sequence that is not empty puts it just before the
/// last chunk: the last chunk stays last, the new chunk stands before it,
/// and every chunk before that keeps its place.
pub proof fn lemma_appended_before_last(chunks: Seq<ChunkView>, chunk: ChunkView)
    requires
        chunks.len() > 0,
    ensures
        with_appended(chunks, chunk).len() == chunks.len() + 1,
        with_appended(chunks, chunk).last() == chunks.last(),
        with_appended(chunks, chunk)[chunks.len() - 1] == chunk,
        forall|j: int|
            0 <= j < chunks.len() - 1 ==> #[trigger] with_appended(chunks, chunk)[j] == chunks[j],
        with_appended(chunks, chunk) == chunks.drop_last().push(chunk).push(chunks.last()),
{
    assert(with_appended(chunks, chunk) =~= chunks.drop_last().push(chunk).push(chunks.last()));
}

/// `position_of_type` finds the first match: the chunk at the index it gives
/// has the type and none before it has, and where it gives the number of
/// chunks none has the type.
pub proof fn lemma_position_is_first(chunks: Seq<ChunkView>, text: Seq<char>)
    ensures
        0 <= position_of_type(chunks, text) <= chunks.len(),
        position_of_type(chunks, text) < chunks.len() ==> is_first_of_type(
            chunks,
            text,
            position_of_type(chunks, text),
        ),
        position_of_type(chunks, text) == chunks.len() ==> none_of_type(chunks, text),
    decreases chunks.len(),
{
    if chunks.len() != 0 && code_text(chunks[0].chunk_type) != text {
        let rest = chunks.drop_first();
        let at = position_of_type(rest, text);
        lemma_position_is_first(rest, text);
        assert forall|j: int| 0 <= j < at + 1 implies code_text(
            (#[trigger] chunks[j]).chunk_type,
        ) != text by {
            if j > 0 {
                assert(chunks[j] == rest[j - 1]);
            }
        }
        if at < rest.len() {
            assert(chunks[at + 1] == rest[at]);
        }
    }
}

/// The first match is where `position_of_type` says: an index whose chunk
/// has the type, with none before it that has, is the one it gives.
pub proof fn lemma_first_is_position(chunks: Seq<ChunkView>, text: Seq<char>, i: int)
    requires
        is_first_of_type(chunks, text, i),
    ensures
        position_of_type(chunks, text) == i,
{
    lemma_position_is_first(chunks, text);
    let at = position_of_type(chunks, text);
    if at < i {
        assert(code_text(chunks[at].chunk_type) != text);
    } else if at > i {
        assert(code_text(chunks[i].chunk_type) != text);
    }
}

/// Where no chunk has the type, `position_of_type` gives the number of
/// chunks.
pub proof fn lemma_none_is_position(chunks: Seq<ChunkView>, text: Seq<char>)
    requires
        none_of_type(chunks, text),
    ensures
        position_of_type(chunks, text) == chunks.len(),
{
    lemma_position_is_first(chunks, text);
    let at = position_of_type(chunks, text);
    if at < chunks.len() {
        assert(code_text(chunks[at].chunk_type) != text);
    }
}

/// Bytes that parse as chunks are the encodings of those chunks, one after
/// another.
pub proof fn lemma_chunks_bytes_of_parse(bytes: Seq<u8>, chunks: Seq<ChunkView>)
    requires
        parse_chunks(bytes) == Ok::<Seq<ChunkView>, ChunkError>(chunks),
    ensures
        all_well_formed(chunks),
        chunks_bytes(chunks) == bytes,
    decreases bytes.len(),
{
    if bytes.len() != 0 {
        let size = first_chunk_size(bytes);
        let first = parse_chunk(bytes.subrange(0, size as int))->Ok_0;
        let rest = parse_chunks(bytes.skip(size as int))->Ok_0;
        lemma_bytes_of_parse(bytes.subrange(0, size as int), first);
        lemma_chunks_bytes_of_parse(bytes.skip(size as int), rest);
        assert(chunks.drop_first() =~= rest);
        assert(bytes =~= bytes.subrange(0, size as int) + bytes.skip(size as int));
    }
}

/// The encodings of well-formed chunks, one after another, parse as those
/// chunks.
pub proof fn lemma_parse_of_chunks_bytes(chunks: Seq<ChunkView>)
    requires
        all_well_formed(chunks),
    ensures
        parse_chunks(chunks_bytes(chunks)) == Ok::<Seq<ChunkView>, ChunkError>(chunks),
    decreases chunks.len(),
{
    if chunks.len() != 0 {
        let first = chunks[0];
        let rest = chunks.drop_first();
        let bytes = chunks_bytes(chunks);
        lemma_parse_of_chunks_bytes(rest);
        lemma_parse_of_bytes(first);
        lemma_be_value_of_bytes(first.data.len() as u32);
        assert(first.well_formed());
        lemma_be_value_of_prefix(
            be_bytes(first.data.len() as u32),
            first.chunk_type + first.data + be_bytes(first.crc()) + chunks_bytes(rest),
        );
        assert(bytes =~= be_bytes(first.data.len() as u32) + (first.chunk_type + first.data
            + be_bytes(first.crc()) + chunks_bytes(rest)));
        let size = first_chunk_size(bytes);
        assert(size == first.bytes().len());
        assert(bytes.subrange(0, size as int) =~= first.bytes());
        assert(bytes.skip(size as int) =~= chunks_bytes(rest));
        assert(seq![first] + rest =~= chunks);
    } else {
        assert(chunks =~= Seq::empty());
    }
}

/// Bytes left over after the last chunk fail the whole: where a sequence of
/// chunks is followed by one to eleven more bytes, too few for a chunk, the
/// bytes are refused as too short.
pub proof fn lemma_short_tail_is_too_short(front: Seq<u8>, tail: Seq<u8>)
    requires
        parse_chunks(front) is Ok,
        0 < tail.len() < 12,
    ensures
        parse_chunks(front + tail) == Err::<Seq<ChunkView>, ChunkError>(ChunkError::Length),
    decreases front.len(),
{
    let whole = front + tail;
    if front.len() == 0 {
        assert(whole =~= tail);
        assert(tail.subrange(0, tail.len() as int) =~= tail);
    } else {
        let size = first_chunk_size(front);
        lemma_be_value_of_prefix(front, tail);
        lemma_be_value_of_prefix(front.subrange(0, size as int), Seq::empty());
        assert(front.subrange(0, size as int).subrange(0, 4) =~= front.subrange(0, 4));
        assert(first_chunk_size(whole) == size);
        assert(whole.subrange(0, size as int) =~= front.subrange(0, size as int));
        assert(whole.skip(size as int) =~= front.skip(size as int) + tail);
        lemma_short_tail_is_too_short(front.skip(size as int), tail);
    }
}

/// Whatever bytes parse as a PNG file, encoding the chunks that were read
/// gives the same bytes again.
pub proof fn lemma_png_bytes_of_parse(bytes: Seq<u8>, chunks: Seq<ChunkView>)
    requires
        parse_png(bytes) == Ok::<Seq<ChunkView>, PngError>(chunks),
    ensures
        all_well_formed(chunks),
        png_bytes(chunks) == bytes,
{
    lemma_chunks_bytes_of_parse(bytes.skip(8), chunks);
    assert(bytes =~= bytes.subrange(0, 8) + bytes.skip(8));
}

/// The encoding of a file of well-formed chunks parses as those chunks.
pub proof fn lemma_parse_of_png_bytes(chunks: Seq<ChunkView>)
    requires
        all_well_formed(chunks),
    ensures
        parse_png(png_bytes(chunks)) == Ok::<Seq<ChunkView>, PngError>(chunks),
{
    let body = chunks_bytes(chunks);
    lemma_parse_of_chunks_bytes(chunks);
    lemma_split_at_signature(body);
}

/// The first eight bytes of a signature followed by `body` are the signature,
/// and what follows them is `body`.
proof fn lemma_split_at_signature(body: Seq<u8>)
    ensures
        signature().len() == 8,
        (signature() + body).subrange(0, 8) == signature(),
        (signature() + body).skip(8) == body,
{
    let sig = signature();
    assert(sig.len() == 8);
    assert((sig + body).subrange(0, 8) =~= sig);
    assert((sig + body).skip(8) =~= body);
}

/// What each chunk of a sequence is.
pub open spec fn chunk_views(chunks: Seq<Chunk>) -> Seq<ChunkView> {
    Seq::new(chunks.len(), |i: int| chunks[i]@)
}

/// The descriptions of the chunks, one after another.
pub open spec fn chunks_text(chunks: Seq<ChunkView>) -> Seq<char>
    decreases chunks.len(),
{
    if chunks.len() == 0 {
        Seq::empty()
    } else {
        chunks[0].text() + chunks_text(chunks.drop_first())
    }
}

/// The description of a file for a reader: the description of each chunk in
/// order, between an opening and a closing line.
pub open spec fn png_text(chunks: Seq<ChunkView>) -> Seq<char> {
    "Png {\n"@ + chunks_text(chunks) + "}\n"@
}

/// A PNG file: the fixed signature and the chunks in their order.
pub struct Png {
    chunks: Vec<Chunk>,
}

impl View for Png {
    type V = Seq<ChunkView>;

    closed spec fn view(&self) -> Seq<ChunkView> {
        chunk_views(self.chunks@)
    }
}

/// Whether the type code of `chunk` reads as `text`.
fn has_type(chunk: &Chunk, text: &String) -> (r: bool)
    ensures
        r == (code_text(chunk@.chunk_type) == text@),
{
    chunk.chunk_type().to_string() == *text
}

impl Png {
    /// The eight bytes that begin every PNG file.
    pub const STANDARD_HEADER: [u8; 8] = [137, 80, 78, 71, 13, 10, 26, 10];

    /// The file with the given chunks in the given order. The order is the
    /// caller's: nothing checks that the header chunk is first or the end
    /// marker last.
    pub fn from_chunks(chunks: Vec<Chunk>) -> (r: Png)
        ensures
            r@ == chunk_views(chunks@),
    {
        Png { chunks }
    }

    /// Adds a chunk just before the last one, so that the end marker stays
    /// last. In a file without chunks the new chunk stands alone.
    pub fn append_chunk(&mut self, chunk: Chunk)
        ensures
            final(self)@ == with_appended(old(self)@, chunk@),
    {
        let n = self.chunks.len();
        if n == 0 {
            self.chunks.push(chunk);
        } else {
            self.chunks.insert(n - 1, chunk);
        }
        assert(self@ =~= with_appended(old(self)@, chunk@));
    }

    /// Where the first chunk stands whose type code reads as `text`, or the
    /// number of chunks where there is none.
    fn find_type(&self, text: &str) -> (i: usize)
        ensures
            i <= self.chunks@.len(),
            i == position_of_type(self@, text@),
    {
        let wanted = String::from_str(text);
        let n = self.chunks.len();
        let mut i: usize = 0;
        while i < n
            invariant
                n == self.chunks@.len(),
                i <= n,
                wanted@ == text@,
                forall|j: int| 0 <= j < i ==> code_text((#[trigger] self@[j]).chunk_type) != text@,
            decreases n - i,
        {
            if has_type(&self.chunks[i], &wanted) {
                proof {
                    lemma_first_is_position(self@, text@, i as int);
                }
                return i;
            }
            i += 1;
        }
        proof {
            lemma_none_is_position(self@, text@);
        }
        i
    }

    /// The first chunk whose type code reads as `chunk_type`, if there is
    /// one.
    pub fn chunk_by_type(&self, chunk_type: &str) -> (r: Option<&Chunk>)
        ensures
            match r {
                Some(chunk) => position_of_type(self@, chunk_type@) < self@.len() && chunk@
                    == self@[position_of_type(self@, chunk_type@)],
                None => position_of_type(self@, chunk_type@) == self@.len(),
            },
    {
        let i = self.find_type(chunk_type);
        if i < self.chunks.len() {
            Some(&self.chunks[i])
        } else {
            None
        }
    }

    /// Removes the first chunk whose type code reads as `chunk_type`. The
    /// chunks after it move up by one; no other chunk changes. Where no
    /// chunk has that type, nothing changes and the call fails.
    pub fn remove_chunk(&mut self, chunk_type: &str) -> (r: Result<(), PngError>)
        ensures
            match r {
                Ok(_) => position_of_type(old(self)@, chunk_type@) < old(self)@.len()
                    && final(self)@ == old(self)@.remove(
                    position_of_type(old(self)@, chunk_type@),
                ),
                Err(e) => e == PngError::ChunkNotFound && position_of_type(
                    old(self)@,
                    chunk_type@,
                ) == old(self)@.len() && final(self)@ == old(self)@,
            },
    {
        let i = self.find_type(chunk_type);
        if i < self.chunks.len() {
            let _ = self.chunks.remove(i);
            assert(self@ =~= old(self)@.remove(i as int));
            Ok(())
        } else {
            Err(PngError::ChunkNotFound)
        }
    }

    /// The signature.
    pub fn header(&self) -> (r: &[u8; 8])
        ensures
            r@ == signature(),
    {
        assert(Self::STANDARD_HEADER@ =~= signature());
        &Self::STANDARD_HEADER
    }

    /// The chunks in their order.
    pub fn chunks(&self) -> (r: &[Chunk])
        ensures
            chunk_views(r@) == self@,
    {
        self.chunks.as_slice()
    }

    /// The description of the file for a reader, chunk by chunk.
    pub fn to_string(&self) -> (r: String)
        ensures
            r@ == png_text(self@),
    {
        let mut out = String::from_str("Png {\n");
        let n = self.chunks.len();
        let mut i: usize = 0;
        assert(self@.skip(0) =~= self@);
        while i < n
            invariant
                n == self.chunks@.len(),
                i <= n,
                out@ + chunks_text(self@.skip(i as int)) == "Png {\n"@ + chunks_text(self@),
            decreases n - i,
        {
            let described = self.chunks[i].to_string();
            let ghost before = out@;
            out.append(described.as_str());
            proof {
                let rest = self@.skip(i as int);
                assert(rest[0] == self@[i as int]);
                assert(rest.drop_first() =~= self@.skip(i + 1));
                assert(before + (described@ + chunks_text(rest.drop_first())) =~= (before
                    + described@) + chunks_text(rest.drop_first()));
            }
            i += 1;
        }
        proof {
            assert(chunks_text(self@.skip(n as int)) =~= Seq::<char>::empty());
            assert(out@ + Seq::<char>::empty() =~= out@);
        }
        out.append("}\n");
        out
    }

    /// The encoding of the file: the signature, then each chunk in order.
    /// Parsing these bytes gives the same chunks again.
    pub fn as_bytes(&self) -> (r: Vec<u8>)
        ensures
            r@ == png_bytes(self@),
            all_well_formed(self@),
            parse_png(r@) == Ok::<Seq<ChunkView>, PngError>(self@),
    {
        let mut out: Vec<u8> = Vec::new();
        append_bytes(&mut out, Self::STANDARD_HEADER.as_slice());
        assert(out@ =~= signature());
        let n = self.chunks.len();
        let mut i: usize = 0;
        assert(self@.skip(0) =~= self@);
        while i < n
            invariant
                n == self.chunks@.len(),
                i <= n,
                out@ + chunks_bytes(self@.skip(i as int)) == png_bytes(self@),
                forall|j: int| 0 <= j < i ==> (#[trigger] self@[j]).well_formed(),
            decreases n - i,
        {
            let encoded = self.chunks[i].as_bytes();
            let ghost before = out@;
            append_bytes(&mut out, encoded.as_slice());
            proof {
                let rest = self@.skip(i as int);
                assert(rest[0] == self@[i as int]);
                assert(rest.drop_first() =~= self@.skip(i + 1));
                assert(before + (encoded@ + chunks_bytes(rest.drop_first())) =~= (before
                    + encoded@) + chunks_bytes(rest.drop_first()));
            }
            i += 1;
        }
        proof {
            assert(chunks_bytes(self@.skip(n as int)) =~= Seq::<u8>::empty());
            assert(out@ + Seq::<u8>::empty() =~= out@);
            lemma_parse_of_png_bytes(self@);
        }
        out
    }
}

impl TryFrom<&[u8]> for Png {
    type Error = PngError;

    /// Reads bytes as a PNG file: the signature, then one chunk after
    /// another up to the last byte. Each chunk takes twelve bytes and the
    /// payload length that it declares. Fewer than eight bytes are too
    /// short. A file that was read has the given bytes as its encoding.
    fn try_from(bytes: &[u8]) -> (r: Result<Png, PngError>)
        ensures
            match r {
                Ok(png) => parse_png(bytes@) == Ok::<Seq<ChunkView>, PngError>(png@),
                Err(e) => parse_png(bytes@) == Err::<Seq<ChunkView>, PngError>(e),
            },
            bytes@.len() < 8 <==> r matches Err(PngError::TooShort),
            r matches Ok(png) ==> all_well_formed(png@) && png_bytes(png@) == bytes@,
    {
        proof {
            if parse_png(bytes@) is Ok {
                lemma_png_bytes_of_parse(bytes@, parse_png(bytes@)->Ok_0);
            }
        }
        let n = bytes.len();
        if n < 8 {
            return Err(PngError::TooShort);
        }
        let mut k: usize = 0;
        while k < 8
            invariant
                n == bytes@.len(),
                8 <= n,
                k <= 8,
                forall|j: int| 0 <= j < k ==> bytes@[j] == signature()[j],
            decreases 8 - k,
        {
            if bytes[k] != Self::STANDARD_HEADER[k] {
                assert(bytes@.subrange(0, 8)[k as int] != signature()[k as int]);
                return Err(PngError::BadSignature);
            }
            k += 1;
        }
        assert(bytes@.subrange(0, 8) =~= signature());
        let mut chunks: Vec<Chunk> = Vec::new();
        let mut pos: usize = 8;
        assert(chunk_views(chunks@) =~= Seq::<ChunkView>::empty());
        assert(forall|rest: Seq<ChunkView>| Seq::<ChunkView>::empty() + rest =~= rest);
        while pos < n
            invariant
                n == bytes@.len(),
                8 <= pos <= n,
                bytes@.subrange(0, 8) == signature(),
                match parse_chunks(bytes@.skip(pos as int)) {
                    Ok(rest) => parse_chunks(bytes@.skip(8)) == Ok::<Seq<ChunkView>, ChunkError>(
                        chunk_views(chunks@) + rest,
                    ),
                    Err(e) => parse_chunks(bytes@.skip(8)) == Err::<Seq<ChunkView>, ChunkError>(e),
                },
            decreases n - pos,
        {
            let left = n - pos;
            let ghost rest_bytes = bytes@.skip(pos as int);
            let mut size = left;
            if left >= 12 {
                let length_bytes = [bytes[pos], bytes[pos + 1], bytes[pos + 2], bytes[pos + 3]];
                let declared = from_be_bytes(length_bytes);
                proof {
                    assert(length_bytes@ =~= rest_bytes.subrange(0, 4));
                    lemma_be_value_of_prefix(rest_bytes, Seq::empty());
                }
                if left - 12 >= declared as usize {
                    size = 12 + declared as usize;
                }
            }
            assert(size == first_chunk_size(rest_bytes));
            assert(rest_bytes.subrange(0, size as int) =~= bytes@.subrange(
                pos as int,
                pos + size,
            ));
            assert(rest_bytes.skip(size as int) =~= bytes@.skip(pos + size));
            match Chunk::try_from(slice_subrange(bytes, pos, pos + size)) {
                Err(e) => {
                    return Err(PngError::Chunk(e));
                },
                Ok(chunk) => {
                    proof {
                        let after = parse_chunks(bytes@.skip(pos + size));
                        if after is Ok {
                            assert(chunk_views(chunks@.push(chunk)) + after->Ok_0 =~= chunk_views(
                                chunks@,
                            ) + (seq![chunk@] + after->Ok_0));
                        }
                    }
                    chunks.push(chunk);
                    pos += size;
                },
            }
        }
        assert(bytes@.skip(n as int) =~= Seq::<u8>::empty());
        assert(chunk_views(chunks@) + Seq::<ChunkView>::empty() =~= chunk_views(chunks@));
        Ok(Png { chunks })
    }
}

/// `try_from` states what it returns in its own contract, over what the file
/// is. The general contract of `TryFrom` speaks of the file itself and is not
/// taken up.
impl TryFromSpecImpl<&[u8]> for Png {
    open spec fn obeys_try_from_spec() -> bool {
        false
    }

    open spec fn try_from_spec(v: &[u8]) -> Result<Self, Self::Error> {
        arbitrary()
    }
}

} // verus!
