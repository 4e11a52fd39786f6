//! The four operations on the bytes of a PNG file: hide a message in a new
//! chunk, read a message back, remove a chunk, and describe the file.
use crate::chunk::append_bytes;
use crate::chunk::Chunk;
use crate::chunk::ChunkError;
use crate::chunk::ChunkView;
use crate::chunk_type::code_text;
use crate::chunk_type::is_code_text;
use crate::chunk_type::text_code;
use crate::chunk_type::ChunkType;
use crate::chunk_type::ChunkTypeError;
use crate::png::all_well_formed;
use crate::png::lemma_first_is_position;
use crate::png::lemma_none_is_position;
use crate::png::lemma_parse_of_png_bytes;
use crate::png::lemma_png_bytes_of_parse;
use crate::png::lemma_position_is_first;
use crate::png::none_of_type;
use crate::png::parse_png;
use crate::png::position_of_type;
use crate::png::png_bytes;
use crate::png::png_text;
use crate::png::with_appended;
use crate::png::Png;
use crate::png::PngError;
use std::str::FromStr;
use vstd::prelude::*;
use vstd::utf8::decode_utf8;
use vstd::utf8::encode_utf8;
use vstd::utf8::valid_utf8;

verus! {

/// The chunk that carries `message` under the type that `chunk_type` names.
pub open spec fn message_chunk(chunk_type: Seq<char>, message: Seq<char>) -> ChunkView {
    ChunkView { chunk_type: text_code(chunk_type), data: encode_utf8(message) }
}

/// What `encode` gives: the file with the message chunk added just before
/// its last chunk; the cause where `input` is not a PNG file; else the type
/// error where `chunk_type` is not four ASCII letters.
pub open spec fn encoded(input: Seq<u8>, chunk_type: Seq<char>, message: Seq<char>) -> Result<
    Seq<u8>,
    PngError,
> {
    match parse_png(input) {
        Err(cause) => Err(cause),
        Ok(chunks) => if is_code_text(chunk_type) {
            Ok(png_bytes(with_appended(chunks, message_chunk(chunk_type, message))))
        } else {
            Err(PngError::Chunk(ChunkError::ChunkType(ChunkTypeError::InvalidTypeString)))
        },
    }
}

/// What `decode` gives: the text of the first chunk of the type, or `None`
/// where the file has no such chunk; the cause where `input` is not a PNG
/// file; the text error where the chunk's payload is not UTF-8.
pub open spec fn decoded(input: Seq<u8>, chunk_type: Seq<char>) -> Result<
    Option<Seq<char>>,
    PngError,
> {
    match parse_png(input) {
        Err(cause) => Err(cause),
        Ok(chunks) => {
            let at = position_of_type(chunks, chunk_type);
            if at == chunks.len() {
                Ok(None)
            } else if valid_utf8(chunks[at].data) {
                Ok(Some(decode_utf8(chunks[at].data)))
            } else {
                Err(PngError::Chunk(ChunkError::NonString))
            }
        },
    }
}

/// What `remove` gives: the file without its first chunk of the type; the
/// cause where `input` is not a PNG file; the not-found error where the file
/// has no such chunk.
pub open spec fn removed(input: Seq<u8>, chunk_type: Seq<char>) -> Result<Seq<u8>, PngError> {
    match parse_png(input) {
        Err(cause) => Err(cause),
        Ok(chunks) => {
            let at = position_of_type(chunks, chunk_type);
            if at == chunks.len() {
                Err(PngError::ChunkNotFound)
            } else {
                Ok(png_bytes(chunks.remove(at)))
            }
        },
    }
}

/// What `print` gives: the description of the file, or the cause where
/// `input` is not a PNG file.
pub open spec fn printed(input: Seq<u8>) -> Result<Seq<char>, PngError> {
    match parse_png(input) {
        Err(cause) => Err(cause),
        Ok(chunks) => Ok(png_text(chunks)),
    }
}

/// A message that was encoded into a file is what decoding the same type
/// gives back. Decoding reads the first chunk of the type, so this holds
/// where no chunk before the place of the new one already has that type, or
/// where the first that has it carries the same message.
pub proof fn lemma_decode_after_encode(
    input: Seq<u8>,
    chunk_type: Seq<char>,
    message: Seq<char>,
    output: Seq<u8>,
)
    requires
        encode_utf8(message).len() <= u32::MAX,
        encoded(input, chunk_type, message) == Ok::<Seq<u8>, PngError>(output),
        parse_png(input) matches Ok(chunks) && (position_of_type(chunks, chunk_type)
            >= chunks.len() - 1 || chunks[position_of_type(chunks, chunk_type)].data
            == encode_utf8(message)),
    ensures
        decoded(output, chunk_type) == Ok::<Option<Seq<char>>, PngError>(Some(message)),
{
    let chunks = parse_png(input)->Ok_0;
    let added = message_chunk(chunk_type, message);
    let after = with_appended(chunks, added);
    let found = position_of_type(chunks, chunk_type);
    let last = chunks.len() - 1;
    let at = if chunks.len() == 0 {
        0
    } else if found < last {
        found
    } else {
        last
    };
    lemma_png_bytes_of_parse(input, chunks);
    assert(added.well_formed());
    assert(all_well_formed(after));
    lemma_parse_of_png_bytes(after);
    assert(code_text(added.chunk_type) =~= chunk_type);
    lemma_position_is_first(chunks, chunk_type);
    assert(after[at].data == encode_utf8(message) && code_text(after[at].chunk_type)
        == chunk_type) by {
        if chunks.len() != 0 && found < last {
            assert(after[at] == chunks[found]);
        } else {
            assert(after[at] == added);
        }
    }
    assert forall|j: int| 0 <= j < at implies code_text((#[trigger] after[j]).chunk_type)
        != chunk_type by {
        assert(after[j] == chunks[j]);
    }
    lemma_first_is_position(after, chunk_type, at);
    vstd::utf8::encode_utf8_valid_utf8(message);
    vstd::utf8::encode_utf8_decode_utf8(message);
}

/// Encoding a message under one type does not make another type appear:
/// decoding a type that no chunk of the file has, and that was not the one
/// encoded, finds nothing.
pub proof fn lemma_decode_other_type(
    input: Seq<u8>,
    chunk_type: Seq<char>,
    message: Seq<char>,
    output: Seq<u8>,
    other: Seq<char>,
)
    requires
        encode_utf8(message).len() <= u32::MAX,
        encoded(input, chunk_type, message) == Ok::<Seq<u8>, PngError>(output),
        other != chunk_type,
        parse_png(input) matches Ok(chunks) && none_of_type(chunks, other),
    ensures
        decoded(output, other) == Ok::<Option<Seq<char>>, PngError>(None),
{
    let chunks = parse_png(input)->Ok_0;
    let added = message_chunk(chunk_type, message);
    let after = with_appended(chunks, added);
    lemma_png_bytes_of_parse(input, chunks);
    assert(added.well_formed());
    assert(all_well_formed(after));
    lemma_parse_of_png_bytes(after);
    assert(code_text(added.chunk_type) =~= chunk_type);
    assert forall|j: int| 0 <= j < after.len() implies code_text(
        (#[trigger] after[j]).chunk_type,
    ) != other by {
        if chunks.len() > 0 && j < chunks.len() - 1 {
            assert(after[j] == chunks[j]);
        } else if chunks.len() > 0 && j == chunks.len() {
            assert(after[j] == chunks[j - 1]);
        } else {
            assert(after[j] == added);
        }
    }
    lemma_none_is_position(after, other);
}

/// Adds to the file `input` a chunk of type `chunk_type` that carries
/// `message`, just before the last chunk of the file.
pub fn encode(input: &[u8], chunk_type: &str, message: &str) -> (r: Result<Vec<u8>, PngError>)
    requires
        encode_utf8(message@).len() <= u32::MAX,
    ensures
        match r {
            Ok(output) => encoded(input@, chunk_type@, message@) == Ok::<Seq<u8>, PngError>(
                output@,
            ),
            Err(e) => encoded(input@, chunk_type@, message@) == Err::<Seq<u8>, PngError>(e),
        },
{
    let mut png = match Png::try_from(input) {
        Ok(png) => png,
        Err(e) => return Err(e),
    };
    let c_type = match ChunkType::from_str(chunk_type) {
        Ok(t) => t,
        Err(e) => return Err(PngError::Chunk(ChunkError::ChunkType(e))),
    };
    let mut data: Vec<u8> = Vec::new();
    append_bytes(&mut data, message.as_bytes());
    png.append_chunk(Chunk::new(c_type, data));
    Ok(png.as_bytes())
}

/// Reads the message that the first chunk of type `chunk_type` carries in
/// the file `input`.
pub fn decode(input: &[u8], chunk_type: &str) -> (r: Result<Option<String>, PngError>)
    ensures
        match r {
            Ok(Some(message)) => decoded(input@, chunk_type@) == Ok::<Option<Seq<char>>, PngError>(
                Some(message@),
            ),
            Ok(None) => decoded(input@, chunk_type@) == Ok::<Option<Seq<char>>, PngError>(None),
            Err(e) => decoded(input@, chunk_type@) == Err::<Option<Seq<char>>, PngError>(e),
        },
{
    let png = match Png::try_from(input) {
        Ok(png) => png,
        Err(e) => return Err(e),
    };
    match png.chunk_by_type(chunk_type) {
        None => Ok(None),
        Some(chunk) => match chunk.data_as_string() {
            Ok(message) => Ok(Some(message)),
            Err(e) => Err(PngError::Chunk(e)),
        },
    }
}

/// Removes from the file `input` its first chunk of type `chunk_type`.
pub fn remove(input: &[u8], chunk_type: &str) -> (r: Result<Vec<u8>, PngError>)
    ensures
        match r {
            Ok(output) => removed(input@, chunk_type@) == Ok::<Seq<u8>, PngError>(output@),
            Err(e) => removed(input@, chunk_type@) == Err::<Seq<u8>, PngError>(e),
        },
{
    let mut png = match Png::try_from(input) {
        Ok(png) => png,
        Err(e) => return Err(e),
    };
    match png.remove_chunk(chunk_type) {
        Ok(_) => Ok(png.as_bytes()),
        Err(e) => Err(e),
    }
}

/// Describes the file `input`, chunk by chunk.
pub fn print(input: &[u8]) -> (r: Result<String, PngError>)
    ensures
        match r {
            Ok(text) => printed(input@) == Ok::<Seq<char>, PngError>(text@),
            Err(e) => printed(input@) == Err::<Seq<char>, PngError>(e),
        },
{
    match Png::try_from(input) {
        Ok(png) => Ok(png.to_string()),
        Err(e) => Err(e),
    }
}

} // verus!
