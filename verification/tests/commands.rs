use std::str::FromStr;

use pngme::args::Commands;
use pngme::args::Decode;
use pngme::args::Encode;
use pngme::args::Outcome;
use pngme::args::Print;
use pngme::args::Remove;
use pngme::chunk::Chunk;
use pngme::chunk::ChunkError;
use pngme::chunk_type::ChunkType;
use pngme::chunk_type::ChunkTypeError;
use pngme::commands::decode;
use pngme::commands::encode;
use pngme::commands::print;
use pngme::commands::remove;
use pngme::png::Png;
use pngme::png::PngError;

fn chunk_of(chunk_type: &str, data: &[u8]) -> Chunk {
    Chunk::new(ChunkType::from_str(chunk_type).unwrap(), data.to_vec())
}

/// A smallest PNG file: the header chunk and the end marker.
fn minimal_png() -> Vec<u8> {
    Png::from_chunks(vec![
        chunk_of("IHDR", &[0, 0, 0, 1, 0, 0, 0, 1, 8, 2, 0, 0, 0]),
        chunk_of("IEND", &[]),
    ])
    .as_bytes()
}

fn types_in(bytes: &[u8]) -> Vec<String> {
    Png::try_from(bytes)
        .unwrap()
        .chunks()
        .iter()
        .map(|c| c.chunk_type().to_string())
        .collect()
}

#[test]
fn encode_then_decode_gives_the_message() {
    let input = minimal_png();
    let output = encode(&input, "RuSt", "hello").unwrap();
    assert_eq!(decode(&output, "RuSt"), Ok(Some(String::from("hello"))));
    assert_eq!(decode(&output, "teSt"), Ok(None));
    assert_eq!(decode(&input, "RuSt"), Ok(None));
}

#[test]
fn encode_puts_the_chunk_before_the_end_marker() {
    let input = minimal_png();
    let output = encode(&input, "RuSt", "hello").unwrap();
    assert_eq!(types_in(&output), ["IHDR", "RuSt", "IEND"]);
    assert_eq!(output.len(), input.len() + 12 + 5);
    // the chunks that were there are byte for byte what they were
    assert_eq!(&output[..8 + 25], &input[..8 + 25]);
    assert_eq!(&output[output.len() - 12..], &input[input.len() - 12..]);
    assert_eq!(
        &output[8 + 25..output.len() - 12],
        &[0, 0, 0, 5, 82, 117, 83, 116, 104, 101, 108, 108, 111, 0x2c, 0xa1, 0x0f, 0xcc]
    );
}

#[test]
fn encode_keeps_text_outside_ascii() {
    let output = encode(&minimal_png(), "RuSt", "gr\u{fc}\u{df}e \u{1f600}").unwrap();
    assert_eq!(
        decode(&output, "RuSt"),
        Ok(Some(String::from("gr\u{fc}\u{df}e \u{1f600}")))
    );
}

#[test]
fn encode_refuses_a_type_that_is_no_four_letters() {
    let input = minimal_png();
    let expected = Err(PngError::Chunk(ChunkError::ChunkType(
        ChunkTypeError::InvalidTypeString,
    )));
    assert_eq!(encode(&input, "Ru1t", "hello"), expected);
    assert_eq!(encode(&input, "RuS", "hello"), expected);
    assert_eq!(encode(&input, "", "hello"), expected);
}

#[test]
fn encode_reports_the_file_before_the_type() {
    assert_eq!(encode(&[1, 2, 3], "Ru1t", "hello"), Err(PngError::TooShort));
    assert_eq!(
        encode(&[0; 20], "RuSt", "hello"),
        Err(PngError::BadSignature)
    );
}

#[test]
fn decode_reads_the_first_chunk_of_the_type() {
    let first = encode(&minimal_png(), "RuSt", "one").unwrap();
    let second = encode(&first, "RuSt", "two").unwrap();
    assert_eq!(types_in(&second), ["IHDR", "RuSt", "RuSt", "IEND"]);
    assert_eq!(decode(&second, "RuSt"), Ok(Some(String::from("one"))));
}

#[test]
fn decode_refuses_a_payload_that_is_no_text() {
    let file = Png::from_chunks(vec![chunk_of("RuSt", &[0xc0, 0x00]), chunk_of("IEND", &[])])
        .as_bytes();
    assert_eq!(
        decode(&file, "RuSt"),
        Err(PngError::Chunk(ChunkError::NonString))
    );
}

#[test]
fn decode_fails_on_what_is_no_png() {
    assert_eq!(decode(&[], "RuSt"), Err(PngError::TooShort));
    let mut cut = minimal_png();
    cut.pop();
    assert_eq!(
        decode(&cut, "RuSt"),
        Err(PngError::Chunk(ChunkError::Length))
    );
}

#[test]
fn remove_undoes_encode() {
    let input = minimal_png();
    let output = encode(&input, "RuSt", "hello").unwrap();
    assert_eq!(remove(&output, "RuSt"), Ok(input.clone()));
    assert_eq!(remove(&input, "RuSt"), Err(PngError::ChunkNotFound));
}

#[test]
fn remove_takes_the_first_of_two() {
    let first = encode(&minimal_png(), "RuSt", "one").unwrap();
    let second = encode(&first, "RuSt", "two").unwrap();
    let left = remove(&second, "RuSt").unwrap();
    assert_eq!(types_in(&left), ["IHDR", "RuSt", "IEND"]);
    assert_eq!(decode(&left, "RuSt"), Ok(Some(String::from("two"))));
}

#[test]
fn remove_fails_on_what_is_no_png() {
    assert_eq!(remove(&[0; 7], "RuSt"), Err(PngError::TooShort));
    assert_eq!(remove(&[0; 8], "RuSt"), Err(PngError::BadSignature));
}

#[test]
fn print_describes_the_file() {
    let text = print(&minimal_png()).unwrap();
    assert_eq!(
        text,
        "Png {\nChunk {\n  Length: 13\n  Type: IHDR\n  Data: 13 bytes\n  Crc: 2423739358\n}\n\
         Chunk {\n  Length: 0\n  Type: IEND\n  Data: 0 bytes\n  Crc: 2923585666\n}\n}\n"
    );
    assert_eq!(print(&[0; 3]), Err(PngError::TooShort));
}

fn outcome_parts(outcome: Outcome) -> (Option<String>, Option<Vec<u8>>, String) {
    match outcome {
        Outcome::Write { path, bytes, notice } => (Some(path), Some(bytes), notice),
        Outcome::Show { text } => (None, None, text),
    }
}

#[test]
fn run_encode_writes_to_the_output_file_or_over_the_input() {
    let input = minimal_png();
    let expected = encode(&input, "RuSt", "hello").unwrap();
    let over = Commands::Encode(Encode {
        file_path: String::from("in.png"),
        chunk_type: String::from("RuSt"),
        message: String::from("hello"),
        output_file: None,
    });
    assert_eq!(over.file_path(), "in.png");
    let (path, bytes, notice) = outcome_parts(over.run(&input).ok().unwrap());
    assert_eq!(path.unwrap(), "in.png");
    assert_eq!(bytes.unwrap(), expected);
    assert_eq!(notice, "Chunk appended");
    let other = Commands::Encode(Encode {
        file_path: String::from("in.png"),
        chunk_type: String::from("RuSt"),
        message: String::from("hello"),
        output_file: Some(String::from("out.png")),
    });
    assert_eq!(other.file_path(), "in.png");
    let (path, bytes, notice) = outcome_parts(other.run(&input).ok().unwrap());
    assert_eq!(path.unwrap(), "out.png");
    assert_eq!(bytes.unwrap(), expected);
    assert_eq!(notice, "Chunk appended");
}

#[test]
fn run_decode_shows_the_message_or_that_there_is_none() {
    let file = encode(&minimal_png(), "RuSt", "hello").unwrap();
    let found = Commands::Decode(Decode {
        file_path: String::from("a.png"),
        chunk_type: String::from("RuSt"),
    });
    assert_eq!(found.file_path(), "a.png");
    let (path, bytes, text) = outcome_parts(found.run(&file).ok().unwrap());
    assert!(path.is_none() && bytes.is_none());
    assert_eq!(text, "Message: hello");
    let missing = Commands::Decode(Decode {
        file_path: String::from("a.png"),
        chunk_type: String::from("teSt"),
    });
    let (_, _, text) = outcome_parts(missing.run(&file).ok().unwrap());
    assert_eq!(text, "Chunk not found");
}

#[test]
fn run_remove_writes_over_the_input() {
    let input = minimal_png();
    let file = encode(&input, "RuSt", "hello").unwrap();
    let command = Commands::Remove(Remove {
        file_path: String::from("b.png"),
        chunk_type: String::from("RuSt"),
    });
    assert_eq!(command.file_path(), "b.png");
    let (path, bytes, notice) = outcome_parts(command.run(&file).ok().unwrap());
    assert_eq!(path.unwrap(), "b.png");
    assert_eq!(bytes.unwrap(), input);
    assert_eq!(notice, "Chunk removed");
    assert_eq!(command.run(&input).err(), Some(PngError::ChunkNotFound));
}

#[test]
fn run_print_shows_the_description() {
    let input = minimal_png();
    let command = Commands::Print(Print {
        file_path: String::from("c.png"),
    });
    assert_eq!(command.file_path(), "c.png");
    let (path, _, text) = outcome_parts(command.run(&input).ok().unwrap());
    assert!(path.is_none());
    assert_eq!(text, print(&input).unwrap());
    assert_eq!(command.run(&[]).err(), Some(PngError::TooShort));
}
