//! What a user can ask for, and what is to be done about it once the file
//! has been read.
use crate::commands::decode;
use crate::commands::decoded;
use crate::commands::encode;
use crate::commands::encoded;
use crate::commands::print;
use crate::commands::printed;
use crate::commands::remove;
use crate::commands::removed;
use crate::png::PngError;
use vstd::prelude::*;
use vstd::utf8::encode_utf8;

verus! {

/// A request as the command line gives it.
pub struct Cli {
    pub command: Commands,
}

/// The four requests.
pub enum Commands {
    Encode(Encode),
    Decode(Decode),
    Remove(Remove),
    Print(Print),
}

/// Hide `message` in the file at `file_path`, in a new chunk of type
/// `chunk_type`, and write the result to `output_file`, or over the file
/// itself where none is given.
pub struct Encode {
    pub file_path: String,
    pub chunk_type: String,
    pub message: String,
    pub output_file: Option<String>,
}

/// Show the message that the file at `file_path` carries in its first chunk
/// of type `chunk_type`.
pub struct Decode {
    pub file_path: String,
    pub chunk_type: String,
}

/// Remove from the file at `file_path` its first chunk of type `chunk_type`.
pub struct Remove {
    pub file_path: String,
    pub chunk_type: String,
}

/// Describe the chunks of the file at `file_path`.
pub struct Print {
    pub file_path: String,
}

/// What is left to do once a request has been worked out.
pub enum Outcome {
    /// Write `bytes` to the file at `path`, then tell the user `notice`.
    Write { path: String, bytes: Vec<u8>, notice: String },
    /// Tell the user `text`.
    Show { text: String },
}

/// What an `Outcome` holds.
pub enum OutcomeView {
    Write { path: Seq<char>, bytes: Seq<u8>, notice: Seq<char> },
    Show { text: Seq<char> },
}

impl View for Outcome {
    type V = OutcomeView;

    open spec fn view(&self) -> OutcomeView {
        match self {
            Outcome::Write { path, bytes, notice } => OutcomeView::Write {
                path: path@,
                bytes: bytes@,
                notice: notice@,
            },
            Outcome::Show { text } => OutcomeView::Show { text: text@ },
        }
    }
}

impl Encode {
    /// Where the result is written: the output file if one was named, else
    /// the file that was read.
    pub open spec fn destination(self) -> Seq<char> {
        match self.output_file {
            Some(path) => path@,
            None => self.file_path@,
        }
    }
}

impl Commands {
    /// The path of the file that the request is about.
    pub open spec fn source(self) -> Seq<char> {
        match self {
            Commands::Encode(args) => args.file_path@,
            Commands::Decode(args) => args.file_path@,
            Commands::Remove(args) => args.file_path@,
            Commands::Print(args) => args.file_path@,
        }
    }

    /// What is to be done for the request when its file holds `input`.
    /// Encoding and removing write the new file and say so; decoding shows
    /// the message, or that there is none; printing shows the description.
    pub open spec fn outcome(self, input: Seq<u8>) -> Result<OutcomeView, PngError> {
        match self {
            Commands::Encode(args) => match encoded(input, args.chunk_type@, args.message@) {
                Err(e) => Err(e),
                Ok(bytes) => Ok(
                    OutcomeView::Write {
                        path: args.destination(),
                        bytes,
                        notice: "Chunk appended"@,
                    },
                ),
            },
            Commands::Decode(args) => match decoded(input, args.chunk_type@) {
                Err(e) => Err(e),
                Ok(Some(message)) => Ok(OutcomeView::Show { text: "Message: "@ + message }),
                Ok(None) => Ok(OutcomeView::Show { text: "Chunk not found"@ }),
            },
            Commands::Remove(args) => match removed(input, args.chunk_type@) {
                Err(e) => Err(e),
                Ok(bytes) => Ok(
                    OutcomeView::Write { path: args.file_path@, bytes, notice: "Chunk removed"@ },
                ),
            },
            Commands::Print(args) => match printed(input) {
                Err(e) => Err(e),
                Ok(text) => Ok(OutcomeView::Show { text }),
            },
        }
    }

    /// The path of the file that the request is about: the file to read.
    pub fn file_path(&self) -> (r: &String)
        ensures
            r@ == self.source(),
    {
        match self {
            Commands::Encode(args) => &args.file_path,
            Commands::Decode(args) => &args.file_path,
            Commands::Remove(args) => &args.file_path,
            Commands::Print(args) => &args.file_path,
        }
    }

    /// Works out the request on the contents `input` of its file, and says
    /// what is left to do: which file to write and what to tell the user.
    /// The message of an encode request must fit the length field of a
    /// chunk.
    pub fn run(&self, input: &[u8]) -> (r: Result<Outcome, PngError>)
        requires
            self matches Commands::Encode(args) ==> encode_utf8(args.message@).len() <= u32::MAX,
        ensures
            match r {
                Ok(outcome) => self.outcome(input@) == Ok::<OutcomeView, PngError>(outcome@),
                Err(e) => self.outcome(input@) == Err::<OutcomeView, PngError>(e),
            },
    {
        match self {
            Commands::Encode(args) => {
                let bytes = encode(input, args.chunk_type.as_str(), args.message.as_str())?;
                let path = match &args.output_file {
                    Some(file) => file.clone(),
                    None => args.file_path.clone(),
                };
                Ok(Outcome::Write { path, bytes, notice: String::from_str("Chunk appended") })
            },
            Commands::Decode(args) => {
                let text = match decode(input, args.chunk_type.as_str())? {
                    Some(message) => String::from_str("Message: ").concat(message.as_str()),
                    None => String::from_str("Chunk not found"),
                };
                Ok(Outcome::Show { text })
            },
            Commands::Remove(args) => {
                let bytes = remove(input, args.chunk_type.as_str())?;
                Ok(
                    Outcome::Write {
                        path: args.file_path.clone(),
                        bytes,
                        notice: String::from_str("Chunk removed"),
                    },
                )
            },
            Commands::Print(args) => {
                let text = print(input)?;
                Ok(Outcome::Show { text })
            },
        }
    }
}

} // verus!
