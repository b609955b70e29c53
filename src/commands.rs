use vstd::prelude::*;
use vstd::string::StringSliceAdditionalSpecFns;
use vstd::utf8::{decode_utf8, encode_utf8, valid_utf8};

use crate::chunk::{copy_bytes, Chunk};
use crate::chunk_type::{all_letters, ChunkType};
use crate::error::PngError;
use crate::png::{file_bytes, is_first_match, no_match, parse_file, Png};

verus! {

/// What the user asked for, with the file it concerns.
#[derive(Debug)]
pub enum Commands {
    /// Hide `message` in a chunk of type `chunk_type`, written to
    /// `output_file` if given, else back to `file_path`.
    Encode {
        file_path: String,
        chunk_type: String,
        message: String,
        output_file: Option<String>,
    },
    /// Show the message in the first chunk of type `chunk_type`.
    Decode { file_path: String, chunk_type: String },
    /// Take out the first chunk of type `chunk_type`.
    Remove { file_path: String, chunk_type: String },
    /// Show the file's chunks.
    Print { file_path: String },
}

/// The parsed command line.
#[derive(Debug)]
pub struct Cli {
    pub command: Commands,
}

/// What is left to do once a command has been decided.
#[derive(Debug)]
pub enum Outcome {
    /// Write `contents` to the file at `path`.
    Write { path: String, contents: Vec<u8> },
    /// Show the message found, or that there is none.
    Message(Option<String>),
    /// Nothing to do.
    Nothing,
}

/// `b` is a well-formed type code: four ASCII letters.
pub open spec fn code_ok(b: Seq<u8>) -> bool {
    b.len() == 4 && all_letters(b)
}

/// A message to encode fits in a chunk's 32-bit length field.
pub open spec fn fits(c: Commands) -> bool {
    c matches Commands::Encode { message, .. } ==> encode_utf8(message@).len() <= u32::MAX
}

/// What `run` gives for `command` on the file `file`.
pub open spec fn run_result(command: Commands, file: Seq<u8>, r: Result<Outcome, PngError>) -> bool {
    match command {
        Commands::Encode { file_path, chunk_type, message, output_file } => match parse_file(file) {
            Err(e) => r == Err::<Outcome, PngError>(e),
            Ok(cs) => if !code_ok(encode_utf8(chunk_type@)) {
                r == Err::<Outcome, PngError>(PngError::InvalidTypeCode)
            } else {
                r matches Ok(Outcome::Write { path, contents }) && path@ == (match output_file {
                    Some(o) => o@,
                    None => file_path@,
                }) && contents@ == file_bytes(
                    cs.push((encode_utf8(chunk_type@), encode_utf8(message@))),
                )
            },
        },
        Commands::Decode { file_path, chunk_type } => match parse_file(file) {
            Err(e) => r == Err::<Outcome, PngError>(e),
            Ok(cs) => {
                let code = encode_utf8(chunk_type@);
                if no_match(cs, code) {
                    r matches Ok(Outcome::Message(None))
                } else {
                    exists|i: int|
                        is_first_match(cs, code, i) && if valid_utf8(#[trigger] cs[i].1) {
                            r matches Ok(Outcome::Message(Some(s))) && s@ == decode_utf8(cs[i].1)
                        } else {
                            r == Err::<Outcome, PngError>(PngError::Utf8DecodeError)
                        }
                }
            },
        },
        Commands::Remove { file_path, chunk_type } => match parse_file(file) {
            Err(e) => r == Err::<Outcome, PngError>(e),
            Ok(cs) => {
                let code = encode_utf8(chunk_type@);
                if no_match(cs, code) {
                    r == Err::<Outcome, PngError>(PngError::NotFound)
                } else {
                    exists|i: int|
                        #[trigger] is_first_match(cs, code, i) && (r matches Ok(
                            Outcome::Write { path, contents },
                        ) && path@ == file_path@ && contents@ == file_bytes(cs.remove(i)))
                }
            },
        },
        Commands::Print { .. } => r matches Ok(Outcome::Nothing),
    }
}

/// Decides a command on the bytes of the file it names.
pub fn run(args: &Cli, file: &[u8]) -> (r: Result<Outcome, PngError>)
    requires
        fits(args.command),
    ensures
        run_result(args.command, file@, r),
{
    match &args.command {
        Commands::Encode { file_path, chunk_type, message, output_file } => {
            let mut png = match Png::parse(file) {
                Ok(p) => p,
                Err(e) => return Err(e),
            };
            let code = match ChunkType::from_string(chunk_type.as_str()) {
                Ok(c) => c,
                Err(e) => return Err(e),
            };
            let data = copy_bytes(message.as_str().as_bytes());
            png.append(Chunk::new(code, data));
            let contents = png.serialize();
            let path = match output_file {
                Some(o) => o.clone(),
                None => file_path.clone(),
            };
            Ok(Outcome::Write { path, contents })
        },
        Commands::Decode { file_path, chunk_type } => {
            let png = match Png::parse(file) {
                Ok(p) => p,
                Err(e) => return Err(e),
            };
            match png.find_by_type(chunk_type.as_str()) {
                Some(c) => match c.data_as_string() {
                    Ok(s) => Ok(Outcome::Message(Some(s))),
                    Err(e) => Err(e),
                },
                None => Ok(Outcome::Message(None)),
            }
        },
        Commands::Remove { file_path, chunk_type } => {
            let mut png = match Png::parse(file) {
                Ok(p) => p,
                Err(e) => return Err(e),
            };
            match png.remove_by_type(chunk_type.as_str()) {
                Ok(_) => {
                    let contents = png.serialize();
                    Ok(Outcome::Write { path: file_path.clone(), contents })
                },
                Err(e) => Err(e),
            }
        },
        Commands::Print { .. } => Ok(Outcome::Nothing),
    }
}

} // verus!
