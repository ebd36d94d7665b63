//! The requests the command-line front end hands to the entry points: plain
//! data, already split into fields. Argument parsing itself lives outside
//! the library.
use vstd::prelude::*;

verus! {

/// A whole invocation: one subcommand.
#[derive(Debug)]
pub struct PngMeArgs {
    pub command_type: PngSubcommand,
}

/// Which entry point to run, with its request.
#[derive(Debug)]
pub enum PngSubcommand {
    Encode(EncodePng),
    Decode(DecodePng),
    Remove(RemovePng),
    Print(PrintPng),
}

/// Embed a message under an identifier in the file at `file_path`, writing
/// to `output_path` if given, else back in place.
#[derive(Debug)]
pub struct EncodePng {
    pub file_path: String,
    pub chunk_type: String,
    pub message: String,
    pub output_path: Option<String>,
}

/// Look up the chunk carrying `chunk_type` in the file at `file_path`.
#[derive(Debug)]
pub struct DecodePng {
    pub file_path: String,
    pub chunk_type: String,
}

/// Remove the chunk carrying `chunk_type` from the file at `file_path`.
#[derive(Debug)]
pub struct RemovePng {
    pub file_path: String,
    pub chunk_type: String,
}

/// Show every chunk of the file at `file_path`.
#[derive(Debug)]
pub struct PrintPng {
    pub file_path: String,
}

} // verus!
