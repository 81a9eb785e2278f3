//! The command-line surface: which source the input text comes from,
//! and in which radix the result is printed. The host carries the
//! flag parsing; the decisions stand here.

use vstd::prelude::*;

use crate::lexer::NumberKind;

verus! {

/// The command-line choices: print quietly, print in hexadecimal or
/// binary, read from a file or from an argument (neither means the
/// standard input). The host's argument parser forbids setting both
/// `hex` and `bin`, or both `file` and `content`.
#[derive(Debug, PartialEq)]
pub struct Cli {
    /// Output just the result and nothing else.
    pub quiet: bool,
    /// Output the result in hex (conflicts with `bin`).
    pub hex: bool,
    /// Output the result in binary (conflicts with `hex`).
    pub bin: bool,
    /// The file from which to read input.
    pub file: Option<String>,
    /// The expression given directly on the command line.
    pub content: Option<String>,
}

/// Where the input text comes from.
#[derive(Debug, PartialEq)]
pub enum ContentSource<'a> {
    File(&'a String),
    Arg(&'a str),
    Stdin,
}

impl Cli {
    /// The source of the input text: a file when one is named, the
    /// direct argument when one is given, the standard input
    /// otherwise. The argument parser never hands over both.
    pub fn content_source<'a>(&'a self) -> (r: ContentSource<'a>)
        requires
            !(self.file is Some && self.content is Some),
        ensures
            self.file is Some ==> r is File,
            self.file is None && self.content is Some ==> r is Arg,
            self.file is None && self.content is None ==> r is Stdin,
    {
        match (&self.file, &self.content) {
            (None, None) => ContentSource::Stdin,
            (None, Some(content)) => ContentSource::Arg(content.as_str()),
            (Some(file), _) => ContentSource::File(file),
        }
    }

    /// The radix of the printed result: decimal unless one of the two
    /// flags asks otherwise. The argument parser never sets both.
    pub fn output_format(&self) -> (k: NumberKind)
        requires
            !(self.hex && self.bin),
        ensures
            k == (if self.hex {
                NumberKind::Hex
            } else if self.bin {
                NumberKind::Bin
            } else {
                NumberKind::Dec
            }),
    {
        match (self.hex, self.bin) {
            (true, false) => NumberKind::Hex,
            (false, true) => NumberKind::Bin,
            _ => NumberKind::Dec,
        }
    }
}

} // verus!
