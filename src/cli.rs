//! The three operations the tool offers, and the choice between them.

use vstd::prelude::*;
use crate::convert::ConvertToFlac;

verus! {

/// Apply edited attributes: read from a file, or from standard input where
/// none is named, and write the edited copies into `output`, or the current
/// directory where none is named.
#[derive(Debug)]
pub struct ApplyAttributes {
    pub attributes: Option<String>,
    pub output: Option<String>,
}

/// List the attributes of the files.
#[derive(Debug)]
pub struct List {
    pub files: Vec<String>,
}

#[derive(Debug)]
pub enum Command {
    Apply(ApplyAttributes),
    List(List),
    Convert(ConvertToFlac),
}

#[derive(Debug)]
pub struct Args {
    pub command: Option<Command>,
}

/// The pipeline that runs.
#[derive(Clone, Copy, Debug, PartialEq, Eq)]
pub enum Pipeline {
    Apply,
    List,
    Convert,
    Nothing,
}

pub open spec fn pipeline_of(c: Command) -> Pipeline {
    match c {
        Command::Apply(_) => Pipeline::Apply,
        Command::List(_) => Pipeline::List,
        Command::Convert(_) => Pipeline::Convert,
    }
}

/// The pipeline a command selects.
pub fn dispatch(command: &Command) -> (r: Pipeline)
    ensures
        r == pipeline_of(*command),
{
    match command {
        Command::Apply(_) => Pipeline::Apply,
        Command::List(_) => Pipeline::List,
        Command::Convert(_) => Pipeline::Convert,
    }
}

/// The pipeline the arguments select; nothing runs without a command.
pub fn run(args: &Args) -> (r: Pipeline)
    ensures
        r == match args.command {
            Some(c) => pipeline_of(c),
            None => Pipeline::Nothing,
        },
{
    match &args.command {
        Some(command) => dispatch(command),
        None => Pipeline::Nothing,
    }
}

} // verus!
