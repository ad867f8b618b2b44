use vstd::prelude::*;

verus! {

/// Parsed command line, free of any argument-parsing machinery: the
/// unverified shell fills this in and hands it over.
#[derive(Debug)]
pub struct Args {
    pub command: Command,
    pub json: bool,
    pub verbose: bool,
    pub quiet: bool,
}

/// The one-shot operations the tool supports.
#[derive(Debug)]
pub enum Command {
    Status,
    Info,
    Ls { path: String, long: bool },
    Pull { remote: String, local: String, recursive: bool },
}

#[derive(Debug, Clone, Copy, PartialEq, Eq, Structural)]
pub enum OutputFormat {
    Human,
    Json,
}

/// Output policy of a run: which format to render, and whether to stay quiet.
pub struct Output {
    format: OutputFormat,
    quiet: bool,
}

impl Output {
    pub closed spec fn spec_format(&self) -> OutputFormat {
        self.format
    }

    pub closed spec fn spec_quiet(&self) -> bool {
        self.quiet
    }

    pub fn new(json: bool, quiet: bool) -> (r: Output)
        ensures
            r.spec_format() == (if json {
                OutputFormat::Json
            } else {
                OutputFormat::Human
            }),
            r.spec_quiet() == quiet,
    {
        Output {
            format: if json {
                OutputFormat::Json
            } else {
                OutputFormat::Human
            },
            quiet,
        }
    }

    pub fn is_json(&self) -> (r: bool)
        ensures
            r == (self.spec_format() is Json),
    {
        matches!(self.format, OutputFormat::Json)
    }

    pub fn is_quiet(&self) -> (r: bool)
        ensures
            r == self.spec_quiet(),
    {
        self.quiet
    }
}

/// Rendering to a line-oriented, human-facing string.  Implemented here for
/// the outputs whose rendering is pure text; the shell renders the rest.
pub trait HumanReadable {
    fn to_human(&self) -> String;
}

} // verus!
