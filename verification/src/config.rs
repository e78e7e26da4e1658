//! What a run of the filter is given, and the endpoints that it names.

use vstd::prelude::*;
use vstd::string::*;

verus! {

/// The settings of one run of the filter.
#[derive(Debug, PartialEq, Eq)]
pub struct Config {
    /// The input: `-` for the standard input, else the path of a file.
    pub in_file: String,
    /// The path of the output file; without one the standard output is
    /// written to.
    pub out_file: Option<String>,
    /// Whether each line is written with the count of its run in front.
    pub count: bool,
}

/// Where the lines are read from.
#[derive(Debug, PartialEq, Eq)]
pub enum Source {
    Stdin,
    File(String),
}

/// Where the records are written to. A file is appended to, and made if it
/// is not there.
#[derive(Debug, PartialEq, Eq)]
pub enum Sink {
    Stdout,
    File(String),
}

/// What a `Source` is in contracts.
pub enum SourceView {
    Stdin,
    File(Seq<char>),
}

/// What a `Sink` is in contracts.
pub enum SinkView {
    Stdout,
    File(Seq<char>),
}

impl View for Source {
    type V = SourceView;

    open spec fn view(&self) -> SourceView {
        match self {
            Source::Stdin => SourceView::Stdin,
            Source::File(path) => SourceView::File(path@),
        }
    }
}

impl View for Sink {
    type V = SinkView;

    open spec fn view(&self) -> SinkView {
        match self {
            Sink::Stdout => SinkView::Stdout,
            Sink::File(path) => SinkView::File(path@),
        }
    }
}

/// The source that the name `in_file` stands for: the standard input for a
/// single hyphen, the file of that path for any other name.
pub open spec fn source_of(in_file: Seq<char>) -> SourceView {
    if in_file == seq!['-'] {
        SourceView::Stdin
    } else {
        SourceView::File(in_file)
    }
}

/// The sink that `out_file` stands for.
pub open spec fn sink_of(out_file: Option<String>) -> SinkView {
    match out_file {
        Some(path) => SinkView::File(path@),
        None => SinkView::Stdout,
    }
}

/// The message for an input that could not be opened: the input's name, a
/// colon, a space, and the cause.
pub open spec fn open_error_text(in_file: Seq<char>, cause: Seq<char>) -> Seq<char> {
    in_file + seq![':', ' '] + cause
}

impl Config {
    /// Where this run reads from.
    pub fn source(&self) -> (r: Source)
        ensures
            r@ == source_of(self.in_file@),
    {
        proof {
            reveal_strlit("-");
            assert("-"@ =~= seq!['-']);
        }
        if self.in_file.as_str().eq("-") {
            Source::Stdin
        } else {
            Source::File(self.in_file.clone())
        }
    }

    /// Where this run writes to.
    pub fn sink(&self) -> (r: Sink)
        ensures
            r@ == sink_of(self.out_file),
    {
        match &self.out_file {
            Some(path) => Sink::File(path.clone()),
            None => Sink::Stdout,
        }
    }
}

/// The message for the input `in_file` that could not be opened because of
/// `cause`.
pub fn open_error(in_file: &str, cause: &str) -> (r: String)
    ensures
        r@ == open_error_text(in_file@, cause@),
{
    proof {
        reveal_strlit(": ");
        assert(": "@ =~= seq![':', ' ']);
    }
    let mut s = String::from_str(in_file);
    s.append(": ");
    s.append(cause);
    s
}

} // verus!
