//! The parts of an EPUB canonical fragment identifier (CFI): a path of
//! steps into a document, an optional range of two local paths, and what
//! may end a path (an offset or a redirection).
use vstd::prelude::*;

verus! {

/// A fragment: a path, and a range below it.
pub struct Fragment {
    pub path: Path,
    pub range: Option<Range>,
}

/// A path: its local path.
pub struct Path {
    pub local_path: Box<LocalPath>,
}

/// A range: the local paths of its start and of its end.
pub struct Range {
    pub start: LocalPath,
    pub end: LocalPath,
}

/// A local path: its steps and what ends it.
pub struct LocalPath {
    pub steps: Vec<Step>,
    pub end: Option<Box<EndOfPath>>,
}

/// What ends a local path.
pub enum EndOfPath {
    RedirectedPath(Box<RedirectedPath>),
    Offset(Offset),
}

/// A redirection: an offset and a path.
pub struct RedirectedPath {
    pub offset: Option<Offset>,
    pub path: Option<Box<Path>>,
}

/// A step: its index (as written) and its assertion.
pub struct Step {
    pub integer: String,
    pub assertion: Option<String>,
}

/// An offset.
pub enum Offset {
    SimpleOffset(String),
    OffsetWithReference(String, String),
    IdAssertion(String, Option<(String, String)>),
}

impl Fragment {
    /// The fragment of these parts.
    pub fn new(path: Path, range: Option<Range>) -> (r: Self)
        ensures
            r.path == path,
            r.range == range,
    {
        Fragment { path, range }
    }
}

impl Path {
    /// The path of this local path.
    pub fn new(local_path: LocalPath) -> (r: Self)
        ensures
            *r.local_path == local_path,
    {
        Path { local_path: Box::new(local_path) }
    }
}

impl Range {
    /// The range of these local paths.
    pub fn new(start: LocalPath, end: LocalPath) -> (r: Self)
        ensures
            r.start == start,
            r.end == end,
    {
        Range { start, end }
    }
}

impl LocalPath {
    /// The local path of these steps and end.
    pub fn new(steps: Vec<Step>, end: Option<EndOfPath>) -> (r: Self)
        ensures
            r.steps == steps,
            match end {
                Some(e) => r.end matches Some(b) && *b == e,
                None => r.end is None,
            },
    {
        let end = match end {
            Some(e) => Some(Box::new(e)),
            None => None,
        };
        LocalPath { steps, end }
    }
}

impl EndOfPath {
    /// The end that redirects.
    pub fn redirected_path(redirected_path: RedirectedPath) -> (r: Self)
        ensures
            r matches EndOfPath::RedirectedPath(b) && *b == redirected_path,
    {
        EndOfPath::RedirectedPath(Box::new(redirected_path))
    }

    /// The end at an offset.
    pub fn offset(offset: Offset) -> (r: Self)
        ensures
            r == EndOfPath::Offset(offset),
    {
        EndOfPath::Offset(offset)
    }
}

impl RedirectedPath {
    /// The redirection of these parts.
    pub fn new(offset: Option<Offset>, path: Option<Path>) -> (r: Self)
        ensures
            r.offset == offset,
            match path {
                Some(p) => r.path matches Some(b) && *b == p,
                None => r.path is None,
            },
    {
        let path = match path {
            Some(p) => Some(Box::new(p)),
            None => None,
        };
        RedirectedPath { offset, path }
    }
}

impl Step {
    /// The step of this index and assertion.
    pub fn new(integer: String, assertion: Option<String>) -> (r: Self)
        ensures
            r.integer == integer,
            r.assertion == assertion,
    {
        Step { integer, assertion }
    }
}

impl Offset {
    /// A plain offset.
    pub fn simple_offset(value: String) -> (r: Self)
        ensures
            r == Offset::SimpleOffset(value),
    {
        Offset::SimpleOffset(value)
    }

    /// An offset with a reference.
    pub fn offset_with_reference(val1: String, val2: String) -> (r: Self)
        ensures
            r == Offset::OffsetWithReference(val1, val2),
    {
        Offset::OffsetWithReference(val1, val2)
    }

    /// An id assertion.
    pub fn id_assertion(val: String, reference: Option<(String, String)>) -> (r: Self)
        ensures
            r == Offset::IdAssertion(val, reference),
    {
        Offset::IdAssertion(val, reference)
    }
}

/// A token of a CFI text: an operator, the word `epubcfi`, a number or a
/// value.
pub enum Token<'source> {
    Slash,
    Colon,
    At,
    Tilde,
    Comma,
    Semicolon,
    Equals,
    OpenBracket,
    CloseBracket,
    OpenParen,
    CloseParen,
    Circumflex,
    Exclamation,
    EpubCFI,
    Integer(&'source str),
    Zero,
    ValueSpace(&'source str),
    ValueNoSpace(&'source str),
    Number(&'source str),
    Whitespace,
    Error,
}

} // verus!
