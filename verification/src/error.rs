use vstd::prelude::*;

use crate::program::{FileLocation, LocV};
use crate::token::Marker;

verus! {

/// Fault while obtaining source text: an I/O failure, carrying the path and
/// a description of the underlying error.
#[derive(Debug)]
pub enum LexingError {
    FileIo(String, String),
}

/// Mathematical value of a [`LexingError`].
pub enum LexingErrorV {
    FileIo(Seq<char>, Seq<char>),
}

impl View for LexingError {
    type V = LexingErrorV;

    open spec fn view(&self) -> LexingErrorV {
        match self {
            LexingError::FileIo(path, msg) => LexingErrorV::FileIo(path@, msg@),
        }
    }
}

/// A marker that appeared where the grammar does not allow it.
#[derive(Clone, Copy, Debug, PartialEq, Eq, Structural)]
pub enum UnexpectedMarker {
    /// The first marker may only appear right after the second one has
    /// opened a condition block (`if*` after `else`).
    General(Marker, Marker),
    /// A block marker with no construct to attach to.
    FreeFloating(Marker),
    /// A marker repeated within the block named by the second marker.
    Repeated(Marker, Marker),
    /// A marker that has no meaning inside the block named by the second
    /// marker.
    NotApplicable(Marker, Marker),
}

/// A marker the grammar required but never saw.
#[derive(Clone, Copy, Debug, PartialEq, Eq, Structural)]
pub enum MissingMarker {
    /// The token source ran out before the block's `end`.
    BlockNotClosed,
    /// The block named by the second marker requires the first marker
    /// (`while` requires a `do`).
    RequiredByBlock(Marker, Marker),
}

/// A fault detected while parsing; all of these stop the parse at once.
#[derive(Debug)]
pub enum ParsingError {
    UnexpectedMarker(Marker, UnexpectedMarker),
    MissingMarker(Marker, MissingMarker),
    UnknownWord(Vec<u8>),
}

/// Mathematical value of a [`ParsingError`].
pub enum ParsingErrorV {
    UnexpectedMarker(Marker, UnexpectedMarker),
    MissingMarker(Marker, MissingMarker),
    UnknownWord(Seq<u8>),
}

impl View for ParsingError {
    type V = ParsingErrorV;

    open spec fn view(&self) -> ParsingErrorV {
        match self {
            ParsingError::UnexpectedMarker(m, e) => ParsingErrorV::UnexpectedMarker(*m, *e),
            ParsingError::MissingMarker(m, e) => ParsingErrorV::MissingMarker(*m, *e),
            ParsingError::UnknownWord(text) => ParsingErrorV::UnknownWord(text@),
        }
    }
}

/// A fault detected while evaluating; all of these halt evaluation at once.
#[derive(Clone, Copy, Debug, PartialEq, Eq, Structural)]
pub enum SimulationError {
    /// A pop was asked of an empty value stack.
    StackUnderflow,
    /// `divmod` with a zero divisor.
    DivideByZero,
    /// The caller's step budget ran out before the program finished. The
    /// evaluator counts one step per loop pass so that every run provably
    /// terminates; a program that loops forever ends in this fault once the
    /// budget — `u64::MAX` for [`crate::simulate::simulate`] — is spent.
    StepLimit,
}

/// Which stage a fault belongs to.
#[derive(Debug)]
pub enum ErrorKind {
    Lexing(LexingError),
    Parsing(ParsingError),
    Simulation(SimulationError),
}

/// Mathematical value of an [`ErrorKind`].
pub enum ErrorKindV {
    Lexing(LexingErrorV),
    Parsing(ParsingErrorV),
    Simulation(SimulationError),
}

impl View for ErrorKind {
    type V = ErrorKindV;

    open spec fn view(&self) -> ErrorKindV {
        match self {
            ErrorKind::Lexing(e) => ErrorKindV::Lexing(e@),
            ErrorKind::Parsing(e) => ErrorKindV::Parsing(e@),
            ErrorKind::Simulation(e) => ErrorKindV::Simulation(*e),
        }
    }
}

/// The kind of a supplementary note attached to an error.
#[derive(Clone, Copy, Debug, PartialEq, Eq, Structural)]
pub enum InfoKind {
    /// Points at the marker that opened the block the error belongs to.
    BlockStart(Marker),
}

/// A supplementary note: its kind and the location it points at.
#[derive(Debug)]
pub struct Info {
    pub kind: InfoKind,
    pub loc: FileLocation,
}

/// Mathematical value of an [`Info`].
pub struct InfoV {
    pub kind: InfoKind,
    pub loc: LocV,
}

impl View for Info {
    type V = InfoV;

    open spec fn view(&self) -> InfoV {
        InfoV { kind: self.kind, loc: self.loc@ }
    }
}

pub open spec fn view_infos(s: Seq<Info>) -> Seq<InfoV> {
    s.map_values(|x: Info| x@)
}

/// A structured diagnostic: an error kind, an optional primary location, and
/// an ordered list of supplementary notes.
///
/// An error is raised without a location; the nearest enclosing frame that
/// knows one attaches it, exactly once. Outer contexts append notes in
/// unwind order without touching the primary location.
#[derive(Debug)]
pub struct Error {
    pub kind: ErrorKind,
    pub loc: Option<FileLocation>,
    pub info_stack: Vec<Info>,
}

/// Mathematical value of an [`Error`].
pub struct ErrV {
    pub kind: ErrorKindV,
    pub loc: Option<LocV>,
    pub infos: Seq<InfoV>,
}

impl View for Error {
    type V = ErrV;

    open spec fn view(&self) -> ErrV {
        ErrV {
            kind: self.kind@,
            loc: match self.loc {
                Some(ref l) => Some(l@),
                None => None,
            },
            infos: view_infos(self.info_stack@),
        }
    }
}

impl Error {
    /// A fresh error of the given kind, with no location and no notes.
    pub fn new(kind: ErrorKind) -> (r: Self)
        ensures
            r@ == (ErrV { kind: kind@, loc: None, infos: Seq::<InfoV>::empty() }),
    {
        let r = Error { kind, loc: None, info_stack: Vec::new() };
        proof {
            assert(view_infos(r.info_stack@) =~= Seq::<InfoV>::empty());
        }
        r
    }

    /// An I/O fault while opening or reading the source file, for the
    /// caller that performs the reading.
    pub fn file_io(path: String, message: String) -> (r: Self)
        ensures
            r@ == (ErrV {
                kind: ErrorKindV::Lexing(LexingErrorV::FileIo(path@, message@)),
                loc: None,
                infos: Seq::<InfoV>::empty(),
            }),
    {
        Error::new(ErrorKind::Lexing(LexingError::FileIo(path, message)))
    }

    /// The notes attached so far, in the order they were appended.
    pub fn info_stack(&self) -> (r: &Vec<Info>)
        ensures
            view_infos(r@) == self@.infos,
    {
        &self.info_stack
    }

    /// Sets the primary location of the error.
    pub fn add_loc(self, loc: FileLocation) -> (r: Self)
        ensures
            r@ == (ErrV { loc: Some(loc@), ..self@ }),
    {
        Error { loc: Some(loc), ..self }
    }

    /// Whether a primary location has been attached already.
    pub fn has_loc(&self) -> (r: bool)
        ensures
            r == (self@.loc is Some),
    {
        self.loc.is_some()
    }

    /// Appends one note at the end of the note list.
    pub fn push_info(self, kind: InfoKind, loc: FileLocation) -> (r: Self)
        ensures
            r@ == (ErrV { infos: self@.infos.push(InfoV { kind, loc: loc@ }), ..self@ }),
    {
        let mut info_stack = self.info_stack;
        let ghost before = info_stack@;
        info_stack.push(Info { kind, loc });
        proof {
            assert(view_infos(info_stack@) =~= view_infos(before).push(
                InfoV { kind, loc: loc@ },
            ));
        }
        Error { info_stack, ..self }
    }
}

impl ParsingError {
    pub fn into_error(self) -> (r: Error)
        ensures
            r@ == (ErrV {
                kind: ErrorKindV::Parsing(self@),
                loc: None,
                infos: Seq::<InfoV>::empty(),
            }),
    {
        Error::new(ErrorKind::Parsing(self))
    }
}

impl MissingMarker {
    pub fn into_error(self, marker: Marker) -> (r: Error)
        ensures
            r@ == (ErrV {
                kind: ErrorKindV::Parsing(ParsingErrorV::MissingMarker(marker, self)),
                loc: None,
                infos: Seq::<InfoV>::empty(),
            }),
    {
        ParsingError::MissingMarker(marker, self).into_error()
    }
}

impl UnexpectedMarker {
    pub fn into_error(self, marker: Marker) -> (r: Error)
        ensures
            r@ == (ErrV {
                kind: ErrorKindV::Parsing(ParsingErrorV::UnexpectedMarker(marker, self)),
                loc: None,
                infos: Seq::<InfoV>::empty(),
            }),
    {
        ParsingError::UnexpectedMarker(marker, self).into_error()
    }
}

impl SimulationError {
    pub fn into_error(self) -> (r: Error)
        ensures
            r@ == (ErrV {
                kind: ErrorKindV::Simulation(self),
                loc: None,
                infos: Seq::<InfoV>::empty(),
            }),
    {
        Error::new(ErrorKind::Simulation(self))
    }
}

} // verus!
