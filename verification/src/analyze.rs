//! The front end: from source text to a checked syntax tree.

use vstd::prelude::*;

pub mod ast;
pub mod lex;
pub mod semantics;

verus! {

/// A half-open range of character positions in a source text.
#[derive(Debug, Clone, Copy, PartialEq, Eq, Structural)]
pub struct TextRange {
    pub start: usize,
    pub end: usize,
}

/// The number under which a source file is known.
pub type FileId = usize;

/// A range of text in one source file.
#[derive(Debug, Clone, Copy, PartialEq, Eq, Structural)]
pub struct Span {
    pub file: FileId,
    pub range: TextRange,
}

impl View for Span {
    type V = Span;

    open spec fn view(&self) -> Span {
        *self
    }
}

/// The span of the characters from `start` up to `end` in `file`.
pub open spec fn spanning(file: FileId, start: usize, end: usize) -> Span {
    Span { file, range: TextRange { start, end } }
}

pub fn make_span(file: FileId, start: usize, end: usize) -> (r: Span)
    ensures
        r == spanning(file, start, end),
{
    Span { file, range: TextRange { start, end } }
}

#[derive(Debug, Clone, Copy, PartialEq, Eq, Structural)]
pub enum ErrorCode {
    MissingSemicolon,
}

/// A message for the author of the program, with the places it speaks of.
pub struct Error {
    pub span: Span,
    pub code: Option<ErrorCode>,
    pub message: String,
    pub labels: Vec<(Span, String)>,
    pub notes: Vec<(Span, String)>,
}

/// What an [`Error`] says.
pub struct ErrorV {
    pub span: Span,
    pub code: Option<ErrorCode>,
    pub message: Seq<char>,
    pub labels: Seq<(Span, Seq<char>)>,
    pub notes: Seq<(Span, Seq<char>)>,
}

pub open spec fn remarks(v: Seq<(Span, String)>) -> Seq<(Span, Seq<char>)> {
    v.map_values(|r: (Span, String)| (r.0, r.1@))
}

impl View for Error {
    type V = ErrorV;

    open spec fn view(&self) -> ErrorV {
        ErrorV {
            span: self.span,
            code: self.code,
            message: self.message@,
            labels: remarks(self.labels@),
            notes: remarks(self.notes@),
        }
    }
}

impl ErrorV {
    /// An error at a place, about which nothing is said yet.
    pub open spec fn at(span: Span) -> ErrorV {
        ErrorV {
            span,
            code: None,
            message: Seq::empty(),
            labels: Seq::empty(),
            notes: Seq::empty(),
        }
    }

    pub open spec fn says(self, message: Seq<char>) -> ErrorV {
        ErrorV { message, ..self }
    }

    pub open spec fn label(self, span: Span, text: Seq<char>) -> ErrorV {
        ErrorV { labels: self.labels.push((span, text)), ..self }
    }

    pub open spec fn note(self, span: Span, text: Seq<char>) -> ErrorV {
        ErrorV { notes: self.notes.push((span, text)), ..self }
    }

    pub open spec fn coded(self, code: ErrorCode) -> ErrorV {
        ErrorV { code: Some(code), ..self }
    }

    /// The source text ended too early.
    pub open spec fn unexpected_eof(span: Span) -> ErrorV {
        ErrorV::at(span).says("unexpected end of file"@)
    }

    /// Another token was expected.
    pub open spec fn unexpected_token(span: Span, text: Seq<char>) -> ErrorV {
        ErrorV::at(span).says("unexpected token"@).label(span, text)
    }

    /// An error with one label at its own place.
    pub open spec fn simple(span: Span, message: Seq<char>, text: Seq<char>) -> ErrorV {
        ErrorV::at(span).says(message).label(span, text)
    }
}

impl Error {
    pub fn at(span: Span) -> (r: Error)
        ensures
            r@ == ErrorV::at(span),
    {
        let r = Error {
            span,
            code: None,
            message: String::new(),
            labels: Vec::new(),
            notes: Vec::new(),
        };
        proof {
            assert(r@.labels =~= ErrorV::at(span).labels);
            assert(r@.notes =~= ErrorV::at(span).notes);
        }
        r
    }

    pub fn with_message(self, message: &str) -> (r: Error)
        ensures
            r@ == self@.says(message@),
    {
        Error { message: message.to_owned(), ..self }
    }

    pub fn with_label(self, span: Span, text: &str) -> (r: Error)
        ensures
            r@ == self@.label(span, text@),
    {
        let mut labels = self.labels;
        let ghost before = labels@;
        labels.push((span, text.to_owned()));
        proof {
            assert(remarks(labels@) =~= remarks(before).push((span, text@)));
        }
        Error { span: self.span, code: self.code, message: self.message, labels, notes: self.notes }
    }

    pub fn with_note(self, span: Span, text: &str) -> (r: Error)
        ensures
            r@ == self@.note(span, text@),
    {
        let mut notes = self.notes;
        let ghost before = notes@;
        notes.push((span, text.to_owned()));
        proof {
            assert(remarks(notes@) =~= remarks(before).push((span, text@)));
        }
        Error { span: self.span, code: self.code, message: self.message, labels: self.labels, notes }
    }

    pub fn with_code(self, code: ErrorCode) -> (r: Error)
        ensures
            r@ == self@.coded(code),
    {
        Error { code: Some(code), ..self }
    }

    pub fn unexpected_eof(span: Span) -> (r: Error)
        ensures
            r@ == ErrorV::unexpected_eof(span),
    {
        Error::at(span).with_message("unexpected end of file")
    }

    pub fn unexpected_token(span: Span, text: &str) -> (r: Error)
        ensures
            r@ == ErrorV::unexpected_token(span, text@),
    {
        Error::at(span).with_message("unexpected token").with_label(span, text)
    }

    /// An error with one label at its own place.
    pub fn simple(span: Span, message: &str, text: &str) -> (r: Error)
        ensures
            r@ == ErrorV::simple(span, message@, text@),
    {
        Error::at(span).with_message(message).with_label(span, text)
    }
}

pub open spec fn error_views(v: Seq<Error>) -> Seq<ErrorV> {
    v.map_values(|e: Error| e@)
}

/// Errors that were taken out of an [`ErrorContext`].
pub struct ErrorVec(pub Vec<Error>);

impl View for ErrorVec {
    type V = Seq<ErrorV>;

    open spec fn view(&self) -> Seq<ErrorV> {
        error_views(self.0@)
    }
}

impl ErrorVec {
    pub fn len(&self) -> (r: usize)
        ensures
            r == self@.len(),
    {
        self.0.len()
    }
}

/// Collects the errors of a compilation in the order in which they are reported.
pub struct ErrorContext {
    errors: Vec<Error>,
}

impl View for ErrorContext {
    type V = Seq<ErrorV>;

    closed spec fn view(&self) -> Seq<ErrorV> {
        error_views(self.errors@)
    }
}

impl ErrorContext {
    pub fn new() -> (r: ErrorContext)
        ensures
            r@ == Seq::<ErrorV>::empty(),
    {
        let r = ErrorContext { errors: Vec::new() };
        proof {
            assert(r@ =~= Seq::<ErrorV>::empty());
        }
        r
    }

    pub fn report(&mut self, error: Error)
        ensures
            final(self)@ == old(self)@.push(error@),
    {
        self.errors.push(error);
        proof {
            assert(self@ =~= old(self)@.push(error@));
        }
    }

    pub fn is_empty(&self) -> (r: bool)
        ensures
            r == (self@.len() == 0),
    {
        self.errors.len() == 0
    }

    /// Takes over the errors of `other`, behind its own.
    pub fn absorb(&mut self, other: &mut ErrorContext)
        ensures
            final(self)@ == old(self)@ + old(other)@,
            final(other)@ == Seq::<ErrorV>::empty(),
    {
        self.errors.append(&mut other.errors);
        proof {
            assert(self@ =~= old(self)@ + old(other)@);
            assert(other@ =~= Seq::<ErrorV>::empty());
        }
    }

    /// Hands out the errors that were reported so far and forgets them.
    pub fn take_errors(&mut self) -> (r: ErrorVec)
        ensures
            r@ == old(self)@,
            final(self)@ == Seq::<ErrorV>::empty(),
    {
        let mut errors: Vec<Error> = Vec::new();
        std::mem::swap(&mut errors, &mut self.errors);
        proof {
            assert(self@ =~= Seq::<ErrorV>::empty());
        }
        ErrorVec(errors)
    }
}

} // verus!
