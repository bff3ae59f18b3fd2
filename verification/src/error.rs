//! Why a request is refused or fails.
use vstd::prelude::*;

verus! {

/// The kinds of the errors that Island itself finds.
#[derive(Clone, Copy, PartialEq, Eq, Debug, Structural)]
pub enum ErrorKind {
    UnexpectedEof,
    NotFound,
    InvalidInput,
    AlreadyExists,
}

/// An error; `E` is that of the work that Island asks for.
pub enum IslandError<E> {
    /// Island refuses the request.
    Io { kind: ErrorKind, message: String },
    /// The work that Island asked for failed.
    Outside(E),
    /// A reply did not belong to what Island had asked for.
    UnexpectedReply,
}

/// An error, as a mathematical value.
pub enum ErrorView<E> {
    Io { kind: ErrorKind, message: Seq<char> },
    Outside(E),
    UnexpectedReply,
}

impl<E> View for IslandError<E> {
    type V = ErrorView<E>;

    open spec fn view(&self) -> ErrorView<E> {
        match *self {
            IslandError::Io { kind, message } => ErrorView::Io { kind, message: message@ },
            IslandError::Outside(e) => ErrorView::Outside(e),
            IslandError::UnexpectedReply => ErrorView::UnexpectedReply,
        }
    }
}

} // verus!
