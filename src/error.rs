use vstd::prelude::*;
use crate::ntfs::filter::ObjectType;
use crate::text::texts;

verus! {

/// Why a selection could not be applied to a model.
#[derive(Debug, Clone, PartialEq, Eq)]
pub enum Error {
    /// An identifier named by a predicate is absent from its collection.
    NotFound(ObjectType, String),
    /// The property is not known for the object type.
    UnsupportedProperty(ObjectType, String),
    /// A property-based predicate matched no entity.
    EmptyMatch(String, Vec<String>),
    /// No calendar is left once the selection is applied.
    EmptyModel,
    /// The rebuilt collections were rejected by model construction.
    ValidationFailed(String),
}

/// The mathematical content of an [`Error`].
pub enum ErrorView {
    NotFound(ObjectType, Seq<char>),
    UnsupportedProperty(ObjectType, Seq<char>),
    EmptyMatch(Seq<char>, Seq<Seq<char>>),
    EmptyModel,
    ValidationFailed(Seq<char>),
}

impl View for Error {
    type V = ErrorView;

    open spec fn view(&self) -> ErrorView {
        match self {
            Error::NotFound(t, id) => ErrorView::NotFound(*t, id@),
            Error::UnsupportedProperty(t, p) => ErrorView::UnsupportedProperty(*t, p@),
            Error::EmptyMatch(p, vs) => ErrorView::EmptyMatch(p@, texts(vs@)),
            Error::EmptyModel => ErrorView::EmptyModel,
            Error::ValidationFailed(c) => ErrorView::ValidationFailed(c@),
        }
    }
}

} // verus!
