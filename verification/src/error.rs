//! Errors reported by the storage layer.
use vstd::prelude::*;

verus! {

/// An error of the storage layer, with a human-readable message.
#[derive(Debug)]
pub enum StorageError {
    DbError(String),
    SerializeError(String),
    DeserializeError(String),
    InvalidInput(String),
}

/// The mathematical form of a `StorageError`: its kind and the characters of its message.
pub enum ErrorView {
    DbError(Seq<char>),
    SerializeError(Seq<char>),
    DeserializeError(Seq<char>),
    InvalidInput(Seq<char>),
}

impl View for StorageError {
    type V = ErrorView;

    open spec fn view(&self) -> ErrorView {
        match self {
            StorageError::DbError(m) => ErrorView::DbError(m@),
            StorageError::SerializeError(m) => ErrorView::SerializeError(m@),
            StorageError::DeserializeError(m) => ErrorView::DeserializeError(m@),
            StorageError::InvalidInput(m) => ErrorView::InvalidInput(m@),
        }
    }
}

/// A `DbError` whose message is `msg`.
pub fn db_error(msg: &str) -> (e: StorageError)
    ensures
        e@ == ErrorView::DbError(msg@),
{
    StorageError::DbError(msg.to_owned())
}

/// An `InvalidInput` error whose message is `msg`.
pub fn invalid_input(msg: &str) -> (e: StorageError)
    ensures
        e@ == ErrorView::InvalidInput(msg@),
{
    StorageError::InvalidInput(msg.to_owned())
}

/// The view of a result whose success value has a view.
pub open spec fn result_view<T: View>(r: Result<T, StorageError>) -> Result<T::V, ErrorView> {
    match r {
        Ok(v) => Ok(v@),
        Err(e) => Err(e@),
    }
}

} // verus!
