//! What can go wrong.

use vstd::prelude::*;

verus! {

/// Why an operation failed.
#[derive(Debug)]
pub enum AtomicCoreError {
    Validation(String),
    NotFound(String),
    Configuration(String),
    DatabaseOperation(String),
    Database(String),
    Io(String),
    Lock(String),
    Search(String),
    Embedding(String),
    Wiki(String),
    Ingestion(String),
}

/// What an error says.
pub enum ErrorView {
    Validation(Seq<char>),
    NotFound(Seq<char>),
    Configuration(Seq<char>),
    DatabaseOperation(Seq<char>),
    Database(Seq<char>),
    Io(Seq<char>),
    Lock(Seq<char>),
    Search(Seq<char>),
    Embedding(Seq<char>),
    Wiki(Seq<char>),
    Ingestion(Seq<char>),
}

impl View for AtomicCoreError {
    type V = ErrorView;

    open spec fn view(&self) -> ErrorView {
        match self {
            AtomicCoreError::Validation(s) => ErrorView::Validation(s@),
            AtomicCoreError::NotFound(s) => ErrorView::NotFound(s@),
            AtomicCoreError::Configuration(s) => ErrorView::Configuration(s@),
            AtomicCoreError::DatabaseOperation(s) => ErrorView::DatabaseOperation(s@),
            AtomicCoreError::Database(s) => ErrorView::Database(s@),
            AtomicCoreError::Io(s) => ErrorView::Io(s@),
            AtomicCoreError::Lock(s) => ErrorView::Lock(s@),
            AtomicCoreError::Search(s) => ErrorView::Search(s@),
            AtomicCoreError::Embedding(s) => ErrorView::Embedding(s@),
            AtomicCoreError::Wiki(s) => ErrorView::Wiki(s@),
            AtomicCoreError::Ingestion(s) => ErrorView::Ingestion(s@),
        }
    }
}

} // verus!
