use vstd::prelude::*;

use crate::label::Label;

verus! {

/// A call that a session asks its caller to make on the label store or on the
/// request-label set store.
#[derive(Debug)]
pub enum StoreCall {
    /// Does a part request with this id exist?
    RequestExists(String),
    /// Does a label with this id exist?
    LabelExists(String),
    /// Fetch the label with this id.
    GetLabel(String),
    /// List the labels whose parent is this id.
    ChildrenOf(String),
    /// List the labels assigned to this request.
    AssignedLabels(String),
    /// Add a label id (second) to a request's assignment set (first).
    AddAssignment(String, String),
    /// Remove a label id (second) from a request's assignment set (first).
    RemoveAssignment(String, String),
}

/// The store's answer to a `StoreCall`.
#[derive(Debug)]
pub enum StoreReply {
    /// Answer to an existence check.
    Flag(bool),
    /// Answer to `GetLabel`: the label, or `None` when no label has the id.
    Found(Option<Label>),
    /// Answer to `ChildrenOf` and `AssignedLabels`.
    Labels(Vec<Label>),
    /// Answer to `AddAssignment`.
    Added,
    /// Answer to `RemoveAssignment`: how many members left the set.
    Removed(u64),
    /// The store call itself failed, with the store's message.
    Failed(String),
}

/// Why an operation of the engine failed.
#[derive(Debug)]
pub enum EngineError {
    /// No label has this id.
    LabelNotFound(String),
    /// No part request has this id.
    RequestNotFound(String),
    /// A store call failed; the store's message is kept as it was.
    StoreFailure(String),
    /// The store answered a call with a reply of another kind, or with a label
    /// other than the one asked for.
    UnexpectedReply,
    /// Removing this label id from a request removed nothing: it was not assigned.
    NotAssigned(String),
    /// The ancestor chain starting at this label id is longer than
    /// `MAX_LABEL_DEPTH`, which only a cycle in the stored labels can cause.
    ChainTooDeep(String),
}

/// What a session does next: ask for a store call, or finish with a result.
#[derive(Debug)]
pub enum Step<T> {
    Call(StoreCall),
    Done(Result<T, EngineError>),
}

/// The number of labels an ancestor chain may hold before the engine gives up.
pub const MAX_LABEL_DEPTH: usize = 64;

/// The engine's error for a reply that does not answer the call that was made.
pub open spec fn unexpected_error(reply: StoreReply) -> EngineError {
    match reply {
        StoreReply::Failed(m) => EngineError::StoreFailure(m),
        _ => EngineError::UnexpectedReply,
    }
}

/// Turns a reply that does not answer the call that was made into the error it stands for.
pub fn unexpected(reply: StoreReply) -> (e: EngineError)
    ensures
        e == unexpected_error(reply),
{
    match reply {
        StoreReply::Failed(m) => EngineError::StoreFailure(m),
        _ => EngineError::UnexpectedReply,
    }
}

} // verus!
