//! Writing an object: the conditions a write may set, the bound on its
//! size, and what is done at each step of an upload.
//!
//! The caller reads the store and the request body; after each thing it
//! learns it asks [`put_object`] what to do next. The check of the
//! conditions and the write that follows are two steps: a second writer
//! may change the object between them, and nothing here prevents that.

use crate::error::ApiError;
use crate::routes::objects::{header_is_wildcard, header_names_etag, is_wildcard,
    lemma_etag_tells_metadata_apart, names_etag, HeaderField, ObjectMetadata};
use vstd::prelude::*;

verus! {

/// What a write asks for beyond the body.
#[derive(Clone, Debug, PartialEq, Eq)]
pub struct PutRequest {
    /// `If-None-Match`: with the value `*`, write only where no object is.
    pub if_none_match: HeaderField,
    /// `If-Match`: write only over the object with this validator.
    pub if_match: HeaderField,
    /// The most bytes the body may bring; `None` sets no bound.
    pub limit: Option<u64>,
}

/// How far a write has come.
#[derive(Clone, Copy, Debug, PartialEq, Eq, Structural)]
pub enum PutState {
    /// Nothing is known of the target yet.
    Checking,
    /// The target's file is open and has taken `received` bytes.
    Receiving { existed: bool, received: u64 },
    /// The request has been answered.
    Closed,
}

/// What the caller learned since the last step.
#[derive(Clone, Copy, Debug, PartialEq, Eq, Structural)]
pub enum PutEvent {
    /// The store was asked for the target: its metadata, or `None` where
    /// it holds no such object.
    Found(Option<ObjectMetadata>),
    /// A chunk of this many bytes arrived.
    Chunk(u64),
    /// The body is complete.
    End,
    /// The body broke off.
    Broken,
    /// The store failed after the file was created.
    Failed,
}

/// How a write that succeeded is reported.
#[derive(Clone, Copy, Debug, PartialEq, Eq, Structural)]
pub enum PutOutcome {
    /// Status 201: there was no object at the key.
    Created,
    /// Status 200: the object at the key was replaced.
    Overwritten,
}

/// What the caller is to do next.
#[derive(Clone, Copy, Debug, PartialEq, Eq, Structural)]
pub enum PutAction {
    /// Create the target's file, empty, and hand over the body chunk by
    /// chunk. Where the file cannot be created the write ends there, with
    /// an internal failure and the store as it was.
    Create,
    /// Append the chunk to the file and hand over the next.
    Write,
    /// Remove the file, so that no part of the body stays at the key, and
    /// answer with this failure.
    Discard(ApiError),
    /// Answer with this failure; the store is as it was.
    Reject(ApiError),
    /// Answer with this success.
    Report(PutOutcome),
}

/// Whether the conditions of the request hold of the target as the store
/// has it: `If-None-Match: *` holds where there is no object, `If-Match`
/// where there is one and the header names its validator.
pub open spec fn put_allowed(req: PutRequest, current: Option<ObjectMetadata>) -> bool {
    &&& !(is_wildcard(req.if_none_match) && current is Some)
    &&& match req.if_match {
        HeaderField::Absent => true,
        _ => match current {
            Some(meta) => names_etag(req.if_match, meta),
            None => false,
        },
    }
}

/// Whether `more` bytes on top of `received` go over the limit.
pub open spec fn exceeds(limit: Option<u64>, received: u64, more: u64) -> bool {
    match limit {
        Some(max) => received + more > max,
        None => false,
    }
}

/// The count of bytes after `more` were added to `received`; it stops at `u64::MAX`.
pub open spec fn counted(received: u64, more: u64) -> u64 {
    if received + more > u64::MAX {
        u64::MAX
    } else {
        (received + more) as u64
    }
}

/// The report of a write that took the whole body.
pub open spec fn report(existed: bool) -> PutOutcome {
    if existed {
        PutOutcome::Overwritten
    } else {
        PutOutcome::Created
    }
}

/// The next state and what to do, for each state and event. A write whose
/// conditions fail is rejected before the file is touched; a chunk that
/// takes the body over the limit, a body that breaks off and a failing
/// store have the file discarded; an event that the state does not wait
/// for closes the request as an internal failure.
pub open spec fn put_step(req: PutRequest, state: PutState, event: PutEvent) -> (
    PutState,
    PutAction,
) {
    match state {
        PutState::Checking => match event {
            PutEvent::Found(current) => if put_allowed(req, current) {
                (PutState::Receiving { existed: current is Some, received: 0 }, PutAction::Create)
            } else {
                (PutState::Closed, PutAction::Reject(ApiError::PreconditionFailed))
            },
            _ => (PutState::Closed, PutAction::Reject(ApiError::Internal)),
        },
        PutState::Receiving { existed, received } => match event {
            PutEvent::Chunk(more) => if exceeds(req.limit, received, more) {
                (PutState::Closed, PutAction::Discard(ApiError::PayloadTooLarge))
            } else {
                (
                    PutState::Receiving { existed, received: counted(received, more) },
                    PutAction::Write,
                )
            },
            PutEvent::End => (PutState::Closed, PutAction::Report(report(existed))),
            PutEvent::Broken => (PutState::Closed, PutAction::Discard(ApiError::InvalidArgument)),
            _ => (PutState::Closed, PutAction::Discard(ApiError::Internal)),
        },
        PutState::Closed => (PutState::Closed, PutAction::Reject(ApiError::Internal)),
    }
}

/// The HTTP status of each report.
pub open spec fn put_status(outcome: PutOutcome) -> u16 {
    match outcome {
        PutOutcome::Created => 201,
        PutOutcome::Overwritten => 200,
    }
}

impl PutOutcome {
    /// The HTTP status of this report.
    pub fn status(&self) -> (r: u16)
        ensures
            r == put_status(*self),
    {
        match self {
            PutOutcome::Created => 201,
            PutOutcome::Overwritten => 200,
        }
    }
}

/// Whether the conditions of the request hold of the target.
pub fn check_conditions(req: &PutRequest, current: &Option<ObjectMetadata>) -> (r: bool)
    ensures
        r == put_allowed(*req, *current),
{
    if header_is_wildcard(&req.if_none_match) && current.is_some() {
        return false;
    }
    match &req.if_match {
        HeaderField::Absent => true,
        _ => match current {
            Some(meta) => header_names_etag(&req.if_match, meta),
            None => false,
        },
    }
}

/// Decides the next step of a write.
pub fn put_object(req: &PutRequest, state: PutState, event: PutEvent) -> (r: (PutState, PutAction))
    ensures
        r == put_step(*req, state, event),
{
    match state {
        PutState::Checking => match event {
            PutEvent::Found(current) => {
                if check_conditions(req, &current) {
                    (
                        PutState::Receiving { existed: current.is_some(), received: 0 },
                        PutAction::Create,
                    )
                } else {
                    (PutState::Closed, PutAction::Reject(ApiError::PreconditionFailed))
                }
            },
            _ => (PutState::Closed, PutAction::Reject(ApiError::Internal)),
        },
        PutState::Receiving { existed, received } => match event {
            PutEvent::Chunk(more) => {
                let total = received.checked_add(more);
                let over = match req.limit {
                    Some(max) => match total {
                        Some(t) => t > max,
                        None => true,
                    },
                    None => false,
                };
                if over {
                    (PutState::Closed, PutAction::Discard(ApiError::PayloadTooLarge))
                } else {
                    let now = match total {
                        Some(t) => t,
                        None => u64::MAX,
                    };
                    (PutState::Receiving { existed, received: now }, PutAction::Write)
                }
            },
            PutEvent::End => {
                let outcome = if existed {
                    PutOutcome::Overwritten
                } else {
                    PutOutcome::Created
                };
                (PutState::Closed, PutAction::Report(outcome))
            },
            PutEvent::Broken => (PutState::Closed, PutAction::Discard(ApiError::InvalidArgument)),
            _ => (PutState::Closed, PutAction::Discard(ApiError::Internal)),
        },
        PutState::Closed => (PutState::Closed, PutAction::Reject(ApiError::Internal)),
    }
}

/// Whether the bytes that a write has taken are within the limit of the request.
pub open spec fn within_limit(req: PutRequest, state: PutState) -> bool {
    match state {
        PutState::Receiving { received, .. } => !exceeds(req.limit, received, 0),
        _ => true,
    }
}

/// A write never holds more bytes than the limit allows: it starts
/// within the limit, and every step keeps it there.
pub proof fn lemma_steps_stay_within_limit(req: PutRequest, state: PutState, event: PutEvent)
    requires
        within_limit(req, state),
    ensures
        within_limit(req, PutState::Checking),
        within_limit(req, put_step(req, state, event).0),
{
}

/// The sum of the lengths of the chunks.
pub open spec fn total_len(chunks: Seq<u64>) -> nat
    decreases chunks.len(),
{
    if chunks.len() == 0 {
        0
    } else {
        chunks[0] as nat + total_len(chunks.drop_first())
    }
}

/// What ends a write that is handed the chunks of a body in turn and then
/// its end: the first action that is not `Write`.
pub open spec fn body_end(req: PutRequest, state: PutState, chunks: Seq<u64>) -> PutAction
    decreases chunks.len(),
{
    if chunks.len() == 0 {
        put_step(req, state, PutEvent::End).1
    } else {
        let (next, action) = put_step(req, state, PutEvent::Chunk(chunks[0]));
        if action == PutAction::Write {
            body_end(req, next, chunks.drop_first())
        } else {
            action
        }
    }
}

/// A request that was answered stays answered: whatever is learned after
/// it is closed, nothing more is written, discarded or reported.
pub proof fn lemma_closed_stays_closed(req: PutRequest, event: PutEvent)
    ensures
        put_step(req, PutState::Closed, event) == (
            PutState::Closed,
            PutAction::Reject(ApiError::Internal),
        ),
{
}

/// Every step but `Create` and `Write` closes the request, and only those
/// two leave it open.
pub proof fn lemma_answers_close(req: PutRequest, state: PutState, event: PutEvent)
    ensures
        ({
            let (next, action) = put_step(req, state, event);
            (next == PutState::Closed) <==> (action != PutAction::Create && action
                != PutAction::Write)
        }),
{
}

/// With `If-None-Match: *`, a write to a key that holds an object is
/// rejected as a failed precondition, whatever else the request says. A
/// write to a key that holds none, with no `If-Match`, creates the file
/// and, given the whole body, reports that the object was created.
pub proof fn lemma_write_once(req: PutRequest, current: Option<ObjectMetadata>)
    requires
        is_wildcard(req.if_none_match),
    ensures
        current is Some ==> put_step(req, PutState::Checking, PutEvent::Found(current)) == (
            PutState::Closed,
            PutAction::Reject(ApiError::PreconditionFailed),
        ),
        current is None && req.if_match is Absent ==> {
            let (next, action) = put_step(req, PutState::Checking, PutEvent::Found(current));
            &&& action == PutAction::Create
            &&& put_step(req, next, PutEvent::End).1 == PutAction::Report(PutOutcome::Created)
        },
{
}

/// With an `If-Match`, a write is rejected as a failed precondition
/// unless the key holds an object and the header names its validator.
/// Where it does, the write goes ahead, unless `If-None-Match: *` forbids
/// writing over an object.
pub proof fn lemma_if_match_decides(req: PutRequest, current: Option<ObjectMetadata>)
    requires
        !(req.if_match is Absent),
    ensures
        ({
            let holds = match current {
                Some(meta) => names_etag(req.if_match, meta),
                None => false,
            };
            let (_, action) = put_step(req, PutState::Checking, PutEvent::Found(current));
            &&& !holds ==> action == PutAction::Reject(ApiError::PreconditionFailed)
            &&& holds && !is_wildcard(req.if_none_match) ==> action == PutAction::Create
        }),
{
}

/// An `If-Match` that names the validator which the object had with other
/// metadata is stale: the write is rejected as a failed precondition.
pub proof fn lemma_stale_validator_fails(
    req: PutRequest,
    earlier: ObjectMetadata,
    current: ObjectMetadata,
)
    requires
        names_etag(req.if_match, earlier),
        earlier != current,
    ensures
        put_step(req, PutState::Checking, PutEvent::Found(Some(current))) == (
            PutState::Closed,
            PutAction::Reject(ApiError::PreconditionFailed),
        ),
{
    lemma_etag_tells_metadata_apart(earlier, current);
}

/// A body is taken whole exactly where it fits: with a limit, a write
/// that has taken `received` bytes within it and is handed `chunks` ends with the
/// file discarded and the payload reported as too large where `received`
/// and the chunks together go over the limit, and with the report of the
/// write where they do not. Without a limit it always ends with the report.
pub proof fn lemma_body_fits_or_is_discarded(
    req: PutRequest,
    existed: bool,
    received: u64,
    chunks: Seq<u64>,
)
    requires
        within_limit(req, PutState::Receiving { existed, received }),
    ensures
        body_end(req, PutState::Receiving { existed, received }, chunks) == (match req.limit {
            Some(max) if received + total_len(chunks) > max => PutAction::Discard(
                ApiError::PayloadTooLarge,
            ),
            _ => PutAction::Report(report(existed)),
        }),
    decreases chunks.len(),
{
    let state = PutState::Receiving { existed, received };
    if chunks.len() == 0 {
        assert(total_len(chunks) == 0);
        assert(body_end(req, state, chunks) == put_step(req, state, PutEvent::End).1);
    } else {
        let more = chunks[0];
        let rest = chunks.drop_first();
        assert(total_len(chunks) == more + total_len(rest));
        let (next, action) = put_step(req, state, PutEvent::Chunk(more));
        if exceeds(req.limit, received, more) {
            assert(action == PutAction::Discard(ApiError::PayloadTooLarge));
            assert(body_end(req, state, chunks) == action);
        } else {
            assert(action == PutAction::Write);
            assert(next == PutState::Receiving { existed, received: counted(received, more) });
            assert(body_end(req, state, chunks) == body_end(req, next, rest));
            lemma_body_fits_or_is_discarded(req, existed, counted(received, more), rest);
        }
    }
}

} // verus!
