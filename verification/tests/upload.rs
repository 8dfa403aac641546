use rust_buck3t::error::ApiError;
use rust_buck3t::routes::objects::{HeaderField, ObjectMetadata};
use rust_buck3t::routes::upload::{
    check_conditions, put_object, PutAction, PutEvent, PutOutcome, PutRequest, PutState,
};

fn req(if_none_match: HeaderField, if_match: HeaderField, limit: Option<u64>) -> PutRequest {
    PutRequest { if_none_match, if_match, limit }
}

fn text(s: &str) -> HeaderField {
    HeaderField::Text(s.to_string())
}

fn meta() -> ObjectMetadata {
    ObjectMetadata { size: 1, modified_secs: 2, modified_nanos: 3 }
}

#[test]
fn conditions() {
    let plain = req(HeaderField::Absent, HeaderField::Absent, None);
    assert!(check_conditions(&plain, &None));
    assert!(check_conditions(&plain, &Some(meta())));

    let once = req(text("*"), HeaderField::Absent, None);
    assert!(check_conditions(&once, &None));
    assert!(!check_conditions(&once, &Some(meta())));

    let other_none_match = req(text("W/\"1-2-3\""), HeaderField::Absent, None);
    assert!(check_conditions(&other_none_match, &Some(meta())));
    let opaque_none_match = req(HeaderField::Opaque, HeaderField::Absent, None);
    assert!(check_conditions(&opaque_none_match, &Some(meta())));

    let current = req(HeaderField::Absent, text("W/\"1-2-3\""), None);
    assert!(check_conditions(&current, &Some(meta())));
    assert!(!check_conditions(&current, &None));

    let stale = req(HeaderField::Absent, text("W/\"1-2-4\""), None);
    assert!(!check_conditions(&stale, &Some(meta())));
    assert!(!check_conditions(&stale, &None));

    let opaque = req(HeaderField::Absent, HeaderField::Opaque, None);
    assert!(!check_conditions(&opaque, &Some(meta())));
    assert!(!check_conditions(&opaque, &None));

    let both = req(text("*"), text("W/\"1-2-3\""), None);
    assert!(!check_conditions(&both, &Some(meta())));
}

#[test]
fn first_step() {
    let plain = req(HeaderField::Absent, HeaderField::Absent, Some(5));
    assert_eq!(
        put_object(&plain, PutState::Checking, PutEvent::Found(None)),
        (PutState::Receiving { existed: false, received: 0 }, PutAction::Create)
    );
    assert_eq!(
        put_object(&plain, PutState::Checking, PutEvent::Found(Some(meta()))),
        (PutState::Receiving { existed: true, received: 0 }, PutAction::Create)
    );
    let stale = req(HeaderField::Absent, text("W/\"nope\""), None);
    assert_eq!(
        put_object(&stale, PutState::Checking, PutEvent::Found(Some(meta()))),
        (PutState::Closed, PutAction::Reject(ApiError::PreconditionFailed))
    );
    assert_eq!(
        put_object(&plain, PutState::Checking, PutEvent::Failed),
        (PutState::Closed, PutAction::Reject(ApiError::Internal))
    );
    assert_eq!(
        put_object(&plain, PutState::Checking, PutEvent::Chunk(1)),
        (PutState::Closed, PutAction::Reject(ApiError::Internal))
    );
}

#[test]
fn chunks_within_and_over_the_limit() {
    let r = req(HeaderField::Absent, HeaderField::Absent, Some(5));
    let s0 = PutState::Receiving { existed: false, received: 0 };
    let (s1, a1) = put_object(&r, s0, PutEvent::Chunk(3));
    assert_eq!((s1, a1), (PutState::Receiving { existed: false, received: 3 }, PutAction::Write));
    let (s2, a2) = put_object(&r, s1, PutEvent::Chunk(2));
    assert_eq!((s2, a2), (PutState::Receiving { existed: false, received: 5 }, PutAction::Write));
    assert_eq!(
        put_object(&r, s2, PutEvent::Chunk(0)),
        (PutState::Receiving { existed: false, received: 5 }, PutAction::Write)
    );
    assert_eq!(
        put_object(&r, s2, PutEvent::Chunk(1)),
        (PutState::Closed, PutAction::Discard(ApiError::PayloadTooLarge))
    );
    assert_eq!(
        put_object(&r, s0, PutEvent::Chunk(6)),
        (PutState::Closed, PutAction::Discard(ApiError::PayloadTooLarge))
    );
    assert_eq!(
        put_object(&r, s1, PutEvent::Chunk(u64::MAX)),
        (PutState::Closed, PutAction::Discard(ApiError::PayloadTooLarge))
    );
}

#[test]
fn no_limit_takes_everything() {
    let r = req(HeaderField::Absent, HeaderField::Absent, None);
    let s0 = PutState::Receiving { existed: true, received: 0 };
    let (s1, a1) = put_object(&r, s0, PutEvent::Chunk(u64::MAX));
    assert_eq!(a1, PutAction::Write);
    let (s2, a2) = put_object(&r, s1, PutEvent::Chunk(7));
    assert_eq!(a2, PutAction::Write);
    assert_eq!(s2, PutState::Receiving { existed: true, received: u64::MAX });
    assert_eq!(
        put_object(&r, s2, PutEvent::End),
        (PutState::Closed, PutAction::Report(PutOutcome::Overwritten))
    );
}

#[test]
fn end_and_failures() {
    let r = req(HeaderField::Absent, HeaderField::Absent, Some(1));
    let fresh = PutState::Receiving { existed: false, received: 1 };
    assert_eq!(
        put_object(&r, fresh, PutEvent::End),
        (PutState::Closed, PutAction::Report(PutOutcome::Created))
    );
    assert_eq!(
        put_object(&r, fresh, PutEvent::Broken),
        (PutState::Closed, PutAction::Discard(ApiError::InvalidArgument))
    );
    assert_eq!(
        put_object(&r, fresh, PutEvent::Failed),
        (PutState::Closed, PutAction::Discard(ApiError::Internal))
    );
    assert_eq!(
        put_object(&r, fresh, PutEvent::Found(None)),
        (PutState::Closed, PutAction::Discard(ApiError::Internal))
    );
    assert_eq!(
        put_object(&r, PutState::Closed, PutEvent::End),
        (PutState::Closed, PutAction::Reject(ApiError::Internal))
    );
}

#[test]
fn report_statuses() {
    assert_eq!(PutOutcome::Created.status(), 201);
    assert_eq!(PutOutcome::Overwritten.status(), 200);
}

#[test]
fn body_over_the_limit_never_reports_success() {
    let r = req(HeaderField::Absent, HeaderField::Absent, Some(10));
    for chunks in [vec![11u64], vec![5, 5, 1], vec![0, 10, 0, 1, 7], vec![3, 3, 3, 3]] {
        let mut state = PutState::Receiving { existed: false, received: 0 };
        let mut last = PutAction::Write;
        for c in chunks {
            let (next, action) = put_object(&r, state, PutEvent::Chunk(c));
            state = next;
            last = action;
            if action != PutAction::Write {
                break;
            }
        }
        assert_eq!(last, PutAction::Discard(ApiError::PayloadTooLarge));
        assert_eq!(state, PutState::Closed);
    }
}
