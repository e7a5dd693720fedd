//! What can go wrong.

use vstd::prelude::*;
use vstd::string::StringExecFns;

use crate::text;

verus! {

/// The error type of the `postcard` crate.
#[verifier::external_type_specification]
#[verifier::external_body]
pub struct ExPostcardError(postcard::Error);

/// Errors that can occur during slotbus operations.
#[derive(Debug)]
pub enum SlotBusError {
    /// Failed to create or open a shared memory region.
    SharedMemory(String),
    /// Failed to create or open an OS event.
    Event(String),
    /// The control region has an invalid magic number or version.
    InvalidRegion(String),
    /// No free slots available for a new request.
    NoFreeSlots(usize),
    /// Serialization or deserialization failed.
    Serialization(String),
    /// A request timed out waiting for a response.
    Timeout(u32),
    /// The slot state machine encountered an unexpected transition.
    BadSlotState { expected: u32, found: u32 },
    /// A CAS (compare-and-swap) operation on a slot failed.
    CasFailed { slot: usize, expected: u32, found: u32 },
    /// The worker receive loop has stopped.
    ReceiveLoopStopped,
}

/// A [`SlotBusError`] with its texts as sequences of characters.
pub enum ErrorView {
    SharedMemory(Seq<char>),
    Event(Seq<char>),
    InvalidRegion(Seq<char>),
    NoFreeSlots(nat),
    Serialization(Seq<char>),
    Timeout(u32),
    BadSlotState { expected: u32, found: u32 },
    CasFailed { slot: nat, expected: u32, found: u32 },
    ReceiveLoopStopped,
}

impl View for SlotBusError {
    type V = ErrorView;

    open spec fn view(&self) -> ErrorView {
        match *self {
            SlotBusError::SharedMemory(m) => ErrorView::SharedMemory(m@),
            SlotBusError::Event(m) => ErrorView::Event(m@),
            SlotBusError::InvalidRegion(m) => ErrorView::InvalidRegion(m@),
            SlotBusError::NoFreeSlots(n) => ErrorView::NoFreeSlots(n as nat),
            SlotBusError::Serialization(m) => ErrorView::Serialization(m@),
            SlotBusError::Timeout(ms) => ErrorView::Timeout(ms),
            SlotBusError::BadSlotState { expected, found } => ErrorView::BadSlotState {
                expected,
                found,
            },
            SlotBusError::CasFailed { slot, expected, found } => ErrorView::CasFailed {
                slot: slot as nat,
                expected,
                found,
            },
            SlotBusError::ReceiveLoopStopped => ErrorView::ReceiveLoopStopped,
        }
    }
}

impl ErrorView {
    /// The sentence that tells a person what happened.
    pub open spec fn sentence(self) -> Seq<char> {
        match self {
            ErrorView::SharedMemory(m) => "shared memory error: "@ + m,
            ErrorView::Event(m) => "event error: "@ + m,
            ErrorView::InvalidRegion(m) => "invalid control region: "@ + m,
            ErrorView::NoFreeSlots(n) => "no free slots available (all "@ + text::decimal(n)
                + " slots in use)"@,
            ErrorView::Serialization(m) => "serialization error: "@ + m,
            ErrorView::Timeout(ms) => "request timed out after "@ + text::decimal(ms as nat)
                + "ms"@,
            ErrorView::BadSlotState { expected, found } => "unexpected slot state: expected "@
                + text::decimal(expected as nat) + ", found "@ + text::decimal(found as nat),
            ErrorView::CasFailed { slot, expected, found } => "CAS failed on slot "@
                + text::decimal(slot) + ": expected "@ + text::decimal(expected as nat)
                + ", found "@ + text::decimal(found as nat),
            ErrorView::ReceiveLoopStopped => "receive loop stopped"@,
        }
    }
}

impl SlotBusError {
    /// The sentence that tells a person what happened.
    pub fn message(&self) -> (r: String)
        ensures
            r@ == self@.sentence(),
    {
        match self {
            SlotBusError::SharedMemory(m) => String::from_str("shared memory error: ").concat(
                m.as_str(),
            ),
            SlotBusError::Event(m) => String::from_str("event error: ").concat(m.as_str()),
            SlotBusError::InvalidRegion(m) => String::from_str("invalid control region: ").concat(
                m.as_str(),
            ),
            SlotBusError::NoFreeSlots(n) => {
                let mut s = String::from_str("no free slots available (all ");
                text::push_usize(&mut s, *n);
                s.concat(" slots in use)")
            },
            SlotBusError::Serialization(m) => String::from_str("serialization error: ").concat(
                m.as_str(),
            ),
            SlotBusError::Timeout(ms) => {
                let mut s = String::from_str("request timed out after ");
                text::push_decimal(&mut s, *ms as u64);
                s.concat("ms")
            },
            SlotBusError::BadSlotState { expected, found } => {
                let mut s = String::from_str("unexpected slot state: expected ");
                text::push_decimal(&mut s, *expected as u64);
                s.append(", found ");
                text::push_decimal(&mut s, *found as u64);
                s
            },
            SlotBusError::CasFailed { slot, expected, found } => {
                let mut s = String::from_str("CAS failed on slot ");
                text::push_usize(&mut s, *slot);
                s.append(": expected ");
                text::push_decimal(&mut s, *expected as u64);
                s.append(", found ");
                text::push_decimal(&mut s, *found as u64);
                s
            },
            SlotBusError::ReceiveLoopStopped => String::from_str("receive loop stopped"),
        }
    }
}

impl From<postcard::Error> for SlotBusError {
    fn from(e: postcard::Error) -> (r: Self)
        ensures
            r matches SlotBusError::Serialization(m)
                && vstd::string::to_string_from_display_ensures::<postcard::Error>(&e, m),
    {
        SlotBusError::Serialization(e.to_string())
    }
}

impl vstd::std_specs::convert::FromSpecImpl<postcard::Error> for SlotBusError {
    open spec fn obeys_from_spec() -> bool {
        false
    }

    open spec fn from_spec(e: postcard::Error) -> SlotBusError {
        arbitrary()
    }
}

/// Every error says in words what happened, with all that it carries.
pub proof fn errors_say_what_happened(e: SlotBusError)
    ensures
        match e {
            SlotBusError::SharedMemory(m) => e@.sentence() == "shared memory error: "@ + m@,
            SlotBusError::Event(m) => e@.sentence() == "event error: "@ + m@,
            SlotBusError::InvalidRegion(m) => e@.sentence() == "invalid control region: "@ + m@,
            SlotBusError::NoFreeSlots(n) => e@.sentence() == "no free slots available (all "@
                + text::decimal(n as nat) + " slots in use)"@,
            SlotBusError::Serialization(m) => e@.sentence() == "serialization error: "@ + m@,
            SlotBusError::Timeout(ms) => e@.sentence() == "request timed out after "@
                + text::decimal(ms as nat) + "ms"@,
            SlotBusError::BadSlotState { expected, found } => e@.sentence()
                == "unexpected slot state: expected "@ + text::decimal(expected as nat)
                + ", found "@ + text::decimal(found as nat),
            SlotBusError::CasFailed { slot, expected, found } => e@.sentence()
                == "CAS failed on slot "@ + text::decimal(slot as nat) + ": expected "@
                + text::decimal(expected as nat) + ", found "@ + text::decimal(found as nat),
            SlotBusError::ReceiveLoopStopped => e@.sentence() == "receive loop stopped"@,
        },
{
}

} // verus!
