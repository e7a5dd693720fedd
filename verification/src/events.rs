//! Names and deadlines for the OS events that hub and worker wake each other
//! with.

use vstd::prelude::*;
use vstd::string::StringExecFns;
use vstd::utf8::*;

use crate::error::{ErrorView, SlotBusError};
use crate::text;

verus! {

/// The position of the first zero byte.
pub open spec fn first_nul(data: Seq<u8>) -> Option<nat>
    decreases data.len(),
{
    if data.len() == 0 {
        None
    } else if data[0] == 0 {
        Some(0)
    } else {
        match first_nul(data.drop_first()) {
            Some(k) => Some(k + 1),
            None => None,
        }
    }
}

proof fn lemma_first_nul(data: Seq<u8>, k: int)
    requires
        0 <= k <= data.len(),
        forall|i: int| 0 <= i < k ==> data[i] != 0,
        k == data.len() || data[k] == 0,
    ensures
        first_nul(data) == (if k == data.len() {
            None
        } else {
            Some(k as nat)
        }),
    decreases k,
{
    if k > 0 {
        lemma_first_nul(data.drop_first(), k - 1);
    }
}

/// The POSIX name of a semaphore: a slash in front of the event's name. A name
/// with a zero byte in it has none.
pub fn semaphore_name(name: &str) -> (r: Result<String, SlotBusError>)
    ensures
        ({
            let full = "/"@ + name@;
            match first_nul(encode_utf8(full)) {
                None => r matches Ok(s) && s@ == full,
                Some(position) => r matches Err(e) && e@ == ErrorView::Event(
                    "invalid name: nul byte found in provided data at position: "@ + text::decimal(
                        position,
                    ),
                ),
            }
        }),
{
    let full = String::from_str("/").concat(name);
    let data: &[u8] = full.as_str().as_bytes();
    let mut i: usize = 0;
    while i < data.len()
        invariant
            i <= data@.len(),
            data@ == encode_utf8(full@),
            full@ == "/"@ + name@,
            forall|k: int| 0 <= k < i ==> data@[k] != 0,
        decreases data@.len() - i,
    {
        if data[i] == 0 {
            proof {
                lemma_first_nul(data@, i as int);
            }
            let mut s = String::from_str(
                "invalid name: nul byte found in provided data at position: ",
            );
            text::push_usize(&mut s, i);
            return Err(SlotBusError::Event(s));
        }
        i = i + 1;
    }
    proof {
        lemma_first_nul(data@, i as int);
    }
    Ok(full)
}

/// A system call that makes an event available.
#[derive(Clone, Copy, Debug)]
pub enum EventCall {
    /// `sem_open` with the intent to create.
    SemaphoreCreate,
    /// `sem_open` of what is there.
    SemaphoreOpen,
    /// `CreateEventW`.
    WindowsCreate,
    /// `OpenEventW`.
    WindowsOpen,
}

impl EventCall {
    /// How error texts call it.
    pub open spec fn word(self) -> Seq<char> {
        match self {
            EventCall::SemaphoreCreate => "sem_open(create)"@,
            EventCall::SemaphoreOpen => "sem_open(open)"@,
            EventCall::WindowsCreate => "CreateEventW"@,
            EventCall::WindowsOpen => "OpenEventW"@,
        }
    }

    /// The error of a call that failed on an event.
    pub fn failed(self, name: &str) -> (r: SlotBusError)
        ensures
            r@ == ErrorView::Event(self.word() + " failed for '"@ + name@ + "'"@),
    {
        let call = match self {
            EventCall::SemaphoreCreate => String::from_str("sem_open(create)"),
            EventCall::SemaphoreOpen => String::from_str("sem_open(open)"),
            EventCall::WindowsCreate => String::from_str("CreateEventW"),
            EventCall::WindowsOpen => String::from_str("OpenEventW"),
        };
        SlotBusError::Event(call.concat(" failed for '").concat(name).concat("'"))
    }
}

/// A point in time: seconds and nanoseconds.
#[derive(Clone, Copy, Debug)]
pub struct Timespec {
    pub tv_sec: i64,
    pub tv_nsec: i64,
}

impl Timespec {
    /// The nanoseconds are less than a second.
    pub open spec fn wf(self) -> bool {
        0 <= self.tv_nsec < 1_000_000_000
    }

    /// The point in time in nanoseconds.
    pub open spec fn nanos(self) -> int {
        self.tv_sec * 1_000_000_000 + self.tv_nsec
    }
}

/// The point in time `ms` milliseconds after `now`.
pub fn deadline(now: Timespec, ms: u32) -> (r: Timespec)
    requires
        now.wf(),
        now.tv_sec <= i64::MAX - 4_294_969,
    ensures
        r.wf(),
        r.nanos() == now.nanos() + ms * 1_000_000,
{
    let sec: i64 = now.tv_sec + (ms / 1000) as i64;
    let nsec: i64 = now.tv_nsec + (ms % 1000) as i64 * 1_000_000;
    if nsec >= 1_000_000_000 {
        Timespec { tv_sec: sec + 1, tv_nsec: nsec - 1_000_000_000 }
    } else {
        Timespec { tv_sec: sec, tv_nsec: nsec }
    }
}

/// What a waiter that polls does next.
#[derive(Clone, Copy, Debug, PartialEq, Eq, Structural)]
pub enum Poll {
    /// The event was signaled.
    Signaled,
    /// The time is up.
    TimedOut,
    /// Sleep for a moment and look again.
    Wait,
}

/// What a waiter that polls does after a look at the event: a signal counts even
/// when the time is up.
pub fn poll_step(signaled: bool, now_ms: u64, deadline_ms: u64) -> (r: Poll)
    ensures
        r == (if signaled {
            Poll::Signaled
        } else if now_ms >= deadline_ms {
            Poll::TimedOut
        } else {
            Poll::Wait
        }),
{
    if signaled {
        Poll::Signaled
    } else if now_ms >= deadline_ms {
        Poll::TimedOut
    } else {
        Poll::Wait
    }
}

/// The position of the first zero byte is that of a zero byte with none before
/// it; there is none exactly where no byte is zero.
pub proof fn the_first_nul_is_the_first(data: Seq<u8>)
    ensures
        match first_nul(data) {
            Some(k) => {
                &&& k < data.len()
                &&& data[k as int] == 0
                &&& forall|i: int| 0 <= i < k ==> #[trigger] data[i] != 0
            },
            None => forall|i: int| 0 <= i < data.len() ==> #[trigger] data[i] != 0,
        },
    decreases data.len(),
{
    if data.len() > 0 && data[0] != 0 {
        let rest = data.drop_first();
        the_first_nul_is_the_first(rest);
        let end = match first_nul(rest) {
            Some(k) => k as int,
            None => rest.len() as int,
        };
        assert forall|i: int| 0 <= i <= end && i < data.len() implies #[trigger] data[i] != 0 by {
            if i > 0 {
                assert(data[i] == rest[i - 1]);
            }
        }
    }
}

} // verus!
