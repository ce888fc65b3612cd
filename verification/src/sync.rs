//! Exit statuses, and the cells that they are waited for in.

use vstd::prelude::*;

verus! {

/// A moment in UTC: seconds since the Unix epoch and the nanoseconds within the
/// second.
#[derive(Clone, Copy, Debug, PartialEq, Eq)]
pub struct Timestamp {
    pub secs: i64,
    pub nanos: u32,
}

/// How a process ended, and when.
#[derive(Clone, Copy, Debug, PartialEq, Eq)]
pub struct ExitStatus {
    pub code: u32,
    pub at: Timestamp,
}

/// The moment is one of the system's clock: not before the epoch, and with no leap
/// second.
pub open spec fn is_clock_time(at: Timestamp) -> bool {
    at.secs >= 0 && at.nanos < 1_000_000_000
}

/// `chrono::Utc::now`: the time of the system's clock. The clock may show any time
/// from the epoch on; one that is set before the epoch is refused by a panic.
#[verifier::external_body]
pub(crate) fn utc_now() -> (res: Timestamp)
    ensures
        is_clock_time(res),
{
    let now = chrono::Utc::now();
    Timestamp { secs: now.timestamp(), nanos: now.timestamp_subsec_nanos() }
}

/// A cell that is set at most once.
#[derive(Clone, Debug)]
pub struct WaitableCell<T> {
    value: Option<T>,
}

impl<T> View for WaitableCell<T> {
    type V = Option<T>;

    closed spec fn view(&self) -> Option<T> {
        self.value
    }
}

impl<T> WaitableCell<T> {
    /// A cell that is not set.
    pub fn new() -> (res: Self)
        ensures
            res@ == None::<T>,
    {
        WaitableCell { value: None }
    }

    /// Sets the cell, or hands the value back if it is set already.
    pub fn set(&mut self, value: T) -> (res: Result<(), T>)
        ensures
            old(self)@ is None ==> res == Ok::<(), T>(()) && final(self)@ == Some(value),
            old(self)@ is Some ==> res == Err::<(), T>(value) && final(self)@ == old(self)@,
    {
        match self.value {
            Some(_) => Err(value),
            None => {
                self.value = Some(value);
                Ok(())
            },
        }
    }

    /// The value, once the cell is set.
    pub fn get(&self) -> (res: Option<&T>)
        ensures
            match res {
                Some(v) => self@ == Some(*v),
                None => self@ is None,
            },
    {
        self.value.as_ref()
    }
}

} // verus!
