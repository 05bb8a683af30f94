use vstd::prelude::*;

verus! {

/// Error type surfaced by runtime operations: script errors, unsupported
/// value kinds during marshalling, and lifecycle errors.
#[derive(Debug)]
pub struct EsError {
    message: String,
}

impl View for EsError {
    type V = Seq<char>;

    closed spec fn view(&self) -> Seq<char> {
        self.message@
    }
}

impl EsError {
    pub fn new_str(s: &str) -> (e: EsError)
        ensures
            e@ == s@,
    {
        EsError { message: s.to_string() }
    }

    pub fn new_string(s: String) -> (e: EsError)
        ensures
            e@ == s@,
    {
        EsError { message: s }
    }

    /// The error message, for host-side reporting.
    pub fn get_message(&self) -> (m: &str)
        ensures
            m@ == self@,
    {
        self.message.as_str()
    }

    /// The error message as an owned string.
    pub fn into_message(self) -> (m: String)
        ensures
            m@ == self@,
    {
        self.message
    }
}

/// The promise bridge's blocking wait ran out of time before the promise
/// settled: a distinct outcome from rejection.
#[derive(Debug)]
pub struct EsTimeoutError {}

} // verus!
