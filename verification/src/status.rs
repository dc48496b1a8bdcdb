//! How a child process ended.

use vstd::prelude::*;
use vstd::string::StringExecFns;

verus! {

/// The classified end of a child process.
#[derive(Clone, Copy, Debug, PartialEq, Eq, Structural)]
pub enum TerminationDescriptor {
    /// The process returned from its entry point with this exit code.
    Exited(u32),
    /// The process was killed by the signal with this number.
    Signaled(u8),
    /// The operating system reported a status that is neither of the above.
    Other(i32),
    /// The process is known to have ended, but its status was lost.
    Undetermined,
}

impl TerminationDescriptor {
    /// The word under which this kind of ending is reported.
    pub open spec fn kind_text(self) -> Seq<char> {
        match self {
            TerminationDescriptor::Exited(_) => "exit"@,
            TerminationDescriptor::Signaled(_) => "signal"@,
            TerminationDescriptor::Other(_) => "other"@,
            TerminationDescriptor::Undetermined => "undetermined"@,
        }
    }

    /// The number reported along with the kind: the exit code read as a
    /// two's-complement 32-bit value, the signal number, the raw status,
    /// or zero when nothing is known.
    pub open spec fn code_value(self) -> int {
        match self {
            TerminationDescriptor::Exited(code) => if code <= 0x7fff_ffff {
                code as int
            } else {
                code as int - 0x1_0000_0000
            },
            TerminationDescriptor::Signaled(signal) => signal as int,
            TerminationDescriptor::Other(code) => code as int,
            TerminationDescriptor::Undetermined => 0,
        }
    }

    /// Returns the word for this kind of ending.
    pub fn kind(&self) -> (name: &'static str)
        ensures
            name@ == self.kind_text(),
    {
        match self {
            TerminationDescriptor::Exited(_) => "exit",
            TerminationDescriptor::Signaled(_) => "signal",
            TerminationDescriptor::Other(_) => "other",
            TerminationDescriptor::Undetermined => "undetermined",
        }
    }

    /// Returns the number reported along with the kind.
    pub fn code(&self) -> (code: i32)
        ensures
            code == self.code_value(),
    {
        match *self {
            TerminationDescriptor::Exited(code) => {
                if code <= 0x7fff_ffff {
                    code as i32
                } else {
                    let low: u32 = code - 0x8000_0000;
                    low as i32 + i32::MIN
                }
            },
            TerminationDescriptor::Signaled(signal) => signal as i32,
            TerminationDescriptor::Other(code) => code,
            TerminationDescriptor::Undetermined => 0,
        }
    }
}

/// Renders the result of a status query as the pair handed to the caller:
/// kind and number when the child has ended, two absent values otherwise.
pub fn status_report(status: Option<TerminationDescriptor>) -> (report: (Option<String>, Option<i32>))
    ensures
        match status {
            Some(ending) => report.0 is Some && report.0->0@ == ending.kind_text()
                && report.1 is Some && report.1->0 == ending.code_value(),
            None => report.0 is None && report.1 is None,
        },
{
    match status {
        Some(ending) => (Some(String::from_str(ending.kind())), Some(ending.code())),
        None => (None, None),
    }
}

} // verus!
