//! The errors that the library reports.

use vstd::prelude::*;

verus! {

/// Why a chunk lock could not be taken.
#[derive(Debug, Clone, Copy, PartialEq, Eq, Structural)]
pub enum BitlockErr {
    /// The index (first) is not below the number of locks (second).
    OutOfBounds(usize, usize),
    /// The lock with this index is held.
    Contended(usize),
    /// The lock set was poisoned; the index is the one that was asked for.
    PoisonErr(usize),
}

/// Why an object could not be reached.
#[derive(Debug, Clone)]
pub enum UfoLookupErr {
    CoreShutdown,
    CoreBroken(String),
    UfoLockBroken,
    UfoNotFound,
}

/// Why an allocation request got no answer.
#[derive(Debug, Clone, Copy, PartialEq, Eq, Structural)]
pub enum UfoAllocateErr {
    MessageSendError,
    MessageRecvError,
}

/// The populate callback reported a failure.
#[derive(Debug, Clone, Copy, PartialEq, Eq, Structural)]
pub struct UfoPopulateError;

/// Why a configuration was rejected.
#[derive(Debug, Clone, Copy, PartialEq, Eq, Structural)]
pub enum UfoConfigErr {
    /// The low watermark is not below the high watermark.
    WatermarkOrder,
    /// The page size, the stride or the minimum load count is 0.
    ZeroQuantum,
    /// A size of the object does not fit the machine word.
    SizeOverflow,
}

/// `String::push_str`: appends the second string to the first.
#[verifier::external_body]
fn push_str(s: &mut String, t: &str)
    ensures
        final(s)@ == old(s)@ + t@,
{
    s.push_str(t)
}

impl BitlockErr {
    /// The index that the failed request named.
    pub open spec fn spec_index(self) -> usize {
        match self {
            BitlockErr::OutOfBounds(idx, _) => idx,
            BitlockErr::Contended(idx) => idx,
            BitlockErr::PoisonErr(idx) => idx,
        }
    }

    /// The index that the failed request named.
    pub fn index(&self) -> (r: usize)
        ensures
            r == self.spec_index(),
    {
        match self {
            BitlockErr::OutOfBounds(idx, _) => *idx,
            BitlockErr::Contended(idx) => *idx,
            BitlockErr::PoisonErr(idx) => *idx,
        }
    }
}

impl UfoLookupErr {
    /// The text of the error.
    pub open spec fn spec_message(self) -> Seq<char> {
        match self {
            UfoLookupErr::CoreShutdown => "Core shutdown"@,
            UfoLookupErr::CoreBroken(why) => "Core non functional, "@ + why@,
            UfoLookupErr::UfoLockBroken => "Ufo Lock is broken"@,
            UfoLookupErr::UfoNotFound => "Ufo not found"@,
        }
    }

    /// The text of the error.
    pub fn message(&self) -> (r: String)
        ensures
            r@ == self.spec_message(),
    {
        match self {
            UfoLookupErr::CoreShutdown => "Core shutdown".to_owned(),
            UfoLookupErr::CoreBroken(why) => {
                let mut text = "Core non functional, ".to_owned();
                push_str(&mut text, why.as_str());
                text
            },
            UfoLookupErr::UfoLockBroken => "Ufo Lock is broken".to_owned(),
            UfoLookupErr::UfoNotFound => "Ufo not found".to_owned(),
        }
    }

    /// The error for a message that could not be handed to the control loop.
    pub fn send_failed() -> (r: UfoLookupErr)
        ensures
            r matches UfoLookupErr::CoreBroken(why) && why@ == "Error when sending messsge to the core"@,
    {
        UfoLookupErr::CoreBroken("Error when sending messsge to the core".to_owned())
    }
}

impl UfoAllocateErr {
    /// The text of the error.
    pub open spec fn spec_message(self) -> Seq<char> {
        match self {
            UfoAllocateErr::MessageSendError => "Could not send message, messaage channel broken"@,
            UfoAllocateErr::MessageRecvError => "Could not recieve message"@,
        }
    }

    /// The text of the error.
    pub fn message(&self) -> (r: String)
        ensures
            r@ == self.spec_message(),
    {
        match self {
            UfoAllocateErr::MessageSendError => "Could not send message, messaage channel broken".to_owned(),
            UfoAllocateErr::MessageRecvError => "Could not recieve message".to_owned(),
        }
    }
}

impl UfoPopulateError {
    /// The text of the error.
    pub fn message(&self) -> (r: String)
        ensures
            r@ == "Internal Ufo Error when populating"@,
    {
        "Internal Ufo Error when populating".to_owned()
    }
}

} // verus!
