//! Reading the result of a system call.

use vstd::prelude::*;

verus! {

#[verifier::external_type_specification]
#[verifier::external_body]
pub struct ExIoError(std::io::Error);

/// `std::io::Error::last_os_error`: the error that the operating system
/// recorded last for this thread. Nothing is claimed of its value.
#[verifier::external_body]
fn last_os_error() -> std::io::Error {
    std::io::Error::last_os_error()
}

/// The address that a mapping call returns when it fails.
pub open spec fn spec_map_failed() -> usize {
    usize::MAX
}

/// Reads the result of a call that returns 0 on success and -1 on failure.
pub fn check_return_zero(result: i32) -> (r: Result<(), std::io::Error>)
    requires
        result == 0 || result == -1,
    ensures
        r is Ok <==> result == 0,
{
    if result == 0 {
        Ok(())
    } else {
        Err(last_os_error())
    }
}

/// Reads the result of a call that returns a number from 0 on success and -1
/// on failure.
pub fn check_return_nonneg(result: i32) -> (r: Result<i32, std::io::Error>)
    requires
        result >= -1,
    ensures
        r is Ok <==> result != -1,
        r is Ok ==> r->Ok_0 == result,
{
    if result == -1 {
        Err(last_os_error())
    } else {
        Ok(result)
    }
}

/// Reads the address that a mapping call returned: every address but the
/// all-ones word is a success.
pub fn check_ptr_nonneg(result: usize) -> (r: Result<usize, std::io::Error>)
    ensures
        r is Ok <==> result != spec_map_failed(),
        r is Ok ==> r->Ok_0 == result,
{
    if result == usize::MAX {
        Err(last_os_error())
    } else {
        Ok(result)
    }
}

} // verus!
