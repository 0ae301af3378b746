//! What an SBI call returns, read apart from the call itself.

use vstd::prelude::*;

verus! {

#[derive(Debug, Clone, Copy, PartialEq, Eq, Structural)]
pub struct SbiRet {
    pub error: isize,
    pub value: usize,
}

#[derive(Debug, Clone, Copy, PartialEq, Eq)]
pub struct SbiError(pub isize);

impl SbiRet {
    /// The value when the error code is zero, else the error code.
    pub fn into_result(self) -> (r: Result<usize, SbiError>)
        ensures
            self.error == 0 ==> r == Ok::<usize, SbiError>(self.value),
            self.error != 0 ==> (r matches Err(e) && e.0 == self.error),
    {
        if self.error == 0 {
            Ok(self.value)
        } else {
            Err(SbiError(self.error))
        }
    }
}

} // verus!
