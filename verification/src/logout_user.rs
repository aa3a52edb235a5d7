//! The `LogoutUser` command: it logs out the authenticated user and has no
//! payload.

use crate::buffer::{bytes_as_slice, bytes_empty, bytes_view};
use crate::error::IggyError;
use bytes::Bytes;
use vstd::prelude::*;

verus! {

/// `LogoutUser` command is used to logout the authenticated user.
/// It has no additional payload.
#[derive(Debug, PartialEq)]
pub struct LogoutUser {}

impl LogoutUser {
    /// There is nothing to check.
    pub fn validate(&self) -> (r: Result<(), IggyError>)
        ensures
            r == Ok::<(), IggyError>(()),
    {
        Ok(())
    }

    /// The wire form: no bytes.
    pub fn as_bytes(&self) -> (bytes: Bytes)
        ensures
            bytes_view(bytes) == Seq::<u8>::empty(),
    {
        bytes_empty()
    }

    /// The command parses from no bytes; anything else is `InvalidCommand`.
    pub fn from_bytes(bytes: Bytes) -> (r: Result<LogoutUser, IggyError>)
        ensures
            r is Ok <==> bytes_view(bytes).len() == 0,
            r is Err ==> r->Err_0 == IggyError::InvalidCommand,
    {
        if bytes_as_slice(&bytes).len() != 0 {
            return Err(IggyError::InvalidCommand);
        }
        let command = LogoutUser {  };
        match command.validate() {
            Ok(()) => Ok(command),
            Err(e) => Err(e),
        }
    }

    /// The text form: nothing.
    pub fn to_string(&self) -> (text: String)
        ensures
            text@ == Seq::<char>::empty(),
    {
        String::new()
    }
}

impl Default for LogoutUser {
    fn default() -> (command: LogoutUser) {
        LogoutUser {  }
    }
}

} // verus!
