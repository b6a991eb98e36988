//! The operations a command handler offers.
use vstd::prelude::*;

use crate::{Args, AtError, AtResult};

verus! {

/// A command handler: the state and behaviour behind one command name.
///
/// Each operation is optional; one that a handler leaves out answers
/// `Err(AtError::NotSupported)` and leaves the handler's state as it was.
pub trait AtContext: Sized {
    /// Runs the command (`AT+NAME`).
    fn exec(&self) -> (r: AtResult<'static>)
        default_ensures
            r == Err::<&'static str, AtError>(AtError::NotSupported),
    {
        Err(AtError::NotSupported)
    }

    /// Reports the current value (`AT+NAME?`).
    fn query(&mut self) -> (r: AtResult<'static>)
        default_ensures
            r == Err::<&'static str, AtError>(AtError::NotSupported),
            *final(self) == *old(self),
    {
        Err(AtError::NotSupported)
    }

    /// Lists the accepted values (`AT+NAME=?`).
    fn test(&mut self) -> (r: AtResult<'static>)
        default_ensures
            r == Err::<&'static str, AtError>(AtError::NotSupported),
            *final(self) == *old(self),
    {
        Err(AtError::NotSupported)
    }

    /// Applies the arguments (`AT+NAME=<args>`).
    fn set(&mut self, args: Args) -> (r: AtResult<'static>)
        default_ensures
            r == Err::<&'static str, AtError>(AtError::NotSupported),
            *final(self) == *old(self),
    {
        Err(AtError::NotSupported)
    }
}

} // verus!
