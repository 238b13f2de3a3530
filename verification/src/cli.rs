use crate::errors::LedgerError;
use vstd::prelude::*;

verus! {

/// The command line of the ledger.
#[derive(Debug, Clone, Copy, PartialEq, Eq, Structural)]
pub struct Cli {}

impl Cli {
    /// A command line, ready to run.
    pub fn new() -> (made: Result<Cli, LedgerError>)
        ensures
            made == Ok::<Cli, LedgerError>(Cli {  }),
    {
        Ok(Cli {  })
    }
}

} // verus!
