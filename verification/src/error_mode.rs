use vstd::prelude::*;

verus! {

/// The mode which the error handling is done in the bindings.
#[derive(Debug, Copy, Clone)]
pub enum ErrorHandlingMode {
    /// Errors will be thrown
    Throw,
    /// Errors will be returned as a Result enum
    Result,
}

impl Default for ErrorHandlingMode {
    /// Bindings return errors as a `Result` unless asked otherwise.
    fn default() -> (mode: Self)
        ensures
            mode == ErrorHandlingMode::Result,
    {
        ErrorHandlingMode::Result
    }
}

} // verus!
