use vstd::prelude::*;

use crate::error::Error;

verus! {

/// Picks the editor command: the environment-provided configuration value
/// when one is set, else the conventional default editor.
pub fn editor_program(configured: Option<String>) -> (r: String)
    ensures
        configured matches Some(e) ==> r == e,
        configured is None ==> r@ == "vi"@,
{
    match configured {
        Some(e) => e,
        None => "vi".to_owned(),
    }
}

/// Interprets the editor subprocess's exit status.  Success lets the run go
/// on; a non-zero exit is the `Editor` error, fatal to the whole operation
/// before any rename is planned or attempted.
pub fn editor_result(success: bool) -> (r: Result<(), Error>)
    ensures
        r is Ok <==> success,
        !success ==> r == Err::<(), Error>(Error::Editor),
{
    if success {
        Ok(())
    } else {
        Err(Error::Editor)
    }
}

} // verus!
