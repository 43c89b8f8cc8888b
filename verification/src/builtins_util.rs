use vstd::prelude::*;

use crate::types::{Builtin, Expression, LispError};

verus! {

/// Checks that `args` holds no forms after the first `used`.
pub fn params_done(args: &[Expression], used: usize, form: Builtin) -> (r: Result<(), LispError>)
    ensures
        r == (if args@.len() > used { Err(LispError::TooManyForms(form)) } else { Ok::<(), LispError>(()) }),
{
    if args.len() > used {
        Err(LispError::TooManyForms(form))
    } else {
        Ok(())
    }
}

} // verus!
