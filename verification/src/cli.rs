//! The decision of the formatter: given a parsed file and our rendering of
//! it, whether it is refused, settled, reported or rewritten.
use vstd::prelude::*;

use crate::error::ValidationError;
use crate::model::Canvas;
use crate::validate::{validate, validation_errors};

verus! {

/// What formatting one file comes to.
pub enum FmtOutcome {
    /// The document breaks these rules; the file is left alone.
    Invalid { errors: Vec<ValidationError> },
    /// The file already reads exactly as we would write it.
    Settled,
    /// Checking only, and the file would change.
    NotFormatted,
    /// Write the rendering over the file.
    Rewrite,
}

/// Decides the formatting of a file whose text is `source`, which parsed as
/// `canvas` and which we would write as `formatted`.
pub fn fmt_outcome(canvas: &Canvas, source: &str, formatted: &str, check: bool) -> (r: FmtOutcome)
    ensures
        validation_errors(canvas@).len() > 0 ==> (r matches FmtOutcome::Invalid { errors }
            && errors@ == validation_errors(canvas@)),
        validation_errors(canvas@).len() == 0 && source@ == formatted@ ==> r is Settled,
        validation_errors(canvas@).len() == 0 && source@ != formatted@ && check ==> r is NotFormatted,
        validation_errors(canvas@).len() == 0 && source@ != formatted@ && !check ==> r is Rewrite,
{
    if let Err(errors) = validate(canvas) {
        return FmtOutcome::Invalid { errors };
    }
    if source.to_owned() == formatted.to_owned() {
        FmtOutcome::Settled
    } else if check {
        FmtOutcome::NotFormatted
    } else {
        FmtOutcome::Rewrite
    }
}

} // verus!
