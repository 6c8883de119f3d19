//! The fatal errors of the assembler.  Every error aborts the whole
//! translation: there is no partial success or recovery path.

use vstd::prelude::*;

verus! {

/// A fatal assembly error.
#[derive(Debug, PartialEq, Eq)]
pub enum AsmError {
    /// An invalid character for the current lexical mode, with its 1-based
    /// line number and 0-based column.
    Lexical { line: usize, column: usize, character: u8 },
    /// A section marker other than `data` or `text`.
    UnrecognizedSection { name: Vec<u8> },
    /// A symbolic operand with no matching entry in the label table at the
    /// time of lookup.
    UnresolvedLabel { name: Vec<u8> },
    /// A numeric operand out of the 0-255 byte range.
    MalformedNumericOperand { text: Vec<u8> },
    /// The program needs more image bytes than exist: `required` is the
    /// smallest image size that would have fit it, `available` is the
    /// fixed image size.
    CapacityExceeded { required: usize, available: usize },
}

/// The mathematical image of an assembly error.
#[verifier::ext_equal]
pub ghost enum AsmErrorView {
    Lexical { line: int, column: int, character: u8 },
    UnrecognizedSection { name: Seq<u8> },
    UnresolvedLabel { name: Seq<u8> },
    MalformedNumericOperand { text: Seq<u8> },
    CapacityExceeded { required: int, available: int },
}

impl View for AsmError {
    type V = AsmErrorView;

    open spec fn view(&self) -> AsmErrorView {
        match self {
            AsmError::Lexical { line, column, character } => AsmErrorView::Lexical {
                line: *line as int,
                column: *column as int,
                character: *character,
            },
            AsmError::UnrecognizedSection { name } => AsmErrorView::UnrecognizedSection {
                name: name@,
            },
            AsmError::UnresolvedLabel { name } => AsmErrorView::UnresolvedLabel { name: name@ },
            AsmError::MalformedNumericOperand { text } => AsmErrorView::MalformedNumericOperand {
                text: text@,
            },
            AsmError::CapacityExceeded { required, available } => AsmErrorView::CapacityExceeded {
                required: *required as int,
                available: *available as int,
            },
        }
    }
}

} // verus!
