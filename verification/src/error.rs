//! Error values of the record reader and of the deserializer.

use vstd::prelude::*;

verus! {

/// In which direction a row departs from the header's column count.
#[derive(Clone, Copy, Debug, PartialEq, Eq, Structural)]
pub enum ColumnMismatch {
    /// The row goes on after its last expected column.
    TooMany,
    /// The row ends before its last expected column.
    TooFew,
}

/// A structural fault of the input, tagged with the physical line on which
/// the reader stood when it noticed the fault.
#[derive(Clone, Copy, Debug, PartialEq, Eq, Structural)]
pub enum RecordError {
    /// The input ended inside a header or inside a row.
    UnexpectedEnd { line: usize },
    /// A row has more or fewer columns than the header.
    ColumnCountMismatch { line: usize, kind: ColumnMismatch },
}

/// Why a raw column could not be converted into a field's value.
#[derive(Clone, Copy, Debug, PartialEq, Eq, Structural)]
pub enum FieldError {
    /// The text is not a number of the field's integer type.
    InvalidInteger,
    /// The text is not a calendar date in the expected notation.
    InvalidDate,
    /// The text is none of the words that the field accepts.
    UnknownValue,
}

/// Everything that can abort a deserialization.
#[derive(Clone, Debug, PartialEq, Eq)]
pub enum CsvError {
    /// The header or a row is structurally broken.
    Record(RecordError),
    /// The header has no column of the name that a field is bound to.
    MissingField { name: String },
    /// A field rejected the raw text of its column.
    FieldParse { index: usize, name: String, raw: String, reason: FieldError },
}

/// Mathematical value of a [`CsvError`].
pub enum CsvErrorView {
    Record(RecordError),
    MissingField { name: Seq<char> },
    FieldParse { index: usize, name: Seq<char>, raw: Seq<char>, reason: FieldError },
}

impl View for CsvError {
    type V = CsvErrorView;

    open spec fn view(&self) -> CsvErrorView {
        match *self {
            CsvError::Record(e) => CsvErrorView::Record(e),
            CsvError::MissingField { name } => CsvErrorView::MissingField { name: name@ },
            CsvError::FieldParse { index, name, raw, reason } => CsvErrorView::FieldParse {
                index,
                name: name@,
                raw: raw@,
                reason,
            },
        }
    }
}

} // verus!
