//! The failures of loading and evaluating a table.
use vstd::prelude::*;

verus! {

/// A failure, with its message where it has one.
#[derive(Debug)]
pub enum CsvError {
    /// The input could not be read, or the output could not be written.
    FileError(String),
    /// A function was given the wrong number of arguments.
    ArgError,
    /// A formula is malformed, or an operand is not a number.
    ExprError(String),
    /// The two ends of a range share neither a row nor a column.
    RangeError(String),
    /// A cell pointer names no cell of the table.
    CellPError(String),
    /// The application could not run.
    RunError(String),
}

/// A failure with its message as a sequence of characters.
pub enum ErrorView {
    FileError(Seq<char>),
    ArgError,
    ExprError(Seq<char>),
    RangeError(Seq<char>),
    CellPError(Seq<char>),
    RunError(Seq<char>),
}

impl ErrorView {
    /// The diagnostic that stands for the failure in an output cell.
    pub open spec fn message(self) -> Seq<char> {
        match self {
            ErrorView::FileError(msg) => "#[FILE ERROR] "@ + msg,
            ErrorView::ArgError => "#[ARG ERROR] Incorrect argument amount..."@,
            ErrorView::ExprError(msg) => "#[EXPR ERROR] "@ + msg,
            ErrorView::RangeError(msg) => "#[RANGE ERROR] "@ + msg,
            ErrorView::CellPError(msg) => "#[CELL POINTER ERROR] "@ + msg,
            ErrorView::RunError(msg) => "Error while running application!\n"@ + msg,
        }
    }
}

impl View for CsvError {
    type V = ErrorView;

    open spec fn view(&self) -> ErrorView {
        match self {
            CsvError::FileError(msg) => ErrorView::FileError(msg@),
            CsvError::ArgError => ErrorView::ArgError,
            CsvError::ExprError(msg) => ErrorView::ExprError(msg@),
            CsvError::RangeError(msg) => ErrorView::RangeError(msg@),
            CsvError::CellPError(msg) => ErrorView::CellPError(msg@),
            CsvError::RunError(msg) => ErrorView::RunError(msg@),
        }
    }
}

/// The view of a result that may hold a failure.
pub open spec fn failure_view<T>(r: Result<T, CsvError>) -> Result<T, ErrorView> {
    match r {
        Ok(v) => Ok(v),
        Err(e) => Err(e@),
    }
}

impl CsvError {
    /// The diagnostic text of the failure.
    pub fn to_string(&self) -> (r: String)
        ensures
            r@ == self@.message(),
    {
        match self {
            CsvError::FileError(msg) => prefixed("#[FILE ERROR] ", msg),
            CsvError::ArgError => "#[ARG ERROR] Incorrect argument amount...".to_owned(),
            CsvError::ExprError(msg) => prefixed("#[EXPR ERROR] ", msg),
            CsvError::RangeError(msg) => prefixed("#[RANGE ERROR] ", msg),
            CsvError::CellPError(msg) => prefixed("#[CELL POINTER ERROR] ", msg),
            CsvError::RunError(msg) => prefixed("Error while running application!\n", msg),
        }
    }
}

/// The message `msg` behind the tag `tag`.
fn prefixed(tag: &str, msg: &String) -> (r: String)
    ensures
        r@ == tag@ + msg@,
{
    let mut r = tag.to_owned();
    r.append(msg.as_str());
    r
}

} // verus!
