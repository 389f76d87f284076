//! The errors of parsing, binding and rendering.
use vstd::prelude::*;

verus! {

/// What went wrong while parsing a sheet, binding instruments or rendering.
#[derive(Debug, Clone, PartialEq, Eq)]
pub enum P1Error {
    /// The sheet text is malformed: it is empty, a pattern holds a character
    /// outside the notation, or no loop end can be found.
    Sheet,
    /// The value given for this key is not an instrument.
    InstrumentUnknown(String),
    /// The sheet and the instruments disagree on their arrangement; `true`
    /// when the sheet is the indexed one.
    ArrangementMismatch(bool),
    /// The sheet names a row that no instrument is bound to.
    UnboundInstrument(String),
    /// The instrument of this row is ready neither in mono nor in stereo.
    InstrumentUnavailable(String),
    /// The instrument of this row has no first sample to play.
    EmptyInstrument(String),
    /// This row needs the other channel count than the buffer already has.
    FormatConflict(String),
    /// This row, expanded at the tick interval, is too long to hold.
    RowTooLong(String),
}

/// The model of a `P1Error`.
pub enum ErrorView {
    Sheet,
    InstrumentUnknown(Seq<char>),
    ArrangementMismatch(bool),
    UnboundInstrument(Seq<char>),
    InstrumentUnavailable(Seq<char>),
    EmptyInstrument(Seq<char>),
    FormatConflict(Seq<char>),
    RowTooLong(Seq<char>),
}

impl View for P1Error {
    type V = ErrorView;

    open spec fn view(&self) -> ErrorView {
        match self {
            P1Error::Sheet => ErrorView::Sheet,
            P1Error::InstrumentUnknown(k) => ErrorView::InstrumentUnknown(k@),
            P1Error::ArrangementMismatch(b) => ErrorView::ArrangementMismatch(*b),
            P1Error::UnboundInstrument(k) => ErrorView::UnboundInstrument(k@),
            P1Error::InstrumentUnavailable(k) => ErrorView::InstrumentUnavailable(k@),
            P1Error::EmptyInstrument(k) => ErrorView::EmptyInstrument(k@),
            P1Error::FormatConflict(k) => ErrorView::FormatConflict(k@),
            P1Error::RowTooLong(k) => ErrorView::RowTooLong(k@),
        }
    }
}

/// The text that describes an error.
pub open spec fn message_of(e: ErrorView) -> Seq<char> {
    match e {
        ErrorView::Sheet => "Sheet error"@,
        ErrorView::InstrumentUnknown(k) => "Instrument provided for \""@ + k
            + "\" is of an unrecognized Lua type"@,
        ErrorView::ArrangementMismatch(false) => "Sheet provided is labelled but the instruments table is indexed"@,
        ErrorView::ArrangementMismatch(true) => "Sheet provided is indexed but the instruments table is labelled"@,
        ErrorView::UnboundInstrument(k) => "Sheet mentions instrument \""@ + k
            + "\" which is not provided in instruments"@,
        ErrorView::InstrumentUnavailable(k) => "Instrument for \""@ + k
            + "\" is ready neither in mono nor in stereo"@,
        ErrorView::EmptyInstrument(k) => "Instrument for \""@ + k + "\" has no sample to play"@,
        ErrorView::FormatConflict(k) => "Row \""@ + k
            + "\" needs another channel count than the rendered buffer"@,
        ErrorView::RowTooLong(k) => "Row \""@ + k + "\" is too long at this tick interval"@,
    }
}

/// `before`, then `name`, then `after`.
fn quoted(before: &str, name: &String, after: &str) -> (r: String)
    ensures
        r@ == before@ + name@ + after@,
{
    let mut r = String::new();
    r.append(before);
    r.append(name.as_str());
    r.append(after);
    assert(r@ =~= before@ + name@ + after@);
    r
}

fn text(s: &str) -> (r: String)
    ensures
        r@ == s@,
{
    let mut r = String::new();
    r.append(s);
    assert(r@ =~= s@);
    r
}

impl P1Error {
    /// The text that describes this error.
    pub fn message(&self) -> (r: String)
        ensures
            r@ == message_of(self@),
    {
        match self {
            P1Error::Sheet => text("Sheet error"),
            P1Error::InstrumentUnknown(k) => quoted(
                "Instrument provided for \"",
                k,
                "\" is of an unrecognized Lua type",
            ),
            P1Error::ArrangementMismatch(false) => text(
                "Sheet provided is labelled but the instruments table is indexed",
            ),
            P1Error::ArrangementMismatch(true) => text(
                "Sheet provided is indexed but the instruments table is labelled",
            ),
            P1Error::UnboundInstrument(k) => quoted(
                "Sheet mentions instrument \"",
                k,
                "\" which is not provided in instruments",
            ),
            P1Error::InstrumentUnavailable(k) => quoted(
                "Instrument for \"",
                k,
                "\" is ready neither in mono nor in stereo",
            ),
            P1Error::EmptyInstrument(k) => quoted("Instrument for \"", k, "\" has no sample to play"),
            P1Error::FormatConflict(k) => quoted(
                "Row \"",
                k,
                "\" needs another channel count than the rendered buffer",
            ),
            P1Error::RowTooLong(k) => quoted("Row \"", k, "\" is too long at this tick interval"),
        }
    }
}

} // verus!
