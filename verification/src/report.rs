//! How errors read as text.
//!
//! An error of the file format is handed on as a text inside an error of
//! the table store, and an error of the table store as a text inside the
//! result of a command. The text of an error is the one that `{:?}` prints
//! for it: the name of the variant, then its fields, a text among them
//! between double quotes and with its special characters escaped
//! ([`quoted`]).
use vstd::prelude::*;
use vstd::string::*;
use crate::file_io::{MetaFault, ReadError, ReadErrorView, WriteError, WriteErrorView};
use crate::numeric::{push_nat, render_nat};
use crate::table::{TableErrors, TableErrorsView};
use crate::text::{quote, quoted};

verus! {

/// A text that stands for no text: what an error without a text carries.
fn no_text() -> (s: &'static str)
    ensures
        s@ == Seq::<char>::empty(),
{
    proof {
        reveal_strlit("");
    }
    assert(""@ =~= Seq::<char>::empty());
    ""
}

impl MetaFault {
    /// What the fault says.
    pub open spec fn message(self) -> Seq<char> {
        match self {
            MetaFault::Segments(n) => "Segments("@ + render_nat(n as nat) + ")"@,
            MetaFault::ElementCount => "ElementCount"@,
            MetaFault::Type => "Type"@,
            MetaFault::UnknownType => "UnknownType"@,
            MetaFault::Name => "Name"@,
        }
    }

    /// Appends what the fault says.
    fn push_message(&self, out: &mut String)
        ensures
            final(out)@ == old(out)@ + self.message(),
    {
        match self {
            MetaFault::Segments(n) => {
                out.push_str("Segments(");
                push_nat(out, *n as u64);
                out.push_str(")");
                assert(final(out)@ =~= old(out)@ + self.message());
            },
            MetaFault::ElementCount => {
                out.push_str("ElementCount");
            },
            MetaFault::Type => {
                out.push_str("Type");
            },
            MetaFault::UnknownType => {
                out.push_str("UnknownType");
            },
            MetaFault::Name => {
                out.push_str("Name");
            },
        }
    }
}

impl ReadErrorView {
    /// The text that the error carries; no text where it carries none.
    pub open spec fn carried(self) -> Seq<char> {
        match self {
            ReadErrorView::MalformedFile => Seq::empty(),
            ReadErrorView::InvalidFileSize => Seq::empty(),
            ReadErrorView::InvalidFieldMeta { text, .. } => text,
            ReadErrorView::FieldParseError { field, .. } => field,
            ReadErrorView::StdIoError(text) => text,
        }
    }

    /// What the error says, with `text` in the place of the text that it
    /// carries.
    pub open spec fn message_with(self, text: Seq<char>) -> Seq<char> {
        match self {
            ReadErrorView::MalformedFile => "MalformedFile"@,
            ReadErrorView::InvalidFileSize => "InvalidFileSize"@,
            ReadErrorView::InvalidFieldMeta { line, fault, .. } => "InvalidFieldMeta { line: "@
                + render_nat(line as nat) + ", text: "@ + text + ", fault: "@ + fault.message()
                + " }"@,
            ReadErrorView::FieldParseError { line, .. } => "FieldParseError { line: "@ + render_nat(
                line as nat,
            ) + ", field: "@ + text + " }"@,
            ReadErrorView::StdIoError(_) => "StdIoError("@ + text + ")"@,
        }
    }

    /// What the error says: the text that it carries stands quoted.
    pub open spec fn message(self) -> Seq<char> {
        self.message_with(quoted(self.carried()))
    }
}

impl ReadError {
    /// The text that the error carries.
    fn carried(&self) -> (s: &str)
        ensures
            s@ == self@.carried(),
    {
        match self {
            ReadError::MalformedFile => no_text(),
            ReadError::InvalidFileSize => no_text(),
            ReadError::InvalidFieldMeta { text, .. } => text.as_str(),
            ReadError::FieldParseError { field, .. } => field.as_str(),
            ReadError::StdIoError(text) => text.as_str(),
        }
    }

    /// What the error says, with `text` in the place of the text that it
    /// carries.
    pub fn message_with(&self, text: &str) -> (s: String)
        ensures
            s@ == self@.message_with(text@),
    {
        let mut out = String::new();
        match self {
            ReadError::MalformedFile => {
                out.push_str("MalformedFile");
            },
            ReadError::InvalidFileSize => {
                out.push_str("InvalidFileSize");
            },
            ReadError::InvalidFieldMeta { line, fault, .. } => {
                out.push_str("InvalidFieldMeta { line: ");
                push_nat(&mut out, *line as u64);
                out.push_str(", text: ");
                out.push_str(text);
                out.push_str(", fault: ");
                fault.push_message(&mut out);
                out.push_str(" }");
            },
            ReadError::FieldParseError { line, .. } => {
                out.push_str("FieldParseError { line: ");
                push_nat(&mut out, *line as u64);
                out.push_str(", field: ");
                out.push_str(text);
                out.push_str(" }");
            },
            ReadError::StdIoError(_) => {
                out.push_str("StdIoError(");
                out.push_str(text);
                out.push_str(")");
            },
        }
        assert(out@ =~= self@.message_with(text@));
        out
    }

    /// What the error says.
    pub fn message(&self) -> (s: String)
        ensures
            s@ == self@.message(),
    {
        let text = quote(self.carried());
        self.message_with(text.as_str())
    }
}

impl WriteErrorView {
    /// The name of the field that the error speaks of; no text where it
    /// speaks of none.
    pub open spec fn carried(self) -> Seq<char> {
        match self {
            WriteErrorView::EmptySchema => Seq::empty(),
            WriteErrorView::UnequalColumns { field } => field,
            WriteErrorView::LineBreakInText { field, .. } => field,
        }
    }

    /// What the error says, with `text` in the place of the name that it
    /// carries.
    pub open spec fn message_with(self, text: Seq<char>) -> Seq<char> {
        match self {
            WriteErrorView::EmptySchema => "EmptySchema"@,
            WriteErrorView::UnequalColumns { .. } => "UnequalColumns { field: "@ + text + " }"@,
            WriteErrorView::LineBreakInText { row, .. } => "LineBreakInText { field: "@ + text
                + ", row: "@ + render_nat(row as nat) + " }"@,
        }
    }

    /// What the error says: the name that it carries stands quoted.
    pub open spec fn message(self) -> Seq<char> {
        self.message_with(quoted(self.carried()))
    }
}

impl WriteError {
    /// The name of the field that the error speaks of.
    fn carried(&self) -> (s: &str)
        ensures
            s@ == self@.carried(),
    {
        match self {
            WriteError::EmptySchema => no_text(),
            WriteError::UnequalColumns { field } => field.as_str(),
            WriteError::LineBreakInText { field, .. } => field.as_str(),
        }
    }

    /// What the error says, with `text` in the place of the name that it
    /// carries.
    pub fn message_with(&self, text: &str) -> (s: String)
        ensures
            s@ == self@.message_with(text@),
    {
        let mut out = String::new();
        match self {
            WriteError::EmptySchema => {
                out.push_str("EmptySchema");
            },
            WriteError::UnequalColumns { .. } => {
                out.push_str("UnequalColumns { field: ");
                out.push_str(text);
                out.push_str(" }");
            },
            WriteError::LineBreakInText { row, .. } => {
                out.push_str("LineBreakInText { field: ");
                out.push_str(text);
                out.push_str(", row: ");
                push_nat(&mut out, *row as u64);
                out.push_str(" }");
            },
        }
        assert(out@ =~= self@.message_with(text@));
        out
    }

    /// What the error says.
    pub fn message(&self) -> (s: String)
        ensures
            s@ == self@.message(),
    {
        let text = quote(self.carried());
        self.message_with(text.as_str())
    }
}

impl TableErrorsView {
    /// The text that the error carries; no text where it carries none.
    pub open spec fn carried(self) -> Seq<char> {
        match self {
            TableErrorsView::TableNotFound => Seq::empty(),
            TableErrorsView::TableAlreadyExists => Seq::empty(),
            TableErrorsView::ColumnNotFound(name) => name,
            TableErrorsView::WriteError(text) => text,
            TableErrorsView::ReadError(text) => text,
            TableErrorsView::Error(text) => text,
        }
    }

    /// What the error says, with `text` in the place of the text that it
    /// carries.
    pub open spec fn message_with(self, text: Seq<char>) -> Seq<char> {
        match self {
            TableErrorsView::TableNotFound => "TableNotFound"@,
            TableErrorsView::TableAlreadyExists => "TableAlreadyExists"@,
            TableErrorsView::ColumnNotFound(_) => "ColumnNotFound("@ + text + ")"@,
            TableErrorsView::WriteError(_) => "WriteError("@ + text + ")"@,
            TableErrorsView::ReadError(_) => "ReadError("@ + text + ")"@,
            TableErrorsView::Error(_) => "Error("@ + text + ")"@,
        }
    }

    /// What the error says: the text that it carries stands quoted.
    pub open spec fn message(self) -> Seq<char> {
        self.message_with(quoted(self.carried()))
    }
}

impl TableErrors {
    /// The text that the error carries.
    fn carried(&self) -> (s: &str)
        ensures
            s@ == self@.carried(),
    {
        match self {
            TableErrors::TableNotFound => no_text(),
            TableErrors::TableAlreadyExists => no_text(),
            TableErrors::ColumnNotFound(name) => name.as_str(),
            TableErrors::WriteError(text) => text.as_str(),
            TableErrors::ReadError(text) => text.as_str(),
            TableErrors::Error(text) => text.as_str(),
        }
    }

    /// What the error says, with `text` in the place of the text that it
    /// carries.
    pub fn message_with(&self, text: &str) -> (s: String)
        ensures
            s@ == self@.message_with(text@),
    {
        let mut out = String::new();
        match self {
            TableErrors::TableNotFound => {
                out.push_str("TableNotFound");
            },
            TableErrors::TableAlreadyExists => {
                out.push_str("TableAlreadyExists");
            },
            TableErrors::ColumnNotFound(_) => {
                out.push_str("ColumnNotFound(");
                out.push_str(text);
                out.push_str(")");
            },
            TableErrors::WriteError(_) => {
                out.push_str("WriteError(");
                out.push_str(text);
                out.push_str(")");
            },
            TableErrors::ReadError(_) => {
                out.push_str("ReadError(");
                out.push_str(text);
                out.push_str(")");
            },
            TableErrors::Error(_) => {
                out.push_str("Error(");
                out.push_str(text);
                out.push_str(")");
            },
        }
        assert(out@ =~= self@.message_with(text@));
        out
    }

    /// What the error says.
    pub fn message(&self) -> (s: String)
        ensures
            s@ == self@.message(),
    {
        let text = quote(self.carried());
        self.message_with(text.as_str())
    }
}

} // verus!
