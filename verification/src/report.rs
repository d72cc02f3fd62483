//! The errors that the analyses report.
use crate::ast::FileLocation;
use crate::decimal::{nat_decimal, usize_to_decimal};
use vstd::prelude::*;

verus! {

/// The kind of an error.
#[derive(Clone, Copy, Debug, PartialEq, Eq, Structural)]
pub enum ReportCode {
    SameSymbolDeclaredTwice,
    NonExistentSymbol,
    InvalidUnderscore,
    FunctionWrongNumberOfArguments,
}

/// An error: its message and code, and its primary label: the span and file
/// it points at and what it says there.
pub struct Report {
    pub message: String,
    pub code: ReportCode,
    pub location: FileLocation,
    pub file_id: usize,
    pub label: String,
}

/// The contents of a report.
pub struct ReportView {
    pub message: Seq<char>,
    pub code: ReportCode,
    pub start: usize,
    pub end: usize,
    pub file_id: usize,
    pub label: Seq<char>,
}

impl View for Report {
    type V = ReportView;

    open spec fn view(&self) -> ReportView {
        ReportView {
            message: self.message@,
            code: self.code,
            start: self.location.start,
            end: self.location.end,
            file_id: self.file_id,
            label: self.label@,
        }
    }
}

/// The contents of a list of reports.
pub open spec fn reports_view(r: Seq<Report>) -> Seq<ReportView> {
    r.map_values(|x: Report| x@)
}

/// A report with the given contents.
pub open spec fn report_at(
    message: Seq<char>,
    code: ReportCode,
    start: usize,
    end: usize,
    file_id: usize,
    label: Seq<char>,
) -> ReportView {
    ReportView { message, code, start, end, file_id, label }
}

/// A symbol declared where one of the same name already is.
pub open spec fn declared_twice(start: usize, end: usize, file_id: usize) -> ReportView {
    report_at(
        "Symbol declared twice"@,
        ReportCode::SameSymbolDeclaredTwice,
        start,
        end,
        file_id,
        "Declaring same symbol twice"@,
    )
}

/// A symbol used where none of its name is declared.
pub open spec fn undeclared_symbol(start: usize, end: usize, file_id: usize) -> ReportView {
    report_at(
        "Undeclared symbol"@,
        ReportCode::NonExistentSymbol,
        start,
        end,
        file_id,
        "Using unknown symbol"@,
    )
}

/// An underscore used in an expression.
pub open spec fn invalid_underscore(start: usize, end: usize, file_id: usize) -> ReportView {
    report_at(
        "Underscore"@,
        ReportCode::InvalidUnderscore,
        start,
        end,
        file_id,
        "This underscore cannot be used here."@,
    )
}

/// A call of an unknown function or template; also what an underscore
/// inside an index is reported as.
pub open spec fn unknown_call(start: usize, end: usize, file_id: usize) -> ReportView {
    report_at(
        "Calling symbol"@,
        ReportCode::NonExistentSymbol,
        start,
        end,
        file_id,
        "Calling unknown symbol"@,
    )
}

/// The label `Got <got> params, <expected> where expected`.
pub open spec fn count_label(got: nat, expected: nat) -> Seq<char> {
    "Got "@ + nat_decimal(got) + " params, "@ + nat_decimal(expected) + " where expected"@
}

/// A function called with the wrong number of arguments.
pub open spec fn function_wrong_arguments(
    start: usize,
    end: usize,
    file_id: usize,
    got: nat,
    expected: nat,
) -> ReportView {
    report_at(
        "Calling function with wrong number of arguments"@,
        ReportCode::FunctionWrongNumberOfArguments,
        start,
        end,
        file_id,
        count_label(got, expected),
    )
}

/// A template called with the wrong number of arguments.
pub open spec fn template_wrong_arguments(
    start: usize,
    end: usize,
    file_id: usize,
    got: nat,
    expected: nat,
) -> ReportView {
    report_at(
        "Calling template with wrong number of arguments"@,
        ReportCode::FunctionWrongNumberOfArguments,
        start,
        end,
        file_id,
        count_label(got, expected),
    )
}

/// An anonymous component given the wrong number of signals.
pub open spec fn template_wrong_signals(
    start: usize,
    end: usize,
    file_id: usize,
    got: nat,
    expected: nat,
) -> ReportView {
    report_at(
        "Calling template with wrong number of signals"@,
        ReportCode::FunctionWrongNumberOfArguments,
        start,
        end,
        file_id,
        count_label(got, expected),
    )
}

/// A public signal of the main component that is not one of its inputs.
pub open spec fn invalid_public(start: usize, end: usize, file_id: usize, signal: Seq<char>) -> ReportView {
    report_at(
        "Invalid public list"@,
        ReportCode::SameSymbolDeclaredTwice,
        start,
        end,
        file_id,
        signal + " is not an input signal"@,
    )
}

impl Report {
    /// A report with message `message` and code `code`, labelled `label` at
    /// `location` in file `file_id`.
    pub fn error(message: &str, code: ReportCode, location: FileLocation, file_id: usize, label: String) -> (res: Report)
        ensures
            res@ == report_at(message@, code, location.start, location.end, file_id, label@),
    {
        Report { message: String::from_str(message), code, location, file_id, label }
    }

    /// `declared_twice` at `location`.
    pub fn declared_twice(location: FileLocation, file_id: usize) -> (res: Report)
        ensures
            res@ == declared_twice(location.start, location.end, file_id),
    {
        Report::error(
            "Symbol declared twice",
            ReportCode::SameSymbolDeclaredTwice,
            location,
            file_id,
            String::from_str("Declaring same symbol twice"),
        )
    }

    /// `undeclared_symbol` at `location`.
    pub fn undeclared_symbol(location: FileLocation, file_id: usize) -> (res: Report)
        ensures
            res@ == undeclared_symbol(location.start, location.end, file_id),
    {
        Report::error(
            "Undeclared symbol",
            ReportCode::NonExistentSymbol,
            location,
            file_id,
            String::from_str("Using unknown symbol"),
        )
    }

    /// `invalid_underscore` at `location`.
    pub fn invalid_underscore(location: FileLocation, file_id: usize) -> (res: Report)
        ensures
            res@ == invalid_underscore(location.start, location.end, file_id),
    {
        Report::error(
            "Underscore",
            ReportCode::InvalidUnderscore,
            location,
            file_id,
            String::from_str("This underscore cannot be used here."),
        )
    }

    /// `unknown_call` at `location`.
    pub fn unknown_call(location: FileLocation, file_id: usize) -> (res: Report)
        ensures
            res@ == unknown_call(location.start, location.end, file_id),
    {
        Report::error(
            "Calling symbol",
            ReportCode::NonExistentSymbol,
            location,
            file_id,
            String::from_str("Calling unknown symbol"),
        )
    }

    /// `function_wrong_arguments` at `location`.
    pub fn function_wrong_arguments(location: FileLocation, file_id: usize, got: usize, expected: usize) -> (res: Report)
        ensures
            res@ == function_wrong_arguments(location.start, location.end, file_id, got as nat, expected as nat),
    {
        Report::error(
            "Calling function with wrong number of arguments",
            ReportCode::FunctionWrongNumberOfArguments,
            location,
            file_id,
            count_label_string(got, expected),
        )
    }

    /// `template_wrong_arguments` at `location`.
    pub fn template_wrong_arguments(location: FileLocation, file_id: usize, got: usize, expected: usize) -> (res: Report)
        ensures
            res@ == template_wrong_arguments(location.start, location.end, file_id, got as nat, expected as nat),
    {
        Report::error(
            "Calling template with wrong number of arguments",
            ReportCode::FunctionWrongNumberOfArguments,
            location,
            file_id,
            count_label_string(got, expected),
        )
    }

    /// `template_wrong_signals` at `location`.
    pub fn template_wrong_signals(location: FileLocation, file_id: usize, got: usize, expected: usize) -> (res: Report)
        ensures
            res@ == template_wrong_signals(location.start, location.end, file_id, got as nat, expected as nat),
    {
        Report::error(
            "Calling template with wrong number of signals",
            ReportCode::FunctionWrongNumberOfArguments,
            location,
            file_id,
            count_label_string(got, expected),
        )
    }

    /// `invalid_public` at `location`.
    pub fn invalid_public(location: FileLocation, file_id: usize, signal: &String) -> (res: Report)
        ensures
            res@ == invalid_public(location.start, location.end, file_id, signal@),
    {
        let mut label = signal.clone();
        label.append(" is not an input signal");
        Report::error(
            "Invalid public list",
            ReportCode::SameSymbolDeclaredTwice,
            location,
            file_id,
            label,
        )
    }
}

fn count_label_string(got: usize, expected: usize) -> (res: String)
    ensures
        res@ == count_label(got as nat, expected as nat),
{
    let mut s = String::from_str("Got ");
    s.append(usize_to_decimal(got).as_str());
    s.append(" params, ");
    s.append(usize_to_decimal(expected).as_str());
    s.append(" where expected");
    s
}

} // verus!
