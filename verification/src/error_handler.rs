//! The errors of the language and the record of which kinds have occurred.

use vstd::prelude::*;
use vstd::string::*;
use colored::{ColoredString, Colorize};
use crate::evaluation::{decimal, decimal_text};
use crate::token::Token;

verus! {

/// What can go wrong, by kind. Each carries the place it points at and a message.
#[derive(Debug)]
pub enum Error {
    /// The text could not be split into tokens (line, message).
    SyntaxError(u32, String),
    /// The tokens do not form a program (offending token, message).
    ParseError(Token, String),
    /// A statement failed while it ran (line, message).
    RuntimeError(u32, String),
    /// A scoping rule was broken; found before anything runs (offending token, message).
    ResolverError(Token, String),
    Unknown,
}

/// A text with the colour and the style it is to be shown in, of the crate `colored`.
#[verifier::external_type_specification]
#[verifier::external_body]
pub struct ExColoredString(ColoredString);

/// `Colorize::red` of `colored`, on a string slice: the text, to be shown in red.
#[verifier::external_body]
fn red(text: &str) -> (painted: ColoredString) {
    text.red()
}

/// `Colorize::italic` of `colored`, on a coloured text: the same text, to be shown in
/// italics as well.
#[verifier::external_body]
fn italic(text: ColoredString) -> (painted: ColoredString) {
    text.italic()
}

/// `Colorize::bold` of `colored`, on a coloured text: the same text, to be shown in bold
/// as well.
#[verifier::external_body]
fn bold(text: ColoredString) -> (painted: ColoredString) {
    text.bold()
}

/// The `Display` implementation of `ColoredString` of `colored`: the text as it is to be
/// written to a terminal. Whether it carries escape sequences depends on the environment
/// of the process, so nothing is promised of the result.
#[verifier::external_body]
fn shown(text: &ColoredString) -> (written: String) {
    format!("{}", text)
}

/// The line that an error points at. An error that names a token points at the line
/// that the token reports.
pub open spec fn error_line(error: Error) -> u32 {
    match error {
        Error::SyntaxError(line, _) => line,
        Error::ParseError(token, _) => token.reported_line(),
        Error::RuntimeError(line, _) => line,
        Error::ResolverError(token, _) => token.reported_line(),
        Error::Unknown => 0,
    }
}

/// The report of an error that names a line: the line, the kind of the error and the
/// message on the first line, and a banner on the second. The kind, the message and the
/// banner are given as they are to be written.
pub open spec fn report_text(line: u32, label: Seq<char>, message: Seq<char>, banner: Seq<char>) -> Seq<
    char,
> {
    "[line "@ + decimal_text(line as nat) + "] "@ + label + " "@ + message + "\n"@ + banner
}

/// The report of an error that names no line: the message on the first line, and a banner
/// on the second.
pub open spec fn plain_report_text(message: Seq<char>, banner: Seq<char>) -> Seq<char> {
    message + "\n"@ + banner
}

/// Puts the report of an error together; see [`report_text`].
pub fn compose_report(line: u32, label: &str, message: &str, banner: &str) -> (report: String)
    ensures
        report@ == report_text(line, label@, message@, banner@),
{
    let number: usize = line as usize;
    String::from_str("[line ").concat(decimal(number).as_str()).concat("] ").concat(label).concat(
        " ",
    ).concat(message).concat("\n").concat(banner)
}

/// Puts the report of an error without a line together; see [`plain_report_text`].
pub fn compose_plain_report(message: &str, banner: &str) -> (report: String)
    ensures
        report@ == plain_report_text(message@, banner@),
{
    String::from_str(message).concat("\n").concat(banner)
}

/// The record of what has gone wrong: whether the program is unfit to run, and whether a
/// statement has failed while running.
#[derive(Copy, Clone, Debug, PartialEq, Eq, Structural)]
pub struct ErrorHandler {
    pub had_error: bool,
    pub had_runtime_error: bool,
}

impl ErrorHandler {
    /// The record after `error` has been noted in `self`: an error of the running program
    /// marks the run, every other error marks the program as unfit to run.
    pub open spec fn noting(self, error: Error) -> ErrorHandler {
        match error {
            Error::RuntimeError(_, _) => ErrorHandler {
                had_error: self.had_error,
                had_runtime_error: true,
            },
            _ => ErrorHandler { had_error: true, had_runtime_error: self.had_runtime_error },
        }
    }

    /// A record with nothing in it.
    pub fn new() -> (handler: Self)
        ensures
            handler == (ErrorHandler { had_error: false, had_runtime_error: false }),
    {
        Self { had_error: false, had_runtime_error: false }
    }

    /// Forgets what has gone wrong.
    pub fn reset(&mut self)
        ensures
            *final(self) == (ErrorHandler { had_error: false, had_runtime_error: false }),
    {
        self.had_error = false;
        self.had_runtime_error = false;
    }

    /// Notes an error in the record and returns the report of it, to be written to the
    /// standard error stream. The kind of the error is shown in red italics, the message
    /// in red, and the banner under them in bold red, as far as the terminal takes colours.
    pub fn report_error(&mut self, error: Error) -> (report: String)
        ensures
            *final(self) == old(self).noting(error),
            match error {
                Error::Unknown => exists|message: Seq<char>, banner: Seq<char>|
                    report@ == plain_report_text(message, banner),
                _ => exists|label: Seq<char>, message: Seq<char>, banner: Seq<char>|
                    report@ == report_text(error_line(error), label, message, banner),
            },
    {
        self.record(&error);
        let banner = shown(&bold(red("(╯°□°)╯︵ ɹoɹɹƎ")));
        match error {
            Error::SyntaxError(line, message) => {
                let label = shown(&italic(red("Syntax Error:")));
                let text = shown(&red(message.as_str()));
                let report = compose_report(line, label.as_str(), text.as_str(), banner.as_str());
                assert(report@ == report_text(error_line(error), label@, text@, banner@));
                report
            },
            Error::ParseError(token, message) => {
                let label = shown(&italic(red("Parse Error:")));
                let text = shown(&red(message.as_str()));
                let report = compose_report(
                    token.get_line(),
                    label.as_str(),
                    text.as_str(),
                    banner.as_str(),
                );
                assert(report@ == report_text(error_line(error), label@, text@, banner@));
                report
            },
            Error::RuntimeError(line, message) => {
                let label = shown(&italic(red("Runtime Error:")));
                let text = shown(&red(message.as_str()));
                let report = compose_report(line, label.as_str(), text.as_str(), banner.as_str());
                assert(report@ == report_text(error_line(error), label@, text@, banner@));
                report
            },
            Error::ResolverError(token, message) => {
                let label = shown(&italic(red("Resolver Error:")));
                let text = shown(&red(message.as_str()));
                let report = compose_report(
                    token.get_line(),
                    label.as_str(),
                    text.as_str(),
                    banner.as_str(),
                );
                assert(report@ == report_text(error_line(error), label@, text@, banner@));
                report
            },
            Error::Unknown => {
                let text = shown(&red("An unknown error occurred. Sorry :("));
                let report = compose_plain_report(text.as_str(), banner.as_str());
                assert(report@ == plain_report_text(text@, banner@));
                report
            },
        }
    }

    /// Notes an error in the record.
    pub fn record(&mut self, error: &Error)
        ensures
            *final(self) == old(self).noting(*error),
    {
        match error {
            Error::RuntimeError(_, _) => {
                self.had_runtime_error = true;
            },
            _ => {
                self.had_error = true;
            },
        }
    }
}

} // verus!
