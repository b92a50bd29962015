//! Errors reported while parsing a roll request or applying actions to rolls.

use vstd::prelude::*;

verus! {

/// The kind of an error that can occur.
#[derive(Clone, Debug, PartialEq, Eq)]
pub enum ErrorKind {
    /// An error that occurred as a result of parsing a request.
    /// This can be a syntax error.
    ///
    /// The string here is a detailed explanation of what caused the parsing to fail.
    Parse(String),
    /// An error that occurred as a result of parsing a dice request.
    ///
    /// The string here is a detailed explanation of what caused the parsing to fail.
    ParseDice(String),
    /// An error that occurred as a result of trying to apply an action to an
    /// incompatible type of rolls.
    IncompatibleAction(String),
    /// Occurs when dice initialization fails because of bad parameters.
    BadDice(String),
    /// Occurs when file operations fail.
    File(String),
    /// Occurs when an action parameter is invalid.
    BadActionParameter(String),
}

/// An error that can occur in this crate.
///
/// Generally, this error corresponds to problems parsing the input, or
/// asking for incompatible actions, or asking an unreasonable amount of rolls.
#[derive(Clone, Debug, PartialEq, Eq)]
pub struct Error {
    pub kind: ErrorKind,
}

impl Error {
    pub fn new(kind: ErrorKind) -> (e: Error)
        ensures
            e.kind == kind,
    {
        Error { kind }
    }

    /// An error raised while reading a request string.
    pub fn parse(message: String) -> (e: Error)
        ensures
            e.kind == ErrorKind::Parse(message),
    {
        Error { kind: ErrorKind::Parse(message) }
    }

    /// An error raised by a file operation.
    pub fn file(message: String) -> (e: Error)
        ensures
            e.kind == ErrorKind::File(message),
    {
        Error { kind: ErrorKind::File(message) }
    }

    /// An error raised when an action is applied to a roll type that does not
    /// support it.
    pub fn incompatible(action: &String, roll_type: &String) -> (e: Error)
        ensures
            e.kind matches ErrorKind::IncompatibleAction(m) && m@
                == incompatible_message(action@, roll_type@),
    {
        let mut message = String::from_str("Action \"");
        message.append(action.as_str());
        message.append("\" not supported by roll type \"");
        message.append(roll_type.as_str());
        message.append("\"");
        proof {
            assert(message@ == incompatible_message(action@, roll_type@));
        }
        Error { kind: ErrorKind::IncompatibleAction(message) }
    }

    /// An error raised when an action parameter does not fit the rolls it is
    /// applied to.
    pub fn bad_action_parameter(message: &String) -> (e: Error)
        ensures
            e.kind matches ErrorKind::BadActionParameter(m) && m@ == message@,
    {
        Error { kind: ErrorKind::BadActionParameter(message.clone()) }
    }

    /// Return the kind of this error.
    pub fn kind(&self) -> (k: &ErrorKind)
        ensures
            k == self.kind,
    {
        &self.kind
    }
}

/// The text carried by an incompatible-action error.
pub open spec fn incompatible_message(action: Seq<char>, roll_type: Seq<char>) -> Seq<char> {
    "Action \""@ + action + "\" not supported by roll type \""@ + roll_type + "\""@
}

} // verus!
