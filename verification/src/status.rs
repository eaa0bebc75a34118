//! Status codes and statuses of calls.

use crate::text::{joined_text, quoted, quoted_text};
use vstd::prelude::*;

verus! {

/// The code of a status.
#[derive(Debug, Clone, Copy, PartialEq, Eq, Structural)]
pub enum StatusCode {
    /// The call succeeded.
    OK,
    /// The call was cancelled.
    Cancelled,
    /// An error of which no more is known.
    Unknown,
    /// The caller gave an argument that is never valid.
    InvalidArgument,
    /// The deadline passed before the call was done.
    DeadlineExceeded,
    /// What was asked for does not exist.
    NotFound,
    /// What was to be created exists.
    AlreadyExists,
    /// The caller may not do this.
    PermissionDenied,
    /// A resource is used up.
    ResourceExhausted,
    /// The system is not in the state that the call needs.
    FailedPrecondition,
    /// The call was aborted.
    Aborted,
    /// The call went past the valid range.
    OutOfRange,
    /// The call is not implemented.
    Unimplemented,
    /// An invariant is broken.
    Internal,
    /// The service is not available now.
    Unavailable,
    /// Data was lost or is corrupt.
    DataLoss,
    /// The caller is not known.
    Unauthenticated,
}

/// The code of a status that is an error.
#[derive(Debug, Clone, Copy, PartialEq, Eq, Structural)]
pub enum StatusCodeError {
    /// The call was cancelled.
    Cancelled,
    /// An error of which no more is known.
    Unknown,
    /// The caller gave an argument that is never valid.
    InvalidArgument,
    /// The deadline passed before the call was done.
    DeadlineExceeded,
    /// What was asked for does not exist.
    NotFound,
    /// What was to be created exists.
    AlreadyExists,
    /// The caller may not do this.
    PermissionDenied,
    /// A resource is used up.
    ResourceExhausted,
    /// The system is not in the state that the call needs.
    FailedPrecondition,
    /// The call was aborted.
    Aborted,
    /// The call went past the valid range.
    OutOfRange,
    /// The call is not implemented.
    Unimplemented,
    /// An invariant is broken.
    Internal,
    /// The service is not available now.
    Unavailable,
    /// Data was lost or is corrupt.
    DataLoss,
    /// The caller is not known.
    Unauthenticated,
}

impl StatusCode {
    /// The code's number.
    pub open spec fn number(self) -> int {
        match self {
            StatusCode::OK => 0,
            StatusCode::Cancelled => 1,
            StatusCode::Unknown => 2,
            StatusCode::InvalidArgument => 3,
            StatusCode::DeadlineExceeded => 4,
            StatusCode::NotFound => 5,
            StatusCode::AlreadyExists => 6,
            StatusCode::PermissionDenied => 7,
            StatusCode::ResourceExhausted => 8,
            StatusCode::FailedPrecondition => 9,
            StatusCode::Aborted => 10,
            StatusCode::OutOfRange => 11,
            StatusCode::Unimplemented => 12,
            StatusCode::Internal => 13,
            StatusCode::Unavailable => 14,
            StatusCode::DataLoss => 15,
            StatusCode::Unauthenticated => 16,
        }
    }

    /// The code's number.
    pub fn value(self) -> (r: i32)
        ensures
            r == self.number(),
            0 <= r <= 16,
    {
        match self {
            StatusCode::OK => 0,
            StatusCode::Cancelled => 1,
            StatusCode::Unknown => 2,
            StatusCode::InvalidArgument => 3,
            StatusCode::DeadlineExceeded => 4,
            StatusCode::NotFound => 5,
            StatusCode::AlreadyExists => 6,
            StatusCode::PermissionDenied => 7,
            StatusCode::ResourceExhausted => 8,
            StatusCode::FailedPrecondition => 9,
            StatusCode::Aborted => 10,
            StatusCode::OutOfRange => 11,
            StatusCode::Unimplemented => 12,
            StatusCode::Internal => 13,
            StatusCode::Unavailable => 14,
            StatusCode::DataLoss => 15,
            StatusCode::Unauthenticated => 16,
        }
    }

    /// The code's name.
    pub open spec fn name(self) -> Seq<char> {
        match self {
            StatusCode::OK => "Ok"@,
            StatusCode::Cancelled => "Cancelled"@,
            StatusCode::Unknown => "Unknown"@,
            StatusCode::InvalidArgument => "InvalidArgument"@,
            StatusCode::DeadlineExceeded => "DeadlineExceeded"@,
            StatusCode::NotFound => "NotFound"@,
            StatusCode::AlreadyExists => "AlreadyExists"@,
            StatusCode::PermissionDenied => "PermissionDenied"@,
            StatusCode::ResourceExhausted => "ResourceExhausted"@,
            StatusCode::FailedPrecondition => "FailedPrecondition"@,
            StatusCode::Aborted => "Aborted"@,
            StatusCode::OutOfRange => "OutOfRange"@,
            StatusCode::Unimplemented => "Unimplemented"@,
            StatusCode::Internal => "Internal"@,
            StatusCode::Unavailable => "Unavailable"@,
            StatusCode::DataLoss => "DataLoss"@,
            StatusCode::Unauthenticated => "Unauthenticated"@,
        }
    }

    /// The code's name.
    pub fn as_text(self) -> (r: &'static str)
        ensures
            r@ == self.name(),
    {
        match self {
            StatusCode::OK => "Ok",
            StatusCode::Cancelled => "Cancelled",
            StatusCode::Unknown => "Unknown",
            StatusCode::InvalidArgument => "InvalidArgument",
            StatusCode::DeadlineExceeded => "DeadlineExceeded",
            StatusCode::NotFound => "NotFound",
            StatusCode::AlreadyExists => "AlreadyExists",
            StatusCode::PermissionDenied => "PermissionDenied",
            StatusCode::ResourceExhausted => "ResourceExhausted",
            StatusCode::FailedPrecondition => "FailedPrecondition",
            StatusCode::Aborted => "Aborted",
            StatusCode::OutOfRange => "OutOfRange",
            StatusCode::Unimplemented => "Unimplemented",
            StatusCode::Internal => "Internal",
            StatusCode::Unavailable => "Unavailable",
            StatusCode::DataLoss => "DataLoss",
            StatusCode::Unauthenticated => "Unauthenticated",
        }
    }
}

impl StatusCodeError {
    /// The code's number.
    pub open spec fn number(self) -> int {
        match self {
            StatusCodeError::Cancelled => 1,
            StatusCodeError::Unknown => 2,
            StatusCodeError::InvalidArgument => 3,
            StatusCodeError::DeadlineExceeded => 4,
            StatusCodeError::NotFound => 5,
            StatusCodeError::AlreadyExists => 6,
            StatusCodeError::PermissionDenied => 7,
            StatusCodeError::ResourceExhausted => 8,
            StatusCodeError::FailedPrecondition => 9,
            StatusCodeError::Aborted => 10,
            StatusCodeError::OutOfRange => 11,
            StatusCodeError::Unimplemented => 12,
            StatusCodeError::Internal => 13,
            StatusCodeError::Unavailable => 14,
            StatusCodeError::DataLoss => 15,
            StatusCodeError::Unauthenticated => 16,
        }
    }

    /// The code with a given number. A number that is no error's is an unknown error.
    pub open spec fn of_number(n: int) -> StatusCodeError {
        if n == 1 {
            StatusCodeError::Cancelled
        } else if n == 3 {
            StatusCodeError::InvalidArgument
        } else if n == 4 {
            StatusCodeError::DeadlineExceeded
        } else if n == 5 {
            StatusCodeError::NotFound
        } else if n == 6 {
            StatusCodeError::AlreadyExists
        } else if n == 7 {
            StatusCodeError::PermissionDenied
        } else if n == 8 {
            StatusCodeError::ResourceExhausted
        } else if n == 9 {
            StatusCodeError::FailedPrecondition
        } else if n == 10 {
            StatusCodeError::Aborted
        } else if n == 11 {
            StatusCodeError::OutOfRange
        } else if n == 12 {
            StatusCodeError::Unimplemented
        } else if n == 13 {
            StatusCodeError::Internal
        } else if n == 14 {
            StatusCodeError::Unavailable
        } else if n == 15 {
            StatusCodeError::DataLoss
        } else if n == 16 {
            StatusCodeError::Unauthenticated
        } else {
            StatusCodeError::Unknown
        }
    }

    /// The code's number.
    pub fn value(self) -> (r: i32)
        ensures
            r == self.number(),
            1 <= r <= 16,
    {
        match self {
            StatusCodeError::Cancelled => 1,
            StatusCodeError::Unknown => 2,
            StatusCodeError::InvalidArgument => 3,
            StatusCodeError::DeadlineExceeded => 4,
            StatusCodeError::NotFound => 5,
            StatusCodeError::AlreadyExists => 6,
            StatusCodeError::PermissionDenied => 7,
            StatusCodeError::ResourceExhausted => 8,
            StatusCodeError::FailedPrecondition => 9,
            StatusCodeError::Aborted => 10,
            StatusCodeError::OutOfRange => 11,
            StatusCodeError::Unimplemented => 12,
            StatusCodeError::Internal => 13,
            StatusCodeError::Unavailable => 14,
            StatusCodeError::DataLoss => 15,
            StatusCodeError::Unauthenticated => 16,
        }
    }

    /// The code with a given number.
    pub fn from_number(n: i32) -> (r: StatusCodeError)
        ensures
            r == StatusCodeError::of_number(n as int),
    {
        match n {
            1 => StatusCodeError::Cancelled,
            3 => StatusCodeError::InvalidArgument,
            4 => StatusCodeError::DeadlineExceeded,
            5 => StatusCodeError::NotFound,
            6 => StatusCodeError::AlreadyExists,
            7 => StatusCodeError::PermissionDenied,
            8 => StatusCodeError::ResourceExhausted,
            9 => StatusCodeError::FailedPrecondition,
            10 => StatusCodeError::Aborted,
            11 => StatusCodeError::OutOfRange,
            12 => StatusCodeError::Unimplemented,
            13 => StatusCodeError::Internal,
            14 => StatusCodeError::Unavailable,
            15 => StatusCodeError::DataLoss,
            16 => StatusCodeError::Unauthenticated,
            _ => StatusCodeError::Unknown,
        }
    }

    /// The code's name.
    pub open spec fn name(self) -> Seq<char> {
        match self {
            StatusCodeError::Cancelled => "Cancelled"@,
            StatusCodeError::Unknown => "Unknown"@,
            StatusCodeError::InvalidArgument => "InvalidArgument"@,
            StatusCodeError::DeadlineExceeded => "DeadlineExceeded"@,
            StatusCodeError::NotFound => "NotFound"@,
            StatusCodeError::AlreadyExists => "AlreadyExists"@,
            StatusCodeError::PermissionDenied => "PermissionDenied"@,
            StatusCodeError::ResourceExhausted => "ResourceExhausted"@,
            StatusCodeError::FailedPrecondition => "FailedPrecondition"@,
            StatusCodeError::Aborted => "Aborted"@,
            StatusCodeError::OutOfRange => "OutOfRange"@,
            StatusCodeError::Unimplemented => "Unimplemented"@,
            StatusCodeError::Internal => "Internal"@,
            StatusCodeError::Unavailable => "Unavailable"@,
            StatusCodeError::DataLoss => "DataLoss"@,
            StatusCodeError::Unauthenticated => "Unauthenticated"@,
        }
    }

    /// The code's name.
    pub fn as_text(self) -> (r: &'static str)
        ensures
            r@ == self.name(),
    {
        match self {
            StatusCodeError::Cancelled => "Cancelled",
            StatusCodeError::Unknown => "Unknown",
            StatusCodeError::InvalidArgument => "InvalidArgument",
            StatusCodeError::DeadlineExceeded => "DeadlineExceeded",
            StatusCodeError::NotFound => "NotFound",
            StatusCodeError::AlreadyExists => "AlreadyExists",
            StatusCodeError::PermissionDenied => "PermissionDenied",
            StatusCodeError::ResourceExhausted => "ResourceExhausted",
            StatusCodeError::FailedPrecondition => "FailedPrecondition",
            StatusCodeError::Aborted => "Aborted",
            StatusCodeError::OutOfRange => "OutOfRange",
            StatusCodeError::Unimplemented => "Unimplemented",
            StatusCodeError::Internal => "Internal",
            StatusCodeError::Unavailable => "Unavailable",
            StatusCodeError::DataLoss => "DataLoss",
            StatusCodeError::Unauthenticated => "Unauthenticated",
        }
    }

    /// A code is found again by its number.
    pub proof fn lemma_number_round_trip(self)
        ensures
            StatusCodeError::of_number(self.number()) == self,
            1 <= self.number() <= 16,
    {
    }
}

impl vstd::std_specs::convert::FromSpecImpl<i32> for StatusCodeError {
    open spec fn obeys_from_spec() -> bool {
        true
    }

    open spec fn from_spec(n: i32) -> Self {
        StatusCodeError::of_number(n as int)
    }
}

impl From<i32> for StatusCodeError {
    fn from(n: i32) -> (r: Self) {
        StatusCodeError::from_number(n)
    }
}

/// A status that is an error: a code and a message.
#[derive(Debug)]
pub struct StatusError {
    code: StatusCodeError,
    message: String,
}

/// What a [`StatusError`] says.
pub struct StatusErrorView {
    /// The code.
    pub code: StatusCodeError,
    /// The message.
    pub message: Seq<char>,
}

impl View for StatusError {
    type V = StatusErrorView;

    closed spec fn view(&self) -> StatusErrorView {
        StatusErrorView { code: self.code, message: self.message@ }
    }
}

impl Clone for StatusError {
    fn clone(&self) -> (r: Self)
        ensures
            r@ == self@,
    {
        StatusError { code: self.code, message: self.message.clone() }
    }
}

impl StatusError {
    /// An error with a code and a message.
    pub fn new(code: StatusCodeError, message: &str) -> (r: Self)
        ensures
            r@ == (StatusErrorView { code, message: message@ }),
    {
        StatusError { code, message: String::from_str(message) }
    }

    /// An error with a code and an owned message.
    pub(crate) fn with_text(code: StatusCodeError, message: String) -> (r: Self)
        ensures
            r@ == (StatusErrorView { code, message: message@ }),
    {
        StatusError { code, message }
    }

    /// The code.
    pub fn code(&self) -> (r: StatusCodeError)
        ensures
            r == self@.code,
    {
        self.code
    }

    /// The message.
    pub fn message(&self) -> (r: &str)
        ensures
            r@ == self@.message,
    {
        self.message.as_str()
    }

    /// The code and the message.
    pub fn into_parts(self) -> (r: (StatusCodeError, String))
        ensures
            r.0 == self@.code,
            r.1@ == self@.message,
    {
        (self.code, self.message)
    }
}

/// A status: a code, which may be `OK`, and a message.
#[derive(Debug)]
pub struct Status {
    code: StatusCode,
    message: String,
}

/// What a [`Status`] says.
pub struct StatusView {
    /// The code.
    pub code: StatusCode,
    /// The message.
    pub message: Seq<char>,
}

impl StatusView {
    /// The status as programmers see it, with its fields and with the message in quotes.
    pub open spec fn debug(self) -> Seq<char> {
        "Status { code: "@ + self.code.name() + ", message: "@ + quoted(self.message) + " }"@
    }
}

impl View for Status {
    type V = StatusView;

    closed spec fn view(&self) -> StatusView {
        StatusView { code: self.code, message: self.message@ }
    }
}

impl Clone for Status {
    fn clone(&self) -> (r: Self)
        ensures
            r@ == self@,
    {
        Status { code: self.code, message: self.message.clone() }
    }
}

impl Status {
    /// A status with a code and a message.
    pub fn new(code: StatusCode, message: &str) -> (r: Self)
        ensures
            r@ == (StatusView { code, message: message@ }),
    {
        Status { code, message: String::from_str(message) }
    }

    /// A status with a code and an owned message.
    pub(crate) fn with_text(code: StatusCode, message: String) -> (r: Self)
        ensures
            r@ == (StatusView { code, message: message@ }),
    {
        Status { code, message }
    }

    /// The code.
    pub fn code(&self) -> (r: StatusCode)
        ensures
            r == self@.code,
    {
        self.code
    }

    /// The message.
    pub fn message(&self) -> (r: &str)
        ensures
            r@ == self@.message,
    {
        self.message.as_str()
    }

    /// The status as programmers see it, with its fields and with the message in quotes.
    pub fn debug_text(&self) -> (r: String)
        ensures
            r@ == self@.debug(),
    {
        let mut r = joined_text("Status { code: ", self.code.as_text());
        r.append(", message: ");
        r.append(quoted_text(self.message.as_str()).as_str());
        r.append(" }");
        r
    }
}

/// The status with which a method of a service ends.
#[derive(Debug)]
pub struct ServerStatus {
    status: Status,
}

impl View for ServerStatus {
    type V = StatusView;

    closed spec fn view(&self) -> StatusView {
        self.status@
    }
}

impl Clone for ServerStatus {
    fn clone(&self) -> (r: Self)
        ensures
            r@ == self@,
    {
        ServerStatus { status: self.status.clone() }
    }
}

impl ServerStatus {
    /// A status with a code and a message.
    pub fn new(code: StatusCode, message: &str) -> (r: Self)
        ensures
            r@ == (StatusView { code, message: message@ }),
    {
        ServerStatus { status: Status::new(code, message) }
    }

    /// The status as it is sent.
    pub closed spec fn spec_status(&self) -> Status {
        self.status
    }

    /// The status as it is sent.
    pub fn into_status(self) -> (r: Status)
        ensures
            r == self.spec_status(),
            r@ == self@,
    {
        self.status
    }
}


/// The numbers of the codes are those of gRPC, from 0 for `OK` to 16 for `UNAUTHENTICATED`, each of
/// one code.
pub proof fn law_codes_have_their_numbers(a: StatusCode, b: StatusCode)
    ensures
        0 <= a.number() <= 16,
        a.number() == b.number() ==> a == b,
        a.number() == 0 <==> a == StatusCode::OK,
        a.number() == 1 <==> a == StatusCode::Cancelled,
        a.number() == 2 <==> a == StatusCode::Unknown,
        a.number() == 3 <==> a == StatusCode::InvalidArgument,
        a.number() == 4 <==> a == StatusCode::DeadlineExceeded,
        a.number() == 5 <==> a == StatusCode::NotFound,
        a.number() == 6 <==> a == StatusCode::AlreadyExists,
        a.number() == 7 <==> a == StatusCode::PermissionDenied,
        a.number() == 8 <==> a == StatusCode::ResourceExhausted,
        a.number() == 9 <==> a == StatusCode::FailedPrecondition,
        a.number() == 10 <==> a == StatusCode::Aborted,
        a.number() == 11 <==> a == StatusCode::OutOfRange,
        a.number() == 12 <==> a == StatusCode::Unimplemented,
        a.number() == 13 <==> a == StatusCode::Internal,
        a.number() == 14 <==> a == StatusCode::Unavailable,
        a.number() == 15 <==> a == StatusCode::DataLoss,
        a.number() == 16 <==> a == StatusCode::Unauthenticated,
{
}

/// An error's code has the number and the name of the code of the same name among all codes, and
/// is found by this number; every number that is no error's finds the unknown error.
pub proof fn law_error_codes_are_found(e: StatusCodeError, c: StatusCode, n: int)
    ensures
        e.number() == c.number() <==> e.name() == c.name(),
        1 <= e.number() <= 16,
        StatusCodeError::of_number(e.number()) == e,
        1 <= n <= 16 ==> StatusCodeError::of_number(n).number() == n,
        !(1 <= n <= 16) ==> StatusCodeError::of_number(n).number() == StatusCode::Unknown.number(),
{
    let same = match e {
        StatusCodeError::Cancelled => StatusCode::Cancelled,
        StatusCodeError::Unknown => StatusCode::Unknown,
        StatusCodeError::InvalidArgument => StatusCode::InvalidArgument,
        StatusCodeError::DeadlineExceeded => StatusCode::DeadlineExceeded,
        StatusCodeError::NotFound => StatusCode::NotFound,
        StatusCodeError::AlreadyExists => StatusCode::AlreadyExists,
        StatusCodeError::PermissionDenied => StatusCode::PermissionDenied,
        StatusCodeError::ResourceExhausted => StatusCode::ResourceExhausted,
        StatusCodeError::FailedPrecondition => StatusCode::FailedPrecondition,
        StatusCodeError::Aborted => StatusCode::Aborted,
        StatusCodeError::OutOfRange => StatusCode::OutOfRange,
        StatusCodeError::Unimplemented => StatusCode::Unimplemented,
        StatusCodeError::Internal => StatusCode::Internal,
        StatusCodeError::Unavailable => StatusCode::Unavailable,
        StatusCodeError::DataLoss => StatusCode::DataLoss,
        StatusCodeError::Unauthenticated => StatusCode::Unauthenticated,
    };
    assert(e.number() == same.number() && e.name() == same.name());
    law_codes_have_their_numbers(c, same);
    lemma_code_names();
}

/// The names of the codes are all different.
proof fn lemma_code_names()
    ensures
        forall|a: StatusCode, b: StatusCode|
            #![trigger a.name(), b.name()]
            a.name() == b.name() ==> a == b,
{
    reveal_strlit("Ok");
    reveal_strlit("Cancelled");
    reveal_strlit("Unknown");
    reveal_strlit("InvalidArgument");
    reveal_strlit("DeadlineExceeded");
    reveal_strlit("NotFound");
    reveal_strlit("AlreadyExists");
    reveal_strlit("PermissionDenied");
    reveal_strlit("ResourceExhausted");
    reveal_strlit("FailedPrecondition");
    reveal_strlit("Aborted");
    reveal_strlit("OutOfRange");
    reveal_strlit("Unimplemented");
    reveal_strlit("Internal");
    reveal_strlit("Unavailable");
    reveal_strlit("DataLoss");
    reveal_strlit("Unauthenticated");
    assert forall|a: StatusCode, b: StatusCode|
        #![trigger a.name(), b.name()]
        a.name() == b.name() implies a == b by {
        assert(a.name().len() == b.name().len());
        assert(a.name()[0] == b.name()[0]);
        assert(a.name()[1] == b.name()[1]);
        assert(a.name().last() == b.name().last());
    }
}

} // verus!
