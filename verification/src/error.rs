//! Every way in which the worker can fail, each with a variant of its own.

use crate::text;
use vstd::prelude::*;
use vstd::string::*;

verus! {

/// A failure of the worker.
#[derive(Debug)]
pub enum WorkerError {
    /// A required environment variable is not set.
    MissingEnv(&'static str),
    /// The configured service ID is no UUID.
    InvalidServiceId,
    /// The signing client failed; holds what it said.
    Client(String),
    /// The kernel answered with a status that the call does not provide for.
    UnexpectedStatus(u16),
    /// The kernel answered with a body that could not be read.
    MalformedResponse(String),
    /// The extra root certificate could not be read; holds what the system said.
    CaCertificateUnreadable(String),
    /// The workload token could not be read; holds what the system said.
    EnrollmentTokenUnreadable(String),
    /// The configured enrollment challenge is not the base64url form of 32 bytes.
    InvalidEnrollmentChallenge,
}

/// A [`WorkerError`] with its texts as character sequences.
pub enum WorkerErrorView {
    MissingEnv(Seq<char>),
    InvalidServiceId,
    Client(Seq<char>),
    UnexpectedStatus(u16),
    MalformedResponse(Seq<char>),
    CaCertificateUnreadable(Seq<char>),
    EnrollmentTokenUnreadable(Seq<char>),
    InvalidEnrollmentChallenge,
}

impl View for WorkerError {
    type V = WorkerErrorView;

    open spec fn view(&self) -> WorkerErrorView {
        match self {
            WorkerError::MissingEnv(name) => WorkerErrorView::MissingEnv(name@),
            WorkerError::InvalidServiceId => WorkerErrorView::InvalidServiceId,
            WorkerError::Client(message) => WorkerErrorView::Client(message@),
            WorkerError::UnexpectedStatus(status) => WorkerErrorView::UnexpectedStatus(*status),
            WorkerError::MalformedResponse(message) => WorkerErrorView::MalformedResponse(message@),
            WorkerError::CaCertificateUnreadable(message) => {
                WorkerErrorView::CaCertificateUnreadable(message@)
            },
            WorkerError::EnrollmentTokenUnreadable(message) => {
                WorkerErrorView::EnrollmentTokenUnreadable(message@)
            },
            WorkerError::InvalidEnrollmentChallenge => WorkerErrorView::InvalidEnrollmentChallenge,
        }
    }
}

impl WorkerErrorView {
    /// What a person is told of the failure.
    pub open spec fn message(self) -> Seq<char> {
        match self {
            WorkerErrorView::MissingEnv(name) => {
                "missing required environment variable "@ + name
            },
            WorkerErrorView::InvalidServiceId => "service ID must be a UUID"@,
            WorkerErrorView::Client(message) => "kernel client error: "@ + message,
            WorkerErrorView::UnexpectedStatus(status) => {
                "kernel returned unexpected status "@ + text::decimal(status as int)
            },
            WorkerErrorView::MalformedResponse(message) => {
                "malformed kernel response: "@ + message
            },
            WorkerErrorView::CaCertificateUnreadable(message) => {
                "could not read the kernel CA certificate: "@ + message
            },
            WorkerErrorView::EnrollmentTokenUnreadable(message) => {
                "could not read the enrollment workload token: "@ + message
            },
            WorkerErrorView::InvalidEnrollmentChallenge => {
                "enrollment challenge must be 32 base64url-encoded bytes"@
            },
        }
    }
}

impl WorkerError {
    /// What a person is told of the failure.
    pub fn message(&self) -> (text: String)
        ensures
            text@ == self@.message(),
    {
        match self {
            WorkerError::MissingEnv(name) => {
                "missing required environment variable ".to_owned().concat(name)
            },
            WorkerError::InvalidServiceId => "service ID must be a UUID".to_owned(),
            WorkerError::Client(message) => {
                "kernel client error: ".to_owned().concat(message.as_str())
            },
            WorkerError::UnexpectedStatus(status) => {
                "kernel returned unexpected status ".to_owned().concat(
                    text::signed_text(*status as i64).as_str(),
                )
            },
            WorkerError::MalformedResponse(message) => {
                "malformed kernel response: ".to_owned().concat(message.as_str())
            },
            WorkerError::CaCertificateUnreadable(message) => {
                "could not read the kernel CA certificate: ".to_owned().concat(message.as_str())
            },
            WorkerError::EnrollmentTokenUnreadable(message) => {
                "could not read the enrollment workload token: ".to_owned().concat(message.as_str())
            },
            WorkerError::InvalidEnrollmentChallenge => {
                "enrollment challenge must be 32 base64url-encoded bytes".to_owned()
            },
        }
    }
}

/// A result with success and failure both by their views.
pub open spec fn result_view<T: View>(result: Result<T, WorkerError>) -> Result<
    T::V,
    WorkerErrorView,
> {
    match result {
        Ok(value) => Ok(value@),
        Err(error) => Err(error@),
    }
}

/// What a person is told of a failure holds, whole, what the failure holds, after words
/// that tell the failures apart.
pub proof fn law_a_message_tells_what_failed(failure: &WorkerError, told: String)
    requires
        call_ensures(WorkerError::message, (failure,), told),
    ensures
        match failure {
            WorkerError::MissingEnv(name) => told@ == "missing required environment variable "@
                + name@,
            WorkerError::InvalidServiceId => told@ == "service ID must be a UUID"@,
            WorkerError::Client(held) => told@ == "kernel client error: "@ + held@,
            WorkerError::UnexpectedStatus(status) => exists|number: Seq<char>|
                {
                    &&& text::unsigned_number(number) == Some(*status as int)
                    &&& told@ == #[trigger] ("kernel returned unexpected status "@ + number)
                },
            WorkerError::MalformedResponse(held) => told@ == "malformed kernel response: "@ + held@,
            WorkerError::CaCertificateUnreadable(held) => told@
                == "could not read the kernel CA certificate: "@ + held@,
            WorkerError::EnrollmentTokenUnreadable(held) => told@
                == "could not read the enrollment workload token: "@ + held@,
            WorkerError::InvalidEnrollmentChallenge => told@
                == "enrollment challenge must be 32 base64url-encoded bytes"@,
        },
{
    if let WorkerError::UnexpectedStatus(status) = failure {
        let number = text::decimal(*status as int);
        text::law_decimal_reads_back(*status as int);
        assert(told@ == "kernel returned unexpected status "@ + number);
    }
}

}
