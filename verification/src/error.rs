use vstd::prelude::*;
use crate::text::{decimal, push_decimal, push_str};

verus! {

/// `std::io::Error`, carried through unchanged.
#[verifier::external_type_specification]
#[verifier::external_body]
pub struct ExIoError(std::io::Error);

/// Everything the monitor can fail with.
#[derive(Debug)]
pub enum Error {
    /// A system query failed.
    System(String),
    /// An I/O operation failed.
    Io(std::io::Error),
    /// The terminal could not be driven.
    Terminal(String),
    /// A process could not be signalled.
    Process { pid: u32, message: String },
}

/// Text of an I/O error; `<std::io::Error as Display>::fmt` through `to_string`.
#[verifier::external_body]
fn io_error_text(err: &std::io::Error) -> String {
    err.to_string()
}

impl Error {
    /// A failed system query.
    pub fn system(msg: &str) -> (e: Self)
        ensures
            e matches Error::System(m) && m@ == msg@,
    {
        Error::System(msg.to_owned())
    }

    /// A failed terminal operation.
    pub fn terminal(msg: &str) -> (e: Self)
        ensures
            e matches Error::Terminal(m) && m@ == msg@,
    {
        Error::Terminal(msg.to_owned())
    }

    /// A failed signal delivery to `pid`.
    pub fn process(pid: u32, message: &str) -> (e: Self)
        ensures
            e matches Error::Process { pid: p, message: m } && p == pid && m@ == message@,
    {
        Error::Process { pid, message: message.to_owned() }
    }

    /// The human-readable message: `system: ...`, `terminal: ...`,
    /// `process <pid>: ...`, or the I/O error's own text.
    pub fn message(&self) -> (s: String)
        ensures
            self matches Error::System(m) ==> s@ == "system: "@ + m@,
            self matches Error::Terminal(m) ==> s@ == "terminal: "@ + m@,
            self matches Error::Process { pid, message } ==>
                s@ == "process "@ + decimal(pid as nat) + ": "@ + message@,
    {
        match self {
            Error::System(m) => {
                let mut s = String::new();
                push_str(&mut s, "system: ");
                push_str(&mut s, m.as_str());
                s
            },
            Error::Io(e) => io_error_text(e),
            Error::Terminal(m) => {
                let mut s = String::new();
                push_str(&mut s, "terminal: ");
                push_str(&mut s, m.as_str());
                s
            },
            Error::Process { pid, message } => {
                let mut s = String::new();
                push_str(&mut s, "process ");
                push_decimal(&mut s, *pid as u128);
                push_str(&mut s, ": ");
                push_str(&mut s, message.as_str());
                s
            },
        }
    }
}

} // verus!
