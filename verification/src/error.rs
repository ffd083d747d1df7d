//! What can go wrong with one input source: it fails to open, it fails to
//! read, or the arguments themselves were bad.  Each failure keeps the
//! offending source and an underlying cause, and never aborts the batch.
use vstd::prelude::*;

verus! {

/// A per-source failure, carrying the source and the underlying cause.
pub enum Error {
    /// The source could not be located or opened.
    Open { path: String, message: String },
    /// The source opened, but reading its content failed.
    Read { path: String, message: String },
    /// The arguments were invalid; no source is involved.
    Arg { message: String },
}

/// The diagnostic text of an error: the path and the cause for a failed
/// source, the bare cause for bad arguments.
pub open spec fn error_message(e: Error) -> Seq<char> {
    match e {
        Error::Open { path, message } => "IO Error on "@ + path@ + ": "@ + message@,
        Error::Read { path, message } => "IO Error on "@ + path@ + ": "@ + message@,
        Error::Arg { message } => message@,
    }
}

impl Error {
    /// The diagnostic text of this error, ready to print.
    pub fn message(&self) -> (r: String)
        ensures
            r@ == error_message(*self),
    {
        match self {
            Error::Open { path, message } => io_message(path, message),
            Error::Read { path, message } => io_message(path, message),
            Error::Arg { message } => message.clone(),
        }
    }
}

fn io_message(path: &String, message: &String) -> (r: String)
    ensures
        r@ == "IO Error on "@ + path@ + ": "@ + message@,
{
    let mut r = String::new();
    r.append("IO Error on ");
    r.append(path.as_str());
    r.append(": ");
    r.append(message.as_str());
    proof {
        assert(r@ =~= "IO Error on "@ + path@ + ": "@ + message@);
    }
    r
}

} // verus!
