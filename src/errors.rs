use vstd::prelude::*;
use vstd::string::StringExecFns;

verus! {

/// `std::io::Error`, carried through unopened.
#[verifier::external_type_specification]
#[verifier::external_body]
pub struct ExIoError(std::io::Error);

/// A command-line argument error: the exit code to leave with, its kind and
/// a message.
#[derive(Debug)]
pub struct ArgErr {
    pub exit_code: u8,
    pub err_type: ArgErrType,
    pub message: String,
}

/// The kinds of argument error.
#[derive(Debug, Clone, Copy, PartialEq, Eq, Structural)]
pub enum ArgErrType {
    UnknownArg,
    SomeOtherType,
}

impl ArgErrType {
    /// A short description of the kind.
    pub fn to_string(&self) -> (r: String)
        ensures
            r@ == match self {
                ArgErrType::SomeOtherType => "Some other type"@,
                ArgErrType::UnknownArg => "Unknown argument"@,
            },
    {
        match self {
            ArgErrType::SomeOtherType => "Some other type".to_owned(),
            ArgErrType::UnknownArg => "Unknown argument".to_owned(),
        }
    }
}

/// The shell's top-level error: a bad argument, or an I/O failure.
#[derive(Debug)]
pub enum HshErr {
    ArgumentErr(ArgErr),
    IoError(std::io::Error),
}

impl HshErr {
    /// A one-line message; an I/O failure is followed by the text of its
    /// underlying error.
    pub fn to_string(&self) -> (r: String)
        ensures
            match self {
                HshErr::ArgumentErr(_) => r@ == "Arg Error"@,
                HshErr::IoError(e) => exists|t: String|
                    vstd::string::to_string_from_display_ensures::<std::io::Error>(e, t)
                        && r@ == "IO Error: "@ + t@,
            },
    {
        match self {
            HshErr::ArgumentErr(_) => "Arg Error".to_owned(),
            HshErr::IoError(e) => {
                let t = e.to_string();
                let mut r = "IO Error: ".to_owned();
                r.append(t.as_str());
                r
            },
        }
    }

    /// The underlying I/O error, if this is one.
    pub fn source(&self) -> (r: Option<&std::io::Error>)
        ensures
            match self {
                HshErr::IoError(e) => r == Some(e),
                HshErr::ArgumentErr(_) => r is None,
            },
    {
        match self {
            HshErr::IoError(e) => Some(e),
            HshErr::ArgumentErr(_) => None,
        }
    }
}

impl From<std::io::Error> for HshErr {
    fn from(value: std::io::Error) -> (r: HshErr)
        ensures
            r == HshErr::IoError(value),
    {
        HshErr::IoError(value)
    }
}

impl vstd::std_specs::convert::FromSpecImpl<std::io::Error> for HshErr {
    open spec fn obeys_from_spec() -> bool {
        true
    }

    open spec fn from_spec(v: std::io::Error) -> HshErr {
        HshErr::IoError(v)
    }
}

} // verus!
