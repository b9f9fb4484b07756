//! The error type shared by every stage: argument handling, encoding, and
//! the outcome of sending.

use vstd::prelude::*;
use vstd::string::*;
use crate::lex::str_eq;
use crate::text::text;

verus! {

#[derive(Debug)]
pub enum Error {
    /// CLI usage / argument-parsing failure. Produces exit code 2.
    Usage(String),
    /// Raw socket creation was denied for lack of privilege; `underlying`
    /// is the operating system's description of the failure.
    RawSocketDenied { platform: Platform, underlying: String },
    /// Spoofing requested but the platform has no raw IPv4 + IP_HDRINCL.
    Unsupported(String),
    /// A network-layer failure that is not a privilege problem.
    Routing(String),
    /// SNMP encoding failure.
    Encode(String),
    /// Any other I/O failure.
    Other(String),
}

/// The content of an [`Error`], with its texts as character sequences.
pub enum ErrorSpec {
    Usage(Seq<char>),
    RawSocketDenied(Platform, Seq<char>),
    Unsupported(Seq<char>),
    Routing(Seq<char>),
    Encode(Seq<char>),
    Other(Seq<char>),
}

impl View for Error {
    type V = ErrorSpec;

    open spec fn view(&self) -> ErrorSpec {
        match self {
            Error::Usage(m) => ErrorSpec::Usage(m@),
            Error::RawSocketDenied { platform, underlying } => ErrorSpec::RawSocketDenied(
                *platform,
                underlying@,
            ),
            Error::Unsupported(m) => ErrorSpec::Unsupported(m@),
            Error::Routing(m) => ErrorSpec::Routing(m@),
            Error::Encode(m) => ErrorSpec::Encode(m@),
            Error::Other(m) => ErrorSpec::Other(m@),
        }
    }
}

#[derive(Debug, Clone, Copy, PartialEq, Eq, Structural)]
pub enum Platform {
    Linux,
    Macos,
    Other,
}

impl Platform {
    /// The platform named by a target operating-system string (as
    /// `std::env::consts::OS` reports it).
    pub fn current(os: &str) -> (r: Platform)
        ensures
            os@ == "linux"@ ==> r == Platform::Linux,
            os@ == "macos"@ ==> r == Platform::Macos,
            os@ != "linux"@ && os@ != "macos"@ ==> r == Platform::Other,
    {
        proof {
            reveal_strlit("linux");
            reveal_strlit("macos");
            assert("linux"@[0] != "macos"@[0]);
        }
        if str_eq(os, "linux") {
            Platform::Linux
        } else if str_eq(os, "macos") {
            Platform::Macos
        } else {
            Platform::Other
        }
    }
}

impl Error {
    /// Process exit code: 2 for usage errors (POSIX getopts convention),
    /// 1 for everything else.
    pub fn exit_code(&self) -> (r: u8)
        ensures
            r == (if self is Usage { 2u8 } else { 1u8 }),
    {
        match self {
            Error::Usage(_) => 2,
            _ => 1,
        }
    }

    /// The text of a usage error, if this is one.
    pub open spec fn usage_text(self) -> Option<Seq<char>> {
        match self {
            Error::Usage(m) => Some(m@),
            _ => None,
        }
    }
}

/// A usage error carrying `msg`.
pub open spec fn is_usage(e: Error, msg: Seq<char>) -> bool {
    e.usage_text() == Some(msg)
}

/// An encoding error carrying `msg`.
pub open spec fn is_encode(e: Error, msg: Seq<char>) -> bool {
    match e {
        Error::Encode(m) => m@ == msg,
        _ => false,
    }
}

/// How to grant the raw-socket privilege on each platform.
pub open spec fn remediation(p: Platform) -> Seq<char> {
    match p {
        Platform::Linux => "\nOn Linux, grant it once with:\n\n    sudo setcap cap_net_raw+ep \"$(command -v snmptrap-rs)\"\n\nOr run as root.\n"@,
        Platform::Macos => "\nOn macOS, run as root (sudo). macOS has no per-binary capability grant.\n"@,
        Platform::Other => "\nOn this platform, run as root.\n"@,
    }
}

/// The text an error is reported with.
pub open spec fn display_text(e: ErrorSpec) -> Seq<char> {
    match e {
        ErrorSpec::Usage(m) => m,
        ErrorSpec::RawSocketDenied(p, u) => "--src-addr requires raw IP socket capability, which this binary does not have.\n"@
            + remediation(p) + "(raw socket open failed: "@ + u + ")"@,
        ErrorSpec::Unsupported(m) => m,
        ErrorSpec::Routing(m) => m,
        ErrorSpec::Encode(m) => "encoding error: "@ + m,
        ErrorSpec::Other(m) => m,
    }
}

impl Error {
    /// The text the error is reported with; a privilege failure names the
    /// remedy for the platform.
    pub fn to_string(&self) -> (r: String)
        ensures
            r@ == display_text(self@),
    {
        match self {
            Error::Usage(m) => text(m.as_str()),
            Error::RawSocketDenied { platform, underlying } => {
                let mut s = text(
                    "--src-addr requires raw IP socket capability, which this binary does not have.\n",
                );
                match platform {
                    Platform::Linux => s.append(
                        "\nOn Linux, grant it once with:\n\n    sudo setcap cap_net_raw+ep \"$(command -v snmptrap-rs)\"\n\nOr run as root.\n",
                    ),
                    Platform::Macos => s.append(
                        "\nOn macOS, run as root (sudo). macOS has no per-binary capability grant.\n",
                    ),
                    Platform::Other => s.append("\nOn this platform, run as root.\n"),
                }
                s.append("(raw socket open failed: ");
                s.append(underlying.as_str());
                s.append(")");
                s
            },
            Error::Unsupported(m) => text(m.as_str()),
            Error::Routing(m) => text(m.as_str()),
            Error::Encode(m) => {
                let mut s = text("encoding error: ");
                s.append(m.as_str());
                s
            },
            Error::Other(m) => text(m.as_str()),
        }
    }
}

} // verus!
