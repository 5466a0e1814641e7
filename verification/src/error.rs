//! What can go wrong, and how it is told.
use vstd::prelude::*;

use crate::text;

verus! {

/// A failure of the harness.
#[derive(Debug, Clone)]
pub enum Error {
    /// The configuration is not acceptable.
    Config(String),
    /// The experiment to be made is there already.
    ExperimentExists { name: String, path: String },
    /// The name cannot be an experiment's name.
    InvalidName(String),
    /// A file could not be read or written.
    Io(String),
    /// The configuration text could not be read.
    TomlDe(String),
    /// The configuration could not be written as text.
    TomlSer(String),
    /// A record could not be read or written.
    Json(String),
    /// A boundary pattern is not a glob.
    Glob(String),
    /// A git command failed.
    Git(String),
    /// The schedule gives no deadline.
    Schedule(String),
    /// A child process could not be run.
    Subproc(String),
    /// Another run holds the experiment.
    Locked { path: String, detail: String },
}

impl Error {
    /// The message shown for a failure.
    pub open spec fn text(self) -> Seq<char> {
        match self {
            Error::Config(m) => "config error: "@ + m@,
            Error::ExperimentExists { name, path } => "experiment "@ + text::quoted(name@)
                + " already exists at "@ + path@,
            Error::InvalidName(n) => "invalid experiment name "@ + text::quoted(n@)
                + ": must be [A-Za-z0-9_-]+"@,
            Error::Io(m) => "io: "@ + m@,
            Error::TomlDe(m) => "toml deserialize: "@ + m@,
            Error::TomlSer(m) => "toml serialize: "@ + m@,
            Error::Json(m) => "json: "@ + m@,
            Error::Glob(m) => "glob: "@ + m@,
            Error::Git(m) => "git: "@ + m@,
            Error::Schedule(m) => "schedule: "@ + m@,
            Error::Subproc(m) => "subprocess: "@ + m@,
            Error::Locked { path, detail } => "experiment lock "@ + path@ + " is held"@ + detail@,
        }
    }

    /// The message shown for a failure.
    pub fn message(&self) -> (r: String)
        ensures
            r@ == self.text(),
    {
        let mut out = String::new();
        match self {
            Error::Config(m) => {
                out.push_str("config error: ");
                out.push_str(m.as_str());
            },
            Error::ExperimentExists { name, path } => {
                out.push_str("experiment ");
                out.push_str(text::quote(name.as_str()).as_str());
                out.push_str(" already exists at ");
                out.push_str(path.as_str());
            },
            Error::InvalidName(n) => {
                out.push_str("invalid experiment name ");
                out.push_str(text::quote(n.as_str()).as_str());
                out.push_str(": must be [A-Za-z0-9_-]+");
            },
            Error::Io(m) => {
                out.push_str("io: ");
                out.push_str(m.as_str());
            },
            Error::TomlDe(m) => {
                out.push_str("toml deserialize: ");
                out.push_str(m.as_str());
            },
            Error::TomlSer(m) => {
                out.push_str("toml serialize: ");
                out.push_str(m.as_str());
            },
            Error::Json(m) => {
                out.push_str("json: ");
                out.push_str(m.as_str());
            },
            Error::Glob(m) => {
                out.push_str("glob: ");
                out.push_str(m.as_str());
            },
            Error::Git(m) => {
                out.push_str("git: ");
                out.push_str(m.as_str());
            },
            Error::Schedule(m) => {
                out.push_str("schedule: ");
                out.push_str(m.as_str());
            },
            Error::Subproc(m) => {
                out.push_str("subprocess: ");
                out.push_str(m.as_str());
            },
            Error::Locked { path, detail } => {
                out.push_str("experiment lock ");
                out.push_str(path.as_str());
                out.push_str(" is held");
                out.push_str(detail.as_str());
            },
        }
        assert(out@ =~= self.text());
        out
    }
}

} // verus!
