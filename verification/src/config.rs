//! Configuration values: the optional explicit output path and its
//! resolution policy, and the closed enumerations of run kinds, report
//! formats and continuous-integration services.

use vstd::prelude::*;
use crate::strutil::str_eq;

verus! {

/// Which kind of run produces the traces.
#[derive(Debug, Copy, Clone, PartialEq, Eq, Structural)]
pub enum RunType {
    Tests,
    Doctests,
}

/// The report formats a caller can select.
#[derive(Debug, Copy, Clone, PartialEq, Eq, Structural)]
pub enum OutputType {
    Json,
    Toml,
    Xml,
    Html,
}

/// A named continuous-integration service, or any other, carried
/// through verbatim.
#[derive(Debug)]
pub enum Ci {
    Circle,
    Codeship,
    Jenkins,
    Semaphore,
    Travis,
    TravisPro,
    Other(String),
}

impl Ci {
    /// Parses a service name. This can never fail: every known name maps
    /// to its variant and any other name is carried through unchanged.
    pub fn parse(x: &str) -> (r: Ci)
        ensures
            x@ == "circle-ci"@ ==> r is Circle,
            x@ == "codeship"@ ==> r is Codeship,
            x@ == "jenkins"@ ==> r is Jenkins,
            x@ == "semaphore"@ ==> r is Semaphore,
            x@ == "travis-ci"@ ==> r is Travis,
            x@ == "travis-pro"@ ==> r is TravisPro,
            (x@ != "circle-ci"@ && x@ != "codeship"@ && x@ != "jenkins"@ && x@ != "semaphore"@
                && x@ != "travis-ci"@ && x@ != "travis-pro"@) ==> match r {
                Ci::Other(s) => s@ == x@,
                _ => false,
            },
    {
        proof {
            reveal_strlit("circle-ci");
            reveal_strlit("codeship");
            reveal_strlit("jenkins");
            reveal_strlit("semaphore");
            reveal_strlit("travis-ci");
            reveal_strlit("travis-pro");
            assert("circle-ci"@[0] == 'c' && "circle-ci"@[1] == 'i');
            assert("codeship"@[0] == 'c' && "codeship"@[1] == 'o');
            assert("jenkins"@[0] == 'j');
            assert("semaphore"@[0] == 's');
            assert("travis-ci"@[0] == 't' && "travis-ci"@[7] == 'c');
            assert("travis-pro"@[0] == 't' && "travis-pro"@[7] == 'p');
        }
        if str_eq(x, "circle-ci") {
            Ci::Circle
        } else if str_eq(x, "codeship") {
            Ci::Codeship
        } else if str_eq(x, "jenkins") {
            Ci::Jenkins
        } else if str_eq(x, "semaphore") {
            Ci::Semaphore
        } else if str_eq(x, "travis-ci") {
            Ci::Travis
        } else if str_eq(x, "travis-pro") {
            Ci::TravisPro
        } else {
            Ci::Other(x.to_owned())
        }
    }
}

/// An optional explicit destination path override.
#[derive(Debug)]
pub struct OutputFile(pub Option<String>);

/// A resolved destination: a file path to create, or the process's
/// standard output stream.
#[derive(Debug)]
pub enum Destination {
    File(String),
    Stdout,
}

impl Default for OutputFile {
    /// No override configured.
    fn default() -> (r: OutputFile)
        ensures
            r.0 is None,
    {
        OutputFile(Option::None)
    }
}

impl OutputFile {
    /// Builds the override from a path string. This can never fail, so
    /// the result carries no failure variant.
    pub fn from_path(x: &str) -> (r: OutputFile)
        ensures
            match r.0 {
                Option::Some(p) => p@ == x@,
                Option::None => false,
            },
    {
        OutputFile(Option::Some(x.to_owned()))
    }

    /// Destination priority: the explicitly configured path wins; only
    /// when none is configured is the caller-supplied default used.
    pub fn resolve_or_else(&self, default: &str) -> (r: String)
        ensures
            match self.0 {
                Option::Some(p) => r@ == p@,
                Option::None => r@ == default@,
            },
    {
        match &self.0 {
            Option::Some(p) => p.clone(),
            Option::None => default.to_owned(),
        }
    }

    /// Stream fallback: the explicitly configured path wins; with none
    /// configured the standard output stream is selected, never a file.
    pub fn resolve_or_stdout(&self) -> (r: Destination)
        ensures
            match self.0 {
                Option::Some(p) => match r {
                    Destination::File(q) => q@ == p@,
                    Destination::Stdout => false,
                },
                Option::None => r is Stdout,
            },
    {
        match &self.0 {
            Option::Some(p) => Destination::File(p.clone()),
            Option::None => Destination::Stdout,
        }
    }
}

} // verus!
