//! What the file system answers about a path. Each answer remembers the
//! path it was asked about, and only the calls below make answers: code
//! outside this module cannot make one up, so a contract that speaks of
//! answers about a path speaks of answers the file system gave.
use vstd::prelude::*;

verus! {

broadcast use vstd::string::group_string_axioms;

/// Whether something exists at a path.
pub struct ExistsAnswer {
    path: String,
    holds: bool,
}

/// Whether a path names a directory.
pub struct IsDirAnswer {
    path: String,
    holds: bool,
}

/// The canonical form of a path, or the text of the error that resolving
/// it gave.
pub struct CanonicalAnswer {
    path: String,
    resolved: Result<String, String>,
}

impl ExistsAnswer {
    /// The path asked about.
    pub closed spec fn asked(&self) -> Seq<char> {
        self.path@
    }

    /// What the file system said.
    pub closed spec fn says(&self) -> bool {
        self.holds
    }

    pub fn holds(&self) -> (r: bool)
        ensures
            r == self.says(),
    {
        self.holds
    }
}

impl IsDirAnswer {
    /// The path asked about.
    pub closed spec fn asked(&self) -> Seq<char> {
        self.path@
    }

    /// What the file system said.
    pub closed spec fn says(&self) -> bool {
        self.holds
    }

    pub fn holds(&self) -> (r: bool)
        ensures
            r == self.says(),
    {
        self.holds
    }
}

impl CanonicalAnswer {
    /// The path asked about.
    pub closed spec fn asked(&self) -> Seq<char> {
        self.path@
    }

    /// The canonical path, or the text of the error.
    pub closed spec fn says(&self) -> Result<Seq<char>, Seq<char>> {
        match self.resolved {
            Ok(p) => Ok(p@),
            Err(e) => Err(e@),
        }
    }

    /// Hands out the canonical path, or the text of the error.
    pub fn into_resolved(self) -> (r: Result<String, String>)
        ensures
            match r {
                Ok(p) => self.says() == Ok::<Seq<char>, Seq<char>>(p@),
                Err(e) => self.says() == Err::<Seq<char>, Seq<char>>(e@),
            },
    {
        self.resolved
    }
}

/// Calls `Path::exists` on `path`. Trusted: the answer is about `path`.
/// What it says is not stated: it depends on what is on disk at the time
/// of the call.
#[verifier::external_body]
pub(crate) fn path_exists(path: &str) -> (r: ExistsAnswer)
    ensures
        r.asked() == path@,
{
    ExistsAnswer { path: path.to_string(), holds: std::path::Path::new(path).exists() }
}

/// Calls `Path::is_dir` on `path`. Trusted: the answer is about `path`.
/// What it says is not stated: it depends on what is on disk at the time
/// of the call.
#[verifier::external_body]
pub(crate) fn path_is_dir(path: &str) -> (r: IsDirAnswer)
    ensures
        r.asked() == path@,
{
    IsDirAnswer { path: path.to_string(), holds: std::path::Path::new(path).is_dir() }
}

/// Calls `Path::canonicalize` on `path`, rendering a resolved path with
/// `to_string_lossy` and an error with `to_string`. Trusted: the answer is
/// about `path`, and a resolved path is absolute, hence not empty. Which
/// path or error comes back depends on the file system and is not stated.
#[verifier::external_body]
pub(crate) fn canonicalize_path(path: &str) -> (r: CanonicalAnswer)
    ensures
        r.asked() == path@,
        r.says() matches Ok(p) ==> p.len() > 0,
{
    let resolved = match std::path::Path::new(path).canonicalize() {
        Ok(p) => Ok(p.to_string_lossy().into_owned()),
        Err(e) => Err(e.to_string()),
    };
    CanonicalAnswer { path: path.to_string(), resolved }
}

} // verus!
