//! The error taxonomy of the render pipeline. Each variant carries one
//! human-readable message; outer stages prepend their context to it.
use vstd::prelude::*;

verus! {

#[derive(Debug)]
pub enum Error {
    /// Malformed configuration document, schema violation, unreadable file.
    Config(String),
    /// Type mismatch during value coercion.
    Coercion(String),
    /// Missing environment variable, failing or silent context command.
    ContextResolution(String),
    /// Invalid delimiters, extension load failure, name collision.
    EngineConstruction(String),
    /// Template-syntax error, undefined variable, failing extension call.
    Render(String),
    /// Lockfile write failure.
    Lockfile(String),
    /// Invalid ignore or override pattern, traversal error.
    Walk(String),
    /// Root path missing or not a directory.
    Validation(String),
}

impl Error {
    /// The message carried by any variant.
    pub open spec fn msg(self) -> Seq<char> {
        match self {
            Error::Config(m) => m@,
            Error::Coercion(m) => m@,
            Error::ContextResolution(m) => m@,
            Error::EngineConstruction(m) => m@,
            Error::Render(m) => m@,
            Error::Lockfile(m) => m@,
            Error::Walk(m) => m@,
            Error::Validation(m) => m@,
        }
    }

    pub fn message(&self) -> (r: String)
        ensures
            r@ == self.msg(),
    {
        match self {
            Error::Config(m) => m.clone(),
            Error::Coercion(m) => m.clone(),
            Error::ContextResolution(m) => m.clone(),
            Error::EngineConstruction(m) => m.clone(),
            Error::Render(m) => m.clone(),
            Error::Lockfile(m) => m.clone(),
            Error::Walk(m) => m.clone(),
            Error::Validation(m) => m.clone(),
        }
    }
}

} // verus!
