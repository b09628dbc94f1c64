use vstd::prelude::*;

verus! {

/// The full error taxonomy of the inspector. Every failure of the loader,
/// the registry, the parse engine or the surrounding tool is one of these;
/// none is transient, so no caller retries.
#[derive(Clone, Copy, Debug, PartialEq, Eq, Structural)]
pub enum Error {
    /// The source file could not be read.
    IoError,
    /// No grammar is registered for the file's extension.
    UnsupportedExtension,
    /// The path did not resolve to an openable native module.
    ModuleNotFound,
    /// The module lacks the conventional grammar entry point.
    SymbolMissing,
    /// The grammar's reported ABI version is outside the supported range.
    AbiMismatch,
    /// The native parse routine reported no tree at all.
    ParseFailure,
}

impl Error {
    /// A short description for reporting at the top level, one fixed
    /// message per variant.
    pub fn message(&self) -> (r: &'static str)
        ensures
            *self == Error::IoError ==> r@ == "failed to read source file"@,
            *self == Error::UnsupportedExtension ==> r@ == "unsupported file extension"@,
            *self == Error::ModuleNotFound ==> r@ == "grammar module not found"@,
            *self == Error::SymbolMissing ==> r@ == "grammar entry point missing"@,
            *self == Error::AbiMismatch ==> r@ == "grammar ABI version mismatch"@,
            *self == Error::ParseFailure ==> r@ == "parser returned no tree"@,
    {
        match self {
            Error::IoError => "failed to read source file",
            Error::UnsupportedExtension => "unsupported file extension",
            Error::ModuleNotFound => "grammar module not found",
            Error::SymbolMissing => "grammar entry point missing",
            Error::AbiMismatch => "grammar ABI version mismatch",
            Error::ParseFailure => "parser returned no tree",
        }
    }
}

} // verus!
