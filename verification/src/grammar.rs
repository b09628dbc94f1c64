use vstd::prelude::*;
use crate::error::Error;

verus! {

#[verifier::external_type_specification]
#[verifier::external_body]
pub struct ExLanguage(tree_sitter::Language);

#[verifier::external_type_specification]
#[verifier::external_body]
pub struct ExLibrary(libloading::Library);

#[verifier::external_type_specification]
#[verifier::external_body]
pub struct ExParser(tree_sitter::Parser);

/// Whether a parser accepts this grammar descriptor: its reported ABI
/// version lies in the runtime's supported range and the grammar can drive
/// parsing. A function of the descriptor alone.
pub uninterp spec fn language_compatible(l: tree_sitter::Language) -> bool;

/// Relies on tree_sitter::Parser::new: a fresh parser with no language
/// assigned yet.
#[verifier::external_body]
pub(crate) fn parser_new() -> tree_sitter::Parser {
    tree_sitter::Parser::new()
}

/// Whether this parser has had a language assigned, so that parsing is owed
/// a tree.
pub uninterp spec fn parser_ready(p: tree_sitter::Parser) -> bool;

/// Relies on tree_sitter::Parser::set_language: assignment succeeds exactly
/// when the grammar's ABI version lies in the runtime's compatible range and
/// the grammar is parseable; afterwards the parser is ready to parse.
#[verifier::external_body]
pub(crate) fn parser_set_language(
    p: &mut tree_sitter::Parser,
    l: &tree_sitter::Language,
) -> (r: Result<(), ()>)
    ensures
        r is Ok <==> language_compatible(*l),
        r is Ok ==> parser_ready(*final(p)),
{
    p.set_language(l).map_err(|_e| ())
}

/// Checks whether the runtime accepts this grammar descriptor, by asking a
/// scratch parser to take it.
pub fn validate_language(l: &tree_sitter::Language) -> (b: bool)
    ensures
        b == language_compatible(*l),
{
    let mut parser = parser_new();
    match parser_set_language(&mut parser, l) {
        Ok(_) => true,
        Err(_) => false,
    }
}

/// A grammar loaded into the process: its logical name, the opaque
/// descriptor its entry point returned, and exclusive ownership of the
/// native module that produced the descriptor. The module handle, when
/// present, is deliberately never released before the process ends, so the
/// descriptor can never dangle.
pub struct LoadedLanguage {
    pub name: &'static str,
    pub language: tree_sitter::Language,
    pub module: Option<libloading::Library>,
}

impl LoadedLanguage {
    /// Assembles a loaded grammar from a freshly resolved descriptor and the
    /// still-open module handle that produced it, validating the
    /// descriptor's ABI version against the runtime. Descriptors obtained
    /// from grammars linked into the process itself carry no module handle.
    pub fn from_parts(
        name: &'static str,
        language: tree_sitter::Language,
        module: Option<libloading::Library>,
    ) -> (r: Result<LoadedLanguage, Error>)
        ensures
            language_compatible(language) ==> (r matches Ok(g) && g == (LoadedLanguage {
                name,
                language,
                module,
            })),
            !language_compatible(language) ==> r == Err::<LoadedLanguage, Error>(
                Error::AbiMismatch,
            ),
    {
        if validate_language(&language) {
            Ok(LoadedLanguage { name, language, module })
        } else {
            Err(Error::AbiMismatch)
        }
    }
}

} // verus!
