//! Extension-keyed lookup of language parsers.
//!
//! Registration is additive and later registrations win for a contested
//! extension.  Parsing a file with no registered parser for its extension
//! is not an error: it yields nothing.

use vstd::prelude::*;
use crate::errors::ParseError;
use crate::extension_filter::ExtensionFilter;
use crate::extension_filter::extension_of;
use crate::parser::event::EventView;
use crate::parser::event::FileEvents;
use crate::parser::language::LanguageParser;
use crate::parser::python::PythonParser;
use crate::parser::python::SyntaxNode;

verus! {

/// One registered language plugin, as a closed set of variants.
pub enum RegisteredParser {
    Python(PythonParser),
}

impl RegisteredParser {
    /// The language identifier of the registered plugin.
    pub open spec fn spec_language_name(self) -> Seq<char> {
        match self {
            RegisteredParser::Python(p) => p.spec_language_name(),
        }
    }

    /// Whether the registered plugin claims extension `e`.
    pub open spec fn spec_claims_ext(self, e: Seq<char>) -> bool {
        match self {
            RegisteredParser::Python(p) => p.spec_claims_ext(e),
        }
    }

    /// The tree the registered plugin assigns to a source text.
    pub open spec fn spec_tree(self, source: Seq<char>) -> SyntaxNode {
        match self {
            RegisteredParser::Python(p) => p.spec_tree(source),
        }
    }

    /// Whether the registered plugin's grammar yields a tree for a text.
    pub open spec fn spec_parses(self, source: Seq<char>) -> bool {
        match self {
            RegisteredParser::Python(p) => p.spec_parses(source),
        }
    }

    /// The events the registered plugin's traversal yields on a subtree.
    pub open spec fn spec_node_events(self, n: SyntaxNode) -> Seq<EventView> {
        match self {
            RegisteredParser::Python(p) => p.spec_node_events(n),
        }
    }

    /// Report the language identifier.
    pub fn language_name(&self) -> (r: String)
        ensures
            r@ == self.spec_language_name(),
    {
        match self {
            RegisteredParser::Python(p) => p.language_name(),
        }
    }

    /// Whether the plugin claims extension `e`.
    pub fn claims_extension(&self, e: &String) -> (r: bool)
        ensures
            r == self.spec_claims_ext(e@),
    {
        match self {
            RegisteredParser::Python(p) => {
                let exts: Vec<String> = p.file_extensions();
                let mut i: usize = 0;
                let mut found = false;
                while i < exts.len()
                    invariant
                        i <= exts@.len(),
                        found <==> (exists|j: int| 0 <= j < i && exts@[j]@ == e@),
                    decreases exts@.len() - i,
                {
                    if exts[i] == *e {
                        found = true;
                    }
                    i += 1;
                }
                proof {
                    assert(p.spec_claims_ext(e@) <==> (exists|j: int|
                        0 <= j < exts@.len() && exts@[j]@ == e@));
                }
                found
            },
        }
    }

    /// Parse one file's content with the registered plugin; fails exactly
    /// when the plugin's grammar yields no tree.
    pub fn parse_file(&self, content: &str, file_path: &str, last_modified: u128) -> (r: Result<
        FileEvents,
        ParseError,
    >)
        ensures
            r is Ok <==> self.spec_parses(content@),
            r matches Ok(fe) ==> ({
                &&& fe@.events == self.spec_node_events(self.spec_tree(content@))
                &&& fe@.file_path == file_path@
                &&& fe@.language == self.spec_language_name()
                &&& fe@.last_modified == last_modified as int
            }),
            r matches Err(e) ==> e == ParseError::ParseFailure,
    {
        match self {
            RegisteredParser::Python(p) => p.parse_file(content, file_path, last_modified),
        }
    }
}

/// The last of `s` that claims extension `e`, if any: a later
/// registration overrides an earlier one for a contested extension.
pub open spec fn lookup_parser(s: Seq<RegisteredParser>, e: Seq<char>) -> Option<RegisteredParser>
    decreases s.len(),
{
    if s.len() == 0 {
        None
    } else if s.last().spec_claims_ext(e) {
        Some(s.last())
    } else {
        lookup_parser(s.drop_last(), e)
    }
}

/// Maps file extensions to registered language parsers.
pub struct LanguageParserRegistry {
    parsers: Vec<RegisteredParser>,
}

impl LanguageParserRegistry {
    /// The registered parsers, in registration order.
    pub closed spec fn parsers_view(self) -> Seq<RegisteredParser> {
        self.parsers@
    }

    /// The parser a path's extension selects, if any.
    pub open spec fn spec_parser_for(self, path: Seq<char>) -> Option<RegisteredParser> {
        match extension_of(path) {
            None => None,
            Some(e) => lookup_parser(self.parsers_view(), e),
        }
    }

    /// A registry with the built-in parsers registered.
    pub fn new() -> (r: LanguageParserRegistry)
        ensures
            r.parsers_view() == seq![RegisteredParser::Python(PythonParser)],
    {
        let mut registry = LanguageParserRegistry { parsers: Vec::new() };
        registry.register_parser(RegisteredParser::Python(PythonParser));
        proof {
            assert(registry.parsers_view() =~= seq![RegisteredParser::Python(PythonParser)]);
        }
        registry
    }

    /// Register one more parser; for a contested extension the newest
    /// registration wins.
    pub fn register_parser(&mut self, parser: RegisteredParser)
        ensures
            final(self).parsers_view() == old(self).parsers_view().push(parser),
    {
        self.parsers.push(parser);
    }

    /// The registered parser responsible for `file_path`, by extension.
    pub fn get_parser_for_file(&self, file_path: &str) -> (r: Option<&RegisteredParser>)
        ensures
            match r {
                Some(p) => self.spec_parser_for(file_path@) == Some(*p),
                None => self.spec_parser_for(file_path@) is None,
            },
    {
        let ext = match ExtensionFilter::extension_str(file_path) {
            None => {
                return None;
            },
            Some(e) => e,
        };
        let mut k: usize = self.parsers.len();
        proof {
            assert(self.parsers@.take(self.parsers@.len() as int) =~= self.parsers@);
        }
        while k > 0
            invariant
                k <= self.parsers@.len(),
                Some(ext@) == extension_of(file_path@),
                lookup_parser(self.parsers@, ext@) == lookup_parser(
                    self.parsers@.take(k as int),
                    ext@,
                ),
            decreases k,
        {
            proof {
                assert(self.parsers@.take(k as int).last() == self.parsers@[k - 1]);
                assert(self.parsers@.take(k as int).drop_last() =~= self.parsers@.take(k - 1));
            }
            if self.parsers[k - 1].claims_extension(&ext) {
                return Some(&self.parsers[k - 1]);
            }
            k -= 1;
        }
        None
    }

    /// Parse one file: `Ok(None)` exactly when no parser claims the
    /// file's extension; otherwise the selected parser's outcome, an
    /// error exactly when its grammar yields no tree.
    pub fn parse_file(&self, file_path: &str, content: &str, last_modified: u128) -> (r: Result<
        Option<FileEvents>,
        ParseError,
    >)
        ensures
            match self.spec_parser_for(file_path@) {
                None => r == Ok::<Option<FileEvents>, ParseError>(None),
                Some(p) => (r is Ok <==> p.spec_parses(content@)) && match r {
                    Ok(Some(fe)) => ({
                        &&& fe@.events == p.spec_node_events(p.spec_tree(content@))
                        &&& fe@.file_path == file_path@
                        &&& fe@.language == p.spec_language_name()
                        &&& fe@.last_modified == last_modified as int
                    }),
                    Ok(None) => false,
                    Err(e) => e == ParseError::ParseFailure,
                },
            },
    {
        match self.get_parser_for_file(file_path) {
            None => Ok(None),
            Some(parser) => match parser.parse_file(content, file_path, last_modified) {
                Ok(fe) => Ok(Some(fe)),
                Err(e) => Err(e),
            },
        }
    }
}

} // verus!
