//! The capability contract a language plugin implements: report a
//! language identifier, claim file extensions, build a syntax tree from
//! source text, and walk that tree into a `FileEvents`.

use vstd::prelude::*;
use crate::errors::ParseError;
use crate::parser::event::EventView;
use crate::parser::event::FileEvents;
use crate::parser::event::events_extended;
use crate::parser::python::SyntaxNode;

verus! {

pub trait LanguageParser: Sized {
    /// The language identifier.
    spec fn spec_language_name(&self) -> Seq<char>;

    /// Whether the plugin claims files with extension `e`.
    spec fn spec_claims_ext(&self, e: Seq<char>) -> bool;

    /// The extensions the plugin claims, in their reported order.
    spec fn spec_extensions(&self) -> Seq<Seq<char>>;

    /// The tree the plugin's grammar assigns to a source text.
    spec fn spec_tree(&self, source: Seq<char>) -> SyntaxNode;

    /// Whether the plugin's grammar yields a tree for a source text.
    spec fn spec_parses(&self, source: Seq<char>) -> bool;

    /// The events the plugin's traversal yields on a subtree.
    spec fn spec_node_events(&self, n: SyntaxNode) -> Seq<EventView>;

    /// Report the language identifier.
    fn language_name(&self) -> (r: String)
        ensures
            r@ == self.spec_language_name(),
    ;

    /// Report the extensions the plugin claims: exactly its extension
    /// list, which carries exactly the claimed extensions.
    fn file_extensions(&self) -> (r: Vec<String>)
        ensures
            r@.map_values(|s: String| s@) == self.spec_extensions(),
            forall|e: Seq<char>|
                self.spec_claims_ext(e) <==> (exists|i: int|
                    0 <= i < r@.len() && r@[i]@ == e),
    ;

    /// Build a syntax tree from source text: a tree comes back exactly
    /// when the grammar yields one, and it is the one tree the grammar
    /// assigns to the text.
    fn parse_source(&self, content: &str) -> (r: Option<SyntaxNode>)
        ensures
            r is Some <==> self.spec_parses(content@),
            r matches Some(t) ==> t == self.spec_tree(content@),
    ;

    /// Walk a subtree, appending exactly its events.
    fn walk_tree(&self, node: &SyntaxNode, file_events: &mut FileEvents)
        ensures
            events_extended(
                *old(file_events),
                *final(file_events),
                self.spec_node_events(*node),
            ),
    ;

    /// Parse one file's content: build the tree, stamp the file's path,
    /// language and timestamps, and walk the tree.  Fails exactly when
    /// the grammar yields no tree.
    fn parse_file(&self, content: &str, file_path: &str, last_modified: u128) -> (r: Result<
        FileEvents,
        ParseError,
    >)
        ensures
            r is Ok <==> self.spec_parses(content@),
            r matches Ok(fe) ==> ({
                &&& fe@.events == self.spec_node_events(self.spec_tree(content@))
                &&& fe@.file_path == file_path@
                &&& fe@.language == self.spec_language_name()
                &&& fe@.last_modified == last_modified as int
            }),
            r matches Err(e) ==> e == ParseError::ParseFailure,
    ;
}

} // verus!
