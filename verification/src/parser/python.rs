//! The Python language parser: a trusted bridge to the grammar backend,
//! and a verified depth-first, pre-order traversal with a per-node-kind
//! emit/recurse rule.

use vstd::prelude::*;
use crate::parser::event::EventView;
use crate::parser::event::FileEvents;
use crate::parser::event::ParseEvent;
use vstd::string::StrSliceExecFns;
use vstd::string::StringExecFns;

verus! {

/// One syntax-tree node as plain values: its node kind, the grammar field
/// it occupies in its parent (if any), its 0-indexed start and end rows,
/// its source text, and its children in order.
pub struct SyntaxNode {
    pub kind: String,
    pub field: Option<String>,
    pub start_row: usize,
    pub end_row: usize,
    pub text: String,
    pub children: Vec<SyntaxNode>,
}

/// The first of `s` that occupies the grammar field `f`, if any.
pub open spec fn find_field(s: Seq<SyntaxNode>, f: Seq<char>) -> Option<SyntaxNode>
    decreases s.len(),
{
    if s.len() == 0 {
        None
    } else if s[0].field matches Some(g) && g@ == f {
        Some(s[0])
    } else {
        find_field(s.drop_first(), f)
    }
}

proof fn lemma_find_field_element(s: Seq<SyntaxNode>, f: Seq<char>)
    ensures
        find_field(s, f) matches Some(c) ==> exists|i: int| 0 <= i < s.len() && s[i] == c,
    decreases s.len(),
{
    if s.len() > 0 {
        if !(s[0].field matches Some(g) && g@ == f) {
            lemma_find_field_element(s.drop_first(), f);
            match find_field(s.drop_first(), f) {
                Some(c) => {
                    let i = choose|i: int| 0 <= i < s.drop_first().len() && s.drop_first()[i] == c;
                    assert(s[i + 1] == c);
                },
                None => {},
            }
        }
    }
}

/// The first of `s` whose node kind is `k`, if any.
pub open spec fn find_kind(s: Seq<SyntaxNode>, k: Seq<char>) -> Option<SyntaxNode>
    decreases s.len(),
{
    if s.len() == 0 {
        None
    } else if s[0].kind@ == k {
        Some(s[0])
    } else {
        find_kind(s.drop_first(), k)
    }
}

/// Whether a node kind has a specific traversal rule; every other kind
/// falls to the default, which recurses into all children and emits
/// nothing.
pub open spec fn has_rule(kind: Seq<char>) -> bool {
    kind == "function_definition"@
}

/// How one parameter node renders: a plain name as itself, a typed name
/// as `name: type`, a defaulted name as `name = value`, and a typed,
/// defaulted name as `name: type = value`.  A parameter node missing a
/// required field renders as nothing and is skipped.
pub open spec fn param_rendering(c: SyntaxNode) -> Option<Seq<char>> {
    if c.kind@ == "identifier"@ {
        Some(c.text@)
    } else if c.kind@ == "typed_parameter"@ {
        // The grammar gives a typed parameter no name field: the name is
        // its identifier child.
        match (find_kind(c.children@, "identifier"@), find_field(c.children@, "type"@)) {
            (Some(nm), Some(ty)) => Some(nm.text@ + ": "@ + ty.text@),
            _ => None,
        }
    } else if c.kind@ == "default_parameter"@ {
        match (find_field(c.children@, "name"@), find_field(c.children@, "value"@)) {
            (Some(nm), Some(v)) => Some(nm.text@ + " = "@ + v.text@),
            _ => None,
        }
    } else if c.kind@ == "typed_default_parameter"@ {
        match (
            find_field(c.children@, "name"@),
            find_field(c.children@, "type"@),
            find_field(c.children@, "value"@),
        ) {
            (Some(nm), Some(ty), Some(v)) => Some(nm.text@ + ": "@ + ty.text@ + " = "@ + v.text@),
            _ => None,
        }
    } else {
        None
    }
}

/// The rendered parameter list of a `parameters` node: each child that
/// renders, in order.
pub open spec fn params_rendering(s: Seq<SyntaxNode>) -> Seq<Seq<char>>
    decreases s.len(),
{
    if s.len() == 0 {
        Seq::empty()
    } else {
        let rest = params_rendering(s.drop_last());
        match param_rendering(s.last()) {
            Some(p) => rest.push(p),
            None => rest,
        }
    }
}

/// The 1-indexed line of a 0-indexed row, saturating at the largest
/// representable row.
pub open spec fn line_number(row: usize) -> int {
    if row == usize::MAX {
        row as int
    } else {
        row as int + 1
    }
}

/// The event a function-definition node emits: its name, 1-indexed start
/// and end lines, rendered parameters, optional rendered return type, and
/// a visibility flag derived from a leading underscore.  A node with no
/// name field emits nothing.
pub open spec fn function_event(n: SyntaxNode) -> Option<EventView> {
    match find_field(n.children@, "name"@) {
        None => None,
        Some(nm) => Some(
            EventView::FunctionDefinition {
                name: nm.text@,
                start_line: line_number(n.start_row),
                end_line: line_number(n.end_row),
                parameters: match find_field(n.children@, "parameters"@) {
                    Some(ps) => params_rendering(ps.children@),
                    None => Seq::empty(),
                },
                return_type: match find_field(n.children@, "return_type"@) {
                    Some(rt) => Some(rt.text@),
                    None => None,
                },
                is_public: !(nm.text@.len() > 0 && nm.text@[0] == '_'),
            },
        ),
    }
}

/// The events a pre-order traversal of `n` yields.  A function definition
/// emits its event and recurses only into its body subtree; a kind with
/// no rule emits nothing and recurses into all children.
pub open spec fn tree_events(n: SyntaxNode) -> Seq<EventView>
    decreases n, 1int,
        via tree_events_decreases
{
    if has_rule(n.kind@) {
        let emitted: Seq<EventView> = match function_event(n) {
            Some(e) => seq![e],
            None => Seq::empty(),
        };
        let body: Seq<EventView> = match find_field(n.children@, "body"@) {
            Some(b) => tree_events(b),
            None => Seq::empty(),
        };
        emitted + body
    } else {
        forest_events(n.children@)
    }
}

/// The concatenated events of a sequence of subtrees, in order.
pub open spec fn forest_events(s: Seq<SyntaxNode>) -> Seq<EventView>
    decreases s, 0int,
{
    if s.len() == 0 {
        Seq::empty()
    } else {
        tree_events(s[0]) + forest_events(s.drop_first())
    }
}

#[via_fn]
proof fn tree_events_decreases(n: SyntaxNode) {
    if has_rule(n.kind@) {
        lemma_find_field_element(n.children@, "body"@);
        match find_field(n.children@, "body"@) {
            Some(b) => {
                let i = choose|i: int| 0 <= i < n.children@.len() && n.children@[i] == b;
                assert(decreases_to!(n => n.children@[i]));
            },
            None => {},
        }
    } else {
        assert(decreases_to!(n => n.children@));
    }
}

/// A node kind with no registered rule always yields exactly the events
/// of traversing its children directly: the default recursion is never
/// skipped for unrecognized kinds.
pub proof fn lemma_default_rule_recurses(n: SyntaxNode)
    requires
        !has_rule(n.kind@),
    ensures
        tree_events(n) == forest_events(n.children@),
{
}


#[verifier::external_type_specification]
#[verifier::external_body]
pub struct ExNode<'a>(tree_sitter::Node<'a>);

/// The syntax tree the Python grammar assigns to a source text, rebuilt
/// as plain values.
pub uninterp spec fn py_tree(source: Seq<char>) -> SyntaxNode;

/// Whether parsing a source text yields a tree.  Nothing about the parse
/// depends on anything but the source, so the outcome is a function of
/// the text alone.
pub uninterp spec fn py_parses(source: Seq<char>) -> bool;

/// Relies on tree_sitter's node accessors (`kind`, `child`, `child_count`,
/// `field_name_for_child`, `start_position`, `end_position`, `byte_range`):
/// rebuilds one node and its subtree as plain values.  What the rebuilt
/// tree is, is stated once, by `parse_python_source`.
#[verifier::external_body]
fn convert_node(n: tree_sitter::Node<'_>, source: &str, field: Option<String>) -> SyntaxNode {
    let mut children = Vec::new();
    for i in 0..n.child_count() {
        let c = n.child(i).unwrap();
        let f = n.field_name_for_child(i).map(|g| g.to_string());
        children.push(convert_node(c, source, f));
    }
    SyntaxNode {
        kind: n.kind().to_string(),
        field,
        start_row: n.start_position().row,
        end_row: n.end_position().row,
        text: source.get(n.byte_range()).unwrap_or("").to_string(),
        children,
    }
}

/// Relies on tree_sitter's `Parser` with the Python grammar of
/// tree_sitter_python: with a grammar assigned and no timeout or
/// cancellation set, whether `parse` yields a tree, and which tree, is
/// deterministic in the source text, so a successful parse rebuilds the
/// one tree that the grammar assigns to it.
#[verifier::external_body]
fn parse_python_source(source: &str) -> (r: Option<SyntaxNode>)
    ensures
        r is Some <==> py_parses(source@),
        r matches Some(t) ==> t == py_tree(source@),
{
    let mut parser = tree_sitter::Parser::new();
    parser.set_language(&tree_sitter_python::LANGUAGE.into()).ok()?;
    let tree = parser.parse(source, None)?;
    Some(convert_node(tree.root_node(), source, None))
}

/// The first child of `children` occupying the grammar field `f`, as
/// `find_field` describes it.
pub fn child_by_field<'a>(children: &'a Vec<SyntaxNode>, f: &str) -> (r: Option<&'a SyntaxNode>)
    ensures
        match r {
            Some(c) => find_field(children@, f@) == Some(*c),
            None => find_field(children@, f@) is None,
        },
{
    let target: String = f.to_owned();
    proof {
        assert(children@.skip(0) =~= children@);
    }
    let mut i: usize = 0;
    while i < children.len()
        invariant
            target@ == f@,
            i <= children@.len(),
            find_field(children@, f@) == find_field(children@.skip(i as int), f@),
        decreases children@.len() - i,
    {
        proof {
            assert(children@.skip(i as int)[0] == children@[i as int]);
            assert(children@.skip(i as int).drop_first() =~= children@.skip(i as int + 1));
        }
        let is_match: bool = match &children[i].field {
            Some(g) => *g == target,
            None => false,
        };
        if is_match {
            return Some(&children[i]);
        }
        i += 1;
    }
    proof {
        assert(children@.skip(children@.len() as int).len() == 0);
    }
    None
}

/// The first child of `children` whose node kind is `k`, as `find_kind`
/// describes it.
pub fn child_by_kind<'a>(children: &'a Vec<SyntaxNode>, k: &str) -> (r: Option<&'a SyntaxNode>)
    ensures
        match r {
            Some(c) => find_kind(children@, k@) == Some(*c),
            None => find_kind(children@, k@) is None,
        },
{
    let target: String = k.to_owned();
    proof {
        assert(children@.skip(0) =~= children@);
    }
    let mut i: usize = 0;
    while i < children.len()
        invariant
            target@ == k@,
            i <= children@.len(),
            find_kind(children@, k@) == find_kind(children@.skip(i as int), k@),
        decreases children@.len() - i,
    {
        proof {
            assert(children@.skip(i as int)[0] == children@[i as int]);
            assert(children@.skip(i as int).drop_first() =~= children@.skip(i as int + 1));
        }
        if children[i].kind == target {
            return Some(&children[i]);
        }
        i += 1;
    }
    proof {
        assert(children@.skip(children@.len() as int).len() == 0);
    }
    None
}

/// The 1-indexed line of a 0-indexed row, as `line_number` describes it.
fn line_of_row(row: usize) -> (r: usize)
    ensures
        r as int == line_number(row),
{
    if row == usize::MAX {
        row
    } else {
        row + 1
    }
}

proof fn lemma_forest_snoc(s: Seq<SyntaxNode>, x: SyntaxNode)
    ensures
        forest_events(s.push(x)) == forest_events(s) + tree_events(x),
    decreases s.len(),
{
    if s.len() == 0 {
        assert(s.push(x)[0] == x);
        assert(s.push(x).drop_first() =~= Seq::<SyntaxNode>::empty());
        assert(forest_events(Seq::<SyntaxNode>::empty()) == Seq::<EventView>::empty());
        assert(forest_events(s.push(x)) == tree_events(x) + Seq::<EventView>::empty());
        assert(forest_events(s) == Seq::<EventView>::empty());
        assert(tree_events(x) + Seq::<EventView>::empty() =~= Seq::<EventView>::empty()
            + tree_events(x));
    } else {
        assert(s.push(x)[0] == s[0]);
        assert(s.push(x).drop_first() =~= s.drop_first().push(x));
        lemma_forest_snoc(s.drop_first(), x);
        assert(tree_events(s[0]) + (forest_events(s.drop_first()) + tree_events(x)) =~= (
        tree_events(s[0]) + forest_events(s.drop_first())) + tree_events(x));
    }
}

/// The Python language plugin.
pub struct PythonParser;

impl PythonParser {
    /// The rendered parameter list of a `parameters` node, as
    /// `params_rendering` describes it.
    fn extract_parameters(&self, params_node: &SyntaxNode) -> (r: Vec<String>)
        ensures
            crate::parser::event::strs_view(r@) == params_rendering(params_node.children@),
    {
        let mut out: Vec<String> = Vec::new();
        let mut i: usize = 0;
        while i < params_node.children.len()
            invariant
                i <= params_node.children@.len(),
                crate::parser::event::strs_view(out@) == params_rendering(
                    params_node.children@.take(i as int),
                ),
            decreases params_node.children@.len() - i,
        {
            let ghost pre = out@;
            proof {
                assert(params_node.children@.take(i as int + 1).drop_last()
                    =~= params_node.children@.take(i as int));
                assert(params_node.children@.take(i as int + 1).last() == params_node.children@[i as int]);
            }
            match self.render_parameter(&params_node.children[i]) {
                Some(p) => {
                    out.push(p);
                    proof {
                        assert(crate::parser::event::strs_view(out@) =~= crate::parser::event::strs_view(
                            pre,
                        ).push(out@.last()@));
                    }
                },
                None => {},
            }
            i += 1;
        }
        proof {
            assert(params_node.children@.take(params_node.children@.len() as int)
                =~= params_node.children@);
        }
        out
    }

    /// How one parameter node renders, as `param_rendering` describes it.
    fn render_parameter(&self, c: &SyntaxNode) -> (r: Option<String>)
        ensures
            match r {
                Some(s) => param_rendering(*c) == Some(s@),
                None => param_rendering(*c) is None,
            },
    {
        if c.kind == "identifier".to_owned() {
            Some(c.text.clone())
        } else if c.kind == "typed_parameter".to_owned() {
            match (child_by_kind(&c.children, "identifier"), child_by_field(&c.children, "type")) {
                (Some(nm), Some(ty)) => {
                    let mut s = nm.text.clone();
                    s.append(": ");
                    s.append(ty.text.as_str());
                    Some(s)
                },
                _ => None,
            }
        } else if c.kind == "default_parameter".to_owned() {
            match (child_by_field(&c.children, "name"), child_by_field(&c.children, "value")) {
                (Some(nm), Some(v)) => {
                    let mut s = nm.text.clone();
                    s.append(" = ");
                    s.append(v.text.as_str());
                    Some(s)
                },
                _ => None,
            }
        } else if c.kind == "typed_default_parameter".to_owned() {
            match (
                child_by_field(&c.children, "name"),
                child_by_field(&c.children, "type"),
                child_by_field(&c.children, "value"),
            ) {
                (Some(nm), Some(ty), Some(v)) => {
                    let mut s = nm.text.clone();
                    s.append(": ");
                    s.append(ty.text.as_str());
                    s.append(" = ");
                    s.append(v.text.as_str());
                    Some(s)
                },
                _ => None,
            }
        } else {
            None
        }
    }

    /// The event a function-definition node emits, as `function_event`
    /// describes it; a node with no name field emits nothing.
    fn parse_function(&self, node: &SyntaxNode) -> (r: Option<ParseEvent>)
        ensures
            match r {
                Some(e) => function_event(*node) == Some(e@),
                None => function_event(*node) is None,
            },
    {
        let name_node = match child_by_field(&node.children, "name") {
            Some(nm) => nm,
            None => {
                return None;
            },
        };
        let parameters: Vec<String> = match child_by_field(&node.children, "parameters") {
            Some(ps) => self.extract_parameters(ps),
            None => {
                let empty: Vec<String> = Vec::new();
                proof {
                    assert(crate::parser::event::strs_view(empty@) =~= Seq::<Seq<char>>::empty());
                }
                empty
            },
        };
        let return_type: Option<String> = match child_by_field(&node.children, "return_type") {
            Some(rt) => Some(rt.text.clone()),
            None => None,
        };
        let name = name_node.text.clone();
        let is_public = !(name.as_str().unicode_len() > 0 && name.as_str().get_char(0) == '_');
        Some(
            ParseEvent::FunctionDefinition {
                name,
                start_line: line_of_row(node.start_row),
                end_line: line_of_row(node.end_row),
                parameters,
                return_type,
                is_public,
            },
        )
    }

    /// Apply the node-kind rule for one node: a function definition emits
    /// its event and walks only its body subtree, reporting that the
    /// caller must not recurse; any other kind emits nothing and reports
    /// that the caller recurses into all children.
    pub fn parse_node(&self, node: &SyntaxNode, file_events: &mut FileEvents) -> (recurse: bool)
        ensures
            recurse == !has_rule(node.kind@),
            crate::parser::event::events_extended(
                *old(file_events),
                *final(file_events),
                if has_rule(node.kind@) {
                    tree_events(*node)
                } else {
                    Seq::empty()
                },
            ),
        decreases *node, 0int,
    {
        if node.kind == "function_definition".to_owned() {
            match self.parse_function(node) {
                Some(event) => {
                    file_events.add_event(event);
                },
                None => {},
            }
            let ghost mid = *file_events;
            match child_by_field(&node.children, "body") {
                Some(body) => {
                    proof {
                        lemma_find_field_element(node.children@, "body"@);
                        let i = choose|i: int|
                            0 <= i < node.children@.len() && node.children@[i] == *body;
                        assert(decreases_to!(*node => node.children@[i]));
                    }
                    self.walk_node(body, file_events);
                },
                None => {},
            }
            proof {
                assert(file_events@.events =~= old(file_events)@.events + tree_events(*node));
            }
            false
        } else {
            proof {
                assert(file_events@.events =~= old(file_events)@.events + Seq::<
                    crate::parser::event::EventView,
                >::empty());
            }
            true
        }
    }

    /// Depth-first, pre-order traversal: apply the node's rule, then, when
    /// the rule says so, walk every child in order.  Appends exactly the
    /// events `tree_events` assigns to the subtree at `node`.
    pub fn walk_node(&self, node: &SyntaxNode, file_events: &mut FileEvents)
        ensures
            crate::parser::event::events_extended(
                *old(file_events),
                *final(file_events),
                tree_events(*node),
            ),
        decreases *node, 1int,
    {
        let recurse = self.parse_node(node, file_events);
        if recurse {
            let ghost mid = *file_events;
            let mut i: usize = 0;
            while i < node.children.len()
                invariant
                    i <= node.children@.len(),
                    crate::parser::event::events_extended(
                        mid,
                        *file_events,
                        forest_events(node.children@.take(i as int)),
                    ),
                decreases node.children@.len() - i,
            {
                let ghost before = *file_events;
                proof {
                    assert(decreases_to!(*node => node.children@[i as int]));
                    assert(node.children@.take(i as int + 1).drop_last() =~= node.children@.take(
                        i as int,
                    ));
                    assert(node.children@.take(i as int + 1) =~= node.children@.take(
                        i as int,
                    ).push(node.children@[i as int]));
                    lemma_forest_snoc(node.children@.take(i as int), node.children@[i as int]);
                }
                self.walk_node(&node.children[i], file_events);
                proof {
                    assert((mid@.events + forest_events(node.children@.take(i as int)))
                        + tree_events(node.children@[i as int]) =~= mid@.events + (forest_events(
                        node.children@.take(i as int),
                    ) + tree_events(node.children@[i as int])));
                    assert(file_events@.events =~= mid@.events + forest_events(
                        node.children@.take(i as int + 1),
                    ));
                }
                i += 1;
            }
            proof {
                assert(node.children@.take(node.children@.len() as int) =~= node.children@);
                lemma_default_rule_recurses(*node);
                assert(file_events@.events =~= old(file_events)@.events + tree_events(*node));
            }
        }
    }
}


impl crate::parser::language::LanguageParser for PythonParser {
    open spec fn spec_language_name(&self) -> Seq<char> {
        "python"@
    }

    open spec fn spec_claims_ext(&self, e: Seq<char>) -> bool {
        e == "py"@ || e == "pyw"@ || e == "pyi"@
    }

    open spec fn spec_extensions(&self) -> Seq<Seq<char>> {
        seq!["py"@, "pyw"@, "pyi"@]
    }

    open spec fn spec_tree(&self, source: Seq<char>) -> SyntaxNode {
        py_tree(source)
    }

    open spec fn spec_parses(&self, source: Seq<char>) -> bool {
        py_parses(source)
    }

    open spec fn spec_node_events(&self, n: SyntaxNode) -> Seq<EventView> {
        tree_events(n)
    }

    fn language_name(&self) -> (r: String) {
        "python".to_owned()
    }

    fn file_extensions(&self) -> (r: Vec<String>) {
        let mut v: Vec<String> = Vec::new();
        v.push("py".to_owned());
        v.push("pyw".to_owned());
        v.push("pyi".to_owned());
        proof {
            assert(v@.map_values(|s: String| s@) =~= self.spec_extensions());
            assert forall|e: Seq<char>|
                self.spec_claims_ext(e) <==> (exists|i: int|
                    0 <= i < v@.len() && v@[i]@ == e) by {
                assert(v@[0]@ == "py"@ && v@[1]@ == "pyw"@ && v@[2]@ == "pyi"@);
                if exists|i: int| 0 <= i < v@.len() && v@[i]@ == e {
                    let i = choose|i: int| 0 <= i < v@.len() && #[trigger] v@[i]@ == e;
                    assert(i == 0 || i == 1 || i == 2);
                }
            }
        }
        v
    }

    fn parse_source(&self, content: &str) -> (r: Option<SyntaxNode>) {
        parse_python_source(content)
    }

    fn walk_tree(&self, node: &SyntaxNode, file_events: &mut FileEvents) {
        self.walk_node(node, file_events)
    }

    fn parse_file(&self, content: &str, file_path: &str, last_modified: u128) -> (r: Result<
        FileEvents,
        crate::errors::ParseError,
    >) {
        match parse_python_source(content) {
            None => Err(crate::errors::ParseError::ParseFailure),
            Some(tree) => {
                let mut file_events = FileEvents::new(
                    file_path.to_owned(),
                    "python".to_owned(),
                    last_modified,
                );
                self.walk_node(&tree, &mut file_events);
                proof {
                    assert(file_events@.events =~= tree_events(py_tree(content@)));
                }
                Ok(file_events)
            },
        }
    }
}

} // verus!
