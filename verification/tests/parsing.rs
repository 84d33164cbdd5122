use codeindex::parser::event::FileEvents;
use codeindex::parser::event::ParseEvent;
use codeindex::parser::language::LanguageParser;
use codeindex::parser::python::PythonParser;
use codeindex::parser::registry::LanguageParserRegistry;

#[test]
fn function_definition_extraction_is_exact() {
    let source = "def foo(a, b: int, c=1, d: int = 2):\n    pass\n";
    let events = PythonParser.parse_file(source, "t.py", 7).expect("parses");
    assert_eq!(events.file_path, "t.py");
    assert_eq!(events.language, "python");
    assert_eq!(events.last_modified, 7);
    assert_eq!(events.event_count(), 1);
    match &events.events[0] {
        ParseEvent::FunctionDefinition {
            name,
            start_line,
            end_line,
            parameters,
            return_type,
            is_public,
        } => {
            assert_eq!(name, "foo");
            assert_eq!(*start_line, 1);
            assert_eq!(*end_line, 2);
            assert_eq!(
                parameters,
                &vec![
                    "a".to_string(),
                    "b: int".to_string(),
                    "c = 1".to_string(),
                    "d: int = 2".to_string(),
                ],
            );
            assert_eq!(*return_type, None);
            assert!(*is_public);
        },
        other => panic!("expected a function definition, got {other:?}"),
    }
}

#[test]
fn return_type_and_visibility_are_extracted() {
    let source = "def _hidden(x) -> int:\n    return x\n";
    let events = PythonParser.parse_file(source, "t.py", 0).expect("parses");
    assert_eq!(events.event_count(), 1);
    match &events.events[0] {
        ParseEvent::FunctionDefinition { name, return_type, is_public, .. } => {
            assert_eq!(name, "_hidden");
            assert_eq!(return_type.as_deref(), Some("int"));
            assert!(!*is_public);
        },
        other => panic!("expected a function definition, got {other:?}"),
    }
}

#[test]
fn nested_functions_only_walk_the_body() {
    // The inner definition lives in the outer body, so both are reported;
    // nothing from the outer signature is re-derived.
    let source = "def outer(a):\n    def inner(b):\n        pass\n    return inner\n";
    let events = PythonParser.parse_file(source, "t.py", 0).expect("parses");
    let names: Vec<String> = events
        .events
        .iter()
        .map(|e| match e {
            ParseEvent::FunctionDefinition { name, .. } => name.clone(),
            other => panic!("unexpected event {other:?}"),
        })
        .collect();
    assert_eq!(names, vec!["outer".to_string(), "inner".to_string()]);
}

#[test]
fn unrecognized_kind_recurses_like_its_children() {
    // A class body is traversed through the default rule: walking the
    // module tree yields the same events as walking its children directly.
    let source = "class A:\n    def foo(self):\n        pass\n";
    let parser = PythonParser;
    let root = parser.parse_source(source).expect("parses");

    let mut whole = FileEvents::new("t.py".to_string(), "python".to_string(), 0);
    parser.walk_tree(&root, &mut whole);

    let mut by_children = FileEvents::new("t.py".to_string(), "python".to_string(), 0);
    for child in &root.children {
        parser.walk_tree(child, &mut by_children);
    }

    assert_eq!(whole.events, by_children.events);
    assert_eq!(whole.event_count(), 1);
    match &whole.events[0] {
        ParseEvent::FunctionDefinition { name, start_line, .. } => {
            assert_eq!(name, "foo");
            assert_eq!(*start_line, 2);
        },
        other => panic!("expected a function definition, got {other:?}"),
    }
}

#[test]
fn empty_source_yields_no_events() {
    let events = PythonParser.parse_file("", "t.py", 0).expect("parses");
    assert_eq!(events.event_count(), 0);
}

#[test]
fn parse_timestamp_is_read_from_the_clock() {
    let events = PythonParser.parse_file("x = 1\n", "t.py", 0).expect("parses");
    assert!(events.parse_timestamp > 0);
}

#[test]
fn plugin_reports_language_and_extensions() {
    assert_eq!(PythonParser.language_name(), "python");
    let exts = PythonParser.file_extensions();
    assert_eq!(exts, vec!["py".to_string(), "pyw".to_string(), "pyi".to_string()]);
}

#[test]
fn registry_selects_by_extension() {
    let registry = LanguageParserRegistry::new();
    assert!(registry.get_parser_for_file("a.py").is_some());
    assert!(registry.get_parser_for_file("a.pyw").is_some());
    assert!(registry.get_parser_for_file("stubs/a.pyi").is_some());
    assert!(registry.get_parser_for_file("a.txt").is_none());
    assert!(registry.get_parser_for_file("no_extension").is_none());
}

#[test]
fn registry_parse_returns_none_without_a_parser() {
    let registry = LanguageParserRegistry::new();
    let outcome = registry.parse_file("notes.txt", "plain text", 0).expect("no error");
    assert!(outcome.is_none());
}

#[test]
fn registry_parse_delegates_to_the_plugin() {
    let registry = LanguageParserRegistry::new();
    let outcome = registry
        .parse_file("m.py", "def f():\n    pass\n", 3)
        .expect("no error")
        .expect("a parser is registered for py");
    assert_eq!(outcome.language, "python");
    assert_eq!(outcome.last_modified, 3);
    assert_eq!(outcome.event_count(), 1);
}

#[test]
fn query_methods_filter_by_variant_and_line() {
    let source = "def a():\n    pass\n\ndef b():\n    pass\n";
    let events = PythonParser.parse_file(source, "t.py", 0).expect("parses");
    assert_eq!(events.functions().len(), 2);
    assert_eq!(events.classes().len(), 0);
    assert_eq!(events.imports().len(), 0);
    assert_eq!(events.variables().len(), 0);
    assert_eq!(events.function_calls().len(), 0);
    assert_eq!(events.events_by_line(1).len(), 1);
    assert_eq!(events.events_by_line(2).len(), 0);
    assert_eq!(events.events_in_range(1, 4).len(), 2);
    assert_eq!(events.events_in_range(2, 3).len(), 0);
}

#[test]
fn add_event_appends_in_order() {
    let mut events = FileEvents::new("t.py".to_string(), "python".to_string(), 0);
    events.add_event(ParseEvent::Comment {
        content: "note".to_string(),
        line: 3,
        comment_type: codeindex::parser::event::CommentType::Line,
    });
    assert_eq!(events.event_count(), 1);
    assert_eq!(events.event_line(&events.events[0]), Some(3));
}
