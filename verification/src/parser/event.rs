//! The event model: one structured fact per syntax construct, and the
//! ordered per-file collection of them.

use vstd::prelude::*;

verus! {

/// How a variable is accessed.
#[derive(Debug, Clone, Copy, PartialEq, Eq, Structural)]
pub enum AccessType {
    Read,
    Write,
    ReadWrite,
}

/// What a documentation comment documents.
#[derive(Debug, Clone, Copy, PartialEq, Eq, Structural)]
pub enum DocType {
    Function,
    Class,
    Module,
    Variable,
}

/// The shape of an ordinary comment.
#[derive(Debug, Clone, Copy, PartialEq, Eq, Structural)]
pub enum CommentType {
    Line,
    Block,
    Todo,
    Fixme,
}

/// One structured fact extracted from a syntax tree.  Every variant
/// carries a 1-indexed source line or line range.
#[allow(inconsistent_fields)]
#[derive(Debug, Clone, PartialEq)]
pub enum ParseEvent {
    FunctionDefinition {
        name: String,
        start_line: usize,
        end_line: usize,
        parameters: Vec<String>,
        return_type: Option<String>,
        is_public: bool,
    },
    ClassDefinition {
        name: String,
        start_line: usize,
        end_line: usize,
        fields: Vec<String>,
        is_public: bool,
    },
    VariableDefinition {
        name: String,
        var_type: Option<String>,
        line: usize,
        is_public: bool,
        is_constant: bool,
    },
    ImportStatement { module: String, items: Vec<String>, line: usize, is_wildcard: bool },
    ConditionalBlock {
        condition_type: String,
        condition_summary: Option<String>,
        start_line: usize,
        end_line: usize,
    },
    LoopBlock {
        loop_type: String,
        iterator_variable: Option<String>,
        iterable: Option<String>,
        start_line: usize,
        end_line: usize,
    },
    TryBlock { start_line: usize, end_line: usize, exception_types: Vec<String>, has_finally: bool },
    FunctionCall {
        caller_function: Option<String>,
        callee: String,
        line: usize,
        arguments: Vec<String>,
    },
    VariableAccess { variable: String, access_type: AccessType, line: usize, context: Option<String> },
    ClassInheritance { child_class: String, parent_classes: Vec<String>, line: usize },
    PythonDecorator { target: String, decorator: String, line: usize },
    PythonAsyncFunction { function_name: String, line: usize },
    PythonContextManager { variable: Option<String>, context_expression: String, line: usize },
    PythonListComprehension {
        result_expression: String,
        iterator_variable: String,
        iterable: String,
        line: usize,
    },
    DocComment { target: String, content: String, line: usize, doc_type: DocType },
    Comment { content: String, line: usize, comment_type: CommentType },
}

/// The mathematical reading of one `ParseEvent`.
#[allow(inconsistent_fields)]
pub enum EventView {
    FunctionDefinition {
        name: Seq<char>,
        start_line: int,
        end_line: int,
        parameters: Seq<Seq<char>>,
        return_type: Option<Seq<char>>,
        is_public: bool,
    },
    ClassDefinition {
        name: Seq<char>,
        start_line: int,
        end_line: int,
        fields: Seq<Seq<char>>,
        is_public: bool,
    },
    VariableDefinition {
        name: Seq<char>,
        var_type: Option<Seq<char>>,
        line: int,
        is_public: bool,
        is_constant: bool,
    },
    ImportStatement { module: Seq<char>, items: Seq<Seq<char>>, line: int, is_wildcard: bool },
    ConditionalBlock {
        condition_type: Seq<char>,
        condition_summary: Option<Seq<char>>,
        start_line: int,
        end_line: int,
    },
    LoopBlock {
        loop_type: Seq<char>,
        iterator_variable: Option<Seq<char>>,
        iterable: Option<Seq<char>>,
        start_line: int,
        end_line: int,
    },
    TryBlock { start_line: int, end_line: int, exception_types: Seq<Seq<char>>, has_finally: bool },
    FunctionCall {
        caller_function: Option<Seq<char>>,
        callee: Seq<char>,
        line: int,
        arguments: Seq<Seq<char>>,
    },
    VariableAccess {
        variable: Seq<char>,
        access_type: AccessType,
        line: int,
        context: Option<Seq<char>>,
    },
    ClassInheritance { child_class: Seq<char>, parent_classes: Seq<Seq<char>>, line: int },
    PythonDecorator { target: Seq<char>, decorator: Seq<char>, line: int },
    PythonAsyncFunction { function_name: Seq<char>, line: int },
    PythonContextManager { variable: Option<Seq<char>>, context_expression: Seq<char>, line: int },
    PythonListComprehension {
        result_expression: Seq<char>,
        iterator_variable: Seq<char>,
        iterable: Seq<char>,
        line: int,
    },
    DocComment { target: Seq<char>, content: Seq<char>, line: int, doc_type: DocType },
    Comment { content: Seq<char>, line: int, comment_type: CommentType },
}

/// The view of an optional owned string.
pub open spec fn opt_str_view(o: Option<String>) -> Option<Seq<char>> {
    match o {
        Some(s) => Some(s@),
        None => None,
    }
}

/// The views of a list of owned strings.
pub open spec fn strs_view(v: Seq<String>) -> Seq<Seq<char>> {
    v.map_values(|s: String| s@)
}

impl View for ParseEvent {
    type V = EventView;

    open spec fn view(&self) -> EventView {
        match self {
            ParseEvent::FunctionDefinition {
                name,
                start_line,
                end_line,
                parameters,
                return_type,
                is_public,
            } => EventView::FunctionDefinition {
                name: name@,
                start_line: *start_line as int,
                end_line: *end_line as int,
                parameters: strs_view(parameters@),
                return_type: opt_str_view(*return_type),
                is_public: *is_public,
            },
            ParseEvent::ClassDefinition { name, start_line, end_line, fields, is_public } => {
                EventView::ClassDefinition {
                    name: name@,
                    start_line: *start_line as int,
                    end_line: *end_line as int,
                    fields: strs_view(fields@),
                    is_public: *is_public,
                }
            },
            ParseEvent::VariableDefinition { name, var_type, line, is_public, is_constant } => {
                EventView::VariableDefinition {
                    name: name@,
                    var_type: opt_str_view(*var_type),
                    line: *line as int,
                    is_public: *is_public,
                    is_constant: *is_constant,
                }
            },
            ParseEvent::ImportStatement { module, items, line, is_wildcard } => {
                EventView::ImportStatement {
                    module: module@,
                    items: strs_view(items@),
                    line: *line as int,
                    is_wildcard: *is_wildcard,
                }
            },
            ParseEvent::ConditionalBlock {
                condition_type,
                condition_summary,
                start_line,
                end_line,
            } => EventView::ConditionalBlock {
                condition_type: condition_type@,
                condition_summary: opt_str_view(*condition_summary),
                start_line: *start_line as int,
                end_line: *end_line as int,
            },
            ParseEvent::LoopBlock {
                loop_type,
                iterator_variable,
                iterable,
                start_line,
                end_line,
            } => EventView::LoopBlock {
                loop_type: loop_type@,
                iterator_variable: opt_str_view(*iterator_variable),
                iterable: opt_str_view(*iterable),
                start_line: *start_line as int,
                end_line: *end_line as int,
            },
            ParseEvent::TryBlock { start_line, end_line, exception_types, has_finally } => {
                EventView::TryBlock {
                    start_line: *start_line as int,
                    end_line: *end_line as int,
                    exception_types: strs_view(exception_types@),
                    has_finally: *has_finally,
                }
            },
            ParseEvent::FunctionCall { caller_function, callee, line, arguments } => {
                EventView::FunctionCall {
                    caller_function: opt_str_view(*caller_function),
                    callee: callee@,
                    line: *line as int,
                    arguments: strs_view(arguments@),
                }
            },
            ParseEvent::VariableAccess { variable, access_type, line, context } => {
                EventView::VariableAccess {
                    variable: variable@,
                    access_type: *access_type,
                    line: *line as int,
                    context: opt_str_view(*context),
                }
            },
            ParseEvent::ClassInheritance { child_class, parent_classes, line } => {
                EventView::ClassInheritance {
                    child_class: child_class@,
                    parent_classes: strs_view(parent_classes@),
                    line: *line as int,
                }
            },
            ParseEvent::PythonDecorator { target, decorator, line } => {
                EventView::PythonDecorator {
                    target: target@,
                    decorator: decorator@,
                    line: *line as int,
                }
            },
            ParseEvent::PythonAsyncFunction { function_name, line } => {
                EventView::PythonAsyncFunction { function_name: function_name@, line: *line as int }
            },
            ParseEvent::PythonContextManager { variable, context_expression, line } => {
                EventView::PythonContextManager {
                    variable: opt_str_view(*variable),
                    context_expression: context_expression@,
                    line: *line as int,
                }
            },
            ParseEvent::PythonListComprehension {
                result_expression,
                iterator_variable,
                iterable,
                line,
            } => EventView::PythonListComprehension {
                result_expression: result_expression@,
                iterator_variable: iterator_variable@,
                iterable: iterable@,
                line: *line as int,
            },
            ParseEvent::DocComment { target, content, line, doc_type } => {
                EventView::DocComment {
                    target: target@,
                    content: content@,
                    line: *line as int,
                    doc_type: *doc_type,
                }
            },
            ParseEvent::Comment { content, line, comment_type } => {
                EventView::Comment {
                    content: content@,
                    line: *line as int,
                    comment_type: *comment_type,
                }
            },
        }
    }
}

/// The 1-indexed line (or start line) an event carries.
pub open spec fn spec_event_line(v: EventView) -> Option<int> {
    match v {
        EventView::FunctionDefinition { start_line, .. } => Some(start_line),
        EventView::ClassDefinition { start_line, .. } => Some(start_line),
        EventView::VariableDefinition { line, .. } => Some(line),
        EventView::ImportStatement { line, .. } => Some(line),
        EventView::ConditionalBlock { start_line, .. } => Some(start_line),
        EventView::LoopBlock { start_line, .. } => Some(start_line),
        EventView::TryBlock { start_line, .. } => Some(start_line),
        EventView::FunctionCall { line, .. } => Some(line),
        EventView::VariableAccess { line, .. } => Some(line),
        EventView::ClassInheritance { line, .. } => Some(line),
        EventView::PythonDecorator { line, .. } => Some(line),
        EventView::PythonAsyncFunction { line, .. } => Some(line),
        EventView::PythonContextManager { line, .. } => Some(line),
        EventView::PythonListComprehension { line, .. } => Some(line),
        EventView::DocComment { line, .. } => Some(line),
        EventView::Comment { line, .. } => Some(line),
    }
}

/// The events of one file for one parse pass, in extraction order, with
/// the file's path, language, source timestamp and parse timestamp.
pub struct FileEvents {
    pub file_path: String,
    pub events: Vec<ParseEvent>,
    pub language: String,
    pub last_modified: u128,
    pub parse_timestamp: u128,
}

/// The mathematical reading of a `FileEvents`.
pub struct FileEventsView {
    pub file_path: Seq<char>,
    pub events: Seq<EventView>,
    pub language: Seq<char>,
    pub last_modified: int,
    pub parse_timestamp: int,
}

impl View for FileEvents {
    type V = FileEventsView;

    open spec fn view(&self) -> FileEventsView {
        FileEventsView {
            file_path: self.file_path@,
            events: self.events@.map_values(|e: ParseEvent| e@),
            language: self.language@,
            last_modified: self.last_modified as int,
            parse_timestamp: self.parse_timestamp as int,
        }
    }
}

impl FileEvents {
    /// A fresh, empty collection for one parse pass; the parse timestamp
    /// is read from the system clock.
    pub fn new(file_path: String, language: String, last_modified: u128) -> (r: FileEvents)
        ensures
            r@.file_path == file_path@,
            r@.events == Seq::<EventView>::empty(),
            r@.language == language@,
            r@.last_modified == last_modified as int,
    {
        let r = FileEvents {
            file_path,
            events: Vec::new(),
            language,
            last_modified,
            parse_timestamp: crate::clock::now_nanos(),
        };
        proof {
            assert(r@.events =~= Seq::<EventView>::empty());
        }
        r
    }

    /// Append one event.
    pub fn add_event(&mut self, event: ParseEvent)
        ensures
            final(self)@.events == old(self)@.events.push(event@),
            final(self)@.file_path == old(self)@.file_path,
            final(self)@.language == old(self)@.language,
            final(self)@.last_modified == old(self)@.last_modified,
            final(self)@.parse_timestamp == old(self)@.parse_timestamp,
    {
        self.events.push(event);
        proof {
            assert(self@.events =~= old(self)@.events.push(event@));
        }
    }

    /// How many events were extracted.
    pub fn event_count(&self) -> (r: usize)
        ensures
            r == self@.events.len(),
    {
        self.events.len()
    }

    /// The function-definition events, in order.
    pub fn functions(&self) -> (r: Vec<&ParseEvent>)
        ensures
            ref_views(r@) == filtered_events(
                self@.events,
                (|v: EventView| v is FunctionDefinition),
            ),
    {
        let mut out: Vec<&ParseEvent> = Vec::new();
        let mut i: usize = 0;
        while i < self.events.len()
            invariant
                i <= self.events@.len(),
                ref_views(out@) == filtered_events(
                    self@.events.take(i as int),
                    (|v: EventView| v is FunctionDefinition),
                ),
            decreases self.events@.len() - i,
        {
            let ghost pre = out@;
            proof {
                assert(self@.events.take(i as int + 1).drop_last() =~= self@.events.take(i as int));
                assert(self@.events.take(i as int + 1).last() == self.events@[i as int]@);
            }
            if matches!(&self.events[i], ParseEvent::FunctionDefinition { .. }) {
                out.push(&self.events[i]);
                proof {
                    assert(ref_views(out@) =~= ref_views(pre).push(self.events@[i as int]@));
                }
            }
            i += 1;
        }
        proof {
            assert(self@.events.take(self.events@.len() as int) =~= self@.events);
        }
        out
    }

    /// The class-definition events, in order.
    pub fn classes(&self) -> (r: Vec<&ParseEvent>)
        ensures
            ref_views(r@) == filtered_events(self@.events, (|v: EventView| v is ClassDefinition)),
    {
        let mut out: Vec<&ParseEvent> = Vec::new();
        let mut i: usize = 0;
        while i < self.events.len()
            invariant
                i <= self.events@.len(),
                ref_views(out@) == filtered_events(
                    self@.events.take(i as int),
                    (|v: EventView| v is ClassDefinition),
                ),
            decreases self.events@.len() - i,
        {
            let ghost pre = out@;
            proof {
                assert(self@.events.take(i as int + 1).drop_last() =~= self@.events.take(i as int));
                assert(self@.events.take(i as int + 1).last() == self.events@[i as int]@);
            }
            if matches!(&self.events[i], ParseEvent::ClassDefinition { .. }) {
                out.push(&self.events[i]);
                proof {
                    assert(ref_views(out@) =~= ref_views(pre).push(self.events@[i as int]@));
                }
            }
            i += 1;
        }
        proof {
            assert(self@.events.take(self.events@.len() as int) =~= self@.events);
        }
        out
    }

    /// The import events, in order.
    pub fn imports(&self) -> (r: Vec<&ParseEvent>)
        ensures
            ref_views(r@) == filtered_events(self@.events, (|v: EventView| v is ImportStatement)),
    {
        let mut out: Vec<&ParseEvent> = Vec::new();
        let mut i: usize = 0;
        while i < self.events.len()
            invariant
                i <= self.events@.len(),
                ref_views(out@) == filtered_events(
                    self@.events.take(i as int),
                    (|v: EventView| v is ImportStatement),
                ),
            decreases self.events@.len() - i,
        {
            let ghost pre = out@;
            proof {
                assert(self@.events.take(i as int + 1).drop_last() =~= self@.events.take(i as int));
                assert(self@.events.take(i as int + 1).last() == self.events@[i as int]@);
            }
            if matches!(&self.events[i], ParseEvent::ImportStatement { .. }) {
                out.push(&self.events[i]);
                proof {
                    assert(ref_views(out@) =~= ref_views(pre).push(self.events@[i as int]@));
                }
            }
            i += 1;
        }
        proof {
            assert(self@.events.take(self.events@.len() as int) =~= self@.events);
        }
        out
    }

    /// The variable-definition events, in order.
    pub fn variables(&self) -> (r: Vec<&ParseEvent>)
        ensures
            ref_views(r@) == filtered_events(
                self@.events,
                (|v: EventView| v is VariableDefinition),
            ),
    {
        let mut out: Vec<&ParseEvent> = Vec::new();
        let mut i: usize = 0;
        while i < self.events.len()
            invariant
                i <= self.events@.len(),
                ref_views(out@) == filtered_events(
                    self@.events.take(i as int),
                    (|v: EventView| v is VariableDefinition),
                ),
            decreases self.events@.len() - i,
        {
            let ghost pre = out@;
            proof {
                assert(self@.events.take(i as int + 1).drop_last() =~= self@.events.take(i as int));
                assert(self@.events.take(i as int + 1).last() == self.events@[i as int]@);
            }
            if matches!(&self.events[i], ParseEvent::VariableDefinition { .. }) {
                out.push(&self.events[i]);
                proof {
                    assert(ref_views(out@) =~= ref_views(pre).push(self.events@[i as int]@));
                }
            }
            i += 1;
        }
        proof {
            assert(self@.events.take(self.events@.len() as int) =~= self@.events);
        }
        out
    }

    /// The function-call events, in order.
    pub fn function_calls(&self) -> (r: Vec<&ParseEvent>)
        ensures
            ref_views(r@) == filtered_events(self@.events, (|v: EventView| v is FunctionCall)),
    {
        let mut out: Vec<&ParseEvent> = Vec::new();
        let mut i: usize = 0;
        while i < self.events.len()
            invariant
                i <= self.events@.len(),
                ref_views(out@) == filtered_events(
                    self@.events.take(i as int),
                    (|v: EventView| v is FunctionCall),
                ),
            decreases self.events@.len() - i,
        {
            let ghost pre = out@;
            proof {
                assert(self@.events.take(i as int + 1).drop_last() =~= self@.events.take(i as int));
                assert(self@.events.take(i as int + 1).last() == self.events@[i as int]@);
            }
            if matches!(&self.events[i], ParseEvent::FunctionCall { .. }) {
                out.push(&self.events[i]);
                proof {
                    assert(ref_views(out@) =~= ref_views(pre).push(self.events@[i as int]@));
                }
            }
            i += 1;
        }
        proof {
            assert(self@.events.take(self.events@.len() as int) =~= self@.events);
        }
        out
    }

    /// The events carrying exactly line `line`, in order.
    pub fn events_by_line(&self, line: usize) -> (r: Vec<&ParseEvent>)
        ensures
            ref_views(r@) == filtered_events(
                self@.events,
                (|v: EventView| spec_event_line(v) == Some(line as int)),
            ),
    {
        let mut out: Vec<&ParseEvent> = Vec::new();
        let mut i: usize = 0;
        while i < self.events.len()
            invariant
                i <= self.events@.len(),
                ref_views(out@) == filtered_events(
                    self@.events.take(i as int),
                    (|v: EventView| spec_event_line(v) == Some(line as int)),
                ),
            decreases self.events@.len() - i,
        {
            let ghost pre = out@;
            proof {
                assert(self@.events.take(i as int + 1).drop_last() =~= self@.events.take(i as int));
                assert(self@.events.take(i as int + 1).last() == self.events@[i as int]@);
            }
            let hit = match self.event_line(&self.events[i]) {
                Some(k) => k == line,
                None => false,
            };
            if hit {
                out.push(&self.events[i]);
                proof {
                    assert(ref_views(out@) =~= ref_views(pre).push(self.events@[i as int]@));
                }
            }
            i += 1;
        }
        proof {
            assert(self@.events.take(self.events@.len() as int) =~= self@.events);
        }
        out
    }

    /// The events whose line lies in `start_line ..= end_line`, in order.
    pub fn events_in_range(&self, start_line: usize, end_line: usize) -> (r: Vec<&ParseEvent>)
        ensures
            ref_views(r@) == filtered_events(
                self@.events,
                (|v: EventView| match spec_event_line(v) {
                    Some(k) => start_line <= k && k <= end_line,
                    None => false,
                }),
            ),
    {
        let mut out: Vec<&ParseEvent> = Vec::new();
        let mut i: usize = 0;
        while i < self.events.len()
            invariant
                i <= self.events@.len(),
                ref_views(out@) == filtered_events(
                    self@.events.take(i as int),
                    (|v: EventView| match spec_event_line(v) {
                        Some(k) => start_line <= k && k <= end_line,
                        None => false,
                    }),
                ),
            decreases self.events@.len() - i,
        {
            let ghost pre = out@;
            proof {
                assert(self@.events.take(i as int + 1).drop_last() =~= self@.events.take(i as int));
                assert(self@.events.take(i as int + 1).last() == self.events@[i as int]@);
            }
            let hit = match self.event_line(&self.events[i]) {
                Some(k) => start_line <= k && k <= end_line,
                None => false,
            };
            if hit {
                out.push(&self.events[i]);
                proof {
                    assert(ref_views(out@) =~= ref_views(pre).push(self.events@[i as int]@));
                }
            }
            i += 1;
        }
        proof {
            assert(self@.events.take(self.events@.len() as int) =~= self@.events);
        }
        out
    }

    /// The line an event carries, as `spec_event_line` reads it.
    pub fn event_line(&self, event: &ParseEvent) -> (r: Option<usize>)
        ensures
            (match r {
                Some(k) => Some(k as int),
                None => None,
            }) == spec_event_line(event@),
    {
        match event {
            ParseEvent::FunctionDefinition { start_line, .. } => Some(*start_line),
            ParseEvent::ClassDefinition { start_line, .. } => Some(*start_line),
            ParseEvent::VariableDefinition { line, .. } => Some(*line),
            ParseEvent::ImportStatement { line, .. } => Some(*line),
            ParseEvent::ConditionalBlock { start_line, .. } => Some(*start_line),
            ParseEvent::LoopBlock { start_line, .. } => Some(*start_line),
            ParseEvent::TryBlock { start_line, .. } => Some(*start_line),
            ParseEvent::FunctionCall { line, .. } => Some(*line),
            ParseEvent::VariableAccess { line, .. } => Some(*line),
            ParseEvent::ClassInheritance { line, .. } => Some(*line),
            ParseEvent::PythonDecorator { line, .. } => Some(*line),
            ParseEvent::PythonAsyncFunction { line, .. } => Some(*line),
            ParseEvent::PythonContextManager { line, .. } => Some(*line),
            ParseEvent::PythonListComprehension { line, .. } => Some(*line),
            ParseEvent::DocComment { line, .. } => Some(*line),
            ParseEvent::Comment { line, .. } => Some(*line),
        }
    }
}

/// The events of `s` satisfying `pred`, in order.
pub open spec fn filtered_events(s: Seq<EventView>, pred: spec_fn(EventView) -> bool) -> Seq<
    EventView,
>
    decreases s.len(),
{
    if s.len() == 0 {
        Seq::empty()
    } else {
        let rest = filtered_events(s.drop_last(), pred);
        if pred(s.last()) {
            rest.push(s.last())
        } else {
            rest
        }
    }
}

/// The views of a list of borrowed events.
pub open spec fn ref_views(v: Seq<&ParseEvent>) -> Seq<EventView> {
    v.map_values(|e: &ParseEvent| e@)
}

/// `post` extends `pre` by exactly `added` events; everything else is
/// unchanged.
pub open spec fn events_extended(pre: FileEvents, post: FileEvents, added: Seq<EventView>) -> bool {
    &&& post@.events == pre@.events + added
    &&& post@.file_path == pre@.file_path
    &&& post@.language == pre@.language
    &&& post@.last_modified == pre@.last_modified
    &&& post@.parse_timestamp == pre@.parse_timestamp
}

} // verus!