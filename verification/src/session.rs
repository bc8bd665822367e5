//! The state behind the window: the raw text, the parsed document, the
//! status message and the two query fields, and what each button does to
//! them.

use crate::cache::LayoutCache;
use crate::tree::{render_document, rendered, root_path, Node};
use crate::text::result_view;
use crate::value::{
    print_document, print_outcome, read_document, read_outcome, value_tree, Reading, ReadingView,
};
use vstd::prelude::*;
use vstd::string::StringExecFns;

verus! {

/// The state of one window.
pub struct JsonFormatterApp {
    /// The raw text in the editor.
    pub input_json: String,
    /// The document that the tree shows, if any.
    pub parsed_json_value: Option<serde_json::Value>,
    /// The status message, if any.
    pub error_message: Option<String>,
    /// What is searched for in the tree.
    pub search_query: String,
    /// The query for the filter tool.
    pub jq_query_input: String,
    /// The colouring of the raw text that was computed last.
    pub layout_cache: LayoutCache,
}

/// The mathematical form of a [`JsonFormatterApp`].
pub struct AppView {
    pub input_json: Seq<char>,
    pub parsed_json_value: Option<serde_json::Value>,
    pub error_message: Option<Seq<char>>,
    pub search_query: Seq<char>,
    pub jq_query_input: Seq<char>,
    pub remembered: Option<Seq<char>>,
}

/// The view of a text that may be absent.
pub open spec fn text_view(text: Option<String>) -> Option<Seq<char>> {
    match text {
        Some(text) => Some(text@),
        None => None,
    }
}

impl View for JsonFormatterApp {
    type V = AppView;

    open spec fn view(&self) -> AppView {
        AppView {
            input_json: self.input_json@,
            parsed_json_value: self.parsed_json_value,
            error_message: text_view(self.error_message),
            search_query: self.search_query@,
            jq_query_input: self.jq_query_input@,
            remembered: self.layout_cache.remembered(),
        }
    }
}

/// What the filter tool is to be run on.
#[derive(Debug, PartialEq, Eq)]
pub struct FilterRequest {
    /// The raw text, handed to the tool on its input.
    pub json_input: String,
    /// The query, handed to the tool as its one argument.
    pub query: String,
}

/// What the window tells the state.
#[derive(Debug, PartialEq, Eq)]
pub enum Event {
    /// The button that formats the raw text.
    Format,
    /// The button that copies the formatted document.
    CopyFormatted,
    /// The button that clears the search field.
    ClearSearch,
    /// The button that runs the filter tool.
    RunFilter,
    /// The filter tool has run: its output, or why there is none.
    FilterFinished { result: Result<String, String> },
    /// The button that clears the filter field.
    ClearFilter,
}

/// What the state asks the window to do.
#[derive(Debug, PartialEq, Eq)]
pub enum Action {
    /// Nothing.
    Idle,
    /// Put this text on the clipboard.
    Copy { text: String },
    /// Run the filter tool, and come back with `Event::FilterFinished`.
    Filter { request: FilterRequest },
}

/// The mathematical form of an [`Action`].
pub enum ActionView {
    Idle,
    Copy { text: Seq<char> },
    Filter { json_input: Seq<char>, query: Seq<char> },
}

impl View for Action {
    type V = ActionView;

    open spec fn view(&self) -> ActionView {
        match self {
            Action::Idle => ActionView::Idle,
            Action::Copy { text } => ActionView::Copy { text: text@ },
            Action::Filter { request } => ActionView::Filter {
                json_input: request.json_input@,
                query: request.query@,
            },
        }
    }
}

/// The state after the raw text was formatted, given what reading it came
/// to: a document replaces the raw text by its printed form and is shown;
/// anything else leaves no document and gives the status message.
pub open spec fn after_format(before: AppView, reading: ReadingView) -> AppView {
    match reading {
        ReadingView::Document { value, pretty } => AppView {
            input_json: pretty,
            parsed_json_value: Some(value),
            error_message: None,
            ..before
        },
        ReadingView::Unprintable { message } => AppView {
            parsed_json_value: None,
            error_message: Some(message),
            ..before
        },
        ReadingView::Invalid { message } => AppView {
            parsed_json_value: None,
            error_message: Some(message),
            ..before
        },
    }
}

/// The state after a text other than the editor's was read for the tree: a
/// document is shown and the raw text stays; a text that is not JSON leaves
/// no document.
pub open spec fn after_reading(before: AppView, reading: ReadingView) -> AppView {
    match reading {
        ReadingView::Document { value, pretty } => AppView {
            parsed_json_value: Some(value),
            ..before
        },
        ReadingView::Unprintable { message } => AppView { error_message: Some(message), ..before },
        ReadingView::Invalid { message } => AppView {
            parsed_json_value: None,
            error_message: Some(message),
            ..before
        },
    }
}

/// The message for a document that could not be printed for the clipboard.
pub open spec fn unserializable_json(cause: Seq<char>) -> Seq<char> {
    "Error serializing JSON: "@ + cause
}

/// The state and the action after the copy button, given what printing the
/// document came to, if there is a document.
pub open spec fn after_copy(before: AppView, printed: Option<Result<Seq<char>, Seq<char>>>) -> (
    AppView,
    ActionView,
) {
    match printed {
        Some(Ok(text)) => (before, ActionView::Copy { text }),
        Some(Err(cause)) => (
            AppView { error_message: Some(unserializable_json(cause)), ..before },
            ActionView::Idle,
        ),
        None => (before, ActionView::Idle),
    }
}

/// The message for a run of the filter tool that gave no output.
pub open spec fn filter_failure(cause: Seq<char>) -> Seq<char> {
    "Error : "@ + cause
}

/// The status message where there is no raw text to filter.
pub open spec fn no_input_message() -> Seq<char> {
    "No JSON input provided to run JQ against."@
}

/// The status message where there is no query to filter by.
pub open spec fn no_query_message() -> Seq<char> {
    "JQ query field cannot be empty."@
}

/// The state and the action after the run button: the filter tool is asked
/// for where there is both raw text and a query.
pub open spec fn after_run(before: AppView) -> (AppView, ActionView) {
    if before.input_json.len() == 0 {
        (AppView { error_message: Some(no_input_message()), ..before }, ActionView::Idle)
    } else if before.jq_query_input.len() == 0 {
        (AppView { error_message: Some(no_query_message()), ..before }, ActionView::Idle)
    } else {
        (
            before,
            ActionView::Filter { json_input: before.input_json, query: before.jq_query_input },
        )
    }
}

/// The state after the filter tool has run, given what reading its output
/// came to, or why there is no output. A run without output changes the
/// status message and nothing else.
pub open spec fn after_filter(before: AppView, outcome: Result<ReadingView, Seq<char>>) -> AppView {
    match outcome {
        Ok(reading) => after_reading(before, reading),
        Err(cause) => AppView { error_message: Some(filter_failure(cause)), ..before },
    }
}

/// What reading the tool's output comes to, where there is output.
pub open spec fn filter_reading(result: Result<Seq<char>, Seq<char>>) -> Result<
    ReadingView,
    Seq<char>,
> {
    match result {
        Ok(output) => Ok(read_outcome(output)),
        Err(cause) => Err(cause),
    }
}

/// The state after the filter field was cleared, given what reading the raw
/// text came to.
pub open spec fn after_clear_filter(before: AppView, reading: ReadingView) -> AppView {
    after_reading(AppView { jq_query_input: Seq::empty(), ..before }, reading)
}

/// The state after the search field was cleared.
pub open spec fn after_clear_search(before: AppView) -> AppView {
    AppView { search_query: Seq::empty(), ..before }
}

/// What printing the shown document comes to, if one is shown.
pub open spec fn copy_printing(before: AppView) -> Option<Result<Seq<char>, Seq<char>>> {
    match before.parsed_json_value {
        Some(value) => Some(print_outcome(value)),
        None => None,
    }
}

/// The state and the action after an event.
pub open spec fn after_event(before: AppView, event: Event) -> (AppView, ActionView) {
    match event {
        Event::Format => (after_format(before, read_outcome(before.input_json)), ActionView::Idle),
        Event::CopyFormatted => after_copy(before, copy_printing(before)),
        Event::ClearSearch => (after_clear_search(before), ActionView::Idle),
        Event::RunFilter => after_run(before),
        Event::FilterFinished { result } => (
            after_filter(before, filter_reading(result_view(result))),
            ActionView::Idle,
        ),
        Event::ClearFilter => (
            after_clear_filter(before, read_outcome(before.input_json)),
            ActionView::Idle,
        ),
    }
}

/// Formatting settles: where reading the printed text gives the same document
/// printed the same way, formatting once more changes nothing.
pub proof fn lemma_format_settles(before: AppView, first: ReadingView, second: ReadingView)
    requires
        first is Document,
        second == first,
    ensures
        after_format(after_format(before, first), second) == after_format(before, first),
{
}

/// A run of the filter tool without output leaves the document, the raw text
/// and both query fields as they are.
pub proof fn lemma_failed_filter_keeps_tree(before: AppView, cause: Seq<char>)
    ensures
        after_filter(before, Err(cause)) == (AppView {
            error_message: Some(filter_failure(cause)),
            ..before
        }),
        after_filter(before, Err(cause)).parsed_json_value == before.parsed_json_value,
{
}

/// Clearing the filter field shows the document of the raw text: where that
/// is the document already shown, the tree stays as it is.
pub proof fn lemma_clear_filter_keeps_tree(before: AppView, reading: ReadingView)
    requires
        reading matches ReadingView::Document { value, .. } && before.parsed_json_value == Some(
            value,
        ),
    ensures
        after_clear_filter(before, reading).parsed_json_value == before.parsed_json_value,
        after_clear_filter(before, reading).input_json == before.input_json,
{
}

/// The fewest rows that the editor is given.
pub const MIN_EDITOR_ROWS: usize = 50;

/// The rows of the editor, given how many fit into the height of the window.
pub fn desired_rows(calculated_rows: usize) -> (rows: usize)
    ensures
        rows == if calculated_rows < MIN_EDITOR_ROWS {
            MIN_EDITOR_ROWS
        } else {
            calculated_rows
        },
{
    if calculated_rows < MIN_EDITOR_ROWS {
        MIN_EDITOR_ROWS
    } else {
        calculated_rows
    }
}

/// A window as it opens.
pub open spec fn initial() -> AppView {
    AppView {
        input_json: Seq::empty(),
        parsed_json_value: None,
        error_message: None,
        search_query: Seq::empty(),
        jq_query_input: Seq::empty(),
        remembered: None,
    }
}

impl Default for JsonFormatterApp {
    fn default() -> (app: JsonFormatterApp)
        ensures
            app@ == initial(),
    {
        JsonFormatterApp::new()
    }
}

impl JsonFormatterApp {
    /// A window with no text, no document and no message.
    pub fn new() -> (app: JsonFormatterApp)
        ensures
            app@ == initial(),
    {
        JsonFormatterApp {
            input_json: String::new(),
            parsed_json_value: None,
            error_message: None,
            search_query: String::new(),
            jq_query_input: String::new(),
            layout_cache: LayoutCache::new(),
        }
    }

    /// Takes in what reading the raw text came to, after the format button.
    pub fn apply_format(&mut self, reading: Reading)
        ensures
            final(self)@ == after_format(old(self)@, reading@),
    {
        match reading {
            Reading::Document { value, pretty } => {
                self.input_json = pretty;
                self.parsed_json_value = Some(value);
                self.error_message = None;
            },
            Reading::Unprintable { message } => {
                self.parsed_json_value = None;
                self.error_message = Some(message);
            },
            Reading::Invalid { message } => {
                self.parsed_json_value = None;
                self.error_message = Some(message);
            },
        }
    }

    /// The format button: reads the raw text, and on success replaces it by
    /// the document's printed form and shows the document.
    pub fn format(&mut self)
        ensures
            final(self)@ == after_format(old(self)@, read_outcome(old(self)@.input_json)),
    {
        let reading = read_document(self.input_json.as_str());
        self.apply_format(reading);
    }

    /// Takes in what reading a text other than the editor's came to.
    pub fn apply_reading(&mut self, reading: Reading)
        ensures
            final(self)@ == after_reading(old(self)@, reading@),
    {
        match reading {
            Reading::Document { value, pretty } => {
                self.parsed_json_value = Some(value);
            },
            Reading::Unprintable { message } => {
                self.error_message = Some(message);
            },
            Reading::Invalid { message } => {
                self.parsed_json_value = None;
                self.error_message = Some(message);
            },
        }
    }

    /// Takes in what printing the shown document came to, after the copy
    /// button.
    pub fn apply_copy(&mut self, printed: Option<Result<String, String>>) -> (action: Action)
        ensures
            (final(self)@, action@) == after_copy(
                old(self)@,
                match printed {
                    Some(printed) => Some(result_view(printed)),
                    None => None,
                },
            ),
    {
        match printed {
            Some(Ok(text)) => Action::Copy { text },
            Some(Err(cause)) => {
                let mut message = String::from_str("Error serializing JSON: ");
                message.append(cause.as_str());
                self.error_message = Some(message);
                Action::Idle
            },
            None => Action::Idle,
        }
    }

    /// The copy button: prints the shown document for the clipboard.
    pub fn copy_formatted(&mut self) -> (action: Action)
        ensures
            (final(self)@, action@) == after_copy(old(self)@, copy_printing(old(self)@)),
    {
        let printed = match &self.parsed_json_value {
            Some(value) => Some(print_document(value)),
            None => None,
        };
        self.apply_copy(printed)
    }

    /// The button that clears the search field.
    pub fn clear_search(&mut self)
        ensures
            final(self)@ == after_clear_search(old(self)@),
    {
        self.search_query = String::new();
    }

    /// The run button: asks for a run of the filter tool on the raw text,
    /// unless the raw text or the query is missing.
    pub fn run_filter(&mut self) -> (action: Action)
        ensures
            (final(self)@, action@) == after_run(old(self)@),
    {
        if self.input_json.as_str().is_empty() {
            self.error_message = Some(String::from_str("No JSON input provided to run JQ against."));
            Action::Idle
        } else if self.jq_query_input.as_str().is_empty() {
            self.error_message = Some(String::from_str("JQ query field cannot be empty."));
            Action::Idle
        } else {
            Action::Filter {
                request: FilterRequest {
                    json_input: self.input_json.clone(),
                    query: self.jq_query_input.clone(),
                },
            }
        }
    }

    /// Takes in what a run of the filter tool came to: what reading its
    /// output came to, or why there is no output.
    pub fn apply_filter(&mut self, outcome: Result<Reading, String>)
        ensures
            final(self)@ == after_filter(
                old(self)@,
                match outcome {
                    Ok(reading) => Ok(reading@),
                    Err(cause) => Err(cause@),
                },
            ),
            outcome is Err ==> final(self).parsed_json_value == old(self).parsed_json_value,
    {
        match outcome {
            Ok(reading) => self.apply_reading(reading),
            Err(cause) => {
                let mut message = String::from_str("Error : ");
                message.append(cause.as_str());
                self.error_message = Some(message);
            },
        }
    }

    /// The filter tool has run: its output is read and shown in place of the
    /// document; the raw text stays as it is.
    pub fn finish_filter(&mut self, result: Result<String, String>)
        ensures
            final(self)@ == after_filter(old(self)@, filter_reading(result_view(result))),
            result is Err ==> final(self).parsed_json_value == old(self).parsed_json_value,
    {
        let outcome = match result {
            Ok(output) => Ok(read_document(output.as_str())),
            Err(cause) => Err(cause),
        };
        self.apply_filter(outcome);
    }

    /// Takes in what reading the raw text came to, after the button that
    /// clears the filter field.
    pub fn apply_clear_filter(&mut self, reading: Reading)
        ensures
            final(self)@ == after_clear_filter(old(self)@, reading@),
    {
        self.jq_query_input = String::new();
        self.apply_reading(reading);
    }

    /// The button that clears the filter field: the tree shows the raw text
    /// again.
    pub fn clear_filter(&mut self)
        ensures
            final(self)@ == after_clear_filter(old(self)@, read_outcome(old(self)@.input_json)),
    {
        let reading = read_document(self.input_json.as_str());
        self.apply_clear_filter(reading);
    }

    /// One step of the window: takes an event and says what is to be done.
    pub fn update(&mut self, event: Event) -> (action: Action)
        ensures
            (final(self)@, action@) == after_event(old(self)@, event),
    {
        match event {
            Event::Format => {
                self.format();
                Action::Idle
            },
            Event::CopyFormatted => self.copy_formatted(),
            Event::ClearSearch => {
                self.clear_search();
                Action::Idle
            },
            Event::RunFilter => self.run_filter(),
            Event::FilterFinished { result } => {
                self.finish_filter(result);
                Action::Idle
            },
            Event::ClearFilter => {
                self.clear_filter();
                Action::Idle
            },
        }
    }

    /// What the tree shows: nothing where there is no document.
    pub fn render_tree(&self) -> (tree: Option<Node>)
        ensures
            match self.parsed_json_value {
                Some(value) => tree matches Some(node) && node@ == rendered(
                    None,
                    value_tree(value),
                    root_path(),
                    self.search_query@,
                ),
                None => tree is None,
            },
    {
        match &self.parsed_json_value {
            Some(value) => Some(render_document(value, self.search_query.as_str())),
            None => None,
        }
    }
}

} // verus!
