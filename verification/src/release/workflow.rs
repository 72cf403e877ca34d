//! The vocabulary shared by the release workflows: what a workflow asks its
//! caller to do, and what the caller reports back.
use vstd::prelude::*;

use crate::release::error::{XtaskError, XtaskErrorView};
use crate::release::version::Version;

verus! {

/// What the caller must do next.
#[derive(Debug)]
pub enum Action {
    /// Run `program` with `arguments` in the repository root and report its
    /// standard output.
    Run {
        /// The program to run.
        program: String,
        /// Its arguments.
        arguments: Vec<String>,
    },
    /// Read a file of the repository root and report its contents.
    Read {
        /// The file name.
        file: String,
    },
    /// Write `contents` to a file of the repository root and report that it
    /// was written.
    Write {
        /// The file name.
        file: String,
        /// The new contents.
        contents: String,
    },
    /// The workflow is over, with this outcome.
    Finish(Result<Version, XtaskError>),
}

/// What the caller observed after performing an action successfully. A
/// failed command or file operation ends the workflow with that failure,
/// without a further step.
#[derive(Debug)]
pub enum Event {
    /// The standard output of the command that was run.
    Output(String),
    /// The contents of the file that was read.
    Contents(String),
    /// The file was written.
    Written,
}

/// The mathematical content of an [`Action`].
pub ghost enum ActionView {
    Run { program: Seq<char>, arguments: Seq<Seq<char>> },
    Read { file: Seq<char> },
    Write { file: Seq<char>, contents: Seq<char> },
    Finish(Result<(nat, nat, nat), XtaskErrorView>),
}

/// The mathematical content of an [`Event`].
pub ghost enum EventView {
    Output(Seq<char>),
    Contents(Seq<char>),
    Written,
}

/// The texts of a list of strings.
pub open spec fn string_texts(v: Seq<String>) -> Seq<Seq<char>> {
    v.map_values(|s: String| s@)
}

impl View for Action {
    type V = ActionView;

    open spec fn view(&self) -> ActionView {
        match self {
            Action::Run { program, arguments } => ActionView::Run {
                program: program@,
                arguments: string_texts(arguments@),
            },
            Action::Read { file } => ActionView::Read { file: file@ },
            Action::Write { file, contents } => ActionView::Write { file: file@, contents: contents@ },
            Action::Finish(outcome) => ActionView::Finish(
                match outcome {
                    Ok(v) => Ok(v@),
                    Err(e) => Err(e@),
                },
            ),
        }
    }
}

impl View for Event {
    type V = EventView;

    open spec fn view(&self) -> EventView {
        match self {
            Event::Output(text) => EventView::Output(text@),
            Event::Contents(text) => EventView::Contents(text@),
            Event::Written => EventView::Written,
        }
    }
}

/// The text an event carries: the output or the contents, and nothing for a
/// write.
pub open spec fn event_text(e: EventView) -> Seq<char> {
    match e {
        EventView::Output(t) => t,
        EventView::Contents(t) => t,
        EventView::Written => Seq::empty(),
    }
}

impl Event {
    /// The text the event carries.
    pub fn text(&self) -> (s: String)
        ensures
            s@ == event_text(self@),
    {
        match self {
            Event::Output(t) => t.clone(),
            Event::Contents(t) => t.clone(),
            Event::Written => String::new(),
        }
    }
}

/// A list of strings from literals.
pub fn strings(items: &[&str]) -> (v: Vec<String>)
    ensures
        string_texts(v@) == items@.map_values(|s: &str| s@),
{
    let mut v: Vec<String> = Vec::new();
    let mut i: usize = 0;
    while i < items.len()
        invariant
            i <= items.len(),
            v@.len() == i,
            forall|k: int| 0 <= k < i ==> (#[trigger] v@[k])@ == items@[k]@,
        decreases items.len() - i,
    {
        v.push(items[i].to_owned());
        i = i + 1;
    }
    assert(string_texts(v@) =~= items@.map_values(|s: &str| s@));
    v
}

/// An action that runs `program` with literal arguments.
pub fn run(program: &str, arguments: &[&str]) -> (a: Action)
    ensures
        a@ == (ActionView::Run { program: program@, arguments: arguments@.map_values(|s: &str| s@) }),
{
    Action::Run { program: program.to_owned(), arguments: strings(arguments) }
}

} // verus!
