//! A single task: a title and a description.
use vstd::prelude::*;
use vstd::string::*;

verus! {

/// The mathematical value of a [`Task`].
pub ghost struct TaskView {
    pub title: Seq<char>,
    pub description: Seq<char>,
}

/// A task of the to-do list. Two tasks are equal when their titles are
/// equal; the description plays no part in equality.
#[derive(Debug, Clone, Default)]
pub struct Task {
    title: String,
    description: String,
}

impl View for Task {
    type V = TaskView;

    closed spec fn view(&self) -> TaskView {
        TaskView { title: self.title@, description: self.description@ }
    }
}

impl Task {
    /// Creates a task holding both strings verbatim.
    pub fn new(title: &str, description: &str) -> (r: Task)
        ensures
            r@ == (TaskView { title: title@, description: description@ }),
    {
        Task { title: title.to_owned(), description: description.to_owned() }
    }

    /// The task's title.
    pub fn title(&self) -> (r: &str)
        ensures
            r@ == self@.title,
    {
        self.title.as_str()
    }

    /// The task's description.
    pub fn description(&self) -> (r: &str)
        ensures
            r@ == self@.description,
    {
        self.description.as_str()
    }

    /// A new task with the same title and description as this one.
    pub fn duplicate(&self) -> (r: Task)
        ensures
            r@ == self@,
    {
        Task::new(self.title(), self.description())
    }

    /// The two-line text form: the title, then the description after a
    /// `Description:` line.
    pub fn render(&self) -> (r: String)
        ensures
            r@ == render_task(self@),
    {
        let mut s = String::from_str(self.title());
        s.append(" \nDescription: \n");
        s.append(self.description());
        s
    }
}

/// The text form of a task, as [`Task::render`] produces it.
pub open spec fn render_task(t: TaskView) -> Seq<char> {
    t.title + " \nDescription: \n"@ + t.description
}

impl PartialEq for Task {
    fn eq(&self, other: &Task) -> (r: bool)
        ensures
            r == (self@.title == other@.title),
    {
        self.title == other.title
    }
}

impl vstd::std_specs::cmp::PartialEqSpecImpl for Task {
    open spec fn obeys_eq_spec() -> bool {
        true
    }

    open spec fn eq_spec(&self, other: &Task) -> bool {
        self@.title == other@.title
    }
}

} // verus!
