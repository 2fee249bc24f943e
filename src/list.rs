//! The to-do list: a pending sequence and a done sequence of tasks.
use vstd::prelude::*;
use vstd::string::*;
use crate::task::{Task, TaskView, render_task};
use crate::save_text::{LoadError, load_outcome, read_text, saved_text, write_text};

verus! {

/// The mathematical value of a [`ToDoList`].
pub ghost struct ListView {
    pub pending: Seq<TaskView>,
    pub done: Seq<TaskView>,
}

/// Why an index-based change of the pending sequence was refused.
#[derive(Debug, Clone, Copy, PartialEq, Eq, Structural)]
pub enum ListError {
    /// The pending sequence holds no task.
    EmptyList,
    /// `index` is not below `len`, the length of the pending sequence.
    IndexOutOfRange { index: usize, len: usize },
}

/// A to-do list, split into pending and done tasks, each in its own order.
#[derive(Debug, Clone, Default)]
pub struct ToDoList {
    tasks: Vec<Task>,
    done: Vec<Task>,
}

/// The values of a sequence of tasks.
pub open spec fn task_views(ts: Seq<Task>) -> Seq<TaskView> {
    ts.map_values(|t: Task| t@)
}

impl View for ToDoList {
    type V = ListView;

    closed spec fn view(&self) -> ListView {
        ListView { pending: task_views(self.tasks@), done: task_views(self.done@) }
    }
}

/// The outcome of checking `index` against a pending sequence of length `len`:
/// an empty sequence comes first, then an index past its end.
pub open spec fn check_index(len: nat, index: usize) -> Result<(), ListError> {
    if len == 0 {
        Err(ListError::EmptyList)
    } else if index >= len {
        Err(ListError::IndexOutOfRange { index, len: len as usize })
    } else {
        Ok(())
    }
}

/// The list after the pending task at `index` moved to the end of `done`.
pub open spec fn completed(l: ListView, index: int) -> ListView {
    ListView { pending: l.pending.remove(index), done: l.done.push(l.pending[index]) }
}

/// The list after the pending task at `index` was dropped.
pub open spec fn removed(l: ListView, index: int) -> ListView {
    ListView { pending: l.pending.remove(index), done: l.done }
}

/// Completing the only pending task succeeds, empties the pending sequence
/// and puts that task at the end of the done sequence.
pub proof fn lemma_complete_only_task(l: ListView)
    requires
        l.pending.len() == 1,
    ensures
        check_index(l.pending.len(), 0) == Ok::<(), ListError>(()),
        completed(l, 0).pending == Seq::<TaskView>::empty(),
        completed(l, 0).done == l.done.push(l.pending[0]),
{
    assert(completed(l, 0).pending =~= Seq::<TaskView>::empty());
}

/// On a non-empty pending sequence, an index at or past its end is refused
/// as out of range (and the list is then left as it was).
pub proof fn lemma_index_past_end(l: ListView, index: usize)
    requires
        l.pending.len() > 0,
        index >= l.pending.len(),
    ensures
        check_index(l.pending.len(), index) == Err::<(), ListError>(
            ListError::IndexOutOfRange { index, len: l.pending.len() as usize },
        ),
{
}

/// On an empty pending sequence every index is refused as an empty list
/// (and the list is then left as it was).
pub proof fn lemma_empty_list_refuses(l: ListView, index: usize)
    requires
        l.pending.len() == 0,
    ensures
        check_index(l.pending.len(), index) == Err::<(), ListError>(ListError::EmptyList),
{
}

/// The decimal digits of `n`, most significant first.
pub open spec fn decimal(n: nat) -> Seq<char>
    decreases n,
{
    if n < 10 {
        seq!["0123456789"@[n as int]]
    } else {
        decimal(n / 10) + seq!["0123456789"@[(n % 10) as int]]
    }
}

/// Tasks numbered from 1, each as its number, a dot, and its text form.
pub open spec fn render_numbered(ts: Seq<TaskView>) -> Seq<char>
    decreases ts.len(),
{
    if ts.len() == 0 {
        seq![]
    } else {
        render_numbered(ts.drop_last()) + decimal(ts.len()) + ".\n"@ + render_task(ts.last())
            + "\n"@
    }
}

/// One section of the listing: a header, then `Empty` or the numbered tasks.
pub open spec fn render_section(header: Seq<char>, ts: Seq<TaskView>) -> Seq<char> {
    header + if ts.len() == 0 {
        "Empty\n"@
    } else {
        render_numbered(ts)
    }
}

/// The human-readable listing of a whole list.
pub open spec fn render_list(l: ListView) -> Seq<char> {
    render_section("Tasks: \n"@, l.pending) + render_section("Done: \n"@, l.done)
}

/// Appends the decimal digits of `n` to `s`.
fn push_decimal(s: &mut String, n: usize)
    ensures
        final(s)@ == old(s)@ + decimal(n as nat),
    decreases n,
{
    let digits = "0123456789";
    proof {
        reveal_strlit("0123456789");
    }
    if n >= 10 {
        push_decimal(s, n / 10);
    }
    let d = n % 10;
    let digit = digits.substring_char(d, d + 1);
    assert(digit@ =~= seq!["0123456789"@[d as int]]);
    s.append(digit);
    assert(final(s)@ =~= old(s)@ + decimal(n as nat));
}

/// A new vector holding tasks equal in both fields to those of `ts`.
fn duplicate_all(ts: &Vec<Task>) -> (r: Vec<Task>)
    ensures
        task_views(r@) == task_views(ts@),
{
    let mut r: Vec<Task> = Vec::new();
    let mut i: usize = 0;
    while i < ts.len()
        invariant
            i <= ts@.len(),
            task_views(r@) =~= task_views(ts@.subrange(0, i as int)),
        decreases ts@.len() - i,
    {
        let ghost prev = r@;
        let t = ts[i].duplicate();
        r.push(t);
        assert(task_views(r@) =~= task_views(prev).push(ts@[i as int]@));
        assert(ts@.subrange(0, i + 1) =~= ts@.subrange(0, i as int).push(ts@[i as int]));
        i = i + 1;
    }
    assert(ts@.subrange(0, i as int) =~= ts@);
    r
}

/// Appends one section of the listing to `s`.
fn push_section(s: &mut String, header: &str, ts: &Vec<Task>)
    ensures
        final(s)@ == old(s)@ + render_section(header@, task_views(ts@)),
{
    s.append(header);
    if ts.len() == 0 {
        s.append("Empty\n");
        return;
    }
    let ghost start = s@;
    let mut i: usize = 0;
    while i < ts.len()
        invariant
            i <= ts@.len(),
            s@ == start + render_numbered(task_views(ts@.subrange(0, i as int))),
        decreases ts@.len() - i,
    {
        let ghost prev = task_views(ts@.subrange(0, i as int));
        push_decimal(s, i + 1);
        s.append(".\n");
        s.append(&ts[i].render());
        s.append("\n");
        i = i + 1;
        proof {
            let now = task_views(ts@.subrange(0, i as int));
            assert(now.drop_last() =~= prev);
            assert(now.last() == ts@[i - 1]@);
        }
    }
    assert(ts@.subrange(0, i as int) =~= ts@);
}

impl ToDoList {
    /// Creates an empty list.
    pub fn new() -> (r: ToDoList)
        ensures
            r@ == (ListView { pending: seq![], done: seq![] }),
    {
        let r = ToDoList { tasks: Vec::new(), done: Vec::new() };
        assert(r@.pending =~= seq![]);
        assert(r@.done =~= seq![]);
        r
    }

    /// Creates a list that adopts the two given sequences as they are.
    pub fn new_from_exisitng(tasks: Vec<Task>, done: Vec<Task>) -> (r: ToDoList)
        ensures
            r@ == (ListView { pending: task_views(tasks@), done: task_views(done@) }),
    {
        ToDoList { tasks, done }
    }

    /// Appends a new pending task with the given title and description.
    pub fn add_task(&mut self, title: &str, description: &str)
        ensures
            final(self)@ == (ListView {
                pending: old(self)@.pending.push(TaskView { title: title@, description: description@ }),
                done: old(self)@.done,
            }),
            final(self)@.pending.last() == (TaskView { title: title@, description: description@ }),
    {
        let task = Task::new(title, description);
        self.tasks.push(task);
        assert(self@.pending =~= old(self)@.pending.push(task@));
    }

    /// Moves the pending task at `id` (counted from 0) to the end of `done`.
    pub fn complete_task(&mut self, id: usize) -> (r: Result<(), ListError>)
        ensures
            r == check_index(old(self)@.pending.len(), id),
            r is Ok ==> final(self)@ == completed(old(self)@, id as int),
            r is Err ==> final(self)@ == old(self)@,
    {
        if self.tasks.len() == 0 {
            return Err(ListError::EmptyList);
        } else if id >= self.tasks.len() {
            return Err(ListError::IndexOutOfRange { index: id, len: self.tasks.len() });
        }
        let ghost before = self@;
        let task = self.tasks.remove(id);
        self.done.push(task);
        assert(self@.pending =~= before.pending.remove(id as int));
        assert(self@.done =~= before.done.push(before.pending[id as int]));
        Ok(())
    }

    /// Drops the pending task at `id` (counted from 0).
    pub fn remove_task(&mut self, id: usize) -> (r: Result<(), ListError>)
        ensures
            r == check_index(old(self)@.pending.len(), id),
            r is Ok ==> final(self)@ == removed(old(self)@, id as int),
            r is Err ==> final(self)@ == old(self)@,
    {
        if self.tasks.len() == 0 {
            return Err(ListError::EmptyList);
        } else if id >= self.tasks.len() {
            return Err(ListError::IndexOutOfRange { index: id, len: self.tasks.len() });
        }
        let ghost before = self@;
        self.tasks.remove(id);
        assert(self@.pending =~= before.pending.remove(id as int));
        Ok(())
    }

    /// Empties both sequences.
    pub fn clear_all(&mut self)
        ensures
            final(self)@ == (ListView { pending: seq![], done: seq![] }),
    {
        self.tasks.clear();
        self.done.clear();
        assert(self@.pending =~= seq![]);
        assert(self@.done =~= seq![]);
    }

    /// Empties the done sequence.
    pub fn clear_done(&mut self)
        ensures
            final(self)@ == (ListView { pending: old(self)@.pending, done: seq![] }),
    {
        self.done.clear();
        assert(self@.done =~= seq![]);
    }

    /// The human-readable listing: a `Tasks:` section and a `Done:` section,
    /// each `Empty` or its tasks numbered from 1.
    pub fn render(&self) -> (r: String)
        ensures
            r@ == render_list(self@),
    {
        let mut s = String::new();
        push_section(&mut s, "Tasks: \n", &self.tasks);
        push_section(&mut s, "Done: \n", &self.done);
        assert(s@ =~= render_list(self@));
        s
    }

    /// The saved text of this list: `[Tasks]`, a `Title: ` and a
    /// `Description: ` line for each pending task, `[Done]`, and the same for
    /// each done task, every line ended by a newline.
    pub fn save_text(&self) -> (r: String)
        ensures
            r@ == saved_text(self@),
    {
        write_text(&self.tasks, &self.done)
    }

    /// Reads a saved text and appends its tasks to this list, each to the
    /// sequence of its section; what the list held before stays. Fails at a
    /// `Description: ` line that comes before any section marker, keeping the
    /// tasks read up to there.
    pub fn load_text(&mut self, text: &str) -> (r: Result<(), LoadError>)
        ensures
            (final(self)@, r) == load_outcome(old(self)@, text@),
    {
        read_text(&mut self.tasks, &mut self.done, text)
    }

    /// The pending tasks, in a new vector.
    pub fn taks(&self) -> (r: Vec<Task>)
        ensures
            task_views(r@) == self@.pending,
    {
        duplicate_all(&self.tasks)
    }

    /// The done tasks, in a new vector.
    pub fn done(&self) -> (r: Vec<Task>)
        ensures
            task_views(r@) == self@.done,
    {
        duplicate_all(&self.done)
    }
}

} // verus!
