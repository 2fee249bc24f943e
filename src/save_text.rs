//! The save file format: a line-oriented text with a `[Tasks]` section and
//! a `[Done]` section, each task as a `Title: ` line followed by a
//! `Description: ` line.
//!
//! No escaping is defined: a title or description that holds a line break,
//! ends in a carriage return, or collides with the markers does not read
//! back as it was written.
use vstd::prelude::*;
use vstd::string::*;
use vstd::std_specs::iter::IteratorSpec;
use crate::task::{Task, TaskView};
use crate::list::{ListView, task_views};

verus! {

/// The section that `Description: ` lines currently add tasks to.
#[derive(Debug, Clone, Copy, PartialEq, Eq, Structural)]
pub enum Section {
    Tasks,
    Done,
}

/// Why a saved text could not be read.
#[derive(Debug, Clone, Copy, PartialEq, Eq, Structural)]
pub enum LoadError {
    /// The line numbered `line` (from 1) is a `Description: ` line that
    /// comes before any section marker.
    CorruptFile { line: usize },
}

// ---------------------------------------------------------------------------
// Writing

/// The two lines of one task.
pub open spec fn lines_of_task(t: TaskView) -> Seq<Seq<char>> {
    seq!["Title: "@ + t.title, "Description: "@ + t.description]
}

/// The lines of a sequence of tasks, in order.
pub open spec fn task_lines(ts: Seq<TaskView>) -> Seq<Seq<char>>
    decreases ts.len(),
{
    if ts.len() == 0 {
        seq![]
    } else {
        task_lines(ts.drop_last()) + lines_of_task(ts.last())
    }
}

/// All lines of a saved list: the `[Tasks]` marker, the pending tasks, the
/// `[Done]` marker and the done tasks.
pub open spec fn save_lines(l: ListView) -> Seq<Seq<char>> {
    seq!["[Tasks]"@] + task_lines(l.pending) + seq!["[Done]"@] + task_lines(l.done)
}

/// Lines joined into one text, each followed by a newline.
pub open spec fn join_lines(ls: Seq<Seq<char>>) -> Seq<char>
    decreases ls.len(),
{
    if ls.len() == 0 {
        seq![]
    } else {
        join_lines(ls.drop_last()) + ls.last() + seq!['\n']
    }
}

/// The saved text of a list.
pub open spec fn saved_text(l: ListView) -> Seq<char> {
    join_lines(save_lines(l))
}

/// The file name part of a save: the given name, or `save1` when it is empty.
pub open spec fn file_stem(name: Seq<char>) -> Seq<char> {
    if name.len() == 0 {
        "save1"@
    } else {
        name
    }
}

/// Where a save under `name` is stored, relative to the working directory.
pub open spec fn save_path_of(name: Seq<char>) -> Seq<char> {
    "saves"@ + "/"@ + file_stem(name) + ".txt"@
}

// ---------------------------------------------------------------------------
// Reading

/// The index of the first newline in `s`, or its length when it has none.
pub open spec fn first_newline(s: Seq<char>) -> nat
    decreases s.len(),
{
    if s.len() == 0 {
        0
    } else if s[0] == '\n' {
        0
    } else {
        1 + first_newline(s.drop_first())
    }
}

/// A line without one trailing carriage return.
pub open spec fn strip_cr(line: Seq<char>) -> Seq<char> {
    if line.len() > 0 && line.last() == '\r' {
        line.drop_last()
    } else {
        line
    }
}

/// The lines of a text. A newline ends a line, and a carriage return just
/// before it is dropped; the last line may lack its newline.
pub open spec fn lines_of(s: Seq<char>) -> Seq<Seq<char>>
    decreases s.len(),
{
    if s.len() == 0 {
        seq![]
    } else {
        let e = first_newline(s);
        if e < s.len() {
            seq![strip_cr(s.subrange(0, e as int))] + lines_of(s.subrange(e as int + 1, s.len() as int))
        } else {
            seq![s]
        }
    }
}

/// Whether `s` begins with `p`.
pub open spec fn starts_with(s: Seq<char>, p: Seq<char>) -> bool {
    p.len() <= s.len() && s.subrange(0, p.len() as int) == p
}

/// What follows the prefix `p` in `s`.
pub open spec fn after(s: Seq<char>, p: Seq<char>) -> Seq<char> {
    s.subrange(p.len() as int, s.len() as int)
}

/// The state of a reader between two lines: the active section, if any,
/// the last title read, and the list that tasks are added to.
pub ghost struct LoadState {
    pub section: Option<Section>,
    pub title: Seq<char>,
    pub list: ListView,
}

/// One line read in state `st`: the next state, or `None` for a
/// `Description: ` line before any section marker.
pub open spec fn read_line(st: LoadState, line: Seq<char>) -> Option<LoadState> {
    if line.len() == 0 {
        Some(st)
    } else if line == "[Tasks]"@ {
        Some(LoadState { section: Some(Section::Tasks), title: st.title, list: st.list })
    } else if line == "[Done]"@ {
        Some(LoadState { section: Some(Section::Done), title: st.title, list: st.list })
    } else if starts_with(line, "Title: "@) {
        Some(LoadState { section: st.section, title: after(line, "Title: "@), list: st.list })
    } else if starts_with(line, "Description: "@) {
        let t = TaskView { title: st.title, description: after(line, "Description: "@) };
        match st.section {
            Some(Section::Tasks) => Some(
                LoadState {
                    section: st.section,
                    title: st.title,
                    list: ListView { pending: st.list.pending.push(t), done: st.list.done },
                },
            ),
            Some(Section::Done) => Some(
                LoadState {
                    section: st.section,
                    title: st.title,
                    list: ListView { pending: st.list.pending, done: st.list.done.push(t) },
                },
            ),
            None => None,
        }
    } else {
        Some(st)
    }
}

/// Lines read one after another from `st`, the first of them numbered
/// `first`: the state reached, and the number of the line that failed, if any.
/// A failed line stops the reading; what was read before it stays.
pub open spec fn read_lines(st: LoadState, ls: Seq<Seq<char>>, first: nat) -> (LoadState, Option<nat>)
    decreases ls.len(),
{
    if ls.len() == 0 {
        (st, None)
    } else {
        match read_line(st, ls[0]) {
            None => (st, Some(first)),
            Some(next) => read_lines(next, ls.drop_first(), first + 1),
        }
    }
}

/// The result of reading `text` into the list `l`: the list afterwards
/// (tasks are appended to what `l` holds), and whether the text was read whole.
pub open spec fn load_outcome(l: ListView, text: Seq<char>) -> (ListView, Result<(), LoadError>) {
    let run = read_lines(LoadState { section: None, title: seq![], list: l }, lines_of(text), 1);
    (
        run.0.list,
        match run.1 {
            None => Ok(()),
            Some(k) => Err(LoadError::CorruptFile { line: k as usize }),
        },
    )
}

// ---------------------------------------------------------------------------
// Executable code

/// The directory that saves are stored in.
pub fn save_dir() -> (r: &'static str)
    ensures
        r@ == "saves"@,
{
    "saves"
}

/// The path of the save file for `name`: under the save directory, with
/// `.txt` appended; an empty name stands for `save1`.
pub fn save_path(name: &str) -> (r: String)
    ensures
        r@ == save_path_of(name@),
{
    let mut r = String::from_str(save_dir());
    r.append("/");
    if name.unicode_len() == 0 {
        r.append("save1");
    } else {
        r.append(name);
    }
    r.append(".txt");
    r
}

/// Appends one line, made of `a` then `b`, and its newline.
fn push_line(s: &mut String, a: &str, b: &str)
    ensures
        final(s)@ == old(s)@ + a@ + b@ + seq!['\n'],
{
    s.append(a);
    s.append(b);
    s.append("\n");
    proof {
        reveal_strlit("\n");
    }
    assert(s@ =~= old(s)@ + a@ + b@ + seq!['\n']);
}

/// Joining two runs of lines joins their texts.
proof fn lemma_join_append(a: Seq<Seq<char>>, b: Seq<Seq<char>>)
    ensures
        join_lines(a + b) == join_lines(a) + join_lines(b),
    decreases b.len(),
{
    if b.len() == 0 {
        assert(a + b =~= a);
        assert(join_lines(a) + join_lines(b) =~= join_lines(a));
    } else {
        lemma_join_append(a, b.drop_last());
        assert((a + b).drop_last() =~= a + b.drop_last());
        assert(join_lines(a + b) =~= join_lines(a) + join_lines(b));
    }
}

/// Appends the lines of the tasks `ts`.
fn push_task_lines(s: &mut String, ts: &Vec<Task>)
    ensures
        final(s)@ == old(s)@ + join_lines(task_lines(task_views(ts@))),
{
    let ghost start = s@;
    let mut i: usize = 0;
    while i < ts.len()
        invariant
            i <= ts@.len(),
            s@ == start + join_lines(task_lines(task_views(ts@.subrange(0, i as int)))),
        decreases ts@.len() - i,
    {
        let ghost prev = task_views(ts@.subrange(0, i as int));
        let t = &ts[i];
        push_line(s, "Title: ", t.title());
        push_line(s, "Description: ", t.description());
        i = i + 1;
        proof {
            let now = task_views(ts@.subrange(0, i as int));
            assert(now.drop_last() =~= prev);
            let two = lines_of_task(now.last());
            lemma_join_append(task_lines(prev), two);
            assert(two.drop_last() =~= seq![two[0]]);
            assert(seq![two[0]].drop_last() =~= Seq::<Seq<char>>::empty());
            assert(join_lines(Seq::<Seq<char>>::empty()) =~= Seq::<char>::empty());
            assert(join_lines(seq![two[0]]) =~= two[0] + seq!['\n']);
            assert(join_lines(two) =~= two[0] + seq!['\n'] + two[1] + seq!['\n']);
            assert(now.last() == ts@[i - 1]@);
            assert(s@ =~= start + join_lines(task_lines(now)));
        }
    }
    assert(ts@.subrange(0, i as int) =~= ts@);
}

/// The saved text of the list with pending tasks `pending` and done tasks
/// `done`.
pub(crate) fn write_text(pending: &Vec<Task>, done: &Vec<Task>) -> (r: String)
    ensures
        r@ == saved_text(ListView { pending: task_views(pending@), done: task_views(done@) }),
{
    let ghost l = ListView { pending: task_views(pending@), done: task_views(done@) };
    let mut s = String::new();
    push_line(&mut s, "[Tasks]", "");
    push_task_lines(&mut s, pending);
    push_line(&mut s, "[Done]", "");
    push_task_lines(&mut s, done);
    proof {
        let m1 = seq!["[Tasks]"@];
        let m2 = seq!["[Done]"@];
        reveal_strlit("");
        assert(""@ =~= Seq::<char>::empty());
        assert(join_lines(Seq::<Seq<char>>::empty()) =~= Seq::<char>::empty());
        assert(m1.drop_last() =~= Seq::<Seq<char>>::empty());
        assert(m2.drop_last() =~= Seq::<Seq<char>>::empty());
        assert(join_lines(m1) =~= "[Tasks]"@ + ""@ + seq!['\n']);
        assert(join_lines(m2) =~= "[Done]"@ + ""@ + seq!['\n']);
        lemma_join_append(m1, task_lines(l.pending));
        lemma_join_append(m1 + task_lines(l.pending), m2);
        lemma_join_append(m1 + task_lines(l.pending) + m2, task_lines(l.done));
        assert(s@ =~= saved_text(l));
    }
    s
}

/// The characters of `s`, one per element.
fn chars_of(s: &str) -> (r: Vec<char>)
    ensures
        r@ == s@,
{
    let mut r: Vec<char> = Vec::new();
    for c in it: s.chars()
        invariant
            r@ == it.seq().subrange(0, it.index() as int),
    {
        r.push(c);
    }
    r
}

/// Whether `s` begins with `p`.
fn has_prefix(s: &str, p: &str) -> (r: bool)
    ensures
        r == starts_with(s@, p@),
{
    let pl = p.unicode_len();
    if pl > s.unicode_len() {
        return false;
    }
    let mut i: usize = 0;
    while i < pl
        invariant
            pl == p@.len(),
            pl <= s@.len(),
            i <= pl,
            s@.subrange(0, i as int) =~= p@.subrange(0, i as int),
        decreases pl - i,
    {
        if s.get_char(i) != p.get_char(i) {
            assert(s@.subrange(0, pl as int)[i as int] != p@[i as int]);
            return false;
        }
        i = i + 1;
        assert(s@.subrange(0, i as int) =~= p@.subrange(0, i as int));
    }
    assert(p@.subrange(0, pl as int) =~= p@);
    true
}

/// What follows `p` in `s`, when `s` begins with `p`.
fn strip_prefix<'a>(s: &'a str, p: &str) -> (r: Option<&'a str>)
    ensures
        r is Some <==> starts_with(s@, p@),
        r is Some ==> r->0@ == after(s@, p@),
{
    if has_prefix(s, p) {
        Some(s.substring_char(p.unicode_len(), s.unicode_len()))
    } else {
        None
    }
}

/// Whether `s` is exactly `w`.
fn is_exactly(s: &str, w: &str) -> (r: bool)
    ensures
        r == (s@ == w@),
{
    if s.unicode_len() != w.unicode_len() {
        return false;
    }
    let r = has_prefix(s, w);
    proof {
        assert(s@.subrange(0, s@.len() as int) =~= s@);
    }
    r
}

/// The reader's state over executable values.
pub open spec fn load_state(
    section: Option<Section>,
    title: Seq<char>,
    pending: Seq<Task>,
    done: Seq<Task>,
) -> LoadState {
    LoadState {
        section,
        title,
        list: ListView { pending: task_views(pending), done: task_views(done) },
    }
}

/// Reads one line; false when the line is refused.
fn read_one_line(
    section: &mut Option<Section>,
    title: &mut String,
    pending: &mut Vec<Task>,
    done: &mut Vec<Task>,
    line: &str,
) -> (ok: bool)
    ensures
        match read_line(load_state(*old(section), old(title)@, old(pending)@, old(done)@), line@) {
            Some(next) => ok && load_state(
                *final(section),
                final(title)@,
                final(pending)@,
                final(done)@,
            ) == next,
            None => !ok && load_state(*final(section), final(title)@, final(pending)@, final(done)@)
                == load_state(*old(section), old(title)@, old(pending)@, old(done)@),
        },
{
    if line.unicode_len() == 0 {
        return true;
    }
    if is_exactly(line, "[Tasks]") {
        *section = Some(Section::Tasks);
        return true;
    }
    if is_exactly(line, "[Done]") {
        *section = Some(Section::Done);
        return true;
    }
    if let Some(rest) = strip_prefix(line, "Title: ") {
        *title = rest.to_owned();
        return true;
    }
    if let Some(rest) = strip_prefix(line, "Description: ") {
        let task = Task::new(title.as_str(), rest);
        match *section {
            Some(Section::Tasks) => {
                pending.push(task);
                assert(task_views(pending@) =~= task_views(old(pending)@).push(task@));
                true
            },
            Some(Section::Done) => {
                done.push(task);
                assert(task_views(done@) =~= task_views(old(done)@).push(task@));
                true
            },
            None => false,
        }
    } else {
        true
    }
}

/// Reads `text` and appends its tasks to `pending` and `done`, each to the
/// sequence of its section. A refused line stops the reading, and the tasks
/// read before it stay.
pub(crate) fn read_text(pending: &mut Vec<Task>, done: &mut Vec<Task>, text: &str) -> (r: Result<(), LoadError>)
    ensures
        (ListView { pending: task_views(final(pending)@), done: task_views(final(done)@) }, r)
            == load_outcome(
            ListView { pending: task_views(old(pending)@), done: task_views(old(done)@) },
            text@,
        ),
{
    let cs = chars_of(text);
    let n = cs.len();
    let ghost s = text@;
    let ghost goal = read_lines(
        load_state(None, seq![], pending@, done@),
        lines_of(s),
        1,
    );
    let mut section: Option<Section> = None;
    let mut title = String::new();
    let mut pos: usize = 0;
    let mut lines_read: usize = 0;
    assert(s.subrange(0, n as int) =~= s);
    while pos < n
        invariant
            s == text@,
            cs@ == s,
            n == s.len(),
            pos <= n,
            lines_read <= pos,
            goal == read_lines(
                LoadState {
                    section: None,
                    title: seq![],
                    list: ListView { pending: task_views(old(pending)@), done: task_views(old(done)@) },
                },
                lines_of(s),
                1,
            ),
            read_lines(load_state(section, title@, pending@, done@), lines_of(s.subrange(pos as int, n as int)), (lines_read + 1) as nat) == goal,
        decreases n - pos,
    {
        let mut j: usize = pos;
        while j < n && cs[j] != '\n'
            invariant
                s == text@,
                cs@ == s,
                n == s.len(),
                pos <= j <= n,
                first_newline(s.subrange(pos as int, n as int)) == (j - pos) + first_newline(s.subrange(j as int, n as int)),
                forall|k: int| pos <= k < j ==> s[k] != '\n',
            decreases n - j,
        {
            assert(s.subrange(j as int, n as int).drop_first() =~= s.subrange(j + 1, n as int));
            j = j + 1;
        }
        let ghost sub = s.subrange(pos as int, n as int);
        let line: &str;
        let next: usize;
        if j < n {
            assert(sub.subrange(0, (j - pos) as int) =~= s.subrange(pos as int, j as int));
            assert(sub.subrange(j - pos + 1, sub.len() as int) =~= s.subrange(j + 1, n as int));
            if j > pos && cs[j - 1] == '\r' {
                line = text.substring_char(pos, j - 1);
                assert(line@ =~= s.subrange(pos as int, j as int).drop_last());
            } else {
                line = text.substring_char(pos, j);
            }
            next = j + 1;
        } else {
            line = text.substring_char(pos, n);
            assert(s.subrange(n as int, n as int) =~= Seq::<char>::empty());
            next = n;
        }
        assert(lines_of(sub) =~= seq![line@] + lines_of(s.subrange(next as int, n as int)));
        assert((seq![line@] + lines_of(s.subrange(next as int, n as int))).drop_first() =~= lines_of(s.subrange(next as int, n as int)));
        let ghost before = load_state(section, title@, pending@, done@);
        if !read_one_line(&mut section, &mut title, pending, done, line) {
            assert(read_lines(before, lines_of(sub), (lines_read + 1) as nat) == (before, Some((lines_read + 1) as nat)));
            return Err(LoadError::CorruptFile { line: lines_read + 1 });
        }
        pos = next;
        lines_read = lines_read + 1;
    }
    assert(s.subrange(n as int, n as int) =~= Seq::<char>::empty());
    Ok(())
}

// ---------------------------------------------------------------------------
// Saving then reading

/// Whether `s` can stand on a line of its own and read back unchanged: it
/// holds no newline and does not end in a carriage return.
pub open spec fn fits_line(s: Seq<char>) -> bool {
    &&& forall|i: int| 0 <= i < s.len() ==> s[i] != '\n'
    &&& (s.len() == 0 || s.last() != '\r')
}

/// Whether both fields of a task fit on a line.
pub open spec fn task_fits(t: TaskView) -> bool {
    fits_line(t.title) && fits_line(t.description)
}

/// `l` with the tasks `ts` appended to the sequence of section `sec`.
pub open spec fn append_to(l: ListView, sec: Section, ts: Seq<TaskView>) -> ListView {
    match sec {
        Section::Tasks => ListView { pending: l.pending + ts, done: l.done },
        Section::Done => ListView { pending: l.pending, done: l.done + ts },
    }
}

proof fn lemma_first_newline(a: Seq<char>, rest: Seq<char>)
    requires
        forall|i: int| 0 <= i < a.len() ==> a[i] != '\n',
    ensures
        first_newline(a + seq!['\n'] + rest) == a.len(),
    decreases a.len(),
{
    let s = a + seq!['\n'] + rest;
    if a.len() > 0 {
        lemma_first_newline(a.drop_first(), rest);
        assert(s.drop_first() =~= a.drop_first() + seq!['\n'] + rest);
    }
}

proof fn lemma_lines_of_join(ls: Seq<Seq<char>>)
    requires
        forall|i: int| 0 <= i < ls.len() ==> #[trigger] fits_line(ls[i]),
    ensures
        lines_of(join_lines(ls)) == ls,
    decreases ls.len(),
{
    if ls.len() == 0 {
        assert(lines_of(join_lines(ls)) =~= ls);
    } else {
        let a = ls[0];
        let tail = ls.drop_first();
        assert(fits_line(ls[0]));
        assert forall|i: int| 0 <= i < tail.len() implies #[trigger] fits_line(tail[i]) by {
            assert(fits_line(ls[i + 1]));
        }
        lemma_lines_of_join(tail);
        assert(ls =~= seq![a] + tail);
        lemma_join_append(seq![a], tail);
        assert(seq![a].drop_last() =~= Seq::<Seq<char>>::empty());
        assert(join_lines(Seq::<Seq<char>>::empty()) =~= Seq::<char>::empty());
        let s = join_lines(ls);
        assert(s =~= a + seq!['\n'] + join_lines(tail));
        lemma_first_newline(a, join_lines(tail));
        assert(s.subrange(0, a.len() as int) =~= a);
        assert(s.subrange(a.len() as int + 1, s.len() as int) =~= join_lines(tail));
        assert(lines_of(s) =~= ls);
    }
}

proof fn lemma_read_append(st: LoadState, a: Seq<Seq<char>>, b: Seq<Seq<char>>, k: nat)
    requires
        read_lines(st, a, k).1 is None,
    ensures
        read_lines(st, a + b, k) == read_lines(read_lines(st, a, k).0, b, k + a.len()),
    decreases a.len(),
{
    if a.len() == 0 {
        assert(a + b =~= b);
    } else {
        let next = read_line(st, a[0])->0;
        assert((a + b)[0] == a[0]);
        assert((a + b).drop_first() =~= a.drop_first() + b);
        lemma_read_append(next, a.drop_first(), b, k + 1);
    }
}

proof fn lemma_read_one(st: LoadState, line: Seq<char>, k: nat)
    requires
        read_line(st, line) is Some,
    ensures
        read_lines(st, seq![line], k) == (read_line(st, line)->0, Option::<nat>::None),
{
    let rest = seq![line].drop_first();
    assert(rest =~= Seq::<Seq<char>>::empty());
    assert(read_lines(read_line(st, line)->0, rest, k + 1) == (read_line(st, line)->0, Option::<nat>::None));
}

proof fn lemma_line_facts()
    ensures
        "[Tasks]"@ == seq!['[', 'T', 'a', 's', 'k', 's', ']'],
        "[Done]"@ == seq!['[', 'D', 'o', 'n', 'e', ']'],
        "Title: "@ == seq!['T', 'i', 't', 'l', 'e', ':', ' '],
        "Description: "@ == seq!['D', 'e', 's', 'c', 'r', 'i', 'p', 't', 'i', 'o', 'n', ':', ' '],
{
    reveal_strlit("[Tasks]");
    reveal_strlit("[Done]");
    reveal_strlit("Title: ");
    reveal_strlit("Description: ");
    assert("[Tasks]"@ =~= seq!['[', 'T', 'a', 's', 'k', 's', ']']);
    assert("[Done]"@ =~= seq!['[', 'D', 'o', 'n', 'e', ']']);
    assert("Title: "@ =~= seq!['T', 'i', 't', 'l', 'e', ':', ' ']);
    assert("Description: "@ =~= seq!['D', 'e', 's', 'c', 'r', 'i', 'p', 't', 'i', 'o', 'n', ':', ' ']);
}

proof fn lemma_read_tasks(st: LoadState, sec: Section, ts: Seq<TaskView>, k: nat)
    requires
        st.section == Some(sec),
    ensures
        read_lines(st, task_lines(ts), k).1 is None,
        read_lines(st, task_lines(ts), k).0.section == Some(sec),
        read_lines(st, task_lines(ts), k).0.list == append_to(st.list, sec, ts),
    decreases ts.len(),
{
    if ts.len() == 0 {
        assert(task_lines(ts) =~= Seq::<Seq<char>>::empty());
        assert(read_lines(st, task_lines(ts), k) == (st, Option::<nat>::None));
        assert(append_to(st.list, sec, ts) =~= st.list) by {
            assert(st.list.pending + ts =~= st.list.pending);
            assert(st.list.done + ts =~= st.list.done);
        }
    } else {
        let init = ts.drop_last();
        let t = ts.last();
        lemma_read_tasks(st, sec, init, k);
        let two = lines_of_task(t);
        lemma_read_append(st, task_lines(init), two, k);
        let mid = read_lines(st, task_lines(init), k).0;
        lemma_line_facts();
        let tl = "Title: "@ + t.title;
        let dl = "Description: "@ + t.description;
        assert(tl[0] == 'T');
        assert(dl[0] == 'D');
        assert(tl != "[Tasks]"@ && tl != "[Done]"@) by {
            assert("[Tasks]"@[0] == '[');
            assert("[Done]"@[0] == '[');
        }
        assert(dl != "[Tasks]"@ && dl != "[Done]"@) by {
            assert("[Tasks]"@[0] == '[');
            assert("[Done]"@[0] == '[');
        }
        assert(tl.subrange(0, 7) =~= "Title: "@);
        assert(after(tl, "Title: "@) =~= t.title);
        assert(!starts_with(dl, "Title: "@)) by {
            assert(dl.subrange(0, 7)[0] == 'D');
        }
        assert(dl.subrange(0, 13) =~= "Description: "@);
        assert(after(dl, "Description: "@) =~= t.description);
        let s1 = read_line(mid, tl)->0;
        assert(s1.title == t.title);
        assert(two.drop_first() =~= seq![dl]);
        lemma_read_one(s1, dl, k + task_lines(init).len() + 1);
        assert(read_lines(mid, two, k + task_lines(init).len()) == read_lines(s1, seq![dl], k + task_lines(init).len() + 1));
        assert(task_lines(ts) == task_lines(init) + two);
        assert(ts =~= init.push(t));
        match sec {
            Section::Tasks => {
                assert(append_to(st.list, sec, ts).pending =~= append_to(st.list, sec, init).pending.push(t));
            },
            Section::Done => {
                assert(append_to(st.list, sec, ts).done =~= append_to(st.list, sec, init).done.push(t));
            },
        }
    }
}

proof fn lemma_task_lines_fit(ts: Seq<TaskView>)
    requires
        forall|i: int| 0 <= i < ts.len() ==> #[trigger] task_fits(ts[i]),
    ensures
        forall|i: int| 0 <= i < task_lines(ts).len() ==> #[trigger] fits_line(task_lines(ts)[i]),
        task_lines(ts).len() == 2 * ts.len(),
    decreases ts.len(),
{
    if ts.len() > 0 {
        let init = ts.drop_last();
        assert forall|i: int| 0 <= i < init.len() implies #[trigger] task_fits(init[i]) by {
            assert(task_fits(ts[i]));
        }
        lemma_task_lines_fit(init);
        let t = ts.last();
        assert(task_fits(ts[ts.len() - 1]));
        lemma_line_facts();
        let two = lines_of_task(t);
        assert(fits_line(two[0])) by {
            assert forall|i: int| 0 <= i < two[0].len() implies two[0][i] != '\n' by {
                if i >= 7 {
                    assert(two[0][i] == t.title[i - 7]);
                }
            }
        }
        assert(fits_line(two[1])) by {
            assert forall|i: int| 0 <= i < two[1].len() implies two[1][i] != '\n' by {
                if i >= 13 {
                    assert(two[1][i] == t.description[i - 13]);
                }
            }
        }
        let all = task_lines(ts);
        assert forall|i: int| 0 <= i < all.len() implies #[trigger] fits_line(all[i]) by {
            if i < task_lines(init).len() {
                assert(all[i] == task_lines(init)[i]);
            } else {
                assert(all[i] == two[i - task_lines(init).len()]);
            }
        }
    }
}

/// Saving a list and reading the saved text into an empty list gives back
/// the same pending and done sequences, in the same order, provided no
/// title or description holds a newline or ends in a carriage return.
pub proof fn lemma_save_load_round_trip(l: ListView)
    requires
        forall|i: int| 0 <= i < l.pending.len() ==> #[trigger] task_fits(l.pending[i]),
        forall|i: int| 0 <= i < l.done.len() ==> #[trigger] task_fits(l.done[i]),
    ensures
        load_outcome(ListView { pending: seq![], done: seq![] }, saved_text(l)) == (l, Ok::<(), LoadError>(())),
{
    lemma_line_facts();
    let m1 = seq!["[Tasks]"@];
    let m2 = seq!["[Done]"@];
    let tp = task_lines(l.pending);
    let td = task_lines(l.done);
    let ls = save_lines(l);
    lemma_task_lines_fit(l.pending);
    lemma_task_lines_fit(l.done);
    assert forall|i: int| 0 <= i < ls.len() implies #[trigger] fits_line(ls[i]) by {
        if i == 0 {
            assert(ls[i] == "[Tasks]"@);
        } else if i < 1 + tp.len() {
            assert(ls[i] == tp[i - 1]);
        } else if i == 1 + tp.len() {
            assert(ls[i] == "[Done]"@);
        } else {
            assert(ls[i] == td[i - 2 - tp.len()]);
        }
    }
    lemma_lines_of_join(ls);
    let empty = ListView { pending: seq![], done: seq![] };
    let st0 = LoadState { section: None, title: seq![], list: empty };
    assert(m1.drop_first() =~= Seq::<Seq<char>>::empty());
    assert(m2.drop_first() =~= Seq::<Seq<char>>::empty());
    lemma_read_one(st0, "[Tasks]"@, 1);
    let st1 = read_lines(st0, m1, 1).0;
    assert(st1.section == Some(Section::Tasks));
    lemma_read_tasks(st1, Section::Tasks, l.pending, 2);
    lemma_read_append(st0, m1, tp, 1);
    let st2 = read_lines(st0, m1 + tp, 1).0;
    assert("[Done]"@ != "[Tasks]"@);
    lemma_read_one(st2, "[Done]"@, 1 + (m1 + tp).len());
    lemma_read_append(st0, m1 + tp, m2, 1);
    let st3 = read_lines(st0, m1 + tp + m2, 1).0;
    assert(st3.section == Some(Section::Done));
    lemma_read_tasks(st3, Section::Done, l.done, 1 + (m1 + tp + m2).len());
    lemma_read_append(st0, m1 + tp + m2, td, 1);
    assert(ls == m1 + tp + m2 + td);
    assert(empty.pending + l.pending =~= l.pending);
    assert(empty.done + l.done =~= l.done);
}

} // verus!
