use tasklist::list::ToDoList;
use tasklist::save_text::{save_dir, save_path, LoadError};
use tasklist::task::Task;

fn sample() -> (Vec<Task>, Vec<Task>) {
    let tasks = vec![
        Task::new("Learn Rust", "Complete the Rust book and exercises."),
        Task::new("Grocery Shopping", "Buy milk, eggs, and bread."),
    ];
    let done = vec![Task::new("Morning Run", "Ran 5km in the park.")];
    (tasks, done)
}

#[test]
fn save_to_file_test() {
    let (tasks, done) = sample();
    let tdl = ToDoList::new_from_exisitng(tasks, done);
    assert_eq!(save_path("test"), "saves/test.txt");
    let text = tdl.save_text();

    let expected_content = vec![
        "[Tasks]",
        "Title: Learn Rust",
        "Description: Complete the Rust book and exercises.",
        "Title: Grocery Shopping",
        "Description: Buy milk, eggs, and bread.",
        "[Done]",
        "Title: Morning Run",
        "Description: Ran 5km in the park.",
    ];
    let lines: Vec<&str> = text.lines().collect();
    assert_eq!(lines, expected_content);
    assert!(text.ends_with('\n'));
}

#[test]
fn test_read_from_file() {
    let (tasks, done) = sample();
    let list = ToDoList::new_from_exisitng(tasks.clone(), done.clone());
    let text = list.save_text();
    let mut list2 = ToDoList::new();
    list2.load_text(&text).unwrap();
    assert_eq!(list2.taks(), tasks);
    assert_eq!(list2.done(), done);
}

#[test]
fn round_trip_keeps_descriptions_and_order() {
    let list = ToDoList::new_from_exisitng(
        vec![Task::new("b", "second"), Task::new("a", ""), Task::new("", "no title")],
        vec![Task::new("z", "last"), Task::new("y", "first")],
    );
    let mut back = ToDoList::new();
    assert_eq!(back.load_text(&list.save_text()), Ok(()));
    let pending = back.taks();
    assert_eq!(pending.len(), 3);
    assert_eq!(pending[0].title(), "b");
    assert_eq!(pending[0].description(), "second");
    assert_eq!(pending[1].description(), "");
    assert_eq!(pending[2].title(), "");
    assert_eq!(pending[2].description(), "no title");
    let done = back.done();
    assert_eq!(done.len(), 2);
    assert_eq!(done[0].description(), "last");
    assert_eq!(done[1].title(), "y");
}

#[test]
fn empty_list_saves_two_markers() {
    assert_eq!(ToDoList::new().save_text(), "[Tasks]\n[Done]\n");
}

#[test]
fn save_path_defaults_when_name_is_empty() {
    assert_eq!(save_dir(), "saves");
    assert_eq!(save_path(""), "saves/save1.txt");
    assert_eq!(save_path("week"), "saves/week.txt");
}

#[test]
fn description_before_section_is_corrupt() {
    let mut list = ToDoList::new();
    let r = list.load_text("Title: a\nDescription: b\n[Tasks]\n");
    assert_eq!(r, Err(LoadError::CorruptFile { line: 2 }));
    assert!(list.taks().is_empty());
    assert!(list.done().is_empty());
}

#[test]
fn corrupt_line_keeps_tasks_read_before() {
    let mut list = ToDoList::new();
    let text = "\n[Done]\nTitle: kept\nDescription: yes\n";
    assert_eq!(list.load_text(text), Ok(()));
    assert_eq!(list.done().len(), 1);
    let mut other = ToDoList::new();
    let r = other.load_text("[Tasks]\nTitle: t\nDescription: d\n");
    assert_eq!(r, Ok(()));
    let mut third = ToDoList::new();
    let r = third.load_text("Description: early\n");
    assert_eq!(r, Err(LoadError::CorruptFile { line: 1 }));
}

#[test]
fn load_appends_to_existing_tasks() {
    let mut list = ToDoList::new();
    list.add_task("old", "kept");
    let r = list.load_text("[Tasks]\nTitle: new\nDescription: added\n[Done]\nTitle: fin\nDescription: ished");
    assert_eq!(r, Ok(()));
    let pending = list.taks();
    assert_eq!(pending.len(), 2);
    assert_eq!(pending[0].title(), "old");
    assert_eq!(pending[1].title(), "new");
    assert_eq!(pending[1].description(), "added");
    let done = list.done();
    assert_eq!(done.len(), 1);
    assert_eq!(done[0].title(), "fin");
    assert_eq!(done[0].description(), "ished");
}

#[test]
fn load_reads_crlf_lines_and_skips_others() {
    let mut list = ToDoList::new();
    let r = list.load_text("[Tasks]\r\nTitle: a\r\nnoise\r\n\r\nDescription: b\r\n");
    assert_eq!(r, Ok(()));
    let pending = list.taks();
    assert_eq!(pending.len(), 1);
    assert_eq!(pending[0].title(), "a");
    assert_eq!(pending[0].description(), "b");
}

#[test]
fn title_carries_over_to_next_description() {
    let mut list = ToDoList::new();
    let r = list.load_text("[Tasks]\nTitle: same\nDescription: one\nDescription: two\n");
    assert_eq!(r, Ok(()));
    let pending = list.taks();
    assert_eq!(pending.len(), 2);
    assert_eq!(pending[1].title(), "same");
    assert_eq!(pending[1].description(), "two");
}

#[test]
fn title_prefix_is_removed_once() {
    let mut list = ToDoList::new();
    let r = list.load_text("[Done]\nTitle: Title: x\nDescription: Description: y\n");
    assert_eq!(r, Ok(()));
    let done = list.done();
    assert_eq!(done[0].title(), "Title: x");
    assert_eq!(done[0].description(), "Description: y");
}
