use tasklist::list::{ListError, ToDoList};
use tasklist::task::Task;

#[test]
fn test_task_new() {
    let list = ToDoList::new();
    assert!(list.done().is_empty());
    assert!(list.taks().is_empty());
}

#[test]
fn add_task_test() {
    let mut list = ToDoList::new();

    list.add_task("Cooking", "Prepare meal for tomorrow");
    let len = list.taks().len();

    assert_eq!(list.taks()[len - 1].title(), "Cooking");
    assert_eq!(
        list.taks()[len - 1].description(),
        "Prepare meal for tomorrow"
    );
}

#[test]
fn complete_task_test() {
    let mut list = ToDoList::new();

    list.add_task("Cooking", "Prepare meal for tomorrow");
    let _ = list.complete_task(0);

    assert!(list.taks().is_empty());
    assert!(!list.done().is_empty());
}

#[test]
fn remove_task_test() {
    let mut list = ToDoList::new();

    list.add_task("Cooking", "Prepare meal for tomorrow");
    list.add_task("Cooking2", "Prepare meal for the day after tomorrow");

    assert_eq!(list.taks().len(), 2);
    let _ = list.remove_task(0);
    assert_eq!(list.taks().len(), 1);

    let check = Task::new("Cooking", "unrelevenat for the check");
    assert!(!list.taks().contains(&check));
}

#[test]
fn remove_task_test_fail() {
    let mut list = ToDoList::new();

    list.add_task("Cooking", "Prepare meal for tomorrow");
    list.add_task("Cooking2", "Prepare meal for the day after tomorrow");

    assert_eq!(list.taks().len(), 2);

    let _ = list.remove_task(1);
    assert_eq!(list.taks().len(), 1);

    let check = Task::new("Cooking", "unrelevenat for the check");
    assert!(list.taks().contains(&check));
}

#[test]
fn add_keeps_title_and_description_verbatim() {
    let mut list = ToDoList::new();
    list.add_task("first", "one");
    list.add_task("  spaced  ", "");
    let pending = list.taks();
    assert_eq!(pending.len(), 2);
    assert_eq!(pending[1].title(), "  spaced  ");
    assert_eq!(pending[1].description(), "");
    assert!(list.done().is_empty());
}

#[test]
fn complete_moves_cooking_to_done() {
    let mut list = ToDoList::new();
    list.add_task("Cooking", "Prepare meal for tomorrow");
    assert_eq!(list.complete_task(0), Ok(()));
    assert!(list.taks().is_empty());
    let done = list.done();
    assert_eq!(done.len(), 1);
    assert_eq!(done[0].title(), "Cooking");
    assert_eq!(done[0].description(), "Prepare meal for tomorrow");
}

#[test]
fn complete_appends_in_completion_order() {
    let mut list = ToDoList::new();
    list.add_task("a", "1");
    list.add_task("b", "2");
    list.add_task("c", "3");
    assert_eq!(list.complete_task(2), Ok(()));
    assert_eq!(list.complete_task(0), Ok(()));
    let pending = list.taks();
    assert_eq!(pending.len(), 1);
    assert_eq!(pending[0].title(), "b");
    let done = list.done();
    assert_eq!(done.len(), 2);
    assert_eq!(done[0].title(), "c");
    assert_eq!(done[1].title(), "a");
}

#[test]
fn remove_past_end_is_out_of_range() {
    let mut list = ToDoList::new();
    list.add_task("a", "1");
    list.add_task("b", "2");
    assert_eq!(
        list.remove_task(2),
        Err(ListError::IndexOutOfRange { index: 2, len: 2 })
    );
    assert_eq!(
        list.complete_task(7),
        Err(ListError::IndexOutOfRange { index: 7, len: 2 })
    );
    let pending = list.taks();
    assert_eq!(pending.len(), 2);
    assert_eq!(pending[0].title(), "a");
    assert_eq!(pending[1].title(), "b");
    assert!(list.done().is_empty());
}

#[test]
fn empty_list_refuses_complete_and_remove() {
    let mut list = ToDoList::new();
    list.add_task("x", "y");
    let _ = list.complete_task(0);
    assert_eq!(list.complete_task(0), Err(ListError::EmptyList));
    assert_eq!(list.remove_task(0), Err(ListError::EmptyList));
    assert!(list.taks().is_empty());
    assert_eq!(list.done().len(), 1);
}

#[test]
fn clear_done_keeps_pending() {
    let mut list = ToDoList::new();
    list.add_task("a", "1");
    list.add_task("b", "2");
    let _ = list.complete_task(0);
    list.clear_done();
    assert!(list.done().is_empty());
    assert_eq!(list.taks().len(), 1);
    list.clear_all();
    assert!(list.taks().is_empty());
    assert!(list.done().is_empty());
}

#[test]
fn from_existing_adopts_sequences() {
    let list = ToDoList::new_from_exisitng(
        vec![Task::new("p", "pd"), Task::new("p", "other")],
        vec![Task::new("p", "done")],
    );
    let pending = list.taks();
    assert_eq!(pending.len(), 2);
    assert_eq!(pending[1].description(), "other");
    assert_eq!(list.done()[0].description(), "done");
}

#[test]
fn tasks_equal_by_title_only() {
    assert!(Task::new("Cooking", "a") == Task::new("Cooking", "b"));
    assert!(Task::new("Cooking", "a") != Task::new("cooking", "a"));
}

#[test]
fn task_renders_on_two_lines() {
    let t = Task::new("Shop", "milk");
    assert_eq!(t.render(), "Shop \nDescription: \nmilk");
}

#[test]
fn render_empty_list() {
    let list = ToDoList::new();
    assert_eq!(list.render(), "Tasks: \nEmpty\nDone: \nEmpty\n");
}

#[test]
fn render_numbers_from_one() {
    let mut list = ToDoList::new();
    list.add_task("A", "a");
    list.add_task("B", "b");
    list.add_task("C", "c");
    let _ = list.complete_task(1);
    assert_eq!(
        list.render(),
        "Tasks: \n1.\nA \nDescription: \na\n2.\nC \nDescription: \nc\nDone: \n1.\nB \nDescription: \nb\n"
    );
}

#[test]
fn render_numbers_past_nine() {
    let mut list = ToDoList::new();
    let mut i = 0;
    while i < 12 {
        list.add_task("t", "d");
        i += 1;
    }
    let text = list.render();
    assert!(text.contains("\n9.\nt \nDescription: \nd\n10.\nt"));
    assert!(text.ends_with("12.\nt \nDescription: \nd\nDone: \nEmpty\n"));
}
