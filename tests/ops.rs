use ivly::ops::{
    bump_num, edit_by_id, finish_num_at, first_open_num, list_shows, move_num, new_task,
    parse_add_tags, passes_filters, remove_by_id, sweep, translate_task_num, TaskNumError,
};
use ivly::tags::{AddTag, FilterTag};
use ivly::task::{Done, Task, Tasks, Todo, TodoTask, TodoTasks};

fn task(id: &str, marked: Option<u64>) -> TodoTask {
    Task::from_parts(
        id.to_string(),
        id.to_uppercase(),
        String::new(),
        1,
        Vec::new(),
        Todo::new(marked),
    )
}

fn list(marks: &[(&str, Option<u64>)]) -> TodoTasks {
    Tasks(marks.iter().map(|(id, m)| task(id, *m)).collect())
}

fn ids<S>(tasks: &Tasks<S>) -> Vec<String> {
    tasks.0.iter().map(|t| t.id().to_string()).collect()
}

fn filters(words: &[&str]) -> Vec<FilterTag> {
    words.iter().map(|w| FilterTag::parse(w).unwrap()).collect()
}

#[test]
fn task_numbers_count_from_one() {
    let l = list(&[("a", None), ("b", None)]);
    assert_eq!(translate_task_num(&l, 1), Ok(0));
    assert_eq!(translate_task_num(&l, 2), Ok(1));
    assert_eq!(translate_task_num(&l, 0), Err(TaskNumError { num: 0, len: 2 }));
    assert_eq!(translate_task_num(&l, 3), Err(TaskNumError { num: 3, len: 2 }));
}

#[test]
fn first_open_number() {
    assert_eq!(first_open_num(&list(&[("a", Some(1)), ("b", None), ("c", None)])), 2);
    assert_eq!(first_open_num(&list(&[("a", Some(1))])), 1);
    assert_eq!(first_open_num(&list(&[])), 1);
}

#[test]
fn finish_by_number_or_first_open() {
    let mut l = list(&[("a", Some(1)), ("b", None), ("c", None)]);
    assert_eq!(finish_num_at(&mut l, None, 20), Ok(1));
    assert_eq!(l.0[1].state().marked(), Some(20));
    assert_eq!(finish_num_at(&mut l, Some(3), 30), Ok(2));
    assert_eq!(l.0[2].state().marked(), Some(30));
    assert_eq!(finish_num_at(&mut l, Some(1), 40), Ok(0));
    assert_eq!(l.0[0].state().marked(), Some(1));
    assert_eq!(finish_num_at(&mut l, Some(4), 40), Err(TaskNumError { num: 4, len: 3 }));
    let mut empty = list(&[]);
    assert_eq!(finish_num_at(&mut empty, None, 40), Err(TaskNumError { num: 1, len: 0 }));
}

#[test]
fn sweep_moves_finished_and_sorts_done() {
    let mut open = list(&[("a", Some(5)), ("b", None), ("c", Some(9)), ("d", None)]);
    let mut done: Tasks<Done> = Tasks(vec![Task::from_parts(
        "z".to_string(),
        "Z".to_string(),
        String::new(),
        1,
        Vec::new(),
        Done::new(7),
    )]);
    sweep(&mut open, &mut done);
    assert_eq!(ids(&open), vec!["b", "d"]);
    assert_eq!(ids(&done), vec!["c", "z", "a"]);
    assert_eq!(done.0[0].state().completed(), 9);
    assert_eq!(done.0[2].state().completed(), 5);
}

#[test]
fn bump_and_move_by_number() {
    let mut l = list(&[("a", None), ("b", None), ("c", None)]);
    assert_eq!(bump_num(&mut l, 1), Ok(()));
    assert_eq!(ids(&l), vec!["b", "c", "a"]);
    assert_eq!(bump_num(&mut l, 0), Err(TaskNumError { num: 0, len: 3 }));
    assert_eq!(move_num(&mut l, 2, 1), Ok(0));
    assert_eq!(ids(&l), vec!["c", "b", "a"]);
    assert_eq!(move_num(&mut l, 1, 3), Ok(1));
    assert_eq!(ids(&l), vec!["b", "c", "a"]);
    assert_eq!(move_num(&mut l, 1, 4), Err(TaskNumError { num: 4, len: 3 }));
    assert_eq!(move_num(&mut l, 9, 1), Err(TaskNumError { num: 9, len: 3 }));
    assert_eq!(ids(&l), vec!["b", "c", "a"]);
}

#[test]
fn edit_open_record_by_id() {
    let mut l = list(&[("a", None), ("b", None)]);
    l.0[1].tags = vec!["old".to_string(), "keep".to_string()];
    let found = edit_by_id(
        &mut l,
        "b",
        Some("new desc".to_string()),
        None,
        &filters(&["+t1", "/old", "+keep"]),
        true,
    );
    assert!(found);
    assert_eq!(l.0[1].description, "new desc");
    assert_eq!(l.0[1].note, "");
    assert_eq!(l.0[1].tags, vec!["keep".to_string(), "t1".to_string()]);
    assert_eq!(l.0[0].description, "A");
    assert!(!edit_by_id(&mut l, "zz", None, Some("n".to_string()), &[], true));
}

#[test]
fn edit_done_record_adds_even_negated_tags() {
    let mut l: Tasks<Done> = Tasks(vec![Task::from_parts(
        "d".to_string(),
        "D".to_string(),
        String::new(),
        1,
        vec!["x".to_string()],
        Done::new(3),
    )]);
    assert!(edit_by_id(&mut l, "d", None, Some("note".to_string()), &filters(&["/x", "/y"]), false));
    assert_eq!(l.0[0].tags, vec!["x".to_string(), "y".to_string()]);
    assert_eq!(l.0[0].note, "note");
}

#[test]
fn remove_by_id_drops_every_match() {
    let mut l = list(&[("a", None), ("b", None), ("a", None)]);
    assert!(remove_by_id(&mut l, "a"));
    assert_eq!(ids(&l), vec!["b"]);
    assert!(!remove_by_id(&mut l, "a"));
    assert_eq!(ids(&l), vec!["b"]);
}

#[test]
fn listing_flags() {
    assert_eq!(list_shows(false, false), (true, true));
    assert_eq!(list_shows(true, false), (true, false));
    assert_eq!(list_shows(false, true), (false, true));
    assert_eq!(list_shows(true, true), (true, true));
}

#[test]
fn all_filters_must_pass() {
    let tags = vec!["work".to_string(), "home".to_string()];
    assert!(passes_filters(&filters(&["+work", "/play"]), &tags));
    assert!(!passes_filters(&filters(&["+work", "/home"]), &tags));
    assert!(!passes_filters(&filters(&["+play"]), &tags));
    assert!(passes_filters(&[], &tags));
}

#[test]
fn new_task_with_note_and_tags() {
    let tags = vec![
        AddTag::parse("+a").unwrap(),
        AddTag::parse("+b").unwrap(),
        AddTag::parse("+a").unwrap(),
    ];
    let t = new_task("desc".to_string(), Some("note".to_string()), tags);
    assert_eq!(t.description, "desc");
    assert_eq!(t.note, "note");
    assert_eq!(t.tags, vec!["a".to_string(), "b".to_string()]);
    assert!(!t.is_finished());
    let u = new_task("d".to_string(), None, Vec::new());
    assert!(u.note.is_empty());
}

#[test]
fn interactive_tag_line() {
    let v = parse_add_tags("+one +two").unwrap();
    let names: Vec<&str> = v.iter().map(|t| t.as_str()).collect();
    assert_eq!(names, vec!["one", "two"]);
    assert_eq!(parse_add_tags("").err(), Some("tag must start with +"));
    assert_eq!(parse_add_tags("+one two").err(), Some("tag must start with +"));
    assert_eq!(parse_add_tags("+a  +b").err(), Some("tag must start with +"));
}
