use ivly::task::{Done, IndexError, Task, Tasks, Todo, TodoTask, ID_LEN};

fn task(id: &str, description: &str, marked: Option<u64>) -> TodoTask {
    Task::from_parts(
        id.to_string(),
        description.to_string(),
        String::new(),
        100,
        Vec::new(),
        Todo::new(marked),
    )
}

fn done(id: &str, completed: u64) -> Task<Done> {
    Task::from_parts(id.to_string(), id.to_string(), String::new(), 1, Vec::new(), Done::new(completed))
}

fn ids<S>(tasks: &Tasks<S>) -> Vec<String> {
    tasks.0.iter().map(|t| t.id().to_string()).collect()
}

#[test]
fn reposition_onto_itself_is_no_op() {
    for i in 0..3 {
        let mut l = Tasks(vec![task("a", "A", None), task("b", "B", None), task("c", "C", None)]);
        assert_eq!(l.reposition(i, i), Ok(i));
        assert_eq!(ids(&l), vec!["a", "b", "c"]);
        assert_eq!(l.reposition(i, i + 1), Ok(i));
        assert_eq!(ids(&l), vec!["a", "b", "c"]);
    }
}

#[test]
fn reposition_before_original_neighbour() {
    let mut l = Tasks(vec![task("a", "A", None), task("b", "B", None), task("c", "C", None)]);
    assert_eq!(l.reposition(0, 2), Ok(1));
    assert_eq!(ids(&l), vec!["b", "a", "c"]);
    assert_eq!(l.reposition(2, 0), Ok(0));
    assert_eq!(ids(&l), vec!["c", "b", "a"]);
    assert_eq!(l.reposition(0, 3), Ok(2));
    assert_eq!(ids(&l), vec!["b", "a", "c"]);
}

#[test]
fn reposition_out_of_range() {
    let mut l = Tasks(vec![task("a", "A", None), task("b", "B", None)]);
    assert_eq!(l.reposition(2, 0), Err(IndexError { index: 2, len: 2 }));
    assert_eq!(l.reposition(0, 3), Err(IndexError { index: 3, len: 2 }));
    assert_eq!(ids(&l), vec!["a", "b"]);
}

#[test]
fn remove_at_returns_record_or_index_error() {
    let mut l = Tasks(vec![task("a", "A", None), task("b", "B", None)]);
    let r = l.remove_at(2);
    assert_eq!(r.err(), Some(IndexError { index: 2, len: 2 }));
    let t = l.remove_at(0).unwrap();
    assert_eq!(t.id(), "a");
    assert_eq!(ids(&l), vec!["b"]);
}

#[test]
fn finish_twice_keeps_first_time() {
    let mut t = task("a", "A", None);
    assert!(!t.is_finished());
    t.finish_at(50);
    assert_eq!(t.state().marked(), Some(50));
    t.finish_at(90);
    assert_eq!(t.state().marked(), Some(50));
    t.finish();
    assert_eq!(t.state().marked(), Some(50));
    assert!(t.is_finished());
}

#[test]
fn finish_by_index() {
    let mut l = Tasks(vec![task("a", "A", None), task("b", "B", Some(7))]);
    assert_eq!(l.finish_at(0, 10), Ok(()));
    assert_eq!(l.finish_at(1, 10), Ok(()));
    assert_eq!(l.0[0].state().marked(), Some(10));
    assert_eq!(l.0[1].state().marked(), Some(7));
    assert_eq!(l.finish_at(2, 10), Err(IndexError { index: 2, len: 2 }));
    assert_eq!(l.finish(5), Err(IndexError { index: 5, len: 2 }));
}

#[test]
fn complete_unfinished_uses_given_time() {
    let mut t = task("a", "A", None);
    t.note = "n".to_string();
    t.tags = vec!["x".to_string()];
    let d = t.complete_at(300);
    assert_eq!(d.state().completed(), 300);
    assert_eq!(d.id(), "a");
    assert_eq!(d.description, "A");
    assert_eq!(d.note, "n");
    assert_eq!(d.tags, vec!["x".to_string()]);
    assert_eq!(d.created(), 100);
}

#[test]
fn complete_finished_keeps_marker_time() {
    let t = task("a", "A", Some(42));
    assert_eq!(t.clone().complete_at(300).state().completed(), 42);
    assert_eq!(t.complete().state().completed(), 42);
}

#[test]
fn add_tag_rejects_duplicates_and_remove_tag_drops_all() {
    let mut t = task("a", "A", None);
    t.add_tag("x".to_string());
    t.add_tag("y".to_string());
    t.add_tag("x".to_string());
    assert_eq!(t.tags(), ["x".to_string(), "y".to_string()]);
    t.tags.push("x".to_string());
    t.remove_tag("x");
    assert_eq!(t.tags, vec!["y".to_string()]);
    t.remove_tag("absent");
    assert_eq!(t.tags, vec!["y".to_string()]);
}

#[test]
fn new_task_is_blank_with_short_id() {
    let t = TodoTask::new("hello".to_string());
    assert_eq!(t.id().chars().count(), ID_LEN);
    assert_eq!(t.description, "hello");
    assert!(t.note.is_empty());
    assert!(t.tags.is_empty());
    assert!(!t.is_finished());
    assert!(t.duration_since_finished().is_none());
    let d = TodoTask::default();
    assert_eq!(d.id().len(), 4);
    assert!(d.description.is_empty());
}

#[test]
fn ages_saturate_at_zero() {
    let t = task("a", "A", Some(150));
    assert_eq!(t.secs_since_creation(160), 60);
    assert_eq!(t.secs_since_creation(50), 0);
    assert_eq!(t.secs_since_finished(200), Some(50));
    assert_eq!(task("b", "B", None).secs_since_finished(200), None);
    assert_eq!(Done::new(10).secs_since_completed(5), 0);
}

#[test]
fn sort_puts_latest_completion_first_and_is_stable() {
    let mut l = Tasks(vec![done("a", 5), done("b", 9), done("c", 5), done("d", 1), done("e", 9)]);
    l.sort();
    assert_eq!(ids(&l), vec!["b", "e", "a", "c", "d"]);
    let mut empty: Tasks<Done> = Tasks::new();
    empty.sort();
    assert!(empty.is_empty());
}

#[test]
fn bump_and_copy() {
    let mut l = Tasks(vec![task("a", "A", None), task("b", "B", None), task("c", "C", None)]);
    let copy = l.copy();
    assert_eq!(l.bump(0), Ok(()));
    assert_eq!(ids(&l), vec!["b", "c", "a"]);
    assert_eq!(l.bump(3), Err(IndexError { index: 3, len: 3 }));
    assert_eq!(ids(&copy), vec!["a", "b", "c"]);
    assert_eq!(l.get(2).map(|t| t.id().to_string()), Some("a".to_string()));
    assert!(l.get(3).is_none());
    let all: Vec<String> = l.into_iter().map(|t| t.description).collect();
    assert_eq!(all, vec!["B", "C", "A"]);
}
