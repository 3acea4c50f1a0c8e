use ivly::session::{Exit, Field, Key, Move};
use ivly::task::{Task, Tasks, Todo, TodoTask, TodoTasks};

fn task(id: &str, description: &str) -> TodoTask {
    Task::from_parts(
        id.to_string(),
        description.to_string(),
        String::new(),
        100,
        Vec::new(),
        Todo::new(None),
    )
}

fn abc() -> TodoTasks {
    Tasks(vec![task("a", "A"), task("b", "B"), task("c", "C")])
}

fn descriptions(tasks: &TodoTasks) -> Vec<String> {
    tasks.0.iter().map(|t| t.description.clone()).collect()
}

fn press(m: &mut Move, keys: &[Key]) {
    for k in keys {
        m.handle_key(*k);
    }
}

fn type_text(m: &mut Move, text: &str) {
    for c in text.chars() {
        m.handle_key(Key::Char(c));
    }
}

#[test]
fn shift_earlier_from_last_row() {
    let list = abc();
    let mut m = Move::new(&list);
    press(&mut m, &[Key::Down, Key::Down]);
    assert_eq!(m.selected(), 2);
    m.handle_key(Key::Char('='));
    assert_eq!(descriptions(m.tasks()), vec!["A", "C", "B"]);
    assert_eq!(m.selected(), 1);
}

#[test]
fn shift_later_from_first_row() {
    let list = abc();
    let mut m = Move::new(&list);
    m.handle_key(Key::Char('-'));
    assert_eq!(descriptions(m.tasks()), vec!["B", "A", "C"]);
    assert_eq!(m.selected(), 1);
}

#[test]
fn shift_later_from_last_row_stays() {
    let list = abc();
    let mut m = Move::new(&list);
    press(&mut m, &[Key::End, Key::Char('-')]);
    assert_eq!(descriptions(m.tasks()), vec!["A", "B", "C"]);
    assert_eq!(m.selected(), 2);
}

#[test]
fn digit_one_moves_to_top() {
    let list = abc();
    let mut m = Move::new(&list);
    press(&mut m, &[Key::Down, Key::Down, Key::Char('1')]);
    assert_eq!(descriptions(m.tasks()), vec!["C", "A", "B"]);
    assert_eq!(m.selected(), 0);
}

#[test]
fn digit_beyond_length_moves_to_end() {
    let list = abc();
    let mut m = Move::new(&list);
    m.handle_key(Key::Char('6'));
    assert_eq!(descriptions(m.tasks()), vec!["B", "C", "A"]);
    assert_eq!(m.selected(), 2);
}

#[test]
fn tag_buffer_split_on_commas() {
    let list = abc();
    let mut m = Move::new(&list);
    m.handle_key(Key::Char('t'));
    assert!(m.is_editing());
    type_text(&mut m, "x,y");
    m.handle_key(Key::Enter);
    assert!(!m.is_editing());
    assert_eq!(m.tasks().0[0].tags, vec!["x".to_string(), "y".to_string()]);
}

#[test]
fn empty_tag_buffer_gives_one_empty_tag() {
    let list = abc();
    let mut m = Move::new(&list);
    m.handle_key(Key::Char('t'));
    m.handle_key(Key::Enter);
    assert_eq!(m.tasks().0[0].tags, vec![String::new()]);
}

#[test]
fn tag_edit_starts_from_joined_tags() {
    let mut list = abc();
    list.0[1].tags = vec!["p".to_string(), "q".to_string()];
    let mut m = Move::new(&list);
    press(&mut m, &[Key::Down, Key::Char('t')]);
    assert_eq!(m.cell_text(1, Field::Tags), ("p,q".to_string(), true));
    press(&mut m, &[Key::Backspace, Key::Backspace, Key::Backspace, Key::Backspace]);
    assert_eq!(m.cell_text(1, Field::Tags), (String::new(), true));
    m.handle_key(Key::Enter);
    assert_eq!(m.tasks().0[1].tags, vec![String::new()]);
    assert_eq!(m.cell_text(1, Field::Tags), (String::new(), false));
}

#[test]
fn discard_leaves_caller_list_untouched() {
    let mut list = abc();
    let mut m = Move::new(&list);
    press(&mut m, &[Key::Char('-'), Key::Char('e')]);
    type_text(&mut m, "zz");
    press(&mut m, &[Key::Enter, Key::Char('a')]);
    type_text(&mut m, "new");
    press(&mut m, &[Key::Enter, Key::Home, Key::Char('D'), Key::Char('X')]);
    assert_eq!(m.exit(), Exit::Forget);
    let saved = m.conclude(&mut list);
    assert!(!saved);
    assert_eq!(descriptions(&list), vec!["A", "B", "C"]);
    assert_eq!(list.0[0].id(), "a");
}

#[test]
fn save_hands_back_final_list() {
    let mut list = abc();
    let mut m = Move::new(&list);
    press(&mut m, &[Key::Char('-'), Key::Char('n')]);
    type_text(&mut m, "note");
    press(&mut m, &[Key::Enter, Key::Char('q')]);
    assert_eq!(m.exit(), Exit::Save);
    let expected = descriptions(m.tasks());
    let saved = m.conclude(&mut list);
    assert!(saved);
    assert_eq!(descriptions(&list), expected);
    assert_eq!(descriptions(&list), vec!["B", "A", "C"]);
    assert_eq!(list.0[1].note, "note");
    assert_eq!(list.0.len(), 3);
}

#[test]
fn removals_keep_cursor_in_range() {
    let list = abc();
    let mut m = Move::new(&list);
    press(&mut m, &[Key::End, Key::Char('D')]);
    assert_eq!(descriptions(m.tasks()), vec!["A", "B"]);
    assert_eq!(m.selected(), 2);
    m.handle_key(Key::Char('D'));
    assert_eq!(m.tasks().len(), 2);
    press(&mut m, &[Key::Home, Key::Char('D'), Key::Char('D'), Key::Char('D')]);
    assert_eq!(m.tasks().len(), 0);
    assert_eq!(m.selected(), 0);
    press(&mut m, &[Key::Down, Key::Up, Key::End]);
    assert_eq!(m.selected(), 0);
}

#[test]
fn down_stops_one_past_the_end() {
    let list = abc();
    let mut m = Move::new(&list);
    press(&mut m, &[Key::Down, Key::Down, Key::Down, Key::Down]);
    assert_eq!(m.selected(), 3);
    m.handle_key(Key::Char('='));
    assert_eq!(descriptions(m.tasks()), vec!["A", "B", "C"]);
    m.handle_key(Key::Up);
    assert_eq!(m.selected(), 2);
}

#[test]
fn add_key_appends_blank_and_edits_it() {
    let list = abc();
    let mut m = Move::new(&list);
    m.handle_key(Key::Char('a'));
    assert_eq!(m.tasks().len(), 4);
    assert_eq!(m.selected(), 3);
    assert!(m.is_editing());
    assert!(!m.tasks().0[3].is_finished());
    type_text(&mut m, "Dq");
    m.handle_key(Key::Enter);
    assert_eq!(m.tasks().0[3].description, "Dq");
    assert_eq!(m.exit(), Exit::Continue);
    assert_eq!(m.tasks().0[3].id().chars().count(), 4);
}

#[test]
fn apply_key_appends_given_record() {
    let list = abc();
    let mut m = Move::new(&list);
    m.apply_key(Key::Char('a'), task("d", "pre"));
    assert_eq!(m.cell_text(3, Field::Description), ("pre".to_string(), true));
    m.apply_key(Key::Enter, task("unused", ""));
    assert_eq!(m.tasks().0[3].id(), "d");
    assert_eq!(m.tasks().0[3].description, "pre");
}

#[test]
fn editing_suppresses_other_keys() {
    let list = abc();
    let mut m = Move::new(&list);
    m.handle_key(Key::Char('e'));
    press(&mut m, &[Key::Char('q'), Key::Char('X'), Key::Down, Key::Char('D'), Key::Char('?')]);
    assert_eq!(m.exit(), Exit::Continue);
    assert_eq!(m.selected(), 0);
    assert!(!m.show_help());
    assert_eq!(m.cell_text(0, Field::Description), ("AqXD?".to_string(), true));
    assert_eq!(m.cell_text(0, Field::Note), (String::new(), false));
    assert_eq!(m.cell_text(1, Field::Description), ("B".to_string(), false));
    m.handle_key(Key::Enter);
    assert_eq!(m.tasks().0[0].description, "AqXD?");
}

#[test]
fn backspace_on_empty_buffer_does_nothing() {
    let list = abc();
    let mut m = Move::new(&list);
    m.handle_key(Key::Char('n'));
    press(&mut m, &[Key::Backspace, Key::Backspace]);
    assert_eq!(m.cell_text(0, Field::Note), (String::new(), true));
    assert!(m.is_editing());
}

#[test]
fn help_toggle_and_unknown_keys() {
    let list = abc();
    let mut m = Move::new(&list);
    press(&mut m, &[Key::Char('?'), Key::Other, Key::Char('z'), Key::Enter, Key::Backspace]);
    assert!(m.show_help());
    assert!(!m.is_editing());
    assert_eq!(descriptions(m.tasks()), vec!["A", "B", "C"]);
    m.handle_key(Key::Char('?'));
    assert!(!m.show_help());
}

#[test]
fn edit_past_end_writes_nothing() {
    let list = abc();
    let mut m = Move::new(&list);
    press(&mut m, &[Key::End, Key::Down, Key::Char('e')]);
    assert!(m.is_editing());
    type_text(&mut m, "lost");
    m.handle_key(Key::Enter);
    assert_eq!(descriptions(m.tasks()), vec!["A", "B", "C"]);
}
