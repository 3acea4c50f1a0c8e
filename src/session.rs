//! The interactive session over the open list: a selection cursor, a modal
//! field editor, and the all-or-nothing save/discard outcome.
//!
//! The terminal is driven elsewhere: each input key is handed to
//! [`Move::handle_key`], and what to draw is read back from the session.
use crate::task::{reposition_target, repositioned, TaskView, Todo, TodoTask, TodoTasks};
use crate::text::{joined, split_commas, split_commas_of, tag_csv};
use crate::trusted::{pop_char, push_char};
use vstd::prelude::*;

verus! {

/// How the session stands: still running, or ended with one of two outcomes.
#[derive(Clone, Copy, Debug, PartialEq, Eq, Structural)]
pub enum Exit {
    Continue,
    Save,
    Forget,
}

/// An editable field of a record.
#[derive(Clone, Copy, Debug, PartialEq, Eq, Structural)]
pub enum Field {
    Description,
    Note,
    Tags,
}

/// An input key, as far as the session tells keys apart.
#[derive(Clone, Copy, Debug, PartialEq, Eq, Structural)]
pub enum Key {
    Char(char),
    Up,
    Down,
    Home,
    End,
    Enter,
    Backspace,
    Other,
}

/// The edit mode: viewing, or editing one field of one record via a buffer.
#[derive(Debug)]
pub enum Editing {
    Viewing,
    Active { field: Field, idx: usize, buf: String },
}

/// The mathematical value of the edit mode.
pub enum EditView {
    Viewing,
    Active { field: Field, idx: int, buf: Seq<char> },
}

/// The mathematical value of a session.
pub struct MoveView {
    pub tasks: Seq<TaskView<Todo>>,
    pub selected: int,
    pub exit: Exit,
    pub show_help: bool,
    pub editing: EditView,
}

/// A session over a private copy of the open list.
#[derive(Debug)]
pub struct Move {
    tasks: TodoTasks,
    selected: usize,
    exit: Exit,
    show_help: bool,
    editing: Editing,
}

impl View for Editing {
    type V = EditView;

    open spec fn view(&self) -> EditView {
        match self {
            Editing::Viewing => EditView::Viewing,
            Editing::Active { field, idx, buf } => EditView::Active {
                field: *field,
                idx: *idx as int,
                buf: buf@,
            },
        }
    }
}

impl View for Move {
    type V = MoveView;

    closed spec fn view(&self) -> MoveView {
        MoveView {
            tasks: self.tasks@,
            selected: self.selected as int,
            exit: self.exit,
            show_help: self.show_help,
            editing: self.editing@,
        }
    }
}

/// The cursor lies within `[0, len]`.
pub open spec fn cursor_ok(m: MoveView) -> bool {
    0 <= m.selected <= m.tasks.len()
}

/// The session at its start over the list `tasks`.
pub open spec fn initial(tasks: Seq<TaskView<Todo>>) -> MoveView {
    MoveView { tasks, selected: 0, exit: Exit::Continue, show_help: false, editing: EditView::Viewing }
}

/// The committed text of a field: a tag list as its tags joined by commas.
pub open spec fn field_text(t: TaskView<Todo>, field: Field) -> Seq<char> {
    match field {
        Field::Description => t.description,
        Field::Note => t.note,
        Field::Tags => joined(t.tags),
    }
}

/// The record with `buf` written into a field: a tag list is replaced by the
/// pieces of `buf` between commas.
pub open spec fn with_field(t: TaskView<Todo>, field: Field, buf: Seq<char>) -> TaskView<Todo> {
    match field {
        Field::Description => TaskView { description: buf, ..t },
        Field::Note => TaskView { note: buf, ..t },
        Field::Tags => TaskView { tags: split_commas(buf), ..t },
    }
}

/// Starts editing `field` of the selected record with its committed text;
/// past the end the buffer starts empty.
pub open spec fn start_edit(m: MoveView, field: Field) -> MoveView {
    let buf = if m.selected < m.tasks.len() {
        field_text(m.tasks[m.selected], field)
    } else {
        Seq::empty()
    };
    MoveView { editing: EditView::Active { field, idx: m.selected, buf }, ..m }
}

/// Writes the buffer back into its record, if the record exists, and returns
/// to viewing.
pub open spec fn commit(m: MoveView) -> MoveView {
    match m.editing {
        EditView::Active { field, idx, buf } => MoveView {
            tasks: if 0 <= idx < m.tasks.len() {
                m.tasks.update(idx, with_field(m.tasks[idx], field, buf))
            } else {
                m.tasks
            },
            editing: EditView::Viewing,
            ..m
        },
        EditView::Viewing => m,
    }
}

/// Changes the edit buffer.
pub open spec fn with_buffer(m: MoveView, buf: Seq<char>) -> MoveView {
    match m.editing {
        EditView::Active { field, idx, .. } => MoveView {
            editing: EditView::Active { field, idx, buf },
            ..m
        },
        EditView::Viewing => m,
    }
}

/// Moves the selected record before the record at `before`; the cursor
/// follows it. Nothing happens when the cursor is past the end.
pub open spec fn shift(m: MoveView, before: int) -> MoveView {
    if m.selected < m.tasks.len() {
        MoveView {
            tasks: repositioned(m.tasks, m.selected, before),
            selected: reposition_target(m.selected, before),
            ..m
        }
    } else {
        m
    }
}

/// The priority slot a digit key jumps to.
pub open spec fn digit_slot(c: char) -> Option<int> {
    if c == '1' {
        Some(0)
    } else if c == '2' {
        Some(1)
    } else if c == '3' {
        Some(2)
    } else if c == '4' {
        Some(3)
    } else if c == '5' {
        Some(4)
    } else if c == '6' {
        Some(5)
    } else {
        None
    }
}

pub open spec fn min(a: int, b: int) -> int {
    if a <= b {
        a
    } else {
        b
    }
}

/// Whether `key` appends a new record.
pub open spec fn adds_task(m: MoveView, key: Key) -> bool {
    m.editing is Viewing && key == Key::Char('a')
}

/// A freshly made record: empty fields, not finished.
pub open spec fn is_blank(t: TaskView<Todo>) -> bool {
    &&& t.description.len() == 0
    &&& t.note.len() == 0
    &&& t.tags.len() == 0
    &&& t.state.marked_at() is None
}

/// The session after one key while viewing; `blank` is the record that the
/// add key appends.
pub open spec fn view_step(m: MoveView, key: Key, blank: TaskView<Todo>) -> MoveView {
    let len = m.tasks.len() as int;
    let sel = m.selected;
    match key {
        Key::Up => MoveView { selected: if sel > 0 { sel - 1 } else { 0 }, ..m },
        Key::Down => MoveView { selected: min(sel + 1, len), ..m },
        Key::Home => MoveView { selected: 0, ..m },
        Key::End => MoveView { selected: if len > 0 { len - 1 } else { 0 }, ..m },
        Key::Char(c) => {
            if c == 'q' {
                MoveView { exit: Exit::Save, ..m }
            } else if c == 'X' {
                MoveView { exit: Exit::Forget, ..m }
            } else if c == '=' {
                shift(m, if sel > 0 { sel - 1 } else { 0 })
            } else if c == '-' {
                shift(m, min(sel + 2, len))
            } else if digit_slot(c) is Some {
                shift(m, min(digit_slot(c)->0, len))
            } else if c == 'D' {
                if sel < len {
                    MoveView { tasks: m.tasks.remove(sel), ..m }
                } else {
                    m
                }
            } else if c == 'a' {
                start_edit(
                    MoveView { tasks: m.tasks.push(blank), selected: len, ..m },
                    Field::Description,
                )
            } else if c == '?' {
                MoveView { show_help: !m.show_help, ..m }
            } else if c == 'e' {
                start_edit(m, Field::Description)
            } else if c == 'n' {
                start_edit(m, Field::Note)
            } else if c == 't' {
                start_edit(m, Field::Tags)
            } else {
                m
            }
        },
        _ => m,
    }
}

/// The session after one key while editing: only the editing keys count.
pub open spec fn edit_step(m: MoveView, key: Key) -> MoveView {
    match m.editing {
        EditView::Active { buf, .. } => match key {
            Key::Enter => commit(m),
            Key::Backspace => if buf.len() > 0 {
                with_buffer(m, buf.drop_last())
            } else {
                m
            },
            Key::Char(c) => with_buffer(m, buf.push(c)),
            _ => m,
        },
        EditView::Viewing => m,
    }
}

/// The session after one key.
pub open spec fn step(m: MoveView, key: Key, blank: TaskView<Todo>) -> MoveView {
    match m.editing {
        EditView::Viewing => view_step(m, key, blank),
        EditView::Active { .. } => edit_step(m, key),
    }
}

/// The session after a run of keys; the `i`th key that adds a record adds
/// `blanks[i]`.
pub open spec fn run(m: MoveView, keys: Seq<Key>, blanks: Seq<TaskView<Todo>>) -> MoveView
    decreases keys.len(),
{
    if keys.len() == 0 {
        m
    } else {
        step(run(m, keys.drop_last(), blanks), keys.last(), blanks[keys.len() - 1])
    }
}

/// The list the caller keeps once a session ends: its own list when the
/// session was discarded, else the session's final list.
pub open spec fn outcome(m: MoveView, before: Seq<TaskView<Todo>>) -> Seq<TaskView<Todo>> {
    if m.exit == Exit::Forget {
        before
    } else {
        m.tasks
    }
}

/// Whether the cell of record `i` for `field` shows the edit buffer.
pub open spec fn shows_buffer(m: MoveView, i: int, field: Field) -> bool {
    m.editing matches EditView::Active { field: f, idx, .. } && f == field && idx == i
}

/// One key keeps the cursor within `[0, len]`.
pub proof fn lemma_step_keeps_cursor(m: MoveView, key: Key, blank: TaskView<Todo>)
    requires
        cursor_ok(m),
    ensures
        cursor_ok(step(m, key, blank)),
{
}

/// Whatever keys come, among them any number of removals, the cursor stays
/// within `[0, len]`.
pub proof fn lemma_run_keeps_cursor(m: MoveView, keys: Seq<Key>, blanks: Seq<TaskView<Todo>>)
    requires
        cursor_ok(m),
    ensures
        cursor_ok(run(m, keys, blanks)),
    decreases keys.len(),
{
    if keys.len() > 0 {
        lemma_run_keeps_cursor(m, keys.drop_last(), blanks);
        lemma_step_keeps_cursor(run(m, keys.drop_last(), blanks), keys.last(), blanks[keys.len() - 1]);
    }
}

/// A session ended with the discard key leaves the caller's list exactly as
/// it was before the session, whatever was reordered, edited, added or
/// removed on the way.
pub proof fn lemma_forget_restores(
    before: Seq<TaskView<Todo>>,
    keys: Seq<Key>,
    blanks: Seq<TaskView<Todo>>,
)
    requires
        run(initial(before), keys, blanks).exit == Exit::Forget,
    ensures
        outcome(run(initial(before), keys, blanks), before) == before,
{
}

/// A session ended with the save key hands the caller exactly the session's
/// final list.
pub proof fn lemma_save_keeps_final_list(
    before: Seq<TaskView<Todo>>,
    keys: Seq<Key>,
    blanks: Seq<TaskView<Todo>>,
)
    requires
        run(initial(before), keys, blanks).exit == Exit::Save,
    ensures
        outcome(run(initial(before), keys, blanks), before) == run(initial(before), keys, blanks).tasks,
{
}

/// The slot of a digit key, as `digit_slot` gives it.
fn digit_slot_of(c: char) -> (r: Option<usize>)
    ensures
        match digit_slot(c) {
            Some(s) => r == Some(s as usize),
            None => r is None,
        },
{
    if c == '1' {
        Some(0)
    } else if c == '2' {
        Some(1)
    } else if c == '3' {
        Some(2)
    } else if c == '4' {
        Some(3)
    } else if c == '5' {
        Some(4)
    } else if c == '6' {
        Some(5)
    } else {
        None
    }
}

impl Move {
    /// A session over a copy of `tasks`: cursor on the first row, viewing.
    pub fn new(tasks: &TodoTasks) -> (r: Move)
        ensures
            r@ == initial(tasks@),
    {
        Move {
            tasks: tasks.copy(),
            selected: 0,
            exit: Exit::Continue,
            show_help: false,
            editing: Editing::Viewing,
        }
    }

    pub fn exit(&self) -> (r: Exit)
        ensures
            r == self@.exit,
    {
        self.exit
    }

    pub fn selected(&self) -> (r: usize)
        ensures
            r == self@.selected,
    {
        self.selected
    }

    pub fn show_help(&self) -> (r: bool)
        ensures
            r == self@.show_help,
    {
        self.show_help
    }

    pub fn is_editing(&self) -> (r: bool)
        ensures
            r == self@.editing is Active,
    {
        match self.editing {
            Editing::Viewing => false,
            Editing::Active { .. } => true,
        }
    }

    /// The session's current list.
    pub fn tasks(&self) -> (r: &TodoTasks)
        ensures
            r@ == self@.tasks,
    {
        &self.tasks
    }

    /// The text to show for `field` of record `i`, and whether it is the
    /// in-progress edit buffer rather than the committed value.
    pub fn cell_text(&self, i: usize, field: Field) -> (r: (String, bool))
        requires
            i < self@.tasks.len(),
        ensures
            r.1 == shows_buffer(self@, i as int, field),
            r.1 ==> r.0@ == self@.editing->buf,
            !r.1 ==> r.0@ == field_text(self@.tasks[i as int], field),
    {
        match &self.editing {
            Editing::Active { field: f, idx, buf } => {
                if *f == field && *idx == i {
                    return (buf.clone(), true);
                }
            },
            Editing::Viewing => {},
        }
        let t = &self.tasks.0[i];
        let text = match field {
            Field::Description => t.description.clone(),
            Field::Note => t.note.clone(),
            Field::Tags => tag_csv(t.tags.as_slice()),
        };
        (text, false)
    }

    fn start_edit(&mut self, field: Field)
        ensures
            final(self)@ == start_edit(old(self)@, field),
    {
        let idx = self.selected;
        let buf = if idx < self.tasks.0.len() {
            let t = &self.tasks.0[idx];
            match field {
                Field::Description => t.description.clone(),
                Field::Note => t.note.clone(),
                Field::Tags => tag_csv(t.tags.as_slice()),
            }
        } else {
            String::new()
        };
        self.editing = Editing::Active { field, idx, buf };
    }

    fn commit(&mut self)
        ensures
            final(self)@ == commit(old(self)@),
    {
        let mut mode = Editing::Viewing;
        std::mem::swap(&mut self.editing, &mut mode);
        match mode {
            Editing::Active { field, idx, buf } => {
                if idx < self.tasks.0.len() {
                    let ghost prev = self.tasks@;
                    let mut t = self.tasks.0.remove(idx);
                    match field {
                        Field::Description => {
                            t.description = buf;
                        },
                        Field::Note => {
                            t.note = buf;
                        },
                        Field::Tags => {
                            t.tags = split_commas_of(buf.as_str());
                        },
                    }
                    self.tasks.0.insert(idx, t);
                    assert(self.tasks@ =~= prev.update(idx as int, with_field(prev[idx as int], field, buf@)));
                }
            },
            Editing::Viewing => {},
        }
    }

    /// Moves the selected record before the record at `before`.
    fn shift(&mut self, before: usize)
        requires
            cursor_ok(old(self)@),
            before <= old(self)@.tasks.len(),
        ensures
            final(self)@ == shift(old(self)@, before as int),
    {
        if self.selected < self.tasks.len() {
            match self.tasks.reposition(self.selected, before) {
                Ok(target) => {
                    self.selected = target;
                },
                Err(_) => {},
            }
        }
    }

    /// Appends `blank`, selects it and starts editing its description.
    fn add_task(&mut self, blank: TodoTask)
        requires
            old(self)@.editing is Viewing,
        ensures
            final(self)@ == view_step(old(self)@, Key::Char('a'), blank@),
    {
        let len = self.tasks.len();
        self.tasks.push(blank);
        self.selected = len;
        self.start_edit(Field::Description);
    }

    /// One key while viewing, other than the add key.
    fn view_key(&mut self, key: Key)
        requires
            cursor_ok(old(self)@),
            old(self)@.editing is Viewing,
            key != Key::Char('a'),
        ensures
            forall|b: TaskView<Todo>| #[trigger] view_step(old(self)@, key, b) == final(self)@,
    {
        let len = self.tasks.len();
        let sel = self.selected;
        match key {
            Key::Up => {
                self.selected = if sel > 0 {
                    sel - 1
                } else {
                    0
                };
            },
            Key::Down => {
                self.selected = if sel < len {
                    sel + 1
                } else {
                    len
                };
            },
            Key::Home => {
                self.selected = 0;
            },
            Key::End => {
                self.selected = if len > 0 {
                    len - 1
                } else {
                    0
                };
            },
            Key::Char(c) => {
                if c == 'q' {
                    self.exit = Exit::Save;
                } else if c == 'X' {
                    self.exit = Exit::Forget;
                } else if c == '=' {
                    self.shift(
                        if sel > 0 {
                            sel - 1
                        } else {
                            0
                        },
                    );
                } else if c == '-' {
                    self.shift(
                        if len - sel >= 2 {
                            sel + 2
                        } else {
                            len
                        },
                    );
                } else if let Some(slot) = digit_slot_of(c) {
                    self.shift(
                        if slot <= len {
                            slot
                        } else {
                            len
                        },
                    );
                } else if c == 'D' {
                    if sel < len {
                        let _ = self.tasks.remove_at(sel);
                    }
                } else if c == '?' {
                    self.show_help = !self.show_help;
                } else if c == 'e' {
                    self.start_edit(Field::Description);
                } else if c == 'n' {
                    self.start_edit(Field::Note);
                } else if c == 't' {
                    self.start_edit(Field::Tags);
                }
            },
            _ => {},
        }
    }

    /// One key while editing.
    fn edit_key(&mut self, key: Key)
        requires
            old(self)@.editing is Active,
        ensures
            final(self)@ == edit_step(old(self)@, key),
    {
        match key {
            Key::Enter => self.commit(),
            Key::Backspace => {
                match &mut self.editing {
                    Editing::Active { buf, .. } => {
                        let _ = pop_char(buf);
                    },
                    Editing::Viewing => {},
                }
            },
            Key::Char(c) => {
                match &mut self.editing {
                    Editing::Active { buf, .. } => {
                        push_char(buf, c);
                    },
                    Editing::Viewing => {},
                }
            },
            _ => {},
        }
    }

    /// Applies one key; `blank` is the record appended if the key adds one.
    pub fn apply_key(&mut self, key: Key, blank: TodoTask)
        requires
            cursor_ok(old(self)@),
        ensures
            final(self)@ == step(old(self)@, key, blank@),
            cursor_ok(final(self)@),
    {
        proof {
            lemma_step_keeps_cursor(self@, key, blank@);
        }
        if self.is_editing() {
            self.edit_key(key);
        } else if key == Key::Char('a') {
            self.add_task(blank);
        } else {
            self.view_key(key);
        }
    }

    /// Applies one key; a key that adds a record appends a fresh blank one.
    pub fn handle_key(&mut self, key: Key)
        requires
            cursor_ok(old(self)@),
        ensures
            exists|b: TaskView<Todo>| is_blank(b) && final(self)@ == step(old(self)@, key, b),
            cursor_ok(final(self)@),
    {
        let ghost b = TaskView {
            id: Seq::empty(),
            description: Seq::empty(),
            note: Seq::empty(),
            created: 0,
            tags: Seq::empty(),
            state: Todo { marked: None },
        };
        proof {
            lemma_step_keeps_cursor(self@, key, b);
        }
        if self.is_editing() {
            self.edit_key(key);
            assert(is_blank(b) && self@ == step(old(self)@, key, b));
        } else if key == Key::Char('a') {
            let blank = TodoTask::new(String::new());
            proof {
                lemma_step_keeps_cursor(self@, key, blank@);
            }
            self.add_task(blank);
            assert(is_blank(blank@) && self@ == step(old(self)@, key, blank@));
        } else {
            self.view_key(key);
            assert(is_blank(b) && self@ == step(old(self)@, key, b));
        }
    }

    /// Ends the session: unless it was discarded, its list replaces the
    /// caller's. Returns whether the list was kept.
    pub fn conclude(self, tasks: &mut TodoTasks) -> (saved: bool)
        ensures
            saved == (self@.exit != Exit::Forget),
            final(tasks)@ == outcome(self@, old(tasks)@),
    {
        match self.exit {
            Exit::Forget => false,
            _ => {
                *tasks = self.tasks;
                true
            },
        }
    }
}

} // verus!
