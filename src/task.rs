//! Task records, their open/done status, and ordered lists of them.
use crate::trusted::{duration_from_secs, random_id, unix_now};
use vstd::prelude::*;

verus! {

/// Number of characters in a freshly generated task id.
pub const ID_LEN: usize = 4;

/// Status of an open task: finished-but-not-archived when `marked` is set.
#[derive(Clone, Copy, Debug)]
pub struct Todo {
    pub(crate) marked: Option<Done>,
}

/// Status of an archived task: when it was completed.
#[derive(Clone, Copy, Debug)]
pub struct Done {
    /// Seconds since UNIX epoch.
    pub(crate) completed: u64,
}

/// A task record, generic over its status.
#[derive(Debug)]
pub struct Task<S> {
    pub(crate) id: String,
    pub description: String,
    pub note: String,
    /// Seconds since UNIX epoch.
    pub(crate) created: u64,
    pub tags: Vec<String>,
    pub(crate) state: S,
}

pub type TodoTask = Task<Todo>;

pub type DoneTask = Task<Done>;

/// The mathematical value of a task record.
pub struct TaskView<S> {
    pub id: Seq<char>,
    pub description: Seq<char>,
    pub note: Seq<char>,
    pub created: u64,
    pub tags: Seq<Seq<char>>,
    pub state: S,
}

/// The characters of each string of a sequence.
pub open spec fn strings_view(v: Seq<String>) -> Seq<Seq<char>> {
    v.map_values(|t: String| t@)
}

impl<S> View for Task<S> {
    type V = TaskView<S>;

    open(crate) spec fn view(&self) -> TaskView<S> {
        TaskView {
            id: self.id@,
            description: self.description@,
            note: self.note@,
            created: self.created,
            tags: strings_view(self.tags@),
            state: self.state,
        }
    }
}

/// Seconds elapsed from `from` to `to`, zero if `to` is earlier.
pub open spec fn elapsed(from: u64, to: u64) -> u64 {
    if to >= from {
        (to - from) as u64
    } else {
        0
    }
}

/// The status after finishing at time `now`: an existing marker is kept.
pub open(crate) spec fn finished_state(s: Todo, now: u64) -> Todo {
    match s.marked {
        Some(_) => s,
        None => Todo { marked: Some(Done { completed: now }) },
    }
}

/// The record after finishing at time `now`.
pub open(crate) spec fn finished(t: TaskView<Todo>, now: u64) -> TaskView<Todo> {
    TaskView { state: finished_state(t.state, now), ..t }
}

/// The completion time an open record gets when archived at time `now`.
pub open(crate) spec fn completion_time(s: Todo, now: u64) -> u64 {
    match s.marked {
        Some(d) => d.completed,
        None => now,
    }
}

/// The archived record made from an open one at time `now`.
pub open(crate) spec fn completed(t: TaskView<Todo>, now: u64) -> TaskView<Done> {
    TaskView {
        id: t.id,
        description: t.description,
        note: t.note,
        created: t.created,
        tags: t.tags,
        state: Done { completed: completion_time(t.state, now) },
    }
}

impl Done {
    /// A completion stamp at `completed` seconds since the epoch.
    pub fn new(completed: u64) -> (r: Done)
        ensures
            r.completed_at() == completed,
    {
        Done { completed }
    }

    pub open(crate) spec fn completed_at(&self) -> u64 {
        self.completed
    }

    pub fn completed(&self) -> (r: u64)
        ensures
            r == self.completed_at(),
    {
        self.completed
    }

    /// Seconds from completion to `now`, zero if `now` is earlier.
    pub fn secs_since_completed(&self, now: u64) -> (r: u64)
        ensures
            r == elapsed(self.completed_at(), now),
    {
        if now >= self.completed {
            now - self.completed
        } else {
            0
        }
    }

    fn duration_since_completed(&self) -> std::time::Duration {
        duration_from_secs(self.secs_since_completed(unix_now()))
    }
}

impl Todo {
    /// An open status, finished at `marked` if given.
    pub fn new(marked: Option<u64>) -> (r: Todo)
        ensures
            r.marked_at() == marked,
    {
        match marked {
            Some(completed) => Todo { marked: Some(Done { completed }) },
            None => Todo { marked: None },
        }
    }

    pub open(crate) spec fn marked_at(&self) -> Option<u64> {
        match self.marked {
            Some(d) => Some(d.completed),
            None => None,
        }
    }

    /// When the task was marked finished, if it was.
    pub fn marked(&self) -> (r: Option<u64>)
        ensures
            r == self.marked_at(),
    {
        match self.marked {
            Some(d) => Some(d.completed),
            None => None,
        }
    }
}

impl Default for Todo {
    fn default() -> (r: Todo)
        ensures
            r.marked_at() is None,
    {
        Todo { marked: None }
    }
}

impl<S: Copy> Clone for Task<S> {
    fn clone(&self) -> (r: Self)
        ensures
            r@ == self@,
    {
        Task {
            id: self.id.clone(),
            description: self.description.clone(),
            note: self.note.clone(),
            created: self.created,
            tags: clone_strings(&self.tags),
            state: self.state,
        }
    }
}

/// A copy of a vector of strings.
pub fn clone_strings(v: &Vec<String>) -> (r: Vec<String>)
    ensures
        r@ == v@,
{
    let r = v.clone();
    assert forall|i: int| 0 <= i < v.len() implies r@[i] == v@[i] by {
        assert(cloned::<String>(v[i], r[i]));
    }
    assert(r@ =~= v@);
    r
}

/// Whether a sequence of strings holds `s`.
pub fn contains_string(v: &[String], s: &String) -> (r: bool)
    ensures
        r == strings_view(v@).contains(s@),
{
    let mut i: usize = 0;
    while i < v.len()
        invariant
            0 <= i <= v.len(),
            forall|j: int| 0 <= j < i ==> (#[trigger] v@[j])@ != s@,
        decreases v.len() - i,
    {
        if v[i] == *s {
            assert(strings_view(v@)[i as int] == s@);
            return true;
        }
        i += 1;
    }
    proof {
        if strings_view(v@).contains(s@) {
            let j = choose|j: int| 0 <= j < strings_view(v@).len() && strings_view(v@)[j] == s@;
            assert(v@[j]@ == s@);
        }
    }
    false
}

/// The tag list after adding `t`: unchanged if `t` is already there.
pub open spec fn with_tag(tags: Seq<Seq<char>>, t: Seq<char>) -> Seq<Seq<char>> {
    if tags.contains(t) {
        tags
    } else {
        tags.push(t)
    }
}

/// The tag list with every occurrence of `t` left out, order kept.
pub open spec fn without_tag(tags: Seq<Seq<char>>, t: Seq<char>) -> Seq<Seq<char>>
    decreases tags.len(),
{
    if tags.len() == 0 {
        tags
    } else if tags.last() == t {
        without_tag(tags.drop_last(), t)
    } else {
        without_tag(tags.drop_last(), t).push(tags.last())
    }
}

/// A list position outside the list.
#[derive(Clone, Copy, Debug, PartialEq, Eq)]
pub struct IndexError {
    pub index: usize,
    pub len: usize,
}

impl<S> Task<S> {
    /// A record made of the given parts.
    pub fn from_parts(
        id: String,
        description: String,
        note: String,
        created: u64,
        tags: Vec<String>,
        state: S,
    ) -> (r: Self)
        ensures
            r@ == (TaskView {
                id: id@,
                description: description@,
                note: note@,
                created,
                tags: strings_view(tags@),
                state,
            }),
    {
        Task { id, description, note, created, tags, state }
    }

    pub fn id(&self) -> (r: &str)
        ensures
            r@ == self@.id,
    {
        self.id.as_str()
    }

    /// Creation time, in seconds since the epoch.
    pub fn created(&self) -> (r: u64)
        ensures
            r == self@.created,
    {
        self.created
    }

    pub fn state(&self) -> (r: &S)
        ensures
            *r == self@.state,
    {
        &self.state
    }

    pub fn tags(&self) -> (r: &[String])
        ensures
            strings_view(r@) == self@.tags,
    {
        self.tags.as_slice()
    }

    /// Adds a tag at the end, unless the record already has it.
    pub fn add_tag(&mut self, tag: String)
        ensures
            final(self)@ == (TaskView { tags: with_tag(old(self)@.tags, tag@), ..old(self)@ }),
    {
        if !contains_string(self.tags.as_slice(), &tag) {
            self.tags.push(tag);
            proof {
                assert(strings_view(self.tags@) =~= strings_view(old(self).tags@).push(tag@));
            }
        }
    }

    /// Removes every occurrence of a tag.
    pub fn remove_tag(&mut self, tag: &str)
        ensures
            final(self)@ == (TaskView { tags: without_tag(old(self)@.tags, tag@), ..old(self)@ }),
    {
        let t = tag.to_owned();
        let mut kept: Vec<String> = Vec::new();
        let mut i: usize = 0;
        while i < self.tags.len()
            invariant
                0 <= i <= self.tags.len(),
                t@ == tag@,
                strings_view(kept@) == without_tag(strings_view(self.tags@).subrange(0, i as int), tag@),
            decreases self.tags.len() - i,
        {
            let ghost before = strings_view(self.tags@).subrange(0, i as int);
            assert(strings_view(self.tags@).subrange(0, i + 1).drop_last() =~= before);
            if self.tags[i] != t {
                kept.push(self.tags[i].clone());
                assert(strings_view(kept@) =~= without_tag(before, tag@).push(self.tags@[i as int]@));
            }
            i += 1;
        }
        assert(strings_view(self.tags@).subrange(0, self.tags.len() as int) =~= strings_view(self.tags@));
        self.tags = kept;
    }

    /// Seconds from creation to `now`, zero if `now` is earlier.
    pub fn secs_since_creation(&self, now: u64) -> (r: u64)
        ensures
            r == elapsed(self@.created, now),
    {
        if now >= self.created {
            now - self.created
        } else {
            0
        }
    }

    pub fn duration_since_creation(&self) -> std::time::Duration {
        duration_from_secs(self.secs_since_creation(unix_now()))
    }
}

impl Task<Todo> {
    /// A blank record: fresh id, created now, not finished.
    pub fn new(description: String) -> (r: Self)
        ensures
            r@.id.len() == ID_LEN,
            r@.description == description@,
            r@.note.len() == 0,
            r@.tags.len() == 0,
            r@.state.marked_at() is None,
    {
        let r = Task {
            id: random_id(ID_LEN),
            description,
            note: String::new(),
            created: unix_now(),
            tags: Vec::new(),
            state: Todo { marked: None },
        };
        assert(strings_view(r.tags@) =~= Seq::empty());
        r
    }

    /// Marks the record finished at `now`, unless it already is.
    pub fn finish_at(&mut self, now: u64)
        ensures
            final(self)@ == finished(old(self)@, now),
    {
        if self.state.marked.is_none() {
            self.state = Todo { marked: Some(Done { completed: now }) };
        }
    }

    /// Marks the record finished at the current time, unless it already is.
    pub fn finish(&mut self)
        ensures
            exists|now: u64| final(self)@ == finished(old(self)@, now),
            old(self)@.state.marked_at() is Some ==> final(self)@ == old(self)@,
    {
        if self.state.marked.is_none() {
            self.finish_at(unix_now());
        } else {
            assert(finished(old(self)@, 0) == old(self)@);
        }
    }

    pub fn is_finished(&self) -> (r: bool)
        ensures
            r == self@.state.marked_at() is Some,
    {
        self.state.marked.is_some()
    }

    /// Seconds since the record was marked finished at `now`, if it was.
    pub fn secs_since_finished(&self, now: u64) -> (r: Option<u64>)
        ensures
            match self@.state.marked_at() {
                Some(c) => r == Some(elapsed(c, now)),
                None => r is None,
            },
    {
        match self.state.marked {
            Some(d) => Some(d.secs_since_completed(now)),
            None => None,
        }
    }

    pub fn duration_since_finished(&self) -> (r: Option<std::time::Duration>)
        ensures
            r is Some == self@.state.marked_at() is Some,
    {
        match self.state.marked {
            Some(d) => Some(d.duration_since_completed()),
            None => None,
        }
    }

    /// The archived record, completed at the marker's time if finished,
    /// else at `now`.
    pub fn complete_at(self, now: u64) -> (r: DoneTask)
        ensures
            r@ == completed(self@, now),
    {
        let Task { id, description, note, created, tags, state } = self;
        let state = match state.marked {
            Some(d) => d,
            None => Done { completed: now },
        };
        Task { id, description, note, created, tags, state }
    }

    /// The archived record, completed at the marker's time if finished,
    /// else at the current time.
    pub fn complete(self) -> (r: DoneTask)
        ensures
            exists|now: u64| r@ == completed(self@, now),
            self@.state.marked_at() matches Some(c) ==> r@ == completed(self@, c),
    {
        match self.state.marked {
            Some(d) => self.complete_at(d.completed),
            None => self.complete_at(unix_now()),
        }
    }
}

impl Default for Task<Todo> {
    fn default() -> (r: Self)
        ensures
            r@.id.len() == ID_LEN,
            r@.description.len() == 0,
            r@.note.len() == 0,
            r@.tags.len() == 0,
            r@.state.marked_at() is None,
    {
        Task::<Todo>::new(String::new())
    }
}

impl Task<Done> {
    pub fn duration_since_completed(&self) -> std::time::Duration {
        self.state.duration_since_completed()
    }
}

/// An ordered list of task records; for open tasks the order is priority.
#[derive(Debug)]
pub struct Tasks<T>(pub Vec<Task<T>>);

pub type TodoTasks = Tasks<Todo>;

pub type DoneTasks = Tasks<Done>;

/// The record values of a vector of records.
pub open spec fn tasks_view<T>(v: Seq<Task<T>>) -> Seq<TaskView<T>> {
    v.map_values(|t: Task<T>| t@)
}

impl<T> View for Tasks<T> {
    type V = Seq<TaskView<T>>;

    open spec fn view(&self) -> Seq<TaskView<T>> {
        tasks_view(self.0@)
    }
}

/// Where a record moved from `from` to sit before the record at
/// `to_before` ends up: one less when it moved later, since its own slot
/// closed up.
pub open spec fn reposition_target(from: int, to_before: int) -> int {
    if from < to_before {
        to_before - 1
    } else {
        to_before
    }
}

/// The list after moving the record at `from` to sit immediately before the
/// record that was at `to_before` (at the end when `to_before` is the length).
pub open spec fn repositioned<A>(s: Seq<A>, from: int, to_before: int) -> Seq<A> {
    s.remove(from).insert(reposition_target(from, to_before), s[from])
}

/// The list after moving the record at `i` to the end.
pub open spec fn bumped<A>(s: Seq<A>, i: int) -> Seq<A> {
    s.remove(i).push(s[i])
}

impl<T> Tasks<T> {
    pub fn new() -> (r: Self)
        ensures
            r@.len() == 0,
    {
        let r = Tasks(Vec::new());
        assert(r@ =~= Seq::empty());
        r
    }

    pub fn len(&self) -> (r: usize)
        ensures
            r == self@.len(),
    {
        self.0.len()
    }

    pub fn is_empty(&self) -> (r: bool)
        ensures
            r == (self@.len() == 0),
    {
        self.0.len() == 0
    }

    pub fn get(&self, i: usize) -> (r: Option<&Task<T>>)
        ensures
            i < self@.len() ==> (r matches Some(t) && t@ == self@[i as int]),
            i >= self@.len() ==> r is None,
    {
        if i < self.0.len() {
            Some(&self.0[i])
        } else {
            None
        }
    }

    /// Appends a record at the end; ids are not checked.
    pub fn push(&mut self, task: Task<T>)
        ensures
            final(self)@ == old(self)@.push(task@),
    {
        self.0.push(task);
        assert(final(self)@ =~= old(self)@.push(task@)) by {
            assert(self@ =~= old(self)@.push(task@));
        }
    }

    /// Removes and returns the record at `i`.
    pub fn remove_at(&mut self, i: usize) -> (r: Result<Task<T>, IndexError>)
        ensures
            i < old(self)@.len() ==> (r matches Ok(t) && t@ == old(self)@[i as int]
                && final(self)@ == old(self)@.remove(i as int)),
            i >= old(self)@.len() ==> r == Err::<Task<T>, IndexError>(
                IndexError { index: i, len: old(self)@.len() as usize },
            ) && final(self)@ == old(self)@,
    {
        if i < self.0.len() {
            let t = self.0.remove(i);
            assert(self@ =~= old(self)@.remove(i as int));
            Ok(t)
        } else {
            Err(IndexError { index: i, len: self.0.len() })
        }
    }

    /// Moves the record at `from` to sit immediately before the record now at
    /// `to_before`, or to the end when `to_before` is the length; returns the
    /// record's new position.
    pub fn reposition(&mut self, from: usize, to_before: usize) -> (r: Result<usize, IndexError>)
        ensures
            from < old(self)@.len() && to_before <= old(self)@.len() ==> r == Ok::<usize, IndexError>(
                reposition_target(from as int, to_before as int) as usize,
            ) && final(self)@ == repositioned(old(self)@, from as int, to_before as int),
            from >= old(self)@.len() ==> r == Err::<usize, IndexError>(
                IndexError { index: from, len: old(self)@.len() as usize },
            ) && final(self)@ == old(self)@,
            from < old(self)@.len() < to_before ==> r == Err::<usize, IndexError>(
                IndexError { index: to_before, len: old(self)@.len() as usize },
            ) && final(self)@ == old(self)@,
    {
        let len = self.0.len();
        if from >= len {
            return Err(IndexError { index: from, len });
        }
        if to_before > len {
            return Err(IndexError { index: to_before, len });
        }
        let target = if from < to_before {
            to_before - 1
        } else {
            to_before
        };
        let t = self.0.remove(from);
        self.0.insert(target, t);
        assert(self@ =~= repositioned(old(self)@, from as int, to_before as int));
        Ok(target)
    }

    /// Moves the record at `i` to the end.
    pub fn bump(&mut self, i: usize) -> (r: Result<(), IndexError>)
        ensures
            i < old(self)@.len() ==> r is Ok && final(self)@ == bumped(old(self)@, i as int),
            i >= old(self)@.len() ==> r == Err::<(), IndexError>(
                IndexError { index: i, len: old(self)@.len() as usize },
            ) && final(self)@ == old(self)@,
    {
        if i >= self.0.len() {
            return Err(IndexError { index: i, len: self.0.len() });
        }
        let t = self.0.remove(i);
        self.0.push(t);
        assert(self@ =~= bumped(old(self)@, i as int));
        Ok(())
    }

    pub fn into_iter(self) -> std::vec::IntoIter<Task<T>> {
        self.0.into_iter()
    }
}

impl<T: Copy> Tasks<T> {
    /// A copy of the list.
    pub fn copy(&self) -> (r: Self)
        ensures
            r@ == self@,
    {
        let mut v: Vec<Task<T>> = Vec::new();
        let mut i: usize = 0;
        while i < self.0.len()
            invariant
                0 <= i <= self.0.len(),
                tasks_view(v@) == tasks_view(self.0@).subrange(0, i as int),
            decreases self.0.len() - i,
        {
            let c = self.0[i].clone();
            let ghost prev = v@;
            v.push(c);
            assert(tasks_view(v@) =~= tasks_view(prev).push(self.0@[i as int]@));
            assert(tasks_view(v@) =~= tasks_view(self.0@).subrange(0, i + 1));
            i += 1;
        }
        assert(tasks_view(self.0@).subrange(0, i as int) =~= tasks_view(self.0@));
        Tasks(v)
    }
}

impl Tasks<Todo> {
    /// Marks the record at `i` finished at `now`, unless it already is.
    pub fn finish_at(&mut self, i: usize, now: u64) -> (r: Result<(), IndexError>)
        ensures
            i < old(self)@.len() ==> r is Ok && final(self)@ == old(self)@.update(
                i as int,
                finished(old(self)@[i as int], now),
            ),
            i >= old(self)@.len() ==> r == Err::<(), IndexError>(
                IndexError { index: i, len: old(self)@.len() as usize },
            ) && final(self)@ == old(self)@,
    {
        if i >= self.0.len() {
            return Err(IndexError { index: i, len: self.0.len() });
        }
        let mut t = self.0.remove(i);
        t.finish_at(now);
        self.0.insert(i, t);
        assert(self@ =~= old(self)@.update(i as int, finished(old(self)@[i as int], now)));
        Ok(())
    }

    /// Marks the record at `i` finished at the current time, unless it
    /// already is.
    pub fn finish(&mut self, i: usize) -> (r: Result<(), IndexError>)
        ensures
            i < old(self)@.len() ==> r is Ok && exists|now: u64| final(self)@ == old(self)@.update(
                i as int,
                finished(old(self)@[i as int], now),
            ),
            i >= old(self)@.len() ==> r == Err::<(), IndexError>(
                IndexError { index: i, len: old(self)@.len() as usize },
            ) && final(self)@ == old(self)@,
    {
        self.finish_at(i, unix_now())
    }
}

/// Every record completed no earlier than every record after it.
pub open(crate) spec fn sorted_by_completion(s: Seq<TaskView<Done>>) -> bool {
    forall|i: int, j: int|
        0 <= i < j < s.len() ==> #[trigger] s[i].state.completed >= #[trigger] s[j].state.completed
}

impl Tasks<Done> {
    /// Sorts the records from most recently completed to oldest.
    pub fn sort(&mut self)
        ensures
            final(self)@.to_multiset() == old(self)@.to_multiset(),
            sorted_by_completion(final(self)@),
    {
        broadcast use vstd::seq_lib::group_to_multiset_ensures;
        let mut out: Vec<Task<Done>> = Vec::new();
        assert(tasks_view(out@) =~= Seq::empty());
        while self.0.len() > 0
            invariant
                self@.to_multiset().add(tasks_view(out@).to_multiset()) == old(self)@.to_multiset(),
                sorted_by_completion(tasks_view(out@)),
            decreases self.0.len(),
        {
            let ghost rest = self@;
            let t = self.0.remove(0);
            assert(self@ =~= rest.remove(0));
            let key = t.state.completed;
            let mut p: usize = 0;
            while p < out.len() && out[p].state.completed >= key
                invariant
                    0 <= p <= out.len(),
                    forall|j: int| 0 <= j < p ==> (#[trigger] out@[j]).state.completed >= key,
                decreases out.len() - p,
            {
                p += 1;
            }
            let ghost before = tasks_view(out@);
            out.insert(p, t);
            assert(tasks_view(out@) =~= before.insert(p as int, t@));
            proof {
                vstd::seq_lib::to_multiset_insert(before, p as int, t@);
                vstd::seq_lib::to_multiset_remove(rest, 0);
                assert(rest[0] == t@);
                assert(rest.contains(t@));
                vstd::seq_lib::to_multiset_contains(rest, t@);
                assert(rest.to_multiset().count(t@) > 0);
                assert(self@.to_multiset() =~= rest.to_multiset().remove(t@));
                assert(tasks_view(out@).to_multiset() =~= before.to_multiset().insert(t@));
                assert(self@.to_multiset().add(tasks_view(out@).to_multiset()) =~= rest.to_multiset().add(
                    before.to_multiset(),
                ));
                assert forall|i: int, j: int| 0 <= i < j < tasks_view(out@).len() implies
                    #[trigger] tasks_view(out@)[i].state.completed
                        >= #[trigger] tasks_view(out@)[j].state.completed by {
                    if p < before.len() {
                        assert(before[p as int].state.completed < key);
                    }
                    if i < p && j > p {
                        assert(before[i].state.completed >= key);
                    }
                }
            }
        }
        self.0 = out;
        assert(self@.to_multiset() == old(self)@.to_multiset()) by {
            assert(Seq::<TaskView<Done>>::empty().to_multiset() =~= vstd::multiset::Multiset::empty());
        }
    }
}

/// Moving a record to sit before itself, or before its own successor, leaves
/// the list as it was, and the record (with the cursor that follows it) where
/// it was.
pub proof fn lemma_reposition_in_place<A>(s: Seq<A>, i: int)
    requires
        0 <= i < s.len(),
    ensures
        repositioned(s, i, i) == s,
        reposition_target(i, i) == i,
        repositioned(s, i, i + 1) == s,
        reposition_target(i, i + 1) == i,
{
    assert(repositioned(s, i, i) =~= s);
    assert(repositioned(s, i, i + 1) =~= s);
}

/// Finishing twice is finishing once: the second time changes nothing and
/// the completion time stays that of the first.
pub proof fn lemma_finish_idempotent(t: TaskView<Todo>, first: u64, second: u64)
    ensures
        finished(finished(t, first), second) == finished(t, first),
        finished(t, first).state.marked_at() == Some(
            match t.state.marked_at() {
                Some(c) => c,
                None => first,
            },
        ),
{
}

/// Archiving a record never finished stamps it with the time of archiving;
/// archiving a finished one keeps the marker's time exactly.
pub proof fn lemma_complete_stamp(t: TaskView<Todo>, now: u64)
    ensures
        t.state.marked_at() is None ==> completed(t, now).state.completed_at() == now,
        t.state.marked_at() matches Some(c) ==> completed(t, now).state.completed_at() == c,
{
}

} // verus!
