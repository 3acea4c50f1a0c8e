//! What the commands do to the lists, between reading them and writing them.
use crate::tags::{AddTag, FilterTag};
use crate::tags::after_prefix;
use crate::task::{
    bumped, completed, finished, reposition_target, repositioned, sorted_by_completion,
    strings_view, tasks_view, with_tag, without_tag, Done, DoneTasks, Task, TaskView, Tasks, Todo,
    TodoTask, TodoTasks,
};
use crate::text::{split_by, split_on};
use vstd::prelude::*;

verus! {

/// A 1-based task number outside the list.
#[derive(Clone, Copy, Debug, PartialEq, Eq)]
pub struct TaskNumError {
    pub num: usize,
    pub len: usize,
}

/// The position of the task numbered `num` (counting from 1) in a list of
/// `len`, if there is one.
pub open spec fn task_index(num: int, len: int) -> Option<int> {
    if 1 <= num <= len {
        Some(num - 1)
    } else {
        None
    }
}

/// The position of task number `num`.
pub fn translate_task_num(tasks: &TodoTasks, num: usize) -> (r: Result<usize, TaskNumError>)
    ensures
        match task_index(num as int, tasks@.len() as int) {
            Some(i) => r == Ok::<usize, TaskNumError>(i as usize),
            None => r == Err::<usize, TaskNumError>(
                TaskNumError { num, len: tasks@.len() as usize },
            ),
        },
{
    let len = tasks.len();
    if 1 <= num && num <= len {
        Ok(num - 1)
    } else {
        Err(TaskNumError { num, len })
    }
}

/// The position of the first record not yet finished.
pub open spec fn first_unfinished(s: Seq<TaskView<Todo>>) -> Option<int>
    decreases s.len(),
{
    if s.len() == 0 {
        None
    } else if s[0].state.marked_at() is None {
        Some(0)
    } else {
        match first_unfinished(s.drop_first()) {
            Some(i) => Some(i + 1),
            None => None,
        }
    }
}

/// The number of the first task not yet finished, or 1 when all are.
pub fn first_open_num(tasks: &TodoTasks) -> (r: usize)
    ensures
        r == match first_unfinished(tasks@) {
            Some(i) => i + 1,
            None => 1,
        },
{
    let mut i: usize = 0;
    assert(tasks@.subrange(0, tasks@.len() as int) =~= tasks@);
    while i < tasks.len()
        invariant
            0 <= i <= tasks@.len(),
            first_unfinished(tasks@) == match first_unfinished(tasks@.subrange(i as int, tasks@.len() as int)) {
                Some(j) => Some(j + i),
                None => None,
            },
        decreases tasks@.len() - i,
    {
        let ghost rest = tasks@.subrange(i as int, tasks@.len() as int);
        assert(rest.drop_first() =~= tasks@.subrange(i + 1, tasks@.len() as int));
        if !tasks.0[i].is_finished() {
            return i + 1;
        }
        i += 1;
    }
    1
}

/// Marks task number `num` finished at `now` (the first unfinished task when
/// no number is given); returns its position.
pub fn finish_num_at(tasks: &mut TodoTasks, num: Option<usize>, now: u64) -> (r: Result<usize, TaskNumError>)
    ensures
        ({
            let n = match num {
                Some(n) => n as int,
                None => match first_unfinished(old(tasks)@) {
                    Some(i) => i + 1,
                    None => 1,
                },
            };
            match task_index(n, old(tasks)@.len() as int) {
                Some(i) => r == Ok::<usize, TaskNumError>(i as usize) && final(tasks)@ == old(tasks)@.update(
                    i,
                    finished(old(tasks)@[i], now),
                ),
                None => r == Err::<usize, TaskNumError>(
                    TaskNumError { num: n as usize, len: old(tasks)@.len() as usize },
                ) && final(tasks)@ == old(tasks)@,
            }
        }),
{
    let n = match num {
        Some(n) => n,
        None => first_open_num(tasks),
    };
    let i = translate_task_num(tasks, n)?;
    let _ = tasks.finish_at(i, now);
    Ok(i)
}

/// The open records not yet finished, in order.
pub open spec fn still_open(s: Seq<TaskView<Todo>>) -> Seq<TaskView<Todo>>
    decreases s.len(),
{
    if s.len() == 0 {
        s
    } else if s.last().state.marked_at() is Some {
        still_open(s.drop_last())
    } else {
        still_open(s.drop_last()).push(s.last())
    }
}

/// The finished open records, archived at their marker's time, in order.
pub open spec fn archived(s: Seq<TaskView<Todo>>) -> Seq<TaskView<Done>>
    decreases s.len(),
{
    if s.len() == 0 {
        Seq::empty()
    } else if s.last().state.marked_at() is Some {
        archived(s.drop_last()).push(completed(s.last(), 0))
    } else {
        archived(s.drop_last())
    }
}

/// Moves every finished open record to the done list, then orders the done
/// list from most recently completed to oldest.
pub fn sweep(open: &mut TodoTasks, done: &mut DoneTasks)
    ensures
        final(open)@ == still_open(old(open)@),
        final(done)@.to_multiset() == (old(done)@ + archived(old(open)@)).to_multiset(),
        sorted_by_completion(final(done)@),
{
    let ghost start = open@;
    let ghost n = open@.len();
    let ghost start_done = done@;
    let mut kept: Vec<TodoTask> = Vec::new();
    let ghost mut k: int = 0;
    assert(tasks_view(kept@) =~= still_open(start.subrange(0, 0)));
    assert(done@ =~= start_done + archived(start.subrange(0, 0)));
    while open.0.len() > 0
        invariant
            0 <= k <= n,
            n == start.len(),
            open@ == start.subrange(k, n as int),
            open.0.len() == n - k,
            tasks_view(kept@) == still_open(start.subrange(0, k)),
            done@ == start_done + archived(start.subrange(0, k)),
        decreases open.0.len(),
    {
        let ghost prefix = start.subrange(0, k + 1);
        assert(prefix.drop_last() =~= start.subrange(0, k));
        let ghost cur = open@;
        let t = open.0.remove(0);
        assert(open@ =~= cur.remove(0));
        assert(t@ == cur[0]);
        if t.is_finished() {
            let d = t.complete();
            done.push(d);
            assert(done@ =~= start_done + archived(prefix));
        } else {
            let ghost prev = kept@;
            kept.push(t);
            assert(tasks_view(kept@) =~= tasks_view(prev).push(t@));
        }
        proof {
            k = k + 1;
        }
        assert(open@ =~= start.subrange(k, n as int));
    }
    assert(start.subrange(0, k) =~= start);
    open.0 = kept;
    done.sort();
}

/// Moves task number `num` to the end of the list.
pub fn bump_num(tasks: &mut TodoTasks, num: usize) -> (r: Result<(), TaskNumError>)
    ensures
        match task_index(num as int, old(tasks)@.len() as int) {
            Some(i) => r is Ok && final(tasks)@ == bumped(old(tasks)@, i),
            None => r == Err::<(), TaskNumError>(
                TaskNumError { num, len: old(tasks)@.len() as usize },
            ) && final(tasks)@ == old(tasks)@,
        },
{
    let i = translate_task_num(tasks, num)?;
    let _ = tasks.bump(i);
    Ok(())
}

/// Moves task number `num` to sit before task number `before`; returns the
/// moved task's new position.
pub fn move_num(tasks: &mut TodoTasks, num: usize, before: usize) -> (r: Result<usize, TaskNumError>)
    ensures
        match (task_index(num as int, old(tasks)@.len() as int), task_index(before as int, old(tasks)@.len() as int)) {
            (Some(i), Some(j)) => r == Ok::<usize, TaskNumError>(reposition_target(i, j) as usize)
                && final(tasks)@ == repositioned(old(tasks)@, i, j),
            (None, _) => r == Err::<usize, TaskNumError>(
                TaskNumError { num, len: old(tasks)@.len() as usize },
            ) && final(tasks)@ == old(tasks)@,
            (Some(_), None) => r == Err::<usize, TaskNumError>(
                TaskNumError { num: before, len: old(tasks)@.len() as usize },
            ) && final(tasks)@ == old(tasks)@,
        },
{
    let i = translate_task_num(tasks, num)?;
    let j = translate_task_num(tasks, before)?;
    match tasks.reposition(i, j) {
        Ok(target) => Ok(target),
        Err(_) => Ok(j),
    }
}

/// The tag list after each filter in turn: `+tag` adds the tag; `/tag`
/// removes it when `negation_removes`, else adds it too.
pub open spec fn apply_filters(tags: Seq<Seq<char>>, fs: Seq<(bool, Seq<char>)>, negation_removes: bool) -> Seq<Seq<char>>
    decreases fs.len(),
{
    if fs.len() == 0 {
        tags
    } else {
        let r = apply_filters(tags, fs.drop_last(), negation_removes);
        if fs.last().0 && negation_removes {
            without_tag(r, fs.last().1)
        } else {
            with_tag(r, fs.last().1)
        }
    }
}

/// The filters' values.
pub open spec fn filters_view(fs: Seq<FilterTag>) -> Seq<(bool, Seq<char>)> {
    fs.map_values(|f: FilterTag| f@)
}

/// A record after an edit: the description and note replaced where given,
/// and the tag filters applied.
pub open spec fn edited<S>(
    t: TaskView<S>,
    description: Option<Seq<char>>,
    note: Option<Seq<char>>,
    fs: Seq<(bool, Seq<char>)>,
    negation_removes: bool,
) -> TaskView<S> {
    TaskView {
        description: match description {
            Some(d) => d,
            None => t.description,
        },
        note: match note {
            Some(n) => n,
            None => t.note,
        },
        tags: apply_filters(t.tags, fs, negation_removes),
        ..t
    }
}

/// The position of the first record with `id`.
pub open spec fn find_id<S>(s: Seq<TaskView<S>>, id: Seq<char>) -> Option<int>
    decreases s.len(),
{
    if s.len() == 0 {
        None
    } else if s[0].id == id {
        Some(0)
    } else {
        match find_id(s.drop_first(), id) {
            Some(i) => Some(i + 1),
            None => None,
        }
    }
}

proof fn lemma_find_id<S>(s: Seq<TaskView<S>>, id: Seq<char>)
    ensures
        match find_id(s, id) {
            Some(i) => 0 <= i < s.len() && s[i].id == id,
            None => forall|j: int| 0 <= j < s.len() ==> #[trigger] s[j].id != id,
        },
    decreases s.len(),
{
    if s.len() > 0 {
        lemma_find_id(s.drop_first(), id);
        if s[0].id != id {
            assert forall|j: int| 1 <= j < s.len() implies #[trigger] s[j].id == s.drop_first()[j - 1].id by {}
        }
    }
}

pub open spec fn opt_string(o: Option<String>) -> Option<Seq<char>> {
    match o {
        Some(s) => Some(s@),
        None => None,
    }
}

/// The position of the first record whose id is `id`.
pub fn position_of_id<S>(tasks: &Tasks<S>, id: &str) -> (r: Option<usize>)
    ensures
        match find_id(tasks@, id@) {
            Some(i) => r matches Some(j) && j == i,
            None => r is None,
        },
{
    let target = id.to_owned();
    let mut i: usize = 0;
    assert(tasks@.subrange(0, tasks@.len() as int) =~= tasks@);
    while i < tasks.0.len()
        invariant
            0 <= i <= tasks@.len(),
            target@ == id@,
            find_id(tasks@, id@) == match find_id(tasks@.subrange(i as int, tasks@.len() as int), id@) {
                Some(j) => Some(j + i),
                None => None,
            },
        decreases tasks@.len() - i,
    {
        let ghost rest = tasks@.subrange(i as int, tasks@.len() as int);
        assert(rest.drop_first() =~= tasks@.subrange(i + 1, tasks@.len() as int));
        if tasks.0[i].id == target {
            return Some(i);
        }
        i += 1;
    }
    None
}

/// Applies tag filters to a record in order.
fn apply_filters_to<S>(t: &mut Task<S>, tags: &[FilterTag], negation_removes: bool)
    ensures
        final(t)@ == (TaskView {
            tags: apply_filters(old(t)@.tags, filters_view(tags@), negation_removes),
            ..old(t)@
        }),
{
    let mut i: usize = 0;
    while i < tags.len()
        invariant
            0 <= i <= tags.len(),
            t@ == (TaskView {
                tags: apply_filters(old(t)@.tags, filters_view(tags@).subrange(0, i as int), negation_removes),
                ..old(t)@
            }),
        decreases tags.len() - i,
    {
        let ghost fs = filters_view(tags@).subrange(0, i + 1);
        assert(fs.drop_last() =~= filters_view(tags@).subrange(0, i as int));
        let f = &tags[i];
        if f.is_neg() && negation_removes {
            t.remove_tag(f.as_str());
        } else {
            t.add_tag(f.as_str().to_owned());
        }
        i += 1;
    }
    assert(filters_view(tags@).subrange(0, tags.len() as int) =~= filters_view(tags@));
}

/// Edits the first record with `id`, if any: replaces the description and
/// note where given, then applies the tag filters (`/tag` removes the tag when
/// `negation_removes`, else adds it). Returns whether a record was found.
pub fn edit_by_id<S>(
    tasks: &mut Tasks<S>,
    id: &str,
    description: Option<String>,
    note: Option<String>,
    tags: &[FilterTag],
    negation_removes: bool,
) -> (found: bool)
    ensures
        match find_id(old(tasks)@, id@) {
            Some(i) => found && final(tasks)@ == old(tasks)@.update(
                i,
                edited(old(tasks)@[i], opt_string(description), opt_string(note), filters_view(tags@), negation_removes),
            ),
            None => !found && final(tasks)@ == old(tasks)@,
        },
{
    proof {
        lemma_find_id(tasks@, id@);
    }
    match position_of_id(tasks, id) {
        Some(i) => {
            let ghost before = tasks@;
            let ghost new_t = edited(before[i as int], opt_string(description), opt_string(note), filters_view(tags@), negation_removes);
            let mut t = tasks.0.remove(i);
            match description {
                Some(d) => {
                    t.description = d;
                },
                None => {},
            }
            match note {
                Some(n) => {
                    t.note = n;
                },
                None => {},
            }
            apply_filters_to(&mut t, tags, negation_removes);
            tasks.0.insert(i, t);
            assert(tasks@ =~= before.update(i as int, new_t));
            true
        },
        None => false,
    }
}

/// The records whose id is not `id`, in order.
pub open spec fn without_id<S>(s: Seq<TaskView<S>>, id: Seq<char>) -> Seq<TaskView<S>>
    decreases s.len(),
{
    if s.len() == 0 {
        s
    } else if s.last().id == id {
        without_id(s.drop_last(), id)
    } else {
        without_id(s.drop_last(), id).push(s.last())
    }
}

/// Removes every record whose id is `id`; returns whether any was removed.
pub fn remove_by_id<S>(tasks: &mut Tasks<S>, id: &str) -> (removed: bool)
    ensures
        final(tasks)@ == without_id(old(tasks)@, id@),
        removed == (final(tasks)@.len() != old(tasks)@.len()),
{
    let target = id.to_owned();
    let old_len = tasks.0.len();
    let ghost start = tasks@;
    let ghost n = tasks@.len();
    let mut kept: Vec<Task<S>> = Vec::new();
    let ghost mut k: int = 0;
    assert(tasks_view(kept@) =~= without_id(start.subrange(0, 0), id@));
    while tasks.0.len() > 0
        invariant
            0 <= k <= n,
            n == start.len(),
            target@ == id@,
            tasks@ == start.subrange(k, n as int),
            tasks.0.len() == n - k,
            tasks_view(kept@) == without_id(start.subrange(0, k), id@),
        decreases tasks.0.len(),
    {
        let ghost prefix = start.subrange(0, k + 1);
        assert(prefix.drop_last() =~= start.subrange(0, k));
        let ghost cur = tasks@;
        let t = tasks.0.remove(0);
        assert(tasks@ =~= cur.remove(0));
        assert(t@ == cur[0]);
        if t.id != target {
            let ghost prev = kept@;
            kept.push(t);
            assert(tasks_view(kept@) =~= tasks_view(prev).push(t@));
        }
        proof {
            k = k + 1;
        }
        assert(tasks@ =~= start.subrange(k, n as int));
    }
    assert(start.subrange(0, k) =~= start);
    tasks.0 = kept;
    tasks.0.len() != old_len
}

/// Which lists a listing shows, given the `--open` and `--done` flags: both
/// unless exactly one of them is set.
pub fn list_shows(only_open: bool, only_done: bool) -> (r: (bool, bool))
    ensures
        r == (only_open || !only_done, only_done || !only_open),
{
    let both = !(only_open ^ only_done);
    (only_open || both, only_done || both)
}

/// Whether a record with `tags` passes the filter `f`.
pub open spec fn passes(f: (bool, Seq<char>), tags: Seq<Seq<char>>) -> bool {
    tags.contains(f.1) != f.0
}

/// Whether a record with `tags` passes every filter.
pub fn passes_filters(filters: &[FilterTag], tags: &[String]) -> (r: bool)
    ensures
        r == forall|i: int| 0 <= i < filters@.len() ==> passes(#[trigger] filters@[i]@, strings_view(tags@)),
{
    let mut i: usize = 0;
    while i < filters.len()
        invariant
            0 <= i <= filters@.len(),
            forall|j: int| 0 <= j < i ==> passes(#[trigger] filters@[j]@, strings_view(tags@)),
        decreases filters@.len() - i,
    {
        if !filters[i].filter(tags) {
            return false;
        }
        i += 1;
    }
    true
}

/// A new open record with a fresh id, created now, with the given note (or
/// none) and the given tags added in order.
pub fn new_task(description: String, note: Option<String>, tags: Vec<AddTag>) -> (r: TodoTask)
    ensures
        r@.description == description@,
        r@.note == match note {
            Some(n) => n@,
            None => Seq::<char>::empty(),
        },
        r@.tags == apply_filters(
            Seq::empty(),
            tags@.map_values(|t: AddTag| (false, t@)),
            true,
        ),
        r@.state.marked_at() is None,
{
    let mut task = TodoTask::new(description);
    match note {
        Some(n) => {
            task.note = n;
        },
        None => {},
    }
    let ghost fs = tags@.map_values(|t: AddTag| (false, t@));
    let ghost start = task@;
    assert(start.tags =~= Seq::<Seq<char>>::empty());
    let mut i: usize = 0;
    while i < tags.len()
        invariant
            0 <= i <= tags@.len(),
            fs == tags@.map_values(|t: AddTag| (false, t@)),
            task@ == (TaskView { tags: apply_filters(Seq::empty(), fs.subrange(0, i as int), true), ..start }),
        decreases tags@.len() - i,
    {
        assert(fs.subrange(0, i + 1).drop_last() =~= fs.subrange(0, i as int));
        task.add_tag(tags[i].as_str().to_owned());
        i += 1;
    }
    assert(fs.subrange(0, tags@.len() as int) =~= fs);
    task
}

/// The space-separated `+tag` words of `line`, in order; the first word that
/// is not a `+tag` makes it an error (an empty line is one empty word).
pub fn parse_add_tags(line: &str) -> (r: Result<Vec<AddTag>, &'static str>)
    ensures
        (forall|i: int| 0 <= i < split_on(line@, ' ').len() ==> #[trigger] after_prefix(split_on(line@, ' ')[i], '+') is Some)
            ==> (r matches Ok(v) && v@.len() == split_on(line@, ' ').len()
                && forall|i: int| 0 <= i < v@.len() ==> (#[trigger] v@[i])@ == split_on(line@, ' ')[i].drop_first()),
        !(forall|i: int| 0 <= i < split_on(line@, ' ').len() ==> #[trigger] after_prefix(split_on(line@, ' ')[i], '+') is Some)
            ==> (r matches Err(e) && e@ == "tag must start with +"@),
{
    let words = split_by(line, ' ');
    let ghost ws = split_on(line@, ' ');
    let mut out: Vec<AddTag> = Vec::new();
    let mut i: usize = 0;
    while i < words.len()
        invariant
            0 <= i <= words@.len(),
            ws == split_on(line@, ' '),
            strings_view(words@) == ws,
            out@.len() == i,
            forall|j: int| 0 <= j < i ==> #[trigger] after_prefix(ws[j], '+') is Some,
            forall|j: int| 0 <= j < i ==> (#[trigger] out@[j])@ == ws[j].drop_first(),
        decreases words@.len() - i,
    {
        assert(ws[i as int] == words@[i as int]@);
        match AddTag::parse(words[i].as_str()) {
            Ok(t) => {
                out.push(t);
            },
            Err(e) => {
                assert(after_prefix(split_on(line@, ' ')[i as int], '+') is None);
                return Err(e);
            },
        }
        i += 1;
    }
    Ok(out)
}

} // verus!
