use vstd::prelude::*;

verus! {

use vstd::string::StrSliceExecFns;

/// Longest accepted title, in characters.
pub const MAX_TITLE_LEN: usize = 200;

/// Longest accepted description, in characters.
pub const MAX_DESC_LEN: usize = 2000;

/// A single task record. A task freshly built by `Todo::new` carries the
/// reserved id 0; a task held by a `TodoStore` carries the non-zero id the
/// store assigned when it was created.
#[derive(Debug)]
pub struct Todo {
    pub id: u64,
    pub title: String,
    pub description: Option<String>,
    pub completed: bool,
}

/// The two failure kinds of the store: a lookup for an id that no stored task
/// carries, and a field that breaks one of the length rules, with a message
/// naming the violated rule.
#[derive(Debug)]
pub enum TodoError {
    NotFound,
    ValidationError(String),
}

/// Mathematical image of a single task record.
#[verifier::ext_equal]
pub ghost struct TaskView {
    pub id: u64,
    pub title: Seq<char>,
    pub description: Option<Seq<char>>,
    pub completed: bool,
}

impl View for Todo {
    type V = TaskView;

    open spec fn view(&self) -> TaskView {
        TaskView {
            id: self.id,
            title: self.title@,
            description: match self.description {
                Some(d) => Some(d@),
                None => None,
            },
            completed: self.completed,
        }
    }
}

/// A title is accepted when it has between 1 and `MAX_TITLE_LEN` characters.
pub open spec fn valid_title(title: Seq<char>) -> bool {
    1 <= title.len() <= MAX_TITLE_LEN
}

/// A description is accepted when it is absent or has at most `MAX_DESC_LEN`
/// characters.
pub open spec fn valid_description(description: Option<Seq<char>>) -> bool {
    description matches Some(d) ==> d.len() <= MAX_DESC_LEN
}

/// The character sequences of an optional borrowed string.
pub open spec fn opt_view(s: Option<&str>) -> Option<Seq<char>> {
    match s {
        Some(d) => Some(d@),
        None => None,
    }
}

/// The message carried by the error for a rejected title.
pub open spec fn title_error_message() -> Seq<char> {
    "Title must be between 1 and 200 characters"@
}

/// The message carried by the error for a rejected description.
pub open spec fn description_error_message() -> Seq<char> {
    "Description must be at most 2000 characters"@
}

/// `e` reports a rejected title.
pub open spec fn is_title_error(e: TodoError) -> bool {
    e matches TodoError::ValidationError(m) && m@ == title_error_message()
}

/// `e` reports a rejected description.
pub open spec fn is_description_error(e: TodoError) -> bool {
    e matches TodoError::ValidationError(m) && m@ == description_error_message()
}

/// The one shared title check: every place that accepts a title goes through it.
fn check_title(title: &str) -> (r: Result<(), TodoError>)
    ensures
        r is Ok <==> valid_title(title@),
        r matches Err(e) ==> is_title_error(e),
{
    let n = title.unicode_len();
    if n == 0 || n > MAX_TITLE_LEN {
        Err(TodoError::ValidationError(
            "Title must be between 1 and 200 characters".to_owned(),
        ))
    } else {
        Ok(())
    }
}

/// The one shared description check: every place that accepts a description
/// goes through it.
fn check_description(description: &str) -> (r: Result<(), TodoError>)
    ensures
        r is Ok <==> description@.len() <= MAX_DESC_LEN,
        r matches Err(e) ==> is_description_error(e),
{
    let n = description.unicode_len();
    if n > MAX_DESC_LEN {
        Err(TodoError::ValidationError(
            "Description must be at most 2000 characters".to_owned(),
        ))
    } else {
        Ok(())
    }
}

impl Clone for Todo {
    fn clone(&self) -> (res: Self)
        ensures
            res@ == self@,
    {
        let res = Todo {
            id: self.id,
            title: self.title.clone(),
            description: match &self.description {
                Some(d) => Some(d.clone()),
                None => None,
            },
            completed: self.completed,
        };
        proof {
            assert(res@ =~= self@);
        }
        res
    }
}

impl Todo {
    /// Validates the fields and returns a task that is not yet stored: its id
    /// is the reserved 0 and it is not completed. Fails exactly when the title
    /// is empty or too long, or the description is present and too long.
    pub fn new(title: &str, description: Option<&str>) -> (r: Result<Self, TodoError>)
        ensures
            r is Ok <==> valid_title(title@) && valid_description(opt_view(description)),
            r matches Ok(t) ==> t@ == (TaskView {
                id: 0,
                title: title@,
                description: opt_view(description),
                completed: false,
            }),
            r matches Err(e) ==> ({
                &&& !valid_title(title@) ==> is_title_error(e)
                &&& valid_title(title@) ==> is_description_error(e)
            }),
    {
        if let Err(e) = check_title(title) {
            return Err(e);
        }
        let description_owned: Option<String> = match description {
            Some(d) => {
                if let Err(e) = check_description(d) {
                    return Err(e);
                }
                Some(d.to_owned())
            },
            None => None,
        };
        let t = Todo {
            id: 0,
            title: title.to_owned(),
            description: description_owned,
            completed: false,
        };
        proof {
            assert(t@ =~= (TaskView {
                id: 0,
                title: title@,
                description: opt_view(description),
                completed: false,
            }));
        }
        Ok(t)
    }
}

/// The in-memory repository: the stored tasks in insertion order, and the
/// counter for the next id to hand out.
pub struct TodoStore {
    items: Vec<Todo>,
    next_id: u64,
}

/// Mathematical image of the store.
#[verifier::ext_equal]
pub ghost struct StoreView {
    pub tasks: Seq<TaskView>,
    pub next_id: u64,
}

impl View for TodoStore {
    type V = StoreView;

    closed spec fn view(&self) -> StoreView {
        StoreView {
            tasks: self.items@.map_values(|t: Todo| t@),
            next_id: self.next_id,
        }
    }
}

/// Some stored task carries the id.
pub open spec fn contains_id(tasks: Seq<TaskView>, id: u64) -> bool {
    exists|i: int| 0 <= i < tasks.len() && tasks[i].id == id
}

/// The position of the task that carries the id (meaningful under
/// `contains_id`; with the store's id uniqueness it is the one position).
pub open spec fn index_of_id(tasks: Seq<TaskView>, id: u64) -> int {
    choose|i: int| 0 <= i < tasks.len() && tasks[i].id == id
}

/// The stored task that carries the id.
pub open spec fn task_with_id(tasks: Seq<TaskView>, id: u64) -> TaskView {
    tasks[index_of_id(tasks, id)]
}

/// The title change of an update is acceptable: either no title is provided,
/// or the provided one obeys the title rule.
pub open spec fn update_title_ok(title: Option<&str>) -> bool {
    title matches Some(t) ==> valid_title(t@)
}

/// The description change of an update is acceptable: either none is provided,
/// or it clears the description, or the provided value obeys the length rule.
pub open spec fn update_description_ok(description: Option<Option<&str>>) -> bool {
    description matches Some(Some(d)) ==> d@.len() <= MAX_DESC_LEN
}

/// The task as an update leaves it: each provided field replaces the old one
/// (a provided-as-absent description clears it), each omitted field keeps its
/// prior value, and the id never moves.
pub open spec fn apply_update(
    t: TaskView,
    title: Option<&str>,
    description: Option<Option<&str>>,
    completed: Option<bool>,
) -> TaskView {
    TaskView {
        id: t.id,
        title: match title {
            Some(new_title) => new_title@,
            None => t.title,
        },
        description: match description {
            Some(d) => opt_view(d),
            None => t.description,
        },
        completed: match completed {
            Some(c) => c,
            None => t.completed,
        },
    }
}

/// A task passes the listing filter: always when no flag is asked for,
/// otherwise exactly when its `completed` flag equals the asked-for value.
pub open spec fn matches_filter(t: TaskView, filter: Option<bool>) -> bool {
    filter matches Some(c) ==> t.completed == c
}

/// The stored tasks that pass the listing filter, in insertion order.
pub open spec fn filtered_tasks(tasks: Seq<TaskView>, filter: Option<bool>) -> Seq<TaskView>
    decreases tasks.len(),
{
    if tasks.len() == 0 {
        Seq::empty()
    } else {
        let rest = filtered_tasks(tasks.drop_last(), filter);
        if matches_filter(tasks.last(), filter) {
            rest.push(tasks.last())
        } else {
            rest
        }
    }
}

/// What holds of every task a well-formed store holds: valid fields and an id
/// already issued by the counter (hence non-zero).
pub open spec fn wf_stored_task(t: TaskView, next_id: u64) -> bool {
    &&& 1 <= t.id < next_id
    &&& valid_title(t.title)
    &&& valid_description(t.description)
}

/// The store's invariant: the counter starts no lower than 1, every stored
/// task is valid and carries an id below the counter, and no two stored tasks
/// share an id.
pub open spec fn store_wf(s: StoreView) -> bool {
    &&& 1 <= s.next_id
    &&& forall|i: int| 0 <= i < s.tasks.len() ==> wf_stored_task(#[trigger] s.tasks[i], s.next_id)
    &&& forall|i: int, j: int|
        0 <= i < j < s.tasks.len() ==> #[trigger] s.tasks[i].id != #[trigger] s.tasks[j].id
}

/// In a store whose ids are unique, any position whose task carries `id` is
/// the position `index_of_id` names.
proof fn lemma_index_of_id_unique(tasks: Seq<TaskView>, id: u64, i: int)
    requires
        forall|p: int, q: int|
            0 <= p < q < tasks.len() ==> #[trigger] tasks[p].id != #[trigger] tasks[q].id,
        0 <= i < tasks.len(),
        tasks[i].id == id,
    ensures
        contains_id(tasks, id),
        index_of_id(tasks, id) == i,
        task_with_id(tasks, id) == tasks[i],
{
    assert(contains_id(tasks, id));
    let k = index_of_id(tasks, id);
    if k < i {
        assert(tasks[k].id != tasks[i].id);
    } else if i < k {
        assert(tasks[i].id != tasks[k].id);
    }
}

/// The position of the task carrying `id`, or `None` when no task does.
fn position_of(items: &Vec<Todo>, id: u64) -> (r: Option<usize>)
    ensures
        r is Some <==> contains_id(items@.map_values(|t: Todo| t@), id),
        r matches Some(i) ==> ({
            &&& i < items@.len()
            &&& items@.map_values(|t: Todo| t@)[i as int].id == id
        }),
{
    let ghost tasks = items@.map_values(|t: Todo| t@);
    let n = items.len();
    let mut i: usize = 0;
    while i < n
        invariant
            n == items@.len(),
            tasks == items@.map_values(|t: Todo| t@),
            i <= n,
            forall|j: int| 0 <= j < i ==> #[trigger] tasks[j].id != id,
        decreases n - i,
    {
        if items[i].id == id {
            proof {
                assert(tasks[i as int].id == id);
            }
            return Some(i);
        }
        i += 1;
    }
    None
}

impl TodoStore {
    /// The store's invariant; established by `new` and kept by every operation.
    pub open spec fn wf(&self) -> bool {
        store_wf(self@)
    }

    /// An empty store whose counter starts at 1.
    pub fn new() -> (s: Self)
        ensures
            s.wf(),
            s@.tasks == Seq::<TaskView>::empty(),
            s@.next_id == 1,
    {
        let s = TodoStore { items: Vec::new(), next_id: 1 };
        proof {
            assert(s@.tasks =~= Seq::<TaskView>::empty());
        }
        s
    }

    /// Validates the fields as `Todo::new` does; on success stores a task with
    /// those fields, not completed, under the id the counter holds, appends it
    /// in insertion order, steps the counter, and returns a copy of the stored
    /// task. On failure the store is unchanged.
    pub fn create(&mut self, title: &str, description: Option<&str>) -> (r: Result<
        Todo,
        TodoError,
    >)
        requires
            old(self).wf(),
            old(self)@.next_id < u64::MAX,
        ensures
            final(self).wf(),
            r is Ok <==> valid_title(title@) && valid_description(opt_view(description)),
            r matches Ok(t) ==> ({
                &&& t@ == (TaskView {
                    id: old(self)@.next_id,
                    title: title@,
                    description: opt_view(description),
                    completed: false,
                })
                &&& !contains_id(old(self)@.tasks, t@.id)
                &&& final(self)@.tasks == old(self)@.tasks.push(t@)
                &&& final(self)@.next_id == old(self)@.next_id + 1
            }),
            r matches Err(e) ==> ({
                &&& final(self)@ == old(self)@
                &&& !valid_title(title@) ==> is_title_error(e)
                &&& valid_title(title@) ==> is_description_error(e)
            }),
    {
        let todo = match Todo::new(title, description) {
            Ok(t) => t,
            Err(e) => {
                return Err(e);
            },
        };
        let stored = Todo {
            id: self.next_id,
            title: todo.title,
            description: todo.description,
            completed: false,
        };
        let copy = stored.clone();
        self.next_id = self.next_id + 1;
        self.items.push(stored);
        proof {
            let prior = old(self)@.tasks;
            assert(self@.tasks =~= prior.push(copy@));
            assert forall|i: int| 0 <= i < prior.len() implies #[trigger] prior[i].id
                != copy@.id by {
                assert(wf_stored_task(prior[i], old(self)@.next_id));
            }
            assert(!contains_id(prior, copy@.id));
            assert forall|i: int| 0 <= i < self@.tasks.len() implies wf_stored_task(
                #[trigger] self@.tasks[i],
                self@.next_id,
            ) by {
                if i < prior.len() {
                    assert(wf_stored_task(prior[i], old(self)@.next_id));
                }
            }
        }
        Ok(copy)
    }

    /// Looks the task up by id and returns a copy of it; fails with `NotFound`
    /// exactly when no stored task carries the id. The store is not touched.
    pub fn get(&self, id: u64) -> (r: Result<Todo, TodoError>)
        requires
            self.wf(),
        ensures
            r is Ok <==> contains_id(self@.tasks, id),
            r matches Ok(t) ==> t@ == task_with_id(self@.tasks, id),
            r matches Err(e) ==> e is NotFound,
    {
        match position_of(&self.items, id) {
            Some(i) => {
                proof {
                    lemma_index_of_id_unique(self@.tasks, id, i as int);
                }
                Ok(self.items[i].clone())
            },
            None => Err(TodoError::NotFound),
        }
    }

    /// Copies of the stored tasks that pass the filter, in insertion order:
    /// all of them when no flag is asked for, otherwise exactly those whose
    /// `completed` flag equals the asked-for value. The store is not touched.
    pub fn list(&self, completed: Option<bool>) -> (r: Vec<Todo>)
        ensures
            r@.map_values(|t: Todo| t@) == filtered_tasks(self@.tasks, completed),
    {
        let ghost tasks = self@.tasks;
        let mut out: Vec<Todo> = Vec::new();
        let n = self.items.len();
        let mut i: usize = 0;
        proof {
            assert(out@.map_values(|t: Todo| t@) =~= filtered_tasks(tasks.take(0), completed));
        }
        while i < n
            invariant
                n == self.items@.len(),
                tasks == self@.tasks,
                i <= n,
                out@.map_values(|t: Todo| t@) == filtered_tasks(tasks.take(i as int), completed),
            decreases n - i,
        {
            let keep = match completed {
                Some(c) => self.items[i].completed == c,
                None => true,
            };
            let ghost out_before = out@;
            if keep {
                out.push(self.items[i].clone());
            }
            proof {
                let step = tasks.take(i as int + 1);
                assert(step.drop_last() =~= tasks.take(i as int));
                assert(step.last() == tasks[i as int]);
                if keep {
                    assert(out@.map_values(|t: Todo| t@) =~= out_before.map_values(
                        |t: Todo| t@,
                    ).push(tasks[i as int]));
                }
            }
            i += 1;
        }
        proof {
            assert(tasks.take(n as int) =~= tasks);
        }
        out
    }

    /// Updates the task with the given id: each provided field is validated
    /// first, and only when every one of them passes are they all applied, so
    /// a failed update changes nothing. A provided title must obey the title
    /// rule; a provided description either clears the field or must obey the
    /// length rule; a provided `completed` flag replaces the old one with no
    /// validation. Returns a copy of the updated task; fails with `NotFound`
    /// exactly when no stored task carries the id.
    pub fn update(
        &mut self,
        id: u64,
        title: Option<&str>,
        description: Option<Option<&str>>,
        completed: Option<bool>,
    ) -> (r: Result<Todo, TodoError>)
        requires
            old(self).wf(),
        ensures
            final(self).wf(),
            final(self)@.next_id == old(self)@.next_id,
            r is Ok <==> contains_id(old(self)@.tasks, id) && update_title_ok(title)
                && update_description_ok(description),
            r is Err ==> final(self)@ == old(self)@,
            r matches Ok(t) ==> ({
                let i = index_of_id(old(self)@.tasks, id);
                &&& t@ == apply_update(old(self)@.tasks[i], title, description, completed)
                &&& final(self)@.tasks == old(self)@.tasks.update(i, t@)
            }),
            r matches Err(e) ==> ({
                if !contains_id(old(self)@.tasks, id) {
                    e is NotFound
                } else if !update_title_ok(title) {
                    is_title_error(e)
                } else {
                    is_description_error(e)
                }
            }),
    {
        let pos = match position_of(&self.items, id) {
            Some(p) => p,
            None => {
                return Err(TodoError::NotFound);
            },
        };
        if let Some(t) = title {
            if let Err(e) = check_title(t) {
                return Err(e);
            }
        }
        if let Some(Some(d)) = description {
            if let Err(e) = check_description(d) {
                return Err(e);
            }
        }
        proof {
            lemma_index_of_id_unique(self@.tasks, id, pos as int);
        }
        let before = self.items.remove(pos);
        let updated = Todo {
            id: before.id,
            title: match title {
                Some(t) => t.to_owned(),
                None => before.title,
            },
            description: match description {
                Some(d) => match d {
                    Some(v) => Some(v.to_owned()),
                    None => None,
                },
                None => before.description,
            },
            completed: match completed {
                Some(c) => c,
                None => before.completed,
            },
        };
        let copy = updated.clone();
        self.items.insert(pos, updated);
        proof {
            let prior = old(self)@.tasks;
            let now = self@.tasks;
            assert(copy@ =~= apply_update(prior[pos as int], title, description, completed));
            assert(now =~= prior.update(pos as int, copy@));
            assert forall|j: int| 0 <= j < now.len() implies wf_stored_task(
                #[trigger] now[j],
                self@.next_id,
            ) by {
                assert(wf_stored_task(prior[j], old(self)@.next_id));
                if j != pos {
                    assert(now[j] == prior[j]);
                }
            }
            assert forall|p: int, q: int| 0 <= p < q < now.len() implies #[trigger] now[p].id
                != #[trigger] now[q].id by {
                assert(prior[p].id != prior[q].id);
                assert(now[p].id == prior[p].id);
                assert(now[q].id == prior[q].id);
            }
        }
        Ok(copy)
    }

    /// Removes the task with the given id in one atomic step and returns it as
    /// it stood; fails with `NotFound`, leaving the store unchanged, exactly
    /// when no stored task carries the id. The other tasks keep their ids and
    /// order, and the counter does not move, so the removed id is never issued
    /// again.
    pub fn delete(&mut self, id: u64) -> (r: Result<Todo, TodoError>)
        requires
            old(self).wf(),
        ensures
            final(self).wf(),
            final(self)@.next_id == old(self)@.next_id,
            r is Ok <==> contains_id(old(self)@.tasks, id),
            r matches Ok(t) ==> ({
                &&& t@ == task_with_id(old(self)@.tasks, id)
                &&& final(self)@.tasks == old(self)@.tasks.remove(index_of_id(
                    old(self)@.tasks,
                    id,
                ))
                &&& !contains_id(final(self)@.tasks, id)
            }),
            r matches Err(e) ==> e is NotFound && final(self)@ == old(self)@,
    {
        let pos = match position_of(&self.items, id) {
            Some(p) => p,
            None => {
                return Err(TodoError::NotFound);
            },
        };
        proof {
            lemma_index_of_id_unique(self@.tasks, id, pos as int);
        }
        let removed = self.items.remove(pos);
        proof {
            let prior = old(self)@.tasks;
            let now = self@.tasks;
            assert(now =~= prior.remove(pos as int));
            assert forall|j: int| 0 <= j < now.len() implies #[trigger] now[j].id != id by {
                if j < pos {
                    assert(now[j] == prior[j]);
                    assert(prior[j].id != prior[pos as int].id);
                } else {
                    assert(now[j] == prior[j + 1]);
                    assert(prior[pos as int].id != prior[j + 1].id);
                }
            }
            assert forall|j: int| 0 <= j < now.len() implies wf_stored_task(
                #[trigger] now[j],
                self@.next_id,
            ) by {
                if j < pos {
                    assert(now[j] == prior[j]);
                } else {
                    assert(now[j] == prior[j + 1]);
                }
            }
            assert forall|p: int, q: int| 0 <= p < q < now.len() implies #[trigger] now[p].id
                != #[trigger] now[q].id by {
                let op = if p < pos {
                    p
                } else {
                    p + 1
                };
                let oq = if q < pos {
                    q
                } else {
                    q + 1
                };
                assert(now[p] == prior[op]);
                assert(now[q] == prior[oq]);
                assert(prior[op].id != prior[oq].id);
            }
        }
        Ok(removed)
    }
}

/// An id the counter has not issued yet — any id at or above the counter, and
/// the reserved id 0 — is carried by no stored task. In particular the id a
/// successful `create` is about to hand out is fresh, and since `create`
/// returns the counter's value and then steps it, successive successful
/// creates hand out strictly increasing, unique ids, the first of them the 1 a
/// new store's counter starts at.
pub proof fn lemma_unissued_id_absent(s: StoreView, id: u64)
    requires
        store_wf(s),
        id >= s.next_id || id == 0,
    ensures
        !contains_id(s.tasks, id),
{
    assert forall|i: int| 0 <= i < s.tasks.len() implies #[trigger] s.tasks[i].id != id by {
        assert(wf_stored_task(s.tasks[i], s.next_id));
    }
}

/// Successive successful creates hand out strictly increasing ids: `create`
/// returns the counter's value and steps the counter by one, so the id a later
/// successful create returns is larger. With `lemma_unissued_id_absent` the
/// ids are unique, and on a store fresh from `new` the first of them is 1.
pub proof fn lemma_successive_ids_increase(
    first: StoreView,
    second: StoreView,
    id_first: u64,
    id_second: u64,
)
    requires
        id_first == first.next_id,
        second.next_id == first.next_id + 1,
        id_second >= second.next_id,
    ensures
        id_first < id_second,
{
}

/// Round trip: when `create` appends a task whose id no stored task carries, a
/// lookup of that id in the new state finds exactly the appended task, equal
/// in all fields.
pub proof fn lemma_create_then_get(tasks: Seq<TaskView>, t: TaskView)
    requires
        !contains_id(tasks, t.id),
    ensures
        contains_id(tasks.push(t), t.id),
        task_with_id(tasks.push(t), t.id) == t,
{
    let appended = tasks.push(t);
    assert(appended[tasks.len() as int] == t);
    assert(contains_id(appended, t.id));
    let k = index_of_id(appended, t.id);
    if k < tasks.len() {
        assert(tasks[k] == appended[k]);
        assert(contains_id(tasks, t.id));
    }
}

/// Listing with no filter returns every stored task, in insertion order.
pub proof fn lemma_list_none_is_all(tasks: Seq<TaskView>)
    ensures
        filtered_tasks(tasks, None) == tasks,
    decreases tasks.len(),
{
    if tasks.len() == 0 {
        assert(filtered_tasks(tasks, None) =~= tasks);
    } else {
        lemma_list_none_is_all(tasks.drop_last());
        assert(filtered_tasks(tasks, None) =~= tasks);
    }
}

/// Listing returns tasks drawn from the store — each listed task passes the
/// filter — and it drops none: a stored task is listed exactly when it passes
/// the filter.
pub proof fn lemma_list_exact(tasks: Seq<TaskView>, filter: Option<bool>)
    ensures
        forall|t: TaskView| #[trigger]
            filtered_tasks(tasks, filter).contains(t) <==> tasks.contains(t) && matches_filter(
                t,
                filter,
            ),
    decreases tasks.len(),
{
    if tasks.len() == 0 {
    } else {
        let rest = tasks.drop_last();
        lemma_list_exact(rest, filter);
        assert forall|t: TaskView| #[trigger] filtered_tasks(tasks, filter).contains(t) implies
            tasks.contains(t) && matches_filter(t, filter) by {
            let picked = filtered_tasks(tasks, filter);
            let i = choose|i: int| 0 <= i < picked.len() && picked[i] == t;
            if matches_filter(tasks.last(), filter) && i == picked.len() - 1 {
                assert(t == tasks.last());
                assert(tasks[tasks.len() - 1] == t);
            } else {
                assert(filtered_tasks(rest, filter).contains(t));
                let j = choose|j: int| 0 <= j < rest.len() && rest[j] == t;
                assert(tasks[j] == t);
            }
        }
        assert forall|t: TaskView| tasks.contains(t) && matches_filter(t, filter) implies
            #[trigger] filtered_tasks(tasks, filter).contains(t) by {
            let i = choose|i: int| 0 <= i < tasks.len() && tasks[i] == t;
            if i == tasks.len() - 1 {
                let picked = filtered_tasks(tasks, filter);
                assert(picked[picked.len() - 1] == t);
            } else {
                assert(rest[i] == t);
                assert(rest.contains(t));
                assert(filtered_tasks(rest, filter).contains(t));
                let j = choose|j: int| 0 <= j < filtered_tasks(rest, filter).len()
                    && filtered_tasks(rest, filter)[j] == t;
                assert(filtered_tasks(tasks, filter)[j] == t);
            }
        }
    }
}

} // verus!
