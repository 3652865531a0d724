//! Operations on the task collection: the unfinished subset, completing a
//! task by identifier, appending a new task, and the menu's option list.

use vstd::prelude::*;
use vstd::seq_lib::group_seq_lib_default;
use crate::todo::{Status, Todo, TodoError, TodoView, views, ID_LEN};

verus! {

broadcast use group_seq_lib_default;

/// The subset of `ts` whose status is `Incomplete`, in order.
pub open spec fn spec_unfinished(ts: Seq<TodoView>) -> Seq<TodoView> {
    ts.filter(|t: TodoView| t.status is Incomplete)
}

/// Whether some task in `ts` carries the identifier `id`.
pub open spec fn has_id(ts: Seq<TodoView>, id: Seq<char>) -> bool {
    exists|k: int| 0 <= k < ts.len() && ts[k].id == id
}

/// The index of the first task in `ts` with identifier `id`, or -1 when
/// there is none.
pub open spec fn find_id(ts: Seq<TodoView>, id: Seq<char>) -> int
    decreases ts.len(),
{
    if ts.len() == 0 {
        -1
    } else if ts[0].id == id {
        0
    } else {
        let r = find_id(ts.drop_first(), id);
        if r == -1 {
            -1
        } else {
            r + 1
        }
    }
}

/// `ts` with the task at `k` marked `Done` and nothing else changed.
pub open spec fn mark_done_at(ts: Seq<TodoView>, k: int) -> Seq<TodoView> {
    ts.update(k, TodoView { status: Status::Done, ..ts[k] })
}

/// `find_id` returns -1 exactly when no task matches, and otherwise the
/// smallest matching index.
pub proof fn lemma_find_id(ts: Seq<TodoView>, id: Seq<char>)
    ensures
        !has_id(ts, id) <==> find_id(ts, id) == -1,
        has_id(ts, id) ==> {
            let k = find_id(ts, id);
            &&& 0 <= k < ts.len()
            &&& ts[k].id == id
            &&& forall|j: int| 0 <= j < k ==> ts[j].id != id
        },
    decreases ts.len(),
{
    if ts.len() == 0 {
    } else if ts[0].id == id {
    } else {
        let rest = ts.drop_first();
        lemma_find_id(rest, id);
        assert(forall|k: int| 1 <= k < ts.len() ==> ts[k] == rest[k - 1]);
        if has_id(ts, id) {
            let k0 = choose|k: int| 0 <= k < ts.len() && ts[k].id == id;
            assert(rest[k0 - 1].id == id);
            assert(has_id(rest, id));
        }
        if has_id(rest, id) {
            let k1 = choose|k: int| 0 <= k < rest.len() && rest[k].id == id;
            assert(ts[k1 + 1].id == id);
            assert(has_id(ts, id));
        }
    }
}

/// Completing by a valid identifier touches exactly the first matching
/// task: its status becomes `Done`, its identifier and text stay, and
/// every other task is unchanged.
pub proof fn lemma_complete_alters_only_match(ts: Seq<TodoView>, id: Seq<char>)
    requires
        has_id(ts, id),
    ensures
        ({
            let k = find_id(ts, id);
            let marked = mark_done_at(ts, k);
            &&& 0 <= k < ts.len()
            &&& ts[k].id == id
            &&& marked.len() == ts.len()
            &&& marked[k].status is Done
            &&& marked[k].id == ts[k].id
            &&& marked[k].text == ts[k].text
            &&& forall|j: int| 0 <= j < ts.len() && j != k ==> marked[j] == ts[j]
        }),
{
    lemma_find_id(ts, id);
}

/// The collection's invariant: no two tasks share an identifier.
pub open spec fn unique_ids(ts: Seq<TodoView>) -> bool {
    forall|i: int, j: int| 0 <= i < j < ts.len() ==> ts[i].id != ts[j].id
}

/// Completing a task preserves identifier uniqueness: identifiers and
/// texts never change, only the matched task's status.
pub proof fn lemma_complete_preserves_unique_ids(ts: Seq<TodoView>, id: Seq<char>)
    requires
        unique_ids(ts),
        has_id(ts, id),
    ensures
        unique_ids(mark_done_at(ts, find_id(ts, id))),
{
    lemma_find_id(ts, id);
    let k = find_id(ts, id);
    let m = mark_done_at(ts, k);
    assert forall|i: int, j: int| 0 <= i < j < m.len() implies m[i].id != m[j].id by {
        assert(m[i].id == ts[i].id);
        assert(m[j].id == ts[j].id);
    }
}

/// Compares two string slices character by character.
pub fn str_eq(a: &str, b: &str) -> (r: bool)
    ensures
        r == (a@ == b@),
{
    let na = a.unicode_len();
    let nb = b.unicode_len();
    if na != nb {
        assert(a@ != b@) by {
            assert(a@.len() != b@.len());
        }
        return false;
    }
    let mut i: usize = 0;
    while i < na
        invariant
            na == a@.len(),
            na == b@.len(),
            0 <= i <= na,
            forall|j: int| 0 <= j < i ==> a@[j] == b@[j],
        decreases na - i,
    {
        if a.get_char(i) != b.get_char(i) {
            return false;
        }
        i += 1;
    }
    proof {
        assert(a@ =~= b@);
    }
    true
}

/// The tasks of `ts` that are still `Incomplete`, cloned, in order.
/// The `Result` shape is kept for callers; no error is possible.
pub fn get_unfinished_todos(ts: &Vec<Todo>) -> (r: Result<Vec<Todo>, TodoError>)
    ensures
        r matches Ok(u) && views(u@) == spec_unfinished(views(ts@)),
{
    let mut out: Vec<Todo> = Vec::new();
    let n = ts.len();
    let mut i: usize = 0;
    while i < n
        invariant
            n == ts@.len(),
            0 <= i <= n,
            views(out@) == spec_unfinished(views(ts@.take(i as int))),
        decreases n - i,
    {
        let ghost pre = views(ts@.take(i as int));
        let ghost pred = |t: TodoView| t.status is Incomplete;
        proof {
            assert(ts@.take(i + 1) =~= ts@.take(i as int) + seq![ts@[i as int]]);
            assert(views(ts@.take(i + 1)) =~= pre + seq![ts@[i as int]@]);
            Seq::filter_distributes_over_add(pre, seq![ts@[i as int]@], pred);
            assert(seq![ts@[i as int]@].filter(pred) =~= (if pred(ts@[i as int]@) {
                seq![ts@[i as int]@]
            } else {
                Seq::<TodoView>::empty()
            })) by {
                reveal_with_fuel(Seq::filter, 2);
                assert(seq![ts@[i as int]@].drop_last() =~= Seq::<TodoView>::empty());
                assert(seq![ts@[i as int]@].last() == ts@[i as int]@);
            }
        }
        match ts[i].status {
            Status::Incomplete => {
                let t = ts[i].clone();
                out.push(t);
                proof {
                    assert(views(out@) =~= pre.filter(pred) + seq![ts@[i as int]@]);
                }
            },
            Status::Done => {
                proof {
                    assert(!pred(ts@[i as int]@));
                    assert(views(out@) =~= pre.filter(pred) + seq![ts@[i as int]@].filter(pred));
                }
            },
        }
        i += 1;
    }
    proof {
        assert(ts@.take(n as int) =~= ts@);
    }
    Ok(out)
}

/// Marks the first task whose identifier is `id` as `Done`; every other
/// task keeps its state. When no task matches, returns the not-found
/// error and leaves the collection unchanged.
pub fn complete_todo(id: &str, todos: &mut Vec<Todo>) -> (r: Result<bool, TodoError>)
    ensures
        has_id(views(old(todos)@), id@) ==> {
            &&& r == Ok::<bool, TodoError>(true)
            &&& views(final(todos)@) == mark_done_at(
                views(old(todos)@),
                find_id(views(old(todos)@), id@),
            )
        },
        !has_id(views(old(todos)@), id@) ==> {
            &&& r == Err::<bool, TodoError>(TodoError::NotFound)
            &&& final(todos)@ == old(todos)@
        },
{
    let ghost orig = views(old(todos)@);
    let n = todos.len();
    let mut i: usize = 0;
    while i < n
        invariant
            n == todos@.len(),
            0 <= i <= n,
            todos@ == old(todos)@,
            orig == views(old(todos)@),
            forall|j: int| 0 <= j < i ==> orig[j].id != id@,
        decreases n - i,
    {
        if str_eq(todos[i].id.as_str(), id) {
            proof {
                assert(orig[i as int].id == id@);
                assert(has_id(orig, id@));
                lemma_find_id(orig, id@);
                assert(find_id(orig, id@) == i as int);
            }
            let mut t = todos[i].clone();
            t.status = Status::Done;
            proof {
                assert(t@ == (TodoView { status: Status::Done, ..orig[i as int] }));
            }
            todos.set(i, t);
            proof {
                assert(views(todos@) =~= mark_done_at(orig, i as int));
            }
            return Ok(true);
        }
        i += 1;
    }
    proof {
        if has_id(orig, id@) {
            let k = choose|k: int| 0 <= k < orig.len() && orig[k].id == id@;
            assert(orig[k].id != id@);
        }
    }
    Err(TodoError::NotFound)
}

/// Appends a freshly created task with the given text; an empty text is
/// rejected and the collection is unchanged.
pub fn add_todo(todos: &mut Vec<Todo>, text: String) -> (r: Result<(), TodoError>)
    ensures
        text@.len() == 0 ==> {
            &&& r == Err::<(), TodoError>(TodoError::EmptyText)
            &&& final(todos)@ == old(todos)@
        },
        text@.len() > 0 ==> {
            let v = views(final(todos)@);
            &&& r == Ok::<(), TodoError>(())
            &&& v.len() == views(old(todos)@).len() + 1
            &&& v.subrange(0, views(old(todos)@).len() as int) == views(old(todos)@)
            &&& v.last().text == text@
            &&& v.last().status is Incomplete
            &&& v.last().id.len() == ID_LEN
        },
{
    let ghost orig = views(old(todos)@);
    match Todo::new(text) {
        Ok(t) => {
            todos.push(t);
            proof {
                assert(views(todos@).subrange(0, orig.len() as int) =~= orig);
            }
            Ok(())
        },
        Err(e) => Err(e),
    }
}

/// The identifier of the chosen entry of the unfinished list, or the
/// not-found error when the choice is out of range.
pub fn get_todo_to_complete(unfinished_todos: &Vec<Todo>, option: usize) -> (r: Result<
    String,
    TodoError,
>)
    ensures
        option < unfinished_todos@.len() ==> (r matches Ok(s) && s@ == unfinished_todos@[
            option as int
        ]@.id),
        option >= unfinished_todos@.len() ==> r == Err::<String, TodoError>(TodoError::NotFound),
{
    if option < unfinished_todos.len() {
        Ok(unfinished_todos[option].id.clone())
    } else {
        Err(TodoError::NotFound)
    }
}

/// The menu's option list: only "add" when nothing is unfinished, and
/// "add" then "complete" otherwise.
pub fn list_options(todo_count: usize) -> (r: Vec<&'static str>)
    ensures
        todo_count == 0 ==> r@.len() == 1,
        todo_count > 0 ==> r@.len() == 2,
        r@[0]@ == "add a new todo"@,
        todo_count > 0 ==> r@[1]@ == "complete a todo"@,
{
    let mut options: Vec<&'static str> = Vec::new();
    options.push("add a new todo");
    if todo_count > 0 {
        options.push("complete a todo");
    }
    options
}

} // verus!
