//! The application loop's decisions: which action a menu choice selects,
//! and how one fully gathered request transforms the task collection.
//! The surrounding interactive loop only reads input, calls `step`, and
//! persists the collection.

use vstd::prelude::*;
use crate::chars::{chars_to_string, push_str_chars};
use crate::menu::{dec_digits, push_usize_decimal};
use crate::ops::{
    add_todo, complete_todo, find_id, get_todo_to_complete, get_unfinished_todos, has_id,
    mark_done_at, spec_unfinished,
};
use crate::todo::{Todo, TodoError, views, ID_LEN};

verus! {

/// The action behind a top-menu choice: the first entry starts adding a
/// task, the second starts completing one, and any index past the list
/// ends the loop.
#[derive(Clone, Copy, PartialEq, Eq, Structural, Debug)]
pub enum MenuAction {
    StartAdd,
    StartComplete,
    Quit,
}

/// Maps a zero-based top-menu index to its action.
pub fn interpret_choice(choice: usize) -> (r: MenuAction)
    ensures
        choice == 0 ==> r is StartAdd,
        choice == 1 ==> r is StartComplete,
        choice >= 2 ==> r is Quit,
{
    if choice == 0 {
        MenuAction::StartAdd
    } else if choice == 1 {
        MenuAction::StartComplete
    } else {
        MenuAction::Quit
    }
}

/// One fully gathered intent of the user for an iteration: add a task
/// with the given text, complete the chosen entry of the unfinished
/// list, or exit.
pub enum Request {
    Add(String),
    Complete(usize),
    Exit,
}

/// What an iteration did: a task was added, the request was rejected
/// with a recoverable error, a task was completed, or the loop ends.
#[derive(Clone, Copy, PartialEq, Eq, Structural, Debug)]
pub enum StepOutcome {
    Added,
    Rejected(TodoError),
    Completed,
    Exited,
}

/// Performs one iteration's request against the collection.
///
/// Adding with an empty text and completing with an out-of-range choice
/// are rejected and leave the collection unchanged; a successful add
/// appends one fresh `Incomplete` task; a successful completion marks
/// exactly the first task carrying the chosen entry's identifier as
/// `Done`; exiting changes nothing.
pub fn step(todos: &mut Vec<Todo>, req: Request) -> (r: StepOutcome)
    ensures
        ({
            let v = views(old(todos)@);
            let f = views(final(todos)@);
            match req {
                Request::Add(text) => {
                    &&& text@.len() == 0 ==> (r == StepOutcome::Rejected(TodoError::EmptyText)
                        && f == v)
                    &&& text@.len() > 0 ==> {
                        &&& r == StepOutcome::Added
                        &&& f.len() == v.len() + 1
                        &&& f.subrange(0, v.len() as int) == v
                        &&& f.last().text == text@
                        &&& f.last().status is Incomplete
                        &&& f.last().id.len() == ID_LEN
                    }
                },
                Request::Complete(i) => {
                    let u = spec_unfinished(v);
                    &&& i < u.len() ==> (r == StepOutcome::Completed && has_id(v, u[i as int].id)
                        && f == mark_done_at(v, find_id(v, u[i as int].id)))
                    &&& i >= u.len() ==> (r == StepOutcome::Rejected(TodoError::NotFound) && f
                        == v)
                },
                Request::Exit => r == StepOutcome::Exited && f == v,
            }
        }),
{
    match req {
        Request::Add(text) => match add_todo(todos, text) {
            Ok(_) => StepOutcome::Added,
            Err(e) => StepOutcome::Rejected(e),
        },
        Request::Complete(i) => {
            let ghost v = views(todos@);
            let unfinished = match get_unfinished_todos(todos) {
                Ok(u) => u,
                Err(_) => {
                    proof {
                        assert(false);
                    }
                    Vec::new()
                },
            };
            if i < unfinished.len() {
                let id = match get_todo_to_complete(&unfinished, i) {
                    Ok(s) => s,
                    Err(_) => {
                        proof {
                            assert(false);
                        }
                        String::new()
                    },
                };
                proof {
                    let u = spec_unfinished(v);
                    let pred = |t: crate::todo::TodoView| t.status is Incomplete;
                    assert(u.contains(u[i as int]));
                    v.lemma_filter_contains_rev(pred, u[i as int]);
                    let k = choose|k: int| 0 <= k < v.len() && v[k] == u[i as int];
                    assert(v[k].id == id@);
                    assert(has_id(v, id@));
                }
                match complete_todo(id.as_str(), todos) {
                    Ok(_) => StepOutcome::Completed,
                    Err(_) => {
                        proof {
                            assert(false);
                        }
                        StepOutcome::Completed
                    },
                }
            } else {
                StepOutcome::Rejected(TodoError::NotFound)
            }
        },
        Request::Exit => StepOutcome::Exited,
    }
}

/// The top menu's message: how many unfinished tasks the list holds.
pub fn status_message(count: usize) -> (r: String)
    ensures
        r@ == "You have "@ + dec_digits(count as nat) + " incomplete todos in your todo list"@,
{
    let mut buf: Vec<char> = Vec::new();
    push_str_chars(&mut buf, "You have ");
    push_usize_decimal(&mut buf, count);
    push_str_chars(&mut buf, " incomplete todos in your todo list");
    chars_to_string(buf)
}

} // verus!
