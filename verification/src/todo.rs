//! The task entity: a text, a completion status, and a unique identifier
//! assigned at creation.

use vstd::prelude::*;

verus! {

/// Completion status of a task.
#[derive(Clone, Copy, PartialEq, Eq, Structural, Debug)]
pub enum Status {
    Incomplete,
    Done,
}

/// Mathematical model of a task: its identifier, its text and its status.
pub struct TodoView {
    pub id: Seq<char>,
    pub text: Seq<char>,
    pub status: Status,
}

impl TodoView {
    /// A well-formed task has a non-empty text.
    pub open spec fn wf(self) -> bool {
        self.text.len() > 0
    }
}

/// A single task.
pub struct Todo {
    pub id: String,
    pub todo: String,
    pub status: Status,
}

impl View for Todo {
    type V = TodoView;

    open spec fn view(&self) -> TodoView {
        TodoView { id: self.id@, text: self.todo@, status: self.status }
    }
}

impl Clone for Todo {
    fn clone(&self) -> (r: Self)
        ensures
            r@ == self@,
    {
        Todo { id: self.id.clone(), todo: self.todo.clone(), status: self.status }
    }
}

/// The models of a sequence of tasks.
pub open spec fn views(ts: Seq<Todo>) -> Seq<TodoView> {
    ts.map_values(|t: Todo| t@)
}

/// Errors of the library: an empty task text, or an identifier that
/// matches no task.
#[derive(Clone, Copy, PartialEq, Eq, Structural, Debug)]
pub enum TodoError {
    EmptyText,
    NotFound,
}

impl TodoError {
    /// A short message for display.
    pub fn message(&self) -> (r: &'static str)
        ensures
            *self is EmptyText ==> r@ == "todo cannot be empty"@,
            *self is NotFound ==> r@ == "todo not found"@,
    {
        match self {
            TodoError::EmptyText => "todo cannot be empty",
            TodoError::NotFound => "todo not found",
        }
    }
}

/// The number of characters in a freshly generated identifier.
pub const ID_LEN: usize = 36;

/// Relies on `uuid::Uuid::new_v4` and its `Display` impl: a version-4
/// identifier rendered in the hyphenated form, which is 36 characters.
#[verifier::external_body]
fn fresh_id() -> (r: String)
    ensures
        r@.len() == ID_LEN,
{
    uuid::Uuid::new_v4().to_string()
}

impl Todo {
    /// Creates a task from its text: an empty text is a validation error;
    /// otherwise the task gets a freshly generated identifier and starts
    /// `Incomplete`.
    pub fn new(todo: String) -> (r: Result<Self, TodoError>)
        ensures
            todo@.len() == 0 ==> r == Err::<Self, TodoError>(TodoError::EmptyText),
            todo@.len() > 0 ==> (r matches Ok(t)
                && t@.text == todo@
                && t@.status is Incomplete
                && t@.id.len() == ID_LEN
                && t@.wf()),
    {
        if todo.as_str().is_empty() {
            return Err(TodoError::EmptyText);
        }
        Ok(Todo { id: fresh_id(), todo, status: Status::Incomplete })
    }
}

} // verus!
