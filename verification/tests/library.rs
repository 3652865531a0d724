use todo_rust::engine::{interpret_choice, step, MenuAction, Request, StepOutcome};
use todo_rust::ops::{
    add_todo, complete_todo, get_todo_to_complete, get_unfinished_todos, list_options, str_eq,
};
use todo_rust::todo::{Status, Todo, TodoError};

fn sample(id: &str, text: &str, status: Status) -> Todo {
    Todo { id: String::from(id), todo: String::from(text), status }
}

#[test]
fn list_options_zero() {
    assert_eq!(1, list_options(0).len());
}

#[test]
fn list_options_one() {
    assert_eq!(2, list_options(1).len());
}

#[test]
fn count_unfinished_todos() {
    let todos = vec![
        Todo {
            id: String::from("1"),
            todo: String::from("todo one"),
            status: Status::Done,
        },
        Todo {
            id: String::from("2"),
            todo: String::from("todo two"),
            status: Status::Incomplete,
        },
        Todo {
            id: String::from("3"),
            todo: String::from("todo three"),
            status: Status::Incomplete,
        },
    ];

    assert_eq!(2, get_unfinished_todos(&todos).unwrap().len());
}

#[test]
fn list_options_texts() {
    let two = list_options(5);
    assert_eq!("add a new todo", two[0]);
    assert_eq!("complete a todo", two[1]);
    let one = list_options(0);
    assert_eq!("add a new todo", one[0]);
}

#[test]
fn create_empty_fails() {
    let r = Todo::new(String::new());
    assert!(matches!(r, Err(TodoError::EmptyText)));
    assert_eq!("todo cannot be empty", TodoError::EmptyText.message());
}

#[test]
fn create_assigns_fresh_id_and_incomplete() {
    let a = Todo::new(String::from("buy milk")).unwrap();
    let b = Todo::new(String::from("buy milk")).unwrap();
    assert_eq!("buy milk", a.todo);
    assert_eq!(Status::Incomplete, a.status);
    assert_eq!(36, a.id.chars().count());
    assert_eq!(36, b.id.chars().count());
    assert_ne!(a.id, b.id);
}

#[test]
fn complete_touches_only_the_match() {
    let mut todos = vec![
        sample("1", "todo one", Status::Done),
        sample("2", "todo two", Status::Incomplete),
        sample("3", "todo three", Status::Incomplete),
    ];
    let r = complete_todo("2", &mut todos);
    assert_eq!(Ok(true), r);
    assert_eq!(Status::Done, todos[0].status);
    assert_eq!(Status::Done, todos[1].status);
    assert_eq!(Status::Incomplete, todos[2].status);
    assert_eq!("2", todos[1].id);
    assert_eq!("todo two", todos[1].todo);
}

#[test]
fn complete_unknown_id_is_not_found() {
    let mut todos = vec![sample("1", "todo one", Status::Incomplete)];
    let r = complete_todo("9", &mut todos);
    assert_eq!(Err(TodoError::NotFound), r);
    assert_eq!(Status::Incomplete, todos[0].status);
    assert_eq!("todo not found", TodoError::NotFound.message());
}

#[test]
fn unfinished_keeps_text_and_id() {
    let todos = vec![
        sample("1", "todo one", Status::Done),
        sample("2", "todo two", Status::Done),
        sample("3", "todo three", Status::Incomplete),
    ];
    let u = get_unfinished_todos(&todos).unwrap();
    assert_eq!(1, u.len());
    assert_eq!("3", u[0].id);
    assert_eq!("todo three", u[0].todo);
}

#[test]
fn resolve_choice_to_id() {
    let u = vec![
        sample("a", "one", Status::Incomplete),
        sample("b", "two", Status::Incomplete),
    ];
    assert_eq!(Ok(String::from("b")), get_todo_to_complete(&u, 1));
    assert_eq!(Err(TodoError::NotFound), get_todo_to_complete(&u, 2));
}

#[test]
fn add_appends_incomplete() {
    let mut todos: Vec<Todo> = Vec::new();
    assert_eq!(Ok(()), add_todo(&mut todos, String::from("buy milk")));
    assert_eq!(1, todos.len());
    assert_eq!("buy milk", todos[0].todo);
    assert_eq!(Status::Incomplete, todos[0].status);
    assert_eq!(Err(TodoError::EmptyText), add_todo(&mut todos, String::new()));
    assert_eq!(1, todos.len());
}

#[test]
fn menu_choice_dispatch() {
    assert_eq!(MenuAction::StartAdd, interpret_choice(0));
    assert_eq!(MenuAction::StartComplete, interpret_choice(1));
    assert_eq!(MenuAction::Quit, interpret_choice(2));
    assert_eq!(MenuAction::Quit, interpret_choice(7));
}

#[test]
fn step_scenario_add_then_complete() {
    let mut todos: Vec<Todo> = Vec::new();

    let r = step(&mut todos, Request::Add(String::from("buy milk")));
    assert_eq!(StepOutcome::Added, r);
    assert_eq!(1, todos.len());
    assert_eq!(Status::Incomplete, todos[0].status);
    let unfinished = get_unfinished_todos(&todos).unwrap();
    assert_eq!(2, list_options(unfinished.len()).len());

    let r = step(&mut todos, Request::Complete(0));
    assert_eq!(StepOutcome::Completed, r);
    assert_eq!(Status::Done, todos[0].status);
    let unfinished = get_unfinished_todos(&todos).unwrap();
    assert_eq!(0, unfinished.len());
    assert_eq!(1, list_options(unfinished.len()).len());
}

#[test]
fn step_rejects_and_recovers() {
    let mut todos = vec![sample("1", "todo one", Status::Done)];
    let r = step(&mut todos, Request::Add(String::new()));
    assert_eq!(StepOutcome::Rejected(TodoError::EmptyText), r);
    assert_eq!(1, todos.len());

    let r = step(&mut todos, Request::Complete(0));
    assert_eq!(StepOutcome::Rejected(TodoError::NotFound), r);
    assert_eq!(Status::Done, todos[0].status);

    let r = step(&mut todos, Request::Exit);
    assert_eq!(StepOutcome::Exited, r);
    assert_eq!(1, todos.len());
}

#[test]
fn str_eq_compares_contents() {
    assert!(str_eq("abc", "abc"));
    assert!(!str_eq("abc", "abd"));
    assert!(!str_eq("abc", "ab"));
    assert!(str_eq("", ""));
}
