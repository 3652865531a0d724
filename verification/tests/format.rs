use todo_rust::chars::{chars_to_string, str_to_chars};
use todo_rust::codec::{decode_todos, encode_todos};
use todo_rust::menu::{classify_line, parse_choice, render_menu, trim_str, LineEvent};
use todo_rust::engine::status_message;
use todo_rust::todo::{Status, Todo};

fn sample(id: &str, text: &str, status: Status) -> Todo {
    Todo { id: String::from(id), todo: String::from(text), status }
}

#[test]
fn parse_choice_valid_and_invalid() {
    assert_eq!(Some(0), parse_choice("1", 2));
    assert_eq!(Some(1), parse_choice("2", 2));
    assert_eq!(None, parse_choice("3", 2));
    assert_eq!(None, parse_choice("0", 2));
    assert_eq!(None, parse_choice("00", 2));
    assert_eq!(None, parse_choice("", 2));
    assert_eq!(None, parse_choice("abc", 2));
    assert_eq!(None, parse_choice("1x", 2));
    assert_eq!(Some(0), parse_choice("+1", 2));
    assert_eq!(None, parse_choice("+", 2));
    assert_eq!(None, parse_choice("++1", 2));
    assert_eq!(None, parse_choice("999999999999999999999999999999", 2));
    assert_eq!(Some(9), parse_choice("10", 12));
}

#[test]
fn trim_strips_blank_edges() {
    assert_eq!("hi", trim_str(" hi \n"));
    assert_eq!("a b", trim_str("\t a b \r\n"));
    assert_eq!("", trim_str("   \n"));
    assert_eq!("x", trim_str("x"));
}

#[test]
fn trim_matches_std_on_unicode_whitespace() {
    let lines = [
        "\u{000B}0",
        "\u{000C}x\u{00A0}",
        "\u{3000}a\u{2028}",
        "\u{0085}\u{2000}b\u{200A}\u{205F}",
        "\u{1680}c\u{202F}",
        "\u{200B}d",
    ];
    for line in lines {
        assert_eq!(line.trim(), trim_str(line));
    }
}

#[test]
fn classify_cancel_behind_unicode_whitespace() {
    assert!(matches!(classify_line("\u{000B}0"), LineEvent::Cancel));
    assert!(matches!(classify_line("\u{00A0}0\u{3000}"), LineEvent::Cancel));
}

#[test]
fn classify_detects_cancel_sentinel() {
    assert!(matches!(classify_line(" 0\n"), LineEvent::Cancel));
    assert!(matches!(classify_line("0"), LineEvent::Cancel));
    match classify_line(" buy milk \n") {
        LineEvent::Value(v) => assert_eq!("buy milk", v),
        LineEvent::Cancel => panic!("not a sentinel"),
    }
    match classify_line("00") {
        LineEvent::Value(v) => assert_eq!("00", v),
        LineEvent::Cancel => panic!("not a sentinel"),
    }
}

#[test]
fn render_menu_exact_text() {
    let options = vec!["add a new todo"];
    let menu = render_menu(&options, "m");
    assert_eq!(
        "\n====================================\nm\n====================================\n\n1: add a new todo",
        menu
    );
}

#[test]
fn render_menu_numbers_from_one() {
    let options = vec!["alpha", "beta"];
    let menu = render_menu(&options, "pick");
    assert!(menu.ends_with("\n1: alpha\n2: beta"));
}

#[test]
fn status_message_exact() {
    assert_eq!("You have 0 incomplete todos in your todo list", status_message(0));
    assert_eq!("You have 12 incomplete todos in your todo list", status_message(12));
}

#[test]
fn chars_round_trip() {
    let v = str_to_chars("héllo");
    assert_eq!(vec!['h', 'é', 'l', 'l', 'o'], v);
    assert_eq!("héllo", chars_to_string(v));
}

#[test]
fn encode_exact_document() {
    let todos = vec![sample("a", "b", Status::Done)];
    assert_eq!("[{\"id\":\"a\",\"todo\":\"b\",\"status\":\"Done\"}]", encode_todos(&todos));
    let empty: Vec<Todo> = Vec::new();
    assert_eq!("[]", encode_todos(&empty));
}

#[test]
fn encode_escapes_specials() {
    let todos = vec![sample("x", "a\"b\\c\nd", Status::Incomplete)];
    assert_eq!(
        "[{\"id\":\"x\",\"todo\":\"a\\\"b\\\\c\\u000ad\",\"status\":\"Incomplete\"}]",
        encode_todos(&todos)
    );
}

#[test]
fn decode_inverts_encode() {
    let todos = vec![
        sample("one", "plain text", Status::Incomplete),
        sample("two", "quoted \"text\" with \\ and \n and ☃", Status::Done),
    ];
    let stored = encode_todos(&todos);
    let loaded = decode_todos(&stored);
    assert_eq!(todos.len(), loaded.len());
    for (a, b) in todos.iter().zip(loaded.iter()) {
        assert_eq!(a.id, b.id);
        assert_eq!(a.todo, b.todo);
        assert_eq!(a.status, b.status);
    }
    let stored_again = encode_todos(&loaded);
    assert_eq!(stored, stored_again);
}

#[test]
fn decode_discards_malformed() {
    assert_eq!(0, decode_todos("").len());
    assert_eq!(0, decode_todos("garbage").len());
    assert_eq!(0, decode_todos("[").len());
    assert_eq!(0, decode_todos("[}").len());
    assert_eq!(0, decode_todos("[{\"id\":\"a\"}]").len());
    assert_eq!(0, decode_todos("[ ]").len());
    assert_eq!(0, decode_todos("[]").len());
}

#[test]
fn decode_accepts_standard_escapes() {
    let loaded = decode_todos(
        "[{\"id\":\"a\\/b\",\"todo\":\"x\\ty\\nz\\b\\f\\r\",\"status\":\"Done\"}]",
    );
    assert_eq!(1, loaded.len());
    assert_eq!("a/b", loaded[0].id);
    assert_eq!("x\ty\nz\u{0008}\u{000C}\r", loaded[0].todo);

    let loaded = decode_todos("[{\"id\":\"\\u0041\\u00Dc\",\"todo\":\"\\u2603\",\"status\":\"Incomplete\"}]");
    assert_eq!(1, loaded.len());
    assert_eq!("A\u{00DC}", loaded[0].id);
    assert_eq!("\u{2603}", loaded[0].todo);
}

#[test]
fn decode_rejects_lone_surrogate_escape() {
    assert_eq!(0, decode_todos("[{\"id\":\"\\uD800\",\"todo\":\"b\",\"status\":\"Done\"}]").len());
    assert_eq!(0, decode_todos("[{\"id\":\"\\uZZZZ\",\"todo\":\"b\",\"status\":\"Done\"}]").len());
}

#[test]
fn decode_accepts_single_object() {
    let loaded = decode_todos("[{\"id\":\"a\",\"todo\":\"b\",\"status\":\"Incomplete\"}]");
    assert_eq!(1, loaded.len());
    assert_eq!("a", loaded[0].id);
    assert_eq!("b", loaded[0].todo);
    assert_eq!(Status::Incomplete, loaded[0].status);
}
