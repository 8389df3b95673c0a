use beaver::common_structs::Priority;
use beaver::store::{format_store, parse_store};
use beaver::todo::Todo;

fn roundtrip(todos: &Vec<Todo>) -> Vec<Todo> {
    let text = format_store(todos);
    parse_store(text.as_str()).unwrap()
}

fn assert_same(expected: &Vec<Todo>, actual: &Vec<Todo>) {
    assert_eq!(expected.len(), actual.len());
    for (e, a) in expected.iter().zip(actual.iter()) {
        assert_eq!(e.get_id(), a.get_id());
        assert_eq!(e.get_title(), a.get_title());
        assert_eq!(e.get_priority(), a.get_priority());
        assert_eq!(e.get_when_created_utc(), a.get_when_created_utc());
        assert_eq!(e.get_completed(), a.get_completed());
        assert_eq!(e.get_when_completed_utc(), a.get_when_completed_utc());
    }
}

#[test]
fn store_roundtrip_with_empty_collection() {
    let todos: Vec<Todo> = vec![];
    assert_eq!("[]", format_store(&todos));
    assert_same(&todos, &roundtrip(&todos));
}

#[test]
fn store_format_with_one_todo_is_exact() {
    let todos = vec![Todo::new(1, "a", Priority::Low, 0).unwrap()];
    let expected = "[\n  {\n    \"id\": 1,\n    \"title\": \"a\",\n    \"priority\": \"Low\",\n    \"when_created_utc\": \"1970-01-01 00:00:00\",\n    \"completed\": false,\n    \"when_completed_utc\": \"1970-01-01 00:00:00\"\n  }\n]";
    assert_eq!(expected, format_store(&todos));
}

#[test]
fn store_roundtrip_with_several_todos() {
    let mut todos = vec![
        Todo::new(1, "Buy milk", Priority::Low, 1705314600).unwrap(),
        Todo::new(2, "Write report", Priority::High, 1705314601).unwrap(),
        Todo::new(3, "Call home", Priority::Medium, 1705318200).unwrap(),
    ];
    todos[1].set_completed(true, Some(1705400000));
    assert_same(&todos, &roundtrip(&todos));
}

#[test]
fn store_roundtrip_with_special_characters_in_title() {
    let todos = vec![
        Todo::new(1, "say \"hi\" to c:\\temp", Priority::Low, 1000).unwrap(),
        Todo::new(2, "line\nbreak\tand tab", Priority::High, 2000).unwrap(),
        Todo::new(3, "unicode \u{00e9}\u{4e16}\u{754c}", Priority::Medium, 3000).unwrap(),
        Todo::new(4, "control \u{01} char", Priority::Low, 4000).unwrap(),
    ];
    assert_same(&todos, &roundtrip(&todos));
}

#[test]
fn store_roundtrip_keeps_leap_day() {
    // 2024-02-29 12:00:00 UTC
    let ts: u64 = 1709208000;
    let todos = vec![Todo::new(7, "leap", Priority::Low, ts).unwrap()];
    let text = format_store(&todos);
    assert!(text.contains("2024-02-29 12:00:00"));
    assert_same(&todos, &roundtrip(&todos));
}

#[test]
fn store_parse_with_handwritten_text_return_todos() {
    let text = "[\n  {\n    \"id\": 12,\n    \"title\": \"shop\",\n    \"priority\": \"High\",\n    \"when_created_utc\": \"2023-06-15 08:30:15\",\n    \"completed\": true,\n    \"when_completed_utc\": \"2023-06-16 20:00:00\"\n  }\n]";
    let todos = parse_store(text).unwrap();
    assert_eq!(1, todos.len());
    assert_eq!(12, todos[0].get_id());
    assert_eq!("shop", todos[0].get_title());
    assert_eq!(Priority::High, todos[0].get_priority());
    assert_eq!(true, todos[0].get_completed());
    let created = chrono::NaiveDate::from_ymd_opt(2023, 6, 15)
        .unwrap()
        .and_hms_opt(8, 30, 15)
        .unwrap()
        .and_utc()
        .timestamp() as u64;
    assert_eq!(created, todos[0].get_when_created_utc());
}

#[test]
fn store_parse_with_empty_array_return_empty() {
    assert_eq!(0, parse_store("[]").unwrap().len());
    assert_eq!(0, parse_store(" [ ] ").unwrap().len());
}

#[test]
fn store_parse_with_garbage_return_format_error() {
    let err = parse_store("not json").unwrap_err();
    assert_eq!("The todo store is not in a valid format", err.message());
}

#[test]
fn store_parse_with_truncated_text_return_format_error() {
    let todos = vec![Todo::new(1, "a", Priority::Low, 0).unwrap()];
    let text = format_store(&todos);
    let cut = &text[..text.len() - 2];
    assert!(parse_store(cut).is_err());
}

#[test]
fn store_parse_with_trailing_garbage_return_format_error() {
    assert!(parse_store("[] x").is_err());
}

#[test]
fn store_parse_with_invalid_date_return_format_error() {
    let text = "[\n  {\n    \"id\": 1,\n    \"title\": \"a\",\n    \"priority\": \"Low\",\n    \"when_created_utc\": \"2023-02-29 00:00:00\",\n    \"completed\": false,\n    \"when_completed_utc\": \"1970-01-01 00:00:00\"\n  }\n]";
    assert!(parse_store(text).is_err());
}

#[test]
fn store_parse_with_bad_priority_return_format_error() {
    let text = "[\n  {\n    \"id\": 1,\n    \"title\": \"a\",\n    \"priority\": \"Huge\",\n    \"when_created_utc\": \"1970-01-01 00:00:00\",\n    \"completed\": false,\n    \"when_completed_utc\": \"1970-01-01 00:00:00\"\n  }\n]";
    assert!(parse_store(text).is_err());
}

#[test]
fn store_parse_with_overflowing_id_return_format_error() {
    let text = "[\n  {\n    \"id\": 4294967296,\n    \"title\": \"a\",\n    \"priority\": \"Low\",\n    \"when_created_utc\": \"1970-01-01 00:00:00\",\n    \"completed\": false,\n    \"when_completed_utc\": \"1970-01-01 00:00:00\"\n  }\n]";
    assert!(parse_store(text).is_err());
}

#[test]
fn store_roundtrip_keeps_blank_title_from_store() {
    // A stored record with a blank title is read back as it is; the store
    // layer does not re-validate what other tools may have written.
    let text = "[\n  {\n    \"id\": 1,\n    \"title\": \"\",\n    \"priority\": \"Low\",\n    \"when_created_utc\": \"1999-12-31 23:59:59\",\n    \"completed\": false,\n    \"when_completed_utc\": \"1970-01-01 00:00:00\"\n  }\n]";
    let todos = parse_store(text).unwrap();
    assert_eq!("", todos[0].get_title());
    assert_same(&todos, &roundtrip(&todos));
}
