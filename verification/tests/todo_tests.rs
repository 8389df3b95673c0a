use beaver::common_structs::Priority;
use beaver::data_service::find_next_available_todo_id;
use beaver::todo::Todo;
use chrono::{TimeZone, Utc};

fn now_secs() -> u64 {
    Utc::now().timestamp() as u64
}

fn get_sample_todo() -> Todo {
    Todo::new(1, "Test", Priority::Low, now_secs()).unwrap()
}

#[test]
fn todo_new_with_empty_title_return_error() {
    assert_eq!(
        "Title is required",
        Todo::new(1, "", Priority::Low, now_secs()).unwrap_err().message()
    );
}

#[test]
fn todo_new_with_whitespaces_title_return_error() {
    assert_eq!(
        "Title is required",
        Todo::new(1, "   ", Priority::Low, now_secs()).unwrap_err().message()
    );
}

#[test]
fn todo_get_id_with_one_return_one() {
    let actual = get_sample_todo();
    assert_eq!(1, actual.get_id());
}

#[test]
fn todo_get_title_with_test_return_test() {
    let actual = get_sample_todo();
    assert_eq!("Test", actual.get_title());
}

#[test]
fn todo_get_priority_with_low_return_low() {
    let actual = get_sample_todo();
    assert_eq!(Priority::Low, actual.get_priority());
}

#[test]
fn todo_get_when_created_return_creation_tim() {
    let time_now = now_secs();
    let actual = Todo::new(1, "Test", Priority::Low, time_now).unwrap();
    assert_eq!(time_now, actual.get_when_created_utc());
}

#[test]
fn todo_get_completed_return_false() {
    let actual = get_sample_todo();
    assert_eq!(false, actual.get_completed());
}

#[test]
fn todo_get_when_completed_return_completed_time() {
    let time_now = now_secs();
    let actual = Todo::new(1, "Test", Priority::Low, time_now).unwrap();
    assert_eq!(
        Todo::get_default_completed_date(),
        actual.get_when_completed_utc()
    );
}

#[test]
fn todo_set_id_with_2_return_success() {
    let mut actual = get_sample_todo();
    assert_eq!(1, actual.get_id());
    actual.set_id(2);
    assert_eq!(2, actual.get_id());
}

#[test]
fn todo_set_title_with_empty_return_error() {
    let mut actual = get_sample_todo();
    assert_eq!("Title cannot be empty", actual.set_title("").unwrap_err().message());
}

#[test]
fn todo_set_title_with_whitespaces_return_error() {
    let mut actual = get_sample_todo();
    assert_eq!("Title cannot be empty", actual.set_title("  ").unwrap_err().message());
}

#[test]
fn todo_set_title_with_valid_value_return_success() {
    let mut actual = get_sample_todo();
    assert_eq!("Test", actual.get_title());
    const NEW_VALUE: &str = "Another value";
    actual.set_title(NEW_VALUE).unwrap();
    assert_eq!(NEW_VALUE, actual.get_title());
}

#[test]
fn todo_set_priority_with_medium_return_success() {
    let mut actual = get_sample_todo();
    assert_eq!(Priority::Low, actual.get_priority());
    actual.set_priority(Priority::Medium);
    assert_eq!(Priority::Medium, actual.get_priority());
}

#[test]
fn todo_set_completed_with_true_return_success() {
    let completed_date = Utc
        .with_ymd_and_hms(1970, 2, 2, 1, 1, 1)
        .unwrap()
        .timestamp() as u64;
    let mut actual = get_sample_todo();

    assert_eq!(false, actual.get_completed());
    assert_eq!(
        Todo::get_default_completed_date(),
        actual.get_when_completed_utc()
    );
    actual.set_completed(true, Some(completed_date));
    assert_eq!(true, actual.get_completed());
    assert_eq!(completed_date, actual.get_when_completed_utc());
}

#[test]
fn find_next_available_todo_id_with_empty_return_one() {
    let todos: Vec<Todo> = vec![];
    assert_eq!(1, find_next_available_todo_id(&todos));
}

#[test]
fn find_next_available_todo_id_with_1_return_two() {
    let todos: Vec<Todo> = vec![Todo::new(1, "a", Priority::Low, now_secs()).unwrap()];
    assert_eq!(2, find_next_available_todo_id(&todos));
}

#[test]
fn find_next_available_todo_id_with_1_2_return_three() {
    let todos: Vec<Todo> = vec![
        Todo::new(1, "a", Priority::Low, now_secs()).unwrap(),
        Todo::new(2, "b", Priority::Low, now_secs()).unwrap(),
    ];
    assert_eq!(3, find_next_available_todo_id(&todos));
}

#[test]
fn find_next_available_todo_id_with_1_2_3_return_three() {
    let todos: Vec<Todo> = vec![
        Todo::new(1, "a", Priority::Low, now_secs()).unwrap(),
        Todo::new(2, "b", Priority::Low, now_secs()).unwrap(),
        Todo::new(3, "c", Priority::Low, now_secs()).unwrap(),
    ];
    assert_eq!(4, find_next_available_todo_id(&todos));
}

#[test]
fn find_next_available_todo_id_with_2_3_return_one() {
    let todos: Vec<Todo> = vec![
        Todo::new(2, "a", Priority::Low, now_secs()).unwrap(),
        Todo::new(3, "b", Priority::Low, now_secs()).unwrap(),
    ];
    assert_eq!(1, find_next_available_todo_id(&todos));
}

#[test]
fn find_next_available_todo_id_with_1_3_return_two() {
    let todos: Vec<Todo> = vec![
        Todo::new(1, "a", Priority::Low, now_secs()).unwrap(),
        Todo::new(3, "b", Priority::Low, now_secs()).unwrap(),
    ];
    assert_eq!(2, find_next_available_todo_id(&todos));
}

#[test]
fn find_next_available_todo_id_with_1_completed_return_one() {
    let mut todos: Vec<Todo> = vec![Todo::new(1, "a", Priority::Low, now_secs()).unwrap()];
    todos[0].set_completed(true, None);
    assert_eq!(1, find_next_available_todo_id(&todos));
}

#[test]
fn find_next_available_todo_id_with_1_3_and_2_completed_return_two() {
    let mut todos: Vec<Todo> = vec![
        Todo::new(1, "a", Priority::Low, now_secs()).unwrap(),
        Todo::new(2, "b", Priority::Low, now_secs()).unwrap(),
        Todo::new(3, "c", Priority::Low, now_secs()).unwrap(),
    ];
    todos[1].set_completed(true, None);
    assert_eq!(2, find_next_available_todo_id(&todos));
}
