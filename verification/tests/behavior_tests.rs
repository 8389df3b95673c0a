use beaver::add_command::AddCommand;
use beaver::args_analyzer::analyze_args;
use beaver::common_structs::{Command, CommandResult, OptionMap, Priority};
use beaver::done_command::DoneCommand;
use beaver::edit_command::EditCommand;
use beaver::fetch_command::FetchCommand;
use beaver::list_command::{ListCommand, SortOrder};
use beaver::next_command::NextCommand;
use beaver::purge_command::{count_completed, PurgeCommand};
use beaver::remove_command::RemoveCommand;
use beaver::store::{format_store, parse_store};
use beaver::todo::Todo;

fn command_result(command: Command, value: &str, options: &[(&str, &str)]) -> CommandResult {
    let mut map = OptionMap::new();
    for (k, v) in options {
        map.insert(k, v);
    }
    CommandResult::new(command, value, map)
}

#[test]
fn analyze_args_with_any_nonblank_first_word_return_some() {
    assert!(analyze_args(vec![String::from("zzz"), String::from("x")]).is_some());
    assert!(analyze_args(vec![String::from("LIST")]).is_some());
    assert!(analyze_args(vec![String::from(" remove ")]).is_some());
    assert!(analyze_args(vec![String::from("-p=H")]).is_some());
}

#[test]
fn analyze_args_tokenizer_drops_words_after_first_option() {
    let cr = analyze_args(vec![
        String::from("add"),
        String::from("one"),
        String::from("-a"),
        String::from("two"),
    ])
    .unwrap();
    assert_eq!("one", cr.get_value());
    // the bare flag still accumulates following words
    assert_eq!("two", cr.get_options().get("all").unwrap().as_str());
}

#[test]
fn analyze_args_with_repeated_option_keeps_last_value() {
    let cr = analyze_args(vec![
        String::from("add"),
        String::from("-p=H"),
        String::from("-p=L"),
    ])
    .unwrap();
    assert_eq!(1, cr.get_options().len());
    assert_eq!("L", cr.get_options().get("priority").unwrap().as_str());
}

#[test]
fn end_to_end_add_done_add_reuses_id_one() {
    let mut todos: Vec<Todo> = Vec::new();

    // Add "Buy milk" with no priority
    let cr = analyze_args(vec![
        String::from("add"),
        String::from("Buy"),
        String::from("milk"),
    ])
    .unwrap();
    assert_eq!(Command::Add, cr.get_command());
    let add = AddCommand::new_from_command_result(&cr).unwrap();
    let id = add.apply(&mut todos).unwrap();
    assert_eq!(1, id);
    assert_eq!(1, todos.len());
    assert_eq!("Buy milk", todos[0].get_title());
    assert_eq!(Priority::Low, todos[0].get_priority());
    assert_eq!(false, todos[0].get_completed());

    // Done on that id: completed, stamped close to now
    let done = DoneCommand::new_from_command_result(&command_result(Command::Done, "1", &[]))
        .unwrap();
    let title = done.apply(&mut todos).unwrap();
    assert_eq!("Buy milk", title);
    assert_eq!(true, todos[0].get_completed());
    let now = chrono::Utc::now().timestamp() as u64;
    let stamped = todos[0].get_when_completed_utc();
    assert!(stamped <= now + 1 && now - stamped < 30);

    // Add again: the completed todo's id is reclaimed
    let add2 = AddCommand::new("Pay rent", Priority::High).unwrap();
    let id2 = add2.apply(&mut todos).unwrap();
    assert_eq!(1, id2);
    assert_eq!(2, todos.len());

    // and the collection survives a store round trip
    let text = format_store(&todos);
    let back = parse_store(text.as_str()).unwrap();
    assert_eq!(todos.len(), back.len());
    for (e, a) in todos.iter().zip(back.iter()) {
        assert_eq!(e.get_id(), a.get_id());
        assert_eq!(e.get_title(), a.get_title());
        assert_eq!(e.get_priority(), a.get_priority());
        assert_eq!(e.get_when_created_utc(), a.get_when_created_utc());
        assert_eq!(e.get_completed(), a.get_completed());
        assert_eq!(e.get_when_completed_utc(), a.get_when_completed_utc());
    }
}

#[test]
fn done_command_apply_with_unknown_id_return_not_found() {
    let mut todos = vec![Todo::new(1, "a", Priority::Low, 100).unwrap()];
    let done = DoneCommand::new_from_command_result(&command_result(Command::Done, "9", &[]))
        .unwrap();
    let err = done.apply(&mut todos).unwrap_err();
    assert_eq!("Unable to find the todo with id 9", err.message());
}

#[test]
fn done_command_apply_on_completed_todo_return_already_completed() {
    let mut todos = vec![Todo::new(4, "a", Priority::Low, 100).unwrap()];
    todos[0].set_completed(true, Some(200));
    let done = DoneCommand::new_from_command_result(&command_result(Command::Done, "4", &[]))
        .unwrap();
    let err = done.apply(&mut todos).unwrap_err();
    assert_eq!("The todo with id 4 is already completed", err.message());
}

#[test]
fn done_command_with_plus_prefixed_id_parses() {
    let done = DoneCommand::new_from_command_result(&command_result(Command::Done, "+5", &[]))
        .unwrap();
    assert_eq!(5, done.get_id());
}

#[test]
fn done_command_with_huge_id_return_number_too_large() {
    let err = DoneCommand::new_from_command_result(&command_result(
        Command::Done,
        "4294967296",
        &[],
    ))
    .unwrap_err();
    assert_eq!("number too large to fit in target type", err.message());
}

#[test]
fn edit_command_apply_updates_title_and_priority() {
    let mut todos = vec![
        Todo::new(1, "a", Priority::Low, 100).unwrap(),
        Todo::new(2, "b", Priority::Low, 200).unwrap(),
    ];
    let edit = EditCommand::new_from_command_result(&command_result(
        Command::Edit,
        "2",
        &[("title", "renamed"), ("priority", "h")],
    ))
    .unwrap();
    edit.apply(&mut todos).unwrap();
    assert_eq!("renamed", todos[1].get_title());
    assert_eq!(Priority::High, todos[1].get_priority());
    assert_eq!("a", todos[0].get_title());
}

#[test]
fn edit_command_apply_on_completed_todo_return_not_found() {
    let mut todos = vec![Todo::new(1, "a", Priority::Low, 100).unwrap()];
    todos[0].set_completed(true, Some(150));
    let edit = EditCommand::new_from_command_result(&command_result(
        Command::Edit,
        "1",
        &[("title", "renamed")],
    ))
    .unwrap();
    let err = edit.apply(&mut todos).unwrap_err();
    assert_eq!("Unable to find the todo with id 1", err.message());
    assert_eq!("a", todos[0].get_title());
}

#[test]
fn edit_command_with_invalid_priority_return_error() {
    let err = EditCommand::new_from_command_result(&command_result(
        Command::Edit,
        "1",
        &[("priority", "z")],
    ))
    .unwrap_err();
    assert_eq!("Invalid priority value. Must be H, M or L", err.message());
}

#[test]
fn fetch_command_apply_finds_completed_todos_too() {
    let mut todos = vec![Todo::new(3, "done thing", Priority::Medium, 100).unwrap()];
    todos[0].set_completed(true, Some(500));
    let fetch = FetchCommand::new_from_command_result(&command_result(Command::Fetch, "3", &[]))
        .unwrap();
    let found = fetch.apply(&todos).unwrap();
    assert_eq!("done thing", found.get_title());
    assert_eq!(true, found.get_completed());
}

#[test]
fn fetch_command_apply_with_unknown_id_return_not_found() {
    let todos = vec![Todo::new(3, "x", Priority::Medium, 100).unwrap()];
    let fetch = FetchCommand::new_from_command_result(&command_result(Command::Fetch, "4", &[]))
        .unwrap();
    let err = fetch.apply(&todos).unwrap_err();
    assert_eq!("Unable to find the todo with id 4", err.message());
}

#[test]
fn remove_command_apply_removes_first_active_match() {
    let mut todos = vec![
        Todo::new(1, "a", Priority::Low, 100).unwrap(),
        Todo::new(2, "b", Priority::Low, 200).unwrap(),
    ];
    let remove = RemoveCommand::new_from_command_result(&command_result(Command::Remove, "1", &[]))
        .unwrap();
    assert_eq!(0, remove.find_index(&todos).unwrap());
    remove.apply(&mut todos).unwrap();
    assert_eq!(1, todos.len());
    assert_eq!(2, todos[0].get_id());
}

#[test]
fn remove_command_apply_with_completed_only_match_return_not_found() {
    let mut todos = vec![Todo::new(1, "a", Priority::Low, 100).unwrap()];
    todos[0].set_completed(true, Some(150));
    let remove = RemoveCommand::new_from_command_result(&command_result(Command::Remove, "1", &[]))
        .unwrap();
    let err = remove.apply(&mut todos).unwrap_err();
    assert_eq!("Unable to find the todo with id 1", err.message());
    assert_eq!(1, todos.len());
}

#[test]
fn purge_command_apply_keeps_only_active_todos() {
    let mut todos = vec![
        Todo::new(1, "a", Priority::Low, 100).unwrap(),
        Todo::new(2, "b", Priority::Low, 200).unwrap(),
        Todo::new(3, "c", Priority::Low, 300).unwrap(),
    ];
    todos[0].set_completed(true, Some(400));
    todos[2].set_completed(true, Some(500));
    assert_eq!(2, count_completed(&todos));
    let removed = PurgeCommand {}.apply(&mut todos);
    assert_eq!(2, removed);
    assert_eq!(1, todos.len());
    assert_eq!(2, todos[0].get_id());
}

#[test]
fn next_command_apply_picks_highest_priority_then_oldest() {
    let mut todos = vec![
        Todo::new(1, "low old", Priority::Low, 100).unwrap(),
        Todo::new(2, "high new", Priority::High, 900).unwrap(),
        Todo::new(3, "high old", Priority::High, 200).unwrap(),
        Todo::new(4, "done high oldest", Priority::High, 50).unwrap(),
    ];
    todos[3].set_completed(true, Some(1000));
    let next = NextCommand {}.apply(&todos).unwrap();
    assert_eq!(3, next.get_id());
}

#[test]
fn next_command_apply_with_only_completed_return_none() {
    let mut todos = vec![Todo::new(1, "a", Priority::Low, 100).unwrap()];
    todos[0].set_completed(true, Some(150));
    assert!(NextCommand {}.apply(&todos).is_none());
}

#[test]
fn list_command_default_sorts_high_priority_first() {
    let cr = command_result(Command::List, "", &[]);
    let list = ListCommand::new_from_command_result(&cr).unwrap();
    assert_eq!(SortOrder::PriorityDESC, list.get_sort_order());
    assert_eq!(false, list.get_all());
    let mut todos = vec![
        Todo::new(1, "low", Priority::Low, 100).unwrap(),
        Todo::new(2, "high", Priority::High, 200).unwrap(),
        Todo::new(3, "medium", Priority::Medium, 300).unwrap(),
        Todo::new(4, "done", Priority::High, 50).unwrap(),
    ];
    todos[3].set_completed(true, Some(400));
    let shown = list.apply(&todos);
    assert_eq!(3, shown.len());
    assert_eq!(Priority::High, shown[0].get_priority());
    assert_eq!(Priority::Medium, shown[1].get_priority());
    assert_eq!(Priority::Low, shown[2].get_priority());
}

#[test]
fn list_command_with_all_flag_includes_completed() {
    let cr = command_result(Command::List, "", &[("all", "")]);
    let list = ListCommand::new_from_command_result(&cr).unwrap();
    assert!(list.get_all());
    let mut todos = vec![
        Todo::new(1, "a", Priority::Low, 100).unwrap(),
        Todo::new(2, "b", Priority::High, 200).unwrap(),
    ];
    todos[0].set_completed(true, Some(300));
    let shown = list.apply(&todos);
    assert_eq!(2, shown.len());
}

#[test]
fn list_command_sorts_by_creation_time_ascending() {
    let cr = command_result(Command::List, "", &[("sort", "creationtime")]);
    let list = ListCommand::new_from_command_result(&cr).unwrap();
    assert_eq!(SortOrder::CreationTimeASC, list.get_sort_order());
    let todos = vec![
        Todo::new(1, "late", Priority::Low, 900).unwrap(),
        Todo::new(2, "early", Priority::Low, 100).unwrap(),
        Todo::new(3, "middle", Priority::Low, 500).unwrap(),
    ];
    let shown = list.apply(&todos);
    assert_eq!(2, shown[0].get_id());
    assert_eq!(3, shown[1].get_id());
    assert_eq!(1, shown[2].get_id());
}

#[test]
fn list_command_sorts_by_creation_time_descending() {
    let cr = command_result(Command::List, "", &[("sort", "CreationTimeDESC")]);
    let list = ListCommand::new_from_command_result(&cr).unwrap();
    let todos = vec![
        Todo::new(1, "late", Priority::Low, 900).unwrap(),
        Todo::new(2, "early", Priority::Low, 100).unwrap(),
    ];
    let shown = list.apply(&todos);
    assert_eq!(1, shown[0].get_id());
    assert_eq!(2, shown[1].get_id());
}

#[test]
fn list_command_sorts_by_priority_ascending() {
    let cr = command_result(Command::List, "", &[("sort", "priority")]);
    let list = ListCommand::new_from_command_result(&cr).unwrap();
    assert_eq!(SortOrder::PriorityASC, list.get_sort_order());
    let todos = vec![
        Todo::new(1, "h", Priority::High, 100).unwrap(),
        Todo::new(2, "l", Priority::Low, 200).unwrap(),
    ];
    let shown = list.apply(&todos);
    assert_eq!(Priority::Low, shown[0].get_priority());
    assert_eq!(Priority::High, shown[1].get_priority());
}

#[test]
fn list_command_with_bad_sort_value_return_error() {
    let cr = command_result(Command::List, "", &[("sort", "alphabetic")]);
    let err = ListCommand::new_from_command_result(&cr).unwrap_err();
    assert_eq!(
        "Invalid sort value. Must be PriorityDESC, Priority, CreationTimeDESC or CreationTime",
        err.message()
    );
}

#[test]
fn classify_distinguishes_every_command_word() {
    let cases = [
        ("add", Command::Add),
        ("edit", Command::Edit),
        ("delete", Command::Delete),
        ("done", Command::Done),
        ("fetch", Command::Fetch),
        ("list", Command::List),
        ("next", Command::Next),
        ("purge", Command::Purge),
        ("remove", Command::Remove),
        ("other", Command::Unknown),
    ];
    for (word, expected) in cases {
        let cr = analyze_args(vec![String::from(word)]).unwrap();
        assert_eq!(expected, cr.get_command());
    }
}
