use beaver::add_command::AddCommand;
use beaver::common_structs::{Command, CommandResult, OptionMap, Priority};
use beaver::done_command::DoneCommand;
use beaver::edit_command::EditCommand;
use beaver::fetch_command::FetchCommand;
use beaver::remove_command::RemoveCommand;

fn command_result(command: Command, value: &str, options: &[(&str, &str)]) -> CommandResult {
    let mut map = OptionMap::new();
    for (k, v) in options {
        map.insert(k, v);
    }
    CommandResult::new(command, value, map)
}

#[test]
fn add_command_new_with_no_value_return_error() {
    let command = AddCommand::new("", Priority::Low);
    assert_eq!("Value cannot be empty", command.unwrap_err().message())
}

#[test]
fn add_command_new_with_whitespaces_value_return_error() {
    let command = AddCommand::new("   ", Priority::Low);
    assert_eq!("Value cannot be empty", command.unwrap_err().message())
}

#[test]
fn add_command_new_with_valid_args_return_valid() {
    let command = AddCommand::new("Test", Priority::Medium).unwrap();
    assert_eq!("Test", command.get_title());
    assert_eq!(Priority::Medium, command.get_priority());
}

#[test]
fn add_command_new_from_command_result_with_no_value_return_error() {
    let command = AddCommand::new_from_command_result(&command_result(Command::Add, "", &[]));
    assert_eq!("Value cannot be empty", command.unwrap_err().message())
}

#[test]
fn add_command_new_from_command_with_priority_value_empty_return_error() {
    let cr = command_result(Command::Add, "test", &[("priority", "")]);
    let command = AddCommand::new_from_command_result(&cr);
    assert_eq!(
        "Invalid priority value. Must be H, M or L",
        command.unwrap_err().message()
    );
}

#[test]
fn add_command_new_from_command_with_priority_value_z_return_error() {
    let cr = command_result(Command::Add, "test", &[("priority", "z")]);
    let command = AddCommand::new_from_command_result(&cr);
    assert_eq!(
        "Invalid priority value. Must be H, M or L",
        command.unwrap_err().message()
    );
}

#[test]
fn add_command_new_from_command_with_no_priority_return_valid_addcommand() {
    let cr = command_result(Command::Add, "test", &[]);
    let add_command = AddCommand::new_from_command_result(&cr).unwrap();
    assert_eq!("test", add_command.get_title());
    assert_eq!(Priority::Low, add_command.get_priority());
}

fn parse_command_with_x_priority_return_valid_addcommand(priority: Priority, letter: &str) {
    let cr = command_result(Command::Add, "test", &[("priority", letter)]);
    let add_command = AddCommand::new_from_command_result(&cr).unwrap();
    assert_eq!("test", add_command.get_title());
    assert_eq!(priority, add_command.get_priority());
}

#[test]
fn parse_command_with_mcaps_priority_return_valid_addcommand() {
    parse_command_with_x_priority_return_valid_addcommand(Priority::Medium, "M");
}

#[test]
fn parse_command_with_hcaps_priority_return_valid_addcommand() {
    parse_command_with_x_priority_return_valid_addcommand(Priority::High, "H");
}

#[test]
fn parse_command_with_m_priority_return_valid_addcommand() {
    parse_command_with_x_priority_return_valid_addcommand(Priority::Medium, "m");
}

#[test]
fn parse_command_with_h_priority_return_valid_addcommand() {
    parse_command_with_x_priority_return_valid_addcommand(Priority::High, "h");
}

#[test]
fn done_command_new_from_command_result_with_empty_value_return_error() {
    let command = DoneCommand::new_from_command_result(&command_result(Command::Done, "", &[]));
    assert_eq!("Value cannot be empty", command.unwrap_err().message())
}

#[test]
fn done_command_new_from_command_result_with_whitestrings_value_return_error() {
    let command = DoneCommand::new_from_command_result(&command_result(Command::Done, "  ", &[]));
    assert_eq!("Value cannot be empty", command.unwrap_err().message())
}

#[test]
fn done_command_new_from_command_result_with_1_value_return_success() {
    let command = DoneCommand::new_from_command_result(&command_result(Command::Done, "1", &[]));
    assert_eq!(1, command.unwrap().get_id());
}

#[test]
fn done_command_new_from_command_result_with_100_value_return_success() {
    let command = DoneCommand::new_from_command_result(&command_result(Command::Done, "100", &[]));
    assert_eq!(100, command.unwrap().get_id());
}

#[test]
fn done_command_new_from_command_result_with_minus_1_value_return_error() {
    let command = DoneCommand::new_from_command_result(&command_result(Command::Done, "-1", &[]));
    assert_eq!("invalid digit found in string", command.unwrap_err().message());
}

#[test]
fn done_command_new_from_command_result_with_minus_abc_value_return_error() {
    let command = DoneCommand::new_from_command_result(&command_result(Command::Done, "abc", &[]));
    assert_eq!("invalid digit found in string", command.unwrap_err().message());
}

#[test]
fn edit_command_new_from_command_result_with_value_empty_return_error() {
    let command = EditCommand::new_from_command_result(&command_result(Command::Edit, "", &[]));
    assert_eq!("Value cannot be empty", command.unwrap_err().message())
}

#[test]
fn edit_command_new_from_command_result_with_value_whitespaces_return_error() {
    let command = EditCommand::new_from_command_result(&command_result(Command::Edit, "   ", &[]));
    assert_eq!("Value cannot be empty", command.unwrap_err().message())
}

#[test]
fn edit_command_new_from_command_result_with_1_value_return_success() {
    let command = EditCommand::new_from_command_result(&command_result(
        Command::Edit,
        "1",
        &[("title", "test")],
    ));
    assert_eq!(1, command.unwrap().get_id());
}

#[test]
fn edit_command_new_from_command_result_with_100_value_return_success() {
    let command = EditCommand::new_from_command_result(&command_result(
        Command::Edit,
        "100",
        &[("title", "test")],
    ));
    assert_eq!(100, command.unwrap().get_id());
}

#[test]
fn edit_command_new_from_command_result_with_minus_1_value_return_error() {
    let command = EditCommand::new_from_command_result(&command_result(Command::Edit, "-1", &[]));
    assert_eq!("invalid digit found in string", command.unwrap_err().message());
}

#[test]
fn edit_command_new_from_command_result_with_minus_abc_value_return_error() {
    let command = EditCommand::new_from_command_result(&command_result(Command::Edit, "abc", &[]));
    assert_eq!("invalid digit found in string", command.unwrap_err().message());
}

#[test]
fn edit_command_new_from_command_result_with_no_options_return_error() {
    let command = EditCommand::new_from_command_result(&command_result(Command::Edit, "1", &[]));
    assert_eq!(
        "At least one option must be supplied",
        command.unwrap_err().message()
    );
}

#[test]
fn edit_command_new_from_command_result_with_empty_title_return_error() {
    let command = EditCommand::new_from_command_result(&command_result(
        Command::Edit,
        "1",
        &[("title", "")],
    ));
    assert_eq!("The title cannot be empty", command.unwrap_err().message());
}

#[test]
fn edit_command_new_from_command_result_with_whitespaces_title_return_error() {
    let command = EditCommand::new_from_command_result(&command_result(
        Command::Edit,
        "1",
        &[("title", "   ")],
    ));
    assert_eq!("The title cannot be empty", command.unwrap_err().message());
}

#[test]
fn edit_command_new_from_command_result_with_test_title_return_success() {
    let command = EditCommand::new_from_command_result(&command_result(
        Command::Edit,
        "1",
        &[("title", "test")],
    ))
    .unwrap();
    assert_eq!(1, command.get_id());
    assert_eq!("test", command.get_title().as_ref().unwrap().as_str());
    assert!(command.get_priority().is_none());
}

#[test]
fn edit_command_new_from_command_result_with_priority_m_return_success() {
    let command = EditCommand::new_from_command_result(&command_result(
        Command::Edit,
        "1",
        &[("priority", "m")],
    ))
    .unwrap();
    assert_eq!(1, command.get_id());
    assert_eq!(Priority::Medium, command.get_priority().unwrap());
    assert!(command.get_title().is_none());
}

#[test]
fn edit_command_new_from_command_result_with_both_title_and_priority_return_success() {
    let command = EditCommand::new_from_command_result(&command_result(
        Command::Edit,
        "1",
        &[("title", "test"), ("priority", "m")],
    ))
    .unwrap();
    assert_eq!(1, command.get_id());
    assert_eq!(Priority::Medium, command.get_priority().unwrap());
    assert_eq!("test", command.get_title().as_ref().unwrap().as_str());
}

#[test]
fn fetch_command_new_from_command_result_with_empty_value_return_error() {
    let command = FetchCommand::new_from_command_result(&command_result(Command::Fetch, "", &[]));
    assert_eq!("Value cannot be empty", command.unwrap_err().message())
}

#[test]
fn fetch_command_new_from_command_result_with_whitestrings_value_return_error() {
    let command = FetchCommand::new_from_command_result(&command_result(Command::Fetch, "  ", &[]));
    assert_eq!("Value cannot be empty", command.unwrap_err().message())
}

#[test]
fn fetch_command_new_from_command_result_with_1_value_return_success() {
    let command = FetchCommand::new_from_command_result(&command_result(Command::Fetch, "1", &[]));
    assert_eq!(1, command.unwrap().get_id());
}

#[test]
fn fetch_command_new_from_command_result_with_100_value_return_success() {
    let command =
        FetchCommand::new_from_command_result(&command_result(Command::Fetch, "100", &[]));
    assert_eq!(100, command.unwrap().get_id());
}

#[test]
fn fetch_command_new_from_command_result_with_minus_1_value_return_error() {
    let command = FetchCommand::new_from_command_result(&command_result(Command::Fetch, "-1", &[]));
    assert_eq!("invalid digit found in string", command.unwrap_err().message());
}

#[test]
fn fetch_command_new_from_command_result_with_minus_abc_value_return_error() {
    let command =
        FetchCommand::new_from_command_result(&command_result(Command::Fetch, "abc", &[]));
    assert_eq!("invalid digit found in string", command.unwrap_err().message());
}

#[test]
fn remove_command_new_from_command_result_with_empty_value_return_error() {
    let command = RemoveCommand::new_from_command_result(&command_result(Command::Remove, "", &[]));
    assert_eq!("Value cannot be empty", command.unwrap_err().message())
}

#[test]
fn remove_command_new_from_command_result_with_whitestrings_value_return_error() {
    let command =
        RemoveCommand::new_from_command_result(&command_result(Command::Remove, "  ", &[]));
    assert_eq!("Value cannot be empty", command.unwrap_err().message())
}

#[test]
fn remove_command_new_from_command_result_with_1_value_return_success() {
    let command =
        RemoveCommand::new_from_command_result(&command_result(Command::Remove, "1", &[]));
    assert_eq!(1, command.unwrap().get_id());
}

#[test]
fn remove_command_new_from_command_result_with_100_value_return_success() {
    let command =
        RemoveCommand::new_from_command_result(&command_result(Command::Remove, "100", &[]));
    assert_eq!(100, command.unwrap().get_id());
}

#[test]
fn remove_command_new_from_command_result_with_minus_1_value_return_error() {
    let command =
        RemoveCommand::new_from_command_result(&command_result(Command::Remove, "-1", &[]));
    assert_eq!("invalid digit found in string", command.unwrap_err().message());
}

#[test]
fn remove_command_new_from_command_result_with_minus_abc_value_return_error() {
    let command =
        RemoveCommand::new_from_command_result(&command_result(Command::Remove, "abc", &[]));
    assert_eq!("invalid digit found in string", command.unwrap_err().message());
}
