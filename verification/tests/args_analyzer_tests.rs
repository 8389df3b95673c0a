use beaver::args_analyzer::{analyze_args, extract_option_value, get_option_name_from_pattern};
use beaver::common_structs::Command;

#[test]
fn command_equality_unkown_add_return_false() {
    assert!(Command::Unknown != Command::Add);
}

#[test]
fn command_equality_unkown_unknown_return_true() {
    assert!(Command::Unknown == Command::Unknown);
}

#[test]
fn command_equality_add_add_return_true() {
    assert!(Command::Add == Command::Add);
}

#[test]
fn analyze_args_with_empty_vec_return_none() {
    assert!(analyze_args(vec![]).is_none());
}

#[test]
fn analyze_args_with_one_empty_string_return_none() {
    assert!(analyze_args(vec![String::from("")]).is_none());
}

#[test]
fn analyze_args_with_one_whitespaces_string_return_none() {
    assert!(analyze_args(vec![String::from("   ")]).is_none());
}

#[test]
fn analyze_args_with_blabla_string_command_return_unknown_command() {
    assert!(Command::Unknown == analyze_args(vec![String::from("blabla")]).unwrap().get_command());
}

#[test]
fn analyze_args_with_add_lowercase_string_command_return_add_command() {
    assert!(Command::Add == analyze_args(vec![String::from("add")]).unwrap().get_command());
}

#[test]
fn analyze_args_with_add_uppercase_string_command_return_add_command() {
    assert!(Command::Add == analyze_args(vec![String::from("ADD")]).unwrap().get_command());
}

#[test]
fn analyze_args_with_add_uppercase_withspaces_string_command_return_add_command() {
    assert!(Command::Add == analyze_args(vec![String::from("   ADD    ")]).unwrap().get_command());
}

#[test]
fn analyze_args_with_add_with_singleword_return_add_valid_command() {
    let command_result = analyze_args(vec![String::from("add"), String::from("test")]).unwrap();
    assert!(Command::Add == command_result.get_command());
    assert_eq!("test", command_result.get_value());
}

#[test]
fn analyze_args_with_add_with_twowords_return_add_valid_command() {
    let command_result = analyze_args(vec![
        String::from("add"),
        String::from("test"),
        String::from("two"),
    ])
    .unwrap();
    assert!(Command::Add == command_result.get_command());
    assert_eq!("test two", command_result.get_value());
}

#[test]
fn analyze_args_with_add_with_twowords_and_one_option_return_add_valid_command() {
    let command_result = analyze_args(vec![
        String::from("add"),
        String::from("test"),
        String::from("two"),
        String::from("-p=H"),
    ])
    .unwrap();
    assert!(Command::Add == command_result.get_command());
    assert_eq!("test two", command_result.get_value());
    let actual_options = command_result.get_options();
    assert_eq!(1, actual_options.len());
    assert!(actual_options.contains_key("priority"));
    assert_eq!("H", actual_options.get("priority").unwrap().as_str());
}

#[test]
fn analyze_args_with_add_with_twowords_and_one_option_long_return_add_valid_command() {
    let command_result = analyze_args(vec![
        String::from("add"),
        String::from("test"),
        String::from("two"),
        String::from("--priority=H"),
    ])
    .unwrap();
    assert!(Command::Add == command_result.get_command());
    assert_eq!("test two", command_result.get_value());
    let actual_options = command_result.get_options();
    assert_eq!(1, actual_options.len());
    assert!(actual_options.contains_key("priority"));
    assert_eq!("H", actual_options.get("priority").unwrap().as_str());
}

#[test]
fn analyze_args_with_add_with_twowords_and_one_option_value_with_spaces_return_add_valid_command() {
    let command_result = analyze_args(vec![
        String::from("add"),
        String::from("test"),
        String::from("two"),
        String::from("--priority=H"),
        String::from("and"),
        String::from("P"),
    ])
    .unwrap();
    assert!(Command::Add == command_result.get_command());
    assert_eq!("test two", command_result.get_value());
    let actual_options = command_result.get_options();
    assert_eq!(1, actual_options.len());
    assert!(actual_options.contains_key("priority"));
    assert_eq!("H and P", actual_options.get("priority").unwrap().as_str());
}

#[test]
fn analyze_args_with_add_with_twowords_and_two_options_return_add_valid_command() {
    let command_result = analyze_args(vec![
        String::from("add"),
        String::from("test"),
        String::from("two"),
        String::from("--priority=H"),
        String::from("and"),
        String::from("P"),
        String::from("--title=Test"),
        String::from("again"),
    ])
    .unwrap();
    assert!(Command::Add == command_result.get_command());
    assert_eq!("test two", command_result.get_value());
    let actual_options = command_result.get_options();
    assert_eq!(2, actual_options.len());
    assert!(actual_options.contains_key("priority"));
    assert_eq!("H and P", actual_options.get("priority").unwrap().as_str());
    assert!(actual_options.contains_key("title"));
    assert_eq!("Test again", actual_options.get("title").unwrap().as_str());
}

#[test]
fn get_option_name_from_pattern_with_p_return_priority() {
    let actual = get_option_name_from_pattern("-p=H");
    match actual {
        Some(value) => assert_eq!("priority", value),
        None => panic!("Test failed"),
    }
}

#[test]
fn get_option_name_from_pattern_with_priority_return_priority() {
    let actual = get_option_name_from_pattern("--priority=H");
    match actual {
        Some(value) => assert_eq!("priority", value),
        None => panic!("Test failed"),
    }
}

#[test]
fn get_option_name_from_pattern_with_blabla_return_none() {
    assert!(get_option_name_from_pattern("--blabla=H").is_none());
}

#[test]
fn get_option_name_from_pattern_with_long_all_return_all() {
    assert_eq!("all", get_option_name_from_pattern("--all").unwrap());
}

#[test]
fn get_option_name_from_pattern_with_long_allocator_return_none() {
    assert!(get_option_name_from_pattern("--allocator").is_none());
}

#[test]
fn get_option_name_from_pattern_with_short_all_return_all() {
    assert_eq!("all", get_option_name_from_pattern("-a").unwrap());
}

#[test]
fn get_option_name_from_pattern_with_short_allocator_return_none() {
    assert!(get_option_name_from_pattern("-allocator").is_none());
}

#[test]
fn extract_option_value_with_p_equal_h_return_h() {
    assert_eq!("H".to_string(), extract_option_value("-p=H"));
}

#[test]
fn extract_option_value_with_p_equal_hequalh_return_hequalh() {
    assert_eq!("H=H".to_string(), extract_option_value("-p=H=H"));
}

#[test]
fn extract_option_value_with_p_equal_hequalhequal_return_hequalhequal() {
    assert_eq!("H=H=".to_string(), extract_option_value("-p=H=H="));
}

#[test]
fn extract_option_value_with_p_equal_return_empty() {
    assert_eq!("".to_string(), extract_option_value("-p="));
}

#[test]
fn extract_option_value_with_p_return_empty() {
    assert_eq!("".to_string(), extract_option_value("-p"));
}
