use luth_lang::cli::CliCommand;
use luth_lang::cli::init_cli;

#[test]
fn run_command_names_the_file() {
    let args = vec!["luth".to_string(), "run".to_string(), "script.luth".to_string()];
    let cmd = init_cli(&args).unwrap();
    let CliCommand::Run { file_execute } = cmd;
    assert_eq!(file_execute, "script.luth");
}

#[test]
fn missing_subcommand_is_a_usage_error() {
    assert!(init_cli(&vec!["luth".to_string()]).is_err());
}

#[test]
fn unknown_subcommand_is_a_usage_error() {
    let args = vec!["luth".to_string(), "walk".to_string(), "script.luth".to_string()];
    assert!(init_cli(&args).is_err());
}

#[test]
fn extra_arguments_are_a_usage_error() {
    let args = vec![
        "luth".to_string(),
        "run".to_string(),
        "a.luth".to_string(),
        "b.luth".to_string(),
    ];
    assert!(init_cli(&args).is_err());
}
