use relay::cli::{AskArgs, CapCommand, Cli, Command, ParseFailure};

#[test]
fn parses_documented_ask_command() {
    let cli = Cli::try_parse_from(&["relay", "ask", "explain this", "--model", "think"]);
    assert!(cli.is_ok());
}

#[test]
fn model_and_think_are_mutually_exclusive() {
    let cli = Cli::try_parse_from(&["relay", "ask", "test", "--model", "default", "--think"]);
    assert!(cli.is_err());
}

#[test]
fn ask_arguments_are_read_with_defaults() {
    let cli = Cli::try_parse_from(&["relay", "ask", "explain this", "--model", "think"]).unwrap();
    assert_eq!(
        cli.command,
        Command::Ask(AskArgs {
            prompt: "explain this".to_string(),
            model: Some("think".to_string()),
            think: false,
            max_output_tokens: 1024,
            stream: false,
        })
    );
}

#[test]
fn options_take_inline_values_in_any_order() {
    let cli = Cli::try_parse_from(&["relay", "ask", "--max-output-tokens=+64", "--think", "--stream", "hi"]).unwrap();
    assert_eq!(
        cli.command,
        Command::Ask(AskArgs {
            prompt: "hi".to_string(),
            model: None,
            think: true,
            max_output_tokens: 64,
            stream: true,
        })
    );
}

#[test]
fn conflict_is_reported_as_such() {
    let cli = Cli::try_parse_from(&["relay", "ask", "test", "--model", "default", "--think"]);
    assert_eq!(
        cli,
        Err(ParseFailure::Conflict { first: "--think".to_string(), second: "--model".to_string() })
    );
}

#[test]
fn missing_prompt_and_bad_count_are_refused() {
    assert_eq!(
        Cli::try_parse_from(&["relay", "ask"]),
        Err(ParseFailure::MissingArgument("<PROMPT>".to_string()))
    );
    assert_eq!(
        Cli::try_parse_from(&["relay", "ask", "x", "--max-output-tokens", "4294967296"]),
        Err(ParseFailure::InvalidValue { arg: "--max-output-tokens".to_string(), value: "4294967296".to_string() })
    );
    let max = Cli::try_parse_from(&["relay", "ask", "x", "--max-output-tokens", "4294967295"]).unwrap();
    assert!(matches!(max.command, Command::Ask(AskArgs { max_output_tokens: 4294967295, .. })));
    assert_eq!(
        Cli::try_parse_from(&["relay", "ask", "x", "--model"]),
        Err(ParseFailure::MissingValue("--model".to_string()))
    );
    assert_eq!(
        Cli::try_parse_from(&["relay", "ask", "x", "--model", "a", "--model", "b"]),
        Err(ParseFailure::Repeated("--model".to_string()))
    );
    assert_eq!(
        Cli::try_parse_from(&["relay", "ask", "x", "--think=yes"]),
        Err(ParseFailure::UnexpectedValue("--think".to_string()))
    );
}

#[test]
fn double_dash_ends_options() {
    let cli = Cli::try_parse_from(&["relay", "ask", "--", "--think"]).unwrap();
    assert!(matches!(cli.command, Command::Ask(AskArgs { ref prompt, think: false, .. }) if prompt == "--think"));
}

#[test]
fn cap_and_bare_commands_parse() {
    assert_eq!(
        Cli::try_parse_from(&["relay", "cap", "set", "--daily-usd", "5.00", "--monthly-usd=50.00"]).unwrap().command,
        Command::Cap {
            command: CapCommand::SetCaps {
                daily_usd: Some("5.00".to_string()),
                monthly_usd: Some("50.00".to_string()),
            },
        }
    );
    assert_eq!(
        Cli::try_parse_from(&["relay", "cap", "show"]).unwrap().command,
        Command::Cap { command: CapCommand::Show }
    );
    assert_eq!(Cli::try_parse_from(&["relay", "usage"]).unwrap().command, Command::Usage);
    assert_eq!(Cli::try_parse_from(&["relay", "models"]).unwrap().command, Command::Models);
    assert_eq!(
        Cli::try_parse_from(&["relay", "usage", "extra"]),
        Err(ParseFailure::UnknownArgument("extra".to_string()))
    );
    assert_eq!(Cli::try_parse_from(&["relay", "cap"]), Err(ParseFailure::MissingSubcommand));
}

#[test]
fn help_version_and_missing_subcommand() {
    assert_eq!(Cli::try_parse_from(&["relay"]), Err(ParseFailure::MissingSubcommand));
    assert_eq!(Cli::try_parse_from(&["relay", "--help"]), Err(ParseFailure::Help));
    assert_eq!(Cli::try_parse_from(&["relay", "ask", "-h"]), Err(ParseFailure::Help));
    assert_eq!(Cli::try_parse_from(&["relay", "-V"]), Err(ParseFailure::Version));
    assert_eq!(
        Cli::try_parse_from(&["relay", "deploy"]),
        Err(ParseFailure::UnknownArgument("deploy".to_string()))
    );
}

#[test]
fn streaming_is_refused_before_anything_is_sent() {
    let cli = Cli::try_parse_from(&["relay", "ask", "hi", "--stream"]).unwrap();
    match cli.command {
        Command::Ask(args) => {
            assert_eq!(args.refuse_streaming(), Err(relay::RelayError::StreamingUnsupported));
        },
        other => panic!("unexpected command: {other:?}"),
    }
    let plain = AskArgs { prompt: "x".into(), model: None, think: false, max_output_tokens: 1, stream: false };
    assert_eq!(plain.refuse_streaming(), Ok(()));
    assert_eq!(relay::request::role_name(relay::request::Role::Assistant), "assistant");
}
