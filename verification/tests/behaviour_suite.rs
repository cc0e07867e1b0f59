use std::sync::{Arc, Mutex};

use cmdkit::name_map::NameMap;
use cmdkit::text::{join_texts, text_less};
use cmdkit::{
    Argument, CMDKit, CMDKitError, Command, Dispatch, Strategy, StrategyError, StrategyErrorKind,
    SubcommandRouter, Switch, argument, cli_expansion, command, switch, to_pascal, CliCallForm,
    CliReceiver,
};

type Handler = Box<dyn Fn(Vec<Switch>, Vec<Argument>, Vec<String>) -> Result<(), StrategyError>>;
type CallLog = Arc<Mutex<Vec<(Vec<Switch>, Vec<Argument>, Vec<String>)>>>;

fn recorder(calls: CallLog) -> Strategy<Handler> {
    Strategy::Handler(Box::new(move |options, arguments, params| {
        calls.lock().expect("call log lock poisoned").push((options, arguments, params));
        Ok(())
    }))
}

fn tagged(tags: Arc<Mutex<Vec<String>>>, tag: &str) -> Strategy<Handler> {
    let tag = tag.to_string();
    Strategy::Handler(Box::new(move |_, _, _| {
        tags.lock().expect("tag log lock poisoned").push(tag.clone());
        Ok(())
    }))
}

fn ok_handler() -> Strategy<Handler> {
    Strategy::Handler(Box::new(|_, _, _| Ok(())))
}

fn strings(tokens: &[&str]) -> Vec<String> {
    tokens.iter().map(|t| t.to_string()).collect()
}

fn run(core: &CMDKit<Handler>, tokens: &[&str]) -> Result<(), CMDKitError> {
    match core.try_run_from_args(&strings(tokens)) {
        Dispatch::Help(_) => Ok(()),
        Dispatch::Run { command, call } => {
            let outcome = (call.handler)(call.switches, call.args, call.params);
            CMDKit::<Handler>::complete(command, outcome)
        }
        Dispatch::Fail(error) => Err(error),
    }
}

fn registration_message(result: Result<cmdkit::CMDKitBuilder<Handler>, CMDKitError>) -> String {
    match result {
        Err(CMDKitError::Registration { message }) => message,
        Err(other) => panic!("expected a registration error, got {}", other.to_string()),
        Ok(_) => panic!("expected a registration error"),
    }
}

fn invalid_arguments_message(result: Result<(), CMDKitError>) -> (String, String) {
    match result {
        Err(CMDKitError::StrategyExecution { command, source }) => {
            assert_eq!(source.kind, StrategyErrorKind::InvalidArguments);
            (command, source.message)
        }
        _ => panic!("expected an invalid-arguments strategy error"),
    }
}

fn path_command(calls: CallLog) -> Command<Handler> {
    command("copy", "copy files")
        .handler(recorder(calls))
        .with_options(vec![switch("force", "overwrite")])
        .with_arguments(vec![argument("path", "target path").with_aliases(vec!["p".to_string()])])
        .build()
}

#[test]
fn inline_and_separate_argument_values_agree() {
    let inline_calls: CallLog = Arc::new(Mutex::new(Vec::new()));
    let separate_calls: CallLog = Arc::new(Mutex::new(Vec::new()));
    let inline_core = CMDKit::builder().register(path_command(Arc::clone(&inline_calls))).build();
    let separate_core =
        CMDKit::builder().register(path_command(Arc::clone(&separate_calls))).build();

    assert!(run(&inline_core, &["app", "copy", "--path=out/dir", "extra"]).is_ok());
    assert!(run(&separate_core, &["app", "copy", "--path", "out/dir", "extra"]).is_ok());

    let inline = inline_calls.lock().unwrap();
    let separate = separate_calls.lock().unwrap();
    assert_eq!(inline[0].1, separate[0].1);
    assert_eq!(inline[0].1[0].name, "path");
    assert_eq!(inline[0].1[0].value.as_deref(), Some("out/dir"));
    assert_eq!(inline[0].2, vec!["extra".to_string()]);
    assert_eq!(separate[0].2, vec!["extra".to_string()]);
}

#[test]
fn inline_value_keeps_text_after_first_equals_sign() {
    let calls: CallLog = Arc::new(Mutex::new(Vec::new()));
    let core = CMDKit::builder().register(path_command(Arc::clone(&calls))).build();

    assert!(run(&core, &["app", "copy", "--p=a=b"]).is_ok());

    let guard = calls.lock().unwrap();
    assert_eq!(guard[0].1.len(), 1);
    assert_eq!(guard[0].1[0].name, "path");
    assert_eq!(guard[0].1[0].value.as_deref(), Some("a=b"));
}

#[test]
fn repeated_argument_is_recorded_once_with_its_last_value() {
    let calls: CallLog = Arc::new(Mutex::new(Vec::new()));
    let core = CMDKit::builder().register(path_command(Arc::clone(&calls))).build();

    assert!(run(&core, &["app", "copy", "--path", "one", "--p=two", "--path=three"]).is_ok());

    let guard = calls.lock().unwrap();
    assert_eq!(guard[0].1.len(), 1);
    assert_eq!(guard[0].1[0].value.as_deref(), Some("three"));
}

#[test]
fn switch_given_a_value_is_rejected() {
    let calls: CallLog = Arc::new(Mutex::new(Vec::new()));
    let core = CMDKit::builder().register(path_command(Arc::clone(&calls))).build();

    let (command, message) = invalid_arguments_message(run(&core, &["app", "copy", "--force=yes"]));
    assert_eq!(command, "copy");
    assert_eq!(message, "switch '--force' does not take a value");
    assert!(calls.lock().unwrap().is_empty());
}

#[test]
fn unknown_inline_flag_is_rejected() {
    let calls: CallLog = Arc::new(Mutex::new(Vec::new()));
    let core = CMDKit::builder().register(path_command(Arc::clone(&calls))).build();

    let (_, message) = invalid_arguments_message(run(&core, &["app", "copy", "--size=3"]));
    assert_eq!(message, "unknown flag '--size'");
}

#[test]
fn argument_without_following_value_is_rejected() {
    let calls: CallLog = Arc::new(Mutex::new(Vec::new()));
    let core = CMDKit::builder().register(path_command(Arc::clone(&calls))).build();

    let (_, at_end) = invalid_arguments_message(run(&core, &["app", "copy", "--path"]));
    assert_eq!(at_end, "missing value for argument '--path'");

    let (_, before_flag) =
        invalid_arguments_message(run(&core, &["app", "copy", "--path", "--force"]));
    assert_eq!(before_flag, "missing value for argument '--path'");
}

#[test]
fn argument_value_may_not_be_a_subcommand_name() {
    let calls: CallLog = Arc::new(Mutex::new(Vec::new()));
    let root = command("tool", "tool root")
        .handler(ok_handler())
        .with_arguments(vec![argument("mode", "mode")])
        .subcommand(command("sync", "sync things").handler(recorder(Arc::clone(&calls))).build())
        .build();
    let core = CMDKit::builder().register(root).build();

    let (command, message) =
        invalid_arguments_message(run(&core, &["app", "tool", "--mode", "sync"]));
    assert_eq!(command, "tool");
    assert_eq!(message, "missing value for argument '--mode'");
    assert!(calls.lock().unwrap().is_empty());
}

#[test]
fn unconfigured_command_reports_internal_error() {
    let core = CMDKit::builder()
        .register(Command::new("idle", "nothing to do", Strategy::<Handler>::Unconfigured))
        .build();

    match run(&core, &["app", "idle"]) {
        Err(CMDKitError::StrategyExecution { command, source }) => {
            assert_eq!(command, "idle");
            assert_eq!(source.kind, StrategyErrorKind::Internal);
            assert_eq!(source.message, "command has no handler; configure a handler or subcommand");
        }
        _ => panic!("expected an internal strategy error"),
    }
}

#[test]
fn router_reports_missing_and_unknown_subcommands_with_available_names() {
    let root = Command::new(
        "db",
        "database",
        Strategy::Router(
            SubcommandRouter::new()
                .register(Command::new("migrate", "migrate", ok_handler()))
                .register(Command::new("backup", "backup", ok_handler())),
        ),
    );
    let core = CMDKit::builder().register(root).build();

    let (_, missing) = invalid_arguments_message(run(&core, &["app", "db"]));
    assert_eq!(missing, "missing subcommand. available: backup, migrate");

    let (_, unknown) = invalid_arguments_message(run(&core, &["app", "db", "drop"]));
    assert_eq!(unknown, "unknown subcommand 'drop'. available: backup, migrate");
}

#[test]
fn registration_rejects_command_name_that_is_an_alias() {
    let builder = CMDKit::builder()
        .register(command("build", "build").handler(ok_handler()).with_aliases(vec!["b".to_string()]).build());
    let message = registration_message(builder.try_register(Command::new("b", "b", ok_handler())));
    assert_eq!(message, "command name 'b' conflicts with existing alias owned by 'build'");
}

#[test]
fn registration_rejects_alias_equal_to_own_name() {
    let message = registration_message(CMDKit::builder().try_register(
        command("x", "x").handler(ok_handler()).with_aliases(vec!["x".to_string()]).build(),
    ));
    assert_eq!(message, "alias 'x' duplicates command name 'x'");
}

#[test]
fn registration_rejects_repeated_alias() {
    let message = registration_message(CMDKit::builder().try_register(
        command("x", "x")
            .handler(ok_handler())
            .with_aliases(vec!["a".to_string(), "a".to_string()])
            .build(),
    ));
    assert_eq!(message, "alias 'a' is declared more than once for command 'x'");
}

#[test]
fn registration_rejects_alias_equal_to_other_command_name() {
    let builder = CMDKit::builder().register(Command::new("run", "run", ok_handler()));
    let message = registration_message(builder.try_register(
        command("go", "go").handler(ok_handler()).with_aliases(vec!["run".to_string()]).build(),
    ));
    assert_eq!(message, "alias 'run' conflicts with existing command name 'run'");
}

#[test]
fn registration_rejects_alias_owned_by_other_command() {
    let builder = CMDKit::builder()
        .register(command("build", "build").handler(ok_handler()).with_aliases(vec!["b".to_string()]).build());
    let message = registration_message(builder.try_register(
        command("bench", "bench").handler(ok_handler()).with_aliases(vec!["b".to_string()]).build(),
    ));
    assert_eq!(message, "alias 'b' conflicts with existing alias owned by 'build'");
    assert_eq!(
        CMDKitError::Registration { message }.to_string(),
        "Command registration failed: alias 'b' conflicts with existing alias owned by 'build'"
    );
}

#[test]
fn bulk_registration_stops_at_first_collision() {
    let result = CMDKit::builder().try_with_commands(vec![
        Command::new("a", "a", ok_handler()),
        command("b", "b").handler(ok_handler()).with_aliases(vec!["a".to_string()]).build(),
        Command::new("c", "c", ok_handler()),
    ]);
    let message = registration_message(result);
    assert_eq!(message, "alias 'a' conflicts with existing command name 'a'");
}

#[test]
fn replacing_a_command_forgets_its_old_aliases() {
    let core = CMDKit::builder()
        .register(command("build", "first").handler(ok_handler()).with_aliases(vec!["b".to_string()]).build())
        .register(command("build", "second").handler(ok_handler()).with_aliases(vec!["c".to_string()]).build())
        .build();

    assert!(core.get("b").is_none());
    assert_eq!(core.get("c").expect("new alias finds the command").metadata.description, "second");
    assert_eq!(core.get("build").expect("name finds the command").metadata.description, "second");
    assert_eq!(core.get_all().len(), 1);
}

#[test]
fn registering_keeps_other_commands_and_lists_them_in_name_order() {
    let core = CMDKit::builder()
        .with_commands(vec![
            Command::new("zeta", "z", ok_handler()),
            Command::new("alpha", "a", ok_handler()),
            Command::new("mid", "m", ok_handler()),
        ])
        .build();

    let names: Vec<String> = core.get_all().iter().map(|c| c.metadata.name.clone()).collect();
    assert_eq!(names, vec!["alpha".to_string(), "mid".to_string(), "zeta".to_string()]);
    assert_eq!(core.get("zeta").unwrap().metadata.description, "z");
}

#[test]
fn running_by_alias_runs_the_command_get_finds() {
    let tags = Arc::new(Mutex::new(Vec::new()));
    let core = CMDKit::builder()
        .register(
            command("build", "build")
                .handler(tagged(Arc::clone(&tags), "build"))
                .with_aliases(vec!["b".to_string(), "make".to_string()])
                .build(),
        )
        .register(Command::new("a", "a", tagged(Arc::clone(&tags), "a")))
        .build();

    assert_eq!(core.get("make").unwrap().metadata.name, "build");
    assert!(run(&core, &["app", "make"]).is_ok());
    assert!(run(&core, &["app", "b"]).is_ok());
    assert!(run(&core, &["app", "a"]).is_ok());
    assert_eq!(
        *tags.lock().unwrap(),
        vec!["build".to_string(), "build".to_string(), "a".to_string()]
    );
}

#[test]
fn help_text_is_rendered_exactly() {
    let core = CMDKit::builder()
        .register(
            command("echo", "Echo values")
                .handler(ok_handler())
                .with_aliases(vec!["e".to_string()])
                .with_options(vec![switch("loud", "Louder")])
                .with_arguments(vec![argument("times", "Repeat count").set_required()])
                .build(),
        )
        .build();

    let expected = "Usage: app <command> [args...]\n    Registered commands are listed below.\n\n    supported commands:\n            - help : Display help information\n        - echo: Echo values\n      aliases: e\n      switches:\n        - --loud: Louder\n      arguments:\n        - --times [required]: Repeat count\n\n        ";
    assert_eq!(core.render_help(&"app".to_string()), expected);
    match core.try_run_from_args(&strings(&["app", "help"])) {
        Dispatch::Help(text) => assert_eq!(text, expected),
        _ => panic!("expected help"),
    }
}

#[test]
fn help_request_and_binary_name_come_from_the_first_tokens() {
    assert!(CMDKit::<Handler>::is_help_request(&strings(&["app", "help"])));
    assert!(!CMDKit::<Handler>::is_help_request(&strings(&["app", "run", "help"])));
    assert!(!CMDKit::<Handler>::is_help_request(&strings(&["help"])));
    assert_eq!(CMDKit::<Handler>::binary_name(&strings(&["tool", "x"])), "tool");
    assert_eq!(CMDKit::<Handler>::binary_name(&Vec::new()), "cli");
    assert_eq!(CMDKit::<Handler>::command_tokens(&strings(&["tool", "x", "y"])), strings(&["x", "y"]));
    assert!(CMDKit::<Handler>::command_tokens(&Vec::new()).is_empty());
}

#[test]
fn missing_command_error_text_includes_help() {
    let core = CMDKit::<Handler>::builder().build();
    match run(&core, &[]) {
        Err(error) => {
            let text = error.to_string();
            assert!(text.starts_with("No command provided.\n\nUsage: cli <command> [args...]"));
            assert!(error.source().is_none());
        }
        Ok(()) => panic!("expected a missing command error"),
    }
}

#[test]
fn pascal_case_capitalises_each_underscore_separated_part() {
    assert_eq!(to_pascal(&"my_cmd".to_string()), "MyCmd");
    assert_eq!(to_pascal(&"__a_b".to_string()), "AB");
    assert_eq!(to_pascal(&"build".to_string()), "Build");
    assert_eq!(to_pascal(&"".to_string()), "");
    assert_eq!(to_pascal(&"x2_y".to_string()), "X2Y");
}

#[test]
fn cli_expansion_checks_attribute_signature_and_async_in_order() {
    let none: Vec<String> = Vec::new();
    let execute_args = vec!["Vec<String>".to_string()];
    match cli_expansion(false, CliReceiver::NoReceiver, &none, true, &"f".to_string()) {
        Err(message) => assert_eq!(message, "#[cli] does not take arguments"),
        Ok(_) => panic!("expected an error"),
    }
    match cli_expansion(true, CliReceiver::NoReceiver, &execute_args, false, &"f".to_string()) {
        Err(message) => assert_eq!(message, "cli strategy functions must not take arguments"),
        Ok(_) => panic!("expected an error"),
    }
    match cli_expansion(true, CliReceiver::SharedSelf, &none, false, &"f".to_string()) {
        Err(message) => assert_eq!(message, "cli strategy functions must not take arguments"),
        Ok(_) => panic!("expected an error"),
    }
    match cli_expansion(true, CliReceiver::OtherSelf, &execute_args, false, &"f".to_string()) {
        Err(message) => assert_eq!(message, "cli strategy functions must not take arguments"),
        Ok(_) => panic!("expected an error"),
    }
    match cli_expansion(
        true,
        CliReceiver::SharedSelf,
        &vec!["Vec<u8>".to_string()],
        false,
        &"f".to_string(),
    ) {
        Err(message) => assert_eq!(message, "cli strategy functions must not take arguments"),
        Ok(_) => panic!("expected an error"),
    }
    match cli_expansion(true, CliReceiver::NoReceiver, &none, true, &"f".to_string()) {
        Err(message) => assert_eq!(message, "async functions are not supported"),
        Ok(_) => panic!("expected an error"),
    }
    match cli_expansion(true, CliReceiver::NoReceiver, &none, false, &"deploy_site".to_string()) {
        Ok(names) => {
            assert_eq!(names.strategy_type, "DeploySite");
            assert_eq!(names.factory_fn, "deploy_site_strategy");
            assert_eq!(names.call_form, CliCallForm::NoArguments);
        }
        Err(message) => panic!("unexpected error {message}"),
    }
}

#[test]
fn name_map_keeps_keys_ordered_and_replaces_values() {
    let mut map: NameMap<u32> = NameMap::new();
    map.insert("b".to_string(), 2);
    map.insert("a".to_string(), 1);
    map.insert("c".to_string(), 3);
    map.insert("b".to_string(), 20);

    assert_eq!(map.len(), 3);
    assert_eq!(map.keys(), strings(&["a", "b", "c"]));
    assert_eq!(map.get(&"b".to_string()), Some(&20));
    assert_eq!(map.remove(&"a".to_string()), Some(1));
    assert_eq!(map.remove(&"a".to_string()), None);
    assert!(!map.contains_key(&"a".to_string()));
    assert_eq!(map.into_values(), vec![20, 3]);
}

#[test]
fn text_order_and_joining() {
    assert!(text_less(&"ab".to_string(), &"b".to_string()));
    assert!(text_less(&"a".to_string(), &"ab".to_string()));
    assert!(!text_less(&"b".to_string(), &"b".to_string()));
    assert_eq!(join_texts(&strings(&["x", "y", "z"]), ", "), "x, y, z");
    assert_eq!(join_texts(&Vec::new(), ", "), "");
}

#[test]
fn worker_pool_takes_zero_as_one_and_builders_refuse_zero() {
    assert_eq!(cmdkit::worker_threads(0), 1);
    assert_eq!(cmdkit::worker_threads(4), 4);
    match cmdkit::check_worker_count(0) {
        Err(CMDKitError::ExecutorUnavailable { message }) => {
            assert_eq!(message, "worker_count must be greater than 0")
        }
        _ => panic!("expected an executor error"),
    }
    assert_eq!(cmdkit::check_worker_count(3).ok(), Some(3));
}

#[test]
fn pascal_case_of_the_strategy_function_name() {
    assert_eq!(to_pascal(&"simple_cli_strategy".to_string()), "SimpleCliStrategy");
}
