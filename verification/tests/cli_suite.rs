use std::sync::{Arc, Mutex};

use cmdkit::{
    Argument, CMDKit, CMDKitError, Command, Dispatch, InvocationArgs, PlainTextArgumentInterpreter,
    PlainTextHelpRenderer, Strategy, StrategyError, StrategyErrorKind, SubcommandRouter, Switch,
    argument, cli_expansion, command, CliCallForm, CliReceiver,
};

type Handler = Box<dyn Fn(Vec<Switch>, Vec<Argument>, Vec<String>) -> Result<(), StrategyError>>;
type ParamLog = Arc<Mutex<Vec<Vec<String>>>>;

fn ok_handler() -> Strategy<Handler> {
    Strategy::Handler(Box::new(|_, _, _| Ok(())))
}

fn params_recorder(calls: ParamLog) -> Strategy<Handler> {
    Strategy::Handler(Box::new(move |_, _, params| {
        calls.lock().expect("calls lock should not be poisoned").push(params);
        Ok(())
    }))
}

fn invocation(params: Vec<String>) -> InvocationArgs {
    InvocationArgs {
        name: "run".to_string(),
        args: Vec::new(),
        switches: Vec::new(),
        params,
        order: Vec::new(),
        subcommand: None,
    }
}

fn run_call(command: &Command<Handler>, invocation: InvocationArgs) -> Result<(), StrategyError> {
    let call = command.route(invocation)?;
    (call.handler)(call.switches, call.args, call.params)
}

fn finish(dispatch: Dispatch<'_, Handler>) -> Result<(), CMDKitError> {
    match dispatch {
        Dispatch::Help(text) => {
            println!("{}", text);
            Ok(())
        }
        Dispatch::Run { command, call } => {
            let outcome = (call.handler)(call.switches, call.args, call.params);
            CMDKit::<Handler>::complete(command, outcome)
        }
        Dispatch::Fail(error) => Err(error),
    }
}

#[test]
fn strategy_error_kind_display_labels_are_stable() {
    assert_eq!(StrategyErrorKind::InvalidArguments.to_string(), "invalid-arguments");
    assert_eq!(StrategyErrorKind::Execution.to_string(), "execution");
    assert_eq!(StrategyErrorKind::Internal.to_string(), "internal");
}

#[test]
fn strategy_error_constructors_set_kind_and_message() {
    let invalid = StrategyError::invalid_arguments("bad input");
    assert_eq!(invalid.kind, StrategyErrorKind::InvalidArguments);
    assert_eq!(invalid.message, "bad input");

    let execution = StrategyError::execution("failed");
    assert_eq!(execution.kind, StrategyErrorKind::Execution);
    assert_eq!(execution.message, "failed");

    let internal = StrategyError::internal("boom");
    assert_eq!(internal.kind, StrategyErrorKind::Internal);
    assert_eq!(internal.message, "boom");
}

#[test]
fn strategy_error_display_formats_kind_and_message() {
    let err = StrategyError::new(StrategyErrorKind::Execution, "could not run");
    assert_eq!(err.to_string(), "execution: could not run");
}

#[test]
fn cmdkit_error_display_and_source_are_structured() {
    let missing = CMDKitError::MissingCommand { help: "help text".to_string() };
    assert!(missing.to_string().contains("No command provided"));
    assert!(missing.source().is_none());

    let unknown = CMDKitError::UnknownCommand {
        command: "ghost".to_string(),
        help: "help text".to_string(),
    };
    assert!(unknown.to_string().contains("Unknown command: ghost"));
    assert!(unknown.source().is_none());

    let strategy = StrategyError::execution("failed to execute");
    let strategy_execution = CMDKitError::StrategyExecution {
        command: "run".to_string(),
        source: strategy,
    };
    assert!(
        strategy_execution
            .to_string()
            .contains("Strategy execution failed for 'run': execution: failed to execute")
    );
    assert!(strategy_execution.source().is_some());
}

#[test]
fn cli_attribute_generated_type_uses_upper_camel_name() {
    let names = cli_expansion(
        true,
        CliReceiver::SharedSelf,
        &vec!["Vec<String>".to_string()],
        false,
        &"simple_cli_strategy".to_string(),
    )
    .expect("an execute-shaped function is accepted");
    assert_eq!(names.strategy_type, "SimpleCliStrategy");
    assert_eq!(names.factory_fn, "simple_cli_strategy_strategy");
}

#[test]
fn cli_attribute_generates_execute_shaped_strategy_wrapper() {
    // `fn simple_cli_strategy(&self, _args: Vec<String>) -> Result<(), StrategyError>`
    let names = cli_expansion(
        true,
        CliReceiver::SharedSelf,
        &vec!["Vec<String>".to_string()],
        false,
        &"simple_cli_strategy".to_string(),
    )
    .expect("an execute-shaped function is accepted");
    assert_eq!(names.strategy_type, "SimpleCliStrategy");
    assert_eq!(names.call_form, CliCallForm::ExecuteShaped);

    // The generated strategy runs the function's body, which returns Ok(()).
    let strategy: Strategy<Handler> = Strategy::Handler(Box::new(|_, _, _| Ok(())));
    let core = CMDKit::builder()
        .register(Command::new("simple", "simple cli strategy", strategy))
        .build();
    let args = vec!["app".to_string(), "simple".to_string(), "extra".to_string()];
    assert!(finish(core.try_run_from_args(&args)).is_ok());
}

#[test]
fn router_errors_when_subcommand_token_is_missing() {
    let router = SubcommandRouter::new()
        .register(command("run", "run command").handler(ok_handler()).build());
    let root: Command<Handler> = Command::new("root", "root", Strategy::Router(router));

    let result = run_call(&root, invocation(Vec::new()));
    match result {
        Err(err) => {
            assert_eq!(err.kind, StrategyErrorKind::InvalidArguments);
            assert!(err.message.contains("missing subcommand"));
            assert!(err.message.contains("run"));
        }
        _ => panic!("expected missing subcommand error"),
    }
}

#[test]
fn router_errors_when_subcommand_is_unknown() {
    let router = SubcommandRouter::new()
        .register(command("run", "run command").handler(ok_handler()).build());
    let root: Command<Handler> = Command::new("root", "root", Strategy::Router(router));

    let result = run_call(&root, invocation(vec!["ghost".to_string()]));
    match result {
        Err(err) => {
            assert_eq!(err.kind, StrategyErrorKind::InvalidArguments);
            assert!(err.message.contains("unknown subcommand 'ghost'"));
            assert!(err.message.contains("run"));
        }
        _ => panic!("expected unknown subcommand error"),
    }
}

#[test]
fn router_resolves_alias_and_forwards_tail_params() {
    let calls: ParamLog = Arc::new(Mutex::new(Vec::new()));

    let subcommand = command("run", "run command")
        .with_aliases(vec!["r".to_string()])
        .handler(params_recorder(Arc::clone(&calls)))
        .build();

    let router = SubcommandRouter::new().register(subcommand);
    let root: Command<Handler> = Command::new("root", "root", Strategy::Router(router));
    let result = run_call(
        &root,
        invocation(vec!["r".to_string(), "tail-1".to_string(), "tail-2".to_string()]),
    );

    assert!(result.is_ok());
    let guard = calls.lock().expect("calls lock should not be poisoned");
    assert_eq!(guard.as_slice(), &[vec!["tail-1".to_string(), "tail-2".to_string()]]);
}

#[test]
fn fallback_executes_primary_strategy_when_no_params_are_provided() {
    let fallback_calls: ParamLog = Arc::new(Mutex::new(Vec::new()));
    let child_calls: ParamLog = Arc::new(Mutex::new(Vec::new()));

    let router = SubcommandRouter::new().register(
        command("run", "run command").handler(params_recorder(Arc::clone(&child_calls))).build(),
    );
    let fallback: Command<Handler> = Command::new(
        "root",
        "root",
        Strategy::Fallback(Box::new(params_recorder(Arc::clone(&fallback_calls))), router),
    );

    let result = run_call(&fallback, invocation(Vec::new()));

    assert!(result.is_ok());
    assert_eq!(
        fallback_calls.lock().expect("fallback lock should not be poisoned").as_slice(),
        &[Vec::<String>::new()]
    );
    assert!(child_calls.lock().expect("child lock should not be poisoned").is_empty());
}

#[test]
fn fallback_routes_to_router_when_params_exist() {
    let fallback_calls: ParamLog = Arc::new(Mutex::new(Vec::new()));
    let child_calls: ParamLog = Arc::new(Mutex::new(Vec::new()));

    let router = SubcommandRouter::new().register(
        command("run", "run command").handler(params_recorder(Arc::clone(&child_calls))).build(),
    );
    let fallback: Command<Handler> = Command::new(
        "root",
        "root",
        Strategy::Fallback(Box::new(params_recorder(Arc::clone(&fallback_calls))), router),
    );

    let result = run_call(&fallback, invocation(vec!["run".to_string(), "tail".to_string()]));

    assert!(result.is_ok());
    assert!(fallback_calls.lock().expect("fallback lock should not be poisoned").is_empty());
    assert_eq!(
        child_calls.lock().expect("child lock should not be poisoned").as_slice(),
        &[vec!["tail".to_string()]]
    );
}

#[test]
fn fallback_catalog_merges_router_and_fallback_without_duplicate_names() {
    let router = SubcommandRouter::new()
        .register(command("shared", "router shared").handler(ok_handler()).build())
        .register(command("router-only", "router only").handler(ok_handler()).build());

    let primary = SubcommandRouter::new()
        .register(command("shared", "fallback shared").handler(ok_handler()).build())
        .register(command("fallback-only", "fallback only").handler(ok_handler()).build());

    let fallback: Command<Handler> = Command::new(
        "root",
        "root",
        Strategy::Fallback(Box::new(Strategy::Router(primary)), router),
    );
    let catalog = fallback.subcommand_catalog().expect("a fallback exposes a catalog");
    let mut names = catalog.iter().map(|cmd| cmd.metadata.name.clone()).collect::<Vec<String>>();
    names.sort();

    assert_eq!(
        names,
        vec!["fallback-only".to_string(), "router-only".to_string(), "shared".to_string()]
    );
}

#[test]
fn core_config_defaults_to_plain_text_help_renderer() {
    let commands: Vec<&Command<Handler>> = Vec::new();
    let text = PlainTextHelpRenderer.render(&"app".to_string(), &commands);
    assert!(text.contains("Usage:"));
}

#[test]
fn invocation_leaf_name_returns_deepest_nested_name() {
    let invocation = InvocationArgs {
        name: "root".to_string(),
        args: Vec::new(),
        switches: Vec::new(),
        params: Vec::new(),
        order: Vec::new(),
        subcommand: Some(Box::new(InvocationArgs {
            name: "child".to_string(),
            args: Vec::new(),
            switches: Vec::new(),
            params: Vec::new(),
            order: Vec::new(),
            subcommand: Some(Box::new(InvocationArgs {
                name: "leaf".to_string(),
                args: Vec::new(),
                switches: Vec::new(),
                params: Vec::new(),
                order: Vec::new(),
                subcommand: None,
            })),
        })),
    };

    assert_eq!(invocation.leaf_name(), "leaf");
}

#[test]
fn builder_argument_interpreter_can_drive_with_commands_registration() {
    let calls: Arc<Mutex<Vec<String>>> = Arc::new(Mutex::new(Vec::new()));
    let calls_for_handler = Arc::clone(&calls);

    let cmd = command("echo", "echo command")
        .handler(Strategy::Handler(Box::new(move |_, arguments: Vec<Argument>, _| {
            let value = arguments
                .iter()
                .find(|arg| arg.name == "path")
                .expect("Couldn't find Argument with name : path")
                .value
                .clone()
                .expect("the argument has a value");
            calls_for_handler.lock().expect("calls lock should not be poisoned").push(value);
            Ok(())
        }) as Handler))
        .with_arguments(vec![argument("path", "path arg")])
        .build();

    let core = CMDKit::builder().with_commands(vec![cmd]).build();

    // An interpreter that always selects `echo` with `--path from-fixed`.
    let fixed = InvocationArgs {
        name: "echo".to_string(),
        args: vec![argument("path", "path arg").set_value("from-fixed".to_string())],
        switches: Vec::new(),
        params: Vec::new(),
        order: Vec::new(),
        subcommand: None,
    };
    let help = core.render_help(&"app".to_string());
    assert!(finish(core.dispatch_interpreted(Ok(fixed), help)).is_ok());

    let guard = calls.lock().expect("calls lock should not be poisoned");
    assert_eq!(guard.as_slice(), ["from-fixed"]);
}

#[test]
fn builder_with_config_uses_custom_renderer_for_missing_command_help() {
    let core = CMDKit::<Handler>::builder().build();
    let args = vec!["custom".to_string()];

    let tokens = CMDKit::<Handler>::command_tokens(&args);
    let registered = core.get_all();
    let interpreted = PlainTextArgumentInterpreter.interpret(&tokens, &registered);
    let help = format!("marker-help:{}", CMDKit::<Handler>::binary_name(&args));
    let result = finish(core.dispatch_interpreted(interpreted, help));

    match result {
        Err(CMDKitError::MissingCommand { help }) => {
            assert_eq!(help, "marker-help:custom");
        }
        _ => panic!("expected missing command error"),
    }
}

#[test]
fn test_register_and_get() {
    let name = "register_get_0".to_string();
    let functionality: Command<Handler> =
        Command::new(&name, "A test functionality", ok_handler());
    let expected_name = functionality.metadata.name.clone();
    let expected_description = functionality.metadata.description.clone();

    let core = CMDKit::builder().register(functionality).build();
    let retrieved = core.get(&name).expect("Functionality should be registered");
    assert_eq!(retrieved.metadata.name, expected_name);
    assert_eq!(retrieved.metadata.description, expected_description);
}

#[test]
fn test_get_all() {
    let name = "get_all_1".to_string();
    let functionality: Command<Handler> =
        Command::new(&name, "A test functionality", ok_handler());

    let core = CMDKit::builder().register(functionality).build();
    let all = core.get_all();
    assert!(all.iter().any(|f| f.metadata.name == name));
}

#[test]
fn test_non_existent() {
    let core = CMDKit::<Handler>::builder().build();
    let result = core.get("nonexistent");
    assert!(result.is_none(), "Expected None for non-existent functionality");
}

#[test]
fn test_register_duplicate_name_overwrites() {
    let name = "duplicate_2".to_string();
    let core = CMDKit::<Handler>::builder()
        .register(Command::new(&name, "original", ok_handler()))
        .register(Command::new(&name, "updated", ok_handler()))
        .build();

    let retrieved = core.get(&name).expect("Functionality should be registered");
    assert_eq!(retrieved.metadata.description, "updated");
}

#[test]
fn test_instances_are_isolated() {
    let core_b = CMDKit::<Handler>::builder().build();
    let name = "isolated_3".to_string();

    let core_a = CMDKit::<Handler>::builder()
        .register(Command::new(&name, "in a", ok_handler()))
        .build();

    assert!(core_a.get(&name).is_some());
    assert!(core_b.get(&name).is_none());
}
