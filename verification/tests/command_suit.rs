use std::sync::{Arc, Mutex};

use cmdkit::{
    Argument, CMDKit, CMDKitError, Dispatch, Strategy, StrategyError, Switch, argument, command,
    switch,
};

type Handler = Box<dyn Fn(Vec<Switch>, Vec<Argument>, Vec<String>) -> Result<(), StrategyError>>;
type Capture = Arc<Mutex<Vec<Vec<String>>>>;

fn try_run(core: &CMDKit<Handler>, args: &[String]) -> Result<(), CMDKitError> {
    let args = args.to_vec();
    match core.try_run_from_args(&args) {
        Dispatch::Help(text) => {
            println!("{}", text);
            Ok(())
        }
        Dispatch::Run { command, call } => {
            let outcome = (call.handler)(call.switches, call.args, call.params);
            CMDKit::<Handler>::complete(command, outcome)
        }
        Dispatch::Fail(error) => Err(error),
    }
}

fn format_switches(switches: &[String]) -> String {
    switches.to_vec().join(",")
}

fn format_arguments(arguments: &[Argument]) -> String {
    arguments
        .iter()
        .map(|argument| match &argument.value {
            Some(value) => format!("{}={value}", argument.name),
            None => argument.name.to_string(),
        })
        .collect::<Vec<String>>()
        .join(",")
}

fn capturing(captured: Capture) -> Strategy<Handler> {
    Strategy::Handler(Box::new(move |options: Vec<Switch>, arguments, params| {
        let names = options.iter().map(|s| s.name.clone()).collect::<Vec<String>>();
        let mut guard = captured.lock().expect("capture lock should not be poisoned");
        guard.push(vec![
            format!("options={}", format_switches(&names)),
            format!("arguments={}", format_arguments(&arguments)),
            format!("params={params:?}"),
        ]);
        Ok(())
    }))
}

#[test]
fn strategy_chain_handles_subtask_tokens() {
    let captured: Capture = Arc::new(Mutex::new(Vec::new()));
    let core = CMDKit::builder()
        .register(
            command("parent", "Parent command")
                .handler(capturing(Arc::clone(&captured)))
                .with_options(vec![switch("opt", "option")])
                .with_arguments(vec![argument("flag", "flag")])
                .build(),
        )
        .build();

    let args = vec![
        "app".to_string(),
        "parent".to_string(),
        "--opt".to_string(),
        "--flag".to_string(),
        "value".to_string(),
    ];
    assert!(try_run(&core, &args).is_ok());

    let guard = captured.lock().expect("capture lock should not be poisoned");
    assert_eq!(guard.len(), 1);
    assert!(guard[0][0].contains("options=opt"));
    assert!(guard[0][1].contains("flag=value"));
    assert!(guard[0][2].contains("[]"));
}

#[test]
fn command_builder_registers_leaf_command_without_exposing_strategy_types() {
    let captured: Capture = Arc::new(Mutex::new(Vec::new()));

    let core = CMDKit::builder()
        .register(
            command("echo", "Echo command")
                .handler(capturing(Arc::clone(&captured)))
                .with_arguments(vec![argument("message", "message")])
                .build(),
        )
        .build();

    let args = vec![
        "app".to_string(),
        "echo".to_string(),
        "--message".to_string(),
        "hello".to_string(),
    ];

    assert!(try_run(&core, &args).is_ok());
    let guard = captured.lock().expect("capture lock should not be poisoned");
    assert!(guard[0][0].contains("options="));
    assert!(guard[0][1].contains("message=hello"));
    assert!(guard[0][2].contains("[]"));
}

#[test]
fn command_builder_registers_recursive_subcommands_without_router_exposure() {
    let captured: Capture = Arc::new(Mutex::new(Vec::new()));

    let core = CMDKit::builder()
        .register(
            command("tool", "tool root")
                .subcommand(
                    command("run", "run tasks")
                        .subcommand(
                            command("one", "run one task")
                                .handler(capturing(Arc::clone(&captured)))
                                .with_arguments(vec![argument("value", "value")])
                                .build(),
                        )
                        .build(),
                )
                .build(),
        )
        .build();

    let args = vec![
        "app".to_string(),
        "tool".to_string(),
        "run".to_string(),
        "one".to_string(),
        "--value".to_string(),
        "alpha".to_string(),
    ];

    assert!(try_run(&core, &args).is_ok());
    let guard = captured.lock().expect("capture lock should not be poisoned");
    assert!(guard[0][0].contains("options="));
    assert!(guard[0][1].contains("value=alpha"));
    assert!(guard[0][2].contains("[]"));
}
