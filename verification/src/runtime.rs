//! The runtime: routing a parsed invocation to the handler that runs it,
//! and the instance-owned command registry with its builder.
use vstd::prelude::*;

use crate::command::{
    Command, Strategy, SubcommandRouter, available_text, derefs, find_named, first_named,
    resolve_sub, router_lookup,
};
use crate::error::{CMDKitError, CMDKitErrorModel, StrategyError, StrategyErrorKind, StrategyErrorModel};
use crate::help::{PlainTextHelpRenderer, help_text};
use crate::invocation::{InvocationArgs, InvocationModel, leaf_name_of};
use crate::metadata::{Argument, ArgumentModel, SwitchDefinition, SwitchModel};
use crate::parser::{PlainTextArgumentInterpreter, interpret_tokens, parse_result};
use crate::registry::{
    CommandCatalogue, RegistryModel, lemma_register_keeps_wf, register_all, register_step,
    registry_commands, registry_get, registry_wf,
};
use crate::text::{copy_text, join2, join3, join4, owned, same_text};

verus! {

/// A handler chosen to run, with what it receives.
pub struct LeafCall<'a, H> {
    pub handler: &'a H,
    pub switches: Vec<SwitchDefinition>,
    pub args: Vec<Argument>,
    pub params: Vec<String>,
}

/// The value a `LeafCall` stands for.
pub struct CallModel<H> {
    pub handler: H,
    pub switches: Seq<SwitchModel>,
    pub args: Seq<ArgumentModel>,
    pub params: Seq<Seq<char>>,
}

pub open spec fn call_model<'a, H>(c: LeafCall<'a, H>) -> CallModel<H> {
    CallModel {
        handler: *c.handler,
        switches: c.switches.deep_view(),
        args: c.args.deep_view(),
        params: c.params.deep_view(),
    }
}

/// The value a routing result stands for.
pub open spec fn call_result<'a, H>(r: Result<LeafCall<'a, H>, StrategyError>) -> Result<
    CallModel<H>,
    StrategyErrorModel,
> {
    match r {
        Ok(c) => Ok(call_model(c)),
        Err(e) => Err(e@),
    }
}

/// What a strategy does with an invocation that has no subcommand parse.
pub enum Target<H> {
    Call(H),
    Route(SubcommandRouter<H>),
    Unconfigured,
}

/// A handler runs; a router routes; a fallback runs its first strategy when
/// there are no parameters and routes otherwise.
pub open spec fn strategy_target<H>(s: Strategy<H>, no_params: bool) -> Target<H>
    decreases s,
{
    match s {
        Strategy::Handler(h) => Target::Call(h),
        Strategy::Router(r) => Target::Route(r),
        Strategy::Fallback(p, r) => if no_params {
            strategy_target(*p, no_params)
        } else {
            Target::Route(r)
        },
        Strategy::Unconfigured => Target::Unconfigured,
    }
}

/// A measure that routing decreases.
pub open spec fn invocation_size(m: InvocationModel) -> nat
    decreases m,
{
    1 + m.params.len() + match m.subcommand {
        Some(s) => invocation_size(*s),
        None => 0,
    }
}

/// What a router hands the subcommand it selects: the remaining parameters.
pub open spec fn child_invocation<H>(c: Command<H>, tail: Seq<Seq<char>>) -> InvocationModel {
    InvocationModel {
        name: c.metadata.name@,
        args: Seq::empty(),
        switches: Seq::empty(),
        params: tail,
        order: Seq::empty(),
        subcommand: None,
    }
}

pub open spec fn invalid_arguments(message: Seq<char>) -> StrategyErrorModel {
    StrategyErrorModel { kind: StrategyErrorKind::InvalidArguments, message }
}

pub open spec fn no_handler_message() -> Seq<char> {
    "command has no handler; configure a handler or subcommand"@
}

/// Which handler runs an invocation of `cmd`, and with what; or why none does.
///
/// A subcommand parse goes to the subcommand it names. Otherwise the
/// command's strategy decides: a handler runs with the parsed switches,
/// arguments and parameters; a router takes the first parameter as a
/// subcommand name (or alias) and hands it the rest of the parameters.
pub open spec fn route<H>(cmd: Command<H>, inv: InvocationModel) -> Result<
    CallModel<H>,
    StrategyErrorModel,
>
    decreases invocation_size(inv),
{
    match inv.subcommand {
        Some(sub) => match resolve_sub(cmd, sub.name) {
            Some(c) => route(c, *sub),
            None => Err(invalid_arguments("unknown subcommand '"@ + sub.name + "'"@)),
        },
        None => match strategy_target(cmd.strategy, inv.params.len() == 0) {
            Target::Call(h) => Ok(
                CallModel { handler: h, switches: inv.switches, args: inv.args, params: inv.params },
            ),
            Target::Unconfigured => Err(
                StrategyErrorModel { kind: StrategyErrorKind::Internal, message: no_handler_message() },
            ),
            Target::Route(r) => {
                let available = available_text(r.child_pairs());
                if inv.params.len() == 0 {
                    Err(invalid_arguments("missing subcommand. available: "@ + available))
                } else {
                    match router_lookup(r.child_pairs(), r.alias_pairs(), inv.params[0]) {
                        Some(c) => route(c, child_invocation(c, inv.params.drop_first())),
                        None => Err(
                            invalid_arguments(
                                "unknown subcommand '"@ + inv.params[0] + "'. available: "@
                                    + available,
                            ),
                        ),
                    }
                }
            },
        },
    }
}

/// What a strategy does with an invocation that has no subcommand parse.
enum TargetRef<'a, H> {
    Call(&'a H),
    Route(&'a SubcommandRouter<H>),
    Unconfigured,
}

fn target_of<'a, H>(s: &'a Strategy<H>, no_params: bool) -> (r: TargetRef<'a, H>)
    ensures
        match strategy_target(*s, no_params) {
            Target::Call(h) => r matches TargetRef::Call(x) && *x == h,
            Target::Route(rt) => r matches TargetRef::Route(x) && *x == rt,
            Target::Unconfigured => r is Unconfigured,
        },
    decreases s,
{
    match s {
        Strategy::Handler(h) => TargetRef::Call(h),
        Strategy::Router(r) => TargetRef::Route(r),
        Strategy::Fallback(p, r) => if no_params {
            target_of(&**p, no_params)
        } else {
            TargetRef::Route(r)
        },
        Strategy::Unconfigured => TargetRef::Unconfigured,
    }
}

/// The texts `v[from..]`.
fn tail_texts(v: &Vec<String>, from: usize) -> (r: Vec<String>)
    requires
        from <= v@.len(),
    ensures
        r.deep_view() == v.deep_view().skip(from as int),
{
    let mut r: Vec<String> = Vec::new();
    let mut i: usize = from;
    while i < v.len()
        invariant
            from <= i <= v@.len(),
            r.deep_view() =~= v.deep_view().subrange(from as int, i as int),
        decreases v@.len() - i,
    {
        let ghost before = r.deep_view();
        r.push(copy_text(&v[i]));
        assert(r.deep_view() =~= before.push(v.deep_view()[i as int]));
        i += 1;
    }
    r
}

impl<H> Command<H> {
    /// Chooses the handler that runs `invocation` of this command, and what
    /// it receives, or the error that stops it.
    pub fn route<'a>(&'a self, invocation: InvocationArgs) -> (r: Result<LeafCall<'a, H>, StrategyError>)
        ensures
            call_result(r) == route(*self, invocation@),
        decreases invocation_size(invocation@),
    {
        let ghost m = invocation@;
        let InvocationArgs { name: _, args, switches, params, order: _, subcommand } = invocation;
        match subcommand {
            Some(sub) => {
                match self.resolve_subcommand(&sub.name) {
                    Some(c) => c.route(*sub),
                    None => Err(
                        StrategyError {
                            kind: StrategyErrorKind::InvalidArguments,
                            message: join3("unknown subcommand '", sub.name.as_str(), "'"),
                        },
                    ),
                }
            },
            None => {
                match target_of(&self.strategy, params.len() == 0) {
                    TargetRef::Call(h) => Ok(LeafCall { handler: h, switches, args, params }),
                    TargetRef::Unconfigured => Err(
                        StrategyError::internal(
                            "command has no handler; configure a handler or subcommand",
                        ),
                    ),
                    TargetRef::Route(router) => {
                        let available = router.available_subcommands();
                        if params.len() == 0 {
                            return Err(
                                StrategyError {
                                    kind: StrategyErrorKind::InvalidArguments,
                                    message: join2(
                                        "missing subcommand. available: ",
                                        available.as_str(),
                                    ),
                                },
                            );
                        }
                        let first = &params[0];
                        match router.resolve(first) {
                            Some(c) => {
                                let tail = tail_texts(&params, 1);
                                assert(params.deep_view().skip(1) =~= params.deep_view().drop_first());
                                let child = InvocationArgs {
                                    name: copy_text(&c.metadata.name),
                                    args: Vec::new(),
                                    switches: Vec::new(),
                                    params: tail,
                                    order: Vec::new(),
                                    subcommand: None,
                                };
                                assert(child@ =~= child_invocation(*c, m.params.drop_first()));
                                c.route(child)
                            },
                            None => Err(
                                StrategyError {
                                    kind: StrategyErrorKind::InvalidArguments,
                                    message: join4(
                                        "unknown subcommand '",
                                        first.as_str(),
                                        "'. available: ",
                                        available.as_str(),
                                    ),
                                },
                            ),
                        }
                    },
                }
            },
        }
    }
}

/// What a run of the runtime comes to before any handler runs.
pub enum Dispatch<'a, H> {
    /// Print this help text; the run succeeds.
    Help(String),
    /// Run the handler; a failure is reported for the command `command`.
    Run { command: String, call: LeafCall<'a, H> },
    /// The run fails with this error.
    Fail(CMDKitError),
}

/// The value a `Dispatch` stands for.
pub enum DispatchModel<H> {
    Help(Seq<char>),
    Run { command: Seq<char>, call: CallModel<H> },
    Fail(CMDKitErrorModel),
}

pub open spec fn dispatch_model<'a, H>(d: Dispatch<'a, H>) -> DispatchModel<H> {
    match d {
        Dispatch::Help(h) => DispatchModel::Help(h@),
        Dispatch::Run { command, call } => DispatchModel::Run { command: command@, call: call_model(call) },
        Dispatch::Fail(e) => DispatchModel::Fail(e@),
    }
}

/// The binary name: the first token, else `cli`.
pub open spec fn binary_of(args: Seq<Seq<char>>) -> Seq<char> {
    if args.len() > 0 {
        args[0]
    } else {
        "cli"@
    }
}

/// The second token is `help`.
pub open spec fn wants_help(args: Seq<Seq<char>>) -> bool {
    args.len() > 1 && args[1] == "help"@
}

/// The tokens after the binary name.
pub open spec fn command_tokens(args: Seq<Seq<char>>) -> Seq<Seq<char>> {
    if args.len() > 0 {
        args.drop_first()
    } else {
        Seq::empty()
    }
}

/// A missing or unknown command error carries the help text.
pub open spec fn attach_help(e: CMDKitErrorModel, help: Seq<char>) -> CMDKitErrorModel {
    match e {
        CMDKitErrorModel::MissingCommand { .. } => CMDKitErrorModel::MissingCommand { help },
        CMDKitErrorModel::UnknownCommand { command, .. } => CMDKitErrorModel::UnknownCommand {
            command,
            help,
        },
        other => other,
    }
}

/// What a run comes to, given the interpretation of the command tokens and
/// the help text: the interpreted command must be registered (by name or
/// alias), and routing it chooses the handler; failures of a strategy are
/// reported for the innermost parsed command.
pub open spec fn dispatch_interpreted<H>(
    m: RegistryModel<H>,
    interpreted: Result<InvocationModel, CMDKitErrorModel>,
    help: Seq<char>,
) -> DispatchModel<H> {
    match interpreted {
        Err(e) => DispatchModel::Fail(attach_help(e, help)),
        Ok(inv) => match first_named(registry_commands(m), inv.name) {
            None => DispatchModel::Fail(CMDKitErrorModel::UnknownCommand { command: inv.name, help }),
            Some(c) => match route(c, inv) {
                Ok(call) => DispatchModel::Run { command: leaf_name_of(inv), call },
                Err(source) => DispatchModel::Fail(
                    CMDKitErrorModel::StrategyExecution { command: leaf_name_of(inv), source },
                ),
            },
        },
    }
}

/// What a run with the plain-text interpreter and help renderer comes to.
pub open spec fn dispatch_args<H>(m: RegistryModel<H>, args: Seq<Seq<char>>) -> DispatchModel<H> {
    let help = help_text(binary_of(args), registry_commands(m));
    if wants_help(args) {
        DispatchModel::Help(help)
    } else {
        dispatch_interpreted(
            m,
            interpret_tokens(command_tokens(args), registry_commands(m)),
            help,
        )
    }
}

/// An instance-owned CLI runtime: its registry is its own, and running it
/// reads the registry without changing it.
pub struct CMDKit<H> {
    registry: CommandCatalogue<H>,
}

/// Registers commands, then builds a runtime.
pub struct CMDKitBuilder<H> {
    registry: CommandCatalogue<H>,
}

impl<H> CMDKit<H> {
    /// The registry's value.
    pub closed spec fn model(&self) -> RegistryModel<H> {
        self.registry.model()
    }

    /// Starts a builder with no commands.
    pub fn builder() -> (r: CMDKitBuilder<H>)
        ensures
            r.model().commands.len() == 0,
            r.model().aliases.len() == 0,
            registry_wf(r.model()),
    {
        CMDKitBuilder::new()
    }

    /// The command called `name`, else the command whose alias `name` is.
    pub fn get(&self, name: &str) -> (r: Option<&Command<H>>)
        ensures
            match r {
                Some(c) => registry_get(self.model(), name@) == Some(*c),
                None => registry_get(self.model(), name@) is None,
            },
    {
        let key = owned(name);
        self.registry.get(&key)
    }

    /// All registered commands, in name order.
    pub fn get_all(&self) -> (r: Vec<&Command<H>>)
        ensures
            derefs(r@) == registry_commands(self.model()),
    {
        self.registry.get_all()
    }

    /// The plain-text help text for the binary `caller`.
    pub fn render_help(&self, caller: &String) -> (r: String)
        ensures
            r@ == help_text(caller@, registry_commands(self.model())),
    {
        let all = self.get_all();
        PlainTextHelpRenderer.render(caller, &all)
    }

    /// Whether the command line asks for help: its second token is `help`.
    pub fn is_help_request(args: &Vec<String>) -> (r: bool)
        ensures
            r == wants_help(args.deep_view()),
    {
        if args.len() > 1 {
            let help = owned("help");
            same_text(&args[1], &help)
        } else {
            false
        }
    }

    /// The binary name: the first token, else `cli`.
    pub fn binary_name(args: &Vec<String>) -> (r: String)
        ensures
            r@ == binary_of(args.deep_view()),
    {
        if args.len() > 0 {
            copy_text(&args[0])
        } else {
            owned("cli")
        }
    }

    /// The tokens after the binary name.
    pub fn command_tokens(args: &Vec<String>) -> (r: Vec<String>)
        ensures
            r.deep_view() == command_tokens(args.deep_view()),
    {
        if args.len() > 0 {
            let r = tail_texts(args, 1);
            assert(args.deep_view().skip(1) =~= args.deep_view().drop_first());
            r
        } else {
            let r: Vec<String> = Vec::new();
            assert(r.deep_view() =~= Seq::<Seq<char>>::empty());
            r
        }
    }

    /// A missing or unknown command error with the help text attached.
    fn attach_help(error: CMDKitError, help: String) -> (r: CMDKitError)
        ensures
            r@ == attach_help(error@, help@),
    {
        match error {
            CMDKitError::MissingCommand { .. } => CMDKitError::MissingCommand { help },
            CMDKitError::UnknownCommand { command, .. } => CMDKitError::UnknownCommand { command, help },
            other => other,
        }
    }

    /// What a run comes to, given the interpretation of the command tokens
    /// (by any interpreter) and the help text (by any renderer).
    pub fn dispatch_interpreted<'a>(
        &'a self,
        interpreted: Result<InvocationArgs, CMDKitError>,
        help: String,
    ) -> (r: Dispatch<'a, H>)
        ensures
            dispatch_model(r) == dispatch_interpreted(self.model(), parse_result(interpreted), help@),
    {
        match interpreted {
            Err(e) => Dispatch::Fail(Self::attach_help(e, help)),
            Ok(invocation) => {
                let registered = self.get_all();
                match find_named(&registered, &invocation.name) {
                    None => Dispatch::Fail(
                        CMDKitError::UnknownCommand { command: invocation.name, help },
                    ),
                    Some(command) => {
                        let leaf = copy_text(invocation.leaf_name());
                        match command.route(invocation) {
                            Ok(call) => Dispatch::Run { command: leaf, call },
                            Err(source) => Dispatch::Fail(
                                CMDKitError::StrategyExecution { command: leaf, source },
                            ),
                        }
                    },
                }
            },
        }
    }

    /// What a run with the plain-text interpreter and help renderer comes to:
    /// `args[0]` names the binary, `args[1]` selects the top-level command
    /// (or asks for help), and the command parses the rest.
    pub fn try_run_from_args<'a>(&'a self, args: &Vec<String>) -> (r: Dispatch<'a, H>)
        ensures
            dispatch_model(r) == dispatch_args(self.model(), args.deep_view()),
    {
        let binary = Self::binary_name(args);
        let help = self.render_help(&binary);
        if Self::is_help_request(args) {
            return Dispatch::Help(help);
        }
        let registered = self.get_all();
        let tokens = Self::command_tokens(args);
        let interpreted = PlainTextArgumentInterpreter.interpret(&tokens, &registered);
        self.dispatch_interpreted(interpreted, help)
    }

    /// The result of a run once the chosen handler has returned `outcome`:
    /// a handler failure becomes a strategy-execution error of `command`.
    pub fn complete(command: String, outcome: Result<(), StrategyError>) -> (r: Result<(), CMDKitError>)
        ensures
            match outcome {
                Ok(()) => r is Ok,
                Err(source) => r matches Err(e) && e@ == (CMDKitErrorModel::StrategyExecution {
                    command: command@,
                    source: source@,
                }),
            },
    {
        match outcome {
            Ok(()) => Ok(()),
            Err(source) => Err(CMDKitError::StrategyExecution { command, source }),
        }
    }
}

impl<H> CMDKitBuilder<H> {
    /// The registry's value.
    pub closed spec fn model(&self) -> RegistryModel<H> {
        self.registry.model()
    }

    /// A builder with no commands.
    pub fn new() -> (r: Self)
        ensures
            r.model().commands.len() == 0,
            r.model().aliases.len() == 0,
            registry_wf(r.model()),
    {
        CMDKitBuilder { registry: CommandCatalogue::new() }
    }

    /// Registers a command; fails when it collides with a registered name or alias.
    pub fn try_register(self, command: Command<H>) -> (r: Result<Self, CMDKitError>)
        ensures
            match register_step(self.model(), command) {
                Ok(next) => r matches Ok(b) && b.model() == next,
                Err(message) => r matches Err(e) && e@ == (CMDKitErrorModel::Registration {
                    message,
                }),
            },
            registry_wf(self.model()) ==> (r matches Ok(b) ==> registry_wf(b.model())),
    {
        proof {
            if registry_wf(self.model()) {
                lemma_register_keeps_wf(self.model(), command);
            }
        }
        let mut b = self;
        match b.registry.register(command) {
            Ok(()) => Ok(b),
            Err(message) => Err(CMDKitError::Registration { message }),
        }
    }

    /// Registers a command that collides with no registered name or alias.
    pub fn register(self, command: Command<H>) -> (r: Self)
        requires
            register_step(self.model(), command) is Ok,
        ensures
            register_step(self.model(), command) == Ok::<RegistryModel<H>, Seq<char>>(r.model()),
            registry_wf(self.model()) ==> registry_wf(r.model()),
    {
        match self.try_register(command) {
            Ok(b) => b,
            Err(_) => {
                assert(false);
                CMDKitBuilder::new()
            },
        }
    }

    /// Registers commands in order; fails at the first that collides.
    pub fn try_with_commands(self, commands: Vec<Command<H>>) -> (r: Result<Self, CMDKitError>)
        ensures
            match register_all(self.model(), commands@) {
                Ok(next) => r matches Ok(b) && b.model() == next,
                Err(message) => r matches Err(e) && e@ == (CMDKitErrorModel::Registration {
                    message,
                }),
            },
            registry_wf(self.model()) ==> (r matches Ok(b) ==> registry_wf(b.model())),
    {
        let ghost all = commands@;
        let ghost start = self.model();
        let mut b = self;
        let mut rest = commands;
        let mut i: usize = 0;
        let n = rest.len();
        assert(all.skip(0) =~= all);
        while rest.len() > 0
            invariant
                all == commands@,
                start == self.model(),
                all.len() <= usize::MAX,
                i + rest@.len() == all.len(),
                rest@ == all.skip(i as int),
                register_all(start, all) == register_all(b.model(), rest@),
                registry_wf(start) ==> registry_wf(b.model()),
            decreases rest@.len(),
        {
            let ghost pending = rest@;
            let c = rest.remove(0);
            assert(pending[0] == c);
            assert(rest@ =~= all.skip(i + 1));
            let ghost before = b.model();
            let ghost cg = c;
            assert(pending.drop_first() =~= rest@);
            assert(register_all(before, pending) == match register_step(before, cg) {
                Ok(next) => register_all(next, pending.drop_first()),
                Err(message) => Err(message),
            });
            match b.try_register(c) {
                Ok(next) => {
                    b = next;
                },
                Err(e) => {
                    assert(register_step(before, cg) is Err);
                    assert(register_all(start, all) == register_step(before, cg));
                    return Err(e);
                },
            }
            i += 1;
        }
        Ok(b)
    }

    /// Registers commands in order; none may collide.
    pub fn with_commands(self, commands: Vec<Command<H>>) -> (r: Self)
        requires
            register_all(self.model(), commands@) is Ok,
        ensures
            register_all(self.model(), commands@) == Ok::<RegistryModel<H>, Seq<char>>(r.model()),
            registry_wf(self.model()) ==> registry_wf(r.model()),
    {
        match self.try_with_commands(commands) {
            Ok(b) => b,
            Err(_) => {
                assert(false);
                CMDKitBuilder::new()
            },
        }
    }

    /// Finalizes this builder into a runtime with the same registry.
    pub fn build(self) -> (r: CMDKit<H>)
        ensures
            r.model() == self.model(),
    {
        CMDKit { registry: self.registry }
    }
}


/// A command line whose second token is `help` prints the help text and
/// succeeds.
pub proof fn lemma_help_request_shows_help<H>(m: RegistryModel<H>, args: Seq<Seq<char>>)
    requires
        wants_help(args),
    ensures
        dispatch_args(m, args) == DispatchModel::<H>::Help(
            help_text(binary_of(args), registry_commands(m)),
        ),
{
}

/// A command line without a command token fails as a missing command, with
/// the help text for its binary.
pub proof fn lemma_missing_command_carries_help<H>(m: RegistryModel<H>, args: Seq<Seq<char>>)
    requires
        args.len() <= 1,
    ensures
        dispatch_args(m, args) == DispatchModel::<H>::Fail(
            CMDKitErrorModel::MissingCommand {
                help: help_text(binary_of(args), registry_commands(m)),
            },
        ),
{
    assert(command_tokens(args).len() == 0);
}

/// A command token that names no registered command (by name or alias)
/// fails as an unknown command, with that token and the help text.
pub proof fn lemma_unknown_command_carries_help<H>(m: RegistryModel<H>, args: Seq<Seq<char>>)
    requires
        args.len() >= 2,
        !wants_help(args),
        first_named(registry_commands(m), args[1]) is None,
    ensures
        dispatch_args(m, args) == DispatchModel::<H>::Fail(
            CMDKitErrorModel::UnknownCommand {
                command: args[1],
                help: help_text(binary_of(args), registry_commands(m)),
            },
        ),
{
    assert(command_tokens(args)[0] == args[1]);
}

/// A router hands the subcommand that the first parameter names (by name or
/// alias) exactly the remaining parameters.
pub proof fn lemma_router_forwards_tail<H>(cmd: Command<H>, inv: InvocationModel)
    requires
        inv.subcommand is None,
        inv.params.len() > 0,
        strategy_target(cmd.strategy, false) matches Target::Route(r) && router_lookup(
            r.child_pairs(),
            r.alias_pairs(),
            inv.params[0],
        ) is Some,
    ensures
        strategy_target(cmd.strategy, false) matches Target::Route(r) && route(cmd, inv) == route(
            router_lookup(r.child_pairs(), r.alias_pairs(), inv.params[0]).unwrap(),
            child_invocation(
                router_lookup(r.child_pairs(), r.alias_pairs(), inv.params[0]).unwrap(),
                inv.params.drop_first(),
            ),
        ),
{
}

/// A strategy with subcommands and a handler of its own runs the handler
/// when no parameter is given.
pub proof fn lemma_fallback_runs_primary_without_params<H>(
    h: H,
    router: SubcommandRouter<H>,
    cmd: Command<H>,
    inv: InvocationModel,
)
    requires
        cmd.strategy == Strategy::Fallback(Box::new(Strategy::Handler(h)), router),
        inv.subcommand is None,
        inv.params.len() == 0,
    ensures
        route(cmd, inv) == Ok::<CallModel<H>, StrategyErrorModel>(
            CallModel { handler: h, switches: inv.switches, args: inv.args, params: inv.params },
        ),
{
    assert(strategy_target(Strategy::Handler(h), true) == Target::Call(h));
}

/// A command with a handler and subcommands (a fallback strategy), given
/// an invocation with no parsed subcommand, acts as its first strategy when
/// there are no parameters, and as its router otherwise: the router then
/// selects the subcommand from the first parameter, and the first strategy
/// is not run.
pub proof fn lemma_fallback_routes<H>(
    primary: Strategy<H>,
    router: SubcommandRouter<H>,
    cmd: Command<H>,
    inv: InvocationModel,
)
    requires
        cmd.strategy == Strategy::Fallback(Box::new(primary), router),
        inv.subcommand is None,
    ensures
        inv.params.len() == 0 ==> route(cmd, inv) == route(
            Command { metadata: cmd.metadata, strategy: primary },
            inv,
        ),
        inv.params.len() > 0 ==> route(cmd, inv) == route(
            Command { metadata: cmd.metadata, strategy: Strategy::Router(router) },
            inv,
        ),
{
}

/// A command whose strategy is a handler runs that handler with exactly
/// the switches, arguments and parameters parsed for it, whatever they are
/// (parameters present or not).
pub proof fn lemma_handler_receives_parsed_input<H>(h: H, cmd: Command<H>, inv: InvocationModel)
    requires
        cmd.strategy == Strategy::Handler(h),
        inv.subcommand is None,
    ensures
        route(cmd, inv) == Ok::<CallModel<H>, StrategyErrorModel>(
            CallModel { handler: h, switches: inv.switches, args: inv.args, params: inv.params },
        ),
{
}

} // verus!
