//! The plain-text argument interpreter: turns command-line tokens into an
//! `InvocationArgs` for the selected command and its subcommands.
use vstd::prelude::*;

use crate::command::{Command, cmd_named, derefs, find_named, first_named, resolve_sub};
use crate::error::{CMDKitError, CMDKitErrorModel, StrategyError, StrategyErrorKind, StrategyErrorModel};
use crate::invocation::{ElementModel, InvocationArgs, InvocationElement, InvocationModel};
use crate::metadata::{
    Argument, ArgumentDefinition, ArgumentDefinitionModel, ArgumentModel, SwitchDefinition,
    SwitchModel, named,
};
use crate::text::{
    blank, char_len, copy_text, find_char, first_index_of, is_blank, is_flag_token, join3, same_text,
    slice_chars, starts_with_flag_prefix,
};

verus! {

/// What has been parsed so far at one command level.
#[verifier::ext_equal]
pub struct ParseState {
    pub args: Seq<ArgumentModel>,
    pub switches: Seq<SwitchModel>,
    pub params: Seq<Seq<char>>,
    pub order: Seq<ElementModel>,
}

/// Nothing parsed yet.
pub open spec fn empty_state() -> ParseState {
    ParseState {
        args: Seq::empty(),
        switches: Seq::empty(),
        params: Seq::empty(),
        order: Seq::empty(),
    }
}

/// The first argument declaration that `flag` names.
pub open spec fn find_arg_decl(decls: Seq<ArgumentDefinitionModel>, flag: Seq<char>) -> Option<
    ArgumentDefinitionModel,
>
    decreases decls.len(),
{
    if decls.len() == 0 {
        None
    } else if named(decls[0].name, decls[0].aliases, flag) {
        Some(decls[0])
    } else {
        find_arg_decl(decls.drop_first(), flag)
    }
}

/// The first switch declaration that `flag` names.
pub open spec fn find_switch_decl(decls: Seq<SwitchModel>, flag: Seq<char>) -> Option<SwitchModel>
    decreases decls.len(),
{
    if decls.len() == 0 {
        None
    } else if named(decls[0].name, decls[0].aliases, flag) {
        Some(decls[0])
    } else {
        find_switch_decl(decls.drop_first(), flag)
    }
}

/// Position of the first parsed argument called `name`.
pub open spec fn arg_index(args: Seq<ArgumentModel>, name: Seq<char>) -> Option<int>
    decreases args.len(),
{
    if args.len() == 0 {
        None
    } else if args[0].name == name {
        Some(0)
    } else {
        match arg_index(args.drop_first(), name) {
            Some(i) => Some(i + 1),
            None => None,
        }
    }
}

/// Drops the earlier argument of the same name, if any, and appends `a`:
/// the last value wins.
pub open spec fn upsert(args: Seq<ArgumentModel>, a: ArgumentModel) -> Seq<ArgumentModel> {
    match arg_index(args, a.name) {
        Some(i) => args.remove(i).push(a),
        None => args.push(a),
    }
}

/// The value of the first parsed argument called `name`.
pub open spec fn value_of(args: Seq<ArgumentModel>, name: Seq<char>) -> Option<Seq<char>> {
    match arg_index(args, name) {
        Some(i) => args[i].value,
        None => None,
    }
}

/// A required declaration whose argument has no value or a blank one.
pub open spec fn lacks_value(d: ArgumentDefinitionModel, args: Seq<ArgumentModel>) -> bool {
    d.required && match value_of(args, d.name) {
        Some(v) => is_blank(v),
        None => true,
    }
}

/// The first required declaration without a value.
pub open spec fn missing_required(decls: Seq<ArgumentDefinitionModel>, args: Seq<ArgumentModel>) -> Option<
    ArgumentDefinitionModel,
>
    decreases decls.len(),
{
    if decls.len() == 0 {
        None
    } else if lacks_value(decls[0], args) {
        Some(decls[0])
    } else {
        missing_required(decls.drop_first(), args)
    }
}

/// An invalid-arguments failure of the command `command`.
pub open spec fn invalid_error(command: Seq<char>, message: Seq<char>) -> CMDKitErrorModel {
    CMDKitErrorModel::StrategyExecution {
        command,
        source: StrategyErrorModel { kind: StrategyErrorKind::InvalidArguments, message },
    }
}

pub open spec fn missing_required_message(name: Seq<char>) -> Seq<char> {
    "missing value for required argument '--"@ + name + "'"@
}

pub open spec fn switch_value_message(name: Seq<char>) -> Seq<char> {
    "switch '--"@ + name + "' does not take a value"@
}

pub open spec fn unknown_flag_message(flag: Seq<char>) -> Seq<char> {
    "unknown flag '--"@ + flag + "'"@
}

pub open spec fn missing_value_message(name: Seq<char>) -> Seq<char> {
    "missing value for argument '--"@ + name + "'"@
}

/// The argument declarations of a command.
pub open spec fn arg_decls<H>(cmd: Command<H>) -> Seq<ArgumentDefinitionModel> {
    cmd.metadata.arguments.deep_view()
}

/// The switch declarations of a command.
pub open spec fn switch_decls<H>(cmd: Command<H>) -> Seq<SwitchModel> {
    cmd.metadata.options.deep_view()
}

/// The state after a parsed argument.
pub open spec fn with_argument(st: ParseState, a: ArgumentModel) -> ParseState {
    ParseState { args: upsert(st.args, a), order: st.order.push(ElementModel::Argument(a)), ..st }
}

/// The state after a parsed switch.
pub open spec fn with_switch(st: ParseState, s: SwitchModel) -> ParseState {
    ParseState {
        switches: st.switches.push(s),
        order: st.order.push(ElementModel::Switch(s)),
        ..st
    }
}

/// The state after a positional parameter.
pub open spec fn with_param(st: ParseState, p: Seq<char>) -> ParseState {
    ParseState { params: st.params.push(p), order: st.order.push(ElementModel::Param(p)), ..st }
}

/// The parse of `cmd` from `st`, followed by `sub`.
pub open spec fn invocation_of<H>(
    cmd: Command<H>,
    st: ParseState,
    sub: Option<Box<InvocationModel>>,
) -> InvocationModel {
    InvocationModel {
        name: cmd.metadata.name@,
        args: st.args,
        switches: st.switches,
        params: st.params,
        order: st.order,
        subcommand: sub,
    }
}

/// Parses the tokens `toks` for the command `cmd`, from the state `st`.
///
/// While no parameter has been seen, a token that names a subcommand ends
/// this level: its tail is parsed by that subcommand. Otherwise a token not
/// starting with `--` is a parameter; `--name=value` and `--name value` give
/// a declared argument (by name or alias) its value; `--name` alone is a
/// declared switch; anything else is an error. Required arguments must have
/// a non-blank value when the level ends.
pub open spec fn parse_tokens<H>(cmd: Command<H>, toks: Seq<Seq<char>>, st: ParseState) -> Result<
    InvocationModel,
    CMDKitErrorModel,
>
    decreases toks.len(),
{
    let name = cmd.metadata.name@;
    if toks.len() == 0 {
        match missing_required(arg_decls(cmd), st.args) {
            Some(d) => Err(invalid_error(name, missing_required_message(d.name))),
            None => Ok(invocation_of(cmd, st, None)),
        }
    } else {
        let t = toks[0];
        if st.params.len() == 0 && resolve_sub(cmd, t) is Some {
            match missing_required(arg_decls(cmd), st.args) {
                Some(d) => Err(invalid_error(name, missing_required_message(d.name))),
                None => match parse_tokens(resolve_sub(cmd, t).unwrap(), toks.drop_first(), empty_state()) {
                    Ok(child) => Ok(invocation_of(cmd, st, Some(Box::new(child)))),
                    Err(e) => Err(e),
                },
            }
        } else if !is_flag_token(t) {
            parse_tokens(cmd, toks.drop_first(), with_param(st, t))
        } else {
            let flag = t.skip(2);
            match first_index_of(flag, '=') {
                Some(p) => {
                    let flag_name = flag.take(p);
                    let value = flag.skip(p + 1);
                    match find_arg_decl(arg_decls(cmd), flag_name) {
                        Some(d) => parse_tokens(
                            cmd,
                            toks.drop_first(),
                            with_argument(st, ArgumentModel { name: d.name, value: Some(value) }),
                        ),
                        None => match find_switch_decl(switch_decls(cmd), flag_name) {
                            Some(s) => Err(invalid_error(name, switch_value_message(s.name))),
                            None => Err(invalid_error(name, unknown_flag_message(flag_name))),
                        },
                    }
                },
                None => match find_arg_decl(arg_decls(cmd), flag) {
                    Some(d) => if toks.len() < 2 || is_flag_token(toks[1]) || resolve_sub(
                        cmd,
                        toks[1],
                    ) is Some {
                        Err(invalid_error(name, missing_value_message(d.name)))
                    } else {
                        parse_tokens(
                            cmd,
                            toks.skip(2),
                            with_argument(st, ArgumentModel { name: d.name, value: Some(toks[1]) }),
                        )
                    },
                    None => match find_switch_decl(switch_decls(cmd), flag) {
                        Some(s) => parse_tokens(cmd, toks.drop_first(), with_switch(st, s)),
                        None => Err(invalid_error(name, unknown_flag_message(flag))),
                    },
                },
            }
        }
    }
}

/// Interprets command-line tokens (without the binary name) against the
/// registered commands: the first token selects a command by name or alias,
/// which parses the rest.
pub open spec fn interpret_tokens<H>(toks: Seq<Seq<char>>, registered: Seq<Command<H>>) -> Result<
    InvocationModel,
    CMDKitErrorModel,
> {
    if toks.len() == 0 {
        Err(CMDKitErrorModel::MissingCommand { help: Seq::empty() })
    } else {
        match first_named(registered, toks[0]) {
            Some(c) => parse_tokens(c, toks.drop_first(), empty_state()),
            None => Err(CMDKitErrorModel::UnknownCommand { command: toks[0], help: Seq::empty() }),
        }
    }
}

/// The value a parse result stands for.
pub open spec fn parse_result(r: Result<InvocationArgs, CMDKitError>) -> Result<
    InvocationModel,
    CMDKitErrorModel,
> {
    match r {
        Ok(i) => Ok(i@),
        Err(e) => Err(e@),
    }
}

/// The state the parsed vectors stand for.
pub open spec fn state_of(
    arguments: Vec<Argument>,
    switches: Vec<SwitchDefinition>,
    params: Vec<String>,
    order: Vec<InvocationElement>,
) -> ParseState {
    ParseState {
        args: arguments.deep_view(),
        switches: switches.deep_view(),
        params: params.deep_view(),
        order: order.deep_view(),
    }
}

proof fn lemma_arg_index_found(args: Seq<ArgumentModel>, name: Seq<char>, i: int)
    requires
        0 <= i < args.len(),
        args[i].name == name,
        forall|j: int| 0 <= j < i ==> args[j].name != name,
    ensures
        arg_index(args, name) == Some(i),
    decreases i,
{
    if i > 0 {
        lemma_arg_index_found(args.drop_first(), name, i - 1);
    }
}

proof fn lemma_arg_index_absent(args: Seq<ArgumentModel>, name: Seq<char>)
    requires
        forall|j: int| 0 <= j < args.len() ==> args[j].name != name,
    ensures
        arg_index(args, name) is None,
    decreases args.len(),
{
    if args.len() > 0 {
        lemma_arg_index_absent(args.drop_first(), name);
    }
}

/// The plain-text argument interpreter.
#[derive(Debug, Default, Clone, Copy)]
pub struct PlainTextArgumentInterpreter;

impl PlainTextArgumentInterpreter {
    /// The first argument declaration of `command` that `flag` names.
    fn find_declared_argument<'a, H>(command: &'a Command<H>, flag: &String) -> (r: Option<
        &'a ArgumentDefinition,
    >)
        ensures
            match r {
                Some(d) => find_arg_decl(arg_decls(*command), flag@) == Some(d@),
                None => find_arg_decl(arg_decls(*command), flag@) is None,
            },
    {
        let decls = &command.metadata.arguments;
        let ghost s = decls.deep_view();
        let mut i: usize = 0;
        assert(s.skip(0) =~= s);
        while i < decls.len()
            invariant
                i <= decls@.len(),
                s == decls.deep_view(),
                s == arg_decls(*command),
                find_arg_decl(s, flag@) == find_arg_decl(s.skip(i as int), flag@),
            decreases decls@.len() - i,
        {
            let d = &decls[i];
            assert(s.skip(i as int)[0] == d@);
            if same_text(&d.name, flag) || Self::any_text(&d.aliases, flag) {
                return Some(d);
            }
            assert(s.skip(i as int).drop_first() =~= s.skip(i + 1));
            i += 1;
        }
        None
    }

    /// Whether some text of `v` equals `t`.
    fn any_text(v: &Vec<String>, t: &String) -> (r: bool)
        ensures
            r == v.deep_view().contains(t@),
    {
        let mut i: usize = 0;
        while i < v.len()
            invariant
                i <= v@.len(),
                forall|j: int| 0 <= j < i ==> v.deep_view()[j] != t@,
            decreases v@.len() - i,
        {
            if same_text(&v[i], t) {
                assert(v.deep_view()[i as int] == t@);
                return true;
            }
            i += 1;
        }
        false
    }

    /// The first switch declaration of `command` that `flag` names.
    fn find_declared_switch<'a, H>(command: &'a Command<H>, flag: &String) -> (r: Option<
        &'a SwitchDefinition,
    >)
        ensures
            match r {
                Some(d) => find_switch_decl(switch_decls(*command), flag@) == Some(d@),
                None => find_switch_decl(switch_decls(*command), flag@) is None,
            },
    {
        let decls = &command.metadata.options;
        let ghost s = decls.deep_view();
        let mut i: usize = 0;
        assert(s.skip(0) =~= s);
        while i < decls.len()
            invariant
                i <= decls@.len(),
                s == decls.deep_view(),
                s == switch_decls(*command),
                find_switch_decl(s, flag@) == find_switch_decl(s.skip(i as int), flag@),
            decreases decls@.len() - i,
        {
            let d = &decls[i];
            assert(s.skip(i as int)[0] == d@);
            if same_text(&d.name, flag) || Self::any_text(&d.aliases, flag) {
                return Some(d);
            }
            assert(s.skip(i as int).drop_first() =~= s.skip(i + 1));
            i += 1;
        }
        None
    }

    /// The first registered command that `token` names.
    pub fn resolve_command<'a, H>(commands: &Vec<&'a Command<H>>, token: &String) -> (r: Option<
        &'a Command<H>,
    >)
        ensures
            match r {
                Some(c) => first_named(derefs(commands@), token@) == Some(*c),
                None => first_named(derefs(commands@), token@) is None,
            },
    {
        find_named(commands, token)
    }

    /// Replaces the argument of the same name, if any, by `argument`, which goes last.
    fn upsert_argument(arguments: &mut Vec<Argument>, argument: Argument)
        ensures
            final(arguments).deep_view() == upsert(old(arguments).deep_view(), argument@),
    {
        let ghost s = arguments.deep_view();
        let mut i: usize = 0;
        while i < arguments.len() && !same_text(&arguments[i].name, &argument.name)
            invariant
                i <= arguments@.len(),
                s == arguments.deep_view(),
                forall|j: int| 0 <= j < i ==> s[j].name != argument@.name,
            decreases arguments@.len() - i,
        {
            i += 1;
        }
        if i < arguments.len() {
            proof {
                lemma_arg_index_found(s, argument@.name, i as int);
            }
            arguments.remove(i);
            assert(arguments.deep_view() =~= s.remove(i as int));
        } else {
            proof {
                lemma_arg_index_absent(s, argument@.name);
            }
        }
        let ghost before = arguments.deep_view();
        arguments.push(argument);
        assert(arguments.deep_view() =~= before.push(argument@));
    }

    /// The value of the first parsed argument called `name`, if any.
    fn value_for<'a>(arguments: &'a Vec<Argument>, name: &String) -> (r: Option<&'a String>)
        ensures
            match value_of(arguments.deep_view(), name@) {
                Some(v) => r matches Some(x) && x@ == v,
                None => r is None,
            },
    {
        let ghost s = arguments.deep_view();
        let mut i: usize = 0;
        while i < arguments.len()
            invariant
                i <= arguments@.len(),
                s == arguments.deep_view(),
                forall|j: int| 0 <= j < i ==> s[j].name != name@,
            decreases arguments@.len() - i,
        {
            if same_text(&arguments[i].name, name) {
                proof {
                    lemma_arg_index_found(s, name@, i as int);
                }
                return match &arguments[i].value {
                    Some(v) => Some(v),
                    None => None,
                };
            }
            i += 1;
        }
        proof {
            lemma_arg_index_absent(s, name@);
        }
        None
    }

    /// Fails for the first required argument of `command` that has no value
    /// or a blank one.
    fn validate_required_arguments<H>(command: &Command<H>, arguments: &Vec<Argument>) -> (r: Result<
        (),
        CMDKitError,
    >)
        ensures
            match missing_required(arg_decls(*command), arguments.deep_view()) {
                Some(d) => r matches Err(e) && e@ == invalid_error(
                    command.metadata.name@,
                    missing_required_message(d.name),
                ),
                None => r is Ok,
            },
    {
        let decls = &command.metadata.arguments;
        let ghost s = decls.deep_view();
        let ghost args = arguments.deep_view();
        let mut i: usize = 0;
        assert(s.skip(0) =~= s);
        while i < decls.len()
            invariant
                i <= decls@.len(),
                s == decls.deep_view(),
                s == arg_decls(*command),
                args == arguments.deep_view(),
                missing_required(s, args) == missing_required(s.skip(i as int), args),
            decreases decls@.len() - i,
        {
            let d = &decls[i];
            assert(s.skip(i as int)[0] == d@);
            if d.required {
                let missing = match Self::value_for(arguments, &d.name) {
                    Some(v) => blank(v),
                    None => true,
                };
                if missing {
                    let message = join3(
                        "missing value for required argument '--",
                        d.name.as_str(),
                        "'",
                    );
                    return Err(Self::invalid_arguments(command, message));
                }
            }
            assert(s.skip(i as int).drop_first() =~= s.skip(i + 1));
            i += 1;
        }
        Ok(())
    }

    /// An invalid-arguments failure of `command` with the given message.
    fn invalid_arguments<H>(command: &Command<H>, message: String) -> (r: CMDKitError)
        ensures
            r@ == invalid_error(command.metadata.name@, message@),
    {
        CMDKitError::StrategyExecution {
            command: copy_text(&command.metadata.name),
            source: StrategyError { kind: StrategyErrorKind::InvalidArguments, message },
        }
    }

    /// Parses `args[start..]` for `command`.
    pub fn parse_command<H>(&self, command: &Command<H>, args: &Vec<String>, start: usize) -> (r:
        Result<InvocationArgs, CMDKitError>)
        requires
            start <= args@.len(),
        ensures
            parse_result(r) == parse_tokens(
                *command,
                args.deep_view().skip(start as int),
                empty_state(),
            ),
        decreases args@.len() - start,
    {
        let ghost all = args.deep_view();
        let mut switches: Vec<SwitchDefinition> = Vec::new();
        let mut arguments: Vec<Argument> = Vec::new();
        let mut params: Vec<String> = Vec::new();
        let mut order: Vec<InvocationElement> = Vec::new();
        let mut index: usize = start;
        assert(state_of(arguments, switches, params, order) =~= empty_state());
        while index < args.len()
            invariant
                start <= index <= args@.len(),
                all == args.deep_view(),
                parse_tokens(*command, all.skip(start as int), empty_state()) == parse_tokens(
                    *command,
                    all.skip(index as int),
                    state_of(arguments, switches, params, order),
                ),
            decreases args@.len() - index,
        {
            let ghost st = state_of(arguments, switches, params, order);
            let ghost toks = all.skip(index as int);
            let token = &args[index];
            assert(toks[0] == token@);
            assert(toks.drop_first() =~= all.skip(index + 1));
            if params.len() == 0 {
                match command.resolve_subcommand(token) {
                    Some(sub) => {
                        let checked = Self::validate_required_arguments(command, &arguments);
                        if let Err(e) = checked {
                            return Err(e);
                        }
                        let child = self.parse_command(sub, args, index + 1);
                        return match child {
                            Ok(c) => Ok(
                                InvocationArgs {
                                    name: copy_text(&command.metadata.name),
                                    args: arguments,
                                    switches,
                                    params,
                                    order,
                                    subcommand: Some(Box::new(c)),
                                },
                            ),
                            Err(e) => Err(e),
                        };
                    },
                    None => {},
                }
            }
            if !starts_with_flag_prefix(token) {
                params.push(copy_text(token));
                order.push(InvocationElement::Param(copy_text(token)));
                proof {
                    assert(state_of(arguments, switches, params, order) =~= with_param(st, token@));
                }
                index += 1;
            } else {
                let n = char_len(token);
                let flag = slice_chars(token, 2, n);
                assert(flag@ =~= token@.skip(2));
                match find_char(&flag, '=') {
                    Some(p) => {
                        let flag_len = char_len(&flag);
                        let flag_name = slice_chars(&flag, 0, p);
                        let value = slice_chars(&flag, p + 1, flag_len);
                        assert(flag_name@ =~= flag@.take(p as int));
                        assert(value@ =~= flag@.skip(p + 1));
                        match Self::find_declared_argument(command, &flag_name) {
                            Some(decl) => {
                                let argument = decl.set_value(value);
                                let copy = argument.duplicate();
                                Self::upsert_argument(&mut arguments, copy);
                                let ghost before = order.deep_view();
                                order.push(InvocationElement::Argument(argument));
                                proof {
                                    assert(order.deep_view() =~= before.push(
                                        ElementModel::Argument(argument@),
                                    ));
                                    assert(state_of(arguments, switches, params, order)
                                        =~= with_argument(st, argument@));
                                }
                                index += 1;
                            },
                            None => {
                                return match Self::find_declared_switch(command, &flag_name) {
                                    Some(sw) => Err(
                                        Self::invalid_arguments(
                                            command,
                                            join3("switch '--", sw.name.as_str(), "' does not take a value"),
                                        ),
                                    ),
                                    None => Err(
                                        Self::invalid_arguments(
                                            command,
                                            join3("unknown flag '--", flag_name.as_str(), "'"),
                                        ),
                                    ),
                                };
                            },
                        }
                    },
                    None => {
                        match Self::find_declared_argument(command, &flag) {
                            Some(decl) => {
                                let missing_message = join3(
                                    "missing value for argument '--",
                                    decl.name.as_str(),
                                    "'",
                                );
                                if index + 1 >= args.len() {
                                    return Err(Self::invalid_arguments(command, missing_message));
                                }
                                let next = &args[index + 1];
                                assert(toks[1] == next@);
                                if starts_with_flag_prefix(next) || command.resolve_subcommand(
                                    next,
                                ).is_some() {
                                    return Err(Self::invalid_arguments(command, missing_message));
                                }
                                let argument = decl.set_value(copy_text(next));
                                let copy = argument.duplicate();
                                Self::upsert_argument(&mut arguments, copy);
                                let ghost before = order.deep_view();
                                order.push(InvocationElement::Argument(argument));
                                proof {
                                    assert(order.deep_view() =~= before.push(
                                        ElementModel::Argument(argument@),
                                    ));
                                    assert(state_of(arguments, switches, params, order)
                                        =~= with_argument(st, argument@));
                                    assert(toks.skip(2) =~= all.skip(index + 2));
                                }
                                index += 2;
                            },
                            None => {
                                match Self::find_declared_switch(command, &flag) {
                                    Some(sw) => {
                                        let ghost before_s = switches.deep_view();
                                        let ghost before_o = order.deep_view();
                                        switches.push(sw.duplicate());
                                        order.push(InvocationElement::Switch(sw.duplicate()));
                                        proof {
                                            assert(switches.deep_view() =~= before_s.push(sw@));
                                            assert(order.deep_view() =~= before_o.push(
                                                ElementModel::Switch(sw@),
                                            ));
                                            assert(state_of(arguments, switches, params, order)
                                                =~= with_switch(st, sw@));
                                        }
                                        index += 1;
                                    },
                                    None => {
                                        return Err(
                                            Self::invalid_arguments(
                                                command,
                                                join3("unknown flag '--", flag.as_str(), "'"),
                                            ),
                                        );
                                    },
                                }
                            },
                        }
                    },
                }
            }
        }
        let checked = Self::validate_required_arguments(command, &arguments);
        if let Err(e) = checked {
            return Err(e);
        }
        Ok(
            InvocationArgs {
                name: copy_text(&command.metadata.name),
                args: arguments,
                switches,
                params,
                order,
                subcommand: None,
            },
        )
    }

    /// Interprets `arg` (the command line without the binary name): the first
    /// token selects a registered command by name or alias, which parses the rest.
    pub fn interpret<H>(&self, arg: &Vec<String>, registered_commands: &Vec<&Command<H>>) -> (r:
        Result<InvocationArgs, CMDKitError>)
        ensures
            parse_result(r) == interpret_tokens(arg.deep_view(), derefs(registered_commands@)),
    {
        if arg.len() == 0 {
            return Err(CMDKitError::MissingCommand { help: String::new() });
        }
        let command_name = &arg[0];
        match Self::resolve_command(registered_commands, command_name) {
            Some(command) => {
                assert(arg.deep_view().skip(1) =~= arg.deep_view().drop_first());
                self.parse_command(command, arg, 1)
            },
            None => Err(
                CMDKitError::UnknownCommand { command: copy_text(command_name), help: String::new() },
            ),
        }
    }
}


/// No two parsed arguments share a name.
pub open spec fn argument_names_unique(args: Seq<ArgumentModel>) -> bool {
    forall|i: int, j: int| 0 <= i < j < args.len() ==> args[i].name != args[j].name
}

proof fn lemma_arg_index_some(args: Seq<ArgumentModel>, name: Seq<char>)
    ensures
        arg_index(args, name) matches Some(i) ==> 0 <= i < args.len() && args[i].name == name,
        arg_index(args, name) is None ==> forall|j: int| 0 <= j < args.len() ==> args[j].name != name,
    decreases args.len(),
{
    if args.len() > 0 && args[0].name != name {
        lemma_arg_index_some(args.drop_first(), name);
        if arg_index(args, name) is None {
            assert forall|j: int| 0 <= j < args.len() implies args[j].name != name by {
                if j > 0 {
                    assert(args[j] == args.drop_first()[j - 1]);
                }
            }
        }
    }
}

/// Replacing by name keeps argument names unique.
pub proof fn lemma_upsert_keeps_names_unique(args: Seq<ArgumentModel>, a: ArgumentModel)
    requires
        argument_names_unique(args),
    ensures
        argument_names_unique(upsert(args, a)),
        upsert(args, a).last() == a,
{
    lemma_arg_index_some(args, a.name);
    let r = upsert(args, a);
    match arg_index(args, a.name) {
        Some(k) => {
            let rem = args.remove(k);
            assert forall|i: int, j: int| 0 <= i < j < r.len() implies r[i].name != r[j].name by {
                if j == r.len() - 1 {
                    let oi = if i < k { i } else { i + 1 };
                    assert(rem[i] == args[oi]);
                    assert(args[k].name == a.name);
                } else {
                    let oi = if i < k { i } else { i + 1 };
                    let oj = if j < k { j } else { j + 1 };
                    assert(rem[i] == args[oi]);
                    assert(rem[j] == args[oj]);
                }
            }
        },
        None => {
            assert forall|i: int, j: int| 0 <= i < j < r.len() implies r[i].name != r[j].name by {
                if j == r.len() - 1 {
                    assert(r[i] == args[i]);
                }
            }
        },
    }
}

/// Whatever is parsed, each argument name occurs at most once: a later
/// value of an argument replaces the earlier one ("last value wins").
pub proof fn lemma_parsed_argument_names_unique<H>(cmd: Command<H>, toks: Seq<Seq<char>>, st: ParseState)
    requires
        argument_names_unique(st.args),
    ensures
        parse_tokens(cmd, toks, st) matches Ok(m) ==> argument_names_unique(m.args),
    decreases toks.len(),
{
    if toks.len() > 0 {
        let t = toks[0];
        if st.params.len() == 0 && resolve_sub(cmd, t) is Some {
        } else if !is_flag_token(t) {
            lemma_parsed_argument_names_unique(cmd, toks.drop_first(), with_param(st, t));
        } else {
            let flag = t.skip(2);
            match first_index_of(flag, '=') {
                Some(p) => {
                    if let Some(d) = find_arg_decl(arg_decls(cmd), flag.take(p)) {
                        let a = ArgumentModel { name: d.name, value: Some(flag.skip(p + 1)) };
                        lemma_upsert_keeps_names_unique(st.args, a);
                        lemma_parsed_argument_names_unique(cmd, toks.drop_first(), with_argument(st, a));
                    }
                },
                None => {
                    if let Some(d) = find_arg_decl(arg_decls(cmd), flag) {
                        if toks.len() >= 2 {
                            let a = ArgumentModel { name: d.name, value: Some(toks[1]) };
                            lemma_upsert_keeps_names_unique(st.args, a);
                            lemma_parsed_argument_names_unique(cmd, toks.skip(2), with_argument(st, a));
                        }
                    } else if let Some(sw) = find_switch_decl(switch_decls(cmd), flag) {
                        lemma_parsed_argument_names_unique(cmd, toks.drop_first(), with_switch(st, sw));
                    }
                },
            }
        }
    }
}

proof fn lemma_index_after_prefix(name: Seq<char>, value: Seq<char>)
    requires
        !name.contains('='),
    ensures
        first_index_of(name + seq!['='] + value, '=') == Some(name.len() as int),
    decreases name.len(),
{
    let s = name + seq!['='] + value;
    if name.len() == 0 {
        assert(s[0] == '=');
    } else {
        assert(s[0] == name[0]);
        assert(name[0] != '=');
        assert(!name.drop_first().contains('=')) by {
            if name.drop_first().contains('=') {
                let i = choose|i: int| 0 <= i < name.drop_first().len() && name.drop_first()[i] == '=';
                assert(name[i + 1] == '=');
            }
        }
        lemma_index_after_prefix(name.drop_first(), value);
        assert(s.drop_first() =~= name.drop_first() + seq!['='] + value);
    }
}

proof fn lemma_no_index(name: Seq<char>)
    requires
        !name.contains('='),
    ensures
        first_index_of(name, '=') is None,
    decreases name.len(),
{
    if name.len() > 0 {
        assert(name[0] != '=');
        assert(!name.drop_first().contains('=')) by {
            if name.drop_first().contains('=') {
                let i = choose|i: int| 0 <= i < name.drop_first().len() && name.drop_first()[i] == '=';
                assert(name[i + 1] == '=');
            }
        }
        lemma_no_index(name.drop_first());
    }
}

/// `--name=value` and `--name value` give a declared argument the same
/// value: the parse that follows is the same, when neither token names a
/// subcommand and the value is not itself a flag.
pub proof fn lemma_inline_and_separate_values_agree<H>(
    cmd: Command<H>,
    st: ParseState,
    name: Seq<char>,
    value: Seq<char>,
    rest: Seq<Seq<char>>,
)
    requires
        !name.contains('='),
        find_arg_decl(arg_decls(cmd), name) is Some,
        !is_flag_token(value),
        resolve_sub(cmd, value) is None,
        st.params.len() == 0 ==> resolve_sub(cmd, seq!['-', '-'] + name + seq!['='] + value) is None,
        st.params.len() == 0 ==> resolve_sub(cmd, seq!['-', '-'] + name) is None,
    ensures
        parse_tokens(cmd, seq![seq!['-', '-'] + name + seq!['='] + value] + rest, st) == parse_tokens(
            cmd,
            seq![seq!['-', '-'] + name, value] + rest,
            st,
        ),
{
    let inline = seq!['-', '-'] + name + seq!['='] + value;
    let separate = seq!['-', '-'] + name;
    let t1 = seq![inline] + rest;
    let t2 = seq![separate, value] + rest;
    assert(t1[0] == inline);
    assert(t2[0] == separate);
    assert(t2[1] == value);
    assert(inline.skip(2) =~= name + seq!['='] + value);
    assert(separate.skip(2) =~= name);
    lemma_index_after_prefix(name, value);
    lemma_no_index(name);
    let flag = inline.skip(2);
    assert(flag.take(name.len() as int) =~= name);
    assert(flag.skip(name.len() as int + 1) =~= value);
    assert(t1.drop_first() =~= rest);
    assert(t2.skip(2) =~= rest);
}

/// A flag that names neither a declared argument nor a declared switch is
/// rejected as an unknown flag of the command (unless the token itself names
/// a subcommand where one may start).
pub proof fn lemma_unknown_flag_rejected<H>(
    cmd: Command<H>,
    st: ParseState,
    name: Seq<char>,
    rest: Seq<Seq<char>>,
)
    requires
        !name.contains('='),
        find_arg_decl(arg_decls(cmd), name) is None,
        find_switch_decl(switch_decls(cmd), name) is None,
        st.params.len() == 0 ==> resolve_sub(cmd, seq!['-', '-'] + name) is None,
    ensures
        parse_tokens(cmd, seq![seq!['-', '-'] + name] + rest, st) == Err::<InvocationModel, CMDKitErrorModel>(
            invalid_error(cmd.metadata.name@, unknown_flag_message(name)),
        ),
{
    let t = seq!['-', '-'] + name;
    let toks = seq![t] + rest;
    assert(toks[0] == t);
    assert(t.skip(2) =~= name);
    lemma_no_index(name);
}

/// Once a parameter has been seen, every token that does not start with
/// `--` is a parameter of the current command, even one that names a
/// subcommand.
pub proof fn lemma_tokens_after_param_stay_params<H>(cmd: Command<H>, toks: Seq<Seq<char>>, st: ParseState)
    requires
        st.params.len() > 0,
        toks.len() > 0,
        !is_flag_token(toks[0]),
    ensures
        parse_tokens(cmd, toks, st) == parse_tokens(cmd, toks.drop_first(), with_param(st, toks[0])),
{
}

/// Before any parameter, a token that names a subcommand ends the command's
/// own parsing: the rest of the line is the subcommand's to parse.
pub proof fn lemma_subcommand_boundary<H>(cmd: Command<H>, toks: Seq<Seq<char>>, st: ParseState)
    requires
        st.params.len() == 0,
        toks.len() > 0,
        resolve_sub(cmd, toks[0]) is Some,
        missing_required(arg_decls(cmd), st.args) is None,
    ensures
        parse_tokens(cmd, toks, st) == match parse_tokens(
            resolve_sub(cmd, toks[0]).unwrap(),
            toks.drop_first(),
            empty_state(),
        ) {
            Ok(child) => Ok(invocation_of(cmd, st, Some(Box::new(child)))),
            Err(e) => Err(e),
        },
{
}

/// Every parsed argument is named by the canonical name of a declared
/// argument, and every parsed switch is a declared switch.
pub open spec fn parsed_from_declarations<H>(
    cmd: Command<H>,
    args: Seq<ArgumentModel>,
    switches: Seq<SwitchModel>,
) -> bool {
    &&& forall|i: int|
        0 <= i < args.len() ==> exists|d: int|
            0 <= d < arg_decls(cmd).len() && (#[trigger] arg_decls(cmd)[d]).name == (#[trigger] args[i]).name
    &&& forall|i: int| 0 <= i < switches.len() ==> switch_decls(cmd).contains(#[trigger] switches[i])
}

/// Every required declared argument has a value that is not blank.
pub open spec fn required_present(decls: Seq<ArgumentDefinitionModel>, args: Seq<ArgumentModel>) -> bool {
    forall|i: int|
        0 <= i < decls.len() && (#[trigger] decls[i]).required ==> (value_of(args, decls[i].name) matches Some(
            v,
        ) && !is_blank(v))
}

proof fn lemma_find_arg_decl_member(decls: Seq<ArgumentDefinitionModel>, flag: Seq<char>)
    ensures
        find_arg_decl(decls, flag) matches Some(d) ==> exists|k: int| 0 <= k < decls.len() && decls[k] == d,
    decreases decls.len(),
{
    if decls.len() > 0 && !named(decls[0].name, decls[0].aliases, flag) {
        lemma_find_arg_decl_member(decls.drop_first(), flag);
        if let Some(d) = find_arg_decl(decls, flag) {
            let k = choose|k: int| 0 <= k < decls.drop_first().len() && decls.drop_first()[k] == d;
            assert(decls[k + 1] == d);
        }
    }
}

proof fn lemma_find_switch_decl_member(decls: Seq<SwitchModel>, flag: Seq<char>)
    ensures
        find_switch_decl(decls, flag) matches Some(d) ==> decls.contains(d),
    decreases decls.len(),
{
    if decls.len() > 0 {
        if named(decls[0].name, decls[0].aliases, flag) {
            assert(decls[0] == find_switch_decl(decls, flag)->0);
        } else {
            lemma_find_switch_decl_member(decls.drop_first(), flag);
            if let Some(d) = find_switch_decl(decls, flag) {
                let k = choose|k: int| 0 <= k < decls.drop_first().len() && decls.drop_first()[k] == d;
                assert(decls[k + 1] == d);
            }
        }
    }
}

proof fn lemma_upsert_members(args: Seq<ArgumentModel>, a: ArgumentModel, i: int)
    requires
        0 <= i < upsert(args, a).len(),
    ensures
        upsert(args, a)[i] == a || exists|k: int| 0 <= k < args.len() && args[k] == upsert(args, a)[i],
{
    lemma_arg_index_some(args, a.name);
    let r = upsert(args, a);
    match arg_index(args, a.name) {
        Some(p) => {
            if i < r.len() - 1 {
                let k = if i < p { i } else { i + 1 };
                assert(args.remove(p)[i] == args[k]);
            }
        },
        None => {
            if i < r.len() - 1 {
                assert(args[i] == r[i]);
            }
        },
    }
}

proof fn lemma_no_missing_required(decls: Seq<ArgumentDefinitionModel>, args: Seq<ArgumentModel>)
    requires
        missing_required(decls, args) is None,
    ensures
        required_present(decls, args),
    decreases decls.len(),
{
    if decls.len() > 0 {
        lemma_no_missing_required(decls.drop_first(), args);
        assert forall|i: int| 0 <= i < decls.len() && (#[trigger] decls[i]).required implies (value_of(
            args,
            decls[i].name,
        ) matches Some(v) && !is_blank(v)) by {
            if i > 0 {
                assert(decls.drop_first()[i - 1] == decls[i]);
            }
        }
    }
}

proof fn lemma_parse_level<H>(cmd: Command<H>, toks: Seq<Seq<char>>, st: ParseState)
    requires
        argument_names_unique(st.args),
        parsed_from_declarations(cmd, st.args, st.switches),
    ensures
        parse_tokens(cmd, toks, st) matches Ok(r) ==> {
            &&& r.name == cmd.metadata.name@
            &&& argument_names_unique(r.args)
            &&& parsed_from_declarations(cmd, r.args, r.switches)
            &&& required_present(arg_decls(cmd), r.args)
        },
    decreases toks.len(),
{
    lemma_parsed_argument_names_unique(cmd, toks, st);
    if toks.len() == 0 {
        if missing_required(arg_decls(cmd), st.args) is None {
            lemma_no_missing_required(arg_decls(cmd), st.args);
        }
    } else {
        let t = toks[0];
        if st.params.len() == 0 && resolve_sub(cmd, t) is Some {
            if missing_required(arg_decls(cmd), st.args) is None {
                lemma_no_missing_required(arg_decls(cmd), st.args);
            }
        } else if !is_flag_token(t) {
            lemma_parse_level(cmd, toks.drop_first(), with_param(st, t));
        } else {
            let flag = t.skip(2);
            match first_index_of(flag, '=') {
                Some(p) => {
                    lemma_find_arg_decl_member(arg_decls(cmd), flag.take(p));
                    if let Some(d) = find_arg_decl(arg_decls(cmd), flag.take(p)) {
                        let a = ArgumentModel { name: d.name, value: Some(flag.skip(p + 1)) };
                        lemma_arguments_still_declared(cmd, st, a);
                        lemma_upsert_keeps_names_unique(st.args, a);
                        lemma_parse_level(cmd, toks.drop_first(), with_argument(st, a));
                    }
                },
                None => {
                    lemma_find_arg_decl_member(arg_decls(cmd), flag);
                    lemma_find_switch_decl_member(switch_decls(cmd), flag);
                    if let Some(d) = find_arg_decl(arg_decls(cmd), flag) {
                        if toks.len() >= 2 {
                            let a = ArgumentModel { name: d.name, value: Some(toks[1]) };
                            lemma_arguments_still_declared(cmd, st, a);
                            lemma_upsert_keeps_names_unique(st.args, a);
                            lemma_parse_level(cmd, toks.skip(2), with_argument(st, a));
                        }
                    } else if let Some(sw) = find_switch_decl(switch_decls(cmd), flag) {
                        let next = with_switch(st, sw);
                        assert forall|i: int| 0 <= i < next.switches.len() implies switch_decls(cmd).contains(
                            #[trigger] next.switches[i],
                        ) by {
                            if i < st.switches.len() {
                                assert(next.switches[i] == st.switches[i]);
                            }
                        }
                        lemma_parse_level(cmd, toks.drop_first(), next);
                    }
                },
            }
        }
    }
}

proof fn lemma_arguments_still_declared<H>(cmd: Command<H>, st: ParseState, a: ArgumentModel)
    requires
        parsed_from_declarations(cmd, st.args, st.switches),
        exists|d: int| 0 <= d < arg_decls(cmd).len() && arg_decls(cmd)[d].name == a.name,
    ensures
        parsed_from_declarations(cmd, upsert(st.args, a), st.switches),
{
    let r = upsert(st.args, a);
    assert forall|i: int| 0 <= i < r.len() implies exists|d: int|
        0 <= d < arg_decls(cmd).len() && (#[trigger] arg_decls(cmd)[d]).name == (#[trigger] r[i]).name by {
        lemma_upsert_members(st.args, a, i);
        if r[i] != a {
            let k = choose|k: int| 0 <= k < st.args.len() && st.args[k] == r[i];
            assert(exists|d: int| 0 <= d < arg_decls(cmd).len() && (#[trigger] arg_decls(cmd)[d]).name == (
            #[trigger] st.args[k]).name);
        } else {
            let d = choose|d: int| 0 <= d < arg_decls(cmd).len() && arg_decls(cmd)[d].name == a.name;
            assert(arg_decls(cmd)[d].name == r[i].name);
        }
    }
}

/// What a successful parse of a command's tokens holds: it is the command's
/// invocation; each argument is named by the canonical name of a declared
/// argument (never an alias) and occurs once; every required argument has a
/// value that is not blank; every switch is a declared switch.
pub proof fn lemma_successful_parse<H>(cmd: Command<H>, toks: Seq<Seq<char>>)
    ensures
        parse_tokens(cmd, toks, empty_state()) matches Ok(r) ==> {
            &&& r.name == cmd.metadata.name@
            &&& argument_names_unique(r.args)
            &&& parsed_from_declarations(cmd, r.args, r.switches)
            &&& required_present(arg_decls(cmd), r.args)
        },
{
    lemma_parse_level(cmd, toks, empty_state());
}

proof fn lemma_switch_lookup_at(decls: Seq<SwitchModel>, flag: Seq<char>, k: int)
    requires
        0 <= k < decls.len(),
        decls[k].name == flag || decls[k].aliases.contains(flag),
        forall|j: int| 0 <= j < k ==> !(#[trigger] decls[j].name == flag || decls[j].aliases.contains(flag)),
    ensures
        find_switch_decl(decls, flag) == Some(decls[k]),
    decreases k,
{
    if k > 0 {
        let t = decls.drop_first();
        assert(!(decls[0].name == flag || decls[0].aliases.contains(flag)));
        assert(t[k - 1] == decls[k]);
        assert forall|j: int| 0 <= j < k - 1 implies !(#[trigger] t[j].name == flag || t[j].aliases.contains(
            flag,
        )) by {
            assert(t[j] == decls[j + 1]);
        }
        lemma_switch_lookup_at(t, flag, k - 1);
    }
}

/// The switch declaration a flag selects is the first one whose name or
/// one of whose aliases is the flag; no declaration is selected when none
/// has the flag as name or alias.
pub proof fn lemma_switch_lookup_by_name_or_alias(decls: Seq<SwitchModel>, flag: Seq<char>)
    ensures
        forall|k: int|
            0 <= k < decls.len() && ((#[trigger] decls[k]).name == flag || decls[k].aliases.contains(flag))
                && (forall|j: int|
                0 <= j < k ==> !(decls[j].name == flag || decls[j].aliases.contains(flag)))
                ==> find_switch_decl(decls, flag) == Some(decls[k]),
        (forall|k: int|
            0 <= k < decls.len() ==> !((#[trigger] decls[k]).name == flag || decls[k].aliases.contains(flag)))
            ==> find_switch_decl(decls, flag) is None,
    decreases decls.len(),
{
    if decls.len() > 0 {
        let t = decls.drop_first();
        lemma_switch_lookup_by_name_or_alias(t, flag);
        assert forall|k: int|
            0 <= k < decls.len() && ((#[trigger] decls[k]).name == flag || decls[k].aliases.contains(flag))
                && (forall|j: int|
                0 <= j < k ==> !(decls[j].name == flag || decls[j].aliases.contains(flag)))
                implies find_switch_decl(decls, flag) == Some(decls[k]) by {
            if k > 0 {
                assert(!(decls[0].name == flag || decls[0].aliases.contains(flag)));
                assert(t[k - 1] == decls[k]);
                assert forall|j: int| 0 <= j < k - 1 implies !(t[j].name == flag || t[j].aliases.contains(
                    flag,
                )) by {
                    assert(t[j] == decls[j + 1]);
                }
            }
        }
        if forall|k: int|
            0 <= k < decls.len() ==> !((#[trigger] decls[k]).name == flag || decls[k].aliases.contains(flag)) {
            assert(!(decls[0].name == flag || decls[0].aliases.contains(flag)));
            assert forall|k: int| 0 <= k < t.len() implies !((#[trigger] t[k]).name == flag || t[k].aliases.contains(
                flag,
            )) by {
                assert(t[k] == decls[k + 1]);
            }
        }
    }
}

proof fn lemma_argument_lookup_at(decls: Seq<ArgumentDefinitionModel>, flag: Seq<char>, k: int)
    requires
        0 <= k < decls.len(),
        decls[k].name == flag || decls[k].aliases.contains(flag),
        forall|j: int| 0 <= j < k ==> !(#[trigger] decls[j].name == flag || decls[j].aliases.contains(flag)),
    ensures
        find_arg_decl(decls, flag) == Some(decls[k]),
    decreases k,
{
    if k > 0 {
        let t = decls.drop_first();
        assert(!(decls[0].name == flag || decls[0].aliases.contains(flag)));
        assert(t[k - 1] == decls[k]);
        assert forall|j: int| 0 <= j < k - 1 implies !(#[trigger] t[j].name == flag || t[j].aliases.contains(
            flag,
        )) by {
            assert(t[j] == decls[j + 1]);
        }
        lemma_argument_lookup_at(t, flag, k - 1);
    }
}

proof fn lemma_argument_lookup_none(decls: Seq<ArgumentDefinitionModel>, flag: Seq<char>)
    requires
        forall|k: int|
            0 <= k < decls.len() ==> !(#[trigger] decls[k].name == flag || decls[k].aliases.contains(flag)),
    ensures
        find_arg_decl(decls, flag) is None,
    decreases decls.len(),
{
    if decls.len() > 0 {
        let t = decls.drop_first();
        assert(!(decls[0].name == flag || decls[0].aliases.contains(flag)));
        assert forall|k: int| 0 <= k < t.len() implies !(#[trigger] t[k].name == flag || t[k].aliases.contains(
            flag,
        )) by {
            assert(t[k] == decls[k + 1]);
        }
        lemma_argument_lookup_none(t, flag);
    }
}

/// The argument declaration a flag selects is the first one whose name or
/// one of whose aliases is the flag; no declaration is selected when none
/// has the flag as name or alias.
pub proof fn lemma_argument_lookup_by_name_or_alias(decls: Seq<ArgumentDefinitionModel>, flag: Seq<char>)
    ensures
        forall|k: int|
            0 <= k < decls.len() && ((#[trigger] decls[k]).name == flag || decls[k].aliases.contains(flag))
                && (forall|j: int|
                0 <= j < k ==> !(decls[j].name == flag || decls[j].aliases.contains(flag)))
                ==> find_arg_decl(decls, flag) == Some(decls[k]),
        (forall|k: int|
            0 <= k < decls.len() ==> !((#[trigger] decls[k]).name == flag || decls[k].aliases.contains(flag)))
            ==> find_arg_decl(decls, flag) is None,
{
    assert forall|k: int|
        0 <= k < decls.len() && ((#[trigger] decls[k]).name == flag || decls[k].aliases.contains(flag))
            && (forall|j: int|
            0 <= j < k ==> !(decls[j].name == flag || decls[j].aliases.contains(flag)))
            implies find_arg_decl(decls, flag) == Some(decls[k]) by {
        lemma_argument_lookup_at(decls, flag, k);
    }
    if forall|k: int|
        0 <= k < decls.len() ==> !((#[trigger] decls[k]).name == flag || decls[k].aliases.contains(flag)) {
        lemma_argument_lookup_none(decls, flag);
    }
}

/// `--name` for a flag that selects the switch declaration `sw` and no
/// argument declaration adds `sw`.
proof fn lemma_switch_flag_step<H>(
    cmd: Command<H>,
    st: ParseState,
    name: Seq<char>,
    sw: SwitchModel,
    rest: Seq<Seq<char>>,
)
    requires
        !name.contains('='),
        find_arg_decl(arg_decls(cmd), name) is None,
        find_switch_decl(switch_decls(cmd), name) == Some(sw),
        st.params.len() == 0 ==> resolve_sub(cmd, seq!['-', '-'] + name) is None,
    ensures
        parse_tokens(cmd, seq![seq!['-', '-'] + name] + rest, st) == parse_tokens(
            cmd,
            rest,
            with_switch(st, sw),
        ),
{
    let t = seq!['-', '-'] + name;
    let toks = seq![t] + rest;
    assert(toks[0] == t);
    assert(t.skip(2) =~= name);
    assert(toks.drop_first() =~= rest);
    lemma_no_index(name);
}

/// A switch given by one of its aliases is taken exactly as when given by
/// its name: `--alias` and `--name` both add that declared switch and the
/// parse goes on with the rest of the line. (The flag must select this
/// declaration: no argument declaration and no earlier switch declaration
/// has the alias or the name, and neither flag names a subcommand where one
/// may start.)
pub proof fn lemma_switch_alias_parses_like_name<H>(
    cmd: Command<H>,
    st: ParseState,
    k: int,
    alias: Seq<char>,
    rest: Seq<Seq<char>>,
)
    requires
        0 <= k < switch_decls(cmd).len(),
        switch_decls(cmd)[k].aliases.contains(alias),
        !alias.contains('='),
        !switch_decls(cmd)[k].name.contains('='),
        forall|j: int|
            0 <= j < k ==> !(switch_decls(cmd)[j].name == alias || switch_decls(cmd)[j].aliases.contains(
                alias,
            )),
        forall|j: int|
            0 <= j < k ==> !(switch_decls(cmd)[j].name == switch_decls(cmd)[k].name
                || switch_decls(cmd)[j].aliases.contains(switch_decls(cmd)[k].name)),
        forall|j: int|
            0 <= j < arg_decls(cmd).len() ==> !(arg_decls(cmd)[j].name == alias || arg_decls(
                cmd,
            )[j].aliases.contains(alias)),
        forall|j: int|
            0 <= j < arg_decls(cmd).len() ==> !(arg_decls(cmd)[j].name == switch_decls(cmd)[k].name
                || arg_decls(cmd)[j].aliases.contains(switch_decls(cmd)[k].name)),
        st.params.len() == 0 ==> resolve_sub(cmd, seq!['-', '-'] + alias) is None,
        st.params.len() == 0 ==> resolve_sub(cmd, seq!['-', '-'] + switch_decls(cmd)[k].name) is None,
    ensures
        parse_tokens(cmd, seq![seq!['-', '-'] + alias] + rest, st) == parse_tokens(
            cmd,
            rest,
            with_switch(st, switch_decls(cmd)[k]),
        ),
        parse_tokens(cmd, seq![seq!['-', '-'] + switch_decls(cmd)[k].name] + rest, st) == parse_tokens(
            cmd,
            rest,
            with_switch(st, switch_decls(cmd)[k]),
        ),
{
    let sw = switch_decls(cmd)[k];
    lemma_switch_lookup_at(switch_decls(cmd), alias, k);
    lemma_switch_lookup_at(switch_decls(cmd), sw.name, k);
    lemma_argument_lookup_none(arg_decls(cmd), alias);
    lemma_argument_lookup_none(arg_decls(cmd), sw.name);
    lemma_switch_flag_step(cmd, st, alias, sw, rest);
    lemma_switch_flag_step(cmd, st, sw.name, sw, rest);
}

/// An argument given by one of its aliases, as `--alias value`, is recorded
/// under the declaration's canonical name with that value, exactly as
/// `--name value`. (The flag must select this declaration, the value must
/// not be a flag, and neither flag nor value names a subcommand where one
/// may start.)
pub proof fn lemma_argument_alias_parses_like_name<H>(
    cmd: Command<H>,
    st: ParseState,
    k: int,
    alias: Seq<char>,
    value: Seq<char>,
    rest: Seq<Seq<char>>,
)
    requires
        0 <= k < arg_decls(cmd).len(),
        arg_decls(cmd)[k].aliases.contains(alias),
        !alias.contains('='),
        forall|j: int|
            0 <= j < k ==> !(arg_decls(cmd)[j].name == alias || arg_decls(cmd)[j].aliases.contains(alias)),
        !is_flag_token(value),
        resolve_sub(cmd, value) is None,
        st.params.len() == 0 ==> resolve_sub(cmd, seq!['-', '-'] + alias) is None,
    ensures
        parse_tokens(cmd, seq![seq!['-', '-'] + alias, value] + rest, st) == parse_tokens(
            cmd,
            rest,
            with_argument(st, ArgumentModel { name: arg_decls(cmd)[k].name, value: Some(value) }),
        ),
{
    let d = arg_decls(cmd)[k];
    let flag = seq!['-', '-'] + alias;
    lemma_argument_lookup_at(arg_decls(cmd), alias, k);
    lemma_no_index(alias);
    assert(flag.skip(2) =~= alias);
    let t = seq![flag, value] + rest;
    assert(t[0] == flag);
    assert(t[1] == value);
    assert(t.skip(2) =~= rest);
}

/// The first token selects, among the registered commands in order, the
/// first whose name or one of whose aliases is the token, and that command
/// parses the rest of the line; without a token the command is missing, and
/// a token that no command has as name or alias is an unknown command.
pub proof fn lemma_command_selected_by_name_or_alias<H>(toks: Seq<Seq<char>>, registered: Seq<Command<H>>)
    ensures
        toks.len() == 0 ==> interpret_tokens(toks, registered) == Err::<InvocationModel, CMDKitErrorModel>(
            CMDKitErrorModel::MissingCommand { help: Seq::empty() },
        ),
        toks.len() > 0 ==> forall|i: int|
            0 <= i < registered.len() && ((#[trigger] registered[i]).metadata.name@ == toks[0]
                || registered[i].metadata.aliases.deep_view().contains(toks[0])) && (forall|j: int|
                0 <= j < i ==> !(registered[j].metadata.name@ == toks[0]
                    || registered[j].metadata.aliases.deep_view().contains(toks[0])))
                ==> interpret_tokens(toks, registered) == parse_tokens(
                registered[i],
                toks.drop_first(),
                empty_state(),
            ),
        toks.len() > 0 && (forall|i: int|
            0 <= i < registered.len() ==> !((#[trigger] registered[i]).metadata.name@ == toks[0]
                || registered[i].metadata.aliases.deep_view().contains(toks[0]))) ==> interpret_tokens(
            toks,
            registered,
        ) == Err::<InvocationModel, CMDKitErrorModel>(
            CMDKitErrorModel::UnknownCommand { command: toks[0], help: Seq::empty() },
        ),
{
    if toks.len() > 0 {
        let t = toks[0];
        assert forall|i: int|
            0 <= i < registered.len() && ((#[trigger] registered[i]).metadata.name@ == t
                || registered[i].metadata.aliases.deep_view().contains(t)) && (forall|j: int|
                0 <= j < i ==> !(registered[j].metadata.name@ == t
                    || registered[j].metadata.aliases.deep_view().contains(t)))
                implies interpret_tokens(toks, registered) == parse_tokens(
                registered[i],
                toks.drop_first(),
                empty_state(),
            ) by {
            assert forall|j: int| 0 <= j < i implies !cmd_named(#[trigger] registered[j], t) by {}
            crate::resolution::lemma_first_named_at(registered, t, i);
        }
        if forall|i: int|
            0 <= i < registered.len() ==> !((#[trigger] registered[i]).metadata.name@ == t
                || registered[i].metadata.aliases.deep_view().contains(t)) {
            assert forall|j: int| 0 <= j < registered.len() implies !cmd_named(#[trigger] registered[j], t) by {}
            crate::resolution::lemma_first_named_none(registered, t);
        }
    }
}

proof fn lemma_required_present_means_none_missing(decls: Seq<ArgumentDefinitionModel>, args: Seq<ArgumentModel>)
    requires
        required_present(decls, args),
    ensures
        missing_required(decls, args) is None,
    decreases decls.len(),
{
    if decls.len() > 0 {
        assert(decls[0] == decls[0]);
        assert forall|i: int| 0 <= i < decls.drop_first().len() && (#[trigger] decls.drop_first()[i]).required
            implies (value_of(args, decls.drop_first()[i].name) matches Some(v) && !is_blank(v)) by {
            assert(decls.drop_first()[i] == decls[i + 1]);
        }
        lemma_required_present_means_none_missing(decls.drop_first(), args);
    }
}

/// At the end of a line, a command's parse succeeds exactly when every
/// required declared argument has a value that is not blank; it then holds
/// what was parsed. Otherwise it fails naming a required argument without
/// a value.
pub proof fn lemma_line_end_checks_required<H>(cmd: Command<H>, st: ParseState)
    ensures
        required_present(arg_decls(cmd), st.args) ==> parse_tokens(cmd, Seq::empty(), st) == Ok::<
            InvocationModel,
            CMDKitErrorModel,
        >(invocation_of(cmd, st, None)),
        !required_present(arg_decls(cmd), st.args) ==> exists|k: int|
            0 <= k < arg_decls(cmd).len() && (#[trigger] arg_decls(cmd)[k]).required && parse_tokens(
                cmd,
                Seq::empty(),
                st,
            ) == Err::<InvocationModel, CMDKitErrorModel>(
                invalid_error(cmd.metadata.name@, missing_required_message(arg_decls(cmd)[k].name)),
            ),
{
    if required_present(arg_decls(cmd), st.args) {
        lemma_required_present_means_none_missing(arg_decls(cmd), st.args);
    } else {
        if missing_required(arg_decls(cmd), st.args) is None {
            lemma_no_missing_required(arg_decls(cmd), st.args);
        }
        lemma_missing_required_member(arg_decls(cmd), st.args);
    }
}

proof fn lemma_missing_required_member(decls: Seq<ArgumentDefinitionModel>, args: Seq<ArgumentModel>)
    ensures
        missing_required(decls, args) matches Some(d) ==> exists|k: int|
            0 <= k < decls.len() && decls[k] == d && d.required,
    decreases decls.len(),
{
    if decls.len() > 0 && !lacks_value(decls[0], args) {
        lemma_missing_required_member(decls.drop_first(), args);
        if let Some(d) = missing_required(decls, args) {
            let k = choose|k: int| 0 <= k < decls.drop_first().len() && decls.drop_first()[k] == d && d.required;
            assert(decls[k + 1] == d);
        }
    }
}

/// Tokens that are not flags, the first of which names no subcommand (or
/// that come after a parameter), are all parameters, in order: a successful
/// parse keeps the arguments and switches parsed before them and appends
/// the tokens to the parameters.
pub proof fn lemma_plain_tokens_are_params<H>(cmd: Command<H>, toks: Seq<Seq<char>>, st: ParseState)
    requires
        forall|i: int| 0 <= i < toks.len() ==> !is_flag_token(#[trigger] toks[i]),
        st.params.len() > 0 || toks.len() == 0 || resolve_sub(cmd, toks[0]) is None,
    ensures
        parse_tokens(cmd, toks, st) matches Ok(r) ==> r.params == st.params + toks && r.args == st.args
            && r.switches == st.switches && r.subcommand is None,
    decreases toks.len(),
{
    if toks.len() == 0 {
        assert(st.params + toks =~= st.params);
    } else {
        let t = toks[0];
        let rest = toks.drop_first();
        assert(!is_flag_token(t));
        assert forall|i: int| 0 <= i < rest.len() implies !is_flag_token(#[trigger] rest[i]) by {
            assert(rest[i] == toks[i + 1]);
        }
        lemma_plain_tokens_are_params(cmd, rest, with_param(st, t));
        assert(st.params.push(t) + rest =~= st.params + toks);
    }
}

} // verus!
