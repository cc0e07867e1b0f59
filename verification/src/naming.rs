//! Names that the `#[cli]` attribute gives the strategy it generates for a
//! function, and the checks it makes first.
use vstd::prelude::*;

use crate::text::{char_at, char_len, join2, owned, push_char, same_text};

verus! {

/// The uppercase mapping of a character, as `char::to_uppercase` yields it.
pub uninterp spec fn char_uppercase(c: char) -> Seq<char>;

/// The uppercase form of an ASCII character: letters `a` to `z` map to `A`
/// to `Z`, other ASCII characters to themselves.
pub open spec fn ascii_uppercase(c: char) -> char {
    if 'a' <= c <= 'z' {
        ((c as int) - 32) as char
    } else {
        c
    }
}

/// The characters of `c.to_uppercase()`.
///
/// Trusted: calls `char::to_uppercase`. The contract names the result and
/// states, as its documentation does, that an ASCII character maps to its
/// ASCII uppercase form; the full Unicode mapping is left unstated.
#[verifier::external_body]
fn uppercase_of(c: char) -> (r: String)
    ensures
        r@ == char_uppercase(c),
        (c as u32) < 128 ==> r@ == seq![ascii_uppercase(c)],
{
    c.to_uppercase().collect()
}

/// `s` in upper camel case from `at_start` on: the text between underscores,
/// each part starting with its first character in upper case; underscores
/// are dropped.
pub open spec fn pascal_from(s: Seq<char>, at_start: bool) -> Seq<char>
    decreases s.len(),
{
    if s.len() == 0 {
        Seq::empty()
    } else if s[0] == '_' {
        pascal_from(s.drop_first(), true)
    } else if at_start {
        char_uppercase(s[0]) + pascal_from(s.drop_first(), false)
    } else {
        seq![s[0]] + pascal_from(s.drop_first(), false)
    }
}

/// A snake-case name in upper camel case.
pub open spec fn pascal_case(s: Seq<char>) -> Seq<char> {
    pascal_from(s, true)
}

/// Every character is ASCII.
pub open spec fn is_ascii_text(s: Seq<char>) -> bool {
    forall|i: int| 0 <= i < s.len() ==> (#[trigger] s[i] as u32) < 128
}

/// `pascal_from` with ASCII upper-casing: what it comes to on ASCII text.
pub open spec fn ascii_pascal_from(s: Seq<char>, at_start: bool) -> Seq<char>
    decreases s.len(),
{
    if s.len() == 0 {
        Seq::empty()
    } else if s[0] == '_' {
        ascii_pascal_from(s.drop_first(), true)
    } else if at_start {
        seq![ascii_uppercase(s[0])] + ascii_pascal_from(s.drop_first(), false)
    } else {
        seq![s[0]] + ascii_pascal_from(s.drop_first(), false)
    }
}

/// A snake-case name in upper camel case: `simple_cli_strategy` becomes
/// `SimpleCliStrategy`.
pub fn to_pascal(s: &String) -> (r: String)
    ensures
        r@ == pascal_case(s@),
        is_ascii_text(s@) ==> r@ == ascii_pascal_from(s@, true),
{
    let n = char_len(s);
    let mut out = String::new();
    let mut at_start = true;
    let mut i: usize = 0;
    assert(s@.skip(0) =~= s@);
    while i < n
        invariant
            n == s@.len(),
            i <= n,
            pascal_case(s@) == out@ + pascal_from(s@.skip(i as int), at_start),
            is_ascii_text(s@) ==> ascii_pascal_from(s@, true) == out@ + ascii_pascal_from(
                s@.skip(i as int),
                at_start,
            ),
        decreases n - i,
    {
        let c = char_at(s, i);
        let ghost rest = s@.skip(i as int);
        assert(rest[0] == c);
        assert(rest.drop_first() =~= s@.skip(i + 1));
        let ghost before = out@;
        if c == '_' {
            at_start = true;
        } else if at_start {
            let upper = uppercase_of(c);
            out.append(upper.as_str());
            at_start = false;
            assert(before + (char_uppercase(c) + pascal_from(s@.skip(i + 1), false)) =~= out@
                + pascal_from(s@.skip(i + 1), false));
            proof {
                if is_ascii_text(s@) {
                    assert((s@[i as int] as u32) < 128);
                    assert(before + (seq![ascii_uppercase(c)] + ascii_pascal_from(
                        s@.skip(i + 1),
                        false,
                    )) =~= out@ + ascii_pascal_from(s@.skip(i + 1), false));
                }
            }
        } else {
            push_char(&mut out, c);
            assert(before + (seq![c] + pascal_from(s@.skip(i + 1), false)) =~= out@ + pascal_from(
                s@.skip(i + 1),
                false,
            ));
            assert(before + (seq![c] + ascii_pascal_from(s@.skip(i + 1), false)) =~= out@
                + ascii_pascal_from(s@.skip(i + 1), false));
        }
        i += 1;
    }
    assert(s@.skip(n as int) =~= Seq::<char>::empty());
    assert(out@ + Seq::<char>::empty() =~= out@);
    assert(out@ + ascii_pascal_from(Seq::<char>::empty(), at_start) =~= out@);
    out
}

/// The receiver of a function under `#[cli]`.
#[derive(Clone, Copy, Debug, PartialEq, Eq, Structural)]
pub enum CliReceiver {
    /// A free function: no `self`.
    NoReceiver,
    /// `&self`.
    SharedSelf,
    /// `self`, `&mut self` or another form of receiver.
    OtherSelf,
}

/// How the generated strategy's `execute` calls the function.
#[derive(Clone, Copy, Debug, PartialEq, Eq, Structural)]
pub enum CliCallForm {
    /// `fn name() -> Result<(), StrategyError>`: called with nothing.
    NoArguments,
    /// `fn name(&self, args: Vec<String>) -> Result<(), StrategyError>`:
    /// becomes the strategy's `execute` and receives the arguments.
    ExecuteShaped,
}

/// What `#[cli]` generates for a strategy function.
pub struct CliStrategyNames {
    /// The strategy type: the function's name in upper camel case.
    pub strategy_type: String,
    /// The factory function: the function's name followed by `_strategy`.
    pub factory_fn: String,
    /// How `execute` calls the function.
    pub call_form: CliCallForm,
}

pub open spec fn attribute_arguments_message() -> Seq<char> {
    "#[cli] does not take arguments"@
}

pub open spec fn function_arguments_message() -> Seq<char> {
    "cli strategy functions must not take arguments"@
}

pub open spec fn async_message() -> Seq<char> {
    "async functions are not supported"@
}

/// The shape of the signature, if `#[cli]` accepts it: no parameters at all,
/// or `&self` followed by one `Vec<String>` parameter (the shape of
/// `execute`).
pub open spec fn cli_call_form(receiver: CliReceiver, parameter_types: Seq<Seq<char>>) -> Option<
    CliCallForm,
> {
    if receiver == CliReceiver::NoReceiver && parameter_types.len() == 0 {
        Some(CliCallForm::NoArguments)
    } else if receiver == CliReceiver::SharedSelf && parameter_types.len() == 1
        && parameter_types[0] == "Vec<String>"@ {
        Some(CliCallForm::ExecuteShaped)
    } else {
        None
    }
}

/// Whether the signature is accepted, and how it is called.
fn call_form_of(receiver: CliReceiver, parameter_types: &Vec<String>) -> (r: Option<CliCallForm>)
    ensures
        r == cli_call_form(receiver, parameter_types.deep_view()),
{
    match receiver {
        CliReceiver::NoReceiver => if parameter_types.len() == 0 {
            Some(CliCallForm::NoArguments)
        } else {
            None
        },
        CliReceiver::SharedSelf => {
            if parameter_types.len() == 1 {
                let vec_of_strings = owned("Vec<String>");
                let same = same_text(&parameter_types[0], &vec_of_strings);
                assert(parameter_types.deep_view()[0] == parameter_types[0]@);
                if same {
                    return Some(CliCallForm::ExecuteShaped);
                }
            }
            None
        },
        CliReceiver::OtherSelf => None,
    }
}

/// What `#[cli]` does with a function: it rejects attribute arguments, then
/// a signature that is neither parameterless nor `execute`-shaped (`&self`
/// and one `Vec<String>`; `parameter_types` are the types of the parameters
/// after the receiver), then `async`; otherwise it names the strategy type
/// and its factory after the function.
pub fn cli_expansion(
    attribute_is_empty: bool,
    receiver: CliReceiver,
    parameter_types: &Vec<String>,
    is_async: bool,
    function_name: &String,
) -> (r: Result<CliStrategyNames, String>)
    ensures
        !attribute_is_empty ==> (r matches Err(m) && m@ == attribute_arguments_message()),
        attribute_is_empty && cli_call_form(receiver, parameter_types.deep_view()) is None ==> (
        r matches Err(m) && m@ == function_arguments_message()),
        attribute_is_empty && cli_call_form(receiver, parameter_types.deep_view()) is Some
            && is_async ==> (r matches Err(m) && m@ == async_message()),
        attribute_is_empty && !is_async ==> match cli_call_form(
            receiver,
            parameter_types.deep_view(),
        ) {
            Some(form) => r matches Ok(names) && names.strategy_type@ == pascal_case(
                function_name@,
            ) && (is_ascii_text(function_name@) ==> names.strategy_type@ == ascii_pascal_from(
                function_name@,
                true,
            )) && names.factory_fn@ == function_name@ + "_strategy"@ && names.call_form == form,
            None => true,
        },
{
    if !attribute_is_empty {
        return Err(owned("#[cli] does not take arguments"));
    }
    let form = match call_form_of(receiver, parameter_types) {
        Some(f) => f,
        None => {
            return Err(owned("cli strategy functions must not take arguments"));
        },
    };
    if is_async {
        return Err(owned("async functions are not supported"));
    }
    Ok(
        CliStrategyNames {
            strategy_type: to_pascal(function_name),
            factory_fn: join2(function_name.as_str(), "_strategy"),
            call_form: form,
        },
    )
}

} // verus!
