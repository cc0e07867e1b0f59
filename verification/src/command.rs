//! Command trees: commands, their strategies, subcommand routers, the
//! catalog of subcommands a command exposes, and the fluent builder.
use vstd::prelude::*;

use crate::metadata::{ArgumentDefinition, CommandMetaData, SwitchDefinition, named};
use crate::name_map::{NameMap, entry_keys, entry_values, insert_entry, lookup};
use crate::text::{
    copy_text, join_texts, joined, lemma_text_lt_asymmetric, lemma_text_lt_irreflexive,
    lemma_text_lt_total, lemma_text_lt_transitive, same_text, text_less, text_lt,
};

verus! {

/// How a command runs once it is selected.
///
/// `H` is the handler type of the application: a value that stands for the
/// code to run with the parsed switches, arguments and parameters.
pub enum Strategy<H> {
    /// Run this handler.
    Handler(H),
    /// Treat the first parameter as a subcommand and forward the rest to it.
    Router(SubcommandRouter<H>),
    /// Run the first strategy when there are no parameters, else route.
    Fallback(Box<Strategy<H>>, SubcommandRouter<H>),
    /// No handler and no subcommand were configured.
    Unconfigured,
}

/// Metadata + strategy pair for a single CLI command.
pub struct Command<H> {
    /// User-facing command metadata.
    pub metadata: CommandMetaData,
    /// How the command runs when it is selected.
    pub strategy: Strategy<H>,
}

/// Subcommands keyed by name, and aliases that lead to them.
pub struct SubcommandRouter<H> {
    children: NameMap<Command<H>>,
    aliases: NameMap<String>,
}

/// The values of a sequence of references.
pub open spec fn derefs<T>(s: Seq<&T>) -> Seq<T> {
    s.map_values(|x: &T| *x)
}

/// Whether `token` is the name or an alias of `c`.
pub open spec fn cmd_named<H>(c: Command<H>, token: Seq<char>) -> bool {
    named(c.metadata.name@, c.metadata.aliases.deep_view(), token)
}

/// The first command of `s` that `token` names.
pub open spec fn first_named<H>(s: Seq<Command<H>>, token: Seq<char>) -> Option<Command<H>>
    decreases s.len(),
{
    if s.len() == 0 {
        None
    } else if cmd_named(s[0], token) {
        Some(s[0])
    } else {
        first_named(s.drop_first(), token)
    }
}

/// Records each of `aliases`, in order, as leading to `owner`.
pub open spec fn insert_aliases(
    ps: Seq<(Seq<char>, String)>,
    aliases: Seq<Seq<char>>,
    owner: String,
) -> Seq<(Seq<char>, String)>
    decreases aliases.len(),
{
    if aliases.len() == 0 {
        ps
    } else {
        insert_entry(insert_aliases(ps, aliases.drop_last(), owner), aliases.last(), owner)
    }
}

/// The children table after registering `cmds` in order.
pub open spec fn children_after<H>(ps: Seq<(Seq<char>, Command<H>)>, cmds: Seq<Command<H>>) -> Seq<
    (Seq<char>, Command<H>),
>
    decreases cmds.len(),
{
    if cmds.len() == 0 {
        ps
    } else {
        insert_entry(children_after(ps, cmds.drop_last()), cmds.last().metadata.name@, cmds.last())
    }
}

/// The alias table after registering `cmds` in order.
pub open spec fn aliases_after<H>(ps: Seq<(Seq<char>, String)>, cmds: Seq<Command<H>>) -> Seq<
    (Seq<char>, String),
>
    decreases cmds.len(),
{
    if cmds.len() == 0 {
        ps
    } else {
        insert_aliases(
            aliases_after(ps, cmds.drop_last()),
            cmds.last().metadata.aliases.deep_view(),
            cmds.last().metadata.name,
        )
    }
}

/// What a router resolves `token` to: the child of that name, else the child
/// that the alias `token` leads to.
pub open spec fn router_lookup<H>(
    children: Seq<(Seq<char>, Command<H>)>,
    aliases: Seq<(Seq<char>, String)>,
    token: Seq<char>,
) -> Option<Command<H>> {
    match lookup(children, token) {
        Some(c) => Some(c),
        None => match lookup(aliases, token) {
            Some(canonical) => lookup(children, canonical@),
            None => None,
        },
    }
}

/// Puts `c` in a name-ordered catalog, replacing a command of the same name.
pub open spec fn catalog_put<H>(s: Seq<Command<H>>, c: Command<H>) -> Seq<Command<H>>
    decreases s.len(),
{
    if s.len() == 0 {
        seq![c]
    } else if s[0].metadata.name@ == c.metadata.name@ {
        seq![c] + s.drop_first()
    } else if text_lt(c.metadata.name@, s[0].metadata.name@) {
        seq![c] + s
    } else {
        seq![s[0]] + catalog_put(s.drop_first(), c)
    }
}

/// Whether some command of `s` has the name `name`.
pub open spec fn has_name<H>(s: Seq<Command<H>>, name: Seq<char>) -> bool {
    exists|i: int| 0 <= i < s.len() && (#[trigger] s[i]).metadata.name@ == name
}

/// Puts `c` in a name-ordered catalog unless a command of its name is there.
pub open spec fn catalog_add<H>(s: Seq<Command<H>>, c: Command<H>) -> Seq<Command<H>> {
    if has_name(s, c.metadata.name@) {
        s
    } else {
        catalog_put(s, c)
    }
}

/// `catalog_put` of each of `extra`, in order.
pub open spec fn catalog_put_all<H>(s: Seq<Command<H>>, extra: Seq<Command<H>>) -> Seq<Command<H>>
    decreases extra.len(),
{
    if extra.len() == 0 {
        s
    } else {
        catalog_put(catalog_put_all(s, extra.drop_last()), extra.last())
    }
}

/// `catalog_add` of each of `extra`, in order.
pub open spec fn catalog_add_all<H>(s: Seq<Command<H>>, extra: Seq<Command<H>>) -> Seq<Command<H>>
    decreases extra.len(),
{
    if extra.len() == 0 {
        s
    } else {
        catalog_add(catalog_add_all(s, extra.drop_last()), extra.last())
    }
}

/// The direct subcommands a strategy exposes, ordered by name, if it routes
/// at all. A fallback strategy exposes its router's subcommands and, for the
/// names the router lacks, those of its first strategy.
pub open spec fn strategy_catalog<H>(s: Strategy<H>) -> Option<Seq<Command<H>>>
    decreases s, 0nat,
{
    match s {
        Strategy::Router(r) => Some(entry_values(r.child_pairs())),
        Strategy::Fallback(p, r) => Some(
            catalog_add_all(
                catalog_put_all(Seq::empty(), entry_values(r.child_pairs())),
                catalog_or_empty(*p),
            ),
        ),
        _ => None,
    }
}

/// The catalog of a strategy, empty where it does not route.
pub open spec fn catalog_or_empty<H>(s: Strategy<H>) -> Seq<Command<H>>
    decreases s, 1nat,
{
    match strategy_catalog(s) {
        Some(c) => c,
        None => Seq::empty(),
    }
}

/// The subcommand of `cmd` that `token` names: the first command of its
/// catalog whose name or alias is `token`.
pub open spec fn resolve_sub<H>(cmd: Command<H>, token: Seq<char>) -> Option<Command<H>> {
    match strategy_catalog(cmd.strategy) {
        Some(cat) => first_named(cat, token),
        None => None,
    }
}

/// The text that lists a router's subcommand names.
pub open spec fn available_text<H>(children: Seq<(Seq<char>, Command<H>)>) -> Seq<char> {
    joined(entry_keys(children), ", "@)
}

impl<H> SubcommandRouter<H> {
    /// The subcommands, keyed by the names they were registered under.
    pub closed spec fn child_pairs(&self) -> Seq<(Seq<char>, Command<H>)> {
        self.children.pairs()
    }

    /// The aliases, each with the name it leads to.
    pub closed spec fn alias_pairs(&self) -> Seq<(Seq<char>, String)> {
        self.aliases.pairs()
    }

    /// Each subcommand is part of the router.
    pub proof fn lemma_child_smaller(&self, i: int)
        requires
            0 <= i < self.child_pairs().len(),
        ensures
            decreases_to!(self => self.child_pairs()[i].1),
    {
        self.children.lemma_value_smaller(i);
    }

    /// Creates an empty router.
    pub fn new() -> (r: Self)
        ensures
            r.child_pairs() == Seq::<(Seq<char>, Command<H>)>::empty(),
            r.alias_pairs() == Seq::<(Seq<char>, String)>::empty(),
    {
        SubcommandRouter { children: NameMap::new(), aliases: NameMap::new() }
    }

    /// Registers a subcommand and returns the router.
    pub fn register(self, command: Command<H>) -> (r: Self)
        ensures
            r.child_pairs() == insert_entry(self.child_pairs(), command.metadata.name@, command),
            r.alias_pairs() == insert_aliases(
                self.alias_pairs(),
                command.metadata.aliases.deep_view(),
                command.metadata.name,
            ),
    {
        let mut r = self;
        r.register_mut(command);
        r
    }

    /// Registers a subcommand in place: its aliases lead to its name, and it
    /// replaces an earlier subcommand of the same name.
    pub fn register_mut(&mut self, command: Command<H>)
        ensures
            final(self).child_pairs() == insert_entry(
                old(self).child_pairs(),
                command.metadata.name@,
                command,
            ),
            final(self).alias_pairs() == insert_aliases(
                old(self).alias_pairs(),
                command.metadata.aliases.deep_view(),
                command.metadata.name,
            ),
    {
        let ghost aliases = command.metadata.aliases.deep_view();
        let ghost start = self.aliases.pairs();
        let mut i: usize = 0;
        while i < command.metadata.aliases.len()
            invariant
                i <= command.metadata.aliases@.len(),
                aliases == command.metadata.aliases.deep_view(),
                self.children.pairs() == old(self).children.pairs(),
                self.aliases.pairs() == insert_aliases(
                    start,
                    aliases.take(i as int),
                    command.metadata.name,
                ),
            decreases command.metadata.aliases@.len() - i,
        {
            let alias = copy_text(&command.metadata.aliases[i]);
            let owner = command.metadata.name.clone();
            self.aliases.insert(alias, owner);
            proof {
                assert(aliases.take(i + 1).drop_last() =~= aliases.take(i as int));
            }
            i += 1;
        }
        proof {
            assert(aliases.take(i as int) =~= aliases);
        }
        let name = copy_text(&command.metadata.name);
        self.children.insert(name, command);
    }

    /// The subcommand named `token`, else the one the alias `token` leads to.
    pub fn resolve(&self, token: &String) -> (r: Option<&Command<H>>)
        ensures
            match r {
                Some(c) => router_lookup(self.child_pairs(), self.alias_pairs(), token@) == Some(*c),
                None => router_lookup(self.child_pairs(), self.alias_pairs(), token@) is None,
            },
    {
        match self.children.get(token) {
            Some(c) => Some(c),
            None => match self.aliases.get(token) {
                Some(canonical) => self.children.get(canonical),
                None => None,
            },
        }
    }

    /// The subcommand names, joined by `, `.
    pub fn available_subcommands(&self) -> (r: String)
        ensures
            r@ == available_text(self.child_pairs()),
    {
        let keys = self.children.keys();
        join_texts(&keys, ", ")
    }

    /// The subcommands, in name order.
    pub fn subcommands<'a>(&'a self) -> (r: Vec<&'a Command<H>>)
        ensures
            derefs(r@) == entry_values(self.child_pairs()),
    {
        let r = self.children.values();
        assert(derefs(r@) =~= entry_values(self.child_pairs()));
        r
    }
}

proof fn lemma_catalog_put_skips<H>(s: Seq<Command<H>>, c: Command<H>, i: int)
    requires
        0 <= i <= s.len(),
        forall|j: int| 0 <= j < i ==> text_lt(#[trigger] s[j].metadata.name@, c.metadata.name@),
    ensures
        catalog_put(s, c) == s.take(i) + catalog_put(s.skip(i), c),
    decreases i,
{
    if i == 0 {
        assert(s.skip(0) =~= s);
        assert(s.take(0) + catalog_put(s, c) =~= catalog_put(s, c));
    } else {
        lemma_text_lt_irreflexive(c.metadata.name@);
        lemma_text_lt_asymmetric(s[0].metadata.name@, c.metadata.name@);
        let tail = s.drop_first();
        assert forall|j: int| 0 <= j < i - 1 implies text_lt(
            #[trigger] tail[j].metadata.name@,
            c.metadata.name@,
        ) by {
            assert(tail[j] == s[j + 1]);
        }
        lemma_catalog_put_skips(tail, c, i - 1);
        assert(tail.skip(i - 1) =~= s.skip(i));
        assert(seq![s[0]] + (tail.take(i - 1) + catalog_put(s.skip(i), c)) =~= s.take(i)
            + catalog_put(s.skip(i), c));
    }
}

/// Puts `c` in the name-ordered catalog `v`, replacing a command of the same name.
fn catalog_put_ref<'a, H>(v: &mut Vec<&'a Command<H>>, c: &'a Command<H>)
    ensures
        derefs(final(v)@) == catalog_put(derefs(old(v)@), *c),
{
    let ghost s = derefs(v@);
    let mut i: usize = 0;
    while i < v.len() && text_less(&v[i].metadata.name, &c.metadata.name)
        invariant
            i <= v@.len(),
            s == derefs(v@),
            forall|j: int| 0 <= j < i ==> text_lt(#[trigger] s[j].metadata.name@, c.metadata.name@),
        decreases v@.len() - i,
    {
        i += 1;
    }
    proof {
        lemma_catalog_put_skips(s, *c, i as int);
    }
    if i < v.len() && same_text(&v[i].metadata.name, &c.metadata.name) {
        v.set(i, c);
        proof {
            let rest = s.skip(i as int);
            assert(rest[0] == s[i as int]);
            assert(rest.drop_first() =~= s.skip(i + 1));
            assert(derefs(v@) =~= s.take(i as int) + catalog_put(rest, *c));
        }
    } else {
        v.insert(i, c);
        proof {
            let rest = s.skip(i as int);
            if i < s.len() {
                assert(rest[0] == s[i as int]);
                lemma_text_lt_total(c.metadata.name@, rest[0].metadata.name@);
            }
            assert(derefs(v@) =~= s.take(i as int) + catalog_put(rest, *c));
        }
    }
}

/// Puts `c` in the name-ordered catalog `v` unless a command of its name is there.
fn catalog_add_ref<'a, H>(v: &mut Vec<&'a Command<H>>, c: &'a Command<H>)
    ensures
        derefs(final(v)@) == catalog_add(derefs(old(v)@), *c),
{
    let ghost s = derefs(v@);
    let mut i: usize = 0;
    while i < v.len()
        invariant
            i <= v@.len(),
            s == derefs(v@),
            forall|j: int| 0 <= j < i ==> (#[trigger] s[j]).metadata.name@ != c.metadata.name@,
        decreases v@.len() - i,
    {
        if same_text(&v[i].metadata.name, &c.metadata.name) {
            assert(s[i as int].metadata.name@ == c.metadata.name@);
            return;
        }
        i += 1;
    }
    catalog_put_ref(v, c);
}

/// The direct subcommands a strategy exposes, ordered by name, if it routes.
fn strategy_subcommands<'a, H>(s: &'a Strategy<H>) -> (r: Option<Vec<&'a Command<H>>>)
    ensures
        match strategy_catalog(*s) {
            Some(cat) => r matches Some(v) && derefs(v@) == cat,
            None => r is None,
        },
    decreases s,
{
    match s {
        Strategy::Router(router) => Some(router.subcommands()),
        Strategy::Fallback(primary, router) => {
            let own = router.subcommands();
            let ghost own_cat = entry_values(router.child_pairs());
            let mut merged: Vec<&'a Command<H>> = Vec::new();
            let mut i: usize = 0;
            while i < own.len()
                invariant
                    i <= own@.len(),
                    derefs(own@) == own_cat,
                    derefs(merged@) == catalog_put_all(Seq::empty(), own_cat.take(i as int)),
                decreases own@.len() - i,
            {
                catalog_put_ref(&mut merged, own[i]);
                proof {
                    assert(own_cat.take(i + 1).drop_last() =~= own_cat.take(i as int));
                    assert(own_cat.take(i + 1).last() == *own@[i as int]);
                }
                i += 1;
            }
            proof {
                assert(own_cat.take(i as int) =~= own_cat);
            }
            let ghost base = derefs(merged@);
            let inner = strategy_subcommands(&**primary);
            let ghost extra = catalog_or_empty(**primary);
            match inner {
                Some(more) => {
                    let mut j: usize = 0;
                    while j < more.len()
                        invariant
                            j <= more@.len(),
                            derefs(more@) == extra,
                            derefs(merged@) == catalog_add_all(base, extra.take(j as int)),
                        decreases more@.len() - j,
                    {
                        catalog_add_ref(&mut merged, more[j]);
                        proof {
                            assert(extra.take(j + 1).drop_last() =~= extra.take(j as int));
                            assert(extra.take(j + 1).last() == *more@[j as int]);
                        }
                        j += 1;
                    }
                    proof {
                        assert(extra.take(j as int) =~= extra);
                    }
                },
                None => {
                    assert(extra.len() == 0);
                },
            }
            Some(merged)
        },
        _ => None,
    }
}

/// Whether `token` is the name or an alias of `c`.
pub fn names_command<H>(c: &Command<H>, token: &String) -> (r: bool)
    ensures
        r == cmd_named(*c, token@),
{
    if same_text(&c.metadata.name, token) {
        return true;
    }
    let ghost aliases = c.metadata.aliases.deep_view();
    let mut i: usize = 0;
    while i < c.metadata.aliases.len()
        invariant
            i <= c.metadata.aliases@.len(),
            aliases == c.metadata.aliases.deep_view(),
            c.metadata.name@ != token@,
            forall|j: int| 0 <= j < i ==> aliases[j] != token@,
        decreases c.metadata.aliases@.len() - i,
    {
        if same_text(&c.metadata.aliases[i], token) {
            assert(aliases[i as int] == token@);
            return true;
        }
        i += 1;
    }
    false
}

/// The first command of `cands` that `token` names.
pub fn find_named<'a, H>(cands: &Vec<&'a Command<H>>, token: &String) -> (r: Option<&'a Command<H>>)
    ensures
        match r {
            Some(c) => first_named(derefs(cands@), token@) == Some(*c),
            None => first_named(derefs(cands@), token@) is None,
        },
{
    let ghost s = derefs(cands@);
    let mut i: usize = 0;
    assert(s.skip(0) =~= s);
    while i < cands.len()
        invariant
            i <= cands@.len(),
            s == derefs(cands@),
            first_named(s, token@) == first_named(s.skip(i as int), token@),
        decreases cands@.len() - i,
    {
        assert(s.skip(i as int)[0] == s[i as int]);
        if names_command(cands[i], token) {
            return Some(cands[i]);
        }
        assert(s.skip(i as int).drop_first() =~= s.skip(i + 1));
        i += 1;
    }
    None
}

impl<H> Command<H> {
    /// Creates a command from a name, a description and a strategy.
    pub fn new(name: &str, description: &str, strategy: Strategy<H>) -> (r: Self)
        ensures
            r.metadata.name@ == name@,
            r.metadata.description@ == description@,
            r.metadata.usage is None,
            r.metadata.long_description is None,
            r.metadata.examples@.len() == 0,
            r.metadata.options@.len() == 0,
            r.metadata.arguments@.len() == 0,
            r.metadata.aliases@.len() == 0,
            r.strategy == strategy,
    {
        Command { metadata: CommandMetaData::new(name, description), strategy }
    }

    /// Creates a fluent command builder.
    pub fn builder(name: &str, description: &str) -> (r: CommandBuilder<H>)
        ensures
            r.meta().name@ == name@,
            r.meta().description@ == description@,
            r.meta().usage is None,
            r.meta().long_description is None,
            r.meta().examples@.len() == 0,
            r.meta().options@.len() == 0,
            r.meta().arguments@.len() == 0,
            r.meta().aliases@.len() == 0,
            r.strat() is None,
            r.subs().len() == 0,
    {
        CommandBuilder::new(name, description)
    }

    /// The direct subcommands this command exposes, ordered by name, if its
    /// strategy routes.
    pub fn subcommand_catalog<'a>(&'a self) -> (r: Option<Vec<&'a Command<H>>>)
        ensures
            match strategy_catalog(self.strategy) {
                Some(cat) => r matches Some(v) && derefs(v@) == cat,
                None => r is None,
            },
    {
        strategy_subcommands(&self.strategy)
    }

    /// The subcommand that `token` names, if any.
    pub fn resolve_subcommand<'a>(&'a self, token: &String) -> (r: Option<&'a Command<H>>)
        ensures
            match r {
                Some(c) => resolve_sub(*self, token@) == Some(*c),
                None => resolve_sub(*self, token@) is None,
            },
    {
        match self.subcommand_catalog() {
            Some(cat) => find_named(&cat, token),
            None => None,
        }
    }
}

/// Creates a fluent command builder.
pub fn command<H>(name: &str, description: &str) -> (r: CommandBuilder<H>)
    ensures
        r.meta().name@ == name@,
        r.meta().description@ == description@,
        r.meta().usage is None,
        r.meta().long_description is None,
        r.meta().examples@.len() == 0,
        r.meta().options@.len() == 0,
        r.meta().arguments@.len() == 0,
        r.meta().aliases@.len() == 0,
        r.strat() is None,
        r.subs().len() == 0,
{
    CommandBuilder::new(name, description)
}

/// Fluent command builder.
pub struct CommandBuilder<H> {
    metadata: CommandMetaData,
    strategy: Option<Strategy<H>>,
    subcommands: Vec<Command<H>>,
}

impl<H> CommandBuilder<H> {
    /// The metadata so far.
    pub closed spec fn meta(&self) -> CommandMetaData {
        self.metadata
    }

    /// The strategy set so far.
    pub closed spec fn strat(&self) -> Option<Strategy<H>> {
        self.strategy
    }

    /// The subcommands added so far, in order.
    pub closed spec fn subs(&self) -> Seq<Command<H>> {
        self.subcommands@
    }

    /// Creates a builder with a name and description.
    pub fn new(name: &str, description: &str) -> (r: Self)
        ensures
            r.meta().name@ == name@,
            r.meta().description@ == description@,
            r.meta().usage is None,
            r.meta().long_description is None,
            r.meta().examples@.len() == 0,
            r.meta().options@.len() == 0,
            r.meta().arguments@.len() == 0,
            r.meta().aliases@.len() == 0,
            r.strat() is None,
            r.subs().len() == 0,
    {
        CommandBuilder {
            metadata: CommandMetaData::new(name, description),
            strategy: None,
            subcommands: Vec::new(),
        }
    }

    /// Sets the strategy.
    pub fn handler(self, strategy: Strategy<H>) -> (r: Self)
        ensures
            r.meta() == self.meta(),
            r.strat() == Some(strategy),
            r.subs() == self.subs(),
    {
        CommandBuilder { strategy: Some(strategy), ..self }
    }

    /// Adds a subcommand.
    pub fn subcommand(self, subcommand: Command<H>) -> (r: Self)
        ensures
            r.meta() == self.meta(),
            r.strat() == self.strat(),
            r.subs() == self.subs().push(subcommand),
    {
        let mut subcommands = self.subcommands;
        subcommands.push(subcommand);
        CommandBuilder { metadata: self.metadata, strategy: self.strategy, subcommands }
    }

    /// Sets explicit usage text for help rendering.
    pub fn with_usage(self, usage: &str) -> (r: Self)
        ensures
            r.meta().usage matches Some(u) && u@ == usage@,
            r.meta().name == self.meta().name,
            r.meta().description == self.meta().description,
            r.meta().long_description == self.meta().long_description,
            r.meta().examples == self.meta().examples,
            r.meta().options == self.meta().options,
            r.meta().arguments == self.meta().arguments,
            r.meta().aliases == self.meta().aliases,
            r.strat() == self.strat(),
            r.subs() == self.subs(),
    {
        CommandBuilder { metadata: self.metadata.with_usage(usage), ..self }
    }

    /// Sets detailed long-form description for help rendering.
    pub fn with_long_description(self, long_description: &str) -> (r: Self)
        ensures
            r.meta().long_description matches Some(d) && d@ == long_description@,
            r.meta().name == self.meta().name,
            r.meta().description == self.meta().description,
            r.meta().usage == self.meta().usage,
            r.meta().examples == self.meta().examples,
            r.meta().options == self.meta().options,
            r.meta().arguments == self.meta().arguments,
            r.meta().aliases == self.meta().aliases,
            r.strat() == self.strat(),
            r.subs() == self.subs(),
    {
        CommandBuilder { metadata: self.metadata.with_long_description(long_description), ..self }
    }

    /// Replaces the example entries.
    pub fn with_examples(self, examples: Vec<String>) -> (r: Self)
        ensures
            r.meta().examples == examples,
            r.meta().name == self.meta().name,
            r.meta().description == self.meta().description,
            r.meta().usage == self.meta().usage,
            r.meta().long_description == self.meta().long_description,
            r.meta().options == self.meta().options,
            r.meta().arguments == self.meta().arguments,
            r.meta().aliases == self.meta().aliases,
            r.strat() == self.strat(),
            r.subs() == self.subs(),
    {
        CommandBuilder { metadata: self.metadata.with_examples(examples), ..self }
    }

    /// Replaces the switch declarations.
    pub fn with_options(self, options: Vec<SwitchDefinition>) -> (r: Self)
        ensures
            r.meta().options == options,
            r.meta().name == self.meta().name,
            r.meta().description == self.meta().description,
            r.meta().usage == self.meta().usage,
            r.meta().long_description == self.meta().long_description,
            r.meta().examples == self.meta().examples,
            r.meta().arguments == self.meta().arguments,
            r.meta().aliases == self.meta().aliases,
            r.strat() == self.strat(),
            r.subs() == self.subs(),
    {
        CommandBuilder { metadata: self.metadata.with_options(options), ..self }
    }

    /// Replaces the argument declarations.
    pub fn with_arguments(self, arguments: Vec<ArgumentDefinition>) -> (r: Self)
        ensures
            r.meta().arguments == arguments,
            r.meta().name == self.meta().name,
            r.meta().description == self.meta().description,
            r.meta().usage == self.meta().usage,
            r.meta().long_description == self.meta().long_description,
            r.meta().examples == self.meta().examples,
            r.meta().options == self.meta().options,
            r.meta().aliases == self.meta().aliases,
            r.strat() == self.strat(),
            r.subs() == self.subs(),
    {
        CommandBuilder { metadata: self.metadata.with_arguments(arguments), ..self }
    }

    /// Replaces the aliases.
    pub fn with_aliases(self, aliases: Vec<String>) -> (r: Self)
        ensures
            r.meta().aliases == aliases,
            r.meta().name == self.meta().name,
            r.meta().description == self.meta().description,
            r.meta().usage == self.meta().usage,
            r.meta().long_description == self.meta().long_description,
            r.meta().examples == self.meta().examples,
            r.meta().options == self.meta().options,
            r.meta().arguments == self.meta().arguments,
            r.strat() == self.strat(),
            r.subs() == self.subs(),
    {
        CommandBuilder { metadata: self.metadata.with_aliases(aliases), ..self }
    }

    /// Builds the command. Without subcommands it runs the strategy set (or
    /// none: `Unconfigured`); with subcommands they go into a router, which
    /// the strategy set, if any, falls back from.
    pub fn build(self) -> (r: Command<H>)
        ensures
            r.metadata == self.meta(),
            self.subs().len() == 0 ==> r.strategy == match self.strat() {
                Some(s) => s,
                None => Strategy::Unconfigured,
            },
            self.subs().len() > 0 ==> match r.strategy {
                Strategy::Router(router) => {
                    &&& self.strat() is None
                    &&& router.child_pairs() == children_after(Seq::empty(), self.subs())
                    &&& router.alias_pairs() == aliases_after(Seq::empty(), self.subs())
                },
                Strategy::Fallback(primary, router) => {
                    &&& self.strat() == Some(*primary)
                    &&& router.child_pairs() == children_after(Seq::empty(), self.subs())
                    &&& router.alias_pairs() == aliases_after(Seq::empty(), self.subs())
                },
                _ => false,
            },
    {
        let ghost subs = self.subcommands@;
        if self.subcommands.len() == 0 {
            let strategy = match self.strategy {
                Some(s) => s,
                None => Strategy::Unconfigured,
            };
            return Command { metadata: self.metadata, strategy };
        }
        let mut router = SubcommandRouter::new();
        let mut rest = self.subcommands;
        let mut i: usize = 0;
        while rest.len() > 0
            invariant
                subs.len() <= usize::MAX,
                i + rest@.len() == subs.len(),
                rest@ == subs.skip(i as int),
                router.child_pairs() == children_after(Seq::empty(), subs.take(i as int)),
                router.alias_pairs() == aliases_after(Seq::empty(), subs.take(i as int)),
            decreases rest@.len(),
        {
            let c = rest.remove(0);
            proof {
                assert(subs.take(i + 1).drop_last() =~= subs.take(i as int));
                assert(subs.take(i + 1).last() == c);
                assert(rest@ =~= subs.skip(i + 1));
            }
            router.register_mut(c);
            i += 1;
        }
        proof {
            assert(subs.take(i as int) =~= subs);
        }
        let strategy = match self.strategy {
            Some(primary) => Strategy::Fallback(Box::new(primary), router),
            None => Strategy::Router(router),
        };
        Command { metadata: self.metadata, strategy }
    }
}


proof fn lemma_catalog_put_members<H>(s: Seq<Command<H>>, c: Command<H>, x: Command<H>)
    requires
        catalog_put(s, c).contains(x),
    ensures
        x == c || s.contains(x),
    decreases s.len(),
{
    let r = catalog_put(s, c);
    let i = choose|i: int| 0 <= i < r.len() && r[i] == x;
    if s.len() == 0 {
    } else if s[0].metadata.name@ == c.metadata.name@ {
        if i > 0 {
            assert(s[i] == x);
        }
    } else if text_lt(c.metadata.name@, s[0].metadata.name@) {
        if i > 0 {
            assert(s[i - 1] == x);
        }
    } else {
        if i == 0 {
            assert(s[0] == x);
        } else {
            let t = s.drop_first();
            assert(catalog_put(t, c)[i - 1] == x);
            lemma_catalog_put_members(t, c, x);
            if x != c {
                let j = choose|j: int| 0 <= j < t.len() && t[j] == x;
                assert(s[j + 1] == x);
            }
        }
    }
}

proof fn lemma_catalog_put_all_members<H>(s: Seq<Command<H>>, extra: Seq<Command<H>>, x: Command<H>)
    requires
        catalog_put_all(s, extra).contains(x),
    ensures
        s.contains(x) || extra.contains(x),
    decreases extra.len(),
{
    if extra.len() > 0 {
        let rest = extra.drop_last();
        lemma_catalog_put_members(catalog_put_all(s, rest), extra.last(), x);
        if x != extra.last() {
            lemma_catalog_put_all_members(s, rest, x);
            if rest.contains(x) {
                let j = choose|j: int| 0 <= j < rest.len() && rest[j] == x;
                assert(extra[j] == x);
            }
        }
    }
}

proof fn lemma_catalog_add_all_members<H>(s: Seq<Command<H>>, extra: Seq<Command<H>>, x: Command<H>)
    requires
        catalog_add_all(s, extra).contains(x),
    ensures
        s.contains(x) || extra.contains(x),
    decreases extra.len(),
{
    if extra.len() > 0 {
        let rest = extra.drop_last();
        let before = catalog_add_all(s, rest);
        if !has_name(before, extra.last().metadata.name@) {
            lemma_catalog_put_members(before, extra.last(), x);
        }
        if x != extra.last() {
            lemma_catalog_add_all_members(s, rest, x);
            if rest.contains(x) {
                let j = choose|j: int| 0 <= j < rest.len() && rest[j] == x;
                assert(extra[j] == x);
            }
        }
    }
}

/// Each command of a strategy's catalog is part of the strategy.
pub proof fn lemma_catalog_smaller<H>(s: Strategy<H>, x: Command<H>)
    requires
        strategy_catalog(s) matches Some(cat) && cat.contains(x),
    ensures
        decreases_to!(s => x),
    decreases s,
{
    match s {
        Strategy::Router(r) => {
            let cat = entry_values(r.child_pairs());
            let i = choose|i: int| 0 <= i < cat.len() && cat[i] == x;
            r.lemma_child_smaller(i);
        },
        Strategy::Fallback(p, r) => {
            let own = entry_values(r.child_pairs());
            let extra = catalog_or_empty(*p);
            let base = catalog_put_all(Seq::empty(), own);
            lemma_catalog_add_all_members(base, extra, x);
            if base.contains(x) {
                lemma_catalog_put_all_members(Seq::empty(), own, x);
                let i = choose|i: int| 0 <= i < own.len() && own[i] == x;
                r.lemma_child_smaller(i);
            } else {
                lemma_catalog_smaller(*p, x);
            }
        },
        _ => {},
    }
}


/// The names strictly increase: no name occurs twice.
pub open spec fn names_sorted<H>(s: Seq<Command<H>>) -> bool {
    forall|i: int, j: int|
        0 <= i < j < s.len() ==> text_lt(
            (#[trigger] s[i]).metadata.name@,
            (#[trigger] s[j]).metadata.name@,
        )
}

proof fn lemma_catalog_put_sorted<H>(s: Seq<Command<H>>, c: Command<H>)
    requires
        names_sorted(s),
    ensures
        names_sorted(catalog_put(s, c)),
        catalog_put(s, c).contains(c),
        !has_name(s, c.metadata.name@) ==> forall|i: int|
            0 <= i < s.len() ==> catalog_put(s, c).contains(#[trigger] s[i]),
    decreases s.len(),
{
    let r = catalog_put(s, c);
    let n = c.metadata.name@;
    if s.len() == 0 {
        assert(r[0] == c);
    } else if s[0].metadata.name@ == n {
        assert(r[0] == c);
        assert(has_name(s, n));
        assert forall|i: int, j: int| 0 <= i < j < r.len() implies text_lt(
            (#[trigger] r[i]).metadata.name@,
            (#[trigger] r[j]).metadata.name@,
        ) by {
            assert(r[j] == s[j]);
            if i > 0 {
                assert(r[i] == s[i]);
            }
        }
    } else if text_lt(n, s[0].metadata.name@) {
        assert(r[0] == c);
        assert forall|i: int, j: int| 0 <= i < j < r.len() implies text_lt(
            (#[trigger] r[i]).metadata.name@,
            (#[trigger] r[j]).metadata.name@,
        ) by {
            assert(r[j] == s[j - 1]);
            if i > 0 {
                assert(r[i] == s[i - 1]);
            } else if j > 1 {
                lemma_text_lt_transitive(n, s[0].metadata.name@, s[j - 1].metadata.name@);
            }
        }
        assert forall|i: int| 0 <= i < s.len() implies r.contains(#[trigger] s[i]) by {
            assert(r[i + 1] == s[i]);
        }
    } else {
        let t = s.drop_first();
        assert forall|i: int, j: int| 0 <= i < j < t.len() implies text_lt(
            (#[trigger] t[i]).metadata.name@,
            (#[trigger] t[j]).metadata.name@,
        ) by {
            assert(t[i] == s[i + 1]);
            assert(t[j] == s[j + 1]);
        }
        lemma_catalog_put_sorted(t, c);
        let rt = catalog_put(t, c);
        assert(r =~= seq![s[0]] + rt);
        lemma_text_lt_total(n, s[0].metadata.name@);
        assert forall|j: int| 0 <= j < rt.len() implies text_lt(
            s[0].metadata.name@,
            (#[trigger] rt[j]).metadata.name@,
        ) by {
            assert(rt.contains(rt[j]));
            lemma_catalog_put_members(t, c, rt[j]);
            if rt[j] != c {
                let k = choose|k: int| 0 <= k < t.len() && t[k] == rt[j];
                assert(t[k] == s[k + 1]);
            }
        }
        assert forall|i: int, j: int| 0 <= i < j < r.len() implies text_lt(
            (#[trigger] r[i]).metadata.name@,
            (#[trigger] r[j]).metadata.name@,
        ) by {
            assert(r[j] == rt[j - 1]);
            if i > 0 {
                assert(r[i] == rt[i - 1]);
            }
        }
        let k = choose|k: int| 0 <= k < rt.len() && rt[k] == c;
        assert(r[k + 1] == c);
        if !has_name(s, n) {
            assert(!has_name(t, n)) by {
                if has_name(t, n) {
                    let k = choose|k: int| 0 <= k < t.len() && (#[trigger] t[k]).metadata.name@ == n;
                    assert(s[k + 1] == t[k]);
                }
            }
            assert forall|i: int| 0 <= i < s.len() implies r.contains(#[trigger] s[i]) by {
                if i == 0 {
                    assert(r[0] == s[0]);
                } else {
                    assert(t[i - 1] == s[i]);
                    assert(rt.contains(t[i - 1]));
                    let k = choose|k: int| 0 <= k < rt.len() && rt[k] == t[i - 1];
                    assert(r[k + 1] == s[i]);
                }
            }
        }
    }
}

proof fn lemma_has_name_after_put<H>(s: Seq<Command<H>>, c: Command<H>, name: Seq<char>)
    requires
        has_name(s, name) || name == c.metadata.name@,
        names_sorted(s),
    ensures
        exists|i: int| 0 <= i < catalog_put(s, c).len() && (#[trigger] catalog_put(s, c)[i]).metadata.name@ == name && (
        catalog_put(s, c)[i] == c || s.contains(catalog_put(s, c)[i])),
{
    lemma_catalog_put_sorted(s, c);
    let r = catalog_put(s, c);
    if name == c.metadata.name@ {
        let k = choose|k: int| 0 <= k < r.len() && r[k] == c;
        assert(r[k].metadata.name@ == name);
    } else {
        let k = choose|k: int| 0 <= k < s.len() && (#[trigger] s[k]).metadata.name@ == name;
        if !has_name(s, c.metadata.name@) {
            assert(r.contains(s[k]));
            let j = choose|j: int| 0 <= j < r.len() && r[j] == s[k];
            assert(r[j].metadata.name@ == name);
        } else {
            lemma_put_replaces_only_same_name(s, c, k);
        }
    }
}

proof fn lemma_put_replaces_only_same_name<H>(s: Seq<Command<H>>, c: Command<H>, k: int)
    requires
        0 <= k < s.len(),
        s[k].metadata.name@ != c.metadata.name@,
    ensures
        catalog_put(s, c).contains(s[k]),
    decreases s.len(),
{
    let r = catalog_put(s, c);
    if s[0].metadata.name@ == c.metadata.name@ {
        assert(r[k] == s[k]);
    } else if text_lt(c.metadata.name@, s[0].metadata.name@) {
        assert(r[k + 1] == s[k]);
    } else if k == 0 {
        assert(r[0] == s[0]);
    } else {
        let t = s.drop_first();
        assert(t[k - 1] == s[k]);
        lemma_put_replaces_only_same_name(t, c, k - 1);
        let j = choose|j: int| 0 <= j < catalog_put(t, c).len() && catalog_put(t, c)[j] == s[k];
        assert(r[j + 1] == s[k]);
    }
}

proof fn lemma_put_all_sorted<H>(s: Seq<Command<H>>, extra: Seq<Command<H>>)
    requires
        names_sorted(s),
    ensures
        names_sorted(catalog_put_all(s, extra)),
        forall|x: Command<H>| #[trigger] catalog_put_all(s, extra).contains(x) ==> s.contains(x) || extra.contains(x),
        forall|i: int|
            0 <= i < extra.len() ==> exists|j: int|
                0 <= j < catalog_put_all(s, extra).len() && (#[trigger] catalog_put_all(s, extra)[j]).metadata.name@
                    == (#[trigger] extra[i]).metadata.name@ && (s.contains(catalog_put_all(s, extra)[j]) || extra.contains(catalog_put_all(s, extra)[j])),
    decreases extra.len(),
{
    if extra.len() > 0 {
        let rest = extra.drop_last();
        let c = extra.last();
        lemma_put_all_sorted(s, rest);
        let before = catalog_put_all(s, rest);
        lemma_catalog_put_sorted(before, c);
        let r = catalog_put_all(s, extra);
        assert forall|x: Command<H>| #[trigger] r.contains(x) implies s.contains(x) || extra.contains(x) by {
            lemma_catalog_put_members(before, c, x);
            if x != c {
                if rest.contains(x) {
                    let k = choose|k: int| 0 <= k < rest.len() && rest[k] == x;
                    assert(extra[k] == x);
                }
            } else {
                assert(extra[extra.len() - 1] == x);
            }
        }
        assert forall|i: int| 0 <= i < extra.len() implies exists|j: int|
            0 <= j < r.len() && (#[trigger] r[j]).metadata.name@ == (#[trigger] extra[i]).metadata.name@ && (s.contains(r[j]) || extra.contains(r[j])) by {
            let name = extra[i].metadata.name@;
            if i < extra.len() - 1 {
                assert(rest[i] == extra[i]);
                let j0 = choose|j: int| 0 <= j < before.len() && (#[trigger] before[j]).metadata.name@ == rest[i].metadata.name@ && (s.contains(before[j]) || rest.contains(before[j]));
                assert(has_name(before, name));
            }
            lemma_has_name_after_put(before, c, name);
            let j = choose|j: int| 0 <= j < r.len() && (#[trigger] r[j]).metadata.name@ == name && (r[j] == c || before.contains(r[j]));
            assert(r.contains(r[j]));
        }
    }
}

proof fn lemma_add_all_keeps<H>(s: Seq<Command<H>>, extra: Seq<Command<H>>)
    requires
        names_sorted(s),
    ensures
        names_sorted(catalog_add_all(s, extra)),
        forall|x: Command<H>| s.contains(x) ==> #[trigger] catalog_add_all(s, extra).contains(x),
        forall|x: Command<H>| #[trigger] catalog_add_all(s, extra).contains(x) ==> s.contains(x) || extra.contains(x),
    decreases extra.len(),
{
    if extra.len() > 0 {
        let rest = extra.drop_last();
        let c = extra.last();
        lemma_add_all_keeps(s, rest);
        let before = catalog_add_all(s, rest);
        let r = catalog_add_all(s, extra);
        if !has_name(before, c.metadata.name@) {
            lemma_catalog_put_sorted(before, c);
            assert forall|x: Command<H>| s.contains(x) implies #[trigger] r.contains(x) by {
                assert(before.contains(x));
                let k = choose|k: int| 0 <= k < before.len() && before[k] == x;
            }
        }
        assert forall|x: Command<H>| #[trigger] r.contains(x) implies s.contains(x) || extra.contains(x) by {
            if !has_name(before, c.metadata.name@) {
                lemma_catalog_put_members(before, c, x);
            }
            if x == c {
                assert(extra[extra.len() - 1] == x);
            } else if rest.contains(x) {
                let k = choose|k: int| 0 <= k < rest.len() && rest[k] == x;
                assert(extra[k] == x);
            }
        }
    }
}

proof fn lemma_merged_catalog<H>(own: Seq<Command<H>>, extra: Seq<Command<H>>)
    ensures
        ({
            let cat = catalog_add_all(catalog_put_all(Seq::empty(), own), extra);
            &&& names_sorted(cat)
            &&& forall|x: Command<H>| #[trigger] cat.contains(x) ==> own.contains(x) || extra.contains(x)
            &&& forall|i: int|
                0 <= i < own.len() ==> exists|j: int|
                    0 <= j < cat.len() && (#[trigger] cat[j]).metadata.name@
                        == (#[trigger] own[i]).metadata.name@ && own.contains(cat[j])
        }),
{
    let empty = Seq::<Command<H>>::empty();
    lemma_put_all_sorted(empty, own);
    let base = catalog_put_all(empty, own);
    lemma_add_all_keeps(base, extra);
    let cat = catalog_add_all(base, extra);
    assert forall|x: Command<H>| #[trigger] cat.contains(x) implies own.contains(x) || extra.contains(x) by {
        if base.contains(x) {
            assert(!empty.contains(x));
        }
    }
    assert forall|i: int| 0 <= i < own.len() implies exists|j: int|
        0 <= j < cat.len() && (#[trigger] cat[j]).metadata.name@ == (#[trigger] own[i]).metadata.name@ && own.contains(cat[j]) by {
        let j = choose|j: int| 0 <= j < base.len() && (#[trigger] base[j]).metadata.name@ == own[i].metadata.name@ && (empty.contains(base[j]) || own.contains(base[j]));
        assert(base.contains(base[j]));
        assert(cat.contains(base[j]));
        let k = choose|k: int| 0 <= k < cat.len() && cat[k] == base[j];
        assert(cat[k].metadata.name@ == own[i].metadata.name@);
    }
}

/// The catalog of a command with both subcommands and a handler that has
/// subcommands of its own: names in strictly increasing order (so none
/// twice); each entry is one of the router's subcommands or of the
/// handler's; and every name the router has is listed with a subcommand of
/// the router, so the router's subcommands win over the handler's.
pub proof fn lemma_fallback_catalog_merges<H>(primary: Strategy<H>, router: SubcommandRouter<H>)
    ensures
        strategy_catalog(Strategy::Fallback(Box::new(primary), router)) matches Some(cat) && {
            let own = entry_values(router.child_pairs());
            let extra = catalog_or_empty(primary);
            &&& names_sorted(cat)
            &&& forall|x: Command<H>| #[trigger] cat.contains(x) ==> own.contains(x) || extra.contains(x)
            &&& forall|i: int|
                0 <= i < own.len() ==> exists|j: int|
                    0 <= j < cat.len() && (#[trigger] cat[j]).metadata.name@
                        == (#[trigger] own[i]).metadata.name@ && own.contains(cat[j])
        },
{
    let own = entry_values(router.child_pairs());
    let extra = catalog_or_empty(primary);
    lemma_merged_catalog(own, extra);
    let cat = catalog_add_all(catalog_put_all(Seq::empty(), own), extra);
    assert(strategy_catalog(Strategy::Fallback(Box::new(primary), router)) == Some(cat));
    assert(strategy_catalog(Strategy::Fallback(Box::new(primary), router))->0 == cat);
}

/// A token selects, among the subcommands a command exposes (in catalog
/// order), the first whose name or one of whose aliases is the token; it
/// selects nothing when no subcommand has the token as name or alias, and
/// nothing for a command that exposes no subcommands.
pub proof fn lemma_subcommand_by_name_or_alias<H>(cmd: Command<H>, token: Seq<char>)
    ensures
        strategy_catalog(cmd.strategy) is None ==> resolve_sub(cmd, token) is None,
        strategy_catalog(cmd.strategy) matches Some(cat) ==> {
            &&& forall|i: int|
                0 <= i < cat.len() && ((#[trigger] cat[i]).metadata.name@ == token
                    || cat[i].metadata.aliases.deep_view().contains(token)) && (forall|j: int|
                    0 <= j < i ==> !(cat[j].metadata.name@ == token
                        || cat[j].metadata.aliases.deep_view().contains(token))) ==> resolve_sub(cmd, token)
                    == Some(cat[i])
            &&& (forall|i: int|
                0 <= i < cat.len() ==> !((#[trigger] cat[i]).metadata.name@ == token
                    || cat[i].metadata.aliases.deep_view().contains(token))) ==> resolve_sub(cmd, token) is None
        },
{
    if let Some(cat) = strategy_catalog(cmd.strategy) {
        assert forall|i: int|
            0 <= i < cat.len() && ((#[trigger] cat[i]).metadata.name@ == token
                || cat[i].metadata.aliases.deep_view().contains(token)) && (forall|j: int|
                0 <= j < i ==> !(cat[j].metadata.name@ == token
                    || cat[j].metadata.aliases.deep_view().contains(token))) implies resolve_sub(cmd, token)
                == Some(cat[i]) by {
            assert forall|j: int| 0 <= j < i implies !cmd_named(#[trigger] cat[j], token) by {}
            crate::resolution::lemma_first_named_at(cat, token, i);
        }
        if forall|i: int|
            0 <= i < cat.len() ==> !((#[trigger] cat[i]).metadata.name@ == token
                || cat[i].metadata.aliases.deep_view().contains(token)) {
            assert forall|j: int| 0 <= j < cat.len() implies !cmd_named(#[trigger] cat[j], token) by {}
            crate::resolution::lemma_first_named_none(cat, token);
        }
    }
}

/// After registering `c` with a router, `c`'s name finds `c`, and so does
/// each of its aliases that no other registered subcommand has as its name.
pub proof fn lemma_router_register_finds<H>(r: SubcommandRouter<H>, c: Command<H>, a: Seq<char>)
    requires
        a == c.metadata.name@ || (c.metadata.aliases.deep_view().contains(a) && forall|k: int|
            0 <= k < r.child_pairs().len() ==> (#[trigger] r.child_pairs()[k]).0 != a),
    ensures
        router_lookup(
            insert_entry(r.child_pairs(), c.metadata.name@, c),
            insert_aliases(r.alias_pairs(), c.metadata.aliases.deep_view(), c.metadata.name),
            a,
        ) == Some(c),
{
    let n = c.metadata.name@;
    let children = insert_entry(r.child_pairs(), n, c);
    crate::name_map::lemma_lookup_insert_same(r.child_pairs(), n, c);
    if a != n {
        crate::name_map::lemma_lookup_none_when_absent(r.child_pairs(), a);
        crate::name_map::lemma_lookup_insert_other(r.child_pairs(), n, c, a);
        crate::registry::lemma_insert_aliases_lookup(
            r.alias_pairs(),
            c.metadata.aliases.deep_view(),
            c.metadata.name,
            a,
        );
    }
}

} // verus!
