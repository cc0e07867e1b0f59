//! The table of top-level commands of a runtime: commands keyed by name,
//! and aliases that lead to them, with names and aliases kept free of
//! collisions.
use vstd::prelude::*;

use crate::command::{Command, derefs, insert_aliases, router_lookup};
use crate::name_map::{
    NameMap, entry_values, insert_entry, keys_sorted, lemma_insert_keeps_sorted,
    lemma_lookup_insert_other, lemma_lookup_insert_same, lemma_lookup_remove_other,
    lemma_remove_keeps_sorted, lookup, remove_entry,
};
use crate::resolution::lemma_register_keeps_aliases_consistent;
use crate::text::{copy_text, join5, same_text, text_lt};

verus! {

/// The value a registry stands for: its commands and its aliases, each
/// ordered by key.
pub struct RegistryModel<H> {
    pub commands: Seq<(Seq<char>, Command<H>)>,
    pub aliases: Seq<(Seq<char>, String)>,
}

pub open spec fn name_conflict_message(name: Seq<char>, owner: Seq<char>) -> Seq<char> {
    "command name '"@ + name + "' conflicts with existing alias owned by '"@ + owner + "'"@
}

pub open spec fn alias_is_name_message(alias: Seq<char>, name: Seq<char>) -> Seq<char> {
    "alias '"@ + alias + "' duplicates command name '"@ + name + "'"@
}

pub open spec fn alias_twice_message(alias: Seq<char>, name: Seq<char>) -> Seq<char> {
    "alias '"@ + alias + "' is declared more than once for command '"@ + name + "'"@
}

pub open spec fn alias_is_command_message(alias: Seq<char>, other: Seq<char>) -> Seq<char> {
    "alias '"@ + alias + "' conflicts with existing command name '"@ + other + "'"@
}

pub open spec fn alias_owned_message(alias: Seq<char>, owner: Seq<char>) -> Seq<char> {
    "alias '"@ + alias + "' conflicts with existing alias owned by '"@ + owner + "'"@
}

/// The first collision among `aliases[i..]` of a command called `name`.
pub open spec fn alias_collision<H>(
    m: RegistryModel<H>,
    name: Seq<char>,
    aliases: Seq<Seq<char>>,
    i: int,
) -> Option<Seq<char>>
    decreases aliases.len() - i,
{
    if i < 0 || i >= aliases.len() {
        None
    } else {
        let a = aliases[i];
        if a == name {
            Some(alias_is_name_message(a, name))
        } else if aliases.take(i).contains(a) {
            Some(alias_twice_message(a, name))
        } else {
            match lookup(m.commands, a) {
                Some(existing) if existing.metadata.name@ != name => Some(
                    alias_is_command_message(a, existing.metadata.name@),
                ),
                _ => match lookup(m.aliases, a) {
                    Some(owner) if owner@ != name => Some(alias_owned_message(a, owner@)),
                    _ => alias_collision(m, name, aliases, i + 1),
                },
            }
        }
    }
}

/// Why `cmd` cannot be registered, if it cannot: its name is an alias of
/// another command, or one of its aliases is its name, repeats, is another
/// command's name, or is another command's alias.
pub open spec fn collision<H>(m: RegistryModel<H>, cmd: Command<H>) -> Option<Seq<char>> {
    let name = cmd.metadata.name@;
    match lookup(m.aliases, name) {
        Some(owner) if owner@ != name => Some(name_conflict_message(name, owner@)),
        _ => alias_collision(m, name, cmd.metadata.aliases.deep_view(), 0),
    }
}

/// Forgets each of `aliases`, in order.
pub open spec fn remove_aliases(ps: Seq<(Seq<char>, String)>, aliases: Seq<Seq<char>>) -> Seq<
    (Seq<char>, String),
>
    decreases aliases.len(),
{
    if aliases.len() == 0 {
        ps
    } else {
        remove_entry(remove_aliases(ps, aliases.drop_last()), aliases.last())
    }
}

/// The registry after registering `cmd`, or why it cannot be registered.
/// A command of the same name is replaced, and its aliases are forgotten.
pub open spec fn register_step<H>(m: RegistryModel<H>, cmd: Command<H>) -> Result<
    RegistryModel<H>,
    Seq<char>,
> {
    let name = cmd.metadata.name@;
    match collision(m, cmd) {
        Some(message) => Err(message),
        None => {
            let cleared = match lookup(m.commands, name) {
                Some(previous) => remove_aliases(m.aliases, previous.metadata.aliases.deep_view()),
                None => m.aliases,
            };
            Ok(
                RegistryModel {
                    commands: insert_entry(remove_entry(m.commands, name), name, cmd),
                    aliases: insert_aliases(
                        cleared,
                        cmd.metadata.aliases.deep_view(),
                        cmd.metadata.name,
                    ),
                },
            )
        },
    }
}

/// The registry after registering `cmds` in order, stopping at the first
/// that cannot be registered.
pub open spec fn register_all<H>(m: RegistryModel<H>, cmds: Seq<Command<H>>) -> Result<
    RegistryModel<H>,
    Seq<char>,
>
    decreases cmds.len(),
{
    if cmds.len() == 0 {
        Ok(m)
    } else {
        match register_step(m, cmds[0]) {
            Ok(next) => register_all(next, cmds.drop_first()),
            Err(message) => Err(message),
        }
    }
}

/// What `name` finds: the command of that name, else the command its alias
/// leads to.
pub open spec fn registry_get<H>(m: RegistryModel<H>, name: Seq<char>) -> Option<Command<H>> {
    router_lookup(m.commands, m.aliases, name)
}

/// The alias `a`, if the table has it, is no command's name and leads to a
/// registered command that declares it.
pub open spec fn alias_leads_home<H>(m: RegistryModel<H>, a: Seq<char>) -> bool {
    match lookup(m.aliases, a) {
        Some(owner) => lookup(m.commands, a) is None && match lookup(m.commands, owner@) {
            Some(c) => c.metadata.aliases.deep_view().contains(a),
            None => false,
        },
        None => true,
    }
}

/// If the command called `name` declares the alias `a`, the alias table
/// leads `a` to `name`.
pub open spec fn alias_recorded<H>(m: RegistryModel<H>, name: Seq<char>, a: Seq<char>) -> bool {
    match lookup(m.commands, name) {
        Some(c) => c.metadata.aliases.deep_view().contains(a) ==> match lookup(m.aliases, a) {
            Some(owner) => owner@ == name,
            None => false,
        },
        None => true,
    }
}

/// The alias table and the commands agree: an alias is no command's name
/// and leads to a registered command that declares it, and every alias a
/// registered command declares leads back to that command.
pub open spec fn aliases_consistent<H>(m: RegistryModel<H>) -> bool {
    &&& forall|a: Seq<char>| #[trigger] alias_leads_home(m, a)
    &&& forall|name: Seq<char>, a: Seq<char>| #[trigger] alias_recorded(m, name, a)
}

/// Keys in order, and each command stored under its own name.
pub open spec fn registry_shape<H>(m: RegistryModel<H>) -> bool {
    &&& keys_sorted(m.commands)
    &&& keys_sorted(m.aliases)
    &&& forall|i: int|
        0 <= i < m.commands.len() ==> (#[trigger] m.commands[i]).0 == m.commands[i].1.metadata.name@
}

/// The shape every registry keeps: keys in order, each command under its
/// own name, and an alias table that agrees with the commands (each alias
/// leads to a command that declares it and whose name it is not, and each
/// declared alias is recorded).
pub open spec fn registry_wf<H>(m: RegistryModel<H>) -> bool {
    &&& registry_shape(m)
    &&& aliases_consistent(m)
}

/// The registered commands in name order.
pub open spec fn registry_commands<H>(m: RegistryModel<H>) -> Seq<Command<H>> {
    entry_values(m.commands)
}

/// The command table of a runtime.
pub struct CommandCatalogue<H> {
    commands: NameMap<Command<H>>,
    aliases: NameMap<String>,
}

impl<H> CommandCatalogue<H> {
    /// The registry's value.
    pub closed spec fn model(&self) -> RegistryModel<H> {
        RegistryModel { commands: self.commands.pairs(), aliases: self.aliases.pairs() }
    }

    /// An empty registry.
    pub fn new() -> (r: Self)
        ensures
            r.model().commands.len() == 0,
            r.model().aliases.len() == 0,
            registry_wf(r.model()),
    {
        CommandCatalogue { commands: NameMap::new(), aliases: NameMap::new() }
    }

    /// The command called `name`, else the command whose alias `name` is.
    pub fn get(&self, name: &String) -> (r: Option<&Command<H>>)
        ensures
            match r {
                Some(c) => registry_get(self.model(), name@) == Some(*c),
                None => registry_get(self.model(), name@) is None,
            },
    {
        match self.commands.get(name) {
            Some(c) => Some(c),
            None => match self.aliases.get(name) {
                Some(canonical) => self.commands.get(canonical),
                None => None,
            },
        }
    }

    /// All registered commands, in name order.
    pub fn get_all(&self) -> (r: Vec<&Command<H>>)
        ensures
            derefs(r@) == registry_commands(self.model()),
    {
        let r = self.commands.values();
        assert(derefs(r@) =~= registry_commands(self.model()));
        r
    }

    /// Whether the alias list `aliases[..i]` holds `a`.
    fn declared_before(aliases: &Vec<String>, i: usize, a: &String) -> (r: bool)
        requires
            i <= aliases@.len(),
        ensures
            r == aliases.deep_view().take(i as int).contains(a@),
    {
        let mut j: usize = 0;
        while j < i
            invariant
                j <= i <= aliases@.len(),
                forall|k: int| 0 <= k < j ==> aliases.deep_view()[k] != a@,
            decreases i - j,
        {
            if same_text(&aliases[j], a) {
                assert(aliases.deep_view().take(i as int)[j as int] == a@);
                return true;
            }
            j += 1;
        }
        assert forall|k: int| 0 <= k < i implies aliases.deep_view().take(i as int)[k] != a@ by {
            assert(aliases.deep_view().take(i as int)[k] == aliases.deep_view()[k]);
        }
        false
    }

    /// Checks that `command` collides with no registered name or alias.
    fn validate_alias_collisions(&self, command: &Command<H>) -> (r: Result<(), String>)
        ensures
            match collision(self.model(), *command) {
                Some(message) => r matches Err(m) && m@ == message,
                None => r is Ok,
            },
    {
        let name = &command.metadata.name;
        if let Some(owner) = self.aliases.get(name) {
            if !same_text(owner, name) {
                return Err(
                    join5(
                        "command name '",
                        name.as_str(),
                        "' conflicts with existing alias owned by '",
                        owner.as_str(),
                        "'",
                    ),
                );
            }
        }
        let aliases = &command.metadata.aliases;
        let ghost als = aliases.deep_view();
        let ghost m = self.model();
        let mut i: usize = 0;
        while i < aliases.len()
            invariant
                i <= aliases@.len(),
                als == aliases.deep_view(),
                m == self.model(),
                collision(m, *command) == alias_collision(m, name@, als, 0),
                alias_collision(m, name@, als, 0) == alias_collision(m, name@, als, i as int),
            decreases aliases@.len() - i,
        {
            let alias = &aliases[i];
            assert(als[i as int] == alias@);
            if same_text(alias, name) {
                return Err(
                    join5(
                        "alias '",
                        alias.as_str(),
                        "' duplicates command name '",
                        name.as_str(),
                        "'",
                    ),
                );
            }
            if Self::declared_before(aliases, i, alias) {
                return Err(
                    join5(
                        "alias '",
                        alias.as_str(),
                        "' is declared more than once for command '",
                        name.as_str(),
                        "'",
                    ),
                );
            }
            if let Some(existing) = self.commands.get(alias) {
                if !same_text(&existing.metadata.name, name) {
                    return Err(
                        join5(
                            "alias '",
                            alias.as_str(),
                            "' conflicts with existing command name '",
                            existing.metadata.name.as_str(),
                            "'",
                        ),
                    );
                }
            }
            if let Some(owner) = self.aliases.get(alias) {
                if !same_text(owner, name) {
                    return Err(
                        join5(
                            "alias '",
                            alias.as_str(),
                            "' conflicts with existing alias owned by '",
                            owner.as_str(),
                            "'",
                        ),
                    );
                }
            }
            i += 1;
        }
        Ok(())
    }

    /// Registers `command`, replacing a command of the same name and
    /// forgetting that command's aliases; fails, leaving the registry as it
    /// was, when `command` collides with a registered name or alias.
    pub fn register(&mut self, command: Command<H>) -> (r: Result<(), String>)
        ensures
            match register_step(old(self).model(), command) {
                Ok(next) => r is Ok && final(self).model() == next,
                Err(message) => r matches Err(m) && m@ == message && final(self).model() == old(
                    self,
                ).model(),
            },
            registry_wf(old(self).model()) ==> registry_wf(final(self).model()),
    {
        let ghost m0 = self.model();
        proof {
            if registry_wf(m0) {
                lemma_register_keeps_wf(m0, command);
            }
        }
        match self.validate_alias_collisions(&command) {
            Err(message) => {
                return Err(message);
            },
            Ok(()) => {},
        }
        let command_name = copy_text(&command.metadata.name);
        let previous = self.commands.remove(&command_name);
        let ghost removed = self.commands.pairs();
        let ghost cleared = match lookup(m0.commands, command_name@) {
            Some(p) => remove_aliases(m0.aliases, p.metadata.aliases.deep_view()),
            None => m0.aliases,
        };
        match previous {
            Some(p) => {
                let ghost pa = p.metadata.aliases.deep_view();
                let mut i: usize = 0;
                while i < p.metadata.aliases.len()
                    invariant
                        i <= p.metadata.aliases@.len(),
                        pa == p.metadata.aliases.deep_view(),
                        self.commands.pairs() == removed,
                        self.aliases.pairs() == remove_aliases(m0.aliases, pa.take(i as int)),
                    decreases p.metadata.aliases@.len() - i,
                {
                    self.aliases.remove(&p.metadata.aliases[i]);
                    proof {
                        assert(pa.take(i + 1).drop_last() =~= pa.take(i as int));
                    }
                    i += 1;
                }
                assert(pa.take(i as int) =~= pa);
            },
            None => {},
        }
        assert(self.aliases.pairs() == cleared);
        let ghost new_aliases = command.metadata.aliases.deep_view();
        let mut j: usize = 0;
        while j < command.metadata.aliases.len()
            invariant
                j <= command.metadata.aliases@.len(),
                new_aliases == command.metadata.aliases.deep_view(),
                self.commands.pairs() == removed,
                self.aliases.pairs() == insert_aliases(
                    cleared,
                    new_aliases.take(j as int),
                    command.metadata.name,
                ),
            decreases command.metadata.aliases@.len() - j,
        {
            let alias = copy_text(&command.metadata.aliases[j]);
            let owner = command.metadata.name.clone();
            self.aliases.insert(alias, owner);
            proof {
                assert(new_aliases.take(j + 1).drop_last() =~= new_aliases.take(j as int));
            }
            j += 1;
        }
        assert(new_aliases.take(j as int) =~= new_aliases);
        self.commands.insert(command_name, command);
        Ok(())
    }
}

/// Forgetting aliases keeps the alias keys in order.
pub proof fn lemma_remove_aliases_sorted(ps: Seq<(Seq<char>, String)>, aliases: Seq<Seq<char>>)
    requires
        keys_sorted(ps),
    ensures
        keys_sorted(remove_aliases(ps, aliases)),
    decreases aliases.len(),
{
    if aliases.len() > 0 {
        lemma_remove_aliases_sorted(ps, aliases.drop_last());
        lemma_remove_keeps_sorted(remove_aliases(ps, aliases.drop_last()), aliases.last());
    }
}

proof fn lemma_insert_aliases_sorted(
    ps: Seq<(Seq<char>, String)>,
    aliases: Seq<Seq<char>>,
    owner: String,
)
    requires
        keys_sorted(ps),
    ensures
        keys_sorted(insert_aliases(ps, aliases, owner)),
    decreases aliases.len(),
{
    if aliases.len() > 0 {
        lemma_insert_aliases_sorted(ps, aliases.drop_last(), owner);
        lemma_insert_keeps_sorted(insert_aliases(ps, aliases.drop_last(), owner), aliases.last(), owner);
    }
}

/// Registering keeps a registry well formed: keys in order, each command
/// under its own name, and the alias table in agreement with the commands.
pub proof fn lemma_register_keeps_wf<H>(m: RegistryModel<H>, cmd: Command<H>)
    requires
        registry_wf(m),
    ensures
        register_step(m, cmd) matches Ok(next) ==> registry_wf(next),
{
    if let Ok(next) = register_step(m, cmd) {
        let name = cmd.metadata.name@;
        let removed = remove_entry(m.commands, name);
        lemma_remove_keeps_sorted(m.commands, name);
        lemma_insert_keeps_sorted(removed, name, cmd);
        let cleared = match lookup(m.commands, name) {
            Some(previous) => remove_aliases(m.aliases, previous.metadata.aliases.deep_view()),
            None => m.aliases,
        };
        if let Some(previous) = lookup(m.commands, name) {
            lemma_remove_aliases_sorted(m.aliases, previous.metadata.aliases.deep_view());
        }
        lemma_insert_aliases_sorted(cleared, cmd.metadata.aliases.deep_view(), cmd.metadata.name);
        lemma_register_keeps_aliases_consistent(m, cmd);
        let cs = next.commands;
        assert forall|i: int| 0 <= i < cs.len() implies (#[trigger] cs[i]).0
            == cs[i].1.metadata.name@ by {
            lemma_insert_members(removed, name, cmd, i);
            if cs[i] != (name, cmd) {
                let j = choose|j: int| 0 <= j < removed.len() && removed[j] == cs[i];
                let k = choose|k: int| 0 <= k < m.commands.len() && m.commands[k] == removed[j];
                assert(m.commands[k].0 == m.commands[k].1.metadata.name@);
            }
        }
    }
}

/// Every entry after storing is the stored one or an earlier entry.
proof fn lemma_insert_members<V>(ps: Seq<(Seq<char>, V)>, k: Seq<char>, v: V, i: int)
    requires
        0 <= i < insert_entry(ps, k, v).len(),
    ensures
        insert_entry(ps, k, v)[i] == (k, v) || exists|j: int|
            0 <= j < ps.len() && ps[j] == insert_entry(ps, k, v)[i],
    decreases ps.len(),
{
    let r = insert_entry(ps, k, v);
    if ps.len() == 0 {
    } else if ps[0].0 == k {
        if i > 0 {
            assert(ps[i] == r[i]);
        }
    } else if text_lt(k, ps[0].0) {
        if i > 0 {
            assert(ps[i - 1] == r[i]);
        }
    } else {
        if i == 0 {
            assert(ps[0] == r[0]);
        } else {
            let t = ps.drop_first();
            assert(r[i] == insert_entry(t, k, v)[i - 1]);
            lemma_insert_members(t, k, v, i - 1);
            if insert_entry(t, k, v)[i - 1] != (k, v) {
                let j = choose|j: int| 0 <= j < t.len() && t[j] == insert_entry(t, k, v)[i - 1];
                assert(ps[j + 1] == t[j]);
            }
        }
    }
}


/// A found entry is an entry of the table.
pub proof fn lemma_lookup_member<V>(ps: Seq<(Seq<char>, V)>, k: Seq<char>)
    ensures
        lookup(ps, k) matches Some(v) ==> exists|i: int| 0 <= i < ps.len() && ps[i] == (k, v),
    decreases ps.len(),
{
    if ps.len() > 0 && ps[0].0 != k {
        lemma_lookup_member(ps.drop_first(), k);
        if let Some(v) = lookup(ps, k) {
            let i = choose|i: int| 0 <= i < ps.drop_first().len() && ps.drop_first()[i] == (k, v);
            assert(ps[i + 1] == (k, v));
        }
    }
}

/// After recording `aliases` as leading to `owner`, each of them leads to `owner`.
pub proof fn lemma_insert_aliases_lookup(
    ps: Seq<(Seq<char>, String)>,
    aliases: Seq<Seq<char>>,
    owner: String,
    k: Seq<char>,
)
    requires
        aliases.contains(k),
    ensures
        lookup(insert_aliases(ps, aliases, owner), k) == Some(owner),
    decreases aliases.len(),
{
    let rest = aliases.drop_last();
    if k == aliases.last() {
        lemma_lookup_insert_same(insert_aliases(ps, rest, owner), k, owner);
    } else {
        let i = choose|i: int| 0 <= i < aliases.len() && aliases[i] == k;
        assert(rest[i] == k);
        lemma_insert_aliases_lookup(ps, rest, owner, k);
        lemma_lookup_insert_other(insert_aliases(ps, rest, owner), aliases.last(), owner, k);
    }
}

/// No collision from position `i` on means each alias from `i` on is
/// neither the name, nor repeated, nor another command's name or alias.
proof fn lemma_no_alias_collision<H>(
    m: RegistryModel<H>,
    name: Seq<char>,
    aliases: Seq<Seq<char>>,
    i: int,
    j: int,
)
    requires
        0 <= i <= j < aliases.len(),
        alias_collision(m, name, aliases, i) is None,
    ensures
        aliases[j] != name,
        !aliases.take(j).contains(aliases[j]),
        lookup(m.commands, aliases[j]) matches Some(e) ==> e.metadata.name@ == name,
        lookup(m.aliases, aliases[j]) matches Some(o) ==> o@ == name,
    decreases j - i,
{
    if i < j {
        lemma_no_alias_collision(m, name, aliases, i + 1, j);
    }
}

/// Registering a command makes its name find it; in particular a second
/// command of the same name replaces the first.
pub proof fn lemma_register_then_get_name<H>(m: RegistryModel<H>, cmd: Command<H>)
    ensures
        register_step(m, cmd) matches Ok(next) ==> registry_get(next, cmd.metadata.name@) == Some(
            cmd,
        ),
{
    if let Ok(next) = register_step(m, cmd) {
        lemma_lookup_insert_same(remove_entry(m.commands, cmd.metadata.name@), cmd.metadata.name@, cmd);
    }
}

/// Registering a command makes each of its aliases find it.
pub proof fn lemma_register_then_get_alias<H>(m: RegistryModel<H>, cmd: Command<H>, alias: Seq<char>)
    requires
        registry_wf(m),
        cmd.metadata.aliases.deep_view().contains(alias),
    ensures
        register_step(m, cmd) matches Ok(next) ==> registry_get(next, alias) == Some(cmd),
{
    if let Ok(next) = register_step(m, cmd) {
        let name = cmd.metadata.name@;
        let als = cmd.metadata.aliases.deep_view();
        let j = choose|j: int| 0 <= j < als.len() && als[j] == alias;
        assert(lookup(m.aliases, name) matches Some(o) ==> o@ == name);
        lemma_no_alias_collision(m, name, als, 0, j);
        // No command is called `alias`: it would be under its own name.
        lemma_lookup_member(m.commands, alias);
        if let Some(e) = lookup(m.commands, alias) {
            let i = choose|i: int| 0 <= i < m.commands.len() && m.commands[i] == (alias, e);
            assert(m.commands[i].0 == m.commands[i].1.metadata.name@);
        }
        let removed = remove_entry(m.commands, name);
        lemma_lookup_remove_other(m.commands, name, alias);
        lemma_lookup_insert_other(removed, name, cmd, alias);
        let cleared = match lookup(m.commands, name) {
            Some(previous) => remove_aliases(m.aliases, previous.metadata.aliases.deep_view()),
            None => m.aliases,
        };
        lemma_insert_aliases_lookup(cleared, als, cmd.metadata.name, alias);
        lemma_lookup_insert_same(removed, name, cmd);
    }
}

/// Registering a command leaves every command of another name in place.
pub proof fn lemma_register_keeps_other_commands<H>(m: RegistryModel<H>, cmd: Command<H>, other: Seq<char>)
    requires
        other != cmd.metadata.name@,
    ensures
        register_step(m, cmd) matches Ok(next) ==> lookup(next.commands, other) == lookup(
            m.commands,
            other,
        ),
{
    if let Ok(next) = register_step(m, cmd) {
        let name = cmd.metadata.name@;
        lemma_lookup_remove_other(m.commands, name, other);
        lemma_lookup_insert_other(remove_entry(m.commands, name), name, cmd, other);
    }
}

/// The registered commands come in strictly increasing name order: one per name.
pub proof fn lemma_registry_commands_ordered<H>(m: RegistryModel<H>)
    requires
        registry_wf(m),
    ensures
        forall|i: int, j: int|
            0 <= i < j < registry_commands(m).len() ==> text_lt(
                (#[trigger] registry_commands(m)[i]).metadata.name@,
                (#[trigger] registry_commands(m)[j]).metadata.name@,
            ),
{
    assert forall|i: int, j: int| 0 <= i < j < registry_commands(m).len() implies text_lt(
        (#[trigger] registry_commands(m)[i]).metadata.name@,
        (#[trigger] registry_commands(m)[j]).metadata.name@,
    ) by {
        assert(m.commands[i].0 == m.commands[i].1.metadata.name@);
        assert(m.commands[j].0 == m.commands[j].1.metadata.name@);
    }
}

} // verus!
