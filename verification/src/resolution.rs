//! Which registered command a token selects. A run looks the command up
//! among the registered commands in name order, by name or alias; the
//! registry looks it up by name, then through its alias table. The two
//! agree on every registry that registering builds.
use vstd::prelude::*;

use crate::command::{Command, cmd_named, first_named, insert_aliases};
use crate::name_map::{
    keys_sorted, lemma_lookup_insert_other, lemma_lookup_insert_same,
    lemma_lookup_remove_other, lemma_lookup_remove_same,
    lemma_sorted_tail, lookup, remove_entry,
};
use crate::registry::{
    RegistryModel, alias_collision, lemma_insert_aliases_lookup, lemma_lookup_member,
    register_all, register_step, registry_commands, registry_get, registry_wf, remove_aliases,
    alias_leads_home, alias_recorded, aliases_consistent, lemma_remove_aliases_sorted,
};
use crate::text::{lemma_text_lt_irreflexive, text_lt};

verus! {

/// In a table with keys in order, each key finds its own entry.
proof fn lemma_lookup_at_sorted<V>(ps: Seq<(Seq<char>, V)>, i: int)
    requires
        keys_sorted(ps),
        0 <= i < ps.len(),
    ensures
        lookup(ps, ps[i].0) == Some(ps[i].1),
    decreases i,
{
    if i > 0 {
        assert(text_lt(ps[0].0, ps[i].0));
        lemma_text_lt_irreflexive(ps[i].0);
        lemma_sorted_tail(ps);
        assert(ps.drop_first()[i - 1] == ps[i]);
        lemma_lookup_at_sorted(ps.drop_first(), i - 1);
    }
}

/// After forgetting `aliases`, each of them finds nothing and every other
/// key finds what it found before.
proof fn lemma_remove_aliases_lookup(ps: Seq<(Seq<char>, String)>, aliases: Seq<Seq<char>>, k: Seq<char>)
    requires
        keys_sorted(ps),
    ensures
        lookup(remove_aliases(ps, aliases), k) == if aliases.contains(k) {
            None
        } else {
            lookup(ps, k)
        },
    decreases aliases.len(),
{
    if aliases.len() > 0 {
        let rest = aliases.drop_last();
        let before = remove_aliases(ps, rest);
        lemma_remove_aliases_lookup(ps, rest, k);
        lemma_remove_aliases_sorted(ps, rest);
        if k == aliases.last() {
            lemma_lookup_remove_same(before, k);
            assert(aliases[aliases.len() - 1] == k);
        } else {
            lemma_lookup_remove_other(before, aliases.last(), k);
            if aliases.contains(k) {
                let i = choose|i: int| 0 <= i < aliases.len() && aliases[i] == k;
                assert(rest[i] == k);
            }
            if rest.contains(k) {
                let i = choose|i: int| 0 <= i < rest.len() && rest[i] == k;
                assert(aliases[i] == k);
            }
        }
    }
}

/// Recording `aliases` leaves every key not among them as it was.
proof fn lemma_insert_aliases_other(
    ps: Seq<(Seq<char>, String)>,
    aliases: Seq<Seq<char>>,
    owner: String,
    k: Seq<char>,
)
    requires
        !aliases.contains(k),
    ensures
        lookup(insert_aliases(ps, aliases, owner), k) == lookup(ps, k),
    decreases aliases.len(),
{
    if aliases.len() > 0 {
        let rest = aliases.drop_last();
        assert(aliases[aliases.len() - 1] == aliases.last());
        assert(!rest.contains(k)) by {
            if rest.contains(k) {
                let i = choose|i: int| 0 <= i < rest.len() && rest[i] == k;
                assert(aliases[i] == k);
            }
        }
        lemma_insert_aliases_other(ps, rest, owner, k);
        lemma_lookup_insert_other(insert_aliases(ps, rest, owner), aliases.last(), owner, k);
    }
}

/// No collision means each alias of the command is neither its name nor
/// another command's name or alias.
proof fn lemma_clear_aliases<H>(m: RegistryModel<H>, name: Seq<char>, aliases: Seq<Seq<char>>, i: int, a: Seq<char>)
    requires
        0 <= i <= aliases.len(),
        alias_collision(m, name, aliases, i) is None,
        aliases.subrange(i, aliases.len() as int).contains(a),
    ensures
        a != name,
        lookup(m.commands, a) matches Some(e) ==> e.metadata.name@ == name,
        lookup(m.aliases, a) matches Some(o) ==> o@ == name,
    decreases aliases.len() - i,
{
    let tail = aliases.subrange(i, aliases.len() as int);
    let k = choose|k: int| 0 <= k < tail.len() && tail[k] == a;
    if k == 0 {
        assert(aliases[i] == a);
    } else {
        assert(aliases.subrange(i + 1, aliases.len() as int)[k - 1] == a);
        lemma_clear_aliases(m, name, aliases, i + 1, a);
    }
}

/// Registering keeps the alias table and the commands in agreement.
pub proof fn lemma_register_keeps_aliases_consistent<H>(m: RegistryModel<H>, cmd: Command<H>)
    requires
        registry_wf(m),
    ensures
        register_step(m, cmd) matches Ok(next) ==> aliases_consistent(next),
{
    if let Ok(next) = register_step(m, cmd) {
        let n = cmd.metadata.name@;
        let als = cmd.metadata.aliases.deep_view();
        let removed = remove_entry(m.commands, n);
        let cleared = match lookup(m.commands, n) {
            Some(previous) => remove_aliases(m.aliases, previous.metadata.aliases.deep_view()),
            None => m.aliases,
        };
        assert(next.commands == crate::name_map::insert_entry(removed, n, cmd));
        assert(next.aliases == insert_aliases(cleared, als, cmd.metadata.name));
        assert(als.subrange(0, als.len() as int) =~= als);
        // What the commands table finds after the step.
        assert forall|k: Seq<char>| k != n implies lookup(next.commands, k) == lookup(m.commands, k) by {
            lemma_lookup_remove_other(m.commands, n, k);
            lemma_lookup_insert_other(removed, n, cmd, k);
        }
        lemma_lookup_insert_same(removed, n, cmd);
        // What the cleared alias table finds.
        assert forall|k: Seq<char>| #![trigger lookup(cleared, k)]
            lookup(cleared, k) == match lookup(m.commands, n) {
                Some(p) => if p.metadata.aliases.deep_view().contains(k) {
                    None
                } else {
                    lookup(m.aliases, k)
                },
                None => lookup(m.aliases, k),
            } by {
            if let Some(p) = lookup(m.commands, n) {
                lemma_remove_aliases_lookup(m.aliases, p.metadata.aliases.deep_view(), k);
            }
        }
        // A key under which a command is stored is that command's name.
        assert forall|k: Seq<char>| #[trigger] lookup(m.commands, k) is Some implies lookup(m.commands, k)->0.metadata.name@ == k by {
            lemma_lookup_member(m.commands, k);
            let e = lookup(m.commands, k)->0;
            let i = choose|i: int| 0 <= i < m.commands.len() && m.commands[i] == (k, e);
            assert(m.commands[i].0 == m.commands[i].1.metadata.name@);
        }
        assert forall|a: Seq<char>| #[trigger] alias_leads_home(next, a) by {
            assert(alias_leads_home(m, a));
            if als.contains(a) {
                lemma_insert_aliases_lookup(cleared, als, cmd.metadata.name, a);
                lemma_clear_aliases(m, n, als, 0, a);
                if lookup(m.commands, a) is Some {
                    assert(lookup(m.commands, a)->0.metadata.name@ == a);
                }
            } else {
                lemma_insert_aliases_other(cleared, als, cmd.metadata.name, a);
                if let Some(owner) = lookup(cleared, a) {
                    assert(lookup(m.aliases, a) == Some(owner));
                    if a == n {
                        assert(lookup(m.aliases, n) matches Some(o) ==> o@ == n);
                        assert(alias_recorded(m, n, a));
                    }
                    if owner@ == n {
                        assert(alias_recorded(m, n, a));
                    }
                }
            }
        }
        assert forall|name: Seq<char>, a: Seq<char>| #[trigger] alias_recorded(next, name, a) by {
            if name == n {
                if als.contains(a) {
                    lemma_insert_aliases_lookup(cleared, als, cmd.metadata.name, a);
                }
            } else {
                assert(alias_recorded(m, name, a));
                if let Some(c) = lookup(m.commands, name) {
                    if c.metadata.aliases.deep_view().contains(a) {
                        if als.contains(a) {
                            lemma_clear_aliases(m, n, als, 0, a);
                        }
                        lemma_insert_aliases_other(cleared, als, cmd.metadata.name, a);
                        assert(alias_recorded(m, n, a));
                    }
                }
            }
        }
    }
}

pub(crate) proof fn lemma_first_named_at<H>(s: Seq<Command<H>>, token: Seq<char>, i: int)
    requires
        0 <= i < s.len(),
        cmd_named(s[i], token),
        forall|j: int| 0 <= j < i ==> !cmd_named(#[trigger] s[j], token),
    ensures
        first_named(s, token) == Some(s[i]),
    decreases i,
{
    if i > 0 {
        assert(!cmd_named(s[0], token));
        assert forall|j: int| 0 <= j < i - 1 implies !cmd_named(#[trigger] s.drop_first()[j], token) by {
            assert(s.drop_first()[j] == s[j + 1]);
        }
        lemma_first_named_at(s.drop_first(), token, i - 1);
    }
}

pub(crate) proof fn lemma_first_named_none<H>(s: Seq<Command<H>>, token: Seq<char>)
    requires
        forall|j: int| 0 <= j < s.len() ==> !cmd_named(#[trigger] s[j], token),
    ensures
        first_named(s, token) is None,
    decreases s.len(),
{
    if s.len() > 0 {
        assert(!cmd_named(s[0], token));
        assert forall|j: int| 0 <= j < s.len() - 1 implies !cmd_named(#[trigger] s.drop_first()[j], token) by {
            assert(s.drop_first()[j] == s[j + 1]);
        }
        lemma_first_named_none(s.drop_first(), token);
    }
}

/// A run selects the command that `get` finds: in a registry whose alias
/// table agrees with its commands, the first registered command (in name
/// order) that a token names or aliases is the command the registry's
/// lookup, by name and then by alias, finds for that token.
pub proof fn lemma_run_selects_what_get_finds<H>(m: RegistryModel<H>, token: Seq<char>)
    requires
        registry_wf(m),
    ensures
        first_named(registry_commands(m), token) == registry_get(m, token),
{
    let cs = registry_commands(m);
    let ps = m.commands;
    assert forall|i: int| 0 <= i < ps.len() implies #[trigger] cs[i] == ps[i].1 && ps[i].0 == cs[i].metadata.name@ by {
        assert(ps[i].0 == ps[i].1.metadata.name@);
    }
    // A command earlier than position `i` neither is called `token` when the
    // command at `i` is, nor declares `token` as an alias when the alias table
    // leads `token` elsewhere or nowhere.
    assert(alias_leads_home(m, token));
    if let Some(c) = lookup(ps, token) {
        lemma_lookup_member(ps, token);
        let i = choose|i: int| 0 <= i < ps.len() && ps[i] == (token, c);
        assert forall|j: int| 0 <= j < i implies !cmd_named(#[trigger] cs[j], token) by {
            assert(text_lt(ps[j].0, ps[i].0));
            lemma_text_lt_irreflexive(token);
            lemma_lookup_at_sorted(ps, j);
            assert(alias_recorded(m, ps[j].0, token));
        }
        lemma_first_named_at(cs, token, i);
    } else if let Some(owner) = lookup(m.aliases, token) {
        let c = lookup(ps, owner@)->0;
        lemma_lookup_member(ps, owner@);
        let i = choose|i: int| 0 <= i < ps.len() && ps[i] == (owner@, c);
        assert forall|j: int| 0 <= j < i implies !cmd_named(#[trigger] cs[j], token) by {
            lemma_lookup_at_sorted(ps, j);
            assert(alias_recorded(m, ps[j].0, token));
            assert(text_lt(ps[j].0, ps[i].0));
            lemma_text_lt_irreflexive(ps[i].0);
        }
        lemma_first_named_at(cs, token, i);
    } else {
        assert forall|j: int| 0 <= j < cs.len() implies !cmd_named(#[trigger] cs[j], token) by {
            lemma_lookup_at_sorted(ps, j);
            assert(alias_recorded(m, ps[j].0, token));
        }
        lemma_first_named_none(cs, token);
    }
}

/// What registering does to the registry, when it succeeds: the registry
/// stays well formed; the command's name and each of its aliases find it;
/// an alias of a replaced command of the same name that the new command
/// does not declare finds nothing; and every other token finds what it
/// found before.
pub proof fn lemma_register_law<H>(m: RegistryModel<H>, cmd: Command<H>)
    requires
        registry_wf(m),
    ensures
        register_step(m, cmd) matches Ok(next) ==> {
            let n = cmd.metadata.name@;
            let als = cmd.metadata.aliases.deep_view();
            let old_aliases = match lookup(m.commands, n) {
                Some(previous) => previous.metadata.aliases.deep_view(),
                None => Seq::empty(),
            };
            &&& registry_wf(next)
            &&& registry_get(next, n) == Some(cmd)
            &&& forall|a: Seq<char>| #[trigger] als.contains(a) ==> registry_get(next, a) == Some(cmd)
            &&& forall|a: Seq<char>|
                #[trigger] old_aliases.contains(a) && !als.contains(a) ==> registry_get(next, a) is None
            &&& forall|k: Seq<char>|
                k != n && !als.contains(k) && !old_aliases.contains(k) ==> #[trigger] registry_get(next, k)
                    == registry_get(m, k)
        },
{
    if let Ok(next) = register_step(m, cmd) {
        let n = cmd.metadata.name@;
        let als = cmd.metadata.aliases.deep_view();
        let old_aliases = match lookup(m.commands, n) {
            Some(previous) => previous.metadata.aliases.deep_view(),
            None => Seq::empty(),
        };
        let removed = remove_entry(m.commands, n);
        let cleared = match lookup(m.commands, n) {
            Some(previous) => remove_aliases(m.aliases, previous.metadata.aliases.deep_view()),
            None => m.aliases,
        };
        crate::registry::lemma_register_keeps_wf(m, cmd);
        crate::registry::lemma_register_then_get_name(m, cmd);
        assert forall|k: Seq<char>| k != n implies lookup(next.commands, k) == lookup(m.commands, k) by {
            lemma_lookup_remove_other(m.commands, n, k);
            lemma_lookup_insert_other(removed, n, cmd, k);
        }
        assert forall|k: Seq<char>| #![trigger lookup(cleared, k)]
            lookup(cleared, k) == if old_aliases.contains(k) {
                None
            } else {
                lookup(m.aliases, k)
            } by {
            if let Some(p) = lookup(m.commands, n) {
                lemma_remove_aliases_lookup(m.aliases, p.metadata.aliases.deep_view(), k);
            }
        }
        assert forall|a: Seq<char>| #[trigger] als.contains(a) implies registry_get(next, a) == Some(cmd) by {
            crate::registry::lemma_register_then_get_alias(m, cmd, a);
        }
        assert forall|a: Seq<char>|
            #[trigger] old_aliases.contains(a) && !als.contains(a) implies registry_get(next, a) is None by {
            let p = lookup(m.commands, n)->0;
            assert(alias_recorded(m, n, a));
            assert(alias_leads_home(m, a));
            lemma_insert_aliases_other(cleared, als, cmd.metadata.name, a);
            if a == n {
                assert(lookup(m.commands, n) is Some);
            }
        }
        assert forall|k: Seq<char>|
            k != n && !als.contains(k) && !old_aliases.contains(k) implies #[trigger] registry_get(next, k)
                == registry_get(m, k) by {
            lemma_insert_aliases_other(cleared, als, cmd.metadata.name, k);
            assert(alias_leads_home(m, k));
            if let Some(owner) = lookup(m.aliases, k) {
                if owner@ == n {
                    assert(lookup(m.commands, n) is Some);
                }
            }
        }
    }
}

/// The alias at position `j` of a command called `name` clashes: it is the
/// command's own name, an earlier alias of the same command, the name of
/// another registered command, or an alias another command owns.
pub open spec fn alias_clashes<H>(m: RegistryModel<H>, name: Seq<char>, aliases: Seq<Seq<char>>, j: int) -> bool {
    let a = aliases[j];
    ||| a == name
    ||| exists|i: int| 0 <= i < j && aliases[i] == a
    ||| (lookup(m.commands, a) matches Some(e) && e.metadata.name@ != name)
    ||| (lookup(m.aliases, a) matches Some(o) && o@ != name)
}

proof fn lemma_alias_collision_none<H>(m: RegistryModel<H>, name: Seq<char>, aliases: Seq<Seq<char>>, i: int)
    requires
        0 <= i <= aliases.len(),
    ensures
        alias_collision(m, name, aliases, i) is None <==> forall|j: int|
            i <= j < aliases.len() ==> !#[trigger] alias_clashes(m, name, aliases, j),
    decreases aliases.len() - i,
{
    if i < aliases.len() {
        lemma_alias_collision_none(m, name, aliases, i + 1);
        let a = aliases[i];
        assert(aliases.take(i).contains(a) <==> exists|k: int| 0 <= k < i && aliases[k] == a) by {
            if aliases.take(i).contains(a) {
                let k = choose|k: int| 0 <= k < aliases.take(i).len() && aliases.take(i)[k] == a;
                assert(aliases[k] == a);
            }
            if exists|k: int| 0 <= k < i && aliases[k] == a {
                let k = choose|k: int| 0 <= k < i && aliases[k] == a;
                assert(aliases.take(i)[k] == a);
            }
        }
        if alias_clashes(m, name, aliases, i) {
            assert(alias_collision(m, name, aliases, i) is Some);
        }
    }
}

/// Registering fails exactly when the command's name is an alias owned by
/// another command, or one of its aliases clashes (is its own name, repeats
/// an earlier alias, is another command's name, or is another command's
/// alias). A failed registration leaves the registry as it was
/// (`CommandCatalogue::register`).
pub proof fn lemma_register_fails_iff<H>(m: RegistryModel<H>, cmd: Command<H>)
    ensures
        register_step(m, cmd) is Err <==> {
            let n = cmd.metadata.name@;
            let als = cmd.metadata.aliases.deep_view();
            ||| (lookup(m.aliases, n) matches Some(o) && o@ != n)
            ||| exists|j: int| 0 <= j < als.len() && #[trigger] alias_clashes(m, n, als, j)
        },
{
    lemma_alias_collision_none(m, cmd.metadata.name@, cmd.metadata.aliases.deep_view(), 0);
}

/// Registering a sequence of commands, all successfully: the registry stays
/// well formed, each name finds the last command registered under it, the
/// names not registered find what they found before, and the registered
/// commands come one per name in name order.
pub proof fn lemma_last_registration_wins<H>(m: RegistryModel<H>, cmds: Seq<Command<H>>)
    requires
        registry_wf(m),
    ensures
        register_all(m, cmds) matches Ok(next) ==> {
            &&& registry_wf(next)
            &&& forall|i: int|
                0 <= i < cmds.len() && (forall|j: int|
                    i < j < cmds.len() ==> cmds[j].metadata.name@ != cmds[i].metadata.name@)
                    ==> #[trigger] registry_get(next, cmds[i].metadata.name@) == Some(cmds[i])
            &&& forall|k: Seq<char>|
                (forall|i: int| 0 <= i < cmds.len() ==> cmds[i].metadata.name@ != k) ==> #[trigger] lookup(
                    next.commands,
                    k,
                ) == lookup(m.commands, k)
            &&& forall|i: int, j: int|
                0 <= i < j < registry_commands(next).len() ==> text_lt(
                    (#[trigger] registry_commands(next)[i]).metadata.name@,
                    (#[trigger] registry_commands(next)[j]).metadata.name@,
                )
        },
    decreases cmds.len(),
{
    if cmds.len() > 0 {
        if let Ok(first) = register_step(m, cmds[0]) {
            let rest = cmds.drop_first();
            crate::registry::lemma_register_keeps_wf(m, cmds[0]);
            crate::registry::lemma_register_then_get_name(m, cmds[0]);
            lemma_last_registration_wins(first, rest);
            if let Ok(next) = register_all(m, cmds) {
                assert(register_all(first, rest) == Ok::<RegistryModel<H>, Seq<char>>(next));
                let n0 = cmds[0].metadata.name@;
                assert forall|k: Seq<char>| k != n0 implies lookup(first.commands, k) == lookup(m.commands, k) by {
                    crate::registry::lemma_register_keeps_other_commands(m, cmds[0], k);
                }
                assert forall|i: int|
                    0 <= i < cmds.len() && (forall|j: int|
                        i < j < cmds.len() ==> cmds[j].metadata.name@ != cmds[i].metadata.name@)
                        implies #[trigger] registry_get(next, cmds[i].metadata.name@) == Some(cmds[i]) by {
                    if i == 0 {
                        assert forall|j: int| 0 <= j < rest.len() implies (#[trigger] rest[j]).metadata.name@ != n0 by {
                            assert(rest[j] == cmds[j + 1]);
                        }
                        lemma_lookup_insert_same(remove_entry(m.commands, n0), n0, cmds[0]);
                        assert(lookup(first.commands, n0) == Some(cmds[0]));
                        assert(lookup(next.commands, n0) == lookup(first.commands, n0));
                    } else {
                        assert(rest[i - 1] == cmds[i]);
                        assert forall|j: int| i - 1 < j < rest.len() implies (#[trigger] rest[j]).metadata.name@
                            != rest[i - 1].metadata.name@ by {
                            assert(rest[j] == cmds[j + 1]);
                        }
                    }
                }
                assert forall|k: Seq<char>|
                    (forall|i: int| 0 <= i < cmds.len() ==> cmds[i].metadata.name@ != k) implies #[trigger] lookup(
                        next.commands,
                        k,
                    ) == lookup(m.commands, k) by {
                    assert forall|i: int| 0 <= i < rest.len() implies (#[trigger] rest[i]).metadata.name@ != k by {
                        assert(rest[i] == cmds[i + 1]);
                    }
                    assert(cmds[0].metadata.name@ != k);
                }
                crate::registry::lemma_registry_commands_ordered(next);
            }
        }
    } else {
        crate::registry::lemma_registry_commands_ordered(m);
    }
}

} // verus!
