//! The plain-text help renderer: a usage header and one block of lines per
//! command, nested subcommands indented under their parents.
use vstd::prelude::*;

use crate::command::{Command, derefs, lemma_catalog_smaller, strategy_catalog};
use crate::metadata::{
    ArgumentDefinition, ArgumentDefinitionModel, CommandMetaData, SwitchDefinition, SwitchModel,
};
use crate::text::{join2, join_texts, joined, owned};

verus! {

/// The line that lists a switch declaration.
pub open spec fn switch_line(ind: Seq<char>, o: SwitchModel) -> Seq<char> {
    if o.aliases.len() == 0 {
        "    "@ + ind + "    - --"@ + o.name + ": "@ + o.description
    } else {
        "    "@ + ind + "    - --"@ + o.name + " (aliases: "@ + joined(o.aliases, ", "@) + "): "@
            + o.description
    }
}

/// An argument's name, marked when it is required.
pub open spec fn argument_label(a: ArgumentDefinitionModel) -> Seq<char> {
    if a.required {
        a.name + " [required]"@
    } else {
        a.name
    }
}

/// The line that lists an argument declaration.
pub open spec fn argument_line(ind: Seq<char>, a: ArgumentDefinitionModel) -> Seq<char> {
    if a.aliases.len() == 0 {
        "    "@ + ind + "    - --"@ + argument_label(a) + ": "@ + a.description
    } else {
        "    "@ + ind + "    - --"@ + argument_label(a) + " (aliases: "@ + joined(a.aliases, ", "@)
            + "): "@ + a.description
    }
}

/// A heading line followed by one line per item, or nothing without items.
pub open spec fn section(heading: Seq<char>, items: Seq<Seq<char>>) -> Seq<Seq<char>> {
    if items.len() == 0 {
        Seq::empty()
    } else {
        seq![heading] + items
    }
}

/// The first lines that describe `m`: name and description, then usage,
/// details and aliases where present.
pub open spec fn head_lines(m: CommandMetaData, ind: Seq<char>, path: Seq<char>) -> Seq<Seq<char>> {
    seq!["    "@ + ind + "- "@ + path + ": "@ + m.description@] + match m.usage {
        Some(u) => seq!["    "@ + ind + "  usage: "@ + u@],
        None => Seq::empty(),
    } + match m.long_description {
        Some(d) => seq!["    "@ + ind + "  details: "@ + d@],
        None => Seq::empty(),
    } + if m.aliases@.len() == 0 {
        Seq::empty()
    } else {
        seq!["    "@ + ind + "  aliases: "@ + joined(m.aliases.deep_view(), ", "@)]
    }
}

/// The line that lists an example.
pub open spec fn example_line(ind: Seq<char>, e: Seq<char>) -> Seq<char> {
    "    "@ + ind + "    - "@ + e
}

/// The lines that describe `c` itself, indented by `ind`, listed as `path`.
pub open spec fn own_lines<H>(c: Command<H>, ind: Seq<char>, path: Seq<char>) -> Seq<Seq<char>> {
    let m = c.metadata;
    head_lines(m, ind, path) + section(
        "    "@ + ind + "  examples:"@,
        m.examples.deep_view().map_values(|e: Seq<char>| example_line(ind, e)),
    ) + section(
        "    "@ + ind + "  switches:"@,
        m.options.deep_view().map_values(|o: SwitchModel| switch_line(ind, o)),
    ) + section(
        "    "@ + ind + "  arguments:"@,
        m.arguments.deep_view().map_values(|a: ArgumentDefinitionModel| argument_line(ind, a)),
    )
}

/// The lines that describe `c` and, below it, its subcommands, each one
/// level deeper and listed under its parent's path.
pub open spec fn cmd_lines<H>(c: Command<H>, ind: Seq<char>, path: Seq<char>) -> Seq<Seq<char>>
    decreases c, 1nat, 0nat,
{
    own_lines(c, ind, path) + match strategy_catalog(c.strategy) {
        Some(cat) => children_lines(c, ind, path, cat.len()),
        None => Seq::empty(),
    }
}

/// The lines of the first `n` subcommands of `parent`.
pub open spec fn children_lines<H>(parent: Command<H>, ind: Seq<char>, path: Seq<char>, n: nat) -> Seq<
    Seq<char>,
>
    decreases parent, 0nat, n,
{
    match strategy_catalog(parent.strategy) {
        Some(cat) => if n == 0 || n > cat.len() {
            Seq::empty()
        } else {
            let child = cat[n - 1];
            proof {
                assert(cat.contains(child));
                lemma_catalog_smaller(parent.strategy, child);
            }
            children_lines(parent, ind, path, (n - 1) as nat) + cmd_lines(
                child,
                ind + "  "@,
                path + " "@ + child.metadata.name@,
            )
        },
        None => Seq::empty(),
    }
}

/// The lines of all the given top-level commands, in order.
pub open spec fn all_lines<H>(cmds: Seq<Command<H>>) -> Seq<Seq<char>>
    decreases cmds.len(),
{
    if cmds.len() == 0 {
        Seq::empty()
    } else {
        all_lines(cmds.drop_last()) + cmd_lines(
            cmds.last(),
            Seq::empty(),
            cmds.last().metadata.name@,
        )
    }
}

/// `steps` is a chain of subcommands below `c`: the first is a subcommand
/// of `c`, each next one a subcommand of the one before.
pub open spec fn subcommand_chain<H>(c: Command<H>, steps: Seq<Command<H>>) -> bool
    decreases steps.len(),
{
    if steps.len() == 0 {
        true
    } else {
        &&& strategy_catalog(c.strategy) matches Some(cat)
        &&& cat.contains(steps[0])
        &&& subcommand_chain(steps[0], steps.drop_first())
    }
}

/// The command a chain below `c` ends at (`c` itself for no steps).
pub open spec fn chain_end<H>(c: Command<H>, steps: Seq<Command<H>>) -> Command<H>
    decreases steps.len(),
{
    if steps.len() == 0 {
        c
    } else {
        chain_end(steps[0], steps.drop_first())
    }
}

/// The names of the commands of a chain, each after a space.
pub open spec fn chain_path<H>(steps: Seq<Command<H>>) -> Seq<char>
    decreases steps.len(),
{
    if steps.len() == 0 {
        Seq::empty()
    } else {
        " "@ + steps[0].metadata.name@ + chain_path(steps.drop_first())
    }
}

/// Two spaces per level.
pub open spec fn indent(depth: nat) -> Seq<char>
    decreases depth,
{
    if depth == 0 {
        Seq::empty()
    } else {
        "  "@ + indent((depth - 1) as nat)
    }
}

/// The line that lists a command under `path`, indented by `ind`.
pub open spec fn entry_line(ind: Seq<char>, path: Seq<char>, description: Seq<char>) -> Seq<char> {
    "    "@ + ind + "- "@ + path + ": "@ + description
}

proof fn lemma_contains_left<A>(a: Seq<A>, b: Seq<A>, x: A)
    requires
        a.contains(x),
    ensures
        (a + b).contains(x),
{
    let i = choose|i: int| 0 <= i < a.len() && a[i] == x;
    assert((a + b)[i] == x);
}

proof fn lemma_contains_right<A>(a: Seq<A>, b: Seq<A>, x: A)
    requires
        b.contains(x),
    ensures
        (a + b).contains(x),
{
    let i = choose|i: int| 0 <= i < b.len() && b[i] == x;
    assert((a + b)[a.len() + i] == x);
}

proof fn lemma_children_lines_contain<H>(
    parent: Command<H>,
    ind: Seq<char>,
    path: Seq<char>,
    n: nat,
    j: int,
    line: Seq<char>,
)
    requires
        strategy_catalog(parent.strategy) matches Some(cat) && 0 <= j < n <= cat.len() && cmd_lines(
            cat[j],
            ind + "  "@,
            path + " "@ + cat[j].metadata.name@,
        ).contains(line),
    ensures
        children_lines(parent, ind, path, n).contains(line),
    decreases n,
{
    let cat = strategy_catalog(parent.strategy)->0;
    let child = cat[n - 1];
    let before = children_lines(parent, ind, path, (n - 1) as nat);
    let mine = cmd_lines(child, ind + "  "@, path + " "@ + child.metadata.name@);
    assert(children_lines(parent, ind, path, n) == before + mine);
    if j == n - 1 {
        lemma_contains_right(before, mine, line);
    } else {
        lemma_children_lines_contain(parent, ind, path, (n - 1) as nat, j, line);
        lemma_contains_left(before, mine, line);
    }
}

proof fn lemma_cmd_lines_hold_chain_end<H>(
    c: Command<H>,
    ind: Seq<char>,
    path: Seq<char>,
    steps: Seq<Command<H>>,
    x: Seq<char>,
)
    requires
        subcommand_chain(c, steps),
        own_lines(chain_end(c, steps), ind + indent(steps.len()), path + chain_path(steps)).contains(x),
    ensures
        cmd_lines(c, ind, path).contains(x),
    decreases steps.len(),
{
    let own = own_lines(c, ind, path);
    let rest = match strategy_catalog(c.strategy) {
        Some(cat) => children_lines(c, ind, path, cat.len()),
        None => Seq::empty(),
    };
    assert(cmd_lines(c, ind, path) == own + rest);
    if steps.len() == 0 {
        assert(ind + indent(0) =~= ind);
        assert(path + chain_path(steps) =~= path);
        lemma_contains_left(own, rest, x);
    } else {
        let cat = strategy_catalog(c.strategy)->0;
        let child = steps[0];
        let tail = steps.drop_first();
        let j = choose|j: int| 0 <= j < cat.len() && cat[j] == child;
        let cind = ind + "  "@;
        let cpath = path + " "@ + child.metadata.name@;
        assert(cind + indent(tail.len()) =~= ind + indent(steps.len()));
        assert(cpath + chain_path(tail) =~= path + chain_path(steps));
        lemma_cmd_lines_hold_chain_end(child, cind, cpath, tail, x);
        lemma_children_lines_contain(c, ind, path, cat.len(), j, x);
        lemma_contains_right(own, rest, x);
    }
}

proof fn lemma_cmd_lines_list_chain<H>(c: Command<H>, ind: Seq<char>, path: Seq<char>, steps: Seq<Command<H>>)
    requires
        subcommand_chain(c, steps),
    ensures
        cmd_lines(c, ind, path).contains(
            entry_line(
                ind + indent(steps.len()),
                path + chain_path(steps),
                chain_end(c, steps).metadata.description@,
            ),
        ),
{
    let d = chain_end(c, steps);
    let dind = ind + indent(steps.len());
    let dpath = path + chain_path(steps);
    let line = entry_line(dind, dpath, d.metadata.description@);
    assert(head_lines(d.metadata, dind, dpath)[0] == line);
    assert(own_lines(d, dind, dpath)[0] == line);
    lemma_cmd_lines_hold_chain_end(c, ind, path, steps, line);
}

proof fn lemma_all_lines_contain<H>(cmds: Seq<Command<H>>, k: int, line: Seq<char>)
    requires
        0 <= k < cmds.len(),
        cmd_lines(cmds[k], Seq::empty(), cmds[k].metadata.name@).contains(line),
    ensures
        all_lines(cmds).contains(line),
    decreases cmds.len(),
{
    let before = all_lines(cmds.drop_last());
    let mine = cmd_lines(cmds.last(), Seq::empty(), cmds.last().metadata.name@);
    if k == cmds.len() - 1 {
        lemma_contains_right(before, mine, line);
    } else {
        assert(cmds.drop_last()[k] == cmds[k]);
        lemma_all_lines_contain(cmds.drop_last(), k, line);
        lemma_contains_left(before, mine, line);
    }
}

/// Help lists every command reachable from a given command through
/// subcommand catalogs (those behind a handler with subcommands included),
/// each on its own line, indented by its depth, under its full path: the
/// names from the top-level command down to it, separated by spaces.
pub proof fn lemma_help_lists_every_subcommand<H>(cmds: Seq<Command<H>>, k: int, steps: Seq<Command<H>>)
    requires
        0 <= k < cmds.len(),
        subcommand_chain(cmds[k], steps),
    ensures
        all_lines(cmds).contains(
            entry_line(
                indent(steps.len()),
                cmds[k].metadata.name@ + chain_path(steps),
                chain_end(cmds[k], steps).metadata.description@,
            ),
        ),
{
    lemma_cmd_lines_list_chain(cmds[k], Seq::empty(), cmds[k].metadata.name@, steps);
    assert(Seq::<char>::empty() + indent(steps.len()) =~= indent(steps.len()));
    lemma_all_lines_contain(
        cmds,
        k,
        entry_line(
            indent(steps.len()),
            cmds[k].metadata.name@ + chain_path(steps),
            chain_end(cmds[k], steps).metadata.description@,
        ),
    );
}

/// The declaration lines of a command at indentation `ind`: under an
/// `examples:`, `switches:` and `arguments:` heading (each present when the
/// command declares any), one line per example, switch and argument.
proof fn lemma_own_lines_list_declarations<H>(d: Command<H>, ind: Seq<char>, path: Seq<char>)
    ensures
        ({
            let own = own_lines(d, ind, path);
            let m = d.metadata;
            &&& m.usage matches Some(u) ==> own.contains("    "@ + ind + "  usage: "@ + u@)
            &&& m.long_description matches Some(t) ==> own.contains("    "@ + ind + "  details: "@ + t@)
            &&& m.aliases@.len() > 0 ==> own.contains(
                "    "@ + ind + "  aliases: "@ + joined(m.aliases.deep_view(), ", "@),
            )
            &&& m.examples@.len() > 0 ==> own.contains("    "@ + ind + "  examples:"@)
            &&& forall|q: int|
                0 <= q < m.examples@.len() ==> own.contains(
                    #[trigger] example_line(ind, m.examples.deep_view()[q]),
                )
            &&& m.options@.len() > 0 ==> own.contains("    "@ + ind + "  switches:"@)
            &&& forall|q: int|
                0 <= q < m.options@.len() ==> own.contains(#[trigger] switch_line(ind, m.options.deep_view()[q]))
            &&& m.arguments@.len() > 0 ==> own.contains("    "@ + ind + "  arguments:"@)
            &&& forall|q: int|
                0 <= q < m.arguments@.len() ==> own.contains(
                    #[trigger] argument_line(ind, m.arguments.deep_view()[q]),
                )
        }),
{
    let m = d.metadata;
    let head = head_lines(m, ind, path);
    let ex = section(
        "    "@ + ind + "  examples:"@,
        m.examples.deep_view().map_values(|e: Seq<char>| example_line(ind, e)),
    );
    let sw = section(
        "    "@ + ind + "  switches:"@,
        m.options.deep_view().map_values(|o: SwitchModel| switch_line(ind, o)),
    );
    let ar = section(
        "    "@ + ind + "  arguments:"@,
        m.arguments.deep_view().map_values(|a: ArgumentDefinitionModel| argument_line(ind, a)),
    );
    let own = own_lines(d, ind, path);
    assert(own == head + ex + sw + ar);
    let l0 = seq!["    "@ + ind + "- "@ + path + ": "@ + m.description@];
    let lu = match m.usage {
        Some(u) => seq!["    "@ + ind + "  usage: "@ + u@],
        None => Seq::<Seq<char>>::empty(),
    };
    let ld = match m.long_description {
        Some(t) => seq!["    "@ + ind + "  details: "@ + t@],
        None => Seq::<Seq<char>>::empty(),
    };
    let la = if m.aliases@.len() == 0 {
        Seq::<Seq<char>>::empty()
    } else {
        seq!["    "@ + ind + "  aliases: "@ + joined(m.aliases.deep_view(), ", "@)]
    };
    assert(head == l0 + lu + ld + la);
    assert forall|x: Seq<char>| head.contains(x) implies own.contains(x) by {
        lemma_contains_left(head, ex, x);
        lemma_contains_left(head + ex, sw, x);
        lemma_contains_left(head + ex + sw, ar, x);
    }
    if let Some(u) = m.usage {
        assert(lu[0] == "    "@ + ind + "  usage: "@ + u@);
        lemma_contains_right(l0, lu, lu[0]);
        lemma_contains_left(l0 + lu, ld, lu[0]);
        lemma_contains_left(l0 + lu + ld, la, lu[0]);
    }
    if let Some(t) = m.long_description {
        assert(ld[0] == "    "@ + ind + "  details: "@ + t@);
        lemma_contains_right(l0 + lu, ld, ld[0]);
        lemma_contains_left(l0 + lu + ld, la, ld[0]);
    }
    if m.aliases@.len() > 0 {
        lemma_contains_right(l0 + lu + ld, la, la[0]);
    }
    if m.examples@.len() > 0 {
        assert(ex[0] == "    "@ + ind + "  examples:"@);
        lemma_contains_right(head, ex, ex[0]);
        lemma_contains_left(head + ex, sw, ex[0]);
        lemma_contains_left(head + ex + sw, ar, ex[0]);
    }
    assert forall|q: int| 0 <= q < m.examples@.len() implies own.contains(
        #[trigger] example_line(ind, m.examples.deep_view()[q]),
    ) by {
        let x = example_line(ind, m.examples.deep_view()[q]);
        assert(ex[q + 1] == x);
        lemma_contains_right(head, ex, x);
        lemma_contains_left(head + ex, sw, x);
        lemma_contains_left(head + ex + sw, ar, x);
    }
    if m.options@.len() > 0 {
        assert(sw[0] == "    "@ + ind + "  switches:"@);
        lemma_contains_right(head + ex, sw, sw[0]);
        lemma_contains_left(head + ex + sw, ar, sw[0]);
    }
    assert forall|q: int| 0 <= q < m.options@.len() implies own.contains(
        #[trigger] switch_line(ind, m.options.deep_view()[q]),
    ) by {
        let x = switch_line(ind, m.options.deep_view()[q]);
        assert(sw[q + 1] == x);
        lemma_contains_right(head + ex, sw, x);
        lemma_contains_left(head + ex + sw, ar, x);
    }
    if m.arguments@.len() > 0 {
        assert(ar[0] == "    "@ + ind + "  arguments:"@);
        lemma_contains_right(head + ex + sw, ar, ar[0]);
    }
    assert forall|q: int| 0 <= q < m.arguments@.len() implies own.contains(
        #[trigger] argument_line(ind, m.arguments.deep_view()[q]),
    ) by {
        let x = argument_line(ind, m.arguments.deep_view()[q]);
        assert(ar[q + 1] == x);
        lemma_contains_right(head + ex + sw, ar, x);
    }
}

/// Help describes every command reachable through subcommand catalogs as
/// fully as a top-level command: at its depth's indentation it lists the
/// command's usage, details and aliases where present, and its examples,
/// switches and arguments, each under its heading when the command declares
/// any, one line per declaration.
pub proof fn lemma_help_lists_every_subcommand_declarations<H>(
    cmds: Seq<Command<H>>,
    k: int,
    steps: Seq<Command<H>>,
)
    requires
        0 <= k < cmds.len(),
        subcommand_chain(cmds[k], steps),
    ensures
        ({
            let d = chain_end(cmds[k], steps).metadata;
            let ind = indent(steps.len());
            let lines = all_lines(cmds);
            &&& d.usage matches Some(u) ==> lines.contains("    "@ + ind + "  usage: "@ + u@)
            &&& d.long_description matches Some(t) ==> lines.contains(
                "    "@ + ind + "  details: "@ + t@,
            )
            &&& d.aliases@.len() > 0 ==> lines.contains(
                "    "@ + ind + "  aliases: "@ + joined(d.aliases.deep_view(), ", "@),
            )
            &&& d.examples@.len() > 0 ==> lines.contains("    "@ + ind + "  examples:"@)
            &&& forall|q: int|
                0 <= q < d.examples@.len() ==> lines.contains(
                    #[trigger] example_line(ind, d.examples.deep_view()[q]),
                )
            &&& d.options@.len() > 0 ==> lines.contains("    "@ + ind + "  switches:"@)
            &&& forall|q: int|
                0 <= q < d.options@.len() ==> lines.contains(
                    #[trigger] switch_line(ind, d.options.deep_view()[q]),
                )
            &&& d.arguments@.len() > 0 ==> lines.contains("    "@ + ind + "  arguments:"@)
            &&& forall|q: int|
                0 <= q < d.arguments@.len() ==> lines.contains(
                    #[trigger] argument_line(ind, d.arguments.deep_view()[q]),
                )
        }),
{
    let c = cmds[k];
    let end = chain_end(c, steps);
    let ind = indent(steps.len());
    let top = c.metadata.name@;
    let path = top + chain_path(steps);
    assert(Seq::<char>::empty() + indent(steps.len()) =~= ind);
    lemma_own_lines_list_declarations(end, ind, path);
    let own = own_lines(end, ind, path);
    assert forall|x: Seq<char>| own.contains(x) implies #[trigger] all_lines(cmds).contains(x) by {
        lemma_cmd_lines_hold_chain_end(c, Seq::empty(), top, steps, x);
        lemma_all_lines_contain(cmds, k, x);
    }
}

/// The help text for the binary `caller` and the given commands.
pub open spec fn help_text<H>(caller: Seq<char>, cmds: Seq<Command<H>>) -> Seq<char> {
    "Usage: "@ + caller
        + " <command> [args...]\n    Registered commands are listed below.\n\n    supported commands:\n            - help : Display help information\n    "@
        + joined(all_lines(cmds), "\n"@) + "\n\n        "@
}

/// The default plain-text help renderer.
pub struct PlainTextHelpRenderer;

/// Appends the first lines that describe `m`.
fn push_head(out: &mut Vec<String>, m: &CommandMetaData, ind: &String, path: &String)
    ensures
        final(out).deep_view() =~= old(out).deep_view() + head_lines(*m, ind@, path@),
{
    let ghost start = out.deep_view();
    let mut first = owned("    ");
    first.append(ind.as_str());
    first.append("- ");
    first.append(path.as_str());
    first.append(": ");
    first.append(m.description.as_str());
    out.push(first);
    let ghost l1 = out.deep_view();
    assert(l1 =~= start + seq!["    "@ + ind@ + "- "@ + path@ + ": "@ + m.description@]);
    match &m.usage {
        Some(usage) => {
            let mut line = owned("    ");
            line.append(ind.as_str());
            line.append("  usage: ");
            line.append(usage.as_str());
            out.push(line);
        },
        None => {},
    }
    let ghost l2 = out.deep_view();
    assert(l2 =~= l1 + match m.usage {
        Some(u) => seq!["    "@ + ind@ + "  usage: "@ + u@],
        None => Seq::<Seq<char>>::empty(),
    });
    match &m.long_description {
        Some(details) => {
            let mut line = owned("    ");
            line.append(ind.as_str());
            line.append("  details: ");
            line.append(details.as_str());
            out.push(line);
        },
        None => {},
    }
    let ghost l3 = out.deep_view();
    assert(l3 =~= l2 + match m.long_description {
        Some(d) => seq!["    "@ + ind@ + "  details: "@ + d@],
        None => Seq::<Seq<char>>::empty(),
    });
    if m.aliases.len() > 0 {
        let mut line = owned("    ");
        line.append(ind.as_str());
        line.append("  aliases: ");
        let list = join_texts(&m.aliases, ", ");
        line.append(list.as_str());
        out.push(line);
    }
    assert(out.deep_view() =~= l3 + if m.aliases@.len() == 0 {
        Seq::<Seq<char>>::empty()
    } else {
        seq!["    "@ + ind@ + "  aliases: "@ + joined(m.aliases.deep_view(), ", "@)]
    });
}

/// Appends the examples section.
fn push_examples(out: &mut Vec<String>, ind: &String, items: &Vec<String>)
    ensures
        final(out).deep_view() =~= old(out).deep_view() + section(
            "    "@ + ind@ + "  examples:"@,
            items.deep_view().map_values(|e: Seq<char>| example_line(ind@, e)),
        ),
{
    let ghost start = out.deep_view();
    let ghost lines = items.deep_view().map_values(|e: Seq<char>| example_line(ind@, e));
    if items.len() == 0 {
        assert(lines.len() == 0);
        return;
    }
    let mut heading = owned("    ");
    heading.append(ind.as_str());
    heading.append("  examples:");
    out.push(heading);
    let ghost base = out.deep_view();
    let mut i: usize = 0;
    while i < items.len()
        invariant
            i <= items@.len(),
            lines == items.deep_view().map_values(|e: Seq<char>| example_line(ind@, e)),
            out.deep_view() =~= base + lines.take(i as int),
        decreases items@.len() - i,
    {
        let mut line = owned("    ");
        line.append(ind.as_str());
        line.append("    - ");
        line.append(items[i].as_str());
        assert(items.deep_view()[i as int] == items@[i as int]@);
        assert(line@ =~= lines[i as int]);
        let ghost before = out.deep_view();
        let ghost l = line@;
        out.push(line);
        assert(out.deep_view() =~= before.push(l));
        assert(lines.take(i + 1) =~= lines.take(i as int).push(lines[i as int]));
        i += 1;
    }
    assert(lines.take(i as int) =~= lines);
}

/// Appends the switches section.
fn push_switches(out: &mut Vec<String>, ind: &String, items: &Vec<SwitchDefinition>)
    ensures
        final(out).deep_view() =~= old(out).deep_view() + section(
            "    "@ + ind@ + "  switches:"@,
            items.deep_view().map_values(|o: SwitchModel| switch_line(ind@, o)),
        ),
{
    let ghost lines = items.deep_view().map_values(|o: SwitchModel| switch_line(ind@, o));
    if items.len() == 0 {
        assert(lines.len() == 0);
        return;
    }
    let mut heading = owned("    ");
    heading.append(ind.as_str());
    heading.append("  switches:");
    out.push(heading);
    let ghost base = out.deep_view();
    let mut i: usize = 0;
    while i < items.len()
        invariant
            i <= items@.len(),
            lines == items.deep_view().map_values(|o: SwitchModel| switch_line(ind@, o)),
            out.deep_view() =~= base + lines.take(i as int),
        decreases items@.len() - i,
    {
        let o = &items[i];
        assert(items.deep_view()[i as int] == o@);
        let mut line = owned("    ");
        line.append(ind.as_str());
        line.append("    - --");
        line.append(o.name.as_str());
        if o.aliases.len() > 0 {
            line.append(" (aliases: ");
            let list = join_texts(&o.aliases, ", ");
            line.append(list.as_str());
            line.append("): ");
        } else {
            line.append(": ");
        }
        line.append(o.description.as_str());
        assert(line@ =~= switch_line(ind@, o@));
        let ghost before = out.deep_view();
        let ghost l = line@;
        out.push(line);
        assert(out.deep_view() =~= before.push(l));
        assert(lines.take(i + 1) =~= lines.take(i as int).push(lines[i as int]));
        i += 1;
    }
    assert(lines.take(i as int) =~= lines);
}

/// Appends the arguments section.
fn push_arguments(out: &mut Vec<String>, ind: &String, items: &Vec<ArgumentDefinition>)
    ensures
        final(out).deep_view() =~= old(out).deep_view() + section(
            "    "@ + ind@ + "  arguments:"@,
            items.deep_view().map_values(|a: ArgumentDefinitionModel| argument_line(ind@, a)),
        ),
{
    let ghost lines = items.deep_view().map_values(
        |a: ArgumentDefinitionModel| argument_line(ind@, a),
    );
    if items.len() == 0 {
        assert(lines.len() == 0);
        return;
    }
    let mut heading = owned("    ");
    heading.append(ind.as_str());
    heading.append("  arguments:");
    out.push(heading);
    let ghost base = out.deep_view();
    let mut i: usize = 0;
    while i < items.len()
        invariant
            i <= items@.len(),
            lines == items.deep_view().map_values(
                |a: ArgumentDefinitionModel| argument_line(ind@, a),
            ),
            out.deep_view() =~= base + lines.take(i as int),
        decreases items@.len() - i,
    {
        let a = &items[i];
        assert(items.deep_view()[i as int] == a@);
        let mut line = owned("    ");
        line.append(ind.as_str());
        line.append("    - --");
        line.append(a.name.as_str());
        if a.required {
            line.append(" [required]");
        }
        if a.aliases.len() > 0 {
            line.append(" (aliases: ");
            let list = join_texts(&a.aliases, ", ");
            line.append(list.as_str());
            line.append("): ");
        } else {
            line.append(": ");
        }
        line.append(a.description.as_str());
        assert(line@ =~= argument_line(ind@, a@));
        let ghost before = out.deep_view();
        let ghost l = line@;
        out.push(line);
        assert(out.deep_view() =~= before.push(l));
        assert(lines.take(i + 1) =~= lines.take(i as int).push(lines[i as int]));
        i += 1;
    }
    assert(lines.take(i as int) =~= lines);
}

impl PlainTextHelpRenderer {
    /// Appends the lines that describe `command` (indented by `ind`, listed
    /// as `path`) and its subcommands.
    fn render_recursive<H>(command: &Command<H>, ind: &String, path: &String, out: &mut Vec<String>)
        ensures
            final(out).deep_view() == old(out).deep_view() + cmd_lines(*command, ind@, path@),
        decreases command,
    {
        let ghost start = out.deep_view();
        let m = &command.metadata;
        push_head(out, m, ind, path);
        push_examples(out, ind, &m.examples);
        push_switches(out, ind, &m.options);
        push_arguments(out, ind, &m.arguments);
        assert(out.deep_view() =~= start + own_lines(*command, ind@, path@));
        let ghost after_own = out.deep_view();
        match command.subcommand_catalog() {
            Some(cat) => {
                let ghost scat = derefs(cat@);
                let child_ind = join2(ind.as_str(), "  ");
                let mut i: usize = 0;
                while i < cat.len()
                    invariant
                        i <= cat@.len(),
                        strategy_catalog(command.strategy) == Some(scat),
                        scat == derefs(cat@),
                        child_ind@ == ind@ + "  "@,
                        out.deep_view() =~= after_own + children_lines(
                            *command,
                            ind@,
                            path@,
                            i as nat,
                        ),
                    decreases cat@.len() - i,
                {
                    let child = cat[i];
                    assert(scat[i as int] == *child);
                    proof {
                        assert(scat.contains(*child));
                        lemma_catalog_smaller(command.strategy, *child);
                    }
                    let mut child_path = copy_path(path);
                    child_path.append(" ");
                    child_path.append(child.metadata.name.as_str());
                    let ghost before = out.deep_view();
                    Self::render_recursive(child, &child_ind, &child_path, out);
                    proof {
                        assert(child_path@ == path@ + " "@ + child.metadata.name@);
                        assert(children_lines(*command, ind@, path@, (i + 1) as nat)
                            == children_lines(*command, ind@, path@, i as nat) + cmd_lines(
                            *child,
                            ind@ + "  "@,
                            path@ + " "@ + child.metadata.name@,
                        ));
                    }
                    i += 1;
                }
            },
            None => {},
        }
    }

    /// The help text for the binary `caller` and the given commands.
    pub fn render<H>(&self, caller: &String, registered_commands: &Vec<&Command<H>>) -> (r: String)
        ensures
            r@ == help_text(caller@, derefs(registered_commands@)),
    {
        let ghost cmds = derefs(registered_commands@);
        let mut lines: Vec<String> = Vec::new();
        let empty = String::new();
        let mut i: usize = 0;
        while i < registered_commands.len()
            invariant
                i <= registered_commands@.len(),
                cmds == derefs(registered_commands@),
                empty@ == Seq::<char>::empty(),
                lines.deep_view() =~= all_lines(cmds.take(i as int)),
            decreases registered_commands@.len() - i,
        {
            let c = registered_commands[i];
            proof {
                assert(cmds.take(i + 1).drop_last() =~= cmds.take(i as int));
                assert(cmds.take(i + 1).last() == *c);
            }
            Self::render_recursive(c, &empty, &c.metadata.name, &mut lines);
            i += 1;
        }
        assert(cmds.take(i as int) =~= cmds);
        let command_lines = join_texts(&lines, "\n");
        let mut r = owned("Usage: ");
        r.append(caller.as_str());
        r.append(
            " <command> [args...]\n    Registered commands are listed below.\n\n    supported commands:\n            - help : Display help information\n    ",
        );
        r.append(command_lines.as_str());
        r.append("\n\n        ");
        r
    }
}

/// A copy of a path text.
fn copy_path(p: &String) -> (r: String)
    ensures
        r@ == p@,
{
    p.clone()
}

} // verus!
