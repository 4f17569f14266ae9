//! The built-in command tree of the command-line front end.
//!
//! Commands form a tree of names with aliases.  A multi-part command path is
//! valid when each part names a subcommand of the one before; and the whole
//! tree flattens into a manual-page lookup table where an alias redirects to
//! its primary command's page.

use vstd::prelude::*;

use crate::strutil::str_eq;

verus! {

/// One command: its name, its aliases, and its subcommands.
pub struct CommandNode {
    pub name: String,
    pub aliases: Vec<String>,
    pub subcommands: Vec<CommandNode>,
}

/// How a command name maps to a manual page.
pub enum ManPageLookup {
    /// A primary command name: its own page.
    Direct,
    /// An alias: the page of the primary command.
    RedirectTo { primary: String },
}

/// Whether a node answers to a name, by its own name or an alias.
pub open spec fn spec_match_node(n: CommandNode, part: Seq<char>) -> bool {
    n.name@ == part || exists|a: int| 0 <= a < n.aliases@.len() && #[trigger] n.aliases@[a]@ == part
}

/// The first subcommand answering to a name, if any.
pub open spec fn spec_find_sub(nodes: Seq<CommandNode>, part: Seq<char>, from: int) -> Option<int>
    decreases nodes.len() - from,
{
    if from < 0 || from >= nodes.len() {
        None
    } else if spec_match_node(nodes[from], part) {
        Some(from)
    } else {
        spec_find_sub(nodes, part, from + 1)
    }
}

/// Whether the remaining parts descend through the subcommands of `node`.
pub open spec fn spec_walk_path(node: CommandNode, parts: Seq<Seq<char>>, idx: int) -> bool
    decreases parts.len() - idx,
{
    if idx < 0 || idx >= parts.len() {
        true
    } else {
        match spec_find_sub(node.subcommands@, parts[idx], 0) {
            None => false,
            Some(j) => if 0 <= j < node.subcommands@.len() {
                spec_walk_path(node.subcommands@[j], parts, idx + 1)
            } else {
                false
            },
        }
    }
}

/// The first top-level command with a given primary name, if any.  The
/// first level matches primary names only, never aliases.
pub open spec fn spec_find_root(nodes: Seq<CommandNode>, name: Seq<char>, from: int) -> Option<int>
    decreases nodes.len() - from,
{
    if from < 0 || from >= nodes.len() {
        None
    } else if nodes[from].name@ == name {
        Some(from)
    } else {
        spec_find_root(nodes, name, from + 1)
    }
}

/// Whether a multi-part command path names an actual nested command: the
/// first part must be a top-level command name, each further part a
/// subcommand name or alias of the one before.
pub open spec fn spec_valid_path(builtins: Seq<CommandNode>, parts: Seq<Seq<char>>) -> bool {
    if parts.len() == 0 {
        false
    } else {
        match spec_find_root(builtins, parts[0], 0) {
            None => false,
            Some(j) => if 0 <= j < builtins.len() {
                spec_walk_path(builtins[j], parts, 1)
            } else {
                false
            },
        }
    }
}

/// The lookup key of a command under an optional parent key: the parent
/// key, a dash, and the name.
pub open spec fn spec_cmd_key(prefix: Option<Seq<char>>, name: Seq<char>) -> Seq<char> {
    match prefix {
        Some(p) => p + seq!['-'] + name,
        None => name,
    }
}

/// The view of one lookup entry: the key, and the primary key an alias
/// redirects to, if it is an alias.
pub open spec fn entry_view(e: (String, ManPageLookup)) -> (Seq<char>, Option<Seq<char>>) {
    (
        e.0@,
        match e.1 {
            ManPageLookup::Direct => None,
            ManPageLookup::RedirectTo { primary } => Some(primary@),
        },
    )
}

/// The views of a list of lookup entries.
pub open spec fn entry_views(v: Seq<(String, ManPageLookup)>) -> Seq<
    (Seq<char>, Option<Seq<char>>),
> {
    v.map_values(|e: (String, ManPageLookup)| entry_view(e))
}

/// The lookup entries one command contributes: its subcommands' entries,
/// one redirect per alias, and finally its own primary entry.
pub open spec fn spec_cmd_entries(n: CommandNode, prefix: Option<Seq<char>>) -> Seq<
    (Seq<char>, Option<Seq<char>>),
>
    decreases n, 1int,
{
    let key = spec_cmd_key(prefix, n.name@);
    spec_cmd_entries_all(n.subcommands@, 0, Some(key)) + n.aliases@.map_values(
        |a: String| (spec_cmd_key(prefix, a@), Some(key)),
    ) + seq![(key, None)]
}

/// The lookup entries of a list of commands, in order.
pub open spec fn spec_cmd_entries_all(
    nodes: Seq<CommandNode>,
    from: int,
    prefix: Option<Seq<char>>,
) -> Seq<(Seq<char>, Option<Seq<char>>)>
    decreases nodes, nodes.len() - from, 0int,
{
    if from < 0 || from >= nodes.len() {
        Seq::empty()
    } else {
        spec_cmd_entries(nodes[from], prefix) + spec_cmd_entries_all(nodes, from + 1, prefix)
    }
}

/// Builds the lookup key of a command.
fn cmd_key(prefix: Option<&String>, name: &str) -> (r: String)
    ensures
        r@ == spec_cmd_key(
            match prefix {
                Some(p) => Some(p@),
                None => None,
            },
            name@,
        ),
{
    match prefix {
        Some(p) => {
            let mut out = String::from_str(p.as_str());
            proof {
                reveal_strlit("-");
                assert("-"@ =~= seq!['-']);
            }
            out.append("-");
            out.append(name);
            out
        },
        None => String::from_str(name),
    }
}

/// Appends the lookup entries of one command: the subcommands' entries,
/// the alias redirects, and the primary entry last, so that a later entry
/// for a key wins over an earlier one.
fn walk_command(cmd: &CommandNode, prefix: Option<&String>, out: &mut Vec<(String, ManPageLookup)>)
    ensures
        entry_views(final(out)@) == entry_views(old(out)@) + spec_cmd_entries(
            *cmd,
            match prefix {
                Some(p) => Some(p@),
                None => None,
            },
        ),
    decreases *cmd,
{
    let ghost prefix_view: Option<Seq<char>> = match prefix {
        Some(p) => Some(p@),
        None => None,
    };
    let key = cmd_key(prefix, cmd.name.as_str());
    let ghost keyv = key@;
    let ghost subs = cmd.subcommands@;
    let mut i: usize = 0;
    while i < cmd.subcommands.len()
        invariant
            subs == cmd.subcommands@,
            keyv == spec_cmd_key(prefix_view, cmd.name@),
            key@ == keyv,
            i <= subs.len(),
            entry_views(out@) =~~= entry_views(old(out)@) + spec_entries_upto(subs, i as int, keyv),
        decreases subs.len() - i,
    {
        let ghost pre = out@;
        walk_command(&cmd.subcommands[i], Some(&key), out);
        proof {
            lemma_entries_upto_step(subs, i as int, keyv);
            assert(entry_views(out@) =~~= entry_views(old(out)@) + spec_entries_upto(
                subs,
                i + 1,
                keyv,
            ));
        }
        i = i + 1;
    }
    let ghost after_subs = out@;
    let mut a: usize = 0;
    while a < cmd.aliases.len()
        invariant
            keyv == spec_cmd_key(prefix_view, cmd.name@),
            key@ == keyv,
            prefix_view == (match prefix {
                Some(p) => Some(p@),
                None => None,
            }),
            a <= cmd.aliases@.len(),
            entry_views(out@) =~~= entry_views(after_subs) + cmd.aliases@.subrange(
                0,
                a as int,
            ).map_values(|al: String| (spec_cmd_key(prefix_view, al@), Some(keyv))),
        decreases cmd.aliases@.len() - a,
    {
        let ghost pre = out@;
        let alias_key = cmd_key(prefix, cmd.aliases[a].as_str());
        let primary = String::from_str(key.as_str());
        let lookup = ManPageLookup::RedirectTo { primary };
        let entry = (alias_key, lookup);
        let ghost ev = entry_view(entry);
        proof {
            assert(ev == (spec_cmd_key(prefix_view, cmd.aliases@[a as int]@), Some(keyv)));
        }
        out.push(entry);
        proof {
            assert(entry_views(out@) =~~= entry_views(pre).push(ev));
            assert(entry_views(out@) =~~= entry_views(after_subs) + cmd.aliases@.subrange(
                0,
                a + 1,
            ).map_values(|al: String| (spec_cmd_key(prefix_view, al@), Some(keyv))));
        }
        a = a + 1;
    }
    let ghost after_aliases = out@;
    let direct = ManPageLookup::Direct;
    let last_entry = (key, direct);
    let ghost lev = entry_view(last_entry);
    proof {
        assert(lev == (keyv, None::<Seq<char>>));
    }
    out.push(last_entry);
    proof {
        assert(entry_views(out@) =~~= entry_views(after_aliases).push(lev));
        lemma_entries_upto_full(subs, keyv);
        assert(cmd.aliases@.subrange(0, cmd.aliases@.len() as int) =~= cmd.aliases@);
        assert(entry_views(out@) =~~= entry_views(old(out)@) + spec_cmd_entries(
            *cmd,
            prefix_view,
        ));
    }
}

/// The entries of the first `upto` commands of a list.
pub open spec fn spec_entries_upto(nodes: Seq<CommandNode>, upto: int, parent_key: Seq<char>) -> Seq<
    (Seq<char>, Option<Seq<char>>),
>
    decreases upto,
{
    if upto <= 0 {
        Seq::empty()
    } else {
        spec_entries_upto(nodes, upto - 1, parent_key) + (if upto - 1 < nodes.len() {
            spec_cmd_entries(nodes[upto - 1], Some(parent_key))
        } else {
            Seq::empty()
        })
    }
}

/// Taking one more command appends its entries.
proof fn lemma_entries_upto_step(nodes: Seq<CommandNode>, i: int, parent_key: Seq<char>)
    requires
        0 <= i < nodes.len(),
    ensures
        spec_entries_upto(nodes, i + 1, parent_key) == spec_entries_upto(nodes, i, parent_key)
            + spec_cmd_entries(nodes[i], Some(parent_key)),
{
}

/// All commands taken give the whole entry list.
proof fn lemma_entries_upto_full(nodes: Seq<CommandNode>, parent_key: Seq<char>)
    ensures
        spec_entries_upto(nodes, nodes.len() as int, parent_key) == spec_cmd_entries_all(
            nodes,
            0,
            Some(parent_key),
        ),
{
    lemma_entries_upto_shift(nodes, 0, parent_key);
}

/// The forward and backward accumulations of entries agree.
proof fn lemma_entries_upto_shift(nodes: Seq<CommandNode>, from: int, parent_key: Seq<char>)
    requires
        0 <= from <= nodes.len(),
    ensures
        spec_entries_upto(nodes, nodes.len() as int, parent_key) == spec_entries_upto(
            nodes,
            from,
            parent_key,
        ) + spec_cmd_entries_all(nodes, from, Some(parent_key)),
    decreases nodes.len() - from,
{
    if from < nodes.len() {
        lemma_entries_upto_shift(nodes, from + 1, parent_key);
        lemma_entries_upto_step(nodes, from, parent_key);
        assert(spec_entries_upto(nodes, nodes.len() as int, parent_key) =~= spec_entries_upto(
            nodes,
            from,
            parent_key,
        ) + spec_cmd_entries_all(nodes, from, Some(parent_key)));
    } else {
        assert(spec_entries_upto(nodes, nodes.len() as int, parent_key)
            =~= spec_entries_upto(nodes, from, parent_key) + spec_cmd_entries_all(
            nodes,
            from,
            Some(parent_key),
        ));
    }
}

/// The lookup entries of the top-level commands, each with no parent key.
pub open spec fn spec_root_entries(nodes: Seq<CommandNode>, from: int) -> Seq<
    (Seq<char>, Option<Seq<char>>),
>
    decreases nodes, nodes.len() - from, 0int,
{
    if from < 0 || from >= nodes.len() {
        Seq::empty()
    } else {
        spec_cmd_entries(nodes[from], None) + spec_root_entries(nodes, from + 1)
    }
}

/// Builds the manual-page lookup table of all built-in commands: every
/// command under its dashed path key, and every alias as a redirect to its
/// primary command's key.  A later entry for a key wins over an earlier
/// one.
pub fn all_builtin_commands(builtins: &Vec<CommandNode>) -> (r: Vec<(String, ManPageLookup)>)
    ensures
        entry_views(r@) == spec_root_entries(builtins@, 0),
{
    let mut out: Vec<(String, ManPageLookup)> = Vec::new();
    let mut i: usize = 0;
    proof {
        assert(entry_views(out@) =~~= Seq::<(Seq<char>, Option<Seq<char>>)>::empty());
    }
    while i < builtins.len()
        invariant
            i <= builtins@.len(),
            spec_root_entries(builtins@, 0) =~~= entry_views(out@) + spec_root_entries(
                builtins@,
                i as int,
            ),
        decreases builtins@.len() - i,
    {
        let ghost pre = entry_views(out@);
        walk_command(&builtins[i], None, out_mut(&mut out));
        i = i + 1;
    }
    proof {
        assert(spec_root_entries(builtins@, builtins@.len() as int) =~= Seq::<
            (Seq<char>, Option<Seq<char>>),
        >::empty());
    }
    out
}

/// Hands a vector on as a mutable reference.
fn out_mut<'a>(v: &'a mut Vec<(String, ManPageLookup)>) -> (r: &'a mut Vec<
    (String, ManPageLookup),
>)
    ensures
        *r == *old(v),
        *final(v) == *final(r),
{
    v
}

/// Finds the page lookup of a command name: the latest entry wins, as a
/// later insertion into a map would.
pub fn lookup_command<'a>(
    table: &'a Vec<(String, ManPageLookup)>,
    name: &str,
) -> (r: Option<&'a ManPageLookup>)
    ensures
        match r {
            Some(l) => exists|i: int|
                {
                    &&& 0 <= i < table@.len()
                    &&& (#[trigger] table@[i].0@) == name@
                    &&& *l == table@[i].1
                    &&& forall|j: int| i < j < table@.len() ==> table@[j].0@ != name@
                },
            None => forall|i: int| 0 <= i < table@.len() ==> (#[trigger] table@[i].0@) != name@,
        },
{
    let mut i: usize = table.len();
    while i > 0
        invariant
            i <= table@.len(),
            forall|j: int| i <= j < table@.len() ==> (#[trigger] table@[j].0@) != name@,
        decreases i,
    {
        i = i - 1;
        if str_eq(table[i].0.as_str(), name) {
            return Some(&table[i].1);
        }
    }
    None
}

/// Tests whether a node answers to a name.
fn match_node(n: &CommandNode, part: &str) -> (r: bool)
    ensures
        r == spec_match_node(*n, part@),
{
    if str_eq(n.name.as_str(), part) {
        return true;
    }
    let mut a: usize = 0;
    while a < n.aliases.len()
        invariant
            a <= n.aliases@.len(),
            forall|j: int| 0 <= j < a ==> #[trigger] n.aliases@[j]@ != part@,
        decreases n.aliases@.len() - a,
    {
        if str_eq(n.aliases[a].as_str(), part) {
            return true;
        }
        a = a + 1;
    }
    false
}

/// Descends the remaining parts through the subcommands of `node`.
fn walk_path(node: &CommandNode, parts: &Vec<String>, idx: usize) -> (r: bool)
    requires
        idx <= parts@.len(),
    ensures
        r == spec_walk_path(*node, parts@.map_values(|p: String| p@), idx as int),
    decreases parts@.len() - idx,
{
    let ghost pv = parts@.map_values(|p: String| p@);
    let plen = parts.len();
    if idx >= plen {
        return true;
    }
    let mut j: usize = 0;
    while j < node.subcommands.len()
        invariant
            plen == parts@.len(),
            idx < plen,
            pv == parts@.map_values(|p: String| p@),
            j <= node.subcommands@.len(),
            spec_find_sub(node.subcommands@, pv[idx as int], 0) == spec_find_sub(
                node.subcommands@,
                pv[idx as int],
                j as int,
            ),
        decreases node.subcommands@.len() - j,
    {
        if match_node(&node.subcommands[j], parts[idx].as_str()) {
            return walk_path(&node.subcommands[j], parts, idx + 1);
        }
        j = j + 1;
    }
    false
}

/// Validates that a multi-part command path names an actual nested command.
pub fn is_valid_builtin_command_path(builtins: &Vec<CommandNode>, parts: &Vec<String>) -> (r: bool)
    ensures
        r == spec_valid_path(builtins@, parts@.map_values(|p: String| p@)),
{
    let ghost pv = parts@.map_values(|p: String| p@);
    if parts.len() == 0 {
        return false;
    }
    let mut j: usize = 0;
    while j < builtins.len()
        invariant
            parts@.len() > 0,
            pv == parts@.map_values(|p: String| p@),
            j <= builtins@.len(),
            spec_find_root(builtins@, pv[0], 0) == spec_find_root(builtins@, pv[0], j as int),
        decreases builtins@.len() - j,
    {
        if str_eq(builtins[j].name.as_str(), parts[0].as_str()) {
            return walk_path(&builtins[j], parts, 1);
        }
        j = j + 1;
    }
    false
}

} // verus!
