//! Plugin-qualified names of commands and events.
use vstd::prelude::*;
use vstd::string::*;

verus! {

/// What a plugin-qualified name refers to.
#[derive(Debug, Copy, Clone)]
pub enum ItemType {
    Event,
    Command,
}

/// The separator between the plugin name and the item name: `:` for events,
/// `|` for commands.
pub open spec fn separator(item_type: ItemType) -> char {
    match item_type {
        ItemType::Event => ':',
        ItemType::Command => '|',
    }
}

/// `plugin:<plugin_name><separator><name>`.
pub open spec fn prefixed(plugin_name: Seq<char>, name: Seq<char>, item_type: ItemType) -> Seq<
    char,
> {
    seq!['p', 'l', 'u', 'g', 'i', 'n', ':'] + plugin_name + seq![separator(item_type)] + name
}

/// Qualifies the name `s` of an event or a command with the plugin that owns it.
pub fn apply_as_prefix(plugin_name: &str, s: &str, item_type: ItemType) -> (qualified: String)
    ensures
        qualified@ == prefixed(plugin_name@, s@, item_type),
        qualified@.len() == 8 + plugin_name@.len() + s@.len(),
        qualified@.subrange(0, 7) == seq!['p', 'l', 'u', 'g', 'i', 'n', ':'],
        qualified@.subrange(7, 7 + plugin_name@.len() as int) == plugin_name@,
        qualified@[7 + plugin_name@.len() as int] == (match item_type {
            ItemType::Event => ':',
            ItemType::Command => '|',
        }),
        qualified@.subrange(8 + plugin_name@.len() as int, qualified@.len() as int) == s@,
{
    let head = "plugin:";
    let sep = match item_type {
        ItemType::Event => ":",
        ItemType::Command => "|",
    };
    proof {
        reveal_strlit("plugin:");
        reveal_strlit(":");
        reveal_strlit("|");
    }
    let mut qualified = String::from_str(head);
    qualified.append(plugin_name);
    qualified.append(sep);
    qualified.append(s);
    assert(sep@ =~= seq![separator(item_type)]);
    assert(head@ =~= seq!['p', 'l', 'u', 'g', 'i', 'n', ':']);
    proof {
        law_prefix_layout(plugin_name@, s@, item_type);
    }
    qualified
}

/// A qualified name is laid out as `plugin:`, then the plugin name unchanged,
/// then `:` for an event or `|` for a command, then the item name unchanged.
pub proof fn law_prefix_layout(plugin_name: Seq<char>, name: Seq<char>, item_type: ItemType)
    ensures
        ({
            let q = prefixed(plugin_name, name, item_type);
            &&& q.len() == 8 + plugin_name.len() + name.len()
            &&& q.subrange(0, 7) == seq!['p', 'l', 'u', 'g', 'i', 'n', ':']
            &&& q.subrange(7, 7 + plugin_name.len() as int) == plugin_name
            &&& q[7 + plugin_name.len() as int] == (match item_type {
                ItemType::Event => ':',
                ItemType::Command => '|',
            })
            &&& q.subrange(8 + plugin_name.len() as int, q.len() as int) == name
        }),
{
    let q = prefixed(plugin_name, name, item_type);
    let n = plugin_name.len() as int;
    assert(q.subrange(0, 7) =~= seq!['p', 'l', 'u', 'g', 'i', 'n', ':']);
    assert(q.subrange(7, 7 + n) =~= plugin_name);
    assert(q.subrange(8 + n, q.len() as int) =~= name);
}

/// Within one plugin and one kind of item, distinct names stay distinct once
/// qualified.
pub proof fn law_prefix_injective(
    plugin_name: Seq<char>,
    a: Seq<char>,
    b: Seq<char>,
    item_type: ItemType,
)
    requires
        prefixed(plugin_name, a, item_type) == prefixed(plugin_name, b, item_type),
    ensures
        a == b,
{
    let n = 8 + plugin_name.len();
    let pa = prefixed(plugin_name, a, item_type);
    let pb = prefixed(plugin_name, b, item_type);
    assert(pa.skip(n as int) =~= a);
    assert(pb.skip(n as int) =~= b);
}

/// Within one plugin, the qualified name of an event never equals that of a
/// command.
pub proof fn law_prefix_kinds_distinct(plugin_name: Seq<char>, event: Seq<char>, command: Seq<char>)
    ensures
        prefixed(plugin_name, event, ItemType::Event) != prefixed(
            plugin_name,
            command,
            ItemType::Command,
        ),
{
    let n = 7 + plugin_name.len();
    let pe = prefixed(plugin_name, event, ItemType::Event);
    let pc = prefixed(plugin_name, command, ItemType::Command);
    assert(pe[n as int] == ':');
    assert(pc[n as int] == '|');
}

} // verus!
