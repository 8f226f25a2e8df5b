//! The KDL config at `$XDG_CONFIG_HOME/niri-groom/niri-groom.kdl`. The app
//! owns this file: it creates a default on first run and rewrites it when the
//! theme is saved, keeping any comments and extra keys through the `kdl`
//! crate; a file that is not valid KDL is never rewritten. Reading and
//! writing the file happen around the library; here a config text is read
//! into settings, and the text to save with a new theme is made from the old
//! one.
//!
//! What the settings depend on is the document's top-level nodes: each
//! node's name and its entries in order, an entry being a property (with a
//! name) or an argument (without), whose value counts only when it is a
//! string.

use vstd::prelude::*;
use kdl::{KdlDocument, KdlNode};
use crate::badges::{MarkKind, MarkKindShape, mark_kind_shape};
use crate::text::{chars_of, same_text};

verus! {

/// The `kdl` crate's parsed document, which keeps the text's formatting and
/// comments. Its contents are known here only through `document_nodes`.
#[verifier::external_type_specification]
#[verifier::external_body]
pub struct ExKdlDocument(KdlDocument);

/// An entry of a node as plain values: its name when it is a property, and
/// its value when that is a string.
pub type EntryShape = (Option<Seq<char>>, Option<Seq<char>>);

/// A node as plain values: its name and its entries, in order.
pub type NodeShape = (Seq<char>, Seq<EntryShape>);

/// The top-level nodes of a KDL document, in order.
pub uninterp spec fn document_nodes(doc: KdlDocument) -> Seq<NodeShape>;

/// The text a KDL document's `Display` writes.
pub uninterp spec fn document_display(doc: KdlDocument) -> Seq<char>;

/// The text a KDL document writes after its last node: the trailing white
/// space and comments of its formatting (nothing when it has none).
pub uninterp spec fn document_trailing(doc: KdlDocument) -> Seq<char>;

/// What the `kdl` crate writes for a string value or a name that carries no
/// formatting of its own (`KdlValue`'s `Display`): the string bare when it is
/// a plain identifier, else quoted with escapes.
pub uninterp spec fn kdl_string_text(s: Seq<char>) -> Seq<char>;

/// What the `kdl` crate's parser makes of a text: the top-level nodes of the
/// document, its layout and its trailing text, or nothing when the text is
/// not valid KDL. The layout is what the parsed document writes once the
/// entries of its top-level nodes are taken out: its comments, white space,
/// node names and child blocks. The trailing text is what the document writes
/// after its last node (see `document_trailing`).
pub uninterp spec fn kdl_parse(text: Seq<char>) -> Option<(Seq<NodeShape>, Seq<char>, Seq<char>)>;

/// A word of ASCII letters, digits, `-` and `_` that starts with a letter.
/// The `kdl` crate writes such a string as the word itself (or, for the few
/// words KDL reserves, in quotes with nothing escaped), so it reads back as
/// the same string.
pub open spec fn plain_word(s: Seq<char>) -> bool {
    &&& s.len() > 0
    &&& {
        let u = s[0] as u32;
        (0x41 <= u <= 0x5A) || (0x61 <= u <= 0x7A)
    }
    &&& forall|i: int| 0 <= i < s.len() ==> {
        let u = #[trigger] s[i] as u32;
        (0x41 <= u <= 0x5A) || (0x61 <= u <= 0x7A) || (0x30 <= u <= 0x39) || u == 0x2D || u == 0x5F
    }
}

/// The config written on first run: the default theme, and the optional
/// settings described in comments.
pub const DEFAULT_CONFIG: &'static str = "\
// niri-groom configuration.
// Managed by the app (the theme picker writes here), but you can add comments.
theme \"catppuccin-mocha\"

// Optionally flag workspaces with a colored badge from an external command.
// The command prints one tab-separated line per workspace to mark:
//   <workspace-name>\\t<label>\\t[#rrggbb]
// The label (e.g. a bookmark key) shows in a pill; the color is optional and
// falls back to the theme's marker color. I use this for my niri bookmarks:
// workspace-badges command=\"~/.config/niri/scripts/niri-groom-badges.sh\"

// Optionally declare kinds of workspace mark, each on its own key. Pressing the
// key runs the command with the selected workspace name in
// $NIRI_GROOM_WORKSPACE and the kind name in $NIRI_GROOM_MARK_KIND; the command
// owns the store (a file, etc.). Have the badges command above read it back so
// a mark shows as a pill. Bind the same script to a niri key to toggle from
// outside. Several kinds may share one command.
// mark-kind \"work\"     key=\"m\" command=\"~/.config/niri/scripts/niri-groom-mark-toggle.sh\"
// mark-kind \"personal\" key=\"p\" command=\"~/.config/niri/scripts/niri-groom-mark-toggle.sh\"
";

/// An entry of a node, as read out of a document.
pub struct ConfigEntry {
    pub name: Option<String>,
    pub value: Option<String>,
}

/// A top-level node, as read out of a document.
pub struct ConfigNode {
    pub name: String,
    pub entries: Vec<ConfigEntry>,
}

pub open spec fn text_of(t: Option<String>) -> Option<Seq<char>> {
    match t {
        Some(s) => Some(s@),
        None => None,
    }
}

pub open spec fn entry_shape(e: ConfigEntry) -> EntryShape {
    (text_of(e.name), text_of(e.value))
}

pub open spec fn node_shape(n: ConfigNode) -> NodeShape {
    (n.name@, n.entries@.map_values(|e: ConfigEntry| entry_shape(e)))
}

/// Parses `text` with `str::parse::<KdlDocument>`. The document it gives, when
/// the text is valid KDL, holds the nodes named by `kdl_parse`, and writes
/// back exactly the text it was parsed from (the crate documents that parsed
/// documents fully round-trip).
#[verifier::external_body]
pub(crate) fn parse_document(text: &str) -> (r: Option<KdlDocument>)
    ensures
        r is Some <==> kdl_parse(text@) is Some,
        r matches Some(d) ==> kdl_parse(text@) matches Some(p) && p.0 == document_nodes(d)
            && p.2 == document_trailing(d),
        r matches Some(d) ==> document_display(d) == text@,
{
    text.parse::<KdlDocument>().ok()
}

/// Reads the top-level nodes of a document with `KdlDocument::nodes`,
/// `KdlNode::name`, `KdlNode::entries`, `KdlEntry::name`, `KdlEntry::value`,
/// `KdlIdentifier::value` and `KdlValue::as_string`: each node's name and, for
/// each of its entries, the entry's name and its value when that is a string.
#[verifier::external_body]
fn read_nodes(doc: &KdlDocument) -> (r: Vec<ConfigNode>)
    ensures
        r@.map_values(|n: ConfigNode| node_shape(n)) == document_nodes(*doc),
{
    doc.nodes().iter().map(|n| ConfigNode {
        name: n.name().value().to_string(),
        entries: n.entries().iter().map(|e| ConfigEntry {
            name: e.name().map(|i| i.value().to_string()),
            value: e.value().as_string().map(|s| s.to_string()),
        }).collect(),
    }).collect()
}

/// The index of the first node named `name`, as `KdlDocument::get` finds it.
pub open spec fn first_named(nodes: Seq<NodeShape>, name: Seq<char>) -> Option<int>
    decreases nodes.len(),
{
    if nodes.len() == 0 {
        None
    } else {
        match first_named(nodes.drop_last(), name) {
            Some(i) => Some(i),
            None => if nodes.last().0 == name { Some(nodes.len() - 1) } else { None },
        }
    }
}

/// The last property named `key` among the entries, as `KdlNode::get` with a
/// string key finds it.
pub open spec fn property(entries: Seq<EntryShape>, key: Seq<char>) -> Option<EntryShape>
    decreases entries.len(),
{
    if entries.len() == 0 {
        None
    } else if entries.last().0 == Some(key) {
        Some(entries.last())
    } else {
        property(entries.drop_last(), key)
    }
}

/// The argument at position `idx` among the entries (properties are not
/// counted), as `KdlNode::get` with a number finds it.
pub open spec fn argument(entries: Seq<EntryShape>, idx: nat) -> Option<EntryShape>
    decreases entries.len(),
{
    if entries.len() == 0 {
        None
    } else if entries[0].0 is Some {
        argument(entries.drop_first(), idx)
    } else if idx == 0 {
        Some(entries[0])
    } else {
        argument(entries.drop_first(), (idx - 1) as nat)
    }
}

/// The string value of an entry that may be missing.
pub open spec fn string_of(e: Option<EntryShape>) -> Option<Seq<char>> {
    match e {
        Some(e) => e.1,
        None => None,
    }
}

/// The theme a document sets: the first `theme` node's first entry, when that
/// is a string.
pub open spec fn theme_of(nodes: Seq<NodeShape>) -> Option<Seq<char>> {
    match first_named(nodes, "theme"@) {
        Some(i) => if nodes[i].1.len() > 0 { nodes[i].1[0].1 } else { None },
        None => None,
    }
}

/// The command of a node: its `command` property, or failing that its first
/// argument; either counts only when it is a string.
pub open spec fn command_of(entries: Seq<EntryShape>) -> Option<Seq<char>> {
    match property(entries, "command"@) {
        Some(e) => e.1,
        None => string_of(argument(entries, 0)),
    }
}

/// The badge command a document sets: that of the first `workspace-badges`
/// node.
pub open spec fn badge_command_of(nodes: Seq<NodeShape>) -> Option<Seq<char>> {
    match first_named(nodes, "workspace-badges"@) {
        Some(i) => command_of(nodes[i].1),
        None => None,
    }
}

/// The mark kind a `mark-kind` node declares: named by its first argument
/// (`mark` when that is not a string), on the single character of its `key`
/// property, running its `command` property. A node missing its key or
/// command, or whose key is not one character, declares none.
pub open spec fn mark_kind_of(entries: Seq<EntryShape>) -> Option<MarkKindShape> {
    let name = match string_of(argument(entries, 0)) {
        Some(n) => n,
        None => "mark"@,
    };
    match (string_of(property(entries, "key"@)), string_of(property(entries, "command"@))) {
        (Some(k), Some(c)) => if k.len() == 1 { Some((name, k[0], c)) } else { None },
        _ => None,
    }
}

/// The kinds the `mark-kind` nodes declare, in document order.
pub open spec fn declared_kinds(nodes: Seq<NodeShape>) -> Seq<MarkKindShape>
    decreases nodes.len(),
{
    if nodes.len() == 0 {
        seq![]
    } else {
        let prev = declared_kinds(nodes.drop_last());
        let n = nodes.last();
        if n.0 == "mark-kind"@ {
            match mark_kind_of(n.1) {
                Some(k) => prev.push(k),
                None => prev,
            }
        } else {
            prev
        }
    }
}

/// The mark kinds a document declares: the declared kinds, or when there are
/// none, the single kind `mark` on `m` that a `workspace-mark-toggle` node's
/// command gives.
pub open spec fn mark_kinds_of(nodes: Seq<NodeShape>) -> Seq<MarkKindShape> {
    let declared = declared_kinds(nodes);
    if declared.len() > 0 {
        declared
    } else {
        match first_named(nodes, "workspace-mark-toggle"@) {
            Some(i) => match command_of(nodes[i].1) {
                Some(c) => seq![("mark"@, 'm', c)],
                None => seq![],
            },
            None => seq![],
        }
    }
}

fn copy_text(t: &Option<String>) -> (r: Option<String>)
    ensures
        text_of(r) == text_of(*t),
{
    match t {
        Some(s) => Some(s.clone()),
        None => None,
    }
}

fn find_node(nodes: &Vec<ConfigNode>, name: &str) -> (r: Option<usize>)
    ensures
        match r {
            Some(i) => first_named(nodes@.map_values(|n: ConfigNode| node_shape(n)), name@) == Some(i as int)
                && i < nodes@.len(),
            None => first_named(nodes@.map_values(|n: ConfigNode| node_shape(n)), name@) is None,
        },
{
    let ghost ns = nodes@.map_values(|n: ConfigNode| node_shape(n));
    let mut i: usize = 0;
    while i < nodes.len()
        invariant
            i <= nodes@.len(),
            ns == nodes@.map_values(|n: ConfigNode| node_shape(n)),
            first_named(ns.take(i as int), name@) is None,
        decreases nodes.len() - i,
    {
        assert(ns.take(i + 1).drop_last() =~= ns.take(i as int));
        if same_text(nodes[i].name.as_str(), name) {
            proof { lemma_first_named_prefix(ns, name@, (i + 1) as nat); }
            return Some(i);
        }
        i += 1;
    }
    assert(ns.take(nodes.len() as int) =~= ns);
    None
}

/// The first node of a name found in a prefix is the first in the whole list.
proof fn lemma_first_named_prefix(nodes: Seq<NodeShape>, name: Seq<char>, n: nat)
    requires
        n <= nodes.len(),
        first_named(nodes.take(n as int), name) is Some,
    ensures
        first_named(nodes, name) == first_named(nodes.take(n as int), name),
    decreases nodes.len() - n,
{
    if n < nodes.len() {
        let t = nodes.take((n + 1) as int);
        assert(t.drop_last() =~= nodes.take(n as int));
        lemma_first_named_prefix(nodes, name, n + 1);
    } else {
        assert(nodes.take(n as int) =~= nodes);
    }
}

fn find_property(entries: &Vec<ConfigEntry>, key: &str) -> (r: Option<usize>)
    ensures
        match r {
            Some(i) => i < entries@.len()
                && property(entries@.map_values(|e: ConfigEntry| entry_shape(e)), key@) == Some(entry_shape(entries@[i as int])),
            None => property(entries@.map_values(|e: ConfigEntry| entry_shape(e)), key@) is None,
        },
{
    let ghost es = entries@.map_values(|e: ConfigEntry| entry_shape(e));
    let mut i = entries.len();
    assert(es.take(es.len() as int) =~= es);
    while i > 0
        invariant
            i <= entries@.len(),
            es == entries@.map_values(|e: ConfigEntry| entry_shape(e)),
            property(es, key@) == property(es.take(i as int), key@),
        decreases i,
    {
        let ghost t = es.take(i as int);
        assert(t.drop_last() =~= es.take(i - 1));
        assert(t.last() == entry_shape(entries@[i - 1]));
        match &entries[i - 1].name {
            Some(n) => {
                if same_text(n.as_str(), key) {
                    return Some(i - 1);
                }
            },
            None => {},
        }
        i -= 1;
    }
    assert(es.take(0) =~= Seq::<EntryShape>::empty());
    None
}

fn find_argument(entries: &Vec<ConfigEntry>, idx: usize) -> (r: Option<usize>)
    ensures
        match r {
            Some(i) => i < entries@.len()
                && argument(entries@.map_values(|e: ConfigEntry| entry_shape(e)), idx as nat) == Some(entry_shape(entries@[i as int])),
            None => argument(entries@.map_values(|e: ConfigEntry| entry_shape(e)), idx as nat) is None,
        },
{
    let ghost es = entries@.map_values(|e: ConfigEntry| entry_shape(e));
    let mut i: usize = 0;
    let mut left: usize = idx;
    assert(es.skip(0) =~= es);
    while i < entries.len()
        invariant
            i <= entries@.len(),
            es == entries@.map_values(|e: ConfigEntry| entry_shape(e)),
            argument(es, idx as nat) == argument(es.skip(i as int), left as nat),
        decreases entries.len() - i,
    {
        assert(es.skip(i as int).drop_first() =~= es.skip(i + 1));
        assert(es.skip(i as int)[0] == entry_shape(entries@[i as int]));
        if entries[i].name.is_none() {
            if left == 0 {
                return Some(i);
            }
            left -= 1;
        }
        i += 1;
    }
    None
}

fn value_at(entries: &Vec<ConfigEntry>, at: Option<usize>) -> (r: Option<String>)
    requires
        at matches Some(i) ==> i < entries@.len(),
    ensures
        text_of(r) == match at {
            Some(i) => entry_shape(entries@[i as int]).1,
            None => None,
        },
{
    match at {
        Some(i) => copy_text(&entries[i].value),
        None => None,
    }
}

/// The command of a node's entries.
fn command_in(entries: &Vec<ConfigEntry>) -> (r: Option<String>)
    ensures
        text_of(r) == command_of(entries@.map_values(|e: ConfigEntry| entry_shape(e))),
{
    match find_property(entries, "command") {
        Some(i) => copy_text(&entries[i].value),
        None => {
            let a = find_argument(entries, 0);
            value_at(entries, a)
        },
    }
}

/// The theme a document sets.
pub fn theme_from(doc: &KdlDocument) -> (r: Option<String>)
    ensures
        text_of(r) == theme_of(document_nodes(*doc)),
{
    let nodes = read_nodes(doc);
    match find_node(&nodes, "theme") {
        Some(i) => {
            assert(nodes@.map_values(|n: ConfigNode| node_shape(n))[i as int] == node_shape(nodes@[i as int]));
            if nodes[i].entries.len() > 0 {
                assert(node_shape(nodes@[i as int]).1[0] == entry_shape(nodes@[i as int].entries@[0]));
                copy_text(&nodes[i].entries[0].value)
            } else {
                None
            }
        },
        None => None,
    }
}

/// The badge command a document sets, if any: the generic hook for marking
/// workspaces. `None` leaves the feature off.
pub fn badge_command_from(doc: &KdlDocument) -> (r: Option<String>)
    ensures
        text_of(r) == badge_command_of(document_nodes(*doc)),
{
    let nodes = read_nodes(doc);
    match find_node(&nodes, "workspace-badges") {
        Some(i) => {
            assert(nodes@.map_values(|n: ConfigNode| node_shape(n))[i as int] == node_shape(nodes@[i as int]));
            command_in(&nodes[i].entries)
        },
        None => None,
    }
}

/// The mark kind one `mark-kind` node declares.
fn mark_kind_in(entries: &Vec<ConfigEntry>) -> (r: Option<MarkKind>)
    ensures
        match r {
            Some(k) => mark_kind_of(entries@.map_values(|e: ConfigEntry| entry_shape(e))) == Some(mark_kind_shape(k)),
            None => mark_kind_of(entries@.map_values(|e: ConfigEntry| entry_shape(e))) is None,
        },
{
    let a = find_argument(entries, 0);
    let name = match value_at(entries, a) {
        Some(n) => n,
        None => "mark".to_string(),
    };
    let kp = find_property(entries, "key");
    let key = match value_at(entries, kp) {
        Some(k) => k,
        None => {
            return None;
        },
    };
    let cp = find_property(entries, "command");
    let command = match value_at(entries, cp) {
        Some(c) => c,
        None => {
            return None;
        },
    };
    let kc = chars_of(key.as_str());
    if kc.len() != 1 {
        return None;
    }
    Some(MarkKind { name, key: kc[0], command })
}

/// The mark kinds a document declares, in document order.
///
/// Each `mark-kind "<name>" key="<c>" command="<cmd>"` node names one kind of
/// workspace mark: the key that toggles it and the command that owns its
/// store. `workspace-mark-toggle command="..."` is shorthand for a single kind
/// named `mark` on `m`, used only when no `mark-kind` node declares one.
///
/// A node missing its key or command, or whose key is not a single
/// character, is dropped: a malformed line costs one kind rather than the
/// rest of the config.
pub fn mark_kinds_from(doc: &KdlDocument) -> (r: Vec<MarkKind>)
    ensures
        r@.map_values(|k: MarkKind| mark_kind_shape(k)) == mark_kinds_of(document_nodes(*doc)),
{
    let nodes = read_nodes(doc);
    let ghost ns = nodes@.map_values(|n: ConfigNode| node_shape(n));
    let mut kinds: Vec<MarkKind> = Vec::new();
    let mut i: usize = 0;
    while i < nodes.len()
        invariant
            i <= nodes@.len(),
            ns == nodes@.map_values(|n: ConfigNode| node_shape(n)),
            kinds@.map_values(|k: MarkKind| mark_kind_shape(k)) == declared_kinds(ns.take(i as int)),
        decreases nodes.len() - i,
    {
        assert(ns.take(i + 1).drop_last() =~= ns.take(i as int));
        assert(ns.take(i + 1).last() == node_shape(nodes@[i as int]));
        let ghost before = kinds@.map_values(|k: MarkKind| mark_kind_shape(k));
        if same_text(nodes[i].name.as_str(), "mark-kind") {
            match mark_kind_in(&nodes[i].entries) {
                Some(k) => {
                    let ghost ks = mark_kind_shape(k);
                    kinds.push(k);
                    assert(kinds@.map_values(|k: MarkKind| mark_kind_shape(k)) =~= before.push(ks));
                },
                None => {},
            }
        }
        i += 1;
    }
    assert(ns.take(nodes.len() as int) =~= ns);
    if kinds.len() > 0 {
        return kinds;
    }
    match find_node(&nodes, "workspace-mark-toggle") {
        Some(i) => {
            assert(ns[i as int] == node_shape(nodes@[i as int]));
            match command_in(&nodes[i].entries) {
                Some(command) => {
                    let mut r: Vec<MarkKind> = Vec::new();
                    r.push(MarkKind { name: "mark".to_string(), key: 'm', command });
                    assert(r@.map_values(|k: MarkKind| mark_kind_shape(k)) =~= mark_kinds_of(ns));
                    r
                },
                None => {
                    assert(kinds@.map_values(|k: MarkKind| mark_kind_shape(k)) =~= mark_kinds_of(ns));
                    kinds
                },
            }
        },
        None => {
            assert(kinds@.map_values(|k: MarkKind| mark_kind_shape(k)) =~= mark_kinds_of(ns));
            kinds
        },
    }
}

/// The nodes a config text holds, or none when it is not valid KDL.
pub open spec fn config_nodes(text: Seq<char>) -> Option<Seq<NodeShape>> {
    match kdl_parse(text) {
        Some(p) => Some(p.0),
        None => None,
    }
}

/// The theme a config text sets; none when the text is not valid KDL.
pub fn theme_in(text: &str) -> (r: Option<String>)
    ensures
        text_of(r) == match config_nodes(text@) {
            Some(ns) => theme_of(ns),
            None => None,
        },
{
    match parse_document(text) {
        Some(doc) => theme_from(&doc),
        None => None,
    }
}

/// The theme to start with: the default theme when there is no config yet
/// (`None`; the app then writes the default config, which sets it), else the
/// theme the config text sets.
pub fn theme_to_load(config: Option<&str>) -> (r: Option<String>)
    ensures
        text_of(r) == match config {
            None => Some(crate::theme::DEFAULT@),
            Some(t) => match config_nodes(t@) {
                Some(ns) => theme_of(ns),
                None => None,
            },
        },
{
    match config {
        None => Some(crate::theme::DEFAULT.to_string()),
        Some(t) => theme_in(t),
    }
}

/// The badge command a config text sets; none when the text is not valid KDL.
pub fn badge_command_in(text: &str) -> (r: Option<String>)
    ensures
        text_of(r) == match config_nodes(text@) {
            Some(ns) => badge_command_of(ns),
            None => None,
        },
{
    match parse_document(text) {
        Some(doc) => badge_command_from(&doc),
        None => None,
    }
}

/// The mark kinds a config text declares; none when the text is not valid
/// KDL.
pub fn mark_kinds_in(text: &str) -> (r: Vec<MarkKind>)
    ensures
        r@.map_values(|k: MarkKind| mark_kind_shape(k)) == match config_nodes(text@) {
            Some(ns) => mark_kinds_of(ns),
            None => Seq::<MarkKindShape>::empty(),
        },
{
    match parse_document(text) {
        Some(doc) => mark_kinds_from(&doc),
        None => {
            let r: Vec<MarkKind> = Vec::new();
            assert(r@.map_values(|k: MarkKind| mark_kind_shape(k)) =~= Seq::<MarkKindShape>::empty());
            r
        },
    }
}

/// Makes a document with `KdlDocument::new`, which holds no nodes and no
/// formatting, and so writes the empty text.
#[verifier::external_body]
fn empty_document() -> (r: KdlDocument)
    ensures
        document_nodes(r) == Seq::<NodeShape>::empty(),
        document_display(r) == Seq::<char>::empty(),
        document_trailing(r) == Seq::<char>::empty(),
{
    KdlDocument::new()
}

/// Gives the first node named `name` the single string argument `value`:
/// finds it with `KdlDocument::get_mut`, empties its entries with
/// `KdlNode::clear` and adds the argument with `KdlNode::push`. The node
/// keeps its name, place, formatting and children, and the other nodes and
/// the document's comments are untouched: only that node's entries change,
/// and what the document writes changes only there, the new entry written as
/// a space and the value. So when the old text read back as the document's
/// nodes, the new text reads back as the new nodes with the same layout,
/// provided the value is a plain word (see `plain_word`).
#[verifier::external_body]
fn set_sole_argument(doc: &mut KdlDocument, name: &str, value: &str)
    requires
        first_named(document_nodes(*old(doc)), name@) is Some,
    ensures
        kdl_parse(document_display(*old(doc))) matches Some(p) ==> (
            p.0 == document_nodes(*old(doc)) && plain_word(value@)
            ==> (kdl_parse(document_display(*final(doc))) matches Some(q)
                && q.0 == document_nodes(*final(doc)) && q.1 == p.1)),
        document_nodes(*final(doc)) == document_nodes(*old(doc)).update(
            first_named(document_nodes(*old(doc)), name@)->0,
            (name@, seq![(None::<Seq<char>>, Some(value@))]),
        ),
{
    let node = doc.get_mut(name).unwrap();
    node.clear();
    node.push(value);
}

/// Appends a node `name` with the single string argument `value`: made with
/// `KdlNode::new` and `KdlNode::push`, added with `KdlDocument::nodes_mut`.
/// `KdlNode::new` gives the node only a trailing line break, and the pushed
/// entry has no formatting, so the node is written as the name, a space, the
/// value and a line break. The document writes its nodes, then its trailing
/// text, so the new line stands just before the trailing text, straight
/// after whatever the last node wrote: the rest of the old text is kept as
/// it was. Into a document that writes nothing, this gives a text that reads
/// back as the new nodes when the name and the value are plain words.
#[verifier::external_body]
fn append_node(doc: &mut KdlDocument, name: &str, value: &str)
    ensures
        document_trailing(*old(doc)).len() <= document_display(*old(doc)).len(),
        document_display(*old(doc)).skip(
            document_display(*old(doc)).len() - document_trailing(*old(doc)).len(),
        ) == document_trailing(*old(doc)),
        document_display(*final(doc)) == document_display(*old(doc)).take(
            document_display(*old(doc)).len() - document_trailing(*old(doc)).len(),
        ) + kdl_string_text(name@) + " "@ + kdl_string_text(value@) + "\n"@
            + document_display(*old(doc)).skip(
            document_display(*old(doc)).len() - document_trailing(*old(doc)).len(),
        ),
        document_trailing(*final(doc)) == document_trailing(*old(doc)),
        document_display(*old(doc)).len() == 0 && plain_word(name@) && plain_word(value@)
            ==> (kdl_parse(document_display(*final(doc))) matches Some(p)
                && p.0 == document_nodes(*final(doc))),
        document_nodes(*final(doc)) == document_nodes(*old(doc)).push((name@, seq![(None::<Seq<char>>, Some(value@))])),
{
    let mut node = KdlNode::new(name);
    node.push(value);
    doc.nodes_mut().push(node);
}

/// The line a node with a name and one string argument, and no formatting of
/// its own, is written as.
pub open spec fn node_line(name: Seq<char>, value: Seq<char>) -> Seq<char> {
    kdl_string_text(name) + " "@ + kdl_string_text(value) + "\n"@
}

/// A text with such a line put in just before its last `trailing.len()`
/// characters; every character of the text is kept, in order.
pub open spec fn appended_text(text: Seq<char>, trailing: Seq<char>, name: Seq<char>, value: Seq<char>) -> Seq<char> {
    let k = text.len() - trailing.len();
    text.take(k) + node_line(name, value) + text.skip(k)
}

/// Appending a line keeps the text: taking the line back out of the
/// appended text gives the old text, character for character.
pub proof fn lemma_appended_text_keeps_the_old_text(text: Seq<char>, trailing: Seq<char>, name: Seq<char>, value: Seq<char>)
    requires
        trailing.len() <= text.len(),
    ensures
        ({
            let k = text.len() - trailing.len();
            let a = appended_text(text, trailing, name, value);
            &&& a.len() == text.len() + node_line(name, value).len()
            &&& a.take(k) + a.skip(k + node_line(name, value).len()) == text
            &&& a.subrange(k, k + node_line(name, value).len()) == node_line(name, value)
        }),
{
    let k = text.len() - trailing.len();
    let line = node_line(name, value);
    let a = appended_text(text, trailing, name, value);
    assert(a.take(k) =~= text.take(k));
    assert(a.skip(k + line.len()) =~= text.skip(k));
    assert(a.subrange(k, k + line.len()) =~= line);
    assert(text.take(k) + text.skip(k) =~= text);
}

/// The nodes of the config to rewrite: none when there is no config yet,
/// those of the current text when it is valid KDL, and nothing to rewrite
/// when it is not.
pub open spec fn current_nodes(current: Option<Seq<char>>) -> Option<Seq<NodeShape>> {
    match current {
        Some(t) => config_nodes(t),
        None => Some(seq![]),
    }
}

/// The nodes with the theme set to `name`: the first `theme` node made to
/// hold just that name, or such a node appended when there is none.
pub open spec fn with_theme(nodes: Seq<NodeShape>, name: Seq<char>) -> Seq<NodeShape> {
    let node = ("theme"@, seq![(None::<Seq<char>>, Some(name))]);
    match first_named(nodes, "theme"@) {
        Some(i) => nodes.update(i, node),
        None => nodes.push(node),
    }
}

/// Writes a document out with its `Display` impl, through `to_string`.
#[verifier::external_body]
fn document_text(doc: &KdlDocument) -> (s: String)
    ensures
        s@ == document_display(*doc),
{
    doc.to_string()
}

fn same_optional_text(a: &Option<String>, b: &Option<String>) -> (r: bool)
    ensures
        r == (text_of(*a) == text_of(*b)),
{
    match (a, b) {
        (Some(x), Some(y)) => same_text(x.as_str(), y.as_str()),
        (None, None) => true,
        _ => false,
    }
}

fn same_entries(a: &Vec<ConfigEntry>, b: &Vec<ConfigEntry>) -> (r: bool)
    ensures
        r == (a@.map_values(|e: ConfigEntry| entry_shape(e)) == b@.map_values(|e: ConfigEntry| entry_shape(e))),
{
    let ghost sa = a@.map_values(|e: ConfigEntry| entry_shape(e));
    let ghost sb = b@.map_values(|e: ConfigEntry| entry_shape(e));
    if a.len() != b.len() {
        assert(sa.len() != sb.len());
        return false;
    }
    let mut i: usize = 0;
    while i < a.len()
        invariant
            i <= a@.len(),
            a@.len() == b@.len(),
            sa == a@.map_values(|e: ConfigEntry| entry_shape(e)),
            sb == b@.map_values(|e: ConfigEntry| entry_shape(e)),
            forall|j: int| 0 <= j < i ==> sa[j] == sb[j],
        decreases a.len() - i,
    {
        if !same_optional_text(&a[i].name, &b[i].name) || !same_optional_text(&a[i].value, &b[i].value) {
            assert(sa[i as int] != sb[i as int]);
            return false;
        }
        assert(sa[i as int] == sb[i as int]);
        i += 1;
    }
    assert(sa =~= sb);
    true
}

fn same_nodes(a: &Vec<ConfigNode>, b: &Vec<ConfigNode>) -> (r: bool)
    ensures
        r == (a@.map_values(|n: ConfigNode| node_shape(n)) == b@.map_values(|n: ConfigNode| node_shape(n))),
{
    let ghost sa = a@.map_values(|n: ConfigNode| node_shape(n));
    let ghost sb = b@.map_values(|n: ConfigNode| node_shape(n));
    if a.len() != b.len() {
        assert(sa.len() != sb.len());
        return false;
    }
    let mut i: usize = 0;
    while i < a.len()
        invariant
            i <= a@.len(),
            a@.len() == b@.len(),
            sa == a@.map_values(|n: ConfigNode| node_shape(n)),
            sb == b@.map_values(|n: ConfigNode| node_shape(n)),
            forall|j: int| 0 <= j < i ==> sa[j] == sb[j],
        decreases a.len() - i,
    {
        if !same_text(a[i].name.as_str(), b[i].name.as_str()) || !same_entries(&a[i].entries, &b[i].entries) {
            assert(sa[i as int] != sb[i as int]);
            return false;
        }
        assert(sa[i as int] == sb[i as int]);
        i += 1;
    }
    assert(sa =~= sb);
    true
}

pub open spec fn optional_text(t: Option<&str>) -> Option<Seq<char>> {
    match t {
        Some(s) => Some(s@),
        None => None,
    }
}

/// The text saving the theme `name` gives when it appends a `theme` node:
/// for a missing config, the theme line alone; for a valid config without a
/// `theme` node, the config text with the theme line put in before its
/// trailing text. None when saving sets an existing node instead, or the
/// config is not valid KDL.
pub open spec fn appended_config(current: Option<Seq<char>>, name: Seq<char>) -> Option<Seq<char>> {
    match current {
        None => Some(appended_text(seq![], seq![], "theme"@, name)),
        Some(c) => match kdl_parse(c) {
            Some(p) => if first_named(p.0, "theme"@) is None {
                Some(appended_text(c, p.2, "theme"@, name))
            } else {
                None
            },
            None => None,
        },
    }
}

/// The config text to save when the theme `name` is chosen, made from the
/// current config text (`None` when there is no config yet) with the `kdl`
/// crate: the first `theme` node is given just that name, or a `theme` node
/// is appended when there is none.
///
/// A config that is not valid KDL is not rewritten, and neither is one whose
/// rewritten text would not read back with the new theme: the result is then
/// `None`, so that the file is left as it is. Every text returned reads back
/// as the old nodes with the theme set, so the theme, the badge command and
/// the mark kinds read from it are the new theme and the old settings.
///
/// When a `theme` node is appended, the text is exactly `appended_config`:
/// all of the old text, in order, with the theme line put in before its
/// trailing white space and comments. It is returned if and only if it reads
/// back with the theme set (it does not when the old last node ends without a
/// line break, which the appended line then runs into). When the config
/// already sets a theme and the name is a plain word (see `plain_word`), the
/// text keeps the config's layout, comments included, and is always returned;
/// so is the text for a missing config when the name is a plain word.
pub fn themed_config(current: Option<&str>, name: &str) -> (r: Option<String>)
    ensures
        current_nodes(optional_text(current)) is None ==> r is None,
        plain_word(name@) ==> (current_nodes(optional_text(current)) matches Some(ns) ==> (
            current is None || first_named(ns, "theme"@) is Some ==> r is Some)),
        r matches Some(t) ==> current_nodes(optional_text(current)) matches Some(ns)
            && config_nodes(t@) == Some(with_theme(ns, name@)),
        r matches Some(t) ==> current_nodes(optional_text(current)) matches Some(ns)
            && config_nodes(t@) matches Some(saved)
            && theme_of(saved) == Some(name@)
            && badge_command_of(saved) == badge_command_of(ns)
            && mark_kinds_of(saved) == mark_kinds_of(ns),
        r matches Some(t) ==> (current matches Some(c) ==> (kdl_parse(c@) matches Some(p) ==> (
            first_named(p.0, "theme"@) is Some && plain_word(name@) ==> (kdl_parse(t@) matches Some(q) && q.1 == p.1)))),
        appended_config(optional_text(current), name@) matches Some(a) ==> (
            (r is Some <==> (current_nodes(optional_text(current)) matches Some(ns)
                && config_nodes(a) == Some(with_theme(ns, name@))))
            && (r matches Some(t) ==> t@ == a)),
{
    proof {
        reveal_strlit("theme");
    }
    let mut doc = match current {
        Some(t) => match parse_document(t) {
            Some(d) => d,
            None => { return None; },
        },
        None => empty_document(),
    };
    let ghost before = doc;
    let nodes = read_nodes(&doc);
    match find_node(&nodes, "theme") {
        Some(_) => {
            set_sole_argument(&mut doc, "theme", name);
        },
        None => {
            proof {
                assert(plain_word("theme"@)) by {
                    assert forall|i: int| 0 <= i < "theme"@.len() implies {
                        let u = #[trigger] "theme"@[i] as u32;
                        (0x41 <= u <= 0x5A) || (0x61 <= u <= 0x7A) || (0x30 <= u <= 0x39) || u == 0x2D || u == 0x5F
                    } by {}
                }
            }
            append_node(&mut doc, "theme", name);
            proof {
                let d0 = document_display(before);
                let t0 = document_trailing(before);
                assert(document_display(doc) =~= appended_text(d0, t0, "theme"@, name@));
                match current {
                    Some(c) => {
                        assert(d0 == c@);
                    },
                    None => {
                        assert(d0 =~= seq![]);
                        assert(t0 =~= seq![]);
                    },
                }
            }
        },
    }
    let expected = read_nodes(&doc);
    let text = document_text(&doc);
    let back = match parse_document(text.as_str()) {
        Some(d) => d,
        None => { return None; },
    };
    let got = read_nodes(&back);
    if !same_nodes(&got, &expected) {
        return None;
    }
    proof {
        let ns = document_nodes(before);
        lemma_saved_theme_reads_back(ns, name@);
        lemma_saving_theme_keeps_other_settings(ns, name@);
    }
    Some(text)
}

proof fn lemma_first_named(nodes: Seq<NodeShape>, name: Seq<char>)
    ensures
        match first_named(nodes, name) {
            Some(i) => 0 <= i < nodes.len() && nodes[i].0 == name
                && forall|j: int| 0 <= j < i ==> (#[trigger] nodes[j]).0 != name,
            None => forall|j: int| 0 <= j < nodes.len() ==> (#[trigger] nodes[j]).0 != name,
        },
    decreases nodes.len(),
{
    if nodes.len() > 0 {
        lemma_first_named(nodes.drop_last(), name);
        assert forall|j: int| 0 <= j < nodes.len() - 1 implies nodes[j] == nodes.drop_last()[j] by {}
    }
}

/// Which node is first of a name depends on the node names alone.
proof fn lemma_first_named_same_names(a: Seq<NodeShape>, b: Seq<NodeShape>, name: Seq<char>)
    requires
        a.len() == b.len(),
        forall|j: int| 0 <= j < a.len() ==> (#[trigger] a[j]).0 == b[j].0,
    ensures
        first_named(a, name) == first_named(b, name),
    decreases a.len(),
{
    if a.len() > 0 {
        lemma_first_named_same_names(a.drop_last(), b.drop_last(), name);
        assert(a.last().0 == b.last().0) by {
            assert(a[a.len() - 1].0 == b[a.len() - 1].0);
        }
    }
}

proof fn lemma_first_named_push(nodes: Seq<NodeShape>, node: NodeShape, name: Seq<char>)
    requires
        first_named(nodes, name) is Some,
    ensures
        first_named(nodes.push(node), name) == first_named(nodes, name),
{
    assert(nodes.push(node).drop_last() =~= nodes);
}

/// Declared kinds do not change when a node other than a `mark-kind` one is
/// replaced by another such node, or one is appended.
proof fn lemma_declared_kinds_update(nodes: Seq<NodeShape>, i: int, node: NodeShape)
    requires
        0 <= i < nodes.len(),
        nodes[i].0 != "mark-kind"@,
        node.0 != "mark-kind"@,
    ensures
        declared_kinds(nodes.update(i, node)) == declared_kinds(nodes),
    decreases nodes.len(),
{
    let u = nodes.update(i, node);
    if i < nodes.len() - 1 {
        lemma_declared_kinds_update(nodes.drop_last(), i, node);
        assert(u.drop_last() =~= nodes.drop_last().update(i, node));
        assert(u.last() == nodes.last());
    } else {
        assert(u.drop_last() =~= nodes.drop_last());
    }
}

/// Saving a theme and reading the document back gives that theme.
pub proof fn lemma_saved_theme_reads_back(nodes: Seq<NodeShape>, name: Seq<char>)
    ensures
        theme_of(with_theme(nodes, name)) == Some(name),
{
    let node = ("theme"@, seq![(None::<Seq<char>>, Some(name))]);
    lemma_first_named(nodes, "theme"@);
    match first_named(nodes, "theme"@) {
        Some(i) => {
            let u = nodes.update(i, node);
            assert forall|j: int| 0 <= j < nodes.len() implies (#[trigger] nodes[j]).0 == u[j].0 by {}
            lemma_first_named_same_names(nodes, u, "theme"@);
        },
        None => {
            let p = nodes.push(node);
            assert(p.drop_last() =~= nodes);
            assert(p.last() == node);
        },
    }
}

/// Saving a theme keeps every other setting: the badge command and the mark
/// kinds read the same before and after.
pub proof fn lemma_saving_theme_keeps_other_settings(nodes: Seq<NodeShape>, name: Seq<char>)
    ensures
        badge_command_of(with_theme(nodes, name)) == badge_command_of(nodes),
        mark_kinds_of(with_theme(nodes, name)) == mark_kinds_of(nodes),
{
    reveal_strlit("theme");
    reveal_strlit("mark-kind");
    reveal_strlit("workspace-badges");
    reveal_strlit("workspace-mark-toggle");
    let node = ("theme"@, seq![(None::<Seq<char>>, Some(name))]);
    let w = with_theme(nodes, name);
    lemma_first_named(nodes, "theme"@);
    lemma_first_named(nodes, "workspace-badges"@);
    lemma_first_named(nodes, "workspace-mark-toggle"@);
    assert("theme"@[0] != "mark-kind"@[0]);
    assert("theme"@[0] != "workspace-badges"@[0]);
    assert("theme"@[0] != "workspace-mark-toggle"@[0]);
    match first_named(nodes, "theme"@) {
        Some(i) => {
            assert forall|j: int| 0 <= j < nodes.len() implies (#[trigger] nodes[j]).0 == w[j].0 by {}
            lemma_first_named_same_names(nodes, w, "workspace-badges"@);
            lemma_first_named_same_names(nodes, w, "workspace-mark-toggle"@);
            lemma_declared_kinds_update(nodes, i, node);
            match first_named(nodes, "workspace-badges"@) {
                Some(b) => { assert(b != i); assert(w[b] == nodes[b]); },
                None => {},
            }
            match first_named(nodes, "workspace-mark-toggle"@) {
                Some(b) => { assert(b != i); assert(w[b] == nodes[b]); },
                None => {},
            }
        },
        None => {
            assert(w.drop_last() =~= nodes);
            match first_named(nodes, "workspace-badges"@) {
                Some(b) => { lemma_first_named_push(nodes, node, "workspace-badges"@); assert(w[b] == nodes[b]); },
                None => {},
            }
            match first_named(nodes, "workspace-mark-toggle"@) {
                Some(b) => { lemma_first_named_push(nodes, node, "workspace-mark-toggle"@); assert(w[b] == nodes[b]); },
                None => {},
            }
        },
    }
}

} // verus!
