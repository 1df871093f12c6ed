//! The tree that describes the entities of a file: one line per entity or
//! field, indented with box-drawing characters under its parent.
use vstd::prelude::*;
use vstd::string::StringExecFns;
use crate::config::owned;
use owo_colors::OwoColorize;

verus! {

/// A node of the description: an entity or a field, with its kind and the
/// nodes under it.
pub struct InfoNode {
    pub name: String,
    /// What the node is: `Group`, `Record`, `Bits`, `Float32`, ...
    pub kind: String,
    /// Entities are drawn with a filled bullet, fields inside a field with
    /// a hollow one.
    pub filled: bool,
    pub children: Vec<InfoNode>,
}

/// The content of an `InfoNode`.
pub struct InfoView {
    pub name: Seq<char>,
    pub kind: Seq<char>,
    pub filled: bool,
    pub children: Seq<InfoView>,
}

/// The content of a node and of all the nodes under it.
pub open spec fn node_view(n: InfoNode) -> InfoView
    decreases n, 0int,
{
    InfoView { name: n.name@, kind: n.kind@, filled: n.filled, children: nodes_view(n.children@) }
}

/// The contents of a list of nodes.
pub open spec fn nodes_view(ns: Seq<InfoNode>) -> Seq<InfoView>
    decreases ns, 0int,
{
    if ns.len() == 0 {
        Seq::empty()
    } else {
        nodes_view(ns.drop_last()).push(node_view(ns.last()))
    }
}

/// The contents of a list of nodes, one by one.
pub proof fn lemma_nodes_view(ns: Seq<InfoNode>)
    ensures
        nodes_view(ns).len() == ns.len(),
        forall|i: int| 0 <= i < ns.len() ==> #[trigger] nodes_view(ns)[i] == node_view(ns[i]),
    decreases ns.len(),
{
    if ns.len() > 0 {
        lemma_nodes_view(ns.drop_last());
    }
}

/// Two lists of nodes with the same contents one by one have the same
/// contents.
pub proof fn lemma_nodes_view_ext(ns: Seq<InfoNode>, vs: Seq<InfoView>)
    requires
        ns.len() == vs.len(),
        forall|i: int| 0 <= i < ns.len() ==> #[trigger] node_view(ns[i]) == vs[i],
    ensures
        nodes_view(ns) == vs,
{
    lemma_nodes_view(ns);
    assert(nodes_view(ns) =~= vs);
}

/// Adds `c` to children keyed by name: a child of the same name is
/// replaced in its place, else `c` goes last.
pub open spec fn add_child(cs: Seq<InfoView>, c: InfoView) -> Seq<InfoView> {
    let p = name_pos(cs, c.name);
    if p >= 0 {
        cs.update(p, c)
    } else {
        cs.push(c)
    }
}

/// The position of the last child named `name`, or -1.
pub open spec fn name_pos(cs: Seq<InfoView>, name: Seq<char>) -> int
    decreases cs.len(),
{
    if cs.len() == 0 {
        -1
    } else if cs.last().name == name {
        cs.len() - 1
    } else {
        name_pos(cs.drop_last(), name)
    }
}

proof fn lemma_name_pos(cs: Seq<InfoView>, name: Seq<char>)
    ensures
        -1 <= name_pos(cs, name) < cs.len(),
        name_pos(cs, name) >= 0 ==> cs[name_pos(cs, name)].name == name,
        name_pos(cs, name) < 0 ==> forall|j: int| 0 <= j < cs.len() ==> cs[j].name != name,
        forall|j: int| name_pos(cs, name) < j < cs.len() ==> cs[j].name != name,
    decreases cs.len(),
{
    if cs.len() > 0 {
        let p = cs.drop_last();
        lemma_name_pos(p, name);
        assert forall|j: int| 0 <= j < p.len() implies #[trigger] cs[j] == p[j] by {}
    }
}

/// No two children share a name.
pub open spec fn names_distinct(cs: Seq<InfoView>) -> bool {
    forall|i: int, j: int|
        0 <= i < cs.len() && 0 <= j < cs.len() && i != j ==> #[trigger] cs[i].name != #[trigger] cs[j].name
}

/// Adds the node `c` to the children `cs`, keyed by name.
pub fn push_child(cs: &mut Vec<InfoNode>, c: InfoNode)
    requires
        names_distinct(nodes_view(old(cs)@)),
    ensures
        names_distinct(nodes_view(final(cs)@)),
        nodes_view(final(cs)@) == add_child(nodes_view(old(cs)@), node_view(c)),
{
    let ghost before = nodes_view(cs@);
    let ghost cv = node_view(c);
    proof {
        lemma_nodes_view(cs@);
    }
    let mut i: usize = 0;
    while i < cs.len()
        invariant
            i <= cs@.len(),
            before == nodes_view(cs@),
            before == nodes_view(old(cs)@),
            before.len() == cs@.len(),
            forall|j: int| 0 <= j < cs@.len() ==> #[trigger] before[j] == node_view(cs@[j]),
            names_distinct(before),
            cv == node_view(c),
            forall|j: int| 0 <= j < i ==> before[j].name != cv.name,
        decreases cs@.len() - i,
    {
        if crate::config::chars_are(crate::config::chars_of(cs[i].name.as_str()).as_slice(), c.name.as_str()) {
            assert(before[i as int].name == cv.name);
            let ghost old_cs = cs@;
            cs.set(i, c);
            proof {
                lemma_name_pos(before, cv.name);
                assert(name_pos(before, cv.name) == i as int);
                lemma_nodes_view_ext(cs@, before.update(i as int, cv));
                assert(names_distinct(before.update(i as int, cv)));
            }
            return;
        }
        i = i + 1;
    }
    cs.push(c);
    proof {
        lemma_name_pos(before, cv.name);
        lemma_nodes_view_ext(cs@, before.push(cv));
        assert(names_distinct(before.push(cv)));
    }
}

/// `name` in bold, as `owo_colors` renders it: the ANSI bold code, the
/// name, and the reset code.
pub open spec fn bold_text(name: Seq<char>) -> Seq<char> {
    "\u{1b}[1m"@ + name + "\u{1b}[0m"@
}

/// `name` in bold.
///
/// Trusted: formats `OwoColorize::bold` of `owo_colors`, whose `Display`
/// (in `styles.rs`) writes `\x1b[1m`, the value, and `\x1b[0m`.
#[verifier::external_body]
fn bold(name: &str) -> (res: String)
    ensures
        res@ == bold_text(name@),
{
    format!("{}", name.bold())
}

/// The line of a node: a bullet, its name in bold, and its kind.
pub open spec fn header_text(filled: bool, name: Seq<char>, kind: Seq<char>) -> Seq<char> {
    (if filled { "●"@ } else { "○"@ }) + " "@ + bold_text(name) + " ("@ + kind + ")\n"@
}

/// The lines of a node and of all the nodes under it, each child line
/// starting with `prefix`.
pub open spec fn tree_text(prefix: Seq<char>, n: InfoNode) -> Seq<char>
    decreases n, 0int,
{
    header_text(n.filled, n.name@, n.kind@) + children_text(prefix, n.children@, 0)
}

/// The lines of the children `cs[i..]`: each starts with `├─` (or `└─` for
/// the last), and the lines under it continue the prefix with `│ ` (or two
/// spaces for the last).
pub open spec fn children_text(prefix: Seq<char>, cs: Seq<InfoNode>, i: int) -> Seq<char>
    decreases cs, cs.len() - i,
{
    if 0 <= i < cs.len() {
        let last = i + 1 == cs.len();
        prefix + (if last { "└─"@ } else { "├─"@ }) + tree_text(
            prefix + (if last { "  "@ } else { "│ "@ }),
            cs[i],
        ) + children_text(prefix, cs, i + 1)
    } else {
        Seq::empty()
    }
}

/// Appends the line of a node.
pub fn header_line(w: &mut String, filled: bool, name: &str, kind: &str)
    ensures
        final(w)@ == old(w)@ + header_text(filled, name@, kind@),
{
    let icon = if filled {
        "●"
    } else {
        "○"
    };
    w.append(icon);
    w.append(" ");
    let b = bold(name);
    w.append(b.as_str());
    w.append(" (");
    w.append(kind);
    w.append(")\n");
}

/// Appends the lines of a node and the nodes under it.
pub fn write_tree(w: &mut String, prefix: &str, n: &InfoNode)
    ensures
        final(w)@ == old(w)@ + tree_text(prefix@, *n),
    decreases *n, 0int,
{
    header_line(w, n.filled, n.name.as_str(), n.kind.as_str());
    print_children(w, prefix, n.children.as_slice(), 0);
}

/// Appends the lines of the children `cs[i..]`.
pub fn print_children(w: &mut String, prefix: &str, cs: &[InfoNode], i: usize)
    ensures
        final(w)@ == old(w)@ + children_text(prefix@, cs@, i as int),
    decreases cs@, cs@.len() - i,
{
    if i >= cs.len() {
        assert(children_text(prefix@, cs@, i as int) =~= Seq::<char>::empty());
        return;
    }
    let last = i + 1 == cs.len();
    let mut child_prefix = String::from_str(prefix);
    w.append(prefix);
    if last {
        w.append("└─");
        child_prefix.append("  ");
    } else {
        w.append("├─");
        child_prefix.append("│ ");
    }
    write_tree(w, child_prefix.as_str(), &cs[i]);
    print_children(w, prefix, cs, i + 1);
    assert(w@ =~= old(w)@ + children_text(prefix@, cs@, i as int));
}

/// The description of a tree whose root is named by the node itself.
pub fn info_tree(root: &InfoNode) -> (res: String)
    ensures
        res@ == tree_text(Seq::empty(), *root),
{
    let mut w = String::new();
    proof {
        reveal_strlit("");
        assert(""@ =~= Seq::<char>::empty());
    }
    write_tree(&mut w, "", root);
    assert(w@ =~= tree_text(Seq::empty(), *root));
    w
}

} // verus!
