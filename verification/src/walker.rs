//! The directory walker.
//!
//! A file-system subtree is modelled as a tree of named nodes; the walk
//! descends it depth-first, applying the filter rules of `crate::filters`
//! before each descent, and yields the entries that survive them in
//! encounter order.  An entry whose metadata could not be read is dropped
//! silently and the walk goes on; enumeration itself is not affected.
//! Directory entries carry no metadata of their own here, because only
//! regular files are ever persisted.

use vstd::prelude::*;
use vstd::string::StringExecFns;

use crate::config::Config;
use crate::filters::{
    entry_decision, force_included, matches_any_sub, spec_descend, spec_yielded,
};

verus! {

/// The mathematical value of one yielded entry.
pub ghost struct WalkEntryV {
    pub path: Seq<char>,
    pub name: Seq<char>,
    pub is_dir: bool,
    pub size: u64,
    pub modified_at: i64,
    pub depth: nat,
}

/// One entry yielded by the walk: the full path from the walk's root, the
/// entry's own name, what kind it is, its metadata, and the depth at which
/// it was met.
pub struct WalkEntry {
    pub path: String,
    pub name: String,
    pub is_dir: bool,
    pub size: u64,
    pub modified_at: i64,
    pub depth: u64,
}

impl View for WalkEntry {
    type V = WalkEntryV;

    open spec fn view(&self) -> WalkEntryV {
        WalkEntryV {
            path: self.path@,
            name: self.name@,
            is_dir: self.is_dir,
            size: self.size,
            modified_at: self.modified_at,
            depth: self.depth as nat,
        }
    }
}

/// A file-system subtree: a regular file with its metadata, or a directory
/// with its children.  `meta_ok` is false when the entry's metadata could
/// not be read.
pub enum FsNode {
    File { name: String, size: u64, modified_at: i64, meta_ok: bool },
    Dir { name: String, meta_ok: bool, children: Vec<FsNode> },
}

/// A child's path: the parent's path, a separator, the child's name.
pub open spec fn joined(parent: Seq<char>, name: Seq<char>) -> Seq<char> {
    parent + seq!['/'] + name
}

/// The entries the walk yields from one node, in encounter order: the
/// node's own entry if its metadata was read and the filter rules yield it,
/// then, for a directory the rules descend into, the entries of its
/// children in order.
pub open spec fn walk_node(node: FsNode, cfg: Config, parent: Seq<char>, depth: nat) -> Seq<
    WalkEntryV,
>
    decreases node,
{
    match node {
        FsNode::File { name, size, modified_at, meta_ok } => {
            if meta_ok && spec_yielded(name@, false, cfg) {
                seq![
                    WalkEntryV {
                        path: joined(parent, name@),
                        name: name@,
                        is_dir: false,
                        size: size,
                        modified_at: modified_at,
                        depth: depth,
                    },
                ]
            } else {
                Seq::empty()
            }
        },
        FsNode::Dir { name, meta_ok, children } => {
            let own = if meta_ok && spec_yielded(name@, true, cfg) {
                seq![
                    WalkEntryV {
                        path: joined(parent, name@),
                        name: name@,
                        is_dir: true,
                        size: 0,
                        modified_at: 0,
                        depth: depth,
                    },
                ]
            } else {
                Seq::empty()
            };
            own + if spec_descend(name@, true, depth, cfg) {
                walk_nodes(children@, cfg, joined(parent, name@), (depth + 1) as nat)
            } else {
                Seq::empty()
            }
        },
    }
}

/// The entries the walk yields from a row of siblings, in order.
pub open spec fn walk_nodes(nodes: Seq<FsNode>, cfg: Config, parent: Seq<char>, depth: nat) -> Seq<
    WalkEntryV,
>
    decreases nodes,
{
    if nodes.len() == 0 {
        Seq::empty()
    } else {
        walk_nodes(nodes.drop_last(), cfg, parent, depth) + walk_node(
            nodes.last(),
            cfg,
            parent,
            depth,
        )
    }
}

/// The number of nodes in a subtree; the walk's termination measure.
pub open spec fn node_size(node: FsNode) -> nat
    decreases node,
{
    match node {
        FsNode::File { .. } => 1,
        FsNode::Dir { children, .. } => 1 + nodes_size(children@),
    }
}

/// The number of nodes in a row of subtrees.
pub open spec fn nodes_size(nodes: Seq<FsNode>) -> nat
    decreases nodes,
{
    if nodes.len() == 0 {
        0
    } else {
        nodes_size(nodes.drop_last()) + node_size(nodes.last())
    }
}

/// A sibling's subtree is no larger than the whole row.
proof fn lemma_nodes_size_element(nodes: Seq<FsNode>, i: int)
    requires
        0 <= i < nodes.len(),
    ensures
        node_size(nodes[i]) <= nodes_size(nodes),
    decreases nodes.len(),
{
    if i == nodes.len() - 1 {
        assert(nodes[i] == nodes.last());
    } else {
        lemma_nodes_size_element(nodes.drop_last(), i);
        assert(nodes.drop_last()[i] == nodes[i]);
    }
}

/// Appends the parent path, a slash, and the name.
fn join_path(parent: &str, name: &str) -> (p: String)
    ensures
        p@ == joined(parent@, name@),
{
    let mut p = parent.to_owned();
    crate::text::push_char(&mut p, '/');
    p.append(name);
    proof {
        assert(p@ =~= joined(parent@, name@));
    }
    p
}

/// Walks one node, appending what it yields to `out`.
pub fn walk_into(node: &FsNode, cfg: &Config, parent: &str, depth: u64, out: &mut Vec<WalkEntry>)
    ensures
        final(out)@.map_values(|e: WalkEntry| e@) == old(out)@.map_values(|e: WalkEntry| e@)
            + walk_node(*node, *cfg, parent@, depth as nat),
    decreases node_size(*node),
{
    let ghost ev = |e: WalkEntry| e@;
    match node {
        FsNode::File { name, size, modified_at, meta_ok } => {
            let d = entry_decision(name.as_str(), false, depth, cfg);
            if *meta_ok && d.yielded {
                let path = join_path(parent, name.as_str());
                out.push(
                    WalkEntry {
                        path,
                        name: name.clone(),
                        is_dir: false,
                        size: *size,
                        modified_at: *modified_at,
                        depth,
                    },
                );
            }
            assert(out@.map_values(ev) =~= old(out)@.map_values(ev) + walk_node(
                *node,
                *cfg,
                parent@,
                depth as nat,
            ));
        },
        FsNode::Dir { name, meta_ok, children } => {
            let d = entry_decision(name.as_str(), true, depth, cfg);
            let path = join_path(parent, name.as_str());
            if *meta_ok {
                out.push(
                    WalkEntry {
                        path: path.clone(),
                        name: name.clone(),
                        is_dir: true,
                        size: 0,
                        modified_at: 0,
                        depth,
                    },
                );
            }
            let ghost own = out@.map_values(ev);
            proof {
                assert(own =~= old(out)@.map_values(ev) + (if *meta_ok && spec_yielded(
                    name@,
                    true,
                    *cfg,
                ) {
                    seq![
                        WalkEntryV {
                            path: joined(parent@, name@),
                            name: name@,
                            is_dir: true,
                            size: 0,
                            modified_at: 0,
                            depth: depth as nat,
                        },
                    ]
                } else {
                    Seq::empty()
                }));
            }
            if d.descend {
                let n: usize = children.len();
                let mut i: usize = 0;
                while i < n
                    invariant
                        *node == (FsNode::Dir {
                            name: *name,
                            meta_ok: *meta_ok,
                            children: *children,
                        }),
                        n == children@.len(),
                        0 <= i <= n,
                        ev == (|e: WalkEntry| e@),
                        d.descend == spec_descend(name@, true, depth as nat, *cfg),
                        d.descend,
                        depth < cfg.max_depth,
                        path@ == joined(parent@, name@),
                        out@.map_values(ev) == own + walk_nodes(
                            children@.subrange(0, i as int),
                            *cfg,
                            path@,
                            (depth + 1) as nat,
                        ),
                    decreases n - i,
                {
                    proof {
                        lemma_nodes_size_element(children@, i as int);
                        assert(node_size(children@[i as int]) < node_size(*node));
                    }
                    walk_into(&children[i], cfg, path.as_str(), depth + 1, out);
                    proof {
                        let t = children@.subrange(0, i + 1);
                        assert(t.drop_last() =~= children@.subrange(0, i as int));
                        assert(t.last() == children@[i as int]);
                        assert(walk_nodes(t, *cfg, path@, (depth + 1) as nat) == walk_nodes(
                            t.drop_last(),
                            *cfg,
                            path@,
                            (depth + 1) as nat,
                        ) + walk_node(t.last(), *cfg, path@, (depth + 1) as nat));
                        assert(out@.map_values(ev) =~= own + walk_nodes(
                            t,
                            *cfg,
                            path@,
                            (depth + 1) as nat,
                        ));
                    }
                    i = i + 1;
                }
                proof {
                    assert(children@.subrange(0, n as int) =~= children@);
                    assert(out@.map_values(ev) =~= old(out)@.map_values(ev) + walk_node(
                        *node,
                        *cfg,
                        parent@,
                        depth as nat,
                    ));
                }
            } else {
                proof {
                    assert(out@.map_values(ev) =~= old(out)@.map_values(ev) + walk_node(
                        *node,
                        *cfg,
                        parent@,
                        depth as nat,
                    ));
                }
            }
        },
    }
}

/// Walks a whole tree from its root, at depth zero with an empty parent
/// path, and returns every yielded entry in encounter order.
pub fn walk(root: &FsNode, cfg: &Config) -> (out: Vec<WalkEntry>)
    ensures
        out@.map_values(|e: WalkEntry| e@) == walk_node(*root, *cfg, Seq::empty(), 0),
{
    let mut out: Vec<WalkEntry> = Vec::new();
    proof {
        reveal_strlit("");
        assert(""@ =~= Seq::<char>::empty());
        assert(out@.map_values(|e: WalkEntry| e@) =~= Seq::<WalkEntryV>::empty());
    }
    walk_into(root, cfg, "", 0, &mut out);
    proof {
        assert(out@.map_values(|e: WalkEntry| e@) =~= walk_node(*root, *cfg, Seq::empty(), 0));
    }
    out
}

/// A directory whose name matches a skip entry, with no force entry to
/// override it, yields at most its own entry: nothing below it, in
/// particular no file in its subtree, is ever yielded.
pub proof fn lemma_skip_dir_prunes(
    name: String,
    meta_ok: bool,
    children: Vec<FsNode>,
    cfg: Config,
    parent: Seq<char>,
    depth: nat,
)
    requires
        matches_any_sub(name@, cfg.skip_directories@),
        !force_included(name@, cfg),
    ensures
        walk_node(FsNode::Dir { name, meta_ok, children }, cfg, parent, depth) == (if meta_ok {
            seq![
                WalkEntryV {
                    path: joined(parent, name@),
                    name: name@,
                    is_dir: true,
                    size: 0,
                    modified_at: 0,
                    depth: depth,
                },
            ]
        } else {
            Seq::<WalkEntryV>::empty()
        }),
{
    let node = FsNode::Dir { name, meta_ok, children };
    assert(!spec_descend(name@, true, depth, cfg));
    if meta_ok {
        assert(walk_node(node, cfg, parent, depth) =~= seq![
            WalkEntryV {
                path: joined(parent, name@),
                name: name@,
                is_dir: true,
                size: 0,
                modified_at: 0,
                depth: depth,
            },
        ]);
    } else {
        assert(walk_node(node, cfg, parent, depth) =~= Seq::<WalkEntryV>::empty());
    }
}

/// A readable file whose name matches a force entry is yielded, whatever
/// the skip rules say of it.
pub proof fn lemma_force_include_file_yielded(
    name: String,
    size: u64,
    modified_at: i64,
    cfg: Config,
    parent: Seq<char>,
    depth: nat,
)
    requires
        force_included(name@, cfg),
    ensures
        walk_node(
            FsNode::File { name, size, modified_at, meta_ok: true },
            cfg,
            parent,
            depth,
        ) == seq![
            WalkEntryV {
                path: joined(parent, name@),
                name: name@,
                is_dir: false,
                size: size,
                modified_at: modified_at,
                depth: depth,
            },
        ],
{
    crate::filters::lemma_force_include_yielded(name@, false, cfg);
}

/// A directory whose name matches a force entry is descended into whenever
/// the depth bound allows, though a skip entry also matches its name.
pub proof fn lemma_force_include_dir_descends(
    name: String,
    meta_ok: bool,
    children: Vec<FsNode>,
    cfg: Config,
    parent: Seq<char>,
    depth: nat,
)
    requires
        force_included(name@, cfg),
        depth < cfg.max_depth,
    ensures
        walk_node(FsNode::Dir { name, meta_ok, children }, cfg, parent, depth) == (if meta_ok {
            seq![
                WalkEntryV {
                    path: joined(parent, name@),
                    name: name@,
                    is_dir: true,
                    size: 0,
                    modified_at: 0,
                    depth: depth,
                },
            ]
        } else {
            Seq::<WalkEntryV>::empty()
        }) + walk_nodes(children@, cfg, joined(parent, name@), (depth + 1) as nat),
{
    assert(spec_descend(name@, true, depth, cfg));
}

/// Walking two rows of siblings one after the other yields what walking
/// the combined row yields.
pub proof fn lemma_walk_nodes_concat(
    a: Seq<FsNode>,
    b: Seq<FsNode>,
    cfg: Config,
    parent: Seq<char>,
    depth: nat,
)
    ensures
        walk_nodes(a + b, cfg, parent, depth) == walk_nodes(a, cfg, parent, depth) + walk_nodes(
            b,
            cfg,
            parent,
            depth,
        ),
    decreases b.len(),
{
    if b.len() == 0 {
        assert(a + b =~= a);
        assert(walk_nodes(a, cfg, parent, depth) + walk_nodes(b, cfg, parent, depth)
            =~= walk_nodes(a, cfg, parent, depth));
    } else {
        lemma_walk_nodes_concat(a, b.drop_last(), cfg, parent, depth);
        assert((a + b).drop_last() =~= a + b.drop_last());
        assert((a + b).last() == b.last());
        assert(walk_nodes(a + b, cfg, parent, depth) =~= walk_nodes(a, cfg, parent, depth)
            + walk_nodes(b, cfg, parent, depth));
    }
}

/// The walk of a row of siblings decomposes around any one of them: what
/// stands before it, its own subtree's entries unchanged, what stands
/// after it.
pub proof fn lemma_walk_nodes_split(
    nodes: Seq<FsNode>,
    i: int,
    cfg: Config,
    parent: Seq<char>,
    depth: nat,
)
    requires
        0 <= i < nodes.len(),
    ensures
        walk_nodes(nodes, cfg, parent, depth) == walk_nodes(
            nodes.subrange(0, i),
            cfg,
            parent,
            depth,
        ) + walk_node(nodes[i], cfg, parent, depth) + walk_nodes(
            nodes.subrange(i + 1, nodes.len() as int),
            cfg,
            parent,
            depth,
        ),
{
    let pre = nodes.subrange(0, i);
    let mid = seq![nodes[i]];
    let post = nodes.subrange(i + 1, nodes.len() as int);
    assert(nodes =~= pre + mid + post);
    lemma_walk_nodes_concat(pre + mid, post, cfg, parent, depth);
    lemma_walk_nodes_concat(pre, mid, cfg, parent, depth);
    assert(mid.drop_last() =~= Seq::<FsNode>::empty());
    assert(mid.last() == nodes[i]);
    assert(walk_nodes(Seq::<FsNode>::empty(), cfg, parent, depth) == Seq::<WalkEntryV>::empty());
    assert(walk_nodes(mid, cfg, parent, depth) == Seq::<WalkEntryV>::empty() + walk_node(
        nodes[i],
        cfg,
        parent,
        depth,
    ));
    assert(Seq::<WalkEntryV>::empty() + walk_node(nodes[i], cfg, parent, depth) =~= walk_node(
        nodes[i],
        cfg,
        parent,
        depth,
    ));
}

/// A directory that the rules descend into carries each child's subtree
/// entries into its own walk, in order and unchanged: what a child yields
/// is never lost on the way up.
pub proof fn lemma_descended_child_entries_kept(
    name: String,
    meta_ok: bool,
    children: Vec<FsNode>,
    i: int,
    cfg: Config,
    parent: Seq<char>,
    depth: nat,
)
    requires
        spec_descend(name@, true, depth, cfg),
        0 <= i < children@.len(),
    ensures
        ({
            let whole = walk_node(FsNode::Dir { name, meta_ok, children }, cfg, parent, depth);
            let child = walk_node(children@[i], cfg, joined(parent, name@), (depth + 1) as nat);
            exists|off: int|
                0 <= off && off + child.len() <= whole.len() && #[trigger] whole.subrange(
                    off,
                    off + child.len() as int,
                ) == child
        }),
{
    let path = joined(parent, name@);
    let whole = walk_node(FsNode::Dir { name, meta_ok, children }, cfg, parent, depth);
    let child = walk_node(children@[i], cfg, path, (depth + 1) as nat);
    let own = if meta_ok && spec_yielded(name@, true, cfg) {
        1int
    } else {
        0int
    };
    lemma_walk_nodes_split(children@, i, cfg, path, (depth + 1) as nat);
    let pre = walk_nodes(children@.subrange(0, i), cfg, path, (depth + 1) as nat);
    let off = own + pre.len();
    assert(whole.subrange(off, off + child.len() as int) =~= child);
}

/// Every entry yielded from a walk that starts within the depth bound
/// stands at a depth between the start and the bound: with a bound of
/// three, nothing at depth four is ever yielded.
pub proof fn lemma_walk_depth_bounded(node: FsNode, cfg: Config, parent: Seq<char>, depth: nat)
    requires
        depth <= cfg.max_depth,
    ensures
        forall|k: int|
            0 <= k < walk_node(node, cfg, parent, depth).len() ==> depth <= #[trigger] walk_node(
                node,
                cfg,
                parent,
                depth,
            )[k].depth <= cfg.max_depth,
    decreases node,
{
    let w = walk_node(node, cfg, parent, depth);
    match node {
        FsNode::File { name, size, modified_at, meta_ok } => {
            assert forall|k: int| 0 <= k < w.len() implies depth <= #[trigger] w[k].depth
                <= cfg.max_depth by {
                assert(w[k].depth == depth);
            }
        },
        FsNode::Dir { name, meta_ok, children } => {
            let own = if meta_ok && spec_yielded(name@, true, cfg) {
                seq![
                    WalkEntryV {
                        path: joined(parent, name@),
                        name: name@,
                        is_dir: true,
                        size: 0,
                        modified_at: 0,
                        depth: depth,
                    },
                ]
            } else {
                Seq::<WalkEntryV>::empty()
            };
            if spec_descend(name@, true, depth, cfg) {
                assert(depth < cfg.max_depth);
                let rest = walk_nodes(children@, cfg, joined(parent, name@), (depth + 1) as nat);
                lemma_walk_nodes_depth_bounded(
                    children@,
                    cfg,
                    joined(parent, name@),
                    (depth + 1) as nat,
                );
                assert(w == own + rest);
                assert forall|k: int| 0 <= k < w.len() implies depth <= #[trigger] w[k].depth
                    <= cfg.max_depth by {
                    if k < own.len() {
                        assert(w[k] == own[k]);
                    } else {
                        assert(w[k] == rest[k - own.len()]);
                        assert(depth + 1 <= rest[k - own.len()].depth <= cfg.max_depth);
                    }
                }
            } else {
                assert(w == own + Seq::<WalkEntryV>::empty());
                assert forall|k: int| 0 <= k < w.len() implies depth <= #[trigger] w[k].depth
                    <= cfg.max_depth by {
                    assert(w[k] == own[k]);
                }
            }
        },
    }
}

/// As `lemma_walk_depth_bounded`, for a row of siblings.
pub proof fn lemma_walk_nodes_depth_bounded(
    nodes: Seq<FsNode>,
    cfg: Config,
    parent: Seq<char>,
    depth: nat,
)
    requires
        depth <= cfg.max_depth,
    ensures
        forall|k: int|
            0 <= k < walk_nodes(nodes, cfg, parent, depth).len() ==> depth
                <= #[trigger] walk_nodes(nodes, cfg, parent, depth)[k].depth <= cfg.max_depth,
    decreases nodes,
{
    if nodes.len() > 0 {
        lemma_walk_nodes_depth_bounded(nodes.drop_last(), cfg, parent, depth);
        lemma_walk_depth_bounded(nodes.last(), cfg, parent, depth);
        let w = walk_nodes(nodes, cfg, parent, depth);
        let a = walk_nodes(nodes.drop_last(), cfg, parent, depth);
        let b = walk_node(nodes.last(), cfg, parent, depth);
        assert(w == a + b);
        assert forall|k: int| 0 <= k < w.len() implies depth <= #[trigger] w[k].depth
            <= cfg.max_depth by {
            if k < a.len() {
                assert(w[k] == a[k]);
                assert(depth <= a[k].depth <= cfg.max_depth);
            } else {
                assert(w[k] == b[k - a.len()]);
                assert(depth <= b[k - a.len()].depth <= cfg.max_depth);
            }
        }
    }
}

} // verus!
