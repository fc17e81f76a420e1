use vstd::prelude::*;
use crate::files::FsEntry;
use crate::format::SizeFormat;
use crate::size::Unit;
use crate::tree::{Tree, TreeNode, TreeNodeView};

verus! {

/// A snapshot of version-control status, produced by the status provider
/// before traversal begins: a mapping from path to status tag. Lookups match
/// the recorded path exactly; the traversal never refreshes the snapshot.
pub struct StatusMap {
    pub entries: Vec<(String, String)>,
}

/// The status recorded for `path` in `s`, by first exact match.
pub open spec fn spec_status_in(s: Seq<(String, String)>, path: Seq<char>) -> Option<String>
    decreases s.len(),
{
    if s.len() == 0 {
        None
    } else if s[0].0@ == path {
        Some(s[0].1)
    } else {
        spec_status_in(s.drop_first(), path)
    }
}

impl StatusMap {
    /// The status recorded for `path`, if any.
    pub open spec fn spec_status_of(self, path: Seq<char>) -> Option<String> {
        spec_status_in(self.entries@, path)
    }

    /// An empty snapshot: no path has a status.
    pub fn new() -> (r: StatusMap)
        ensures
            r.entries@.len() == 0,
    {
        StatusMap { entries: Vec::new() }
    }

    /// Record a status for a path.
    pub fn insert(&mut self, path: String, status: String)
        ensures
            final(self).entries@ == old(self).entries@.push((path, status)),
    {
        self.entries.push((path, status));
    }

    /// Look up the status of `path`, by exact match.
    pub fn get(&self, path: &str) -> (r: Option<String>)
        ensures
            r == self.spec_status_of(path@),
    {
        let mut i: usize = 0;
        proof {
            assert(self.entries@.skip(0) =~= self.entries@);
        }
        while i < self.entries.len()
            invariant
                0 <= i <= self.entries@.len(),
                spec_status_in(self.entries@, path@) == spec_status_in(
                    self.entries@.skip(i as int),
                    path@,
                ),
        decreases self.entries@.len() - i,
        {
            proof {
                assert(self.entries@.skip(i as int)[0] == self.entries@[i as int]);
                assert(self.entries@.skip(i as int).drop_first() =~= self.entries@.skip(
                    i + 1,
                ));
            }
            if crate::strutil::str_eq(self.entries[i].0.as_str(), path) {
                return Some(self.entries[i].1.clone());
            }
            i = i + 1;
        }
        None
    }
}

/// The extension of a file name: the part after the last dot, provided some
/// dot stands after the first character. A name without such a dot, a name
/// made of a single leading dot, and a bare name like `LOCK` all have no
/// extension at all, which is distinct from an empty one.
pub open spec fn spec_ext_of(name: Seq<char>) -> Option<Seq<char>> {
    if exists|i: int| 1 <= i < name.len() && name[i] == '.' {
        Some(crate::strutil::suffix_after_char(name, '.'))
    } else {
        None
    }
}

/// The extension of a file name, as an executable value.
pub fn ext_of(name: &str) -> (r: Option<String>)
    ensures
        match r {
            Some(x) => spec_ext_of(name@) == Some(x@),
            None => spec_ext_of(name@) is None,
        },
{
    let len = name.unicode_len();
    let mut i: usize = len;
    while i > 0 && name.get_char(i - 1) != '.'
        invariant
            0 <= i <= len,
            len == name@.len(),
            forall|j: int| i <= j < len ==> name@[j] != '.',
        decreases i,
    {
        i = i - 1;
    }
    if i > 1 {
        proof {
            assert(name@[i - 1] == '.');
            crate::strutil::lemma_suffix_after_char_region(name@, i as int, '.');
        }
        let seg = name.substring_char(i, len);
        Some(String::from_str(seg))
    } else {
        proof {
            if i == 1 {
                assert(name@[0] == '.');
            }
            assert(forall|j: int| 1 <= j < len ==> name@[j] != '.');
        }
        None
    }
}

/// The extension allow-list rule: a directory is always visible here (it is
/// judged by its filtered children, not by its own name); with an empty
/// allow-list every entry is visible; otherwise a file is visible exactly
/// when it has an extension and that extension is in the list.
pub open spec fn spec_ext_visible(cfg: Tree, e: FsEntry) -> bool {
    e.is_dir || cfg.extensions@.len() == 0 || (spec_ext_of(e.name@) matches Some(x)
        && crate::strutil::spec_contains_str(crate::strutil::views_of(cfg.extensions@), x))
}

/// Whether `name` is on the ignore list of `cfg`.
pub open spec fn spec_ignored(cfg: Tree, name: Seq<char>) -> bool {
    crate::strutil::spec_contains_str(crate::strutil::views_of(cfg.ignores@), name)
}

impl Tree {
    /// The extension allow-list test for one entry.
    pub fn ext_filter(&self, entry: &FsEntry) -> (r: bool)
        ensures
            r == spec_ext_visible(*self, *entry),
    {
        if entry.is_dir {
            return true;
        }
        if self.extensions.len() == 0 {
            return true;
        }
        match ext_of(entry.name.as_str()) {
            Some(x) => crate::strutil::contains_str(&self.extensions, x.as_str()),
            None => false,
        }
    }

    /// The ignore-list test for one entry: true when the entry survives.
    pub fn ignore_filename_filter(&self, entry: &FsEntry) -> (r: bool)
        ensures
            r == !spec_ignored(*self, entry.name@),
    {
        !crate::strutil::contains_str(&self.ignores, entry.name.as_str())
    }
}

/// Whether a node at `depth` lies beyond the configured depth limit.
pub open spec fn spec_depth_exceeded(cfg: Tree, depth: u32) -> bool {
    cfg.max_depth matches Some(m) && depth > m
}

/// The depth of a node's children: one more, saturating at the largest
/// machine value.
pub open spec fn spec_child_depth(depth: u32) -> u32 {
    if depth < u32::MAX {
        (depth + 1) as u32
    } else {
        depth
    }
}

/// The size attached to a node, by the configured size mode: absent when no
/// size mode is set or the size could not be computed; the raw byte count,
/// or the classified human-readable unit. A directory reports its recursive
/// total, a file its own length.
pub open spec fn spec_node_size(cfg: Tree, e: FsEntry) -> Option<Unit> {
    match cfg.size {
        Option::None => None,
        Option::Some(SizeFormat::Bytes) => if e.is_dir {
            if crate::files::spec_subtree_ok(e) && crate::files::spec_subtree_total(e)
                <= u64::MAX {
                Some(Unit::Byte(crate::files::spec_subtree_total(e) as u64))
            } else {
                None
            }
        } else {
            match e.size {
                Option::Some(s) => Some(Unit::Byte(s)),
                Option::None => None,
            }
        },
        Option::Some(SizeFormat::HumanReadable) => if crate::files::spec_subtree_ok(e)
            && crate::files::spec_subtree_total(e) <= u64::MAX {
            Some(crate::size::spec_unit_of(crate::files::spec_subtree_total(e) as u64))
        } else {
            None
        },
    }
}

/// The node that the builder produces for `e` at `depth` (the root of a
/// traversal is at depth one). Absence is the normal signal that a subtree
/// contributes nothing: the node lies beyond the depth limit, its name is
/// ignored (the root itself is exempt), or the entry could not be read.
/// A directory's surviving children are collected in listing order; an
/// empty collection is normalized to absent children.
pub open spec fn spec_build(e: FsEntry, depth: u32, cfg: Tree, st: StatusMap) -> Option<
    TreeNodeView,
>
    decreases e, 1int, 0int,
{
    if spec_depth_exceeded(cfg, depth) {
        None
    } else if depth > 1 && spec_ignored(cfg, e.name@) {
        None
    } else if e.is_dir && !e.readable {
        None
    } else {
        Some(
            TreeNodeView {
                name: e.name@,
                git_status: match st.spec_status_of(e.path@) {
                    Option::Some(s) => Some(s@),
                    Option::None => None,
                },
                children: if e.is_dir {
                    let kids = spec_build_children(
                        e.children@,
                        e.children@.len() as int,
                        spec_child_depth(depth),
                        cfg,
                        st,
                    );
                    if kids.len() == 0 {
                        None
                    } else {
                        Some(kids)
                    }
                } else {
                    None
                },
                size: spec_node_size(cfg, e),
                verbose_info: if cfg.verbose {
                    e.meta
                } else {
                    None
                },
            },
        )
    }
}

/// The nodes built from the first `n` entries of `s` at `depth`, in order:
/// entries that fail the extension rule and subtrees that contribute
/// nothing are dropped.
pub open spec fn spec_build_children(
    s: Seq<FsEntry>,
    n: int,
    depth: u32,
    cfg: Tree,
    st: StatusMap,
) -> Seq<TreeNodeView>
    decreases s, 0int, n,
{
    if n <= 0 || n > s.len() {
        Seq::empty()
    } else {
        let prefix = spec_build_children(s, n - 1, depth, cfg, st);
        if spec_ext_visible(cfg, s[n - 1]) {
            match spec_build(s[n - 1], depth, cfg, st) {
                Option::Some(v) => prefix.push(v),
                Option::None => prefix,
            }
        } else {
            prefix
        }
    }
}

/// The size attached to the node for `e`, as an executable value.
fn node_size(tree: &Tree, e: &FsEntry) -> (r: Option<Unit>)
    ensures
        r == spec_node_size(*tree, *e),
{
    match tree.size {
        Option::None => None,
        Option::Some(SizeFormat::Bytes) => {
            if e.is_dir {
                match crate::files::get_filesize(e) {
                    Option::Some(s) => Some(Unit::Byte(s)),
                    Option::None => None,
                }
            } else {
                match e.size {
                    Option::Some(s) => Some(Unit::Byte(s)),
                    Option::None => None,
                }
            }
        }
        Option::Some(SizeFormat::HumanReadable) => crate::files::get_human_readable_filesize(e),
    }
}

/// Build the tree for the snapshot entry `e` at `depth`, sequentially:
/// children are visited one after the other, strictly in listing order.
pub fn build_tree(e: &FsEntry, depth: u32, tree: &Tree, git_statuses: &StatusMap) -> (r: Option<
    TreeNode,
>)
    ensures
        match r {
            Some(n) => spec_build(*e, depth, *tree, *git_statuses) == Some(n@),
            None => spec_build(*e, depth, *tree, *git_statuses) is None,
        },
    decreases *e,
{
    if let Some(m) = tree.max_depth {
        if depth > m {
            return None;
        }
    }
    if depth > 1 {
        if !tree.ignore_filename_filter(e) {
            return None;
        }
    }
    let git_status = git_statuses.get(e.path.as_str());
    let verbose_info = if tree.verbose {
        e.meta
    } else {
        None
    };
    let size = node_size(tree, e);
    if e.is_dir {
        if !e.readable {
            return None;
        }
        let child_depth = if depth < u32::MAX {
            depth + 1
        } else {
            depth
        };
        let n = e.children.len();
        let mut children: Vec<TreeNode> = Vec::new();
        let mut i: usize = 0;
        while i < n
            invariant
                0 <= i <= n,
                n == e.children@.len(),
                child_depth == spec_child_depth(depth),
                crate::tree::views_of_nodes(children@) == spec_build_children(
                    e.children@,
                    i as int,
                    child_depth,
                    *tree,
                    *git_statuses,
                ),
            decreases n - i,
        {
            let c = &e.children[i];
            let ghost pre = children@;
            if tree.ext_filter(c) {
                match build_tree(c, child_depth, tree, git_statuses) {
                    Some(node) => {
                        children.push(node);
                        proof {
                            crate::tree::lemma_node_views_elems(pre, pre.len() as int);
                            crate::tree::lemma_node_views_elems(
                                children@,
                                children@.len() as int,
                            );
                            assert(crate::tree::views_of_nodes(children@)
                                =~= crate::tree::views_of_nodes(pre).push(node@));
                        }
                    }
                    None => {}
                }
            }
            i = i + 1;
        }
        proof {
            crate::tree::lemma_node_views_elems(children@, children@.len() as int);
        }
        let children_opt = if children.len() == 0 {
            None
        } else {
            Some(children)
        };
        let node = TreeNode { name: e.name.clone(), git_status, children: children_opt, size, verbose_info };
        proof {
            assert(node@ =~= spec_build(*e, depth, *tree, *git_statuses)->0);
        }
        Some(node)
    } else {
        let node = TreeNode { name: e.name.clone(), git_status, children: None, size, verbose_info };
        proof {
            assert(node@ =~= spec_build(*e, depth, *tree, *git_statuses)->0);
        }
        Some(node)
    }
}

/// The view of an optional node.
pub open spec fn spec_opt_view(r: Option<TreeNode>) -> Option<TreeNodeView> {
    match r {
        Option::Some(n) => Some(crate::tree::spec_node_view(n)),
        Option::None => None,
    }
}

/// What one child entry contributes before joining: nothing when it fails
/// the extension rule, otherwise whatever building it yields.
pub open spec fn spec_child_result(
    c: FsEntry,
    depth: u32,
    cfg: Tree,
    st: StatusMap,
) -> Option<TreeNodeView> {
    if spec_ext_visible(cfg, c) {
        spec_build(c, depth, cfg, st)
    } else {
        None
    }
}

proof fn lemma_build_children_from_results(
    s: Seq<FsEntry>,
    rs: Seq<Option<TreeNodeView>>,
    n: int,
    depth: u32,
    cfg: Tree,
    st: StatusMap,
)
    requires
        0 <= n <= s.len(),
        rs.len() == s.len(),
        forall|j: int| 0 <= j < s.len() ==> rs[j] == spec_child_result(#[trigger] s[j], depth, cfg, st),
    ensures
        spec_build_children(s, n, depth, cfg, st) == spec_collect_some(rs, n),
    decreases n,
{
    if n > 0 {
        lemma_build_children_from_results(s, rs, n - 1, depth, cfg, st);
    }
}

/// The present values among the first `n` of `rs`, in order.
pub open spec fn spec_collect_some(rs: Seq<Option<TreeNodeView>>, n: int) -> Seq<TreeNodeView>
    decreases n,
{
    if n <= 0 || n > rs.len() {
        Seq::empty()
    } else {
        match rs[n - 1] {
            Option::Some(v) => spec_collect_some(rs, n - 1).push(v),
            Option::None => spec_collect_some(rs, n - 1),
        }
    }
}

/// Build the tree for the snapshot entry `e` at `depth` in the fan-out,
/// join style of the thread-parallel strategy: every surviving child's
/// subtree is built as an independent task first, and only then are the
/// finished results joined into the parent, in listing order. The node
/// contents are the same as the sequential builder's, which is this
/// function's contract.
pub fn build_tree_parallel(e: &FsEntry, depth: u32, tree: &Tree, git_statuses: &StatusMap) -> (r:
    Option<TreeNode>)
    ensures
        match r {
            Some(n) => spec_build(*e, depth, *tree, *git_statuses) == Some(n@),
            None => spec_build(*e, depth, *tree, *git_statuses) is None,
        },
    decreases *e,
{
    if let Some(m) = tree.max_depth {
        if depth > m {
            return None;
        }
    }
    if depth > 1 {
        if !tree.ignore_filename_filter(e) {
            return None;
        }
    }
    let git_status = git_statuses.get(e.path.as_str());
    let verbose_info = if tree.verbose {
        e.meta
    } else {
        None
    };
    let size = node_size(tree, e);
    if e.is_dir {
        if !e.readable {
            return None;
        }
        let child_depth = if depth < u32::MAX {
            depth + 1
        } else {
            depth
        };
        let n = e.children.len();
        // Fan out: one independent result per child, in its own slot.
        let mut results: Vec<Option<TreeNode>> = Vec::new();
        let mut i: usize = 0;
        while i < n
            invariant
                0 <= i <= n,
                n == e.children@.len(),
                child_depth == spec_child_depth(depth),
                results@.len() == i,
                forall|j: int|
                    0 <= j < i ==> spec_opt_view(#[trigger] results@[j]) == spec_child_result(
                        e.children@[j],
                        child_depth,
                        *tree,
                        *git_statuses,
                    ),
            decreases n - i,
        {
            let c = &e.children[i];
            if tree.ext_filter(c) {
                results.push(build_tree_parallel(c, child_depth, tree, git_statuses));
            } else {
                results.push(None);
            }
            i = i + 1;
        }
        // Join: collect the finished subtrees in listing order.
        let ghost rviews = Seq::new(
            results@.len() as nat,
            |j: int| spec_opt_view(results@[j]),
        );
        let mut children: Vec<TreeNode> = Vec::new();
        let mut k: usize = 0;
        let ghost rs = results@;
        while k < n
            invariant
                0 <= k <= n,
                n == e.children@.len(),
                rs.len() == n,
                results@ == rs.skip(k as int),
                rviews.len() == n,
                forall|j: int| 0 <= j < n ==> rviews[j] == spec_opt_view(#[trigger] rs[j]),
                crate::tree::views_of_nodes(children@) == spec_collect_some(rviews, k as int),
            decreases n - k,
        {
            let ghost pre = children@;
            proof {
                assert(rs.skip(k as int)[0] == rs[k as int]);
                assert(rs.skip(k as int).remove(0) =~= rs.skip(k + 1));
            }
            let slot = results.remove(0);
            match slot {
                Some(node) => {
                    children.push(node);
                    proof {
                        crate::tree::lemma_node_views_elems(pre, pre.len() as int);
                        crate::tree::lemma_node_views_elems(children@, children@.len() as int);
                        assert(crate::tree::views_of_nodes(children@)
                            =~= crate::tree::views_of_nodes(pre).push(node@));
                    }
                }
                None => {}
            }
            k = k + 1;
        }
        proof {
            lemma_build_children_from_results(
                e.children@,
                rviews,
                n as int,
                child_depth,
                *tree,
                *git_statuses,
            );
            crate::tree::lemma_node_views_elems(children@, children@.len() as int);
        }
        let children_opt = if children.len() == 0 {
            None
        } else {
            Some(children)
        };
        let node = TreeNode { name: e.name.clone(), git_status, children: children_opt, size, verbose_info };
        proof {
            assert(node@ =~= spec_build(*e, depth, *tree, *git_statuses)->0);
        }
        Some(node)
    } else {
        let node = TreeNode { name: e.name.clone(), git_status, children: None, size, verbose_info };
        proof {
            assert(node@ =~= spec_build(*e, depth, *tree, *git_statuses)->0);
        }
        Some(node)
    }
}

/// The set of leaf names in a built tree: the name of every node without
/// children, at any level.
pub open spec fn spec_leaf_names(v: TreeNodeView) -> Set<Seq<char>>
    decreases v, 1int, 0int,
{
    match v.children {
        Option::None => set![v.name],
        Option::Some(cs) => spec_leaf_names_upto(cs, cs.len() as int),
    }
}

/// The union of the leaf names of the first `n` nodes of `s`.
pub open spec fn spec_leaf_names_upto(s: Seq<TreeNodeView>, n: int) -> Set<Seq<char>>
    decreases s, 0int, n,
{
    if n <= 0 || n > s.len() {
        Set::empty()
    } else {
        spec_leaf_names_upto(s, n - 1).union(spec_leaf_names(s[n - 1]))
    }
}

/// Cross-strategy equivalence: every builder strategy promises the same
/// building relation, so for one snapshot and one configuration any two of
/// their results are the same tree; in particular the set of leaf names in
/// the one equals the set of leaf names in the other.
pub proof fn lemma_cross_strategy_equivalence(
    r1: Option<TreeNodeView>,
    r2: Option<TreeNodeView>,
    e: FsEntry,
    depth: u32,
    cfg: Tree,
    st: StatusMap,
)
    requires
        r1 == spec_build(e, depth, cfg, st),
        r2 == spec_build(e, depth, cfg, st),
    ensures
        r1 == r2,
        r1 matches Some(v1) ==> (r2 matches Some(v2) && spec_leaf_names(v1) == spec_leaf_names(
            v2,
        )),
{
}

proof fn lemma_filtered_children_empty(
    s: Seq<FsEntry>,
    n: int,
    depth: u32,
    cfg: Tree,
    st: StatusMap,
)
    requires
        0 <= n <= s.len(),
        forall|i: int|
            0 <= i < s.len() ==> !spec_ext_visible(cfg, #[trigger] s[i]) || spec_build(
                s[i],
                depth,
                cfg,
                st,
            ) is None,
    ensures
        spec_build_children(s, n, depth, cfg, st).len() == 0,
    decreases n,
{
    if n > 0 {
        lemma_filtered_children_empty(s, n - 1, depth, cfg, st);
    }
}

/// A directory all of whose children are filtered out yields a node with
/// absent children — indistinguishable in shape from a file node, not a
/// node carrying an empty children list.
pub proof fn lemma_all_children_filtered(e: FsEntry, depth: u32, cfg: Tree, st: StatusMap)
    requires
        e.is_dir,
        e.readable,
        !spec_depth_exceeded(cfg, depth),
        depth > 1 ==> !spec_ignored(cfg, e.name@),
        forall|i: int|
            0 <= i < e.children@.len() ==> !spec_ext_visible(cfg, #[trigger] e.children@[i])
                || spec_build(e.children@[i], spec_child_depth(depth), cfg, st) is None,
    ensures
        spec_build(e, depth, cfg, st) matches Some(n) && n.children is None,
{
    lemma_filtered_children_empty(
        e.children@,
        e.children@.len() as int,
        spec_child_depth(depth),
        cfg,
        st,
    );
}

} // verus!
