use vstd::prelude::*;
use crate::files::MetaDataInfo;
use crate::format::{Mode, OutputFormat, SizeFormat, SortKey};
use crate::size::Unit;

verus! {

/// The full configuration of one invocation, immutable once built.
#[derive(Debug)]
pub struct Tree {
    /// The root path the traversal starts from.
    pub path: String,
    /// Extension allow-list: empty means no extension filtering.
    pub extensions: Vec<String>,
    /// Names filtered out wherever they occur below the root.
    pub ignores: Vec<String>,
    /// Size reporting: absent, raw bytes, or human-readable.
    pub size: Option<SizeFormat>,
    /// Nodes deeper than this yield nothing; the root itself is at depth one.
    pub max_depth: Option<u32>,
    pub output_format: OutputFormat,
    pub git_integration: bool,
    /// Whether the verbose metadata block is attached to every node.
    pub verbose: bool,
    pub sort: Option<SortKey>,
    pub mode: Mode,
}

impl Tree {
    /// Build a configuration from its raw parts and normalize it in one
    /// step, before any traversal starts: sorting by size needs a size to
    /// compare, so it turns raw-byte size reporting on when no size mode was
    /// chosen; sorting by modification time needs the verbose metadata
    /// block, so it forces verbose on.
    pub fn new(
        path: String,
        extensions: Vec<String>,
        ignores: Vec<String>,
        size: Option<SizeFormat>,
        max_depth: Option<u32>,
        output_format: OutputFormat,
        git_integration: bool,
        verbose: bool,
        sort: Option<SortKey>,
        mode: Mode,
    ) -> (r: Tree)
        ensures
            r.path == path,
            r.extensions == extensions,
            r.ignores == ignores,
            r.size == (if sort == Some(SortKey::Size) && size is None {
                Some(SizeFormat::Bytes)
            } else {
                size
            }),
            r.verbose == (verbose || sort == Some(SortKey::Time)),
            r.max_depth == max_depth,
            r.output_format == output_format,
            r.git_integration == git_integration,
            r.sort == sort,
            r.mode == mode,
    {
        let mut size = size;
        let mut verbose = verbose;
        match sort {
            Some(SortKey::Size) => {
                if size.is_none() {
                    size = Some(SizeFormat::Bytes);
                }
            }
            Some(SortKey::Time) => {
                if !verbose {
                    verbose = true;
                }
            }
            _ => {}
        }
        Tree {
            path,
            extensions,
            ignores,
            size,
            max_depth,
            output_format,
            git_integration,
            verbose,
            sort,
            mode,
        }
    }
}

/// One entry of the rendered hierarchy. A node with absent `children` is a
/// leaf in the rendered tree, whether the underlying entry was a file or a
/// directory all of whose children were filtered out. Every optional field
/// is simply absent when the feature was off or the value could not be
/// computed.
#[derive(Debug)]
pub struct TreeNode {
    pub name: String,
    pub git_status: Option<String>,
    pub children: Option<Vec<TreeNode>>,
    pub size: Option<Unit>,
    pub verbose_info: Option<MetaDataInfo>,
}

/// The mathematical shape of a `TreeNode`: the same tree with every string
/// replaced by its character sequence.
#[verifier::ext_equal]
pub struct TreeNodeView {
    pub name: Seq<char>,
    pub git_status: Option<Seq<char>>,
    pub children: Option<Seq<TreeNodeView>>,
    pub size: Option<Unit>,
    pub verbose_info: Option<MetaDataInfo>,
}

/// The view of one node.
pub open spec fn spec_node_view(t: TreeNode) -> TreeNodeView
    decreases t, 1int, 0int,
{
    TreeNodeView {
        name: t.name@,
        git_status: match t.git_status {
            Some(s) => Some(s@),
            None => None,
        },
        children: match t.children {
            Some(cs) => Some(spec_node_views(cs@, cs@.len() as int)),
            None => None,
        },
        size: t.size,
        verbose_info: t.verbose_info,
    }
}

/// The views of the first `n` nodes of `s`.
pub open spec fn spec_node_views(s: Seq<TreeNode>, n: int) -> Seq<TreeNodeView>
    decreases s, 0int, n,
{
    if n <= 0 || n > s.len() {
        Seq::empty()
    } else {
        spec_node_views(s, n - 1).push(spec_node_view(s[n - 1]))
    }
}

impl View for TreeNode {
    type V = TreeNodeView;

    open spec fn view(&self) -> TreeNodeView {
        spec_node_view(*self)
    }
}

impl TreeNode {
    /// The node's display name.
    pub fn get_name(&self) -> (r: &String)
        ensures
            r == self.name,
    {
        &self.name
    }

    /// The node's children, when it has any.
    pub fn get_children(&self) -> (r: &Option<Vec<TreeNode>>)
        ensures
            r == self.children,
    {
        &self.children
    }

    /// The node's size, when size reporting was on and the size could be
    /// computed.
    pub fn get_size(&self) -> (r: &Option<Unit>)
        ensures
            r == self.size,
    {
        &self.size
    }

    /// Assemble a node from its parts.
    pub fn new(
        name: String,
        git_status: Option<String>,
        children: Option<Vec<TreeNode>>,
        size: Option<Unit>,
        verbose_info: Option<MetaDataInfo>,
    ) -> (r: TreeNode)
        ensures
            r == (TreeNode { name, git_status, children, size, verbose_info }),
    {
        TreeNode { name, git_status, children, size, verbose_info }
    }
}

/// The views of all nodes of `s`.
pub open spec fn views_of_nodes(s: Seq<TreeNode>) -> Seq<TreeNodeView> {
    spec_node_views(s, s.len() as int)
}

pub proof fn lemma_node_views_elems(s: Seq<TreeNode>, n: int)
    requires
        0 <= n <= s.len(),
    ensures
        spec_node_views(s, n).len() == n,
        forall|i: int| 0 <= i < n ==> spec_node_views(s, n)[i] == spec_node_view(s[i]),
    decreases n,
{
    if n > 0 {
        lemma_node_views_elems(s, n - 1);
    }
}

/// The order induced by one sort key: ascending display name, ascending
/// byte count with absent sizes last, or ascending modification time with
/// absent metadata last. The reserved extension key orders nothing.
pub open spec fn spec_le_key(a: TreeNodeView, b: TreeNodeView, key: SortKey) -> bool {
    match key {
        SortKey::Name => crate::strutil::lex_le(a.name, b.name),
        SortKey::Size => match (a.size, b.size) {
            (Option::None, Option::None) => true,
            (Option::None, Option::Some(_)) => false,
            (Option::Some(_), Option::None) => true,
            (Option::Some(sa), Option::Some(sb)) => sa.spec_bytes() <= sb.spec_bytes(),
        },
        SortKey::Time => match (a.verbose_info, b.verbose_info) {
            (Option::None, Option::None) => true,
            (Option::None, Option::Some(_)) => false,
            (Option::Some(_), Option::None) => true,
            (Option::Some(av), Option::Some(bv)) => av.modified.0 <= bv.modified.0,
        },
        SortKey::Ext => true,
    }
}

pub proof fn lemma_le_key_total(a: TreeNodeView, b: TreeNodeView, key: SortKey)
    ensures
        spec_le_key(a, b, key) || spec_le_key(b, a, key),
{
    if key is Name {
        crate::strutil::lemma_lex_le_total(a.name, b.name);
    }
}

pub proof fn lemma_le_key_trans(a: TreeNodeView, b: TreeNodeView, c: TreeNodeView, key: SortKey)
    requires
        spec_le_key(a, b, key),
        spec_le_key(b, c, key),
    ensures
        spec_le_key(a, c, key),
{
    if key is Name {
        crate::strutil::lemma_lex_le_trans(a.name, b.name, c.name);
    }
}

/// `x` placed into `s` before the first run of entries that do not precede
/// it: the single step of an insertion sort.
pub open spec fn spec_insert(s: Seq<TreeNodeView>, x: TreeNodeView, key: SortKey) -> Seq<
    TreeNodeView,
>
    decreases s.len(),
{
    if s.len() == 0 {
        seq![x]
    } else if spec_le_key(s.last(), x, key) {
        s.push(x)
    } else {
        spec_insert(s.drop_last(), x, key).push(s.last())
    }
}

/// `s` reordered by `key`: insertion sort, which keeps entries that compare
/// equal in their original relative order.
pub open spec fn spec_sort_seq(s: Seq<TreeNodeView>, key: SortKey) -> Seq<TreeNodeView>
    decreases s.len(),
{
    if s.len() == 0 {
        s
    } else {
        spec_insert(spec_sort_seq(s.drop_last(), key), s.last(), key)
    }
}

/// Whether `s` is ordered by `key`.
pub open spec fn spec_sorted_by_key(s: Seq<TreeNodeView>, key: SortKey) -> bool {
    forall|i: int, j: int| 0 <= i < j < s.len() ==> spec_le_key(s[i], s[j], key)
}

proof fn lemma_insert_len(s: Seq<TreeNodeView>, x: TreeNodeView, key: SortKey)
    ensures
        spec_insert(s, x, key).len() == s.len() + 1,
    decreases s.len(),
{
    if s.len() > 0 && !spec_le_key(s.last(), x, key) {
        lemma_insert_len(s.drop_last(), x, key);
    }
}

proof fn lemma_insert_membership(s: Seq<TreeNodeView>, x: TreeNodeView, key: SortKey)
    ensures
        forall|i: int|
            0 <= i < spec_insert(s, x, key).len() ==> spec_insert(s, x, key)[i] == x
                || s.contains(#[trigger] spec_insert(s, x, key)[i]),
    decreases s.len(),
{
    if s.len() > 0 && !spec_le_key(s.last(), x, key) {
        lemma_insert_membership(s.drop_last(), x, key);
        lemma_insert_len(s.drop_last(), x, key);
        assert forall|i: int|
            0 <= i < spec_insert(s, x, key).len() implies spec_insert(s, x, key)[i] == x
            || s.contains(spec_insert(s, x, key)[i]) by {
            let r = spec_insert(s.drop_last(), x, key).push(s.last());
            if i < r.len() - 1 {
                if r[i] != x {
                    assert(s.drop_last().contains(r[i]));
                    let j = choose|j: int|
                        0 <= j < s.drop_last().len() && s.drop_last()[j] == r[i];
                    assert(s[j] == r[i]);
                }
            } else {
                assert(r[i] == s.last());
                assert(s[s.len() - 1] == s.last());
            }
        }
    }
}

proof fn lemma_insert_sorted(s: Seq<TreeNodeView>, x: TreeNodeView, key: SortKey)
    requires
        spec_sorted_by_key(s, key),
    ensures
        spec_sorted_by_key(spec_insert(s, x, key), key),
    decreases s.len(),
{
    if s.len() == 0 {
    } else if spec_le_key(s.last(), x, key) {
        assert forall|i: int, j: int|
            0 <= i < j < s.push(x).len() implies spec_le_key(s.push(x)[i], s.push(x)[j], key) by {
            if j == s.len() {
                if i < s.len() - 1 {
                    lemma_le_key_trans(s[i], s.last(), x, key);
                }
            }
        }
    } else {
        lemma_le_key_total(s.last(), x, key);
        lemma_insert_sorted(s.drop_last(), x, key);
        lemma_insert_membership(s.drop_last(), x, key);
        lemma_insert_len(s.drop_last(), x, key);
        let r0 = spec_insert(s.drop_last(), x, key);
        let r = r0.push(s.last());
        assert forall|i: int, j: int| 0 <= i < j < r.len() implies spec_le_key(r[i], r[j], key) by {
            if j == r.len() - 1 {
                if r[i] == x {
                    assert(spec_le_key(x, s.last(), key));
                } else {
                    assert(s.drop_last().contains(r[i]));
                    let m = choose|m: int|
                        0 <= m < s.drop_last().len() && s.drop_last()[m] == r[i];
                    assert(spec_le_key(s[m], s[s.len() - 1], key));
                }
            }
        }
    }
}

pub proof fn lemma_sort_seq_sorted(s: Seq<TreeNodeView>, key: SortKey)
    ensures
        spec_sorted_by_key(spec_sort_seq(s, key), key),
    decreases s.len(),
{
    if s.len() > 0 {
        lemma_sort_seq_sorted(s.drop_last(), key);
        lemma_insert_sorted(spec_sort_seq(s.drop_last(), key), s.last(), key);
    }
}

pub proof fn lemma_sort_seq_multiset(s: Seq<TreeNodeView>, key: SortKey)
    ensures
        spec_sort_seq(s, key).to_multiset() == s.to_multiset(),
    decreases s.len(),
{
    broadcast use vstd::seq_lib::group_to_multiset_ensures;

    if s.len() > 0 {
        lemma_sort_seq_multiset(s.drop_last(), key);
        lemma_insert_multiset(spec_sort_seq(s.drop_last(), key), s.last(), key);
        assert(s.drop_last().push(s.last()) =~= s);
    }
}

proof fn lemma_insert_multiset(s: Seq<TreeNodeView>, x: TreeNodeView, key: SortKey)
    ensures
        spec_insert(s, x, key).to_multiset() == s.to_multiset().insert(x),
    decreases s.len(),
{
    broadcast use vstd::seq_lib::group_to_multiset_ensures;

    if s.len() == 0 {
        assert(seq![x] =~= Seq::<TreeNodeView>::empty().push(x));
    } else if spec_le_key(s.last(), x, key) {
    } else {
        lemma_insert_multiset(s.drop_last(), x, key);
        assert(s.drop_last().push(s.last()) =~= s);
        assert(spec_insert(s.drop_last(), x, key).push(s.last()).to_multiset()
            =~= s.to_multiset().insert(x));
    }
}

pub proof fn lemma_sort_seq_of_sorted(s: Seq<TreeNodeView>, key: SortKey)
    requires
        spec_sorted_by_key(s, key),
    ensures
        spec_sort_seq(s, key) == s,
    decreases s.len(),
{
    if s.len() > 0 {
        assert(spec_sorted_by_key(s.drop_last(), key));
        lemma_sort_seq_of_sorted(s.drop_last(), key);
        if s.len() == 1 {
            assert(spec_insert(s.drop_last(), s.last(), key) =~= s);
        } else {
            assert(spec_le_key(s.drop_last().last(), s.last(), key));
            assert(s.drop_last().push(s.last()) =~= s);
        }
    }
}

/// The subtree reordered by `key`: every node's children are sorted
/// recursively, deepest levels first, then each sibling sequence is sorted.
/// Node contents never change, only sibling order.
pub open spec fn spec_sort_tree(v: TreeNodeView, key: SortKey) -> TreeNodeView
    decreases v, 1int, 0int,
{
    match v.children {
        Option::Some(cs) => TreeNodeView {
            name: v.name,
            git_status: v.git_status,
            children: Some(spec_sort_seq(spec_sort_each(cs, cs.len() as int, key), key)),
            size: v.size,
            verbose_info: v.verbose_info,
        },
        Option::None => v,
    }
}

/// The first `n` nodes of `s`, each sorted recursively.
pub open spec fn spec_sort_each(s: Seq<TreeNodeView>, n: int, key: SortKey) -> Seq<TreeNodeView>
    decreases s, 0int, n,
{
    if n <= 0 || n > s.len() {
        Seq::empty()
    } else {
        spec_sort_each(s, n - 1, key).push(spec_sort_tree(s[n - 1], key))
    }
}

/// Whether every sibling sequence in the subtree is ordered by `key`.
pub open spec fn spec_tree_sorted(v: TreeNodeView, key: SortKey) -> bool
    decreases v,
{
    match v.children {
        Option::Some(cs) => spec_sorted_by_key(cs, key) && forall|i: int|
            0 <= i < cs.len() ==> spec_tree_sorted(#[trigger] cs[i], key),
        Option::None => true,
    }
}

proof fn lemma_sort_each_elems(s: Seq<TreeNodeView>, n: int, key: SortKey)
    requires
        0 <= n <= s.len(),
    ensures
        spec_sort_each(s, n, key).len() == n,
        forall|i: int|
            0 <= i < n ==> spec_sort_each(s, n, key)[i] == spec_sort_tree(s[i], key),
    decreases n,
{
    if n > 0 {
        lemma_sort_each_elems(s, n - 1, key);
    }
}

pub proof fn lemma_sort_tree_sorted(v: TreeNodeView, key: SortKey)
    ensures
        spec_tree_sorted(spec_sort_tree(v, key), key),
    decreases v,
{
    match v.children {
        Option::Some(cs) => {
            let each = spec_sort_each(cs, cs.len() as int, key);
            let level = spec_sort_seq(each, key);
            lemma_sort_each_elems(cs, cs.len() as int, key);
            lemma_sort_seq_sorted(each, key);
            lemma_sort_seq_multiset(each, key);
            broadcast use vstd::seq_lib::group_to_multiset_ensures;

            assert forall|i: int| 0 <= i < level.len() implies spec_tree_sorted(
                #[trigger] level[i],
                key,
            ) by {
                assert(level.to_multiset().count(level[i]) > 0);
                assert(each.contains(level[i]));
                let j = choose|j: int| 0 <= j < each.len() && each[j] == level[i];
                lemma_sort_tree_sorted(cs[j], key);
            }
        }
        Option::None => {}
    }
}

pub proof fn lemma_sort_tree_of_sorted(v: TreeNodeView, key: SortKey)
    requires
        spec_tree_sorted(v, key),
    ensures
        spec_sort_tree(v, key) == v,
    decreases v,
{
    match v.children {
        Option::Some(cs) => {
            lemma_sort_each_elems(cs, cs.len() as int, key);
            assert forall|i: int| 0 <= i < cs.len() implies spec_sort_tree(
                #[trigger] cs[i],
                key,
            ) == cs[i] by {
                lemma_sort_tree_of_sorted(cs[i], key);
            }
            assert(spec_sort_each(cs, cs.len() as int, key) =~= cs);
            lemma_sort_seq_of_sorted(cs, key);
            assert(spec_sort_tree(v, key) =~= v);
        }
        Option::None => {}
    }
}

/// Reordering a subtree twice by the same key changes nothing the second
/// time: one sorting pass leaves every sibling sequence ordered, and a
/// sorting pass over an already ordered tree is the identity.
pub proof fn lemma_sort_tree_idempotent(v: TreeNodeView, key: SortKey)
    ensures
        spec_sort_tree(spec_sort_tree(v, key), key) == spec_sort_tree(v, key),
{
    lemma_sort_tree_sorted(v, key);
    lemma_sort_tree_of_sorted(spec_sort_tree(v, key), key);
}

/// Executable comparison of two nodes under one sort key.
fn le_key(a: &TreeNode, b: &TreeNode, key: SortKey) -> (r: bool)
    ensures
        r == spec_le_key(a@, b@, key),
{
    match key {
        SortKey::Name => crate::strutil::str_le(a.name.as_str(), b.name.as_str()),
        SortKey::Size => match (a.size, b.size) {
            (Option::None, Option::None) => true,
            (Option::None, Option::Some(_)) => false,
            (Option::Some(_), Option::None) => true,
            (Option::Some(sa), Option::Some(sb)) => sa.to_bytes() <= sb.to_bytes(),
        },
        SortKey::Time => match (a.verbose_info, b.verbose_info) {
            (Option::None, Option::None) => true,
            (Option::None, Option::Some(_)) => false,
            (Option::Some(_), Option::None) => true,
            (Option::Some(av), Option::Some(bv)) => av.modified.0 <= bv.modified.0,
        },
        SortKey::Ext => true,
    }
}

proof fn lemma_insert_position(s: Seq<TreeNodeView>, x: TreeNodeView, k: int, key: SortKey)
    requires
        0 <= k <= s.len(),
        forall|j: int| k <= j < s.len() ==> !spec_le_key(s[j], x, key),
        k == 0 || spec_le_key(s[k - 1], x, key),
    ensures
        spec_insert(s, x, key) == s.take(k) + seq![x] + s.skip(k),
    decreases s.len(),
{
    if s.len() == k {
        if k == 0 {
            assert(spec_insert(s, x, key) =~= s.take(k) + seq![x] + s.skip(k));
        } else {
            assert(spec_le_key(s.last(), x, key));
            assert(s.push(x) =~= s.take(k) + seq![x] + s.skip(k));
        }
    } else {
        assert(!spec_le_key(s.last(), x, key));
        lemma_insert_position(s.drop_last(), x, k, key);
        assert(s.drop_last().take(k) =~= s.take(k));
        assert((s.take(k) + seq![x] + s.drop_last().skip(k)).push(s.last()) =~= s.take(k)
            + seq![x] + s.skip(k));
    }
}

/// Place `x` into the already ordered `v` at its insertion-sort position.
fn insert_by_key(v: &mut Vec<TreeNode>, x: TreeNode, key: SortKey)
    ensures
        views_of_nodes(final(v)@) == spec_insert(views_of_nodes(old(v)@), x@, key),
{
    let ghost s = views_of_nodes(v@);
    proof {
        lemma_node_views_elems(v@, v@.len() as int);
    }
    let mut k: usize = v.len();
    while k > 0 && !le_key(&v[k - 1], &x, key)
        invariant
            0 <= k <= v@.len(),
            v@ == old(v)@,
            s == views_of_nodes(v@),
            s.len() == v@.len(),
            forall|i: int| 0 <= i < s.len() ==> s[i] == spec_node_view(v@[i]),
            forall|j: int| k <= j < s.len() ==> !spec_le_key(s[j], x@, key),
        decreases k,
    {
        k = k - 1;
    }
    v.insert(k, x);
    proof {
        lemma_insert_position(s, x@, k as int, key);
        lemma_node_views_elems(v@, v@.len() as int);
        assert(views_of_nodes(v@) =~= s.take(k as int) + seq![x@] + s.skip(k as int));
    }
}

/// Reorder the nodes of `v` by `key`, by insertion sort.
fn sort_vec_by_key(v: &mut Vec<TreeNode>, key: SortKey)
    ensures
        views_of_nodes(final(v)@) == spec_sort_seq(views_of_nodes(old(v)@), key),
{
    let ghost orig = v@;
    let ghost vorig = views_of_nodes(orig);
    proof {
        lemma_node_views_elems(orig, orig.len() as int);
    }
    let mut out: Vec<TreeNode> = Vec::new();
    while v.len() > 0
        invariant
            v@.len() <= orig.len(),
            v@ == orig.skip(orig.len() - v@.len()),
            vorig == views_of_nodes(orig),
            vorig.len() == orig.len(),
            forall|i: int| 0 <= i < orig.len() ==> vorig[i] == spec_node_view(orig[i]),
            views_of_nodes(out@) == spec_sort_seq(
                vorig.take(orig.len() - v@.len()),
                key,
            ),
        decreases v@.len(),
    {
        let ghost k = orig.len() - v@.len();
        let x = v.remove(0);
        proof {
            assert(orig.skip(k).remove(0) =~= orig.skip(k + 1));
            assert(x == orig[k]);
            let t = vorig.take(k + 1);
            assert(t.drop_last() =~= vorig.take(k));
            assert(t.last() == vorig[k]);
        }
        insert_by_key(&mut out, x, key);
    }
    proof {
        assert(vorig.take(orig.len() - v@.len()) =~= vorig);
    }
    core::mem::swap(v, &mut out);
}

/// The subtree of `t` reordered by `key`: children sorted recursively,
/// deepest levels first, then this level's siblings.
fn sort_tree_by_key(t: TreeNode, key: SortKey) -> (r: TreeNode)
    ensures
        r@ == spec_sort_tree(t@, key),
    decreases t,
{
    let TreeNode { name, git_status, children, size, verbose_info } = t;
    match children {
        Option::None => {
            TreeNode { name, git_status, children: None, size, verbose_info }
        }
        Option::Some(cs) => {
            let ghost orig = cs@;
            let ghost vorig = views_of_nodes(orig);
            proof {
                lemma_node_views_elems(orig, orig.len() as int);
            }
            let mut rest = cs;
            let mut out: Vec<TreeNode> = Vec::new();
            while rest.len() > 0
                invariant
                    rest@.len() <= orig.len(),
                    rest@ == orig.skip(orig.len() - rest@.len()),
                    vorig == views_of_nodes(orig),
                    vorig.len() == orig.len(),
                    forall|i: int| 0 <= i < orig.len() ==> vorig[i] == spec_node_view(orig[i]),
                    t.children is Some,
                    orig == t.children->0@,
                    views_of_nodes(out@) == spec_sort_each(
                        vorig,
                        orig.len() - rest@.len(),
                        key,
                    ),
                decreases rest@.len(),
            {
                let ghost k = orig.len() - rest@.len();
                let ghost outpre = out@;
                let c = rest.remove(0);
                proof {
                    broadcast use vstd::std_specs::vec::axiom_vec_decreases_to_view;

                    assert(orig.skip(k).remove(0) =~= orig.skip(k + 1));
                    assert(c == orig[k]);
                    assert(t.children is Some);
                    assert(decreases_to!(t => t.children));
                    assert(decreases_to!(t.children => t.children->0));
                    assert(decreases_to!(t.children->0 => t.children->0@));
                    assert(decreases_to!(t.children->0@ => t.children->0@[k]));
                    assert(c == t.children->0@[k]);
                }
                let sc = sort_tree_by_key(c, key);
                out.push(sc);
                proof {
                    lemma_node_views_elems(out@, out@.len() as int);
                    lemma_node_views_elems(outpre, outpre.len() as int);
                    assert(views_of_nodes(out@) =~= views_of_nodes(outpre).push(sc@));
                }
            }
            sort_vec_by_key(&mut out, key);
            let r = TreeNode { name, git_status, children: Some(out), size, verbose_info };
            proof {
                assert(r@.children->0 =~= spec_sort_tree(t@, key).children->0);
                assert(r@ =~= spec_sort_tree(t@, key));
            }
            r
        }
    }
}

impl TreeNode {
    /// Reorder the whole subtree in place by the given key. The reserved
    /// extension key is an unimplemented feature and is excluded here; a
    /// caller that selects it must fail loudly instead of calling.
    pub fn sort(&mut self, sort_key: &SortKey)
        requires
            !(*sort_key is Ext),
        ensures
            final(self)@ == spec_sort_tree(old(self)@, *sort_key),
    {
        let key = *sort_key;
        let mut tmp = TreeNode {
            name: String::new(),
            git_status: None,
            children: None,
            size: None,
            verbose_info: None,
        };
        core::mem::swap(self, &mut tmp);
        let sorted = sort_tree_by_key(tmp, key);
        *self = sorted;
    }

    /// Reorder the whole subtree in place by ascending size, nodes without
    /// a size last.
    pub fn sort_by_size(&mut self)
        ensures
            final(self)@ == spec_sort_tree(old(self)@, SortKey::Size),
    {
        self.sort(&SortKey::Size);
    }
}

/// Whether, in every sibling sequence of the subtree, no node with a size
/// follows a node without one.
pub open spec fn spec_absent_size_last(v: TreeNodeView) -> bool
    decreases v,
{
    match v.children {
        Option::Some(cs) => (forall|i: int, j: int|
            0 <= i < j < cs.len() && cs[i].size is None ==> cs[j].size is None) && forall|i: int|
            0 <= i < cs.len() ==> spec_absent_size_last(#[trigger] cs[i]),
        Option::None => true,
    }
}

/// After sorting by size, nodes with an absent size stand after all nodes
/// with a present size, in every sibling sequence of the tree independently.
pub proof fn lemma_sort_by_size_absent_last(v: TreeNodeView)
    ensures
        spec_absent_size_last(spec_sort_tree(v, SortKey::Size)),
{
    lemma_sort_tree_sorted(v, SortKey::Size);
    lemma_tree_sorted_absent_last(spec_sort_tree(v, SortKey::Size));
}

proof fn lemma_tree_sorted_absent_last(v: TreeNodeView)
    requires
        spec_tree_sorted(v, SortKey::Size),
    ensures
        spec_absent_size_last(v),
    decreases v,
{
    match v.children {
        Option::Some(cs) => {
            assert forall|i: int, j: int|
                0 <= i < j < cs.len() && cs[i].size is None implies cs[j].size is None by {
                assert(spec_le_key(cs[i], cs[j], SortKey::Size));
            }
            assert forall|i: int| 0 <= i < cs.len() implies spec_absent_size_last(
                #[trigger] cs[i],
            ) by {
                lemma_tree_sorted_absent_last(cs[i]);
            }
        }
        Option::None => {}
    }
}

} // verus!
