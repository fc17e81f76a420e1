use vstd::prelude::*;
use crate::tree::{TreeNode, TreeNodeView};

verus! {

/// One bucket of the per-extension statistics: how many files carry the
/// extension and how many bytes they hold together. Counts and byte totals
/// saturate at the largest machine value instead of wrapping.
#[derive(Debug, Clone, Copy, PartialEq, Eq, Structural)]
pub struct StatsData {
    pub count: u64,
    pub size: u64,
}

/// Per-extension statistics over a finished tree: one bucket per extension,
/// in first-appearance order, plus one distinguished bucket for leaf nodes
/// whose name has no extension at all.
#[derive(Debug)]
pub struct Stats {
    pub entries: Vec<(String, StatsData)>,
}

/// The buckets as a sequence of (key characters, bucket) pairs.
pub open spec fn spec_stats_view(s: Seq<(String, StatsData)>) -> Seq<(Seq<char>, StatsData)> {
    Seq::new(s.len(), |i: int| (s[i].0@, s[i].1))
}

impl View for Stats {
    type V = Seq<(Seq<char>, StatsData)>;

    open spec fn view(&self) -> Seq<(Seq<char>, StatsData)> {
        spec_stats_view(self.entries@)
    }
}

/// A bucket after one more file: the count grows by one, and the byte total
/// by the file's size when it has one, both saturating.
pub open spec fn spec_bumped(d: StatsData, add: Option<u64>) -> StatsData {
    StatsData {
        count: if d.count + 1 > u64::MAX {
            u64::MAX
        } else {
            (d.count + 1) as u64
        },
        size: match add {
            Option::Some(b) => if d.size + b > u64::MAX {
                u64::MAX
            } else {
                (d.size + b) as u64
            },
            Option::None => d.size,
        },
    }
}

/// The buckets after counting one file under `key`: the first bucket with
/// that key is bumped, or a fresh bucket is appended when none exists.
pub open spec fn spec_bump(
    s: Seq<(Seq<char>, StatsData)>,
    key: Seq<char>,
    add: Option<u64>,
) -> Seq<(Seq<char>, StatsData)>
    decreases s.len(),
{
    if s.len() == 0 {
        seq![(key, spec_bumped(StatsData { count: 0, size: 0 }, add))]
    } else if s[0].0 == key {
        seq![(key, spec_bumped(s[0].1, add))] + s.drop_first()
    } else {
        seq![s[0]] + spec_bump(s.drop_first(), key, add)
    }
}

/// The byte count behind a node's size, when it has one.
pub open spec fn spec_size_bytes(v: TreeNodeView) -> Option<u64> {
    match v.size {
        Option::Some(u) => Some(u.spec_bytes()),
        Option::None => None,
    }
}

/// The buckets after walking the subtree under `v`: children first, in
/// order, then the node itself. A node whose name has an extension is
/// counted under it; a leaf without one is counted under the distinguished
/// no-extension bucket; a node with children and no extension is a
/// directory and is not counted at all.
pub open spec fn spec_collect(
    m: Seq<(Seq<char>, StatsData)>,
    v: TreeNodeView,
) -> Seq<(Seq<char>, StatsData)>
    decreases v, 1int, 0int,
{
    let m1 = match v.children {
        Option::Some(cs) => spec_collect_children(m, cs, cs.len() as int),
        Option::None => m,
    };
    match crate::builder::spec_ext_of(v.name) {
        Option::Some(x) => spec_bump(m1, x, spec_size_bytes(v)),
        Option::None => if v.children is Some {
            m1
        } else {
            spec_bump(m1, "(no ext)"@, spec_size_bytes(v))
        },
    }
}

/// The buckets after walking the first `n` nodes of `s`, in order.
pub open spec fn spec_collect_children(
    m: Seq<(Seq<char>, StatsData)>,
    s: Seq<TreeNodeView>,
    n: int,
) -> Seq<(Seq<char>, StatsData)>
    decreases s, 0int, n,
{
    if n <= 0 || n > s.len() {
        m
    } else {
        spec_collect(spec_collect_children(m, s, n - 1), s[n - 1])
    }
}

/// The first bucket recorded under `key`, if any.
pub open spec fn spec_lookup(s: Seq<(Seq<char>, StatsData)>, key: Seq<char>) -> Option<StatsData>
    decreases s.len(),
{
    if s.len() == 0 {
        None
    } else if s[0].0 == key {
        Some(s[0].1)
    } else {
        spec_lookup(s.drop_first(), key)
    }
}

proof fn lemma_bump_found(s: Seq<(Seq<char>, StatsData)>, key: Seq<char>, add: Option<u64>, i: int)
    requires
        0 <= i < s.len(),
        s[i].0 == key,
        forall|j: int| 0 <= j < i ==> s[j].0 != key,
    ensures
        spec_bump(s, key, add) == s.update(i, (key, spec_bumped(s[i].1, add))),
    decreases i,
{
    if i == 0 {
        assert(seq![(key, spec_bumped(s[0].1, add))] + s.drop_first() =~= s.update(
            0,
            (key, spec_bumped(s[0].1, add)),
        ));
    } else {
        lemma_bump_found(s.drop_first(), key, add, i - 1);
        assert(seq![s[0]] + s.drop_first().update(i - 1, (key, spec_bumped(s[i].1, add)))
            =~= s.update(i, (key, spec_bumped(s[i].1, add))));
    }
}

proof fn lemma_bump_absent(s: Seq<(Seq<char>, StatsData)>, key: Seq<char>, add: Option<u64>)
    requires
        forall|j: int| 0 <= j < s.len() ==> s[j].0 != key,
    ensures
        spec_bump(s, key, add) == s.push(
            (key, spec_bumped(StatsData { count: 0, size: 0 }, add)),
        ),
    decreases s.len(),
{
    if s.len() == 0 {
        assert(spec_bump(s, key, add) =~= s.push(
            (key, spec_bumped(StatsData { count: 0, size: 0 }, add)),
        ));
    } else {
        lemma_bump_absent(s.drop_first(), key, add);
        assert(seq![s[0]] + s.drop_first().push(
            (key, spec_bumped(StatsData { count: 0, size: 0 }, add)),
        ) =~= s.push((key, spec_bumped(StatsData { count: 0, size: 0 }, add))));
    }
}

impl Stats {
    /// No buckets at all.
    pub fn empty() -> (r: Stats)
        ensures
            r@.len() == 0,
    {
        Stats { entries: Vec::new() }
    }

    /// Whether no bucket has been recorded.
    pub fn is_empty(&self) -> (r: bool)
        ensures
            r == (self@.len() == 0),
    {
        self.entries.is_empty()
    }

    /// The bucket recorded under `key`, if any.
    pub fn get(&self, key: &str) -> (r: Option<StatsData>)
        ensures
            r == spec_lookup(self@, key@),
    {
        let mut i: usize = 0;
        proof {
            assert(self@.skip(0) =~= self@);
        }
        while i < self.entries.len()
            invariant
                0 <= i <= self.entries@.len(),
                forall|j: int| 0 <= j < i ==> self@[j].0 != key@,
                spec_lookup(self@, key@) == spec_lookup(self@.skip(i as int), key@),
            decreases self.entries@.len() - i,
        {
            proof {
                assert(self@.skip(i as int)[0] == self@[i as int]);
                assert(self@.skip(i as int).drop_first() =~= self@.skip(i + 1));
            }
            if crate::strutil::str_eq(self.entries[i].0.as_str(), key) {
                return Some(self.entries[i].1);
            }
            i = i + 1;
        }
        None
    }

    /// The buckets in first-appearance order, with their keys.
    pub fn bucket(&self, i: usize) -> (r: (String, StatsData))
        requires
            i < self@.len(),
        ensures
            (r.0@, r.1) == self@[i as int],
    {
        let pair = &self.entries[i];
        (pair.0.clone(), pair.1)
    }

    /// How many buckets have been recorded.
    pub fn len(&self) -> (r: usize)
        ensures
            r == self@.len(),
    {
        self.entries.len()
    }

    /// Count one file under `key`, with `add` bytes when its size is known.
    fn bump(&mut self, key: &str, add: Option<u64>)
        ensures
            final(self)@ == spec_bump(old(self)@, key@, add),
    {
        let mut i: usize = 0;
        let n = self.entries.len();
        while i < n
            invariant
                0 <= i <= n,
                n == self.entries@.len(),
                self.entries@ == old(self).entries@,
                forall|j: int| 0 <= j < i ==> self@[j].0 != key@,
            decreases n - i,
        {
            if crate::strutil::str_eq(self.entries[i].0.as_str(), key) {
                let ghost prev = self@;
                let pair = self.entries.remove(i);
                let data = StatsData {
                    count: pair.1.count.saturating_add(1),
                    size: match add {
                        Option::Some(b) => pair.1.size.saturating_add(b),
                        Option::None => pair.1.size,
                    },
                };
                self.entries.insert(i, (pair.0, data));
                proof {
                    lemma_bump_found(prev, key@, add, i as int);
                    assert(self@ =~= prev.update(
                        i as int,
                        (key@, spec_bumped(prev[i as int].1, add)),
                    ));
                }
                return;
            }
            i = i + 1;
        }
        let ghost prev = self@;
        let data = StatsData {
            count: 1,
            size: match add {
                Option::Some(b) => b,
                Option::None => 0,
            },
        };
        self.entries.push((String::from_str(key), data));
        proof {
            lemma_bump_absent(prev, key@, add);
            assert(self@ =~= prev.push((key@, spec_bumped(StatsData { count: 0, size: 0 }, add))));
        }
    }

    /// Walk the subtree under `node` and count every file into its bucket:
    /// children first, in order, then the node itself. Directory nodes
    /// without an extension contribute nothing of their own.
    pub fn collect_stats(&mut self, node: &TreeNode)
        ensures
            final(self)@ == spec_collect(old(self)@, node@),
        decreases *node,
    {
        match &node.children {
            Some(cs) => {
                let n = cs.len();
                let ghost vcs = crate::tree::views_of_nodes(cs@);
                proof {
                    crate::tree::lemma_node_views_elems(cs@, cs@.len() as int);
                }
                let mut i: usize = 0;
                while i < n
                    invariant
                        0 <= i <= n,
                        n == cs@.len(),
                        vcs == crate::tree::views_of_nodes(cs@),
                        vcs.len() == n,
                        forall|j: int|
                            0 <= j < n ==> vcs[j] == crate::tree::spec_node_view(cs@[j]),
                        node.children is Some,
                        node.children->0@ == cs@,
                        self@ == spec_collect_children(old(self)@, vcs, i as int),
                    decreases n - i,
                {
                    proof {
                        broadcast use vstd::std_specs::vec::axiom_vec_decreases_to_view;

                        assert(decreases_to!(*node => node.children));
                        assert(decreases_to!(node.children => node.children->0));
                        assert(decreases_to!(node.children->0 => node.children->0@));
                        assert(decreases_to!(node.children->0@ => node.children->0@[i as int]));
                        assert(cs@[i as int] == node.children->0@[i as int]);
                    }
                    self.collect_stats(&cs[i]);
                    i = i + 1;
                }
            }
            None => {}
        }
        let add = match node.size {
            Option::Some(u) => Some(u.to_bytes()),
            Option::None => None,
        };
        match crate::builder::ext_of(node.name.as_str()) {
            Some(x) => {
                self.bump(x.as_str(), add);
            }
            None => {
                if node.children.is_none() {
                    self.bump("(no ext)", add);
                }
            }
        }
    }
}

} // verus!
