use vstd::prelude::*;
use crate::datetime::DateTimeWrap;

verus! {

/// Owning user and group identifiers, on platforms that expose them.
#[derive(Debug, Clone, Copy, PartialEq, Eq, Structural)]
pub struct OwnerInfo {
    pub owner: u32,
    pub group: u32,
}

/// Per-entry attributes captured for verbose display: byte size, creation
/// and modification times, and a platform extension block with the owning
/// user and group where the platform records them. Immutable once captured.
#[derive(Debug, Clone, Copy, PartialEq, Eq, Structural)]
pub struct MetaDataInfo {
    pub size: u64,
    pub created: DateTimeWrap,
    pub modified: DateTimeWrap,
    pub owner_info: Option<OwnerInfo>,
}

/// One entry of a filesystem snapshot: the tree is built once per invocation
/// from such a snapshot, taken by whatever execution strategy the caller
/// chose. Soft per-entry read failures are recorded as absence: a file whose
/// length could not be read has no `size`, a directory whose listing failed
/// is not `readable`, an entry whose attributes could not be read has no
/// `meta`.
#[derive(Debug)]
pub struct FsEntry {
    /// The entry's path exactly as the provider reported it; version-control
    /// status is looked up by this string, by exact match only.
    pub path: String,
    /// The entry's final path segment.
    pub name: String,
    pub is_dir: bool,
    /// For a directory: whether its immediate children could be listed.
    pub readable: bool,
    /// For a file: its byte length, when it could be read.
    pub size: Option<u64>,
    /// For a readable directory: its immediate children.
    pub children: Vec<FsEntry>,
    /// The entry's attributes, when they were captured and readable.
    pub meta: Option<MetaDataInfo>,
}

/// Whether every size in the subtree under `e` could be read: the directory
/// listings all succeeded and every file's length is known. The walk covers
/// the whole subtree, independently of any filter policy.
pub open spec fn spec_subtree_ok(e: FsEntry) -> bool
    decreases e,
{
    if e.is_dir {
        e.readable && forall|i: int|
            0 <= i < e.children@.len() ==> spec_subtree_ok(#[trigger] e.children@[i])
    } else {
        e.size is Some
    }
}

/// The total byte count of the subtree under `e`: a file contributes its own
/// length, a directory the sum over all its descendants. The sum ignores the
/// active filters on purpose: it reports true disk usage, not the usage of
/// the visible part of the tree.
pub open spec fn spec_subtree_total(e: FsEntry) -> int
    decreases e, 0int,
{
    if e.is_dir {
        spec_total_upto(e.children@, e.children@.len() as int)
    } else if e.size is Some {
        e.size->0 as int
    } else {
        0
    }
}

/// The sum of the subtree totals of the first `n` entries of `s`.
pub open spec fn spec_total_upto(s: Seq<FsEntry>, n: int) -> int
    decreases s, n,
{
    if n <= 0 || n > s.len() {
        0
    } else {
        spec_total_upto(s, n - 1) + spec_subtree_total(s[n - 1])
    }
}

proof fn lemma_subtree_total_nonneg(e: FsEntry)
    ensures
        spec_subtree_total(e) >= 0,
    decreases e, 0int,
{
    if e.is_dir {
        lemma_total_upto_nonneg(e.children@, e.children@.len() as int);
    }
}

proof fn lemma_total_upto_nonneg(s: Seq<FsEntry>, n: int)
    requires
        n <= s.len(),
    ensures
        spec_total_upto(s, n) >= 0,
    decreases s, n,
{
    if n > 0 {
        lemma_total_upto_nonneg(s, n - 1);
        lemma_subtree_total_nonneg(s[n - 1]);
    }
}

proof fn lemma_total_upto_mono(s: Seq<FsEntry>, i: int, n: int)
    requires
        0 <= i <= n <= s.len(),
    ensures
        spec_total_upto(s, i) <= spec_total_upto(s, n),
    decreases n,
{
    if i < n {
        lemma_total_upto_mono(s, i, n - 1);
        lemma_subtree_total_nonneg(s[n - 1]);
    }
}

/// The recursive size of a directory: the sum of the byte lengths of every
/// file anywhere below it. Absent when the argument is not a directory, when
/// any part of the subtree could not be read, or when the sum does not fit
/// in a machine word.
pub fn get_filesize(e: &FsEntry) -> (r: Option<u64>)
    ensures
        match r {
            Some(s) => e.is_dir && spec_subtree_ok(*e) && spec_subtree_total(*e) <= u64::MAX
                && s == spec_subtree_total(*e),
            None => !e.is_dir || !spec_subtree_ok(*e) || spec_subtree_total(*e) > u64::MAX,
        },
    decreases *e,
{
    if !e.is_dir {
        return None;
    }
    if !e.readable {
        return None;
    }
    let n = e.children.len();
    let mut sum: u64 = 0;
    let mut i: usize = 0;
    while i < n
        invariant
            0 <= i <= n,
            n == e.children@.len(),
            e.is_dir,
            e.readable,
            sum == spec_total_upto(e.children@, i as int),
            forall|j: int| 0 <= j < i ==> spec_subtree_ok(#[trigger] e.children@[j]),
        decreases n - i,
    {
        let child = &e.children[i];
        let add: u64;
        if child.is_dir {
            match get_filesize(child) {
                Some(s) => {
                    add = s;
                }
                None => {
                    proof {
                        if spec_subtree_ok(e.children@[i as int]) {
                            lemma_total_upto_mono(e.children@, i + 1, n as int);
                            lemma_total_upto_nonneg(e.children@, i as int);
                        }
                    }
                    return None;
                }
            }
        } else {
            match child.size {
                Some(s) => {
                    add = s;
                }
                None => {
                    proof {
                        assert(!spec_subtree_ok(e.children@[i as int]));
                        assert(!spec_subtree_ok(*e));
                    }
                    return None;
                }
            }
        }
        proof {
            assert(add == spec_subtree_total(e.children@[i as int]));
        }
        sum = match sum.checked_add(add) {
            Some(s2) => s2,
            None => {
                proof {
                    lemma_total_upto_mono(e.children@, i + 1, n as int);
                }
                return None;
            }
        };
        i = i + 1;
    }
    Some(sum)
}

/// The size of an entry normalized into its display unit: a file's own byte
/// length, a directory's recursive total. Absent on any soft read failure,
/// and for a directory whose total does not fit in a machine word.
pub fn get_human_readable_filesize(e: &FsEntry) -> (r: Option<crate::size::Unit>)
    ensures
        match r {
            Some(u) => spec_subtree_ok(*e) && spec_subtree_total(*e) <= u64::MAX
                && u == crate::size::spec_unit_of(spec_subtree_total(*e) as u64),
            None => !spec_subtree_ok(*e) || spec_subtree_total(*e) > u64::MAX,
        },
{
    if e.is_dir {
        match get_filesize(e) {
            Some(s) => Some(crate::size::Unit::new(s)),
            None => None,
        }
    } else {
        match e.size {
            Some(s) => Some(crate::size::Unit::new(s)),
            None => None,
        }
    }
}

/// `s` with every trailing slash removed.
pub open spec fn strip_trailing_slashes(s: Seq<char>) -> Seq<char>
    decreases s.len(),
{
    if s.len() > 0 && s.last() == '/' {
        strip_trailing_slashes(s.drop_last())
    } else {
        s
    }
}

/// The final path segment of `s`: what follows the last slash once trailing
/// slashes are ignored.
pub open spec fn spec_last_segment(s: Seq<char>) -> Seq<char> {
    crate::strutil::suffix_after_char(strip_trailing_slashes(s), '/')
}

/// A segment names an entry when it is neither empty nor one of the two
/// relative-path tokens.
pub open spec fn spec_usable_segment(s: Seq<char>) -> bool {
    s.len() > 0 && s != "."@ && s != ".."@
}

/// The display name resolved from a path and its canonicalized form: the
/// path's own final segment when it names an entry, otherwise the canonical
/// path's final segment, otherwise the empty string.
pub open spec fn spec_filename_of(path: Seq<char>, canonical: Seq<char>) -> Seq<char> {
    if spec_usable_segment(spec_last_segment(path)) {
        spec_last_segment(path)
    } else if spec_usable_segment(spec_last_segment(canonical)) {
        spec_last_segment(canonical)
    } else {
        Seq::empty()
    }
}

proof fn lemma_strip_region(s: Seq<char>, end: int)
    requires
        0 <= end <= s.len(),
        forall|j: int| end <= j < s.len() ==> s[j] == '/',
        end == 0 || s[end - 1] != '/',
    ensures
        strip_trailing_slashes(s) == s.take(end),
    decreases s.len(),
{
    if s.len() == end {
        if end == 0 {
            assert(s.take(end) =~= s);
        } else {
            assert(s.last() != '/');
            assert(s.take(end) =~= s);
        }
    } else {
        assert(s.last() == '/');
        lemma_strip_region(s.drop_last(), end);
        assert(s.drop_last().take(end) =~= s.take(end));
    }
}

/// The final path segment of `s`, with trailing slashes ignored.
fn last_segment(s: &str) -> (r: String)
    ensures
        r@ == spec_last_segment(s@),
{
    let len = s.unicode_len();
    let mut end: usize = len;
    while end > 0 && s.get_char(end - 1) == '/'
        invariant
            0 <= end <= len,
            len == s@.len(),
            forall|j: int| end <= j < len ==> s@[j] == '/',
        decreases end,
    {
        end = end - 1;
    }
    proof {
        lemma_strip_region(s@, end as int);
    }
    let mut start: usize = end;
    while start > 0 && s.get_char(start - 1) != '/'
        invariant
            0 <= start <= end <= len,
            len == s@.len(),
            forall|j: int| start <= j < end ==> s@[j] != '/',
        decreases start,
    {
        start = start - 1;
    }
    proof {
        crate::strutil::lemma_suffix_after_char_region(s@.take(end as int), start as int, '/');
        assert(s@.take(end as int).subrange(start as int, end as int) =~= s@.subrange(
            start as int,
            end as int,
        ));
    }
    let seg = s.substring_char(start, end);
    String::from_str(seg)
}

/// The display name of the entry at `path`: the final path segment, or, when
/// that is empty or a relative-path token, the final segment of `canonical`,
/// the path's canonicalized form as resolved by the caller (empty when the
/// path could not be canonicalized).
pub fn get_filename(path: &str, canonical: &str) -> (r: String)
    ensures
        r@ == spec_filename_of(path@, canonical@),
{
    let seg = last_segment(path);
    if seg.as_str().unicode_len() > 0 && !crate::strutil::str_eq(seg.as_str(), ".")
        && !crate::strutil::str_eq(seg.as_str(), "..") {
        return seg;
    }
    let cseg = last_segment(canonical);
    if cseg.as_str().unicode_len() > 0 && !crate::strutil::str_eq(cseg.as_str(), ".")
        && !crate::strutil::str_eq(cseg.as_str(), "..") {
        return cseg;
    }
    String::new()
}

} // verus!
