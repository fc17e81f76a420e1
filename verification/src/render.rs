use vstd::prelude::*;
use crate::tree::{TreeNode, TreeNodeView};

verus! {

/// The character of one decimal digit.
pub open spec fn spec_digit_char(d: int) -> char {
    if d == 0 {
        '0'
    } else if d == 1 {
        '1'
    } else if d == 2 {
        '2'
    } else if d == 3 {
        '3'
    } else if d == 4 {
        '4'
    } else if d == 5 {
        '5'
    } else if d == 6 {
        '6'
    } else if d == 7 {
        '7'
    } else if d == 8 {
        '8'
    } else {
        '9'
    }
}

/// The decimal rendering of a non-negative number, most significant digit
/// first.
pub open spec fn spec_dec_str(n: int) -> Seq<char>
    decreases n,
{
    if n < 10 {
        seq![spec_digit_char(n)]
    } else {
        spec_dec_str(n / 10).push(spec_digit_char(n % 10))
    }
}

/// The decimal rendering of a number, with a leading minus when negative.
pub open spec fn spec_int_str(n: int) -> Seq<char> {
    if n < 0 {
        seq!['-'] + spec_dec_str(-n)
    } else {
        spec_dec_str(n)
    }
}

fn digit_str(d: u64) -> (r: &'static str)
    requires
        d < 10,
    ensures
        r@ == seq![spec_digit_char(d as int)],
{
    let s: &'static str = if d == 0 {
        "0"
    } else if d == 1 {
        "1"
    } else if d == 2 {
        "2"
    } else if d == 3 {
        "3"
    } else if d == 4 {
        "4"
    } else if d == 5 {
        "5"
    } else if d == 6 {
        "6"
    } else if d == 7 {
        "7"
    } else if d == 8 {
        "8"
    } else {
        "9"
    };
    proof {
        reveal_strlit("0");
        reveal_strlit("1");
        reveal_strlit("2");
        reveal_strlit("3");
        reveal_strlit("4");
        reveal_strlit("5");
        reveal_strlit("6");
        reveal_strlit("7");
        reveal_strlit("8");
        reveal_strlit("9");
        assert(s@ =~= seq![spec_digit_char(d as int)]);
    }
    s
}

/// The decimal rendering of `n`.
pub fn u64_to_string(n: u64) -> (r: String)
    ensures
        r@ == spec_dec_str(n as int),
    decreases n,
{
    if n < 10 {
        String::from_str(digit_str(n))
    } else {
        let prefix = u64_to_string(n / 10);
        let r = prefix.concat(digit_str(n % 10));
        proof {
            assert(r@ =~= spec_dec_str((n / 10) as int).push(spec_digit_char((n % 10) as int)));
        }
        r
    }
}

/// The decimal rendering of `n`, with a leading minus when negative.
pub fn i64_to_string(n: i64) -> (r: String)
    ensures
        r@ == spec_int_str(n as int),
{
    if n >= 0 {
        u64_to_string(n as u64)
    } else {
        let mag: u64 = (-(n as i128)) as u64;
        let r = String::from_str("-").concat(u64_to_string(mag).as_str());
        proof {
            reveal_strlit("-");
            assert(r@ =~= seq!['-'] + spec_dec_str(mag as int));
        }
        r
    }
}

/// One character of a JSON string body: the quote, the backslash and the
/// three common control characters are escaped; every other character
/// passes through unchanged.
pub open spec fn spec_escaped_char(c: char) -> Seq<char> {
    if c == '"' {
        seq!['\\', '"']
    } else if c == '\\' {
        seq!['\\', '\\']
    } else if c == '\n' {
        seq!['\\', 'n']
    } else if c == '\t' {
        seq!['\\', 't']
    } else if c == '\r' {
        seq!['\\', 'r']
    } else {
        seq![c]
    }
}

/// A JSON string body: every character escaped as needed.
pub open spec fn spec_escape(s: Seq<char>) -> Seq<char>
    decreases s.len(),
{
    if s.len() == 0 {
        Seq::empty()
    } else {
        spec_escaped_char(s[0]) + spec_escape(s.drop_first())
    }
}

proof fn lemma_escape_append(u: Seq<char>, v: Seq<char>)
    ensures
        spec_escape(u + v) == spec_escape(u) + spec_escape(v),
    decreases u.len(),
{
    if u.len() == 0 {
        assert(u + v =~= v);
        assert(spec_escape(u) + spec_escape(v) =~= spec_escape(v));
    } else {
        assert((u + v).drop_first() =~= u.drop_first() + v);
        lemma_escape_append(u.drop_first(), v);
        assert(spec_escaped_char(u[0]) + (spec_escape(u.drop_first()) + spec_escape(v))
            =~= (spec_escaped_char(u[0]) + spec_escape(u.drop_first())) + spec_escape(v));
    }
}

/// Escape `s` for use as a JSON string body.
fn escape_json(s: &str) -> (r: String)
    ensures
        r@ == spec_escape(s@),
{
    let len = s.unicode_len();
    let mut out = String::new();
    let mut i: usize = 0;
    proof {
        assert(s@.take(0) =~= Seq::<char>::empty());
    }
    while i < len
        invariant
            0 <= i <= len,
            len == s@.len(),
            out@ == spec_escape(s@.take(i as int)),
        decreases len - i,
    {
        let ghost pre = out@;
        let c = s.get_char(i);
        if c == '"' {
            out.append("\\\"");
            proof {
                reveal_strlit("\\\"");
                assert(out@ =~= pre + spec_escaped_char(c));
            }
        } else if c == '\\' {
            out.append("\\\\");
            proof {
                reveal_strlit("\\\\");
                assert(out@ =~= pre + spec_escaped_char(c));
            }
        } else if c == '\n' {
            out.append("\\n");
            proof {
                reveal_strlit("\\n");
                assert(out@ =~= pre + spec_escaped_char(c));
            }
        } else if c == '\t' {
            out.append("\\t");
            proof {
                reveal_strlit("\\t");
                assert(out@ =~= pre + spec_escaped_char(c));
            }
        } else if c == '\r' {
            out.append("\\r");
            proof {
                reveal_strlit("\\r");
                assert(out@ =~= pre + spec_escaped_char(c));
            }
        } else {
            let piece = s.substring_char(i, i + 1);
            out.append(piece);
            proof {
                assert(piece@ =~= seq![c]);
                assert(out@ =~= pre + spec_escaped_char(c));
            }
        }
        proof {
            lemma_escape_append(s@.take(i as int), seq![c]);
            assert(s@.take(i as int) + seq![c] =~= s@.take(i + 1));
            let sc = seq![c];
            assert(sc.len() == 1);
            assert(sc[0] == c);
            assert(sc.drop_first() =~= Seq::<char>::empty());
            assert(spec_escape(sc) == spec_escaped_char(sc[0]) + spec_escape(sc.drop_first()));
            assert(spec_escape(sc.drop_first()) =~= Seq::<char>::empty());
            assert(spec_escape(sc) =~= spec_escaped_char(c));
        }
        i = i + 1;
    }
    proof {
        assert(s@.take(len as int) =~= s@);
    }
    out
}

/// Two spaces of indentation for each nesting level.
pub open spec fn spec_indent(k: int) -> Seq<char>
    decreases k,
{
    if k <= 0 {
        Seq::empty()
    } else {
        spec_indent(k - 1) + "  "@
    }
}

/// The nesting level of a node's children: one more, saturating at the
/// largest machine value.
pub open spec fn spec_md_child_depth(depth: usize) -> usize {
    if depth < usize::MAX {
        (depth + 1) as usize
    } else {
        depth
    }
}

/// The Markdown rendering of a subtree at nesting level `depth`: one list
/// item per node, children indented one level deeper, in order.
pub open spec fn spec_markdown(v: TreeNodeView, depth: usize) -> Seq<char>
    decreases v, 1int, 0int,
{
    spec_indent(depth as int) + "- "@ + v.name + "\n"@ + (match v.children {
        Option::Some(cs) => spec_markdown_upto(cs, cs.len() as int, spec_md_child_depth(depth)),
        Option::None => Seq::empty(),
    })
}

/// The concatenated Markdown renderings of the first `n` nodes of `s`.
pub open spec fn spec_markdown_upto(s: Seq<TreeNodeView>, n: int, depth: usize) -> Seq<char>
    decreases s, 0int, n,
{
    if n <= 0 || n > s.len() {
        Seq::empty()
    } else {
        spec_markdown_upto(s, n - 1, depth) + spec_markdown(s[n - 1], depth)
    }
}

/// Render the subtree under `node` as a Markdown nested list, with this
/// node at nesting level `depth`.
pub fn tree_to_markdown(node: &TreeNode, depth: usize) -> (r: String)
    ensures
        r@ == spec_markdown(node@, depth),
    decreases *node,
{
    let mut out = String::new();
    let mut k: usize = 0;
    while k < depth
        invariant
            0 <= k <= depth,
            out@ == spec_indent(k as int),
        decreases depth - k,
    {
        out.append("  ");
        k = k + 1;
    }
    out.append("- ");
    out.append(node.name.as_str());
    out.append("\n");
    let ghost head = spec_indent(depth as int) + "- "@ + node@.name + "\n"@;
    proof {
        assert(out@ =~= head);
    }
    match &node.children {
        Some(cs) => {
            let child_depth = if depth < usize::MAX {
                depth + 1
            } else {
                depth
            };
            let n = cs.len();
            let ghost vcs = crate::tree::views_of_nodes(cs@);
            proof {
                crate::tree::lemma_node_views_elems(cs@, cs@.len() as int);
            }
            let mut i: usize = 0;
            while i < n
                invariant
                    0 <= i <= n,
                    n == cs@.len(),
                    vcs == crate::tree::views_of_nodes(cs@),
                    vcs.len() == n,
                    forall|j: int| 0 <= j < n ==> vcs[j] == crate::tree::spec_node_view(cs@[j]),
                    node.children is Some,
                    node.children->0@ == cs@,
                    child_depth == spec_md_child_depth(depth),
                    out@ == head + spec_markdown_upto(vcs, i as int, child_depth),
                decreases n - i,
            {
                proof {
                    broadcast use vstd::std_specs::vec::axiom_vec_decreases_to_view;

                    assert(decreases_to!(*node => node.children));
                    assert(decreases_to!(node.children => node.children->0));
                    assert(decreases_to!(node.children->0 => node.children->0@));
                    assert(decreases_to!(node.children->0@ => node.children->0@[i as int]));
                    assert(cs@[i as int] == node.children->0@[i as int]);
                }
                let ghost pre = out@;
                let piece = tree_to_markdown(&cs[i], child_depth);
                out.append(piece.as_str());
                proof {
                    assert(out@ =~= head + spec_markdown_upto(vcs, i + 1, child_depth));
                }
                i = i + 1;
            }
            proof {
                assert(out@ =~= spec_markdown(node@, depth));
            }
        }
        None => {
            proof {
                assert(out@ =~= spec_markdown(node@, depth));
            }
        }
    }
    out
}

/// `s` wrapped in double quotes.
pub open spec fn spec_quote(s: Seq<char>) -> Seq<char> {
    seq!['"'] + s + seq!['"']
}

/// One JSON object member: the quoted key, a colon, and the rendered value.
pub open spec fn spec_member_str(key: Seq<char>, value: Seq<char>) -> Seq<char> {
    spec_quote(key) + seq![':'] + value
}

/// The members joined with commas.
pub open spec fn spec_join_commas(xs: Seq<Seq<char>>) -> Seq<char>
    decreases xs.len(),
{
    if xs.len() == 0 {
        Seq::empty()
    } else if xs.len() == 1 {
        xs[0]
    } else {
        xs[0] + seq![','] + spec_join_commas(xs.drop_first())
    }
}

proof fn lemma_join_push(xs: Seq<Seq<char>>, y: Seq<char>)
    requires
        xs.len() > 0,
    ensures
        spec_join_commas(xs.push(y)) == spec_join_commas(xs) + seq![','] + y,
    decreases xs.len(),
{
    if xs.len() == 1 {
        let p = xs.push(y);
        assert(p.len() == 2);
        assert(p[0] == xs[0]);
        assert(p.drop_first() =~= seq![y]);
        assert(spec_join_commas(p) == p[0] + seq![','] + spec_join_commas(p.drop_first()));
        assert(p.drop_first().len() == 1);
        assert(spec_join_commas(p.drop_first()) == p.drop_first()[0]);
        assert(p.drop_first()[0] == y);
        assert(spec_join_commas(p) =~= xs[0] + seq![','] + y);
    } else {
        assert(xs.push(y).drop_first() =~= xs.drop_first().push(y));
        lemma_join_push(xs.drop_first(), y);
        assert(xs[0] + seq![','] + (spec_join_commas(xs.drop_first()) + seq![','] + y)
            =~= (xs[0] + seq![','] + spec_join_commas(xs.drop_first())) + seq![','] + y);
    }
}

/// The members of the JSON object for the verbose metadata block: byte
/// size and the two timestamps always, the owning user and group exactly
/// when the platform recorded them.
pub open spec fn spec_meta_members(m: crate::files::MetaDataInfo) -> Seq<(Seq<char>, Seq<char>)> {
    let base = seq![
        ("size"@, spec_dec_str(m.size as int)),
        ("created"@, spec_int_str(m.created.0 as int)),
        ("modified"@, spec_int_str(m.modified.0 as int)),
    ];
    match m.owner_info {
        Option::Some(o) => base.push(("owner"@, spec_dec_str(o.owner as int))).push(
            ("group"@, spec_dec_str(o.group as int)),
        ),
        Option::None => base,
    }
}

/// The rendered member strings of a member list.
pub open spec fn spec_rendered_members(ms: Seq<(Seq<char>, Seq<char>)>) -> Seq<Seq<char>> {
    ms.map_values(|p: (Seq<char>, Seq<char>)| spec_member_str(p.0, p.1))
}

/// The JSON object for the verbose metadata block.
pub open spec fn spec_meta_json(m: crate::files::MetaDataInfo) -> Seq<char> {
    seq!['{'] + spec_join_commas(spec_rendered_members(spec_meta_members(m))) + seq!['}']
}

/// The members of the JSON object for one node, in order: `name` always,
/// then each optional field exactly when it is present. An absent option
/// contributes no member at all — not a null.
pub open spec fn spec_json_members(v: TreeNodeView) -> Seq<(Seq<char>, Seq<char>)>
    decreases v, 1int, 0int,
{
    let m = seq![("name"@, spec_quote(spec_escape(v.name)))];
    let m = match v.git_status {
        Option::Some(s) => m.push(("git_status"@, spec_quote(spec_escape(s)))),
        Option::None => m,
    };
    let m = match v.children {
        Option::Some(cs) => m.push(
            (
                "children"@,
                seq!['['] + spec_join_commas(spec_json_arr(cs, cs.len() as int)) + seq![']'],
            ),
        ),
        Option::None => m,
    };
    let m = match v.size {
        Option::Some(u) => m.push(("size"@, spec_dec_str(u.spec_bytes() as int))),
        Option::None => m,
    };
    match v.verbose_info {
        Option::Some(info) => m.push(("verbose_info"@, spec_meta_json(info))),
        Option::None => m,
    }
}

/// The JSON renderings of the first `n` nodes of `s`.
pub open spec fn spec_json_arr(s: Seq<TreeNodeView>, n: int) -> Seq<Seq<char>>
    decreases s, 0int, n,
{
    if n <= 0 || n > s.len() {
        Seq::empty()
    } else {
        spec_json_arr(s, n - 1).push(spec_json(s[n - 1]))
    }
}

/// The JSON document for one node: an object holding the members of
/// `spec_json_members`, joined with commas.
pub open spec fn spec_json(v: TreeNodeView) -> Seq<char>
    decreases v, 2int, 0int,
{
    seq!['{'] + spec_join_commas(spec_rendered_members(spec_json_members(v))) + seq!['}']
}

proof fn lemma_json_arr_elems(s: Seq<TreeNodeView>, n: int)
    requires
        0 <= n <= s.len(),
    ensures
        spec_json_arr(s, n).len() == n,
        forall|i: int| 0 <= i < n ==> spec_json_arr(s, n)[i] == spec_json(s[i]),
    decreases n,
{
    if n > 0 {
        lemma_json_arr_elems(s, n - 1);
    }
}

/// The JSON object for the verbose metadata block of one node.
fn meta_to_json(m: &crate::files::MetaDataInfo) -> (r: String)
    ensures
        r@ == spec_meta_json(*m),
{
    let ghost ms = spec_meta_members(*m);
    let ghost rms = spec_rendered_members(ms);
    let mut out = String::from_str("{");
    out.append("\"size\":");
    out.append(u64_to_string(m.size).as_str());
    let ghost mut cur: Seq<Seq<char>> = seq![spec_member_str("size"@, spec_dec_str(m.size as int))];
    proof {
        reveal_strlit("{");
        reveal_strlit("\"size\":");
        reveal_strlit("size");
        assert(out@ =~= "{"@ + spec_join_commas(cur));
    }
    out.append(",\"created\":");
    out.append(i64_to_string(m.created.0).as_str());
    proof {
        reveal_strlit(",\"created\":");
        reveal_strlit("created");
        lemma_join_push(cur, spec_member_str("created"@, spec_int_str(m.created.0 as int)));
        cur = cur.push(spec_member_str("created"@, spec_int_str(m.created.0 as int)));
        assert(out@ =~= "{"@ + spec_join_commas(cur));
    }
    out.append(",\"modified\":");
    out.append(i64_to_string(m.modified.0).as_str());
    proof {
        reveal_strlit(",\"modified\":");
        reveal_strlit("modified");
        lemma_join_push(cur, spec_member_str("modified"@, spec_int_str(m.modified.0 as int)));
        cur = cur.push(spec_member_str("modified"@, spec_int_str(m.modified.0 as int)));
        assert(out@ =~= "{"@ + spec_join_commas(cur));
    }
    match m.owner_info {
        Option::Some(o) => {
            out.append(",\"owner\":");
            out.append(u64_to_string(o.owner as u64).as_str());
            proof {
                reveal_strlit(",\"owner\":");
                reveal_strlit("owner");
                lemma_join_push(cur, spec_member_str("owner"@, spec_dec_str(o.owner as int)));
                cur = cur.push(spec_member_str("owner"@, spec_dec_str(o.owner as int)));
                assert(out@ =~= "{"@ + spec_join_commas(cur));
            }
            out.append(",\"group\":");
            out.append(u64_to_string(o.group as u64).as_str());
            proof {
                reveal_strlit(",\"group\":");
                reveal_strlit("group");
                lemma_join_push(cur, spec_member_str("group"@, spec_dec_str(o.group as int)));
                cur = cur.push(spec_member_str("group"@, spec_dec_str(o.group as int)));
                assert(out@ =~= "{"@ + spec_join_commas(cur));
            }
        }
        Option::None => {}
    }
    out.append("}");
    proof {
        reveal_strlit("}");
        assert(cur =~= rms);
        assert(out@ =~= spec_meta_json(*m));
    }
    out
}

/// Render the subtree under `node` as one JSON document. Every optional
/// field that is absent is omitted outright.
#[verifier::rlimit(100)]
pub fn tree_to_json(node: &TreeNode) -> (r: String)
    ensures
        r@ == spec_json(node@),
    decreases *node,
{
    let ghost ms = spec_json_members(node@);
    let ghost rms = spec_rendered_members(ms);
    let mut out = String::from_str("{");
    out.append("\"name\":\"");
    out.append(escape_json(node.name.as_str()).as_str());
    out.append("\"");
    let ghost mut cur: Seq<Seq<char>> = seq![
        spec_member_str("name"@, spec_quote(spec_escape(node@.name))),
    ];
    proof {
        reveal_strlit("{");
        reveal_strlit("\"name\":\"");
        reveal_strlit("\"");
        reveal_strlit("name");
        assert(out@ =~= "{"@ + spec_join_commas(cur));
    }
    match &node.git_status {
        Some(gs) => {
            out.append(",\"git_status\":\"");
            out.append(escape_json(gs.as_str()).as_str());
            out.append("\"");
            proof {
                reveal_strlit(",\"git_status\":\"");
                reveal_strlit("\"");
                reveal_strlit("git_status");
                let mem = spec_member_str("git_status"@, spec_quote(spec_escape(gs@)));
                lemma_join_push(cur, mem);
                cur = cur.push(mem);
                assert(out@ =~= "{"@ + spec_join_commas(cur));
            }
        }
        None => {}
    }
    match &node.children {
        Some(cs) => {
            let n = cs.len();
            let ghost vcs = crate::tree::views_of_nodes(cs@);
            proof {
                crate::tree::lemma_node_views_elems(cs@, cs@.len() as int);
                lemma_json_arr_elems(vcs, vcs.len() as int);
            }
            let mut arr = String::new();
            let mut i: usize = 0;
            while i < n
                invariant
                    0 <= i <= n,
                    n == cs@.len(),
                    vcs == crate::tree::views_of_nodes(cs@),
                    vcs.len() == n,
                    forall|j: int| 0 <= j < n ==> vcs[j] == crate::tree::spec_node_view(cs@[j]),
                    node.children is Some,
                    node.children->0@ == cs@,
                    arr@ == spec_join_commas(spec_json_arr(vcs, i as int)),
                decreases n - i,
            {
                proof {
                    broadcast use vstd::std_specs::vec::axiom_vec_decreases_to_view;

                    assert(decreases_to!(*node => node.children));
                    assert(decreases_to!(node.children => node.children->0));
                    assert(decreases_to!(node.children->0 => node.children->0@));
                    assert(decreases_to!(node.children->0@ => node.children->0@[i as int]));
                    assert(cs@[i as int] == node.children->0@[i as int]);
                }
                let ghost pre = arr@;
                if i > 0 {
                    arr.append(",");
                }
                let piece = tree_to_json(&cs[i]);
                arr.append(piece.as_str());
                proof {
                    reveal_strlit(",");
                    lemma_json_arr_elems(vcs, i as int);
                    lemma_json_arr_elems(vcs, i + 1);
                    if i == 0 {
                        assert(spec_json_arr(vcs, 1).len() == 1);
                        assert(arr@ =~= spec_join_commas(spec_json_arr(vcs, 1)));
                    } else {
                        assert(spec_json_arr(vcs, i + 1) =~= spec_json_arr(vcs, i as int).push(
                            spec_json(vcs[i as int]),
                        ));
                        lemma_join_push(spec_json_arr(vcs, i as int), spec_json(vcs[i as int]));
                        assert(arr@ =~= spec_join_commas(spec_json_arr(vcs, i + 1)));
                    }
                }
                i = i + 1;
            }
            out.append(",\"children\":[");
            out.append(arr.as_str());
            out.append("]");
            proof {
                reveal_strlit(",\"children\":[");
                reveal_strlit("]");
                reveal_strlit("children");
                let mem = spec_member_str(
                    "children"@,
                    seq!['['] + spec_join_commas(spec_json_arr(vcs, vcs.len() as int)) + seq![']'],
                );
                lemma_join_push(cur, mem);
                cur = cur.push(mem);
                assert(out@ =~= "{"@ + spec_join_commas(cur));
            }
        }
        None => {}
    }
    match node.size {
        Option::Some(u) => {
            out.append(",\"size\":");
            out.append(u64_to_string(u.to_bytes()).as_str());
            proof {
                reveal_strlit(",\"size\":");
                reveal_strlit("size");
                let mem = spec_member_str("size"@, spec_dec_str(u.spec_bytes() as int));
                lemma_join_push(cur, mem);
                cur = cur.push(mem);
                assert(out@ =~= "{"@ + spec_join_commas(cur));
            }
        }
        Option::None => {}
    }
    match node.verbose_info {
        Option::Some(info) => {
            out.append(",\"verbose_info\":");
            out.append(meta_to_json(&info).as_str());
            proof {
                reveal_strlit(",\"verbose_info\":");
                reveal_strlit("verbose_info");
                let mem = spec_member_str("verbose_info"@, spec_meta_json(info));
                lemma_join_push(cur, mem);
                cur = cur.push(mem);
                assert(out@ =~= "{"@ + spec_join_commas(cur));
            }
        }
        Option::None => {}
    }
    out.append("}");
    proof {
        reveal_strlit("}");
        assert(cur =~= rms);
        assert(out@ =~= spec_json(node@));
    }
    out
}

/// The JSON form of a node carries the `name` member always, and each
/// optional member exactly when the field was present at construction:
/// nothing at all, not even a null, stands for an absent option.
pub proof fn lemma_json_omits_absent(v: TreeNodeView)
    ensures
        exists|i: int|
            0 <= i < spec_json_members(v).len() && spec_json_members(v)[i].0 == "name"@,
        (exists|i: int|
            0 <= i < spec_json_members(v).len() && spec_json_members(v)[i].0 == "git_status"@)
            <==> v.git_status is Some,
        (exists|i: int|
            0 <= i < spec_json_members(v).len() && spec_json_members(v)[i].0 == "children"@)
            <==> v.children is Some,
        (exists|i: int|
            0 <= i < spec_json_members(v).len() && spec_json_members(v)[i].0 == "size"@)
            <==> v.size is Some,
        (exists|i: int|
            0 <= i < spec_json_members(v).len() && spec_json_members(v)[i].0 == "verbose_info"@)
            <==> v.verbose_info is Some,
{
    reveal_strlit("name");
    reveal_strlit("git_status");
    reveal_strlit("children");
    reveal_strlit("size");
    reveal_strlit("verbose_info");
    let ms = spec_json_members(v);
    assert("name"@.len() == 4);
    assert("git_status"@.len() == 10);
    assert("children"@.len() == 8);
    assert("size"@.len() == 4);
    assert("verbose_info"@.len() == 12);
    assert("name"@[0] == 'n');
    assert("size"@[0] == 's');
    assert(ms[0].0 == "name"@);
    assert(forall|i: int|
        0 <= i < ms.len() ==> (#[trigger] ms[i].0) == "name"@ || ms[i].0 == "git_status"@
            || ms[i].0 == "children"@ || ms[i].0 == "size"@ || ms[i].0 == "verbose_info"@);
    if v.git_status is Some {
        assert(ms[1].0 == "git_status"@);
    }
    if v.children is Some {
        let i = 1 + (if v.git_status is Some { 1int } else { 0int });
        assert(ms[i].0 == "children"@);
    }
    if v.size is Some {
        let i = 1 + (if v.git_status is Some { 1int } else { 0int }) + (if v.children is Some {
            1int
        } else {
            0int
        });
        assert(ms[i].0 == "size"@);
    }
    if v.verbose_info is Some {
        assert(ms[ms.len() - 1].0 == "verbose_info"@);
    }
}

} // verus!
