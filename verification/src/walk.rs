use vstd::prelude::*;
use vstd::string::*;

verus! {

broadcast use vstd::seq::axiom_seq_index_decreases, vstd::seq::axiom_seq_subrange_decreases, vstd::std_specs::vec::axiom_vec_decreases_to_view;

/// An in-memory picture of one local source tree. The walker and the
/// transfer planner work on this value; reading it off the disk is the
/// caller's concern.
#[derive(Debug)]
pub enum FsNode {
    File { name: String, size: u64 },
    Dir { name: String, entries: Vec<FsNode> },
}

/// One regular file found beneath a walked root: its path relative to the
/// root and its size in bytes.
#[derive(Debug, Clone, PartialEq, Eq)]
pub struct WalkEntry {
    pub rel_path: String,
    pub size: u64,
}

impl View for WalkEntry {
    type V = (Seq<char>, u64);

    open spec fn view(&self) -> (Seq<char>, u64) {
        (self.rel_path@, self.size)
    }
}

pub open spec fn views(s: Seq<WalkEntry>) -> Seq<(Seq<char>, u64)> {
    s.map(|i: int, e: WalkEntry| e@)
}

pub open spec fn node_name(t: FsNode) -> Seq<char> {
    match t {
        FsNode::File { name, .. } => name@,
        FsNode::Dir { name, .. } => name@,
    }
}

/// A directory entry name: non-empty and free of the path separator.
pub open spec fn valid_name(n: Seq<char>) -> bool {
    n.len() > 0 && forall|i: int| 0 <= i < n.len() ==> n[i] != '/'
}

/// No two siblings carry the same name, as a real directory listing
/// guarantees.
pub open spec fn distinct_names(s: Seq<FsNode>) -> bool {
    forall|i: int, j: int| 0 <= i < j < s.len() ==> node_name(s[i]) != node_name(s[j])
}

/// Well-formedness of a tree: every name is valid and every directory's
/// children are pairwise distinct by name.
pub open spec fn wf_node(t: FsNode) -> bool
    decreases t,
{
    match t {
        FsNode::File { name, .. } => valid_name(name@),
        FsNode::Dir { name, entries } => valid_name(name@) && distinct_names(entries@)
            && wf_children(entries@),
    }
}

pub open spec fn wf_children(s: Seq<FsNode>) -> bool
    decreases s,
{
    if s.len() == 0 {
        true
    } else {
        wf_node(s[0]) && wf_children(s.drop_first())
    }
}

/// The files beneath `t`, each with a path that begins with `t`'s own name.
pub open spec fn sub_entries(t: FsNode) -> Seq<(Seq<char>, u64)>
    decreases t,
{
    match t {
        FsNode::File { name, size } => seq![(name@, size)],
        FsNode::Dir { name, entries } => prefix_all(name@.push('/'), walk_children(entries@)),
    }
}

/// The files beneath a listing, in listing order.
pub open spec fn walk_children(s: Seq<FsNode>) -> Seq<(Seq<char>, u64)>
    decreases s,
{
    if s.len() == 0 {
        Seq::empty()
    } else {
        sub_entries(s[0]) + walk_children(s.drop_first())
    }
}

pub open spec fn prefix_all(p: Seq<char>, s: Seq<(Seq<char>, u64)>) -> Seq<(Seq<char>, u64)> {
    s.map(|i: int, e: (Seq<char>, u64)| (p + e.0, e.1))
}

/// What a walk of `t` yields: paths relative to `t` itself, so the root's
/// own name is no part of them.
pub open spec fn spec_rel_entries(t: FsNode) -> Seq<(Seq<char>, u64)> {
    match t {
        FsNode::File { name, size } => seq![(name@, size)],
        FsNode::Dir { name, entries } => walk_children(entries@),
    }
}

/// Number of regular files in the tree.
pub open spec fn file_count(t: FsNode) -> nat
    decreases t,
{
    match t {
        FsNode::File { .. } => 1,
        FsNode::Dir { name, entries } => children_file_count(entries@),
    }
}

pub open spec fn children_file_count(s: Seq<FsNode>) -> nat
    decreases s,
{
    if s.len() == 0 {
        0
    } else {
        file_count(s[0]) + children_file_count(s.drop_first())
    }
}

proof fn lemma_prefix_all_append(p: Seq<char>, a: Seq<(Seq<char>, u64)>, b: Seq<(Seq<char>, u64)>)
    ensures
        prefix_all(p, a + b) =~~= prefix_all(p, a) + prefix_all(p, b),
{
}

proof fn lemma_prefix_all_fuse(p: Seq<char>, q: Seq<char>, s: Seq<(Seq<char>, u64)>)
    ensures
        prefix_all(p, prefix_all(q, s)) =~~= prefix_all(p + q, s),
{
}

proof fn lemma_walk_children_snoc(s: Seq<FsNode>, i: int)
    requires
        0 <= i < s.len(),
    ensures
        walk_children(s.take(i + 1)) =~~= walk_children(s.take(i)) + sub_entries(s[i]),
    decreases i,
{
    if i == 0 {
        assert(s.take(0) =~= Seq::<FsNode>::empty());
        assert(s.take(1).drop_first() =~= Seq::<FsNode>::empty());
        assert(s.take(1)[0] == s[0]);
        assert(walk_children(s.take(1)) == sub_entries(s[0]) + walk_children(s.take(1).drop_first()));
    } else {
        let d = s.drop_first();
        lemma_walk_children_snoc(d, i - 1);
        assert(s.take(i + 1).drop_first() =~= d.take(i));
        assert(s.take(i).drop_first() =~= d.take(i - 1));
        assert(s.take(i + 1)[0] == s[0]);
        assert(s.take(i)[0] == s[0]);
        assert(d[i - 1] == s[i]);
        assert(walk_children(s.take(i + 1)) == sub_entries(s[0]) + walk_children(d.take(i)));
        assert(walk_children(s.take(i)) == sub_entries(s[0]) + walk_children(d.take(i - 1)));
        assert(walk_children(d.take(i)) =~~= walk_children(d.take(i - 1)) + sub_entries(s[i]));
    }
}

/// A walk yields exactly as many entries as the tree has files.
pub proof fn lemma_sub_entries_count(t: FsNode)
    ensures
        sub_entries(t).len() == file_count(t),
    decreases t,
{
    match t {
        FsNode::File { .. } => {},
        FsNode::Dir { name, entries } => {
            lemma_children_count(entries@);
        },
    }
}

proof fn lemma_children_count(s: Seq<FsNode>)
    ensures
        walk_children(s).len() == children_file_count(s),
    decreases s,
{
    if s.len() > 0 {
        lemma_sub_entries_count(s[0]);
        lemma_children_count(s.drop_first());
    }
}

/// A walk of a well-formed tree yields exactly `file_count` entries.
pub proof fn lemma_walk_count(t: FsNode)
    ensures
        spec_rel_entries(t).len() == file_count(t),
{
    match t {
        FsNode::File { .. } => {},
        FsNode::Dir { name, entries } => {
            lemma_children_count(entries@);
        },
    }
}

/// No two entries of `s` share a relative path.
pub open spec fn distinct_paths(s: Seq<(Seq<char>, u64)>) -> bool {
    forall|i: int, j: int| 0 <= i < j < s.len() ==> s[i].0 != s[j].0
}

/// `p` begins with the component `n`: either `p` is `n` itself, or `n`
/// followed by a separator.
pub open spec fn headed_by(p: Seq<char>, n: Seq<char>) -> bool {
    p.len() >= n.len() && p.take(n.len() as int) == n && (p.len() == n.len() || p[n.len() as int]
        == '/')
}

proof fn lemma_headed_by_unique(p: Seq<char>, n1: Seq<char>, n2: Seq<char>)
    requires
        headed_by(p, n1),
        headed_by(p, n2),
        valid_name(n1),
        valid_name(n2),
    ensures
        n1 == n2,
{
    if n1.len() == n2.len() {
        assert(n1 =~= n2);
    } else if n1.len() < n2.len() {
        assert(p[n1.len() as int] == '/');
        assert(n2[n1.len() as int] == p.take(n2.len() as int)[n1.len() as int]);
        assert(false);
    } else {
        assert(p[n2.len() as int] == '/');
        assert(n1[n2.len() as int] == p.take(n1.len() as int)[n2.len() as int]);
        assert(false);
    }
}

proof fn lemma_sub_entries_headed(t: FsNode)
    requires
        wf_node(t),
    ensures
        forall|k: int|
            0 <= k < sub_entries(t).len() ==> headed_by(
                #[trigger] sub_entries(t)[k].0,
                node_name(t),
            ),
{
    match t {
        FsNode::File { name, .. } => {
            assert forall|k: int| 0 <= k < sub_entries(t).len() implies headed_by(
                sub_entries(t)[k].0,
                node_name(t),
            ) by {
                assert(sub_entries(t)[k].0 == name@);
                assert(name@.take(name@.len() as int) =~= name@);
            }
        },
        FsNode::Dir { name, entries } => {
            let q = name@.push('/');
            assert forall|k: int| 0 <= k < sub_entries(t).len() implies headed_by(
                sub_entries(t)[k].0,
                node_name(t),
            ) by {
                let p = sub_entries(t)[k].0;
                assert(p == q + walk_children(entries@)[k].0);
                assert(p.take(name@.len() as int) =~= name@);
                assert(p[name@.len() as int] == '/');
            }
        },
    }
}

proof fn lemma_wf_children_each(s: Seq<FsNode>)
    requires
        wf_children(s),
    ensures
        forall|i: int| 0 <= i < s.len() ==> wf_node(#[trigger] s[i]),
    decreases s,
{
    if s.len() > 0 {
        lemma_wf_children_each(s.drop_first());
        assert forall|i: int| 0 <= i < s.len() implies wf_node(s[i]) by {
            if i > 0 {
                assert(s.drop_first()[i - 1] == s[i]);
            }
        }
    }
}

proof fn lemma_prefix_injective(q: Seq<char>, a: Seq<char>, b: Seq<char>)
    requires
        q + a == q + b,
    ensures
        a == b,
{
    assert((q + a).len() == q.len() + a.len());
    assert((q + b).len() == q.len() + b.len());
    assert(a.len() == b.len());
    assert forall|i: int| 0 <= i < a.len() implies a[i] == b[i] by {
        assert((q + a)[q.len() + i] == a[i]);
        assert((q + b)[q.len() + i] == b[i]);
    }
    assert(a =~= b);
}

proof fn lemma_walk_children_headed(s: Seq<FsNode>)
    requires
        wf_children(s),
    ensures
        forall|k: int|
            0 <= k < walk_children(s).len() ==> exists|j: int|
                0 <= j < s.len() && headed_by(#[trigger] walk_children(s)[k].0, node_name(s[j])),
    decreases s,
{
    if s.len() > 0 {
        let head = sub_entries(s[0]);
        let rest = walk_children(s.drop_first());
        lemma_sub_entries_headed(s[0]);
        lemma_walk_children_headed(s.drop_first());
        assert forall|k: int| 0 <= k < walk_children(s).len() implies exists|j: int|
            0 <= j < s.len() && headed_by(#[trigger] walk_children(s)[k].0, node_name(s[j])) by {
            if k < head.len() {
                assert(walk_children(s)[k].0 == head[k].0);
                assert(headed_by(walk_children(s)[k].0, node_name(s[0])));
            } else {
                let k2 = k - head.len();
                assert(walk_children(s)[k].0 == rest[k2].0);
                let j2 = choose|j2: int|
                    0 <= j2 < s.drop_first().len() && headed_by(
                        rest[k2].0,
                        node_name(s.drop_first()[j2]),
                    );
                assert(s.drop_first()[j2] == s[j2 + 1]);
                assert(headed_by(walk_children(s)[k].0, node_name(s[j2 + 1])));
            }
        }
    }
}

proof fn lemma_walk_children_distinct(s: Seq<FsNode>)
    requires
        wf_children(s),
        distinct_names(s),
    ensures
        distinct_paths(walk_children(s)),
    decreases s,
{
    if s.len() > 0 {
        let head = sub_entries(s[0]);
        let rest = walk_children(s.drop_first());
        lemma_wf_children_each(s);
        lemma_sub_entries_distinct(s[0]);
        assert(distinct_names(s.drop_first())) by {
            assert forall|i: int, j: int|
                0 <= i < j < s.drop_first().len() implies node_name(s.drop_first()[i])
                != node_name(s.drop_first()[j]) by {
                assert(s.drop_first()[i] == s[i + 1]);
                assert(s.drop_first()[j] == s[j + 1]);
            }
        }
        lemma_walk_children_distinct(s.drop_first());
        lemma_sub_entries_headed(s[0]);
        lemma_walk_children_headed(s.drop_first());
        assert forall|i: int, j: int|
            0 <= i < j < walk_children(s).len() implies walk_children(s)[i].0 != walk_children(
            s,
        )[j].0 by {
            if i < head.len() && j >= head.len() {
                let pa = walk_children(s)[i].0;
                let pb = walk_children(s)[j].0;
                assert(pa == head[i].0);
                assert(pb == rest[j - head.len()].0);
                assert(headed_by(pa, node_name(s[0])));
                let j2 = choose|j2: int|
                    0 <= j2 < s.drop_first().len() && headed_by(
                        rest[j - head.len()].0,
                        node_name(s.drop_first()[j2]),
                    );
                assert(s.drop_first()[j2] == s[j2 + 1]);
                if pa == pb {
                    lemma_headed_by_unique(pa, node_name(s[0]), node_name(s[j2 + 1]));
                    assert(false);
                }
            } else if i < head.len() && j < head.len() {
                assert(head[i].0 != head[j].0);
            } else {
                assert(rest[i - head.len()].0 != rest[j - head.len()].0);
            }
        }
    }
}

proof fn lemma_sub_entries_distinct(t: FsNode)
    requires
        wf_node(t),
    ensures
        distinct_paths(sub_entries(t)),
    decreases t,
{
    match t {
        FsNode::File { .. } => {},
        FsNode::Dir { name, entries } => {
            lemma_walk_children_distinct(entries@);
            let q = name@.push('/');
            assert forall|i: int, j: int|
                0 <= i < j < sub_entries(t).len() implies sub_entries(t)[i].0 != sub_entries(
                t,
            )[j].0 by {
                if sub_entries(t)[i].0 == sub_entries(t)[j].0 {
                    lemma_prefix_injective(
                        q,
                        walk_children(entries@)[i].0,
                        walk_children(entries@)[j].0,
                    );
                    assert(false);
                }
            }
        },
    }
}

/// The walk of a well-formed tree yields pairwise distinct relative paths.
pub proof fn lemma_walk_distinct(t: FsNode)
    requires
        wf_node(t),
    ensures
        distinct_paths(spec_rel_entries(t)),
{
    match t {
        FsNode::File { .. } => {},
        FsNode::Dir { name, entries } => {
            lemma_walk_children_distinct(entries@);
        },
    }
}

fn push_entry(out: &mut Vec<WalkEntry>, rel_path: String, size: u64)
    ensures
        views(final(out)@) =~~= views(old(out)@) + seq![(rel_path@, size)],
{
    out.push(WalkEntry { rel_path, size });
}

fn walk_children_into(entries: &Vec<FsNode>, prefix: &str, out: &mut Vec<WalkEntry>)
    ensures
        views(final(out)@) =~~= views(old(out)@) + prefix_all(prefix@, walk_children(entries@)),
    decreases *entries, 1nat,
{
    let ghost init = out@;
    let mut i: usize = 0;
    proof {
        assert(entries@.take(0) =~= Seq::<FsNode>::empty());
    }
    while i < entries.len()
        invariant
            i <= entries@.len(),
            views(out@) =~~= views(init) + prefix_all(prefix@, walk_children(entries@.take(i as int))),
        decreases entries@.len() - i,
    {
        walk_into(&entries[i], prefix, out);
        proof {
            lemma_walk_children_snoc(entries@, i as int);
            lemma_prefix_all_append(prefix@, walk_children(entries@.take(i as int)), sub_entries(entries@[i as int]));
        }
        i = i + 1;
    }
    proof {
        assert(entries@.take(entries@.len() as int) =~= entries@);
    }
}

fn walk_into(t: &FsNode, prefix: &str, out: &mut Vec<WalkEntry>)
    ensures
        views(final(out)@) =~~= views(old(out)@) + prefix_all(prefix@, sub_entries(*t)),
    decreases *t, 0nat,
{
    match t {
        FsNode::File { name, size } => {
            let rel = String::from_str(prefix).concat(name.as_str());
            push_entry(out, rel, *size);
        },
        FsNode::Dir { name, entries } => {
            let child_prefix = String::from_str(prefix).concat(name.as_str()).concat("/");
            proof {
                reveal_strlit("/");
                assert(child_prefix@ =~= prefix@ + name@.push('/'));
            }
            walk_children_into(entries, child_prefix.as_str(), out);
            proof {
                lemma_prefix_all_fuse(prefix@, name@.push('/'), walk_children(entries@));
            }
        },
    }
}

/// Walks the tree and returns every regular file beneath `root` with its
/// path relative to `root`, in listing order. Being a function of the tree
/// alone, a second walk of an unchanged tree returns the same entries.
pub fn walk(root: &FsNode) -> (r: Vec<WalkEntry>)
    ensures
        views(r@) == spec_rel_entries(*root),
{
    let mut out: Vec<WalkEntry> = Vec::new();
    match root {
        FsNode::File { name, size } => {
            push_entry(&mut out, String::from_str(name.as_str()), *size);
            proof {
                assert(views(out@) =~~= spec_rel_entries(*root));
            }
        },
        FsNode::Dir { name, entries } => {
            walk_children_into(entries, "", &mut out);
            proof {
                reveal_strlit("");
                assert(views(out@) =~~= prefix_all(""@, walk_children(entries@)));
                assert(prefix_all(""@, walk_children(entries@)) =~~= spec_rel_entries(*root));
            }
        },
    }
    out
}

} // verus!
