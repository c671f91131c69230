use vstd::prelude::*;
use vstd::string::*;
use crate::error::TransferError;
use crate::paths::{spec_join, spec_map_destination, join_under, map_destination};
use crate::walk::FsNode;

verus! {

broadcast use vstd::seq::axiom_seq_index_decreases, vstd::seq::axiom_seq_subrange_decreases, vstd::std_specs::vec::axiom_vec_decreases_to_view;

/// Parameters of an object-storage upload destination: endpoint
/// credentials, the key prefix or path uploads land under, and whether an
/// existing object may be overwritten.
#[derive(Debug, Clone)]
pub struct OssConfig {
    pub oss_bucket: String,
    pub oss_endpoint: String,
    pub key_secret: String,
    pub key_id: String,
    pub path: String,
    pub override_existing: Option<bool>,
}

/// What stands at one source path: nothing, a regular file of known size,
/// or a directory tree read into memory.
#[derive(Debug)]
pub enum SourceKind {
    Missing,
    RegularFile { size: u64 },
    Directory { tree: FsNode },
}

/// One source of a transfer: the path the caller named and what was found
/// there.
#[derive(Debug)]
pub struct SourceSpec {
    pub path: String,
    pub kind: SourceKind,
}

/// One step of a transfer plan: create a remote directory, or copy one
/// local file to one remote path.
#[derive(Debug, Clone, PartialEq, Eq)]
pub enum PlanStep {
    MakeDir { remote_path: String },
    CopyFile { local_path: String, remote_path: String, size: u64 },
}

/// The value of a plan step: the same shape over sequences of characters.
pub enum PlanStepV {
    MakeDir { remote_path: Seq<char> },
    CopyFile { local_path: Seq<char>, remote_path: Seq<char>, size: u64 },
}

impl View for PlanStep {
    type V = PlanStepV;

    open spec fn view(&self) -> PlanStepV {
        match self {
            PlanStep::MakeDir { remote_path } => PlanStepV::MakeDir { remote_path: remote_path@ },
            PlanStep::CopyFile { local_path, remote_path, size } => PlanStepV::CopyFile {
                local_path: local_path@,
                remote_path: remote_path@,
                size: *size,
            },
        }
    }
}

pub open spec fn step_views(s: Seq<PlanStep>) -> Seq<PlanStepV> {
    s.map(|i: int, e: PlanStep| e@)
}

/// The steps that mirror the node `t` onto the remote side, given the
/// local and remote paths of `t` itself: a file is one copy; a directory
/// is created first and its children follow in listing order.
pub open spec fn node_steps(t: FsNode, local: Seq<char>, remote: Seq<char>) -> Seq<PlanStepV>
    decreases t,
{
    match t {
        FsNode::File { name, size } => seq![
            PlanStepV::CopyFile { local_path: local, remote_path: remote, size },
        ],
        FsNode::Dir { name, entries } => seq![PlanStepV::MakeDir { remote_path: remote }]
            + children_steps(entries@, local, remote),
    }
}

pub open spec fn children_steps(s: Seq<FsNode>, local: Seq<char>, remote: Seq<char>) -> Seq<
    PlanStepV,
>
    decreases s,
{
    if s.len() == 0 {
        Seq::empty()
    } else {
        node_steps(
            s[0],
            spec_join(local, crate::walk::node_name(s[0])),
            spec_join(remote, crate::walk::node_name(s[0])),
        ) + children_steps(s.drop_first(), local, remote)
    }
}

/// The steps one source contributes, its destination mapped by the path
/// mapper: a file source is one copy to its mapped path; a directory
/// source is mirrored beneath its mapped path.
pub open spec fn source_steps(src: SourceSpec, dest: Seq<char>, multi: bool) -> Seq<PlanStepV> {
    match src.kind {
        SourceKind::Missing => Seq::empty(),
        SourceKind::RegularFile { size } => seq![
            PlanStepV::CopyFile {
                local_path: src.path@,
                remote_path: spec_map_destination(src.path@, dest, multi),
                size,
            },
        ],
        SourceKind::Directory { tree } => node_steps(
            tree,
            src.path@,
            spec_map_destination(src.path@, dest, multi),
        ),
    }
}

/// The whole plan: every source's steps, in input order.
pub open spec fn spec_plan(sources: Seq<SourceSpec>, dest: Seq<char>, multi: bool) -> Seq<
    PlanStepV,
>
    decreases sources,
{
    if sources.len() == 0 {
        Seq::empty()
    } else {
        source_steps(sources[0], dest, multi) + spec_plan(sources.drop_first(), dest, multi)
    }
}

proof fn lemma_children_steps_snoc(s: Seq<FsNode>, local: Seq<char>, remote: Seq<char>, i: int)
    requires
        0 <= i < s.len(),
    ensures
        children_steps(s.take(i + 1), local, remote) =~~= children_steps(s.take(i), local, remote)
            + node_steps(
            s[i],
            spec_join(local, crate::walk::node_name(s[i])),
            spec_join(remote, crate::walk::node_name(s[i])),
        ),
    decreases i,
{
    if i == 0 {
        assert(s.take(0) =~= Seq::<FsNode>::empty());
        assert(s.take(1).drop_first() =~= Seq::<FsNode>::empty());
        assert(s.take(1)[0] == s[0]);
    } else {
        let d = s.drop_first();
        lemma_children_steps_snoc(d, local, remote, i - 1);
        assert(s.take(i + 1).drop_first() =~= d.take(i));
        assert(s.take(i).drop_first() =~= d.take(i - 1));
        assert(s.take(i + 1)[0] == s[0]);
        assert(s.take(i)[0] == s[0]);
        assert(d[i - 1] == s[i]);
    }
}

proof fn lemma_spec_plan_snoc(sources: Seq<SourceSpec>, dest: Seq<char>, multi: bool, i: int)
    requires
        0 <= i < sources.len(),
    ensures
        spec_plan(sources.take(i + 1), dest, multi) =~~= spec_plan(sources.take(i), dest, multi)
            + source_steps(sources[i], dest, multi),
    decreases i,
{
    if i == 0 {
        assert(sources.take(0) =~= Seq::<SourceSpec>::empty());
        assert(sources.take(1).drop_first() =~= Seq::<SourceSpec>::empty());
        assert(sources.take(1)[0] == sources[0]);
    } else {
        let d = sources.drop_first();
        lemma_spec_plan_snoc(d, dest, multi, i - 1);
        assert(sources.take(i + 1).drop_first() =~= d.take(i));
        assert(sources.take(i).drop_first() =~= d.take(i - 1));
        assert(sources.take(i + 1)[0] == sources[0]);
        assert(sources.take(i)[0] == sources[0]);
        assert(d[i - 1] == sources[i]);
    }
}

fn node_name_str(t: &FsNode) -> (r: &String)
    ensures
        r@ == crate::walk::node_name(*t),
{
    match t {
        FsNode::File { name, .. } => name,
        FsNode::Dir { name, .. } => name,
    }
}

fn plan_node(t: &FsNode, local: &str, remote: &str, out: &mut Vec<PlanStep>)
    ensures
        step_views(final(out)@) =~~= step_views(old(out)@) + node_steps(*t, local@, remote@),
    decreases *t, 0nat,
{
    match t {
        FsNode::File { name, size } => {
            out.push(
                PlanStep::CopyFile {
                    local_path: String::from_str(local),
                    remote_path: String::from_str(remote),
                    size: *size,
                },
            );
        },
        FsNode::Dir { name, entries } => {
            out.push(PlanStep::MakeDir { remote_path: String::from_str(remote) });
            plan_children(entries, local, remote, out);
        },
    }
}

fn plan_children(entries: &Vec<FsNode>, local: &str, remote: &str, out: &mut Vec<PlanStep>)
    ensures
        step_views(final(out)@) =~~= step_views(old(out)@) + children_steps(
            entries@,
            local@,
            remote@,
        ),
    decreases *entries, 1nat,
{
    let ghost init = out@;
    let mut i: usize = 0;
    proof {
        assert(entries@.take(0) =~= Seq::<FsNode>::empty());
    }
    while i < entries.len()
        invariant
            i <= entries@.len(),
            step_views(out@) =~~= step_views(init) + children_steps(
                entries@.take(i as int),
                local@,
                remote@,
            ),
        decreases entries@.len() - i,
    {
        let name = node_name_str(&entries[i]);
        let child_local = join_under(local, name.as_str());
        let child_remote = join_under(remote, name.as_str());
        plan_node(&entries[i], child_local.as_str(), child_remote.as_str(), out);
        proof {
            lemma_children_steps_snoc(entries@, local@, remote@, i as int);
        }
        i = i + 1;
    }
    proof {
        assert(entries@.take(entries@.len() as int) =~= entries@);
    }
}

/// Builds the full transfer plan for the sources against one destination
/// specifier, before any bytes move. An empty source list is not an error:
/// it yields the empty plan of a side-effect-only invocation. A missing
/// source fails the whole plan with `SourceNotFound` naming the first such
/// path, and no plan is produced.
pub fn build_transfer_plan(sources: &Vec<SourceSpec>, destination: &str) -> (r: Result<
    Vec<PlanStep>,
    TransferError,
>)
    ensures
        ({
            let multi = sources@.len() > 1;
            &&& (r is Ok) <==> (forall|i: int|
                0 <= i < sources@.len() ==> !((#[trigger] sources@[i]).kind is Missing))
            &&& r is Ok ==> step_views(r->Ok_0@) == spec_plan(sources@, destination@, multi)
            &&& r is Err ==> r->Err_0 is SourceNotFound
            &&& r is Err ==> exists|i: int|
                0 <= i < sources@.len() && (#[trigger] sources@[i]).kind is Missing
                    && r->Err_0.spec_message() == sources@[i].path@ && forall|j: int|
                    0 <= j < i ==> !((#[trigger] sources@[j]).kind is Missing)
        }),
{
    let mut i: usize = 0;
    while i < sources.len()
        invariant
            i <= sources@.len(),
            forall|j: int| 0 <= j < i ==> !((#[trigger] sources@[j]).kind is Missing),
        decreases sources@.len() - i,
    {
        match &sources[i].kind {
            SourceKind::Missing => {
                let msg = String::from_str(sources[i].path.as_str());
                return Err(TransferError::SourceNotFound(msg));
            },
            _ => {},
        }
        i = i + 1;
    }
    let multi = sources.len() > 1;
    let mut out: Vec<PlanStep> = Vec::new();
    let mut k: usize = 0;
    proof {
        assert(sources@.take(0) =~= Seq::<SourceSpec>::empty());
    }
    while k < sources.len()
        invariant
            k <= sources@.len(),
            multi == (sources@.len() > 1),
            forall|j: int| 0 <= j < sources@.len() ==> !((#[trigger] sources@[j]).kind is Missing),
            step_views(out@) =~~= spec_plan(sources@.take(k as int), destination@, multi),
        decreases sources@.len() - k,
    {
        let src = &sources[k];
        let mapped = map_destination(src.path.as_str(), destination, multi);
        match &src.kind {
            SourceKind::Missing => {
                proof {
                    assert(false);
                }
            },
            SourceKind::RegularFile { size } => {
                out.push(
                    PlanStep::CopyFile {
                        local_path: String::from_str(src.path.as_str()),
                        remote_path: mapped,
                        size: *size,
                    },
                );
            },
            SourceKind::Directory { tree } => {
                plan_node(tree, src.path.as_str(), mapped.as_str(), &mut out);
            },
        }
        proof {
            lemma_spec_plan_snoc(sources@, destination@, multi, k as int);
        }
        k = k + 1;
    }
    proof {
        assert(sources@.take(sources@.len() as int) =~= sources@);
    }
    Ok(out)
}

/// The copy steps among a step sequence, in order, with directory
/// creations dropped.
pub open spec fn copy_views(s: Seq<PlanStepV>) -> Seq<(Seq<char>, Seq<char>, u64)>
    decreases s,
{
    if s.len() == 0 {
        Seq::empty()
    } else {
        match s[0] {
            PlanStepV::CopyFile { local_path, remote_path, size } => seq![
                (local_path, remote_path, size),
            ] + copy_views(s.drop_first()),
            PlanStepV::MakeDir { .. } => copy_views(s.drop_first()),
        }
    }
}

/// Walker entries placed for transfer: each relative path joined under the
/// local root and under the remote target, size kept.
pub open spec fn mirrored(
    entries: Seq<(Seq<char>, u64)>,
    local: Seq<char>,
    remote: Seq<char>,
) -> Seq<(Seq<char>, Seq<char>, u64)> {
    entries.map(|i: int, e: (Seq<char>, u64)| (spec_join(local, e.0), spec_join(remote, e.0), e.1))
}

proof fn lemma_copy_views_append(a: Seq<PlanStepV>, b: Seq<PlanStepV>)
    ensures
        copy_views(a + b) =~~= copy_views(a) + copy_views(b),
    decreases a.len(),
{
    if a.len() == 0 {
        assert(a + b =~= b);
    } else {
        lemma_copy_views_append(a.drop_first(), b);
        assert((a + b).drop_first() =~= a.drop_first() + b);
        assert((a + b)[0] == a[0]);
    }
}

proof fn lemma_join_assoc(base: Seq<char>, name: Seq<char>, p: Seq<char>)
    requires
        crate::walk::valid_name(name),
    ensures
        spec_join(spec_join(base, name), p) == spec_join(base, name.push('/') + p),
{
    let joined = spec_join(base, name);
    assert(joined.len() > 0);
    assert(joined[joined.len() - 1] == name[name.len() - 1]);
    assert(!crate::paths::ends_with_sep(joined));
    assert(spec_join(spec_join(base, name), p) =~= spec_join(base, name.push('/') + p));
}

proof fn lemma_node_copies(t: FsNode, base_local: Seq<char>, base_remote: Seq<char>)
    requires
        crate::walk::wf_node(t),
    ensures
        copy_views(
            node_steps(
                t,
                spec_join(base_local, crate::walk::node_name(t)),
                spec_join(base_remote, crate::walk::node_name(t)),
            ),
        ) =~~= mirrored(crate::walk::sub_entries(t), base_local, base_remote),
    decreases t, 0nat,
{
    match t {
        FsNode::File { name, size } => {
            let local = spec_join(base_local, name@);
            let remote = spec_join(base_remote, name@);
            let steps = node_steps(t, local, remote);
            assert(steps.drop_first() =~= Seq::<PlanStepV>::empty());
            assert(copy_views(Seq::<PlanStepV>::empty())
                == Seq::<(Seq<char>, Seq<char>, u64)>::empty());
            assert(steps[0] == (PlanStepV::CopyFile { local_path: local, remote_path: remote, size }));
            assert(copy_views(steps) =~~= seq![(local, remote, size)]);
            assert(mirrored(crate::walk::sub_entries(t), base_local, base_remote)
                =~~= seq![(local, remote, size)]);
        },
        FsNode::Dir { name, entries } => {
            let local = spec_join(base_local, name@);
            let remote = spec_join(base_remote, name@);
            lemma_children_copies(entries@, local, remote);
            assert(copy_views(node_steps(t, local, remote)) =~~= copy_views(
                children_steps(entries@, local, remote),
            )) by {
                assert(node_steps(t, local, remote).drop_first() =~= children_steps(
                    entries@,
                    local,
                    remote,
                ));
            }
            let walked = crate::walk::walk_children(entries@);
            assert forall|k: int| 0 <= k < walked.len() implies mirrored(walked, local, remote)[k]
                == mirrored(crate::walk::sub_entries(t), base_local, base_remote)[k] by {
                lemma_join_assoc(base_local, name@, walked[k].0);
                lemma_join_assoc(base_remote, name@, walked[k].0);
            }
            assert(mirrored(walked, local, remote) =~~= mirrored(
                crate::walk::sub_entries(t),
                base_local,
                base_remote,
            ));
        },
    }
}

proof fn lemma_children_copies(s: Seq<FsNode>, local: Seq<char>, remote: Seq<char>)
    requires
        crate::walk::wf_children(s),
    ensures
        copy_views(children_steps(s, local, remote)) =~~= mirrored(
            crate::walk::walk_children(s),
            local,
            remote,
        ),
    decreases s, 1nat,
{
    if s.len() > 0 {
        lemma_node_copies(s[0], local, remote);
        lemma_children_copies(s.drop_first(), local, remote);
        lemma_copy_views_append(
            node_steps(
                s[0],
                spec_join(local, crate::walk::node_name(s[0])),
                spec_join(remote, crate::walk::node_name(s[0])),
            ),
            children_steps(s.drop_first(), local, remote),
        );
    }
}

/// The transfer plan of a directory source copies exactly what the walker
/// finds: one copy step per walked file, from its path under the local
/// root to its path under the mapped target, sizes kept, in walk order,
/// and nothing else.
pub proof fn lemma_plan_mirrors_walk(tree: FsNode, local: Seq<char>, target: Seq<char>)
    requires
        crate::walk::wf_node(tree),
        tree is Dir,
    ensures
        copy_views(node_steps(tree, local, target)) =~~= mirrored(
            crate::walk::spec_rel_entries(tree),
            local,
            target,
        ),
{
    match tree {
        FsNode::File { .. } => {
        },
        FsNode::Dir { name, entries } => {
            lemma_children_copies(entries@, local, target);
            assert(node_steps(tree, local, target).drop_first() =~= children_steps(
                entries@,
                local,
                target,
            ));
        },
    }
}

} // verus!
