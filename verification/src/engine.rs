//! The orchestration engine: the priority order of instances, the
//! run-level claiming pass over all directories, and the orphan sweep
//! plan. The laws of the claiming pass — an output identity is claimed by
//! at most one instance, earlier-visited instances refuse a file another
//! instance claims, a chain-rejected file is never claimed — are stated
//! and proved at the bottom of this module.

use vstd::prelude::*;

use crate::filters::filter_set_accepts;
use crate::sets::StringSet;
use crate::transformer::{
    claim_pass, instance_after_claim, instance_claims_file, kind_output_id, kind_output_path,
    InputIdView, InputQueueView, TransformerInstance, TransformerInstanceView,
};

verus! {

/// One input directory as discovered: its path and the relative paths of
/// the eligible files found under it, in discovery order.
pub struct DirectoryListing {
    /// The absolute path of the directory.
    pub dir_path: String,
    /// The eligible relative file paths discovered under it.
    pub files: Vec<String>,
}

/// The mathematical shape of one listing.
#[verifier::ext_equal]
pub struct DirectoryListingView {
    pub dir_path: Seq<char>,
    pub files: Seq<Seq<char>>,
}

impl View for DirectoryListing {
    type V = DirectoryListingView;

    open spec fn view(&self) -> DirectoryListingView {
        DirectoryListingView { dir_path: self.dir_path@, files: self.files.deep_view() }
    }
}

impl DeepView for DirectoryListing {
    type V = DirectoryListingView;

    open spec fn deep_view(&self) -> DirectoryListingView {
        self.view()
    }
}

/// The instance at index `i` is visited before the one at index `j`:
/// strictly higher priority, or equal priority and registered earlier.
pub open spec fn precedes(s: Seq<TransformerInstanceView>, i: int, j: int) -> bool {
    s[i].priority > s[j].priority || (s[i].priority == s[j].priority && i < j)
}

/// `ord` lists instance indices in visiting order: highest priority first,
/// ties broken by registration order.
pub open spec fn is_priority_order(s: Seq<TransformerInstanceView>, ord: Seq<int>) -> bool {
    &&& ord.len() == s.len()
    &&& forall|k: int| 0 <= k < ord.len() ==> 0 <= #[trigger] ord[k] < s.len()
    &&& forall|a: int, b: int|
        0 <= a < b < ord.len() ==> precedes(s, #[trigger] ord[a], #[trigger] ord[b])
}

/// Law: in a priority order, an earlier position means a strictly higher
/// priority, or an equal priority and earlier registration.
pub proof fn lemma_priority_order_position(
    s: Seq<TransformerInstanceView>,
    ord: Seq<int>,
    a: int,
    b: int,
)
    requires
        is_priority_order(s, ord),
        0 <= a < b < ord.len(),
    ensures
        s[ord[a]].priority > s[ord[b]].priority || (s[ord[a]].priority == s[ord[b]].priority
            && ord[a] < ord[b]),
{
}

/// The indices as mathematical integers.
pub open spec fn to_int_seq(s: Seq<usize>) -> Seq<int> {
    s.map_values(|u: usize| u as int)
}

/// The order in which the instances are visited: indices sorted by
/// priority, highest first, ties broken by position.
pub fn priority_order(instances: &Vec<TransformerInstance>) -> (ord: Vec<usize>)
    ensures
        is_priority_order(instances.deep_view(), to_int_seq(ord@)),
{
    let ghost insts = instances.deep_view();
    let n: usize = instances.len();
    let mut ord: Vec<usize> = Vec::new();
    proof {
        assert(to_int_seq(ord@) =~= Seq::<int>::empty());
    }
    for i in 0..n
        invariant
            n == instances.len(),
            instances.deep_view() == insts,
            ord@.len() == i,
            forall|k: int| 0 <= k < ord@.len() ==> 0 <= #[trigger] ord@[k] < i,
            forall|a: int, b: int|
                0 <= a < b < ord@.len() ==> precedes(
                    insts,
                    #[trigger] ord@[a] as int,
                    #[trigger] ord@[b] as int,
                ),
    {
        let ghost ord0 = ord@;
        let pr: u32 = instances[i].priority;
        proof {
            assert(insts[i as int].priority == pr);
        }
        let m: usize = ord.len();
        let mut p: usize = 0;
        while p < m && instances[ord[p]].priority >= pr
            invariant
                m == ord.len(),
                ord@ == ord0,
                n == instances.len(),
                instances.deep_view() == insts,
                p <= m,
                insts[i as int].priority == pr,
                forall|k: int| 0 <= k < ord@.len() ==> 0 <= #[trigger] ord@[k] < i <= insts.len(),
                forall|k: int| 0 <= k < p ==> insts[#[trigger] ord@[k] as int].priority >= pr,
            decreases m - p,
        {
            p = p + 1;
        }
        proof {
            if p < m {
                assert(insts[ord0[p as int] as int].priority < pr);
            }
        }
        ord.insert(p, i);
        proof {
            assert(ord@ == ord0.insert(p as int, i as usize));
            assert forall|a: int, b: int| 0 <= a < b < ord@.len() implies precedes(
                insts,
                ord@[a] as int,
                ord@[b] as int,
            ) by {
                let x = ord@[a] as int;
                let y = ord@[b] as int;
                if a < p && b < p {
                    assert(ord@[a] == ord0[a] && ord@[b] == ord0[b]);
                } else if a < p && b == p {
                    assert(ord@[a] == ord0[a] && ord@[b] == i);
                    assert(insts[x].priority >= pr);
                    assert(x < i);
                } else if a < p && b > p {
                    assert(ord@[a] == ord0[a] && ord@[b] == ord0[b - 1]);
                } else if a == p {
                    assert(ord@[a] == i && ord@[b] == ord0[b - 1]);
                    assert(b - 1 >= p);
                    if b - 1 == p {
                        assert(insts[y].priority < pr);
                    } else {
                        assert(precedes(insts, ord0[p as int] as int, ord0[b - 1] as int));
                        assert(insts[y].priority <= insts[ord0[p as int] as int].priority);
                        assert(insts[y].priority < pr);
                    }
                } else {
                    assert(ord@[a] == ord0[a - 1] && ord@[b] == ord0[b - 1]);
                }
            }
        }
    }
    proof {
        assert(to_int_seq(ord@).len() == insts.len());
        assert forall|k: int| 0 <= k < to_int_seq(ord@).len() implies 0 <= #[trigger] to_int_seq(
            ord@,
        )[k] < insts.len() by {
            assert(to_int_seq(ord@)[k] == ord@[k] as int);
        }
        assert forall|a: int, b: int| 0 <= a < b < to_int_seq(ord@).len() implies precedes(
            insts,
            #[trigger] to_int_seq(ord@)[a],
            #[trigger] to_int_seq(ord@)[b],
        ) by {
            assert(to_int_seq(ord@)[a] == ord@[a] as int);
            assert(to_int_seq(ord@)[b] == ord@[b] as int);
        }
    }
    ord
}

/// The run-wide state of the claiming pass: the instances (their queues
/// grow), the claimed output identities, and the claimed output paths.
#[verifier::ext_equal]
pub struct RunState {
    pub insts: Seq<TransformerInstanceView>,
    pub ids: Set<Seq<char>>,
    pub paths: Set<Seq<char>>,
}

/// The state while one directory is processed: the run state plus the
/// directory's still-pending files.
#[verifier::ext_equal]
pub struct DirState {
    pub run: RunState,
    pub pending: Seq<Seq<char>>,
}

/// One claiming step: the instance at index `i` takes its pass over the
/// pending files of `dir`.
pub open spec fn dir_step(s: DirState, dir: Seq<char>, i: int) -> DirState {
    let out = claim_pass(s.run.insts[i], dir, s.pending, s.run.ids, s.run.paths);
    DirState {
        run: RunState {
            insts: s.run.insts.update(i, instance_after_claim(s.run.insts[i], dir, out.claimed)),
            ids: out.ids,
            paths: out.paths,
        },
        pending: out.remaining,
    }
}

/// The claiming pass of one directory: the instances at positions `idxs`,
/// in that order, each take a pass over what is still pending.
pub open spec fn dir_fold(s: DirState, dir: Seq<char>, idxs: Seq<int>) -> DirState
    decreases idxs.len(),
{
    if idxs.len() == 0 {
        s
    } else {
        dir_fold(dir_step(s, dir, idxs[0]), dir, idxs.drop_first())
    }
}

/// The full claiming pass: every directory in caller order, and for each
/// directory every instance in visiting order. Files left pending at the
/// end of a directory's pass are dropped.
pub open spec fn run_fold(
    run: RunState,
    idxs: Seq<int>,
    listings: Seq<DirectoryListingView>,
) -> RunState
    decreases listings.len(),
{
    if listings.len() == 0 {
        run
    } else {
        let d = dir_fold(
            DirState { run, pending: listings[0].files },
            listings[0].dir_path,
            idxs,
        );
        run_fold(d.run, idxs, listings.drop_first())
    }
}

proof fn lemma_dir_fold_snoc(s: DirState, dir: Seq<char>, idxs: Seq<int>, i: int)
    ensures
        dir_fold(s, dir, idxs.push(i)) == dir_step(dir_fold(s, dir, idxs), dir, i),
    decreases idxs.len(),
{
    assert(idxs.push(i).len() == idxs.len() + 1);
    if idxs.len() == 0 {
        assert(idxs.push(i)[0] == i);
        assert(idxs.push(i).drop_first() =~= Seq::<int>::empty());
        assert(dir_fold(s, dir, idxs.push(i)) == dir_fold(
            dir_step(s, dir, i),
            dir,
            Seq::<int>::empty(),
        ));
        assert(dir_fold(dir_step(s, dir, i), dir, Seq::<int>::empty()) == dir_step(s, dir, i));
        assert(dir_fold(s, dir, idxs) == s);
    } else {
        assert(idxs.push(i)[0] == idxs[0]);
        assert(idxs.push(i).drop_first() =~= idxs.drop_first().push(i));
        assert(dir_fold(s, dir, idxs.push(i)) == dir_fold(
            dir_step(s, dir, idxs[0]),
            dir,
            idxs.drop_first().push(i),
        ));
        lemma_dir_fold_snoc(dir_step(s, dir, idxs[0]), dir, idxs.drop_first(), i);
        assert(dir_fold(s, dir, idxs) == dir_fold(
            dir_step(s, dir, idxs[0]),
            dir,
            idxs.drop_first(),
        ));
    }
}

proof fn lemma_run_fold_snoc(
    run: RunState,
    idxs: Seq<int>,
    listings: Seq<DirectoryListingView>,
    l: DirectoryListingView,
)
    ensures
        run_fold(run, idxs, listings.push(l)) == ({
            let d = dir_fold(
                (DirState { run: run_fold(run, idxs, listings), pending: l.files }),
                l.dir_path,
                idxs,
            );
            d.run
        }),
    decreases listings.len(),
{
    if listings.len() == 0 {
        assert(listings.push(l)[0] == l);
        assert(listings.push(l).drop_first() =~= Seq::<DirectoryListingView>::empty());
        let d = dir_fold((DirState { run, pending: l.files }), l.dir_path, idxs);
        assert(run_fold(run, idxs, listings.push(l)) == run_fold(
            d.run,
            idxs,
            Seq::<DirectoryListingView>::empty(),
        ));
        assert(run_fold(d.run, idxs, Seq::<DirectoryListingView>::empty()) == d.run);
        assert(run_fold(run, idxs, listings) == run);
    } else {
        assert(listings.push(l)[0] == listings[0]);
        assert(listings.push(l).drop_first() =~= listings.drop_first().push(l));
        let d0 = dir_fold(
            (DirState { run, pending: listings[0].files }),
            listings[0].dir_path,
            idxs,
        );
        assert(run_fold(run, idxs, listings.push(l)) == run_fold(
            d0.run,
            idxs,
            listings.drop_first().push(l),
        ));
        lemma_run_fold_snoc(d0.run, idxs, listings.drop_first(), l);
        assert(run_fold(run, idxs, listings) == run_fold(d0.run, idxs, listings.drop_first()));
    }
}

/// The two run-scoped sets a claiming pass produces: the claimed output
/// identities and the claimed output paths.
pub struct ClaimedSets {
    /// The claimed logical output identities, for conflict detection.
    pub claimed_outputs: StringSet,
    /// The claimed relative output paths, for orphan detection.
    pub output_paths: StringSet,
}

fn clone_strings(v: &Vec<String>) -> (r: Vec<String>)
    ensures
        r.deep_view() == v.deep_view(),
{
    let n: usize = v.len();
    let mut r: Vec<String> = Vec::new();
    for i in 0..n
        invariant
            n == v.len(),
            r.deep_view() =~= v.deep_view().take(i as int),
    {
        let ghost r0 = r.deep_view();
        r.push(v[i].clone());
        proof {
            assert(r.deep_view() =~= r0.push(v.deep_view()[i as int]));
            assert(v.deep_view().take(i as int + 1) =~= v.deep_view().take(i as int).push(
                v.deep_view()[i as int],
            ));
        }
    }
    proof {
        assert(v.deep_view().take(n as int) =~= v.deep_view());
    }
    r
}

/// Runs the claiming pass: instances are visited in priority order
/// (highest first, registration order breaking ties) over every directory
/// listing in caller order, starting from empty claimed-output sets. Each
/// instance's queues receive the files it claimed; the claimed output
/// identities and output paths come back for the sweep and for conflict
/// auditing.
pub fn run_claiming(
    instances: &mut Vec<TransformerInstance>,
    listings: &Vec<DirectoryListing>,
) -> (r: ClaimedSets)
    ensures
        exists|ord: Seq<int>|
            {
                &&& is_priority_order(old(instances).deep_view(), ord)
                &&& ({
                    let fin = run_fold(
                        (RunState {
                            insts: old(instances).deep_view(),
                            ids: Set::empty(),
                            paths: Set::empty(),
                        }),
                        ord,
                        listings.deep_view(),
                    );
                    &&& final(instances).deep_view() == fin.insts
                    &&& r.claimed_outputs@ == fin.ids
                    &&& r.output_paths@ == fin.paths
                })
            },
{
    let ghost insts0 = instances.deep_view();
    let ghost lsv = listings.deep_view();
    let ord: Vec<usize> = priority_order(instances);
    let ghost ordi = to_int_seq(ord@);
    let ghost init = RunState { insts: insts0, ids: Set::empty(), paths: Set::empty() };

    let mut claimed_outputs: StringSet = StringSet::new();
    let mut output_paths: StringSet = StringSet::new();
    let dn: usize = listings.len();
    proof {
        assert(lsv.take(0) =~= Seq::<DirectoryListingView>::empty());
    }
    for d in 0..dn
        invariant
            dn == listings.len(),
            listings.deep_view() == lsv,
            ordi == to_int_seq(ord@),
            is_priority_order(insts0, ordi),
            ord@.len() == insts0.len(),
            instances.len() == insts0.len(),
            init == (RunState { insts: insts0, ids: Set::empty(), paths: Set::empty() }),
            ({
                let cur = run_fold(init, ordi, lsv.take(d as int));
                &&& instances.deep_view() == cur.insts
                &&& claimed_outputs@ == cur.ids
                &&& output_paths@ == cur.paths
            }),
    {
        let ghost cur = run_fold(init, ordi, lsv.take(d as int));
        let listing: &DirectoryListing = &listings[d];
        proof {
            assert(listing@ == lsv[d as int]);
        }
        let mut pending: Vec<String> = clone_strings(&listing.files);
        let ghost ds0 = DirState { run: cur, pending: lsv[d as int].files };
        let kn: usize = ord.len();
        proof {
            assert(ordi.take(0) =~= Seq::<int>::empty());
        }
        for k in 0..kn
            invariant
                kn == ord.len(),
                ord@.len() == insts0.len(),
                ordi == to_int_seq(ord@),
                forall|t: int| 0 <= t < ordi.len() ==> 0 <= #[trigger] ordi[t] < insts0.len(),
                instances.len() == insts0.len(),
                dn == listings.len(),
                listings.deep_view() == lsv,
                0 <= d < dn,
                ds0 == (DirState { run: cur, pending: lsv[d as int].files }),
                ({
                    let ds = dir_fold(ds0, lsv[d as int].dir_path, ordi.take(k as int));
                    &&& instances.deep_view() == ds.run.insts
                    &&& claimed_outputs@ == ds.run.ids
                    &&& output_paths@ == ds.run.paths
                    &&& pending.deep_view() == ds.pending
                }),
        {
            let ghost ds = dir_fold(ds0, lsv[d as int].dir_path, ordi.take(k as int));
            let idx: usize = ord[k];
            proof {
                assert(ordi[k as int] == ord@[k as int] as int);
                assert(0 <= idx < instances.len());
            }
            let mut inst: TransformerInstance = instances.remove(idx);
            proof {
                assert(inst@ == ds.run.insts[idx as int]);
            }
            let _count: u64 = inst.claim_outputs(
                listings[d].dir_path.as_str(),
                &mut pending,
                &mut claimed_outputs,
                &mut output_paths,
            );
            instances.insert(idx, inst);
            proof {
                assert(ordi.take(k as int + 1) =~= ordi.take(k as int).push(ordi[k as int]));
                lemma_dir_fold_snoc(ds0, lsv[d as int].dir_path, ordi.take(k as int), ordi[k as int]);
                assert(instances.deep_view() =~= ds.run.insts.update(
                    idx as int,
                    instance_after_claim(
                        ds.run.insts[idx as int],
                        lsv[d as int].dir_path,
                        claim_pass(
                            ds.run.insts[idx as int],
                            lsv[d as int].dir_path,
                            ds.pending,
                            ds.run.ids,
                            ds.run.paths,
                        ).claimed,
                    ),
                ));
                assert(instances.deep_view() == dir_fold(
                    ds0,
                    lsv[d as int].dir_path,
                    ordi.take(k as int + 1),
                ).run.insts);
            }
        }
        proof {
            assert(ordi.take(kn as int) =~= ordi);
            assert(lsv.take(d as int + 1) =~= lsv.take(d as int).push(lsv[d as int]));
            lemma_run_fold_snoc(init, ordi, lsv.take(d as int), lsv[d as int]);
        }
    }
    proof {
        assert(lsv.take(dn as int) =~= lsv);
    }
    ClaimedSets { claimed_outputs, output_paths }
}

/// The sweep plan: of the relative paths found under the output root,
/// exactly those the current run has not claimed, in discovery order.
pub open spec fn spec_orphans(found: Seq<Seq<char>>, claimed: Set<Seq<char>>) -> Seq<Seq<char>> {
    found.filter(|f: Seq<char>| !claimed.contains(f))
}

/// Of the relative paths of the regular files found under the output root,
/// exactly those not in the run's claimed-output-path set: the files the
/// sweep deletes.
pub fn orphaned_files(found: &Vec<String>, claimed: &StringSet) -> (r: Vec<String>)
    ensures
        r.deep_view() == spec_orphans(found.deep_view(), claimed@),
{
    let ghost fs = found.deep_view();
    let n: usize = found.len();
    let mut r: Vec<String> = Vec::new();
    proof {
        reveal(Seq::filter);
        assert(r.deep_view() =~= spec_orphans(fs.take(0), claimed@));
    }
    for i in 0..n
        invariant
            n == found.len(),
            found.deep_view() == fs,
            r.deep_view() == spec_orphans(fs.take(i as int), claimed@),
    {
        let ghost r0 = r.deep_view();
        let file: &String = &found[i];
        proof {
            assert(file@ == fs[i as int]);
            assert(fs.take(i as int + 1).drop_last() =~= fs.take(i as int));
            assert(fs.take(i as int + 1).last() == fs[i as int]);
        }
        if !claimed.contains(file) {
            r.push(file.clone());
            proof {
                reveal(Seq::filter);
                assert(r.deep_view() =~= r0.push(fs[i as int]));
                assert(spec_orphans(fs.take(i as int + 1), claimed@) == spec_orphans(
                    fs.take(i as int),
                    claimed@,
                ).push(fs[i as int]));
            }
        } else {
            proof {
                reveal(Seq::filter);
                assert(spec_orphans(fs.take(i as int + 1), claimed@) == spec_orphans(
                    fs.take(i as int),
                    claimed@,
                ));
            }
        }
    }
    proof {
        assert(fs.take(n as int) =~= fs);
    }
    r
}

/// The output identity `inst` derives for `file` of the directory `dir`.
pub open spec fn file_output_id(
    inst: TransformerInstanceView,
    dir: Seq<char>,
    file: Seq<char>,
) -> Seq<char> {
    kind_output_id(inst.transformer, InputIdView { dir_path: dir, file_path: file })
}

/// The relative output path `inst` derives for `file` of the directory
/// `dir`.
pub open spec fn file_output_path(
    inst: TransformerInstanceView,
    dir: Seq<char>,
    file: Seq<char>,
) -> Seq<char> {
    kind_output_path(inst.transformer, InputIdView { dir_path: dir, file_path: file })
}

proof fn lemma_claim_pass_facts(
    inst: TransformerInstanceView,
    dir: Seq<char>,
    files: Seq<Seq<char>>,
    ids: Set<Seq<char>>,
    paths: Set<Seq<char>>,
)
    ensures
        ({
            let out = claim_pass(inst, dir, files, ids, paths);
            &&& forall|x: Seq<char>| ids.contains(x) ==> out.ids.contains(x)
            &&& forall|k: int|
                0 <= k < out.claimed.len() ==> files.contains(#[trigger] out.claimed[k])
            &&& forall|k: int|
                0 <= k < out.remaining.len() ==> files.contains(#[trigger] out.remaining[k])
            &&& forall|f: Seq<char>|
                files.contains(f) ==> out.remaining.contains(f) || out.claimed.contains(f)
            &&& forall|k: int|
                0 <= k < out.claimed.len() ==> filter_set_accepts(
                    inst.filter,
                    #[trigger] out.claimed[k],
                )
            &&& forall|k: int|
                0 <= k < out.claimed.len() ==> !ids.contains(
                    file_output_id(inst, dir, #[trigger] out.claimed[k]),
                )
            &&& forall|k: int|
                0 <= k < out.claimed.len() ==> out.ids.contains(
                    file_output_id(inst, dir, #[trigger] out.claimed[k]),
                )
            &&& forall|x: Seq<char>|
                out.ids.contains(x) ==> ids.contains(x) || exists|k: int|
                    0 <= k < out.claimed.len() && file_output_id(inst, dir, out.claimed[k]) == x
            &&& forall|f: Seq<char>|
                out.remaining.contains(f) ==> !instance_claims_file(inst, dir, f, out.ids)
            &&& forall|x: Seq<char>| paths.contains(x) ==> out.paths.contains(x)
            &&& forall|k: int|
                0 <= k < out.claimed.len() ==> out.paths.contains(
                    file_output_path(inst, dir, #[trigger] out.claimed[k]),
                )
        }),
    decreases files.len(),
{
    let out = claim_pass(inst, dir, files, ids, paths);
    if files.len() > 0 {
        let f0 = files[0];
        let tail = files.drop_first();
        assert(forall|j: int| 0 <= j < tail.len() ==> tail[j] == files[j + 1]);
        if instance_claims_file(inst, dir, f0, ids) {
            let oid0 = file_output_id(inst, dir, f0);
            let opath0 = file_output_path(inst, dir, f0);
            let ids1 = ids.insert(oid0);
            let paths1 = paths.insert(opath0);
            let rest = claim_pass(inst, dir, tail, ids1, paths1);
            lemma_claim_pass_facts(inst, dir, tail, ids1, paths1);
            assert forall|x: Seq<char>| ids.contains(x) implies out.ids.contains(x) by {
                assert(ids1.contains(x));
                assert(rest.ids.contains(x));
            }
            assert forall|x: Seq<char>| paths.contains(x) implies out.paths.contains(x) by {
                assert(paths1.contains(x));
                assert(rest.paths.contains(x));
            }
            assert(out.claimed == seq![f0] + rest.claimed);
            assert(out.claimed[0] == f0);
            assert forall|k: int| 0 <= k < out.claimed.len() implies out.ids.contains(
                file_output_id(inst, dir, #[trigger] out.claimed[k]),
            ) by {
                if k == 0 {
                    assert(ids1.contains(oid0));
                    assert(rest.ids.contains(oid0));
                } else {
                    assert(out.claimed[k] == rest.claimed[k - 1]);
                    assert(rest.ids.contains(file_output_id(inst, dir, rest.claimed[k - 1])));
                }
            }
            assert forall|k: int| 0 <= k < out.claimed.len() implies out.paths.contains(
                file_output_path(inst, dir, #[trigger] out.claimed[k]),
            ) by {
                if k == 0 {
                    assert(paths1.contains(opath0));
                    assert(rest.paths.contains(opath0));
                } else {
                    assert(out.claimed[k] == rest.claimed[k - 1]);
                    assert(rest.paths.contains(file_output_path(inst, dir, rest.claimed[k - 1])));
                }
            }
            assert(forall|k: int|
                1 <= k < out.claimed.len() ==> #[trigger] out.claimed[k] == rest.claimed[k - 1]);
            assert forall|f: Seq<char>|
                files.contains(f) implies out.remaining.contains(f) || out.claimed.contains(
                f,
            ) by {
                let j = choose|j: int| 0 <= j < files.len() && files[j] == f;
                if j == 0 {
                    assert(out.claimed[0] == f);
                } else {
                    assert(tail[j - 1] == f);
                    assert(tail.contains(f));
                    if rest.remaining.contains(f) {
                        let t = choose|t: int|
                            0 <= t < rest.remaining.len() && rest.remaining[t] == f;
                        assert(out.remaining[t] == f);
                    } else {
                        let t = choose|t: int| 0 <= t < rest.claimed.len() && rest.claimed[t] == f;
                        assert(out.claimed[t + 1] == f);
                    }
                }
            }
            assert forall|x: Seq<char>|
                out.ids.contains(x) implies ids.contains(x) || exists|k: int|
                0 <= k < out.claimed.len() && file_output_id(inst, dir, out.claimed[k]) == x by {
                if ids1.contains(x) {
                    if x == oid0 {
                        assert(file_output_id(inst, dir, out.claimed[0]) == x);
                    }
                } else {
                    let k = choose|k: int|
                        0 <= k < rest.claimed.len() && file_output_id(inst, dir, rest.claimed[k])
                            == x;
                    assert(file_output_id(inst, dir, out.claimed[k + 1]) == x);
                }
            }
        } else {
            let rest = claim_pass(inst, dir, tail, ids, paths);
            lemma_claim_pass_facts(inst, dir, tail, ids, paths);
            assert(out.remaining == seq![f0] + rest.remaining);
            assert(out.remaining[0] == f0);
            assert(forall|k: int|
                1 <= k < out.remaining.len() ==> #[trigger] out.remaining[k] == rest.remaining[k
                    - 1]);
            assert forall|f: Seq<char>|
                files.contains(f) implies out.remaining.contains(f) || out.claimed.contains(
                f,
            ) by {
                let j = choose|j: int| 0 <= j < files.len() && files[j] == f;
                if j == 0 {
                    assert(out.remaining[0] == f);
                } else {
                    assert(tail[j - 1] == f);
                    assert(tail.contains(f));
                    if rest.remaining.contains(f) {
                        let t = choose|t: int|
                            0 <= t < rest.remaining.len() && rest.remaining[t] == f;
                        assert(out.remaining[t + 1] == f);
                    } else {
                        let t = choose|t: int| 0 <= t < rest.claimed.len() && rest.claimed[t] == f;
                        assert(out.claimed[t] == f);
                    }
                }
            }
            assert forall|f: Seq<char>|
                out.remaining.contains(f) implies !instance_claims_file(inst, dir, f, out.ids) by {
                let j = choose|j: int| 0 <= j < out.remaining.len() && out.remaining[j] == f;
                if j == 0 {
                    assert(!instance_claims_file(inst, dir, f, ids));
                    if instance_claims_file(inst, dir, f, out.ids) {
                        assert(ids.contains(file_output_id(inst, dir, f)));
                        assert(out.ids.contains(file_output_id(inst, dir, f)));
                    }
                } else {
                    assert(rest.remaining[j - 1] == f);
                    assert(rest.remaining.contains(f));
                }
            }
        }
    }
}

/// Law: a file that an instance's filter chain rejects is never claimed by
/// that instance, whatever its transformer could have handled — if the
/// file was pending, it stays pending after the instance's pass.
pub proof fn lemma_rejected_file_never_claimed(
    inst: TransformerInstanceView,
    dir: Seq<char>,
    files: Seq<Seq<char>>,
    ids: Set<Seq<char>>,
    paths: Set<Seq<char>>,
    f: Seq<char>,
)
    requires
        !filter_set_accepts(inst.filter, f),
    ensures
        !claim_pass(inst, dir, files, ids, paths).claimed.contains(f),
        files.contains(f) ==> claim_pass(inst, dir, files, ids, paths).remaining.contains(f),
{
    let out = claim_pass(inst, dir, files, ids, paths);
    lemma_claim_pass_facts(inst, dir, files, ids, paths);
    if out.claimed.contains(f) {
        let k = choose|k: int| 0 <= k < out.claimed.len() && out.claimed[k] == f;
        assert(filter_set_accepts(inst.filter, out.claimed[k]));
    }
}

/// Whether an entry position names an actual queued file of the instance.
pub open spec fn valid_queue_entry(inst: TransformerInstanceView, q: int, j: int) -> bool {
    0 <= q < inst.input_queues.len() && 0 <= j < inst.input_queues[q].files.len()
}

/// The output identity of the queued file at entry position (`q`, `j`).
pub open spec fn entry_output_id(inst: TransformerInstanceView, q: int, j: int) -> Seq<char> {
    file_output_id(inst, inst.input_queues[q].dir_path, inst.input_queues[q].files[j])
}

/// Whether the instance has claimed some input whose output identity is
/// `x`.
pub open spec fn instance_claimed_id(inst: TransformerInstanceView, x: Seq<char>) -> bool {
    exists|q: int, j: int| valid_queue_entry(inst, q, j) && entry_output_id(inst, q, j) == x
}

proof fn lemma_queue_dir_index_range(qs: Seq<InputQueueView>, dir: Seq<char>)
    ensures
        ({
            let k = crate::transformer::queue_dir_index(qs, dir);
            k == -1 || (0 <= k < qs.len() && qs[k].dir_path == dir)
        }),
    decreases qs.len(),
{
    if qs.len() > 0 {
        lemma_queue_dir_index_range(qs.drop_first(), dir);
    }
}

proof fn lemma_after_claim_entries(
    inst: TransformerInstanceView,
    dir: Seq<char>,
    claimed: Seq<Seq<char>>,
    x: Seq<char>,
)
    ensures
        instance_claimed_id(instance_after_claim(inst, dir, claimed), x) <==> (
        instance_claimed_id(inst, x) || exists|k: int|
            0 <= k < claimed.len() && file_output_id(inst, dir, claimed[k]) == x),
{
    let after = instance_after_claim(inst, dir, claimed);
    assert(after.transformer == inst.transformer);
    if claimed.len() == 0 {
        assert(after =~= inst);
    } else {
        let kq = crate::transformer::queue_dir_index(inst.input_queues, dir);
        lemma_queue_dir_index_range(inst.input_queues, dir);
        if kq == -1 {
            let n = inst.input_queues.len() as int;
            assert(after.input_queues == inst.input_queues.push(
                InputQueueView { dir_path: dir, files: claimed },
            ));
            assert(forall|q: int|
                0 <= q < n ==> #[trigger] after.input_queues[q] == inst.input_queues[q]);
            assert(after.input_queues[n] == (InputQueueView { dir_path: dir, files: claimed }));
            if instance_claimed_id(after, x) {
                let (q, j) = choose|q: int, j: int|
                    valid_queue_entry(after, q, j) && entry_output_id(after, q, j) == x;
                if q < n {
                    assert(valid_queue_entry(inst, q, j) && entry_output_id(inst, q, j) == x);
                } else {
                    assert(file_output_id(inst, dir, claimed[j]) == x);
                }
            }
            if instance_claimed_id(inst, x) {
                let (q, j) = choose|q: int, j: int|
                    valid_queue_entry(inst, q, j) && entry_output_id(inst, q, j) == x;
                assert(valid_queue_entry(after, q, j) && entry_output_id(after, q, j) == x);
                assert(instance_claimed_id(after, x));
            }
            if exists|k: int| 0 <= k < claimed.len() && file_output_id(inst, dir, claimed[k])
                == x {
                let k = choose|k: int|
                    0 <= k < claimed.len() && file_output_id(inst, dir, claimed[k]) == x;
                assert(valid_queue_entry(after, n, k) && entry_output_id(after, n, k) == x);
                assert(instance_claimed_id(after, x));
            }
        } else {
            let old_files = inst.input_queues[kq].files;
            let merged = InputQueueView { dir_path: dir, files: old_files + claimed };
            assert(after.input_queues == inst.input_queues.update(kq, merged));
            assert(inst.input_queues[kq].dir_path == dir);
            assert(forall|q: int|
                0 <= q < inst.input_queues.len() && q != kq ==> #[trigger] after.input_queues[q]
                    == inst.input_queues[q]);
            if instance_claimed_id(after, x) {
                let (q, j) = choose|q: int, j: int|
                    valid_queue_entry(after, q, j) && entry_output_id(after, q, j) == x;
                if q != kq {
                    assert(valid_queue_entry(inst, q, j) && entry_output_id(inst, q, j) == x);
                } else {
                    if j < old_files.len() {
                        assert((old_files + claimed)[j] == old_files[j]);
                        assert(valid_queue_entry(inst, q, j) && entry_output_id(inst, q, j) == x);
                    } else {
                        assert((old_files + claimed)[j] == claimed[j - old_files.len()]);
                        assert(file_output_id(inst, dir, claimed[j - old_files.len()]) == x);
                    }
                }
            }
            if instance_claimed_id(inst, x) {
                let (q, j) = choose|q: int, j: int|
                    valid_queue_entry(inst, q, j) && entry_output_id(inst, q, j) == x;
                if q != kq {
                    assert(valid_queue_entry(after, q, j) && entry_output_id(after, q, j) == x);
                } else {
                    assert((old_files + claimed)[j] == old_files[j]);
                    assert(valid_queue_entry(after, q, j) && entry_output_id(after, q, j) == x);
                }
                assert(instance_claimed_id(after, x));
            }
            if exists|k: int| 0 <= k < claimed.len() && file_output_id(inst, dir, claimed[k])
                == x {
                let k = choose|k: int|
                    0 <= k < claimed.len() && file_output_id(inst, dir, claimed[k]) == x;
                assert((old_files + claimed)[old_files.len() + k] == claimed[k]);
                assert(valid_queue_entry(after, kq, old_files.len() + k) && entry_output_id(
                    after,
                    kq,
                    old_files.len() + k,
                ) == x);
                assert(instance_claimed_id(after, x));
            }
        }
    }
}

/// The run-wide soundness invariant of claiming: every claimed output
/// identity of every instance is recorded in the claimed-identity set, and
/// no two instances have claimed the same identity.
pub open spec fn claim_inv(s: RunState) -> bool {
    &&& forall|i: int, x: Seq<char>|
        0 <= i < s.insts.len() && #[trigger] instance_claimed_id(s.insts[i], x)
            ==> s.ids.contains(x)
    &&& forall|i1: int, i2: int, x: Seq<char>|
        #![trigger instance_claimed_id(s.insts[i1], x), instance_claimed_id(s.insts[i2], x)]
        0 <= i1 < s.insts.len() && 0 <= i2 < s.insts.len() && i1 != i2 ==> !(
        instance_claimed_id(s.insts[i1], x) && instance_claimed_id(s.insts[i2], x))
}

proof fn lemma_dir_step_inv(s: DirState, dir: Seq<char>, i: int)
    requires
        claim_inv(s.run),
        0 <= i < s.run.insts.len(),
    ensures
        ({
            let s2 = dir_step(s, dir, i);
            &&& claim_inv(s2.run)
            &&& s2.run.insts.len() == s.run.insts.len()
            &&& forall|x: Seq<char>| s.run.ids.contains(x) ==> s2.run.ids.contains(x)
        }),
{
    let out = claim_pass(s.run.insts[i], dir, s.pending, s.run.ids, s.run.paths);
    let s2 = dir_step(s, dir, i);
    lemma_claim_pass_facts(s.run.insts[i], dir, s.pending, s.run.ids, s.run.paths);
    let inst = s.run.insts[i];
    let after = instance_after_claim(inst, dir, out.claimed);
    assert(s2.run.insts[i] == after);
    assert(forall|t: int|
        0 <= t < s.run.insts.len() && t != i ==> #[trigger] s2.run.insts[t] == s.run.insts[t]);
    assert forall|t: int, x: Seq<char>|
        0 <= t < s2.run.insts.len() && #[trigger] instance_claimed_id(
            s2.run.insts[t],
            x,
        ) implies s2.run.ids.contains(x) by {
        if t == i {
            lemma_after_claim_entries(inst, dir, out.claimed, x);
            if instance_claimed_id(inst, x) {
                assert(s.run.ids.contains(x));
            } else {
                let k = choose|k: int|
                    0 <= k < out.claimed.len() && file_output_id(inst, dir, out.claimed[k]) == x;
                assert(out.ids.contains(file_output_id(inst, dir, out.claimed[k])));
            }
        } else {
            assert(instance_claimed_id(s.run.insts[t], x));
        }
    }
    assert forall|i1: int, i2: int, x: Seq<char>|
        #![trigger instance_claimed_id(s2.run.insts[i1], x), instance_claimed_id(s2.run.insts[i2], x)]
        0 <= i1 < s2.run.insts.len() && 0 <= i2 < s2.run.insts.len() && i1 != i2 implies !(
    instance_claimed_id(s2.run.insts[i1], x) && instance_claimed_id(s2.run.insts[i2], x)) by {
        if instance_claimed_id(s2.run.insts[i1], x) && instance_claimed_id(s2.run.insts[i2], x) {
            if i1 != i && i2 != i {
                assert(instance_claimed_id(s.run.insts[i1], x));
                assert(instance_claimed_id(s.run.insts[i2], x));
            } else {
                let other = if i1 == i {
                    i2
                } else {
                    i1
                };
                assert(instance_claimed_id(s2.run.insts[other], x));
                assert(instance_claimed_id(s.run.insts[other], x));
                assert(s.run.ids.contains(x));
                lemma_after_claim_entries(inst, dir, out.claimed, x);
                if instance_claimed_id(inst, x) {
                    assert(instance_claimed_id(s.run.insts[i], x));
                    assert(!(instance_claimed_id(s.run.insts[i], x) && instance_claimed_id(
                        s.run.insts[other],
                        x,
                    )));
                } else {
                    let k = choose|k: int|
                        0 <= k < out.claimed.len() && file_output_id(inst, dir, out.claimed[k])
                            == x;
                    assert(!s.run.ids.contains(file_output_id(inst, dir, out.claimed[k])));
                }
            }
        }
    }
}

proof fn lemma_dir_fold_inv(s: DirState, dir: Seq<char>, idxs: Seq<int>)
    requires
        claim_inv(s.run),
        forall|k: int| 0 <= k < idxs.len() ==> 0 <= #[trigger] idxs[k] < s.run.insts.len(),
    ensures
        ({
            let s2 = dir_fold(s, dir, idxs);
            &&& claim_inv(s2.run)
            &&& s2.run.insts.len() == s.run.insts.len()
            &&& forall|x: Seq<char>| s.run.ids.contains(x) ==> s2.run.ids.contains(x)
        }),
    decreases idxs.len(),
{
    if idxs.len() > 0 {
        lemma_dir_step_inv(s, dir, idxs[0]);
        let s1 = dir_step(s, dir, idxs[0]);
        assert(forall|k: int|
            0 <= k < idxs.drop_first().len() ==> idxs.drop_first()[k] == idxs[k + 1]);
        lemma_dir_fold_inv(s1, dir, idxs.drop_first());
    }
}

proof fn lemma_run_fold_inv(run: RunState, idxs: Seq<int>, listings: Seq<DirectoryListingView>)
    requires
        claim_inv(run),
        forall|k: int| 0 <= k < idxs.len() ==> 0 <= #[trigger] idxs[k] < run.insts.len(),
    ensures
        ({
            let r2 = run_fold(run, idxs, listings);
            &&& claim_inv(r2)
            &&& r2.insts.len() == run.insts.len()
        }),
    decreases listings.len(),
{
    if listings.len() > 0 {
        let d = dir_fold(
            (DirState { run, pending: listings[0].files }),
            listings[0].dir_path,
            idxs,
        );
        lemma_dir_fold_inv(
            (DirState { run, pending: listings[0].files }),
            listings[0].dir_path,
            idxs,
        );
        lemma_run_fold_inv(d.run, idxs, listings.drop_first());
    }
}

/// Law: over a full run started from empty claimed sets and empty queues,
/// an output identity is claimed by at most one instance — two different
/// instances never end the run having both claimed the same identity.
pub proof fn lemma_output_id_claimed_at_most_once(
    insts: Seq<TransformerInstanceView>,
    ord: Seq<int>,
    listings: Seq<DirectoryListingView>,
    i1: int,
    i2: int,
    x: Seq<char>,
)
    requires
        forall|i: int| 0 <= i < insts.len() ==> (#[trigger] insts[i]).input_queues.len() == 0,
        forall|k: int| 0 <= k < ord.len() ==> 0 <= #[trigger] ord[k] < insts.len(),
        0 <= i1 < insts.len(),
        0 <= i2 < insts.len(),
        i1 != i2,
    ensures
        ({
            let fin = run_fold(
                (RunState { insts, ids: Set::empty(), paths: Set::empty() }),
                ord,
                listings,
            );
            !(instance_claimed_id(fin.insts[i1], x) && instance_claimed_id(fin.insts[i2], x))
        }),
{
    let init = RunState { insts, ids: Set::empty(), paths: Set::empty() };
    assert forall|i: int, y: Seq<char>|
        0 <= i < init.insts.len() && #[trigger] instance_claimed_id(
            init.insts[i],
            y,
        ) implies init.ids.contains(y) by {
        let (q, j) = choose|q: int, j: int|
            valid_queue_entry(init.insts[i], q, j) && entry_output_id(init.insts[i], q, j) == y;
        assert(0 <= q < init.insts[i].input_queues.len());
    }
    assert forall|t1: int, t2: int, y: Seq<char>|
        #![trigger instance_claimed_id(init.insts[t1], y), instance_claimed_id(init.insts[t2], y)]
        0 <= t1 < init.insts.len() && 0 <= t2 < init.insts.len() && t1 != t2 implies !(
    instance_claimed_id(init.insts[t1], y) && instance_claimed_id(init.insts[t2], y)) by {
        if instance_claimed_id(init.insts[t1], y) {
            let (q, j) = choose|q: int, j: int|
                valid_queue_entry(init.insts[t1], q, j) && entry_output_id(init.insts[t1], q, j)
                    == y;
            assert(0 <= q < init.insts[t1].input_queues.len());
        }
    }
    lemma_run_fold_inv(init, ord, listings);
}

proof fn lemma_dir_fold_take_succ(s0: DirState, dir: Seq<char>, idxs: Seq<int>, k: int)
    requires
        0 <= k < idxs.len(),
    ensures
        dir_fold(s0, dir, idxs.take(k + 1)) == dir_step(
            dir_fold(s0, dir, idxs.take(k)),
            dir,
            idxs[k],
        ),
{
    assert(idxs.take(k + 1) =~= idxs.take(k).push(idxs[k]));
    lemma_dir_fold_snoc(s0, dir, idxs.take(k), idxs[k]);
}

proof fn lemma_dir_fold_preserves_claimer(s0: DirState, dir: Seq<char>, idxs: Seq<int>, t: int)
    requires
        forall|k: int| 0 <= k < idxs.len() ==> 0 <= #[trigger] idxs[k] < s0.run.insts.len(),
        0 <= t < s0.run.insts.len(),
    ensures
        ({
            let s2 = dir_fold(s0, dir, idxs);
            &&& s2.run.insts.len() == s0.run.insts.len()
            &&& s2.run.insts[t].filter == s0.run.insts[t].filter
            &&& s2.run.insts[t].transformer == s0.run.insts[t].transformer
        }),
    decreases idxs.len(),
{
    if idxs.len() > 0 {
        let s1 = dir_step(s0, dir, idxs[0]);
        assert(s1.run.insts.len() == s0.run.insts.len());
        assert(s1.run.insts[t].filter == s0.run.insts[t].filter);
        assert(s1.run.insts[t].transformer == s0.run.insts[t].transformer);
        assert(forall|k: int|
            0 <= k < idxs.drop_first().len() ==> idxs.drop_first()[k] == idxs[k + 1]);
        lemma_dir_fold_preserves_claimer(s1, dir, idxs.drop_first(), t);
    }
}

proof fn lemma_dir_fold_mono(s0: DirState, dir: Seq<char>, idxs: Seq<int>, a: int, b: int)
    requires
        0 <= a <= b <= idxs.len(),
    ensures
        ({
            let sa = dir_fold(s0, dir, idxs.take(a));
            let sb = dir_fold(s0, dir, idxs.take(b));
            &&& forall|f: Seq<char>| sb.pending.contains(f) ==> sa.pending.contains(f)
            &&& forall|x: Seq<char>| sa.run.ids.contains(x) ==> sb.run.ids.contains(x)
        }),
    decreases b - a,
{
    if a < b {
        lemma_dir_fold_mono(s0, dir, idxs, a, b - 1);
        lemma_dir_fold_take_succ(s0, dir, idxs, b - 1);
        let sa = dir_fold(s0, dir, idxs.take(a));
        let sprev = dir_fold(s0, dir, idxs.take(b - 1));
        let sb = dir_fold(s0, dir, idxs.take(b));
        let out = claim_pass(
            sprev.run.insts[idxs[b - 1]],
            dir,
            sprev.pending,
            sprev.run.ids,
            sprev.run.paths,
        );
        lemma_claim_pass_facts(
            sprev.run.insts[idxs[b - 1]],
            dir,
            sprev.pending,
            sprev.run.ids,
            sprev.run.paths,
        );
        assert(sb.pending == out.remaining);
        assert(sb.run.ids == out.ids);
        assert forall|f: Seq<char>| sb.pending.contains(f) implies sa.pending.contains(f) by {
            let k = choose|k: int| 0 <= k < out.remaining.len() && out.remaining[k] == f;
            assert(sprev.pending.contains(out.remaining[k]));
        }
    }
}

/// Law: if the instance visited at position `b` of a directory pass claims
/// the file `f`, then every instance visited at an earlier position `a` —
/// under a priority order, one of strictly higher priority or of equal
/// priority and earlier registration — refused `f`: it rejected it by
/// filter, could not handle it, or derives for it an output identity that
/// the pass's final claimed-identity set holds (someone owns that output).
pub proof fn lemma_earlier_instances_refused(
    s0: DirState,
    dir: Seq<char>,
    idxs: Seq<int>,
    a: int,
    b: int,
    f: Seq<char>,
)
    requires
        forall|k: int| 0 <= k < idxs.len() ==> 0 <= #[trigger] idxs[k] < s0.run.insts.len(),
        0 <= a < b < idxs.len(),
        ({
            let sb = dir_fold(s0, dir, idxs.take(b));
            claim_pass(
                sb.run.insts[idxs[b]],
                dir,
                sb.pending,
                sb.run.ids,
                sb.run.paths,
            ).claimed.contains(f)
        }),
    ensures
        !instance_claims_file(
            s0.run.insts[idxs[a]],
            dir,
            f,
            dir_fold(s0, dir, idxs).run.ids,
        ),
{
    let sb = dir_fold(s0, dir, idxs.take(b));
    let out_b = claim_pass(sb.run.insts[idxs[b]], dir, sb.pending, sb.run.ids, sb.run.paths);
    lemma_claim_pass_facts(sb.run.insts[idxs[b]], dir, sb.pending, sb.run.ids, sb.run.paths);
    let kb = choose|k: int| 0 <= k < out_b.claimed.len() && out_b.claimed[k] == f;
    assert(sb.pending.contains(out_b.claimed[kb]));
    assert(sb.pending.contains(f));

    lemma_dir_fold_mono(s0, dir, idxs, a + 1, b);
    let snext = dir_fold(s0, dir, idxs.take(a + 1));
    assert(snext.pending.contains(f));

    lemma_dir_fold_take_succ(s0, dir, idxs, a);
    let sa = dir_fold(s0, dir, idxs.take(a));
    let inst_a = sa.run.insts[idxs[a]];
    let out_a = claim_pass(inst_a, dir, sa.pending, sa.run.ids, sa.run.paths);
    assert(snext.pending == out_a.remaining);
    assert(snext.run.ids == out_a.ids);
    lemma_claim_pass_facts(inst_a, dir, sa.pending, sa.run.ids, sa.run.paths);
    assert(!instance_claims_file(inst_a, dir, f, out_a.ids));

    lemma_dir_fold_mono(s0, dir, idxs, a + 1, idxs.len() as int);
    assert(idxs.take(idxs.len() as int) =~= idxs);
    let fin = dir_fold(s0, dir, idxs);
    assert(forall|x: Seq<char>| out_a.ids.contains(x) ==> fin.run.ids.contains(x));

    assert(forall|k: int| 0 <= k < idxs.take(a).len() ==> idxs.take(a)[k] == idxs[k]);
    lemma_dir_fold_preserves_claimer(s0, dir, idxs.take(a), idxs[a]);
    let orig_a = s0.run.insts[idxs[a]];
    assert(inst_a.filter == orig_a.filter);
    assert(inst_a.transformer == orig_a.transformer);

    if instance_claims_file(orig_a, dir, f, fin.run.ids) {
        let input = InputIdView { dir_path: dir, file_path: f };
        assert(filter_set_accepts(inst_a.filter, f));
        assert(crate::transformer::kind_can_handle(inst_a.transformer, input));
        assert(out_a.ids.contains(kind_output_id(inst_a.transformer, input)));
        assert(fin.run.ids.contains(kind_output_id(orig_a.transformer, input)));
    }
}

/// The output path of the queued file at entry position (`q`, `j`).
pub open spec fn entry_output_path(inst: TransformerInstanceView, q: int, j: int) -> Seq<char> {
    file_output_path(inst, inst.input_queues[q].dir_path, inst.input_queues[q].files[j])
}

/// Whether some queued file of the instance will be written to the
/// relative output path `x`.
pub open spec fn instance_claimed_path(inst: TransformerInstanceView, x: Seq<char>) -> bool {
    exists|q: int, j: int| valid_queue_entry(inst, q, j) && entry_output_path(inst, q, j) == x
}

proof fn lemma_after_claim_paths(
    inst: TransformerInstanceView,
    dir: Seq<char>,
    claimed: Seq<Seq<char>>,
    x: Seq<char>,
)
    requires
        instance_claimed_path(instance_after_claim(inst, dir, claimed), x),
    ensures
        instance_claimed_path(inst, x) || exists|k: int|
            0 <= k < claimed.len() && file_output_path(inst, dir, claimed[k]) == x,
{
    let after = instance_after_claim(inst, dir, claimed);
    assert(after.transformer == inst.transformer);
    if claimed.len() == 0 {
        assert(after =~= inst);
    } else {
        let kq = crate::transformer::queue_dir_index(inst.input_queues, dir);
        lemma_queue_dir_index_range(inst.input_queues, dir);
        let (q, j) = choose|q: int, j: int|
            valid_queue_entry(after, q, j) && entry_output_path(after, q, j) == x;
        if kq == -1 {
            let n = inst.input_queues.len() as int;
            assert(after.input_queues == inst.input_queues.push(
                InputQueueView { dir_path: dir, files: claimed },
            ));
            if q < n {
                assert(after.input_queues[q] == inst.input_queues[q]);
                assert(valid_queue_entry(inst, q, j) && entry_output_path(inst, q, j) == x);
            } else {
                assert(after.input_queues[q] == (InputQueueView { dir_path: dir, files: claimed }));
                assert(file_output_path(inst, dir, claimed[j]) == x);
            }
        } else {
            let old_files = inst.input_queues[kq].files;
            assert(after.input_queues == inst.input_queues.update(
                kq,
                InputQueueView { dir_path: dir, files: old_files + claimed },
            ));
            assert(inst.input_queues[kq].dir_path == dir);
            if q != kq {
                assert(after.input_queues[q] == inst.input_queues[q]);
                assert(valid_queue_entry(inst, q, j) && entry_output_path(inst, q, j) == x);
            } else {
                if j < old_files.len() {
                    assert((old_files + claimed)[j] == old_files[j]);
                    assert(valid_queue_entry(inst, q, j) && entry_output_path(inst, q, j) == x);
                } else {
                    assert((old_files + claimed)[j] == claimed[j - old_files.len()]);
                    assert(file_output_path(inst, dir, claimed[j - old_files.len()]) == x);
                }
            }
        }
    }
}

/// The claimed-output-path set covers the queues: every queued file's
/// output path of every instance is recorded in it.
pub open spec fn paths_inv(s: RunState) -> bool {
    forall|i: int, x: Seq<char>|
        0 <= i < s.insts.len() && #[trigger] instance_claimed_path(s.insts[i], x)
            ==> s.paths.contains(x)
}

proof fn lemma_dir_step_paths_inv(s: DirState, dir: Seq<char>, i: int)
    requires
        paths_inv(s.run),
        0 <= i < s.run.insts.len(),
    ensures
        paths_inv(dir_step(s, dir, i).run),
{
    let out = claim_pass(s.run.insts[i], dir, s.pending, s.run.ids, s.run.paths);
    let s2 = dir_step(s, dir, i);
    lemma_claim_pass_facts(s.run.insts[i], dir, s.pending, s.run.ids, s.run.paths);
    let inst = s.run.insts[i];
    assert(forall|t: int|
        0 <= t < s.run.insts.len() && t != i ==> #[trigger] s2.run.insts[t] == s.run.insts[t]);
    assert forall|t: int, x: Seq<char>|
        0 <= t < s2.run.insts.len() && #[trigger] instance_claimed_path(
            s2.run.insts[t],
            x,
        ) implies s2.run.paths.contains(x) by {
        if t == i {
            lemma_after_claim_paths(inst, dir, out.claimed, x);
            if instance_claimed_path(inst, x) {
                assert(s.run.paths.contains(x));
            } else {
                let k = choose|k: int|
                    0 <= k < out.claimed.len() && file_output_path(inst, dir, out.claimed[k]) == x;
                assert(out.paths.contains(file_output_path(inst, dir, out.claimed[k])));
            }
        } else {
            assert(instance_claimed_path(s.run.insts[t], x));
        }
    }
}

proof fn lemma_dir_fold_paths_inv(s: DirState, dir: Seq<char>, idxs: Seq<int>)
    requires
        paths_inv(s.run),
        forall|k: int| 0 <= k < idxs.len() ==> 0 <= #[trigger] idxs[k] < s.run.insts.len(),
    ensures
        ({
            let s2 = dir_fold(s, dir, idxs);
            &&& paths_inv(s2.run)
            &&& s2.run.insts.len() == s.run.insts.len()
        }),
    decreases idxs.len(),
{
    if idxs.len() > 0 {
        lemma_dir_step_paths_inv(s, dir, idxs[0]);
        let s1 = dir_step(s, dir, idxs[0]);
        assert(forall|k: int|
            0 <= k < idxs.drop_first().len() ==> idxs.drop_first()[k] == idxs[k + 1]);
        lemma_dir_fold_paths_inv(s1, dir, idxs.drop_first());
    }
}

proof fn lemma_run_fold_paths_inv(
    run: RunState,
    idxs: Seq<int>,
    listings: Seq<DirectoryListingView>,
)
    requires
        paths_inv(run),
        forall|k: int| 0 <= k < idxs.len() ==> 0 <= #[trigger] idxs[k] < run.insts.len(),
    ensures
        ({
            let r2 = run_fold(run, idxs, listings);
            &&& paths_inv(r2)
            &&& r2.insts.len() == run.insts.len()
        }),
    decreases listings.len(),
{
    if listings.len() > 0 {
        let d = dir_fold(
            (DirState { run, pending: listings[0].files }),
            listings[0].dir_path,
            idxs,
        );
        lemma_dir_fold_paths_inv(
            (DirState { run, pending: listings[0].files }),
            listings[0].dir_path,
            idxs,
        );
        lemma_run_fold_paths_inv(d.run, idxs, listings.drop_first());
    }
}

/// Law: over a full run started from empty claimed sets and empty queues,
/// every queued file's output path ends up in the claimed-output-path set.
pub proof fn lemma_claimed_output_paths_recorded(
    insts: Seq<TransformerInstanceView>,
    ord: Seq<int>,
    listings: Seq<DirectoryListingView>,
    i: int,
    x: Seq<char>,
)
    requires
        forall|t: int| 0 <= t < insts.len() ==> (#[trigger] insts[t]).input_queues.len() == 0,
        forall|k: int| 0 <= k < ord.len() ==> 0 <= #[trigger] ord[k] < insts.len(),
        0 <= i < insts.len(),
    ensures
        ({
            let fin = run_fold(
                (RunState { insts, ids: Set::empty(), paths: Set::empty() }),
                ord,
                listings,
            );
            instance_claimed_path(fin.insts[i], x) ==> fin.paths.contains(x)
        }),
{
    let init = RunState { insts, ids: Set::empty(), paths: Set::empty() };
    assert forall|t: int, y: Seq<char>|
        0 <= t < init.insts.len() && #[trigger] instance_claimed_path(
            init.insts[t],
            y,
        ) implies init.paths.contains(y) by {
        let (q, j) = choose|q: int, j: int|
            valid_queue_entry(init.insts[t], q, j) && entry_output_path(init.insts[t], q, j) == y;
        assert(0 <= q < init.insts[t].input_queues.len());
    }
    lemma_run_fold_paths_inv(init, ord, listings);
}

/// Law: no live output is deleted — a file the run is about to write, the
/// output path of any queued file of any instance, is never in the sweep
/// plan computed from the run's claimed-output-path set.
pub proof fn lemma_live_outputs_never_swept(
    insts: Seq<TransformerInstanceView>,
    ord: Seq<int>,
    listings: Seq<DirectoryListingView>,
    found: Seq<Seq<char>>,
    i: int,
    x: Seq<char>,
)
    requires
        forall|t: int| 0 <= t < insts.len() ==> (#[trigger] insts[t]).input_queues.len() == 0,
        forall|k: int| 0 <= k < ord.len() ==> 0 <= #[trigger] ord[k] < insts.len(),
        0 <= i < insts.len(),
    ensures
        ({
            let fin = run_fold(
                (RunState { insts, ids: Set::empty(), paths: Set::empty() }),
                ord,
                listings,
            );
            instance_claimed_path(fin.insts[i], x) ==> !spec_orphans(found, fin.paths).contains(x)
        }),
{
    let fin = run_fold(
        (RunState { insts, ids: Set::empty(), paths: Set::empty() }),
        ord,
        listings,
    );
    lemma_claimed_output_paths_recorded(insts, ord, listings, i, x);
    lemma_sweep_partition(found, fin.paths);
}

/// Law: the sweep plan deletes exactly the found files that no claim
/// covers — every found file missing from the claimed-output-path set is
/// planned for deletion, and every planned deletion is a found file that
/// no claim covers; the found files that survive are exactly those the
/// claimed set holds.
pub proof fn lemma_sweep_partition(found: Seq<Seq<char>>, claimed: Set<Seq<char>>)
    ensures
        forall|f: Seq<char>|
            found.contains(f) && !claimed.contains(f) ==> #[trigger] spec_orphans(
                found,
                claimed,
            ).contains(f),
        forall|f: Seq<char>|
            #[trigger] spec_orphans(found, claimed).contains(f) ==> found.contains(f)
                && !claimed.contains(f),
    decreases found.len(),
{
    reveal(Seq::filter);
    if found.len() > 0 {
        lemma_sweep_partition(found.drop_last(), claimed);
        let o = spec_orphans(found, claimed);
        let prev = spec_orphans(found.drop_last(), claimed);
        assert(o == if !claimed.contains(found.last()) {
            prev.push(found.last())
        } else {
            prev
        });
        assert forall|f: Seq<char>| found.contains(f) && !claimed.contains(f) implies #[trigger]
        spec_orphans(found, claimed).contains(f) by {
            if f == found.last() {
                assert(o.last() == f);
            } else {
                let j = choose|j: int| 0 <= j < found.len() && found[j] == f;
                assert(found.drop_last()[j] == f);
                assert(found.drop_last().contains(f));
                assert(prev.contains(f));
                let jj = choose|jj: int| 0 <= jj < prev.len() && prev[jj] == f;
                assert(o[jj] == f);
            }
        }
        assert forall|f: Seq<char>| #[trigger]
        spec_orphans(found, claimed).contains(f) implies found.contains(f) && !claimed.contains(
            f,
        ) by {
            let j = choose|j: int| 0 <= j < o.len() && o[j] == f;
            if j < prev.len() {
                assert(prev[j] == f);
                assert(prev.contains(f));
                assert(found.drop_last().contains(f));
                let t = choose|t: int|
                    0 <= t < found.drop_last().len() && found.drop_last()[t] == f;
                assert(found[t] == f);
            } else {
                assert(f == found.last());
                assert(found.contains(f));
            }
        }
    }
}

} // verus!
