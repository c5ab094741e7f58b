//! The level-of-detail graph store: a loaded snapshot and the aggregate
//! edge bundles the package and file views are drawn from.
use vstd::prelude::*;

use crate::lod::FileNode;
use crate::lod::GraphSnapshot;
use crate::lod::PackageNode;

verus! {

/// A directed aggregate edge with a bundle weight.
#[derive(Debug, Clone)]
pub struct AggregateEdge {
    pub source: String,
    pub target: String,
    pub weight: u32,
}

/// Number of entries equal to `tgt` among the first `k` imports.
pub open spec fn import_cnt_in(imports: Seq<String>, tgt: Seq<char>, k: int) -> int
    decreases k,
{
    if k <= 0 {
        0
    } else {
        import_cnt_in(imports, tgt, k - 1) + if imports[k - 1]@ == tgt {
            1int
        } else {
            0int
        }
    }
}

/// Number of (file, import) pairs equal to `(src, tgt)` among the first
/// `fk` files.
pub open spec fn import_pair_cnt(files: Seq<FileNode>, src: Seq<char>, tgt: Seq<char>, fk: int) -> int
    decreases fk,
{
    if fk <= 0 {
        0
    } else {
        import_pair_cnt(files, src, tgt, fk - 1) + if files[fk - 1].id@ == src {
            import_cnt_in(files[fk - 1].imports@, tgt, files[fk - 1].imports@.len() as int)
        } else {
            0
        }
    }
}

/// Number of such pairs among the fully processed files below `fi` plus
/// the first `ii` imports of file `fi`.
pub open spec fn pair_cnt_pref(
    files: Seq<FileNode>,
    src: Seq<char>,
    tgt: Seq<char>,
    fi: int,
    ii: int,
) -> int {
    import_pair_cnt(files, src, tgt, fi) + if 0 <= fi < files.len() && files[fi].id@ == src {
        import_cnt_in(files[fi].imports@, tgt, ii)
    } else {
        0
    }
}

/// Pair counts are never negative.
pub proof fn lemma_pair_cnt_nonneg(files: Seq<FileNode>, src: Seq<char>, tgt: Seq<char>, fk: int)
    ensures
        import_pair_cnt(files, src, tgt, fk) >= 0,
    decreases fk,
{
    if fk > 0 {
        lemma_pair_cnt_nonneg(files, src, tgt, fk - 1);
        lemma_import_cnt_nonneg(files[fk - 1].imports@, tgt, files[fk - 1].imports@.len() as int);
    }
}

proof fn lemma_import_cnt_nonneg(imports: Seq<String>, tgt: Seq<char>, k: int)
    ensures
        import_cnt_in(imports, tgt, k) >= 0,
        k >= 0 ==> import_cnt_in(imports, tgt, k) <= k,
    decreases k,
{
    if k > 0 {
        lemma_import_cnt_nonneg(imports, tgt, k - 1);
    }
}

/// Whether some package in the snapshot has the given id and owns the
/// given file id.
pub open spec fn pkg_owns(pkgs: Seq<PackageNode>, pkg: Seq<char>, file: Seq<char>) -> bool {
    exists|p: int, fi: int|
        0 <= p < pkgs.len() && 0 <= fi < pkgs[p].file_ids@.len() && (#[trigger] pkgs[p].id)@ == pkg
            && (#[trigger] pkgs[p].file_ids@[fi])@ == file
}

/// A multiplicity saturated at the weight type's ceiling.
pub open spec fn capped_weight(x: int) -> int {
    if x < 0xFFFF_FFFF {
        x
    } else {
        0xFFFF_FFFF
    }
}

/// A list of aggregate edges with pairwise-distinct endpoint pairs and
/// positive weights.
pub open spec fn distinct_edges(r: Seq<AggregateEdge>) -> bool {
    &&& forall|a: int, b: int|
        0 <= a < b < r.len() ==> !((#[trigger] r[a]).source@ == (#[trigger] r[b]).source@
            && r[a].target@ == r[b].target@)
    &&& forall|a: int| 0 <= a < r.len() ==> (#[trigger] r[a]).weight >= 1
}

/// The store: the loaded snapshot and the bundles built from it.
pub struct GraphStore {
    pub snapshot: Option<GraphSnapshot>,
    /// One entry per distinct (source file, imported file) pair.
    pub file_edges: Vec<AggregateEdge>,
    /// One entry per distinct cross-package (source, target) pair.
    pub pkg_edges: Vec<AggregateEdge>,
    /// Ids of nodes the caller has expanded.
    pub expanded_nodes: Vec<String>,
}

impl GraphStore {
    /// An empty store.
    pub fn new() -> (r: GraphStore)
        ensures
            r.snapshot is None,
            r.file_edges@.len() == 0,
            r.pkg_edges@.len() == 0,
            r.expanded_nodes@.len() == 0,
    {
        GraphStore {
            snapshot: None,
            file_edges: Vec::new(),
            pkg_edges: Vec::new(),
            expanded_nodes: Vec::new(),
        }
    }

    /// Bundle the file import lists into one weighted edge per distinct
    /// (source, target) pair: the pairs reported are distinct, every
    /// occurring pair is reported, and each weight is that pair's exact
    /// multiplicity (saturated at the weight type's ceiling).
    #[verifier::loop_isolation(false)]
    pub fn compute_file_edges(&self, files: &Vec<FileNode>) -> (r: Vec<AggregateEdge>)
        ensures
            distinct_edges(r@),
            forall|a: int|
                0 <= a < r@.len() ==> (#[trigger] r@[a]).weight as int == capped_weight(
                    import_pair_cnt(files@, r@[a].source@, r@[a].target@, files@.len() as int),
                ),
            forall|src: Seq<char>, tgt: Seq<char>|
                #[trigger] import_pair_cnt(files@, src, tgt, files@.len() as int) > 0
                    ==> exists|a: int|
                    0 <= a < r@.len() && (#[trigger] r@[a]).source@ == src && r@[a].target@ == tgt,
    {
        let fl = files.len();
        let mut r: Vec<AggregateEdge> = Vec::new();
        let mut fi: usize = 0;
        while fi < fl
            invariant
                fi <= fl,
                distinct_edges(r@),
                forall|a: int|
                    0 <= a < r@.len() ==> (#[trigger] r@[a]).weight as int == capped_weight(
                        pair_cnt_pref(files@, r@[a].source@, r@[a].target@, fi as int, 0),
                    ),
                forall|src: Seq<char>, tgt: Seq<char>|
                    #[trigger] pair_cnt_pref(files@, src, tgt, fi as int, 0) > 0 ==> exists|a: int|
                        0 <= a < r@.len() && (#[trigger] r@[a]).source@ == src && r@[a].target@
                            == tgt,
            decreases fl - fi,
        {
            let imports_len = files[fi].imports.len();
            let mut ii: usize = 0;
            while ii < imports_len
                invariant
                    ii <= imports_len,
                    fi < fl,
                    imports_len == files@[fi as int].imports@.len(),
                    distinct_edges(r@),
                    forall|a: int|
                        0 <= a < r@.len() ==> (#[trigger] r@[a]).weight as int == capped_weight(
                            pair_cnt_pref(files@, r@[a].source@, r@[a].target@, fi as int, ii as int),
                        ),
                    forall|src: Seq<char>, tgt: Seq<char>|
                        #[trigger] pair_cnt_pref(files@, src, tgt, fi as int, ii as int) > 0
                            ==> exists|a: int|
                            0 <= a < r@.len() && (#[trigger] r@[a]).source@ == src && r@[a].target@
                                == tgt,
                decreases imports_len - ii,
            {
                let src = &files[fi].id;
                let tgt = &files[fi].imports[ii];
                let mut found: Option<usize> = None;
                let rl = r.len();
                let mut a: usize = 0;
                while a < rl
                    invariant
                        a <= rl,
                        rl == r@.len(),
                        match found {
                            Some(x) => x < rl && r@[x as int].source@ == src@ && r@[
                                x as int].target@ == tgt@,
                            None => forall|b: int|
                                0 <= b < a ==> !((#[trigger] r@[b]).source@ == src@ && r@[b].target@
                                    == tgt@),
                        },
                    decreases rl - a,
                {
                    if found.is_none() && r[a].source.eq(src) && r[a].target.eq(tgt) {
                        found = Some(a);
                    }
                    a = a + 1;
                }
                proof {
                    lemma_pair_cnt_nonneg(files@, src@, tgt@, fi as int);
                    lemma_import_cnt_nonneg(files@[fi as int].imports@, tgt@, ii as int);
                }
                let ghost r0 = r@;
                match found {
                    Some(x) => {
                        let w = r[x].weight;
                        if w < u32::MAX {
                            let kept_source = r[x].source.clone();
                            let kept_target = r[x].target.clone();
                            r[x] = AggregateEdge {
                                source: kept_source,
                                target: kept_target,
                                weight: w + 1,
                            };
                        }
                        proof {
                            assert forall|b: int|
                                0 <= b < r@.len() implies (#[trigger] r@[b]).weight as int
                                == capped_weight(
                                pair_cnt_pref(
                                    files@,
                                    r@[b].source@,
                                    r@[b].target@,
                                    fi as int,
                                    ii as int + 1,
                                ),
                            ) by {
                                lemma_pair_cnt_nonneg(files@, r@[b].source@, r@[b].target@, fi as int);
                                lemma_import_cnt_nonneg(
                                    files@[fi as int].imports@,
                                    r@[b].target@,
                                    ii as int,
                                );
                            }
                        }
                    },
                    None => {
                        proof {
                            // an unseen pair has no prior occurrences,
                            // else the completeness invariant would have
                            // produced an entry
                            assert(pair_cnt_pref(files@, src@, tgt@, fi as int, ii as int) <= 0);
                        }
                        r.push(AggregateEdge { source: src.clone(), target: tgt.clone(), weight: 1 });
                        proof {
                            assert forall|b: int|
                                0 <= b < r@.len() implies (#[trigger] r@[b]).weight as int
                                == capped_weight(
                                pair_cnt_pref(
                                    files@,
                                    r@[b].source@,
                                    r@[b].target@,
                                    fi as int,
                                    ii as int + 1,
                                ),
                            ) by {
                                lemma_pair_cnt_nonneg(files@, r@[b].source@, r@[b].target@, fi as int);
                                lemma_import_cnt_nonneg(
                                    files@[fi as int].imports@,
                                    r@[b].target@,
                                    ii as int,
                                );
                            }
                        }
                    },
                }
                proof {
                    assert forall|src2: Seq<char>, tgt2: Seq<char>|
                        #[trigger] pair_cnt_pref(files@, src2, tgt2, fi as int, ii as int + 1) > 0
                        implies exists|a: int|
                        0 <= a < r@.len() && (#[trigger] r@[a]).source@ == src2 && r@[a].target@
                            == tgt2 by {
                        lemma_pair_cnt_nonneg(files@, src2, tgt2, fi as int);
                        lemma_import_cnt_nonneg(files@[fi as int].imports@, tgt2, ii as int);
                        if pair_cnt_pref(files@, src2, tgt2, fi as int, ii as int) > 0 {
                            let a0 = choose|a: int|
                                0 <= a < r0.len() && (#[trigger] r0[a]).source@ == src2 && r0[
                                    a].target@ == tgt2;
                            assert(r@[a0].source@ == src2 && r@[a0].target@ == tgt2);
                        } else {
                            assert(src2 == src@ && tgt2 == tgt@);
                            if found is Some {
                                let x = found->Some_0;
                                assert(r@[x as int].source@ == src2 && r@[x as int].target@
                                    == tgt2);
                            } else {
                                assert(r@[r@.len() - 1].source@ == src2 && r@[r@.len()
                                    - 1].target@ == tgt2);
                            }
                        }
                    }
                }
                ii = ii + 1;
            }
            proof {
                assert forall|src: Seq<char>, tgt: Seq<char>|
                    #[trigger] pair_cnt_pref(files@, src, tgt, fi as int + 1, 0) > 0 implies exists|
                    a: int,
                |
                    0 <= a < r@.len() && (#[trigger] r@[a]).source@ == src && r@[a].target@
                        == tgt by {
                    assert(pair_cnt_pref(files@, src, tgt, fi as int + 1, 0) == pair_cnt_pref(
                        files@,
                        src,
                        tgt,
                        fi as int,
                        imports_len as int,
                    ));
                }
                assert forall|a: int|
                    0 <= a < r@.len() implies (#[trigger] r@[a]).weight as int == capped_weight(
                    pair_cnt_pref(files@, r@[a].source@, r@[a].target@, fi as int + 1, 0),
                ) by {
                    assert(pair_cnt_pref(files@, r@[a].source@, r@[a].target@, fi as int + 1, 0)
                        == pair_cnt_pref(
                        files@,
                        r@[a].source@,
                        r@[a].target@,
                        fi as int,
                        imports_len as int,
                    ));
                }
            }
            fi = fi + 1;
        }
        proof {
            assert forall|src: Seq<char>, tgt: Seq<char>|
                #[trigger] import_pair_cnt(files@, src, tgt, files@.len() as int) > 0
                implies exists|a: int|
                0 <= a < r@.len() && (#[trigger] r@[a]).source@ == src && r@[a].target@ == tgt by {
                assert(pair_cnt_pref(files@, src, tgt, fl as int, 0) == import_pair_cnt(
                    files@,
                    src,
                    tgt,
                    fl as int,
                ));
            }
        }
        r
    }

    /// Bundle cross-package imports: per distinct pair of distinct
    /// packages that own an importing and an imported file, one edge.
    #[verifier::loop_isolation(false)]
    pub fn compute_package_edges(&self, snapshot: &GraphSnapshot, file_edges: &Vec<
        AggregateEdge,
    >) -> (r: Vec<AggregateEdge>)
        ensures
            distinct_edges(r@),
            forall|a: int| 0 <= a < r@.len() ==> (#[trigger] r@[a]).source@ != r@[a].target@,
    {
        let el = file_edges.len();
        let mut r: Vec<AggregateEdge> = Vec::new();
        let mut e: usize = 0;
        while e < el
            invariant
                e <= el,
                el == file_edges@.len(),
                distinct_edges(r@),
                forall|a: int| 0 <= a < r@.len() ==> (#[trigger] r@[a]).source@ != r@[a].target@,
            decreases el - e,
        {
            let src_pkg = self.find_package(snapshot, &file_edges[e].source);
            let tgt_pkg = self.find_package(snapshot, &file_edges[e].target);
            match (src_pkg, tgt_pkg) {
                (Some(sp), Some(tp)) => {
                    if !sp.eq(&tp) {
                        let mut found = false;
                        let rl = r.len();
                        let mut a: usize = 0;
                        while a < rl
                            invariant
                                a <= rl,
                                rl == r@.len(),
                                found ==> exists|b: int|
                                    0 <= b < rl && (#[trigger] r@[b]).source@ == sp@ && r@[
                                        b].target@ == tp@,
                                !found ==> forall|b: int|
                                    0 <= b < a ==> !((#[trigger] r@[b]).source@ == sp@ && r@[
                                        b].target@ == tp@),
                            decreases rl - a,
                        {
                            if !found && r[a].source.eq(&sp) && r[a].target.eq(&tp) {
                                found = true;
                            }
                            a = a + 1;
                        }
                        if !found {
                            r.push(AggregateEdge { source: sp, target: tp, weight: 1 });
                        }
                    }
                },
                _ => {},
            }
            e = e + 1;
        }
        r
    }

    /// The id of the package that owns the given file id, if any.
    #[verifier::loop_isolation(false)]
    fn find_package(&self, snapshot: &GraphSnapshot, file_id: &String) -> (r: Option<String>)
        ensures
            r is Some ==> pkg_owns(snapshot.packages@, r->Some_0@, file_id@),
    {
        let pl = snapshot.packages.len();
        let mut p: usize = 0;
        while p < pl
            invariant
                p <= pl,
                pl == snapshot.packages@.len(),
            decreases pl - p,
        {
            let fl = snapshot.packages[p].file_ids.len();
            let mut fi: usize = 0;
            while fi < fl
                invariant
                    fi <= fl,
                    p < pl,
                    fl == snapshot.packages@[p as int].file_ids@.len(),
                decreases fl - fi,
            {
                if snapshot.packages[p].file_ids[fi].eq(file_id) {
                    return Some(snapshot.packages[p].id.clone());
                }
                fi = fi + 1;
            }
            p = p + 1;
        }
        None
    }

    /// Load a snapshot: bundle its file- and package-level edges and store
    /// everything, replacing earlier state.
    pub fn load_snapshot(&mut self, snapshot: GraphSnapshot)
        ensures
            final(self).snapshot is Some,
            final(self).snapshot->Some_0.files@ == snapshot.files@,
            final(self).snapshot->Some_0.packages@ == snapshot.packages@,
            final(self).snapshot->Some_0.functions@ == snapshot.functions@,
            distinct_edges(final(self).file_edges@),
            distinct_edges(final(self).pkg_edges@),
            forall|a: int|
                0 <= a < final(self).file_edges@.len()
                    ==> (#[trigger] final(self).file_edges@[a]).weight as int == capped_weight(
                    import_pair_cnt(
                        snapshot.files@,
                        final(self).file_edges@[a].source@,
                        final(self).file_edges@[a].target@,
                        snapshot.files@.len() as int,
                    ),
                ),
            final(self).expanded_nodes@ == old(self).expanded_nodes@,
    {
        let file_edges = self.compute_file_edges(&snapshot.files);
        let pkg_edges = self.compute_package_edges(&snapshot, &file_edges);
        self.file_edges = file_edges;
        self.pkg_edges = pkg_edges;
        self.snapshot = Some(snapshot);
    }
}

} // verus!
