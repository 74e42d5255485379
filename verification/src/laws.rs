//! The guarantees every compiled document enjoys, stated over
//! `compile_model`: reference resolution, the strict elevation invariant
//! and its asymmetry, postcursor/precursor symmetry, and idempotence of
//! compilation up to numeric ids.

use vstd::prelude::*;

use crate::builder::apply_posts;
use crate::builder::back_edges;
use crate::builder::back_edges_from;
use crate::builder::collect_tasks_model;
use crate::builder::compile_model;
use crate::builder::insert_precursor;
use crate::builder::lemma_apply_posts_skeleton;
use crate::builder::lemma_back_edges_from_skeleton;
use crate::builder::lemma_check_edges_from_ok;
use crate::builder::lemma_compile_model_unique;
use crate::builder::lemma_insert_precursor_skeleton;
use crate::builder::preserves_skeleton;
use crate::errors::ErrModel;
use crate::grammar::parse_doc;
use crate::tasks::TaskModel;
use crate::tasks::find_name;
use crate::tasks::has_name;
use crate::tasks::lemma_find_name;

verus! {

/// Some task of `ts` is named `sname` and lists `pname` among its
/// precursors.
pub open spec fn has_precursor(ts: Seq<TaskModel>, sname: Seq<char>, pname: Seq<char>) -> bool {
    exists|si: int|
        0 <= si < ts.len() && (#[trigger] ts[si]).name == sname && ts[si].precursors.contains(
            pname,
        )
}

proof fn lemma_has_precursor_skeleton(
    a: Seq<TaskModel>,
    b: Seq<TaskModel>,
    sname: Seq<char>,
    pname: Seq<char>,
)
    requires
        preserves_skeleton(a, b),
        has_precursor(a, sname, pname),
    ensures
        has_precursor(b, sname, pname),
{
    let si = choose|si: int|
        0 <= si < a.len() && (#[trigger] a[si]).name == sname && a[si].precursors.contains(pname);
    assert(b[si].name == sname && b[si].precursors.contains(pname));
}

proof fn lemma_apply_posts_inserts(
    ts: Seq<TaskModel>,
    tname: Seq<char>,
    telev: int,
    posts: Seq<Seq<char>>,
    pi: int,
)
    requires
        0 <= pi,
    ensures
        apply_posts(ts, tname, telev, posts, pi) matches Result::Ok(out) ==> forall|j: int|
            pi <= j < posts.len() ==> has_precursor(out, #[trigger] posts[j], tname),
    decreases posts.len() - pi,
{
    if pi < posts.len() {
        let sname = posts[pi];
        let si = find_name(ts, sname);
        lemma_find_name(ts, sname);
        if si != -1 && telev > ts[si].elevation {
            let ins = insert_precursor(ts, si, tname);
            lemma_insert_precursor_skeleton(ts, si, tname);
            lemma_apply_posts_inserts(ins, tname, telev, posts, pi + 1);
            lemma_apply_posts_skeleton(ins, tname, telev, posts, pi + 1);
            if let Result::Ok(out) = apply_posts(ts, tname, telev, posts, pi) {
                assert(preserves_skeleton(ins, out));
                assert(ins[si].name == sname && ins[si].precursors.contains(tname));
                assert(out[si].name == sname && out[si].precursors.contains(tname));
                assert(has_precursor(out, posts[pi], tname));
            }
        }
    }
}

proof fn lemma_back_edges_inserts(snap: Seq<TaskModel>, ti: int, ts: Seq<TaskModel>)
    requires
        0 <= ti,
    ensures
        back_edges_from(snap, ti, ts) matches Result::Ok(out) ==> forall|i: int, j: int|
            #![trigger snap[i].postcursors[j]]
            ti <= i < snap.len() && 0 <= j < snap[i].postcursors.len() ==> has_precursor(
                out,
                snap[i].postcursors[j],
                snap[i].name,
            ),
    decreases snap.len() - ti,
{
    if ti < snap.len() {
        if let Result::Ok(ts2) = apply_posts(
            ts,
            snap[ti].name,
            snap[ti].elevation,
            snap[ti].postcursors,
            0,
        ) {
            lemma_apply_posts_inserts(ts, snap[ti].name, snap[ti].elevation, snap[ti].postcursors, 0);
            lemma_back_edges_inserts(snap, ti + 1, ts2);
            lemma_back_edges_from_skeleton(snap, ti + 1, ts2);
            if let Result::Ok(out) = back_edges_from(snap, ti + 1, ts2) {
                assert forall|i: int, j: int|
                    #![trigger snap[i].postcursors[j]]
                    ti <= i < snap.len() && 0 <= j < snap[i].postcursors.len() implies has_precursor(
                    out,
                    snap[i].postcursors[j],
                    snap[i].name,
                ) by {
                    if i == ti {
                        assert(has_precursor(ts2, snap[ti].postcursors[j], snap[ti].name));
                        lemma_has_precursor_skeleton(
                            ts2,
                            out,
                            snap[ti].postcursors[j],
                            snap[ti].name,
                        );
                    }
                }
            }
        }
    }
}

/// Reference resolution: in every successfully compiled document, every
/// name in every task's precursor and postcursor list names a declared
/// task of the compiled map. (On any unresolved name, compilation fails
/// instead, with the reference error `compile_model` pins down.)
pub proof fn lemma_references_resolve(s: Seq<char>)
    ensures
        compile_model(s) matches Result::Ok(ms) ==> forall|i: int, j: int|
            #![trigger ms[i].precursors[j]]
            0 <= i < ms.len() && 0 <= j < ms[i].precursors.len() ==> has_name(
                ms,
                ms[i].precursors[j],
            ),
        compile_model(s) matches Result::Ok(ms) ==> forall|i: int, j: int|
            #![trigger ms[i].postcursors[j]]
            0 <= i < ms.len() && 0 <= j < ms[i].postcursors.len() ==> has_name(
                ms,
                ms[i].postcursors[j],
            ),
{
    if let Result::Ok(ms) = compile_model(s) {
        lemma_check_edges_from_ok(ms, 0);
        assert forall|i: int, j: int|
            #![trigger ms[i].precursors[j]]
            0 <= i < ms.len() && 0 <= j < ms[i].precursors.len() implies has_name(
            ms,
            ms[i].precursors[j],
        ) by {
            let k = find_name(ms, ms[i].precursors[j]);
            assert(0 <= k < ms.len() && ms[k].name == ms[i].precursors[j]);
        }
        lemma_postcursor_symmetry(s);
        assert forall|i: int, j: int|
            #![trigger ms[i].postcursors[j]]
            0 <= i < ms.len() && 0 <= j < ms[i].postcursors.len() implies has_name(
            ms,
            ms[i].postcursors[j],
        ) by {
            assert(has_precursor(ms, ms[i].postcursors[j], ms[i].name));
            let si = choose|si: int|
                0 <= si < ms.len() && (#[trigger] ms[si]).name == ms[i].postcursors[j]
                    && ms[si].precursors.contains(ms[i].name);
            assert(0 <= si < ms.len() && ms[si].name == ms[i].postcursors[j]);
        }
    }
}

/// The elevation invariant: along every precursor edge of a compiled
/// map, the depending task sits strictly below the task it depends on.
/// Strict decrease along every edge makes the precursor relation a
/// strict partial order — acyclic by construction, with no graph search.
pub proof fn lemma_elevation_invariant(s: Seq<char>)
    ensures
        compile_model(s) matches Result::Ok(ms) ==> forall|i: int, j: int|
            #![trigger ms[i].precursors[j]]
            0 <= i < ms.len() && 0 <= j < ms[i].precursors.len() ==> {
                let k = find_name(ms, ms[i].precursors[j]);
                &&& 0 <= k < ms.len()
                &&& ms[k].name == ms[i].precursors[j]
                &&& ms[i].elevation < ms[k].elevation
            },
{
    if let Result::Ok(ms) = compile_model(s) {
        lemma_check_edges_from_ok(ms, 0);
    }
}

/// Asymmetry, a corollary of strict elevation decrease: no compiled task
/// is its own precursor, and no two tasks are precursors of each other.
pub proof fn lemma_precursor_asymmetry(s: Seq<char>)
    ensures
        compile_model(s) matches Result::Ok(ms) ==> forall|i: int|
            0 <= i < ms.len() ==> !(#[trigger] ms[i].precursors.contains(ms[i].name)),
        compile_model(s) matches Result::Ok(ms) ==> forall|i: int, m: int|
            0 <= i < ms.len() && 0 <= m < ms.len() && (#[trigger] ms[i].precursors.contains(
                ms[m].name,
            )) ==> !ms[m].precursors.contains(ms[i].name),
{
    if let Result::Ok(ms) = compile_model(s) {
        lemma_check_edges_from_ok(ms, 0);
        lemma_compile_model_unique(s);
        assert forall|i: int, m: int|
            0 <= i < ms.len() && 0 <= m < ms.len() && (#[trigger] ms[i].precursors.contains(
                ms[m].name,
            )) implies ms[i].elevation < ms[m].elevation by {
            let j = choose|j: int|
                0 <= j < ms[i].precursors.len() && ms[i].precursors[j] == ms[m].name;
            assert(ms[i].precursors[j] == ms[m].name);
            let k = find_name(ms, ms[i].precursors[j]);
            assert(0 <= k < ms.len() && ms[k].name == ms[m].name && ms[i].elevation
                < ms[k].elevation);
            if k != m {
                assert(ms[k].name != ms[m].name);
            }
        }
        assert forall|i: int| 0 <= i < ms.len() implies !(#[trigger] ms[i].precursors.contains(
            ms[i].name,
        )) by {
            if ms[i].precursors.contains(ms[i].name) {
                assert(ms[i].elevation < ms[i].elevation);
            }
        }
    }
}

/// Postcursor/precursor symmetry: whenever a compiled task `T` still
/// lists `S` among its postcursors, the task named `S` lists `T`'s name
/// among its precursors.
pub proof fn lemma_postcursor_symmetry(s: Seq<char>)
    ensures
        compile_model(s) matches Result::Ok(ms) ==> forall|i: int, j: int|
            #![trigger ms[i].postcursors[j]]
            0 <= i < ms.len() && 0 <= j < ms[i].postcursors.len() ==> has_precursor(
                ms,
                ms[i].postcursors[j],
                ms[i].name,
            ),
{
    if let Result::Ok(ms) = compile_model(s) {
        if let Result::Ok(items) = parse_doc(s) {
            let ts0 = collect_tasks_model(items);
            lemma_back_edges_inserts(ts0, 0, ts0);
            lemma_back_edges_from_skeleton(ts0, 0, ts0);
            assert(back_edges(ts0) == Result::<Seq<TaskModel>, ErrModel>::Ok(ms));
            assert(preserves_skeleton(ts0, ms));
            assert forall|i: int, j: int|
                #![trigger ms[i].postcursors[j]]
                0 <= i < ms.len() && 0 <= j < ms[i].postcursors.len() implies has_precursor(
                ms,
                ms[i].postcursors[j],
                ms[i].name,
            ) by {
                assert(ms[i].postcursors == ts0[i].postcursors);
                assert(ms[i].name == ts0[i].name);
                assert(has_precursor(ms, ts0[i].postcursors[j], ts0[i].name));
            }
        }
    }
}

/// Idempotence: two compilations of the same document yield maps of
/// identical structure — the same names in the same order, each with the
/// same precursor-name set. Only the numeric ids, drawn from the
/// process-wide allocator and absent from `TaskModel`, may differ
/// between two runs.
pub proof fn lemma_compile_idempotent(s: Seq<char>, ts1: Seq<TaskModel>, ts2: Seq<TaskModel>)
    requires
        compile_model(s) == Result::<Seq<TaskModel>, ErrModel>::Ok(ts1),
        compile_model(s) == Result::<Seq<TaskModel>, ErrModel>::Ok(ts2),
    ensures
        ts1.len() == ts2.len(),
        forall|i: int|
            0 <= i < ts1.len() ==> (#[trigger] ts1[i]).name == ts2[i].name && ts1[i].precursors
                == ts2[i].precursors,
{
}

} // verus!
