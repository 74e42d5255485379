//! The graph builder and validator: assembles the tokenizer's items into a
//! name-keyed task map and validates it in sequential passes.
//!
//! - **Collection** walks the items in document order, tracking an
//!   elevation counter that starts at 0 and drops by one at every tier
//!   delimiter; each declaration becomes a task at the current elevation,
//!   and a redeclared name replaces the earlier task (last write wins).
//! - **Back-edge resolution** turns every after-relation into the
//!   reciprocal precursor edge: for `S` in `T`'s postcursors, `T.name` is
//!   inserted into `S`'s precursors, provided `S` is declared and sits
//!   strictly below `T`'s elevation.
//! - **Forward validation** checks every precursor edge: the precursor
//!   must be declared and must sit strictly above the depending task.
//! - **Id resolution** translates every precursor name into the id that
//!   collection assigned, in precursor-list order.
//!
//! Acyclicity is never computed by graph search: strict elevation decrease
//! along every edge is a strict partial order, so a cycle would need a
//! task strictly below itself. Any failure aborts the whole compilation.

use vstd::prelude::*;

use crate::errors::CompileError;
use crate::errors::ErrModel;
use crate::grammar::DagParser;
use crate::grammar::DeclModel;
use crate::grammar::ItemModel;
use crate::grammar::NodeDecl;
use crate::grammar::StructuralItem;
use crate::grammar::items_model;
use crate::grammar::parse_doc;
use crate::tasks::ActionModel;
use crate::tasks::MyTask;
use crate::tasks::TaskAction;
use crate::tasks::TaskModel;
use crate::tasks::dedup_names;
use crate::tasks::find_name;
use crate::tasks::find_task;
use crate::tasks::lemma_find_name;
use crate::tasks::push_unique;
use crate::tasks::shapes_of;
use crate::tasks::tasks_names_unique;

verus! {

// ---------------------------------------------------------------------------
// Extraction
// ---------------------------------------------------------------------------

/// The draft task a declaration yields at a given elevation: name as
/// declared, relation lists collapsed to set semantics, command taken
/// verbatim with an inert no-op substituted when absent. A name standing
/// in both lists is left as-is; the validator settles any conflict.
pub open spec fn extract_model(d: DeclModel, elevation: int) -> TaskModel {
    TaskModel {
        name: d.name,
        elevation: elevation,
        precursors: dedup_names(d.before),
        postcursors: dedup_names(d.after),
        action: match d.command {
            Option::None => ActionModel::NoOp,
            Option::Some(c) => ActionModel::Command(c),
        },
    }
}

// ---------------------------------------------------------------------------
// Pass A — collection
// ---------------------------------------------------------------------------

/// Inserts a task into the map: replaces the task already carrying its
/// name, or appends it.
pub open spec fn upsert_task(ts: Seq<TaskModel>, t: TaskModel) -> Seq<TaskModel> {
    let k = find_name(ts, t.name);
    if k == -1 {
        ts.push(t)
    } else {
        ts.update(k, t)
    }
}

/// Collection from item `i` on, with the running elevation counter and
/// the map built so far.
pub open spec fn collect_from(
    items: Seq<ItemModel>,
    i: int,
    elevation: int,
    ts: Seq<TaskModel>,
) -> Seq<TaskModel>
    decreases items.len() - i,
{
    if i < 0 || i >= items.len() {
        ts
    } else {
        match items[i] {
            ItemModel::Shelf => collect_from(items, i + 1, elevation - 1, ts),
            ItemModel::Node(d) => collect_from(
                items,
                i + 1,
                elevation,
                upsert_task(ts, extract_model(d, elevation)),
            ),
        }
    }
}

/// The task map collection builds from a whole item sequence.
pub open spec fn collect_tasks_model(items: Seq<ItemModel>) -> Seq<TaskModel> {
    collect_from(items, 0, 0, Seq::empty())
}

pub proof fn lemma_upsert_unique(ts: Seq<TaskModel>, t: TaskModel)
    requires
        tasks_names_unique(ts),
    ensures
        tasks_names_unique(upsert_task(ts, t)),
{
    lemma_find_name(ts, t.name);
    let k = find_name(ts, t.name);
    if k == -1 {
        let out = ts.push(t);
        assert forall|i: int, j: int| 0 <= i < j < out.len() implies out[i].name != out[j].name by {
            if j == out.len() - 1 {
                assert(out[i] == ts[i]);
            }
        }
    }
}

pub proof fn lemma_collect_from_unique(
    items: Seq<ItemModel>,
    i: int,
    elevation: int,
    ts: Seq<TaskModel>,
)
    requires
        tasks_names_unique(ts),
    ensures
        tasks_names_unique(collect_from(items, i, elevation, ts)),
    decreases items.len() - i,
{
    if 0 <= i < items.len() {
        match items[i] {
            ItemModel::Shelf => {
                lemma_collect_from_unique(items, i + 1, elevation - 1, ts);
            },
            ItemModel::Node(d) => {
                lemma_upsert_unique(ts, extract_model(d, elevation));
                lemma_collect_from_unique(
                    items,
                    i + 1,
                    elevation,
                    upsert_task(ts, extract_model(d, elevation)),
                );
            },
        }
    }
}

/// Every name map the collection pass builds is duplicate-free.
pub proof fn lemma_collect_unique(items: Seq<ItemModel>)
    ensures
        tasks_names_unique(collect_tasks_model(items)),
{
    lemma_collect_from_unique(items, 0, 0, Seq::empty());
}

// ---------------------------------------------------------------------------
// Pass B — back-edge resolution
// ---------------------------------------------------------------------------

/// Adds `pname` to the precursor set of the task at `si`.
pub open spec fn insert_precursor(ts: Seq<TaskModel>, si: int, pname: Seq<char>) -> Seq<TaskModel> {
    ts.update(
        si,
        TaskModel {
            name: ts[si].name,
            elevation: ts[si].elevation,
            precursors: push_unique(ts[si].precursors, pname),
            postcursors: ts[si].postcursors,
            action: ts[si].action,
        },
    )
}

/// Resolves the postcursors of one task `tname` (at elevation `telev`)
/// from index `pi` on: each named successor must be declared and must sit
/// strictly below `telev`, and then gains `tname` as a precursor.
pub open spec fn apply_posts(
    ts: Seq<TaskModel>,
    tname: Seq<char>,
    telev: int,
    posts: Seq<Seq<char>>,
    pi: int,
) -> Result<Seq<TaskModel>, ErrModel>
    decreases posts.len() - pi,
{
    if pi < 0 || pi >= posts.len() {
        Result::Ok(ts)
    } else {
        let sname = posts[pi];
        let si = find_name(ts, sname);
        if si == -1 {
            Result::Err(ErrModel::Reference { task: tname, missing: sname })
        } else if telev <= ts[si].elevation {
            Result::Err(
                ErrModel::Ordering {
                    task: tname,
                    task_elevation: telev,
                    other: sname,
                    other_elevation: ts[si].elevation,
                    other_is_successor: true,
                },
            )
        } else {
            apply_posts(insert_precursor(ts, si, tname), tname, telev, posts, pi + 1)
        }
    }
}

/// Back-edge resolution from task `ti` of the snapshot on: the map with
/// every after-relation of the remaining tasks turned into a precursor
/// edge, or the first error. The snapshot `snap` is the map as collection
/// left it; only precursor sets change, so names, elevations and
/// postcursors read from it stay current.
pub open spec fn back_edges_from(snap: Seq<TaskModel>, ti: int, ts: Seq<TaskModel>) -> Result<
    Seq<TaskModel>,
    ErrModel,
>
    decreases snap.len() - ti,
{
    if ti < 0 || ti >= snap.len() {
        Result::Ok(ts)
    } else {
        match apply_posts(ts, snap[ti].name, snap[ti].elevation, snap[ti].postcursors, 0) {
            Result::Err(e) => Result::Err(e),
            Result::Ok(ts2) => back_edges_from(snap, ti + 1, ts2),
        }
    }
}

/// The whole back-edge pass.
pub open spec fn back_edges(ts: Seq<TaskModel>) -> Result<Seq<TaskModel>, ErrModel> {
    back_edges_from(ts, 0, ts)
}

/// What one back-edge step preserves: length, names, elevations,
/// postcursors and actions stay; precursor sets only grow.
pub open spec fn preserves_skeleton(ts: Seq<TaskModel>, out: Seq<TaskModel>) -> bool {
    &&& out.len() == ts.len()
    &&& forall|k: int|
        0 <= k < ts.len() ==> {
            &&& (#[trigger] out[k]).name == ts[k].name
            &&& out[k].elevation == ts[k].elevation
            &&& out[k].postcursors == ts[k].postcursors
            &&& out[k].action == ts[k].action
            &&& forall|m: Seq<char>|
                ts[k].precursors.contains(m) ==> #[trigger] out[k].precursors.contains(m)
        }
}

pub proof fn lemma_insert_precursor_skeleton(ts: Seq<TaskModel>, si: int, pname: Seq<char>)
    requires
        0 <= si < ts.len(),
    ensures
        preserves_skeleton(ts, insert_precursor(ts, si, pname)),
        insert_precursor(ts, si, pname)[si].precursors.contains(pname),
    {
    let out = insert_precursor(ts, si, pname);
    crate::tasks::lemma_push_unique_contains(ts[si].precursors, pname);
    assert forall|k: int| 0 <= k < ts.len() implies {
        &&& (#[trigger] out[k]).name == ts[k].name
        &&& out[k].elevation == ts[k].elevation
        &&& out[k].postcursors == ts[k].postcursors
        &&& out[k].action == ts[k].action
        &&& forall|m: Seq<char>|
            ts[k].precursors.contains(m) ==> #[trigger] out[k].precursors.contains(m)
    } by {
        if k != si {
            assert(out[k] == ts[k]);
        }
    }
}

pub proof fn lemma_preserves_skeleton_trans(
    a: Seq<TaskModel>,
    b: Seq<TaskModel>,
    c: Seq<TaskModel>,
)
    requires
        preserves_skeleton(a, b),
        preserves_skeleton(b, c),
    ensures
        preserves_skeleton(a, c),
{
}

pub proof fn lemma_apply_posts_skeleton(
    ts: Seq<TaskModel>,
    tname: Seq<char>,
    telev: int,
    posts: Seq<Seq<char>>,
    pi: int,
)
    ensures
        apply_posts(ts, tname, telev, posts, pi) matches Result::Ok(out) ==> preserves_skeleton(
            ts,
            out,
        ),
    decreases posts.len() - pi,
{
    if 0 <= pi < posts.len() {
        let sname = posts[pi];
        let si = find_name(ts, sname);
        lemma_find_name(ts, sname);
        if si != -1 && telev > ts[si].elevation {
            lemma_insert_precursor_skeleton(ts, si, tname);
            lemma_apply_posts_skeleton(insert_precursor(ts, si, tname), tname, telev, posts, pi + 1);
            if let Result::Ok(out) = apply_posts(ts, tname, telev, posts, pi) {
                lemma_preserves_skeleton_trans(ts, insert_precursor(ts, si, tname), out);
            }
        }
    } else {
        assert(preserves_skeleton(ts, ts));
    }
}

pub proof fn lemma_back_edges_from_skeleton(snap: Seq<TaskModel>, ti: int, ts: Seq<TaskModel>)
    ensures
        back_edges_from(snap, ti, ts) matches Result::Ok(out) ==> preserves_skeleton(ts, out),
    decreases snap.len() - ti,
{
    if 0 <= ti < snap.len() {
        lemma_apply_posts_skeleton(ts, snap[ti].name, snap[ti].elevation, snap[ti].postcursors, 0);
        if let Result::Ok(ts2) = apply_posts(
            ts,
            snap[ti].name,
            snap[ti].elevation,
            snap[ti].postcursors,
            0,
        ) {
            lemma_back_edges_from_skeleton(snap, ti + 1, ts2);
            if let Result::Ok(out) = back_edges_from(snap, ti + 1, ts2) {
                lemma_preserves_skeleton_trans(ts, ts2, out);
            }
        }
    } else {
        assert(preserves_skeleton(ts, ts));
    }
}

// ---------------------------------------------------------------------------
// Pass C — forward validation
// ---------------------------------------------------------------------------

/// Checks the precursors of one task `tname` (at elevation `telev`) from
/// index `pi` on: each must be declared and must sit strictly above
/// `telev`. Returns the first violation, if any.
pub open spec fn check_task_edges(
    ts: Seq<TaskModel>,
    tname: Seq<char>,
    telev: int,
    pres: Seq<Seq<char>>,
    pi: int,
) -> Option<ErrModel>
    decreases pres.len() - pi,
{
    if pi < 0 || pi >= pres.len() {
        Option::None
    } else {
        let pname = pres[pi];
        let k = find_name(ts, pname);
        if k == -1 {
            Option::Some(ErrModel::Reference { task: tname, missing: pname })
        } else if telev >= ts[k].elevation {
            Option::Some(
                ErrModel::Ordering {
                    task: tname,
                    task_elevation: telev,
                    other: pname,
                    other_elevation: ts[k].elevation,
                    other_is_successor: false,
                },
            )
        } else {
            check_task_edges(ts, tname, telev, pres, pi + 1)
        }
    }
}

/// Forward validation from task `ti` on: the first violated precursor
/// edge, if any.
pub open spec fn check_edges_from(ts: Seq<TaskModel>, ti: int) -> Option<ErrModel>
    decreases ts.len() - ti,
{
    if ti < 0 || ti >= ts.len() {
        Option::None
    } else {
        match check_task_edges(ts, ts[ti].name, ts[ti].elevation, ts[ti].precursors, 0) {
            Option::Some(e) => Option::Some(e),
            Option::None => check_edges_from(ts, ti + 1),
        }
    }
}

/// A clean forward validation means every precursor of every task from
/// `pi` on resolves, at a strictly greater elevation.
pub proof fn lemma_check_task_edges_ok(
    ts: Seq<TaskModel>,
    tname: Seq<char>,
    telev: int,
    pres: Seq<Seq<char>>,
    pi: int,
)
    requires
        0 <= pi,
        check_task_edges(ts, tname, telev, pres, pi) is None,
    ensures
        forall|j: int|
            pi <= j < pres.len() ==> {
                let k = find_name(ts, #[trigger] pres[j]);
                &&& k != -1
                &&& 0 <= k < ts.len()
                &&& ts[k].name == pres[j]
                &&& telev < ts[k].elevation
            },
    decreases pres.len() - pi,
{
    if 0 <= pi < pres.len() {
        lemma_find_name(ts, pres[pi]);
        lemma_check_task_edges_ok(ts, tname, telev, pres, pi + 1);
    }
}

pub proof fn lemma_check_edges_from_ok(ts: Seq<TaskModel>, ti: int)
    requires
        0 <= ti,
        check_edges_from(ts, ti) is None,
    ensures
        forall|i: int, j: int|
            #![trigger ts[i].precursors[j]]
            ti <= i < ts.len() && 0 <= j < ts[i].precursors.len() ==> {
                let k = find_name(ts, ts[i].precursors[j]);
                &&& k != -1
                &&& 0 <= k < ts.len()
                &&& ts[k].name == ts[i].precursors[j]
                &&& ts[i].elevation < ts[k].elevation
            },
    decreases ts.len() - ti,
{
    if 0 <= ti < ts.len() {
        lemma_check_task_edges_ok(ts, ts[ti].name, ts[ti].elevation, ts[ti].precursors, 0);
        lemma_check_edges_from_ok(ts, ti + 1);
        assert forall|i: int, j: int|
            #![trigger ts[i].precursors[j]]
            ti <= i < ts.len() && 0 <= j < ts[i].precursors.len() implies {
            let k = find_name(ts, ts[i].precursors[j]);
            &&& k != -1
            &&& 0 <= k < ts.len()
            &&& ts[k].name == ts[i].precursors[j]
            &&& ts[i].elevation < ts[k].elevation
        } by {
            if i == ti {
                assert(ts[ti].precursors[j] == ts[ti].precursors[j]);
            }
        }
    }
}

// ---------------------------------------------------------------------------
// The whole compilation, as a function of the document text
// ---------------------------------------------------------------------------

/// The compiled structural map a document yields: tokenize, collect,
/// resolve back edges, validate forward edges. Everything but the numeric
/// ids is this pure function of the text.
pub open spec fn compile_model(s: Seq<char>) -> Result<Seq<TaskModel>, ErrModel> {
    match parse_doc(s) {
        Result::Err(e) => Result::Err(e),
        Result::Ok(items) => {
            let ts = collect_tasks_model(items);
            match back_edges(ts) {
                Result::Err(e) => Result::Err(e),
                Result::Ok(ts2) => match check_edges_from(ts2, 0) {
                    Option::Some(e) => Result::Err(e),
                    Option::None => Result::Ok(ts2),
                },
            }
        },
    }
}

/// A compiled map keys tasks by name: uniqueness survives the back-edge
/// pass because only precursor sets change.
pub proof fn lemma_compile_model_unique(s: Seq<char>)
    ensures
        compile_model(s) matches Result::Ok(ms) ==> tasks_names_unique(ms),
{
    if let Result::Ok(items) = parse_doc(s) {
        lemma_collect_unique(items);
        let ts = collect_tasks_model(items);
        lemma_back_edges_from_skeleton(ts, 0, ts);
        if let Result::Ok(ts2) = back_edges(ts) {
            assert forall|i: int, j: int| 0 <= i < j < ts2.len() implies ts2[i].name != ts2[j].name
                by {
                assert(ts2[i].name == ts[i].name);
                assert(ts2[j].name == ts[j].name);
            }
        }
    }
}

// ---------------------------------------------------------------------------
// The compiler
// ---------------------------------------------------------------------------

/// Extracts one draft task from a declaration at the given elevation:
/// a pure transform but for the freshly drawn id. Relation lists collapse
/// to set semantics; an absent command becomes the inert no-op. The
/// elevation is recorded unchanged, not interpreted here.
pub fn parse_node(decl: NodeDecl, elevation: isize) -> (t: MyTask)
    ensures
        t.shape() == extract_model(decl@, elevation as int),
        t.precursor_ids@ == Seq::<usize>::empty(),
{
    let ghost dm = decl@;
    let NodeDecl { name, before, after, command } = decl;
    let pre = crate::tasks::dedup_list(before);
    let post = crate::tasks::dedup_list(after);
    let action = match command {
        Option::None => TaskAction::NoOp,
        Option::Some(c) => TaskAction::Command(c),
    };
    let t = MyTask::new(name, elevation, pre, post, action);
    proof {
        assert(t.shape() =~= extract_model(dm, elevation as int));
    }
    t
}

/// Pass A: walks the items in document order, decrementing the elevation
/// counter at each tier delimiter and upserting one task per declaration.
fn collect_tasks(items: Vec<StructuralItem>) -> (r: Vec<MyTask>)
    requires
        items@.len() <= (isize::MAX as int) + 1,
    ensures
        shapes_of(r@) == collect_tasks_model(items_model(items@)),
        forall|k: int| 0 <= k < r@.len() ==> (#[trigger] r@[k]).precursor_ids@.len() == 0,
{
    let ghost full = items_model(items@);
    let mut rest = items;
    let mut tasks: Vec<MyTask> = Vec::new();
    let mut elevation: isize = 0;
    let ghost mut i: int = 0;
    proof {
        assert(items_model(rest@) =~= full.subrange(0, full.len() as int));
        assert(shapes_of(tasks@) =~= Seq::<TaskModel>::empty());
    }
    while rest.len() > 0
        invariant
            0 <= i <= full.len(),
            full.len() <= (isize::MAX as int) + 1,
            items_model(rest@) == full.subrange(i, full.len() as int),
            elevation as int >= -i,
            collect_from(full, i, elevation as int, shapes_of(tasks@)) == collect_tasks_model(full),
            forall|k: int|
                0 <= k < tasks@.len() ==> (#[trigger] tasks@[k]).precursor_ids@.len() == 0,
        decreases rest@.len(),
    {
        proof {
            assert(full.subrange(i, full.len() as int).len() == rest@.len());
            assert(items_model(rest@)[0] == full[i]);
        }
        let ghost shapes0 = shapes_of(tasks@);
        let ghost pre_rest = rest@;
        let it = rest.remove(0);
        proof {
            assert(it@ == full[i]);
            assert forall|k: int| 0 <= k < rest@.len() implies items_model(rest@)[k] == full[i + 1
                + k] by {
                assert(rest@[k] == pre_rest.subrange(1, pre_rest.len() as int)[k]);
                assert(rest@[k] == pre_rest[k + 1]);
                assert(items_model(pre_rest)[k + 1] == full.subrange(i, full.len() as int)[k + 1]);
            }
            assert(items_model(rest@) =~= full.subrange(i + 1, full.len() as int));
        }
        match it {
            StructuralItem::Shelf => {
                elevation = elevation - 1;
            },
            StructuralItem::Node(d) => {
                let t = parse_node(d, elevation);
                let ghost tm = t.shape();
                match find_task(&tasks, &t.name) {
                    Option::Some(k) => {
                        tasks[k] = t;
                        proof {
                            assert(shapes_of(tasks@) =~= upsert_task(shapes0, tm));
                        }
                    },
                    Option::None => {
                        tasks.push(t);
                        proof {
                            assert(shapes_of(tasks@) =~= upsert_task(shapes0, tm));
                        }
                    },
                }
            },
        }
        proof {
            i = i + 1;
        }
    }
    proof {
        assert(items_model(rest@).len() == 0);
    }
    tasks
}

/// Pass B: resolves every after-relation into the reciprocal precursor
/// edge, or returns the first reference or ordering error. Only precursor
/// sets change; ids and the precursor-id lists stay untouched.
fn apply_back_edges(tasks: &mut Vec<MyTask>) -> (r: Result<(), CompileError>)
    ensures
        ({
            let snap = shapes_of(old(tasks)@);
            match r {
                Result::Ok(_) => {
                    &&& back_edges(snap) == Result::<Seq<TaskModel>, ErrModel>::Ok(
                        shapes_of(final(tasks)@),
                    )
                    &&& final(tasks)@.len() == old(tasks)@.len()
                    &&& forall|k: int|
                        0 <= k < old(tasks)@.len() ==> (#[trigger] final(tasks)@[k]).tid == old(
                            tasks,
                        )@[k].tid && final(tasks)@[k].precursor_ids@ == old(
                            tasks,
                        )@[k].precursor_ids@
                },
                Result::Err(e) => back_edges(snap) == Result::<Seq<TaskModel>, ErrModel>::Err(e@),
            }
        }),
{
    let ghost snap = shapes_of(tasks@);
    let ghost target = back_edges_from(snap, 0, snap);
    let ghost tasks0 = tasks@;
    let n = tasks.len();
    let mut ti: usize = 0;
    while ti < n
        invariant
            0 <= ti <= n,
            n == tasks@.len(),
            tasks0 == old(tasks)@,
            tasks0.len() == n,
            snap == shapes_of(tasks0),
            target == back_edges_from(snap, 0, snap),
            back_edges_from(snap, ti as int, shapes_of(tasks@)) == target,
            forall|k: int|
                0 <= k < n ==> {
                    &&& (#[trigger] shapes_of(tasks@)[k]).name == snap[k].name
                    &&& shapes_of(tasks@)[k].elevation == snap[k].elevation
                    &&& shapes_of(tasks@)[k].postcursors == snap[k].postcursors
                },
            forall|k: int|
                0 <= k < n ==> (#[trigger] tasks@[k]).tid == tasks0[k].tid
                    && tasks@[k].precursor_ids@ == tasks0[k].precursor_ids@,
        decreases n - ti,
    {
        let tname = tasks[ti].name.clone();
        let telev = tasks[ti].elevation;
        let plen = tasks[ti].postcursors.len();
        let ghost entry = shapes_of(tasks@);
        let ghost posts0 = entry[ti as int].postcursors;
        proof {
            assert(tname@ == snap[ti as int].name);
            assert(telev as int == snap[ti as int].elevation);
            assert(posts0 == snap[ti as int].postcursors);
        }
        let mut pi: usize = 0;
        while pi < plen
            invariant
                0 <= pi <= plen,
                0 <= ti < n,
                n == tasks@.len(),
                tasks0 == old(tasks)@,
                tasks0.len() == n,
                snap == shapes_of(tasks0),
                target == back_edges_from(snap, 0, snap),
                tname@ == snap[ti as int].name,
                telev as int == snap[ti as int].elevation,
                posts0 == snap[ti as int].postcursors,
                plen == posts0.len(),
                back_edges_from(snap, ti as int, entry) == target,
                apply_posts(shapes_of(tasks@), tname@, telev as int, posts0, pi as int)
                    == apply_posts(entry, tname@, telev as int, posts0, 0),
                forall|k: int|
                    0 <= k < n ==> {
                        &&& (#[trigger] shapes_of(tasks@)[k]).name == snap[k].name
                        &&& shapes_of(tasks@)[k].elevation == snap[k].elevation
                        &&& shapes_of(tasks@)[k].postcursors == snap[k].postcursors
                    },
                forall|k: int|
                    0 <= k < n ==> (#[trigger] tasks@[k]).tid == tasks0[k].tid
                        && tasks@[k].precursor_ids@ == tasks0[k].precursor_ids@,
            decreases plen - pi,
        {
            let ghost cur = shapes_of(tasks@);
            proof {
                assert(cur[ti as int].postcursors == posts0);
                assert(tasks@[ti as int].postcursors.deep_view() == posts0);
                assert(tasks@[ti as int].postcursors@.len() == posts0.len());
            }
            let sname = tasks[ti].postcursors[pi].clone();
            proof {
                assert(sname@ == posts0[pi as int]);
            }
            match find_task(tasks, &sname) {
                Option::None => {
                    proof {
                        let e = ErrModel::Reference { task: tname@, missing: sname@ };
                        assert(apply_posts(cur, tname@, telev as int, posts0, pi as int)
                            == Result::<Seq<TaskModel>, ErrModel>::Err(e));
                        assert(back_edges_from(snap, ti as int, entry) == Result::<
                            Seq<TaskModel>,
                            ErrModel,
                        >::Err(e));
                        assert(back_edges(snap) == Result::<Seq<TaskModel>, ErrModel>::Err(e));
                    }
                    return Result::Err(CompileError::Reference { task: tname, missing: sname });
                },
                Option::Some(si) => {
                    let selev = tasks[si].elevation;
                    proof {
                        assert(selev as int == cur[si as int].elevation);
                    }
                    if telev <= selev {
                        proof {
                            let e = ErrModel::Ordering {
                                task: tname@,
                                task_elevation: telev as int,
                                other: sname@,
                                other_elevation: selev as int,
                                other_is_successor: true,
                            };
                            assert(apply_posts(cur, tname@, telev as int, posts0, pi as int)
                                == Result::<Seq<TaskModel>, ErrModel>::Err(e));
                            assert(back_edges_from(snap, ti as int, entry) == Result::<
                                Seq<TaskModel>,
                                ErrModel,
                            >::Err(e));
                            assert(back_edges(snap) == Result::<Seq<TaskModel>, ErrModel>::Err(e));
                        }
                        return Result::Err(
                            CompileError::Ordering {
                                task: tname,
                                task_elevation: telev,
                                other: sname,
                                other_elevation: selev,
                                other_is_successor: true,
                            },
                        );
                    }
                    let ghost pre_tasks = tasks@;
                    let dup = crate::tasks::contains_name(&tasks[si].precursors, &tname);
                    if !dup {
                        let pname = tname.clone();
                        tasks[si].precursors.push(pname);
                    }
                    proof {
                        let ins = insert_precursor(cur, si as int, tname@);
                        assert forall|k: int| 0 <= k < n implies shapes_of(tasks@)[k] =~= ins[k]
                            && tasks@[k].tid == pre_tasks[k].tid && tasks@[k].precursor_ids@
                            == pre_tasks[k].precursor_ids@ by {
                            if k != si as int {
                                assert(tasks@[k] == pre_tasks[k]);
                            } else {
                                if dup {
                                    assert(tasks@[k] == pre_tasks[k]);
                                    assert(cur[k].precursors.contains(tname@));
                                } else {
                                    assert(tasks@[k].precursors.deep_view() =~= cur[
                                        k
                                    ].precursors.push(tname@));
                                    assert(!cur[k].precursors.contains(tname@));
                                }
                            }
                        }
                        assert(shapes_of(tasks@) =~= ins);
                    }
                },
            }
            pi = pi + 1;
        }
        proof {
            assert(apply_posts(shapes_of(tasks@), tname@, telev as int, posts0, plen as int)
                == Result::<Seq<TaskModel>, ErrModel>::Ok(shapes_of(tasks@)));
            assert(back_edges_from(snap, ti as int, entry) == back_edges_from(
                snap,
                ti + 1 as int,
                shapes_of(tasks@),
            ));
        }
        ti = ti + 1;
    }
    Result::Ok(())
}

/// Pass C: checks every precursor edge of the resolved map, returning the
/// first reference or ordering violation.
fn check_edges(tasks: &Vec<MyTask>) -> (r: Option<CompileError>)
    ensures
        ({
            let ts = shapes_of(tasks@);
            match r {
                Option::None => check_edges_from(ts, 0) is None,
                Option::Some(e) => check_edges_from(ts, 0) == Option::Some(e@),
            }
        }),
{
    let ghost ts = shapes_of(tasks@);
    let n = tasks.len();
    let mut ti: usize = 0;
    while ti < n
        invariant
            0 <= ti <= n,
            n == tasks@.len(),
            ts == shapes_of(tasks@),
            check_edges_from(ts, 0) == check_edges_from(ts, ti as int),
        decreases n - ti,
    {
        let telev = tasks[ti].elevation;
        let plen = tasks[ti].precursors.len();
        let ghost tname = ts[ti as int].name;
        let ghost pres = ts[ti as int].precursors;
        proof {
            assert(plen == pres.len());
            assert(telev as int == ts[ti as int].elevation);
        }
        let mut pi: usize = 0;
        while pi < plen
            invariant
                0 <= pi <= plen,
                0 <= ti < n,
                n == tasks@.len(),
                ts == shapes_of(tasks@),
                check_edges_from(ts, 0) == check_edges_from(ts, ti as int),
                tname == ts[ti as int].name,
                pres == ts[ti as int].precursors,
                telev as int == ts[ti as int].elevation,
                plen == pres.len(),
                check_task_edges(ts, tname, telev as int, pres, 0) == check_task_edges(
                    ts,
                    tname,
                    telev as int,
                    pres,
                    pi as int,
                ),
            decreases plen - pi,
        {
            let pname = tasks[ti].precursors[pi].clone();
            proof {
                assert(pname@ == pres[pi as int]);
            }
            match find_task(tasks, &pname) {
                Option::None => {
                    proof {
                        assert(check_task_edges(ts, tname, telev as int, pres, pi as int)
                            == Option::Some(ErrModel::Reference { task: tname, missing: pname@ }));
                    }
                    return Option::Some(
                        CompileError::Reference { task: tasks[ti].name.clone(), missing: pname },
                    );
                },
                Option::Some(k) => {
                    let pelev = tasks[k].elevation;
                    proof {
                        assert(pelev as int == ts[k as int].elevation);
                    }
                    if telev >= pelev {
                        proof {
                            assert(check_task_edges(ts, tname, telev as int, pres, pi as int)
                                == Option::Some(
                                ErrModel::Ordering {
                                    task: tname,
                                    task_elevation: telev as int,
                                    other: pname@,
                                    other_elevation: pelev as int,
                                    other_is_successor: false,
                                },
                            ));
                        }
                        return Option::Some(
                            CompileError::Ordering {
                                task: tasks[ti].name.clone(),
                                task_elevation: telev,
                                other: pname,
                                other_elevation: pelev,
                                other_is_successor: false,
                            },
                        );
                    }
                },
            }
            pi = pi + 1;
        }
        proof {
            assert(check_edges_from(ts, ti as int) == check_edges_from(ts, ti + 1 as int));
        }
        ti = ti + 1;
    }
    Option::None
}

/// Pass D: translates every precursor name into the id collection gave
/// the task now carrying that name, in precursor-list order. Forward
/// validation has already shown every name resolves, so this pass cannot
/// fail.
fn resolve_ids(tasks: &mut Vec<MyTask>)
    requires
        check_edges_from(shapes_of(old(tasks)@), 0) is None,
    ensures
        final(tasks)@.len() == old(tasks)@.len(),
        shapes_of(final(tasks)@) == shapes_of(old(tasks)@),
        forall|k: int|
            0 <= k < old(tasks)@.len() ==> (#[trigger] final(tasks)@[k]).tid == old(tasks)@[k].tid,
        forall|k: int|
            0 <= k < final(tasks)@.len() ==> (#[trigger] final(tasks)@[k]).precursor_ids@.len()
                == shapes_of(final(tasks)@)[k].precursors.len(),
        forall|k: int, j: int|
            #![trigger shapes_of(final(tasks)@)[k].precursors[j]]
            0 <= k < final(tasks)@.len() && 0 <= j < shapes_of(final(tasks)@)[k].precursors.len()
                ==> {
                let ts = shapes_of(final(tasks)@);
                let m = find_name(ts, ts[k].precursors[j]);
                &&& 0 <= m < final(tasks)@.len()
                &&& final(tasks)@[k].precursor_ids@[j] == final(tasks)@[m].tid
            },
{
    let ghost ts = shapes_of(tasks@);
    let ghost tasks0 = tasks@;
    let n = tasks.len();
    let mut all_ids: Vec<Vec<usize>> = Vec::new();
    let mut ti: usize = 0;
    while ti < n
        invariant
            0 <= ti <= n,
            n == tasks@.len(),
            tasks0 == old(tasks)@,
            tasks@ == tasks0,
            ts == shapes_of(tasks0),
            check_edges_from(ts, 0) is None,
            all_ids@.len() == ti,
            forall|k: int|
                0 <= k < ti ==> (#[trigger] all_ids@[k])@.len() == ts[k].precursors.len(),
            forall|k: int, j: int|
                #![trigger ts[k].precursors[j]]
                0 <= k < ti && 0 <= j < ts[k].precursors.len() ==> {
                    let m = find_name(ts, ts[k].precursors[j]);
                    &&& 0 <= m < n
                    &&& all_ids@[k]@[j] == tasks0[m].tid
                },
        decreases n - ti,
    {
        let plen = tasks[ti].precursors.len();
        let ghost pres = ts[ti as int].precursors;
        proof {
            assert(plen == pres.len());
        }
        let mut ids: Vec<usize> = Vec::new();
        let mut pi: usize = 0;
        while pi < plen
            invariant
                0 <= pi <= plen,
                0 <= ti < n,
                n == tasks@.len(),
                tasks0 == old(tasks)@,
                tasks@ == tasks0,
                ts == shapes_of(tasks0),
                check_edges_from(ts, 0) is None,
                pres == ts[ti as int].precursors,
                plen == pres.len(),
                ids@.len() == pi,
                forall|j: int|
                    #![trigger pres[j]]
                    0 <= j < pi ==> {
                        let m = find_name(ts, pres[j]);
                        &&& 0 <= m < n
                        &&& ids@[j] == tasks0[m].tid
                    },
            decreases plen - pi,
        {
            let pname = tasks[ti].precursors[pi].clone();
            proof {
                assert(pname@ == pres[pi as int]);
                lemma_check_edges_from_ok(ts, 0);
            }
            match find_task(tasks, &pname) {
                Option::Some(m) => {
                    ids.push(tasks[m].tid);
                },
                Option::None => {
                    proof {
                        assert(false);
                    }
                    vstd::pervasive::unreached()
                },
            }
            pi = pi + 1;
        }
        all_ids.push(ids);
        ti = ti + 1;
    }
    let ghost all0 = all_ids@;
    let mut rem = all_ids;
    let mut ti: usize = 0;
    while ti < n
        invariant
            0 <= ti <= n,
            n == tasks@.len(),
            tasks0 == old(tasks)@,
            tasks0.len() == n,
            ts == shapes_of(tasks0),
            all0.len() == n,
            rem@ == all0.subrange(ti as int, n as int),
            shapes_of(tasks@) == ts,
            forall|k: int| 0 <= k < n ==> (#[trigger] tasks@[k]).tid == tasks0[k].tid,
            forall|k: int|
                0 <= k < n ==> (#[trigger] all0[k])@.len() == ts[k].precursors.len(),
            forall|k: int, j: int|
                #![trigger ts[k].precursors[j]]
                0 <= k < n && 0 <= j < ts[k].precursors.len() ==> {
                    let m = find_name(ts, ts[k].precursors[j]);
                    &&& 0 <= m < n
                    &&& all0[k]@[j] == tasks0[m].tid
                },
            forall|k: int|
                0 <= k < ti ==> (#[trigger] tasks@[k]).precursor_ids@ == all0[k]@,
        decreases n - ti,
    {
        proof {
            assert(rem@[0] == all0[ti as int]);
        }
        let ghost shapes_before = shapes_of(tasks@);
        let ghost pre_tasks = tasks@;
        let ids = rem.remove(0);
        tasks[ti].init_precursors(ids);
        proof {
            assert(rem@ =~= all0.subrange(ti + 1 as int, n as int));
            assert forall|k: int| 0 <= k < n implies shapes_of(tasks@)[k] == shapes_before[k]
                && tasks@[k].tid == pre_tasks[k].tid by {
                if k != ti as int {
                    assert(tasks@[k] == pre_tasks[k]);
                } else {
                    assert(tasks@[k].shape() == pre_tasks[k].shape());
                }
            }
            assert(shapes_of(tasks@) =~= shapes_before);
        }
        ti = ti + 1;
    }
}

/// Compiles a DEML document into its validated task map.
///
/// On success the returned tasks' structure (names, elevations, precursor
/// and postcursor sets, actions, order) is exactly `compile_model` of the
/// text, names are unique, and each task's `precursor_ids` lists, in
/// precursor order, the id of the task carrying each precursor name. On
/// failure the returned error is exactly the one `compile_model` gives,
/// and no map is returned. The length bound is a machine limit: any text
/// slice fits it.
pub fn parse_dag(file: &str) -> (r: Result<Vec<MyTask>, CompileError>)
    requires
        file@.len() <= isize::MAX as int,
    ensures
        ({
            let cm = compile_model(file@);
            match r {
                Result::Ok(tasks) => {
                    &&& cm == Result::<Seq<TaskModel>, ErrModel>::Ok(shapes_of(tasks@))
                    &&& tasks_names_unique(shapes_of(tasks@))
                    &&& forall|i: int|
                        0 <= i < tasks@.len() ==> (#[trigger] tasks@[i]).precursor_ids@.len()
                            == shapes_of(tasks@)[i].precursors.len()
                    &&& forall|i: int, j: int|
                        #![trigger shapes_of(tasks@)[i].precursors[j]]
                        0 <= i < tasks@.len() && 0 <= j < shapes_of(tasks@)[i].precursors.len()
                            ==> {
                            let ts = shapes_of(tasks@);
                            let m = find_name(ts, ts[i].precursors[j]);
                            &&& 0 <= m < tasks@.len()
                            &&& tasks@[i].precursor_ids@[j] == tasks@[m].tid
                        }
                },
                Result::Err(e) => cm == Result::<Seq<TaskModel>, ErrModel>::Err(e@),
            }
        }),
{
    let items = match DagParser::parse(file) {
        Result::Err(e) => {
            return Result::Err(e);
        },
        Result::Ok(items) => items,
    };
    proof {
        crate::grammar::lemma_parse_doc_len(file@);
        assert(items_model(items@).len() == items@.len());
    }
    let mut tasks = collect_tasks(items);
    proof {
        lemma_compile_model_unique(file@);
    }
    match apply_back_edges(&mut tasks) {
        Result::Err(e) => {
            return Result::Err(e);
        },
        Result::Ok(_) => {},
    }
    match check_edges(&tasks) {
        Option::Some(e) => {
            return Result::Err(e);
        },
        Option::None => {},
    }
    resolve_ids(&mut tasks);
    Result::Ok(tasks)
}

} // verus!
