//! The task data model: one record per declared task, plus the mathematical
//! model (`TaskModel`) that all contracts of the compiler speak of. The
//! model deliberately omits the numeric id fields: ids come from a
//! process-wide allocator and differ from run to run, while everything in
//! `TaskModel` is a pure function of the document text.

use vstd::prelude::*;

verus! {

/// What a task runs when the engine schedules it: a shell command, or
/// nothing at all when the declaration carried no command body.
pub enum TaskAction {
    NoOp,
    Command(String),
}

/// Mathematical model of a `TaskAction`.
#[verifier::ext_equal]
pub enum ActionModel {
    NoOp,
    Command(Seq<char>),
}

impl View for TaskAction {
    type V = ActionModel;

    open spec fn view(&self) -> ActionModel {
        match self {
            TaskAction::NoOp => ActionModel::NoOp,
            TaskAction::Command(c) => ActionModel::Command(c@),
        }
    }
}

/// Structural model of a task: every field that is a function of the
/// document alone. Numeric ids are excluded on purpose.
#[verifier::ext_equal]
pub struct TaskModel {
    pub name: Seq<char>,
    pub elevation: int,
    /// Names of the tasks the owner depends on, in first-seen order,
    /// without duplicates (set semantics).
    pub precursors: Seq<Seq<char>>,
    /// Names the owner's after-lists declared as depending on it.
    pub postcursors: Seq<Seq<char>>,
    pub action: ActionModel,
}

/// One compiled task. `tid` is allocated once at creation from the
/// execution engine's process-wide counter and never reassigned;
/// `precursor_ids` stays empty until the whole document has validated.
pub struct MyTask {
    pub tid: usize,
    pub name: String,
    pub elevation: isize,
    pub precursors: Vec<String>,
    pub precursor_ids: Vec<usize>,
    pub postcursors: Vec<String>,
    pub action: TaskAction,
}

impl MyTask {
    /// The structural model of the task (ids excluded).
    pub open spec fn shape(&self) -> TaskModel {
        TaskModel {
            name: self.name@,
            elevation: self.elevation as int,
            precursors: self.precursors.deep_view(),
            postcursors: self.postcursors.deep_view(),
            action: self.action@,
        }
    }

    /// Creates a draft task at the given elevation, drawing a fresh id from
    /// the engine's allocator. Precursor ids stay empty until validation.
    pub fn new(
        name: String,
        elevation: isize,
        precursors: Vec<String>,
        postcursors: Vec<String>,
        action: TaskAction,
    ) -> (t: MyTask)
        requires
            no_dup_names(precursors.deep_view()),
            no_dup_names(postcursors.deep_view()),
        ensures
            t.name@ == name@,
            t.elevation == elevation,
            t.precursors.deep_view() == precursors.deep_view(),
            t.postcursors.deep_view() == postcursors.deep_view(),
            t.action@ == action@,
            t.precursor_ids@ == Seq::<usize>::empty(),
    {
        MyTask {
            tid: crate::ids::alloc_task_id(),
            name,
            elevation,
            precursors,
            precursor_ids: Vec::new(),
            postcursors,
            action,
        }
    }

    /// Stores the resolved precursor ids, leaving every other field as it
    /// was.
    pub fn init_precursors(&mut self, pres_id: Vec<usize>)
        ensures
            final(self).precursor_ids@ == pres_id@,
            final(self).tid == old(self).tid,
            final(self).shape() == old(self).shape(),
    {
        self.precursor_ids = pres_id;
    }
}

/// A list of names without duplicates: the model of set semantics.
pub open spec fn no_dup_names(names: Seq<Seq<char>>) -> bool {
    forall|i: int, j: int| 0 <= i < j < names.len() ==> names[i] != names[j]
}

/// Appends a name unless it is already present; keeps first-seen order.
pub open spec fn push_unique(names: Seq<Seq<char>>, n: Seq<char>) -> Seq<Seq<char>> {
    if names.contains(n) {
        names
    } else {
        names.push(n)
    }
}

pub proof fn lemma_push_unique_no_dup(names: Seq<Seq<char>>, n: Seq<char>)
    requires
        no_dup_names(names),
    ensures
        no_dup_names(push_unique(names, n)),
        push_unique(names, n).contains(n),
        forall|m: Seq<char>| push_unique(names, n).contains(m) <==> names.contains(m) || m == n,
{
    if names.contains(n) {
        assert forall|m: Seq<char>| push_unique(names, n).contains(m) implies names.contains(m)
            || m == n by {}
    } else {
        let p = names.push(n);
        assert forall|i: int, j: int| 0 <= i < j < p.len() implies p[i] != p[j] by {
            if j == p.len() - 1 {
                assert(names[i] == p[i]);
                assert(names.contains(names[i]));
            }
        }
        assert(p[p.len() - 1] == n);
        assert forall|m: Seq<char>| p.contains(m) implies names.contains(m) || m == n by {
            let k = choose|k: int| 0 <= k < p.len() && p[k] == m;
            if k < names.len() {
                assert(names[k] == m);
            }
        }
        assert forall|m: Seq<char>| names.contains(m) || m == n implies p.contains(m) by {
            if names.contains(m) {
                let k = choose|k: int| 0 <= k < names.len() && names[k] == m;
                assert(p[k] == m);
            } else {
                assert(p[p.len() - 1] == m);
            }
        }
    }
}

pub proof fn lemma_push_unique_contains(names: Seq<Seq<char>>, n: Seq<char>)
    ensures
        push_unique(names, n).contains(n),
        forall|m: Seq<char>| names.contains(m) ==> #[trigger] push_unique(names, n).contains(m),
{
    let p = push_unique(names, n);
    if !names.contains(n) {
        assert(p[p.len() - 1] == n);
        assert forall|m: Seq<char>| names.contains(m) implies #[trigger] p.contains(m) by {
            let k = choose|k: int| 0 <= k < names.len() && names[k] == m;
            assert(p[k] == m);
        }
    }
}

/// The duplicate-free projection of a name list: each name kept at its
/// first occurrence, later repeats dropped.
pub open spec fn dedup_names(names: Seq<Seq<char>>) -> Seq<Seq<char>>
    decreases names.len(),
{
    if names.len() == 0 {
        Seq::empty()
    } else {
        push_unique(dedup_names(names.drop_last()), names.last())
    }
}

pub proof fn lemma_dedup_names_no_dup(names: Seq<Seq<char>>)
    ensures
        no_dup_names(dedup_names(names)),
        forall|m: Seq<char>| dedup_names(names).contains(m) <==> names.contains(m),
    decreases names.len(),
{
    if names.len() == 0 {
        assert forall|m: Seq<char>| dedup_names(names).contains(m) <==> names.contains(m) by {
            if names.contains(m) {
                let k = choose|k: int| 0 <= k < names.len() && names[k] == m;
            }
        }
    } else {
        lemma_dedup_names_no_dup(names.drop_last());
        lemma_push_unique_no_dup(dedup_names(names.drop_last()), names.last());
        assert forall|m: Seq<char>| dedup_names(names).contains(m) implies names.contains(m) by {
            if names.drop_last().contains(m) {
                let k = choose|k: int| 0 <= k < names.drop_last().len() && names.drop_last()[k] == m;
                assert(names[k] == m);
            } else {
                assert(names[names.len() - 1] == m);
            }
        }
        assert forall|m: Seq<char>| names.contains(m) implies dedup_names(names).contains(m) by {
            let k = choose|k: int| 0 <= k < names.len() && names[k] == m;
            if k < names.len() - 1 {
                assert(names.drop_last()[k] == m);
                assert(names.drop_last().contains(m));
                assert(dedup_names(names.drop_last()).contains(m));
            } else {
                assert(names.last() == m);
            }
            assert(push_unique(dedup_names(names.drop_last()), names.last()).contains(m));
        }
    }
}

/// Index of the first task in `ts` named `name`, scanning from `i`;
/// `-1` when no task from `i` onward carries that name.
pub open spec fn find_name_from(ts: Seq<TaskModel>, name: Seq<char>, i: int) -> int
    decreases ts.len() - i,
{
    if i < 0 || i >= ts.len() {
        -1
    } else if ts[i].name == name {
        i
    } else {
        find_name_from(ts, name, i + 1)
    }
}

/// Index of the first task in `ts` named `name`, or `-1`.
pub open spec fn find_name(ts: Seq<TaskModel>, name: Seq<char>) -> int {
    find_name_from(ts, name, 0)
}

/// Whether some task in `ts` is named `name`.
pub open spec fn has_name(ts: Seq<TaskModel>, name: Seq<char>) -> bool {
    exists|k: int| 0 <= k < ts.len() && ts[k].name == name
}

pub proof fn lemma_find_name_from(ts: Seq<TaskModel>, name: Seq<char>, i: int)
    requires
        0 <= i <= ts.len(),
    ensures
        find_name_from(ts, name, i) == -1 <==> (forall|k: int|
            i <= k < ts.len() ==> ts[k].name != name),
        find_name_from(ts, name, i) != -1 ==> {
            let r = find_name_from(ts, name, i);
            &&& i <= r < ts.len()
            &&& ts[r].name == name
            &&& forall|k: int| i <= k < r ==> ts[k].name != name
        },
    decreases ts.len() - i,
{
    if i < ts.len() && ts[i].name != name {
        lemma_find_name_from(ts, name, i + 1);
    }
}

pub proof fn lemma_find_name(ts: Seq<TaskModel>, name: Seq<char>)
    ensures
        find_name(ts, name) == -1 <==> !has_name(ts, name),
        find_name(ts, name) != -1 ==> {
            let r = find_name(ts, name);
            &&& 0 <= r < ts.len()
            &&& ts[r].name == name
            &&& forall|k: int| 0 <= k < r ==> ts[k].name != name
        },
{
    lemma_find_name_from(ts, name, 0);
}

/// The compiled map keys tasks by name: no two tasks share one.
pub open spec fn tasks_names_unique(ts: Seq<TaskModel>) -> bool {
    forall|i: int, j: int| 0 <= i < j < ts.len() ==> ts[i].name != ts[j].name
}

/// Finds the index of the task named `name`, scanning in document order.
pub fn find_task(tasks: &Vec<MyTask>, name: &String) -> (r: Option<usize>)
    ensures
        match r {
            Some(k) => k < tasks@.len() && find_name(shapes_of(tasks@), name@) == k as int,
            None => find_name(shapes_of(tasks@), name@) == -1,
        },
{
    let ghost ts = shapes_of(tasks@);
    let mut i: usize = 0;
    while i < tasks.len()
        invariant
            0 <= i <= tasks@.len(),
            ts == shapes_of(tasks@),
            forall|k: int| 0 <= k < i ==> ts[k].name != name@,
        decreases tasks@.len() - i,
    {
        if tasks[i].name == *name {
            proof {
                lemma_find_name(ts, name@);
                lemma_find_name_from(ts, name@, 0);
                assert(ts[i as int].name == name@);
            }
            return Some(i);
        }
        i = i + 1;
    }
    proof {
        lemma_find_name(ts, name@);
    }
    None
}

/// The structural models of a task sequence, in the same order.
pub open spec fn shapes_of(ts: Seq<MyTask>) -> Seq<TaskModel> {
    ts.map_values(|t: MyTask| t.shape())
}

/// Whether the list already holds this name.
pub fn contains_name(v: &Vec<String>, n: &String) -> (r: bool)
    ensures
        r == v.deep_view().contains(n@),
{
    let mut i: usize = 0;
    while i < v.len()
        invariant
            0 <= i <= v@.len(),
            forall|k: int| 0 <= k < i ==> v.deep_view()[k] != n@,
        decreases v@.len() - i,
    {
        if v[i] == *n {
            proof {
                assert(v.deep_view()[i as int] == n@);
            }
            return true;
        }
        i = i + 1;
    }
    proof {
        assert forall|k: int| 0 <= k < v.deep_view().len() implies v.deep_view()[k] != n@ by {}
    }
    false
}

/// Collapses a name list to set semantics: keeps each name at its first
/// occurrence, drops later repeats.
pub fn dedup_list(names: Vec<String>) -> (r: Vec<String>)
    ensures
        r.deep_view() == dedup_names(names.deep_view()),
        no_dup_names(r.deep_view()),
{
    let ghost full = names.deep_view();
    let mut out: Vec<String> = Vec::new();
    let mut i: usize = 0;
    proof {
        assert(out.deep_view() =~= Seq::<Seq<char>>::empty());
        assert(full.take(0) =~= Seq::<Seq<char>>::empty());
    }
    while i < names.len()
        invariant
            0 <= i <= names@.len(),
            full == names.deep_view(),
            full.len() == names@.len(),
            out.deep_view() == dedup_names(full.take(i as int)),
        decreases names@.len() - i,
    {
        let name = names[i].clone();
        let ghost gname = name@;
        proof {
            assert(gname == full[i as int]);
            assert(full.take(i + 1).drop_last() =~= full.take(i as int));
            assert(full.take(i + 1).last() == full[i as int]);
        }
        let ghost out0 = out.deep_view();
        if !contains_name(&out, &name) {
            out.push(name);
            proof {
                assert(out.deep_view() =~= out0.push(gname));
            }
        }
        proof {
            assert(out.deep_view() == push_unique(out0, gname));
            assert(dedup_names(full.take(i + 1)) == push_unique(dedup_names(full.take(i as int)), gname));
        }
        i = i + 1;
    }
    proof {
        assert(full.take(names@.len() as int) =~= full);
        lemma_dedup_names_no_dup(full);
    }
    out
}

} // verus!
