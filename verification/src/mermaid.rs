//! The diagram renderer: turns a validated task map into a Mermaid
//! flowchart. One header line, then one line per task with a non-empty
//! precursor set, in map order: four spaces, the precursor names joined
//! by `" & "` in precursor-set order, an arrow, the task's name. Tasks
//! without precursors yield no line.

use vstd::prelude::*;

use crate::errors::CompileError;
use crate::tasks::MyTask;
use crate::tasks::TaskModel;
use crate::tasks::shapes_of;
use crate::tasks::tasks_names_unique;

verus! {

/// The fixed first line of every diagram.
pub open spec fn mermaid_header() -> Seq<char> {
    seq!['f', 'l', 'o', 'w', 'c', 'h', 'a', 'r', 't', ' ', 'T', 'D', '\n']
}

/// The separator between joined precursor names.
pub open spec fn name_sep() -> Seq<char> {
    seq![' ', '&', ' ']
}

/// The arrow between the joined names and the target task.
pub open spec fn arrow_sep() -> Seq<char> {
    seq![' ', '-', '-', '-', '>', ' ']
}

/// The indentation of every task line.
pub open spec fn line_indent() -> Seq<char> {
    seq![' ', ' ', ' ', ' ']
}

/// Names from index `i` on, joined by the separator.
pub open spec fn join_from(names: Seq<Seq<char>>, i: int) -> Seq<char>
    decreases names.len() - i,
{
    if i < 0 || i >= names.len() {
        Seq::empty()
    } else if i == names.len() - 1 {
        names[i]
    } else {
        names[i] + name_sep() + join_from(names, i + 1)
    }
}

/// The one rendered line of a task (rendered only when its precursor set
/// is non-empty).
pub open spec fn mermaid_line(t: TaskModel) -> Seq<char> {
    line_indent() + join_from(t.precursors, 0) + arrow_sep() + t.name + seq!['\n']
}

/// The tasks that produce a line, from index `i` on, in map order.
pub open spec fn entries_from(ts: Seq<TaskModel>, i: int) -> Seq<TaskModel>
    decreases ts.len() - i,
{
    if i < 0 || i >= ts.len() {
        Seq::empty()
    } else if ts[i].precursors.len() > 0 {
        seq![ts[i]] + entries_from(ts, i + 1)
    } else {
        entries_from(ts, i + 1)
    }
}

/// The tasks that produce a line, in map order.
pub open spec fn mermaid_entries(ts: Seq<TaskModel>) -> Seq<TaskModel> {
    entries_from(ts, 0)
}

/// The rendered lines of the given entries, concatenated.
pub open spec fn concat_lines(es: Seq<TaskModel>) -> Seq<char>
    decreases es.len(),
{
    if es.len() == 0 {
        Seq::empty()
    } else {
        mermaid_line(es[0]) + concat_lines(es.drop_first())
    }
}

/// The whole diagram of a task map.
pub open spec fn mermaid_model(ts: Seq<TaskModel>) -> Seq<char> {
    mermaid_header() + concat_lines(mermaid_entries(ts))
}

fn join_precursors_from(names: &Vec<String>, i: usize) -> (r: String)
    requires
        i <= names@.len(),
    ensures
        r@ == join_from(names.deep_view(), i as int),
    decreases names@.len() - i,
{
    if i >= names.len() {
        let r = String::new();
        proof {
            assert(r@ =~= join_from(names.deep_view(), i as int));
        }
        r
    } else {
        let mut s = names[i].clone();
        if i + 1 < names.len() {
            s.append(" & ");
            let rest = join_precursors_from(names, i + 1);
            s.append(rest.as_str());
            proof {
                reveal_strlit(" & ");
                assert(" & "@ =~= name_sep());
                assert(s@ =~= join_from(names.deep_view(), i as int));
            }
        } else {
            proof {
                assert(s@ =~= join_from(names.deep_view(), i as int));
            }
        }
        s
    }
}

/// Renders a validated task map as a Mermaid flowchart: the header line,
/// then exactly one line per task with a non-empty precursor set, in map
/// order. Rendering cannot fail; the `Result` mirrors the compiler's
/// error type for callers that chain it.
pub fn tasks_to_mermaid(tasks: &Vec<MyTask>) -> (r: Result<String, CompileError>)
    ensures
        r matches Result::Ok(out) && out@ == mermaid_model(shapes_of(tasks@)),
{
    let ghost ts = shapes_of(tasks@);
    let mut out = String::new();
    out.append("flowchart TD\n");
    proof {
        reveal_strlit("flowchart TD\n");
        assert("flowchart TD\n"@ =~= mermaid_header());
        assert(out@ =~= mermaid_header());
        assert(out@ + concat_lines(entries_from(ts, 0)) =~= mermaid_header() + concat_lines(
            entries_from(ts, 0),
        ));
    }
    let n = tasks.len();
    let mut i: usize = 0;
    while i < n
        invariant
            0 <= i <= n,
            n == tasks@.len(),
            ts == shapes_of(tasks@),
            out@ + concat_lines(entries_from(ts, i as int)) == mermaid_header() + concat_lines(
                entries_from(ts, 0),
            ),
        decreases n - i,
    {
        let plen = tasks[i].precursors.len();
        proof {
            assert(tasks@[i as int].precursors.deep_view() == ts[i as int].precursors);
        }
        if plen > 0 {
            let ghost out0 = out@;
            let joined = join_precursors_from(&tasks[i].precursors, 0);
            out.append("    ");
            out.append(joined.as_str());
            out.append(" ---> ");
            out.append(tasks[i].name.as_str());
            out.append("\n");
            proof {
                reveal_strlit("    ");
                reveal_strlit(" ---> ");
                reveal_strlit("\n");
                assert("    "@ =~= line_indent());
                assert(" ---> "@ =~= arrow_sep());
                assert("\n"@ =~= seq!['\n']);
                assert(out@ =~= out0 + mermaid_line(ts[i as int]));
                let es = entries_from(ts, i as int);
                assert(es == seq![ts[i as int]] + entries_from(ts, i + 1 as int));
                assert(es[0] == ts[i as int]);
                assert(es.drop_first() =~= entries_from(ts, i + 1 as int));
                assert(concat_lines(es) == mermaid_line(ts[i as int]) + concat_lines(
                    entries_from(ts, i + 1 as int),
                ));
                assert(out@ + concat_lines(entries_from(ts, i + 1 as int)) =~= out0 + concat_lines(
                    es,
                ));
            }
        } else {
            proof {
                assert(entries_from(ts, i as int) == entries_from(ts, i + 1 as int));
            }
        }
        i = i + 1;
    }
    proof {
        assert(concat_lines(entries_from(ts, n as int)) =~= Seq::<char>::empty());
        assert(out@ =~= out@ + concat_lines(entries_from(ts, n as int)));
        assert(out@ == mermaid_model(ts));
    }
    Result::Ok(out)
}

/// Whether `t` is one of the tasks of `ts` (from index `i` on) that
/// produce a rendered line.
pub open spec fn entry_origin(ts: Seq<TaskModel>, i: int, t: TaskModel) -> bool {
    exists|k: int| i <= k < ts.len() && t == #[trigger] ts[k] && ts[k].precursors.len() > 0
}

/// Diagram correspondence: in the rendered entry list of a name-unique
/// map, every task with a non-empty precursor set appears exactly once —
/// as a whole record, so the line's target name and joined name set are
/// that task's — every entry stems from such a task, and a task with an
/// empty precursor set appears in no entry.
pub proof fn lemma_diagram_correspondence(ts: Seq<TaskModel>)
    requires
        tasks_names_unique(ts),
    ensures
        ({
            let es = mermaid_entries(ts);
            &&& forall|i: int|
                0 <= i < ts.len() && (#[trigger] ts[i]).precursors.len() > 0 ==> es.contains(ts[i])
            &&& forall|j: int|
                0 <= j < es.len() ==> (#[trigger] es[j]).precursors.len() > 0 && ts.contains(es[j])
            &&& forall|j1: int, j2: int|
                0 <= j1 < j2 < es.len() ==> (#[trigger] es[j1]).name != (#[trigger] es[j2]).name
            &&& forall|i: int, j: int|
                0 <= i < ts.len() && (#[trigger] ts[i]).precursors.len() == 0 && 0 <= j < es.len()
                    ==> (#[trigger] es[j]).name != ts[i].name
        }),
{
    lemma_entries_from(ts, 0);
    let es = mermaid_entries(ts);
    assert forall|j: int| 0 <= j < es.len() implies (#[trigger] es[j]).precursors.len() > 0
        && ts.contains(es[j]) by {
        assert(entry_origin(ts, 0, es[j]));
        let k = choose|k: int| 0 <= k < ts.len() && es[j] == #[trigger] ts[k] && ts[k].precursors.len() > 0;
        assert(ts[k] == es[j]);
    }
    assert forall|i: int, j: int|
        0 <= i < ts.len() && (#[trigger] ts[i]).precursors.len() == 0 && 0 <= j
            < es.len() implies (#[trigger] es[j]).name != ts[i].name by {
        assert(entry_origin(ts, 0, es[j]));
        let k = choose|k: int| 0 <= k < ts.len() && es[j] == #[trigger] ts[k] && ts[k].precursors.len() > 0;
        if k != i {
            assert(ts[k].name != ts[i].name);
        }
    }
}

proof fn lemma_entries_from(ts: Seq<TaskModel>, i: int)
    requires
        0 <= i,
        tasks_names_unique(ts),
    ensures
        ({
            let es = entries_from(ts, i);
            &&& forall|j: int| 0 <= j < es.len() ==> entry_origin(ts, i, #[trigger] es[j])
            &&& forall|k: int|
                i <= k < ts.len() && (#[trigger] ts[k]).precursors.len() > 0 ==> es.contains(ts[k])
            &&& forall|j1: int, j2: int|
                0 <= j1 < j2 < es.len() ==> (#[trigger] es[j1]).name != (#[trigger] es[j2]).name
        }),
    decreases ts.len() - i,
{
    let es = entries_from(ts, i);
    if i >= ts.len() {
    } else {
        lemma_entries_from(ts, i + 1);
        let rest = entries_from(ts, i + 1);
        assert forall|j: int| 0 <= j < rest.len() implies entry_origin(ts, i, #[trigger] rest[j])
            by {
            assert(entry_origin(ts, i + 1, rest[j]));
            let k = choose|k: int|
                i + 1 <= k < ts.len() && rest[j] == #[trigger] ts[k] && ts[k].precursors.len() > 0;
            assert(rest[j] == ts[k] && ts[k].precursors.len() > 0);
        }
        if ts[i].precursors.len() > 0 {
            assert(es == seq![ts[i]] + rest);
            assert(es[0] == ts[i]);
            assert forall|j: int| 0 <= j < es.len() implies entry_origin(ts, i, #[trigger] es[j])
                by {
                if j == 0 {
                    assert(es[0] == ts[i] && ts[i].precursors.len() > 0);
                } else {
                    assert(es[j] == rest[j - 1]);
                }
            }
            assert forall|k: int|
                i <= k < ts.len() && (#[trigger] ts[k]).precursors.len() > 0 implies es.contains(
                ts[k],
            ) by {
                if k == i {
                    assert(es[0] == ts[k]);
                } else {
                    assert(rest.contains(ts[k]));
                    let j = choose|j: int| 0 <= j < rest.len() && rest[j] == ts[k];
                    assert(es[j + 1] == ts[k]);
                }
            }
            assert forall|j1: int, j2: int| 0 <= j1 < j2 < es.len() implies (
            #[trigger] es[j1]).name != (#[trigger] es[j2]).name by {
                if j1 == 0 {
                    assert(es[j2] == rest[j2 - 1]);
                    assert(entry_origin(ts, i + 1, rest[j2 - 1]));
                    let k = choose|k: int|
                        i + 1 <= k < ts.len() && rest[j2 - 1] == #[trigger] ts[k]
                            && ts[k].precursors.len() > 0;
                    assert(ts[i].name != ts[k].name);
                } else {
                    assert(es[j1] == rest[j1 - 1]);
                    assert(es[j2] == rest[j2 - 1]);
                }
            }
        } else {
            assert(es == rest);
            assert forall|k: int|
                i <= k < ts.len() && (#[trigger] ts[k]).precursors.len() > 0 implies es.contains(
                ts[k],
            ) by {
                assert(k != i);
                assert(rest.contains(ts[k]));
            }
        }
    }
}

} // verus!
