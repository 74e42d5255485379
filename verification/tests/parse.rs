use deml::builder::parse_dag;
use deml::tasks::MyTask;
use deml::tasks::TaskAction;

fn get<'a>(dag: &'a Vec<MyTask>, name: &str) -> &'a MyTask {
    dag.iter().find(|t| t.name == name).expect("task not found")
}

fn has(names: &Vec<String>, name: &str) -> bool {
    names.iter().any(|n| n == name)
}

#[test]
fn parse_deml() {
    let dag_string = "UpRiver > A\n----\nA > B\n----\nB > C | D | E\n----\nC\nD\nE\n----\nF < C\nG < D | E > DownRiver\n----\nDownRiver < F";
    let dag = match parse_dag(dag_string) {
        Ok(dag) => dag,
        Err(e) => panic!("parse_dag has an error: {:?}", e),
    };
    assert!(dag.iter().any(|t| t.name == "UpRiver"));
    assert!(dag.iter().any(|t| t.name == "A"));
    assert!(dag.iter().any(|t| t.name == "B"));
    assert!(dag.iter().any(|t| t.name == "C"));
    assert!(dag.iter().any(|t| t.name == "D"));
    assert!(dag.iter().any(|t| t.name == "E"));
    assert!(dag.iter().any(|t| t.name == "F"));
    assert!(dag.iter().any(|t| t.name == "G"));
    assert!(dag.iter().any(|t| t.name == "DownRiver"));
    let node = get(&dag, "UpRiver");
    assert!(node.precursors.is_empty());
    let node = get(&dag, "A");
    assert!(has(&node.precursors, "UpRiver"));
    let node = get(&dag, "B");
    assert!(has(&node.precursors, "A"));
    let node = get(&dag, "C");
    assert!(has(&node.precursors, "B"));
    let node = get(&dag, "D");
    assert!(has(&node.precursors, "B"));
    let node = get(&dag, "E");
    assert!(has(&node.precursors, "B"));
    let node = get(&dag, "F");
    assert!(has(&node.precursors, "C"));
    let node = get(&dag, "G");
    assert!(has(&node.precursors, "D"));
    assert!(has(&node.precursors, "E"));
    let node = get(&dag, "DownRiver");
    assert!(has(&node.precursors, "F"));
    assert!(has(&node.precursors, "G"));
}

#[test]
fn positive_scenario_exact_precursor_sets() {
    let dag_string = "UpRiver > A\n----\nA > B\n----\nB > C | D | E\n----\nC\nD\nE\n----\nF < C\nG < D | E > DownRiver\n----\nDownRiver < F";
    let dag = parse_dag(dag_string).expect("scenario must compile");
    assert_eq!(dag.len(), 9);
    let sets: Vec<(&str, Vec<&str>)> = vec![
        ("UpRiver", vec![]),
        ("A", vec!["UpRiver"]),
        ("B", vec!["A"]),
        ("C", vec!["B"]),
        ("D", vec!["B"]),
        ("E", vec!["B"]),
        ("F", vec!["C"]),
        ("G", vec!["D", "E"]),
        ("DownRiver", vec!["F", "G"]),
    ];
    for (name, expected) in sets {
        let node = get(&dag, name);
        assert_eq!(node.precursors.len(), expected.len(), "precursors of {}", name);
        for p in expected {
            assert!(has(&node.precursors, p), "{} should depend on {}", name, p);
        }
    }
}

#[test]
fn elevations_follow_delimiter_count() {
    let dag = parse_dag("A\nB\n----\nC < A\n----\nD < C").expect("must compile");
    assert_eq!(get(&dag, "A").elevation, 0);
    assert_eq!(get(&dag, "B").elevation, 0);
    assert_eq!(get(&dag, "C").elevation, -1);
    assert_eq!(get(&dag, "D").elevation, -2);
}

#[test]
fn empty_document_compiles_to_empty_map() {
    let dag = parse_dag("").expect("empty document must compile");
    assert!(dag.is_empty());
}

#[test]
fn comments_and_blank_lines_are_skipped() {
    let dag = parse_dag("# a comment\n\nA\n   \n# another\n----\nB < A\n").expect("must compile");
    assert_eq!(dag.len(), 2);
    assert!(has(&get(&dag, "B").precursors, "A"));
}

#[test]
fn duplicate_declaration_last_write_wins() {
    let dag = parse_dag("B\n----\nA < B\nA").expect("must compile");
    assert_eq!(dag.len(), 2);
    let node = get(&dag, "A");
    assert!(node.precursors.is_empty());
    assert_eq!(node.elevation, -1);
}

#[test]
fn name_in_both_relation_lists_is_permitted() {
    let dag = parse_dag("A\n----\nB < A > C\n----\nC").expect("must compile");
    let b = get(&dag, "B");
    assert_eq!(b.precursors.len(), 1);
    assert!(has(&b.precursors, "A"));
    let c = get(&dag, "C");
    assert_eq!(c.precursors.len(), 1);
    assert!(has(&c.precursors, "B"));
}

#[test]
fn duplicate_names_in_one_list_collapse() {
    let dag = parse_dag("A\n----\nB < A | A | A").expect("must compile");
    let b = get(&dag, "B");
    assert_eq!(b.precursors.len(), 1);
    assert!(has(&b.precursors, "A"));
}

#[test]
fn command_bodies_are_kept_verbatim() {
    let dag = parse_dag("A: echo hi\n----\nB < A: make -j2 all").expect("must compile");
    match &get(&dag, "A").action {
        TaskAction::Command(c) => assert_eq!(c, "echo hi"),
        TaskAction::NoOp => panic!("A should carry a command"),
    }
    match &get(&dag, "B").action {
        TaskAction::Command(c) => assert_eq!(c, "make -j2 all"),
        TaskAction::NoOp => panic!("B should carry a command"),
    }
}

#[test]
fn missing_command_is_the_inert_noop() {
    let dag = parse_dag("A").expect("must compile");
    match &get(&dag, "A").action {
        TaskAction::NoOp => {}
        TaskAction::Command(_) => panic!("A should have no command"),
    }
}

#[test]
fn delimiter_length_does_not_matter() {
    let dag = parse_dag("A\n-\nB < A\n--------\nC < B").expect("must compile");
    assert_eq!(get(&dag, "B").elevation, -1);
    assert_eq!(get(&dag, "C").elevation, -2);
}

#[test]
fn crlf_documents_parse_the_same_way() {
    let dag = parse_dag("A\r\n----\r\nB < A\r\n").expect("must compile");
    assert_eq!(dag.len(), 2);
    assert!(has(&get(&dag, "B").precursors, "A"));
    assert_eq!(get(&dag, "B").elevation, -1);
}

#[test]
fn precursor_ids_resolve_to_assigned_ids() {
    let dag = parse_dag("A\nB\n----\nC < A | B").expect("must compile");
    let c = get(&dag, "C");
    assert_eq!(c.precursor_ids.len(), 2);
    assert_eq!(c.precursor_ids[0], get(&dag, "A").tid);
    assert_eq!(c.precursor_ids[1], get(&dag, "B").tid);
    assert!(get(&dag, "A").precursor_ids.is_empty());
}

#[test]
fn compiling_twice_yields_identical_structure() {
    let doc = "UpRiver > A\n----\nA > B\n----\nB > C | D | E\n----\nC\nD\nE\n----\nF < C\nG < D | E > DownRiver\n----\nDownRiver < F";
    let first = parse_dag(doc).expect("must compile");
    let second = parse_dag(doc).expect("must compile");
    assert_eq!(first.len(), second.len());
    for (a, b) in first.iter().zip(second.iter()) {
        assert_eq!(a.name, b.name);
        assert_eq!(a.elevation, b.elevation);
        assert_eq!(a.precursors, b.precursors);
        assert_eq!(a.postcursors, b.postcursors);
    }
}

#[test]
fn compiled_references_all_resolve() {
    let doc = "UpRiver > A\n----\nA > B\n----\nB > C | D | E\n----\nC\nD\nE\n----\nF < C\nG < D | E > DownRiver\n----\nDownRiver < F";
    let dag = parse_dag(doc).expect("must compile");
    for t in dag.iter() {
        for p in t.precursors.iter() {
            assert!(dag.iter().any(|s| &s.name == p), "unresolved precursor {}", p);
        }
        for p in t.postcursors.iter() {
            assert!(dag.iter().any(|s| &s.name == p), "unresolved postcursor {}", p);
        }
    }
}

#[test]
fn every_precursor_edge_strictly_increases_elevation() {
    let doc = "UpRiver > A\n----\nA > B\n----\nB > C | D | E\n----\nC\nD\nE\n----\nF < C\nG < D | E > DownRiver\n----\nDownRiver < F";
    let dag = parse_dag(doc).expect("must compile");
    for t in dag.iter() {
        for p in t.precursors.iter() {
            let pre = get(&dag, p);
            assert!(t.elevation < pre.elevation, "{} must sit below {}", t.name, p);
        }
    }
}

#[test]
fn postcursor_precursor_symmetry_holds() {
    let doc = "UpRiver > A\n----\nA > B\n----\nB > C | D | E\n----\nC\nD\nE\n----\nF < C\nG < D | E > DownRiver\n----\nDownRiver < F";
    let dag = parse_dag(doc).expect("must compile");
    for t in dag.iter() {
        for s in t.postcursors.iter() {
            let succ = get(&dag, s);
            assert!(has(&succ.precursors, &t.name), "{} must list {}", s, t.name);
        }
    }
}
