use deml::builder::parse_dag;
use deml::mermaid::tasks_to_mermaid;

#[test]
fn rendering_positive_scenario_gives_one_line_per_dependent_task() {
    let doc = "UpRiver > A\n----\nA > B\n----\nB > C | D | E\n----\nC\nD\nE\n----\nF < C\nG < D | E > DownRiver\n----\nDownRiver < F";
    let dag = parse_dag(doc).expect("must compile");
    let rendered = tasks_to_mermaid(&dag).expect("rendering cannot fail");
    let lines: Vec<&str> = rendered.lines().collect();
    assert_eq!(lines[0], "flowchart TD");
    // every task but UpRiver has precursors, so eight lines follow the header
    assert_eq!(lines.len(), 9);
    for line in &lines[1..] {
        let trimmed = line.strip_prefix("    ").expect("four-space indent");
        assert!(trimmed.contains(" ---> "), "line must carry the arrow: {}", line);
    }
    assert!(lines.contains(&"    UpRiver ---> A"));
    assert!(lines.contains(&"    A ---> B"));
    assert!(lines.contains(&"    B ---> C"));
    assert!(lines.contains(&"    B ---> D"));
    assert!(lines.contains(&"    B ---> E"));
    assert!(lines.contains(&"    C ---> F"));
    assert!(lines.contains(&"    D & E ---> G"));
    assert!(lines.contains(&"    F & G ---> DownRiver"));
    assert!(!lines.iter().any(|l| l.ends_with("---> UpRiver")));
}

#[test]
fn tasks_without_precursors_emit_no_line() {
    let dag = parse_dag("A\nB\nC").expect("must compile");
    let rendered = tasks_to_mermaid(&dag).expect("rendering cannot fail");
    assert_eq!(rendered, "flowchart TD\n");
}

#[test]
fn joined_names_keep_precursor_set_order() {
    let dag = parse_dag("A\nB\nC\n----\nD < A | B | C").expect("must compile");
    let rendered = tasks_to_mermaid(&dag).expect("rendering cannot fail");
    assert_eq!(rendered, "flowchart TD\n    A & B & C ---> D\n");
}

#[test]
fn rendered_line_order_follows_map_order() {
    let doc = "A\n----\nB < A\nC < A";
    let dag = parse_dag(doc).expect("must compile");
    let rendered = tasks_to_mermaid(&dag).expect("rendering cannot fail");
    assert_eq!(rendered, "flowchart TD\n    A ---> B\n    A ---> C\n");
}
