use agent_workspace_api::doc_tree::{detect_document_cycle_groups, is_descendant_of, would_create_document_cycle};
use agent_workspace_api::documents::{
    choose_cycle_repair_target, default_body_format, default_status, new_document, plan_cycle_repair,
    plan_move_document, plan_update_document, validate_create_document, CreateDocumentRequest, DocumentMove,
    DocumentResponse, MoveDocumentRequest, UpdateDocumentRequest,
};

fn doc(id: &str, parent: Option<&str>, updated_at: &str) -> DocumentResponse {
    DocumentResponse {
        id: id.to_string(),
        workspace_id: "w".to_string(),
        project_id: "p".to_string(),
        parent_document_id: parent.map(|s| s.to_string()),
        slug: format!("doc-{id}"),
        title: format!("Doc {id}"),
        body_format: "markdown".to_string(),
        body_md: String::new(),
        status: "draft".to_string(),
        version: 1,
        created_at: "2024-01-01 00:00:00".to_string(),
        updated_at: updated_at.to_string(),
    }
}

fn s(x: &str) -> String {
    x.to_string()
}

fn update(version: i32) -> UpdateDocumentRequest {
    UpdateDocumentRequest {
        version,
        slug: None,
        title: None,
        body_md: None,
        parent_document_id: None,
        body_format: None,
        status: None,
    }
}

// a <- b <- c (c's parent is b, b's parent is a), and d alone
fn tree() -> Vec<DocumentResponse> {
    vec![
        doc("a", None, "t1"),
        doc("b", Some("a"), "t1"),
        doc("c", Some("b"), "t1"),
        doc("d", None, "t1"),
    ]
}

#[test]
fn cycle_check_follows_parents() {
    let docs = tree();
    assert!(would_create_document_cycle(&docs, &s("a"), &s("c")));
    assert!(would_create_document_cycle(&docs, &s("a"), &s("a")));
    assert!(!would_create_document_cycle(&docs, &s("c"), &s("a")));
    assert!(!would_create_document_cycle(&docs, &s("a"), &s("d")));
    assert!(!would_create_document_cycle(&docs, &s("a"), &s("unknown")));
}

#[test]
fn descendant_check_is_strict() {
    let docs = tree();
    assert!(is_descendant_of(&docs, &s("a"), &s("c")));
    assert!(is_descendant_of(&docs, &s("b"), &s("c")));
    assert!(!is_descendant_of(&docs, &s("c"), &s("a")));
    assert!(!is_descendant_of(&docs, &s("a"), &s("a")));
}

#[test]
fn detects_cycles_and_self_loops() {
    // x -> y -> z -> x is a cycle, s is its own parent, t hangs off the cycle
    let docs = vec![
        doc("t", Some("x"), "t1"),
        doc("x", Some("y"), "t1"),
        doc("y", Some("z"), "t1"),
        doc("z", Some("x"), "t1"),
        doc("s", Some("s"), "t1"),
        doc("free", None, "t1"),
    ];
    let groups = detect_document_cycle_groups(&docs);
    assert_eq!(groups.len(), 2);
    let mut first = groups[0].clone();
    first.sort();
    assert_eq!(first, vec![s("x"), s("y"), s("z")]);
    assert_eq!(groups[1], vec![s("s")]);
    assert!(detect_document_cycle_groups(&tree()).is_empty());
}

fn cyclic_docs() -> Vec<DocumentResponse> {
    vec![
        doc("t", Some("x"), "t1"),
        doc("x", Some("y"), "t1"),
        doc("y", Some("z"), "t1"),
        doc("z", Some("x"), "t1"),
        doc("s", Some("s"), "t1"),
        doc("free", None, "t1"),
    ]
}

fn as_sets(groups: &Vec<Vec<String>>) -> Vec<Vec<String>> {
    let mut out: Vec<Vec<String>> = groups
        .iter()
        .map(|g| {
            let mut g = g.clone();
            g.sort();
            g
        })
        .collect();
    out.sort();
    out
}

#[test]
fn detection_lists_groups_in_reaching_order() {
    // t reaches the cycle first and enters it at x; the self loop s comes next
    let groups = detect_document_cycle_groups(&cyclic_docs());
    assert_eq!(groups, vec![vec![s("z"), s("y"), s("x")], vec![s("s")]]);
}

#[test]
fn detection_ignores_document_order() {
    let docs = cyclic_docs();
    let mut reversed = cyclic_docs();
    reversed.reverse();
    let forward = detect_document_cycle_groups(&docs);
    let backward = detect_document_cycle_groups(&reversed);
    assert_eq!(backward, vec![vec![s("s")], vec![s("y"), s("x"), s("z")]]);
    assert_eq!(as_sets(&forward), as_sets(&backward));
}

#[test]
fn repair_reports_the_detected_groups() {
    let docs = cyclic_docs();
    let plan = plan_cycle_repair(&docs);
    assert_eq!(plan.cycle_groups, detect_document_cycle_groups(&docs));
    assert_eq!(plan.repaired_document_ids.len(), plan.cycle_groups.len());
}

#[test]
fn repair_picks_latest_update_then_greatest_id() {
    let docs = vec![
        doc("x", Some("y"), "2024-01-02"),
        doc("y", Some("x"), "2024-01-03"),
        doc("u", Some("v"), "2024-01-01"),
        doc("v", Some("u"), "2024-01-01"),
    ];
    assert_eq!(choose_cycle_repair_target(&vec![s("x"), s("y")], &docs), "y");
    assert_eq!(choose_cycle_repair_target(&vec![s("u"), s("v")], &docs), "v");
    // an id that is not a document counts as oldest
    assert_eq!(choose_cycle_repair_target(&vec![s("zz"), s("u")], &docs), "u");
    let plan = plan_cycle_repair(&docs);
    assert_eq!(plan.cycle_groups.len(), 2);
    let mut repaired = plan.repaired_document_ids.clone();
    repaired.sort();
    assert_eq!(repaired, vec![s("v"), s("y")]);
}

#[test]
fn repair_leaves_no_cycle_behind() {
    let mut docs = vec![
        doc("x", Some("y"), "2024-01-02"),
        doc("y", Some("z"), "2024-01-03"),
        doc("z", Some("x"), "2024-01-01"),
        doc("w", Some("w"), "2024-01-01"),
    ];
    let plan = plan_cycle_repair(&docs);
    for d in docs.iter_mut() {
        if plan.repaired_document_ids.contains(&d.id) {
            d.parent_document_id = None;
        }
    }
    assert!(detect_document_cycle_groups(&docs).is_empty());
}

#[test]
fn update_reports_conflicts_and_cycles() {
    let docs = tree();
    let stale = plan_update_document(&docs, &s("a"), &update(2), "r1").unwrap_err();
    assert_eq!(stale.error_code, "conflict");
    assert_eq!(stale.message, "document version is stale; reload before updating");

    let missing = plan_update_document(&docs, &s("nope"), &update(1), "r1").unwrap_err();
    assert_eq!(missing.error_code, "not_found");
    assert_eq!(missing.message, "document not found");

    let mut own = update(1);
    own.parent_document_id = Some(Some(s("a")));
    let e = plan_update_document(&docs, &s("a"), &own, "r1").unwrap_err();
    assert_eq!(e.message, "document cannot be its own parent");

    let mut cyc = update(1);
    cyc.parent_document_id = Some(Some(s("c")));
    let e = plan_update_document(&docs, &s("a"), &cyc, "r1").unwrap_err();
    assert_eq!(e.error_code, "validation_error");
    assert_eq!(e.message, "document cannot become a descendant of itself");

    let mut gone = update(1);
    gone.parent_document_id = Some(Some(s("ghost")));
    let e = plan_update_document(&docs, &s("a"), &gone, "r1").unwrap_err();
    assert_eq!(e.message, "parent document not found in this project");

    let mut ok = update(1);
    ok.title = Some(s("  New title  "));
    ok.parent_document_id = Some(Some(s("d")));
    let u = plan_update_document(&docs, &s("a"), &ok, "r1").unwrap();
    assert_eq!(u.title, Some(s("New title")));
    assert_eq!(u.parent_document_id, Some(s("d")));
    assert_eq!(u.expected_version, 1);
    assert_eq!(u.new_version, 2);

    let keep = plan_update_document(&docs, &s("c"), &update(1), "r1").unwrap();
    assert_eq!(keep.parent_document_id, Some(s("b")));

    let mut detach = update(1);
    detach.parent_document_id = Some(None);
    assert_eq!(plan_update_document(&docs, &s("c"), &detach, "r1").unwrap().parent_document_id, None);

    let mut bad_slug = update(1);
    bad_slug.slug = Some(s("-bad"));
    let e = plan_update_document(&docs, &s("c"), &bad_slug, "r1").unwrap_err();
    assert_eq!(
        e.message,
        "slug must be lowercase kebab-case (a-z, 0-9, hyphens; no leading/trailing hyphen)"
    );
}

#[test]
fn move_into_descendant_hands_children_to_parent() {
    // r <- a <- b <- c, a also has child e
    let docs = vec![
        doc("r", None, "t"),
        doc("a", Some("r"), "t"),
        doc("b", Some("a"), "t"),
        doc("c", Some("b"), "t"),
        doc("e", Some("a"), "t"),
    ];
    let m = plan_move_document(&docs, &s("a"), &MoveDocumentRequest { target_parent_document_id: Some(s("c")) }, "r1")
        .unwrap();
    match m {
        DocumentMove::Reparent { target_parent_document_id, direct_child_ids, children_parent_document_id } => {
            assert_eq!(target_parent_document_id, Some(s("c")));
            assert_eq!(direct_child_ids, vec![s("b"), s("e")]);
            assert_eq!(children_parent_document_id, Some(s("r")));
        }
        DocumentMove::Unchanged => panic!("expected a reparent"),
    }
    let same = plan_move_document(&docs, &s("b"), &MoveDocumentRequest { target_parent_document_id: Some(s("a")) }, "r1")
        .unwrap();
    assert!(matches!(same, DocumentMove::Unchanged));
    let plain = plan_move_document(&docs, &s("c"), &MoveDocumentRequest { target_parent_document_id: None }, "r1").unwrap();
    match plain {
        DocumentMove::Reparent { target_parent_document_id, direct_child_ids, .. } => {
            assert_eq!(target_parent_document_id, None);
            assert!(direct_child_ids.is_empty());
        }
        DocumentMove::Unchanged => panic!("expected a reparent"),
    }
    let own = plan_move_document(&docs, &s("c"), &MoveDocumentRequest { target_parent_document_id: Some(s("c")) }, "r1")
        .unwrap_err();
    assert_eq!(own.message, "document cannot be its own parent");
    let missing = plan_move_document(&docs, &s("zz"), &MoveDocumentRequest { target_parent_document_id: None }, "r1")
        .unwrap_err();
    assert_eq!(missing.status_code(), 404);
}

#[test]
fn move_result_has_no_cycle() {
    let mut docs = vec![
        doc("r", None, "t"),
        doc("a", Some("r"), "t"),
        doc("b", Some("a"), "t"),
        doc("c", Some("b"), "t"),
    ];
    let m = plan_move_document(&docs, &s("a"), &MoveDocumentRequest { target_parent_document_id: Some(s("c")) }, "r1")
        .unwrap();
    if let DocumentMove::Reparent { target_parent_document_id, direct_child_ids, children_parent_document_id } = m {
        for d in docs.iter_mut() {
            if direct_child_ids.contains(&d.id) {
                d.parent_document_id = children_parent_document_id.clone();
            }
        }
        for d in docs.iter_mut() {
            if d.id == "a" {
                d.parent_document_id = target_parent_document_id.clone();
            }
        }
    }
    assert!(detect_document_cycle_groups(&docs).is_empty());
    assert!(is_descendant_of(&docs, &s("c"), &s("a")));
}

#[test]
fn create_document_rules() {
    let body = CreateDocumentRequest {
        slug: s("intro"),
        title: s("   "),
        body_md: s("# Hi"),
        parent_document_id: None,
        body_format: default_body_format(),
        status: default_status(),
    };
    let e = validate_create_document(&body, "r1").unwrap_err();
    assert_eq!(e.message, "title must not be empty");
    let good = CreateDocumentRequest { title: s("  Intro "), ..body };
    assert!(validate_create_document(&good, "r1").is_ok());
    let row = new_document(&good, false, "r1").unwrap();
    assert_eq!(row.title, "Intro");
    assert_eq!(row.body_format, "markdown");
    assert_eq!(row.status, "draft");
    assert_eq!(row.version, 1);
    let with_parent = CreateDocumentRequest { parent_document_id: Some(s("p")), ..good };
    let e = new_document(&with_parent, false, "r1").unwrap_err();
    assert_eq!(e.message, "parent document not found in this project");
    let bad_status = CreateDocumentRequest {
        slug: s("intro"),
        title: s("Intro"),
        body_md: s(""),
        parent_document_id: None,
        body_format: s("markdown"),
        status: s("live"),
    };
    assert_eq!(
        validate_create_document(&bad_status, "r1").unwrap_err().message,
        "status must be one of: draft, published, archived"
    );
}
