use kod_core::diagnostics::{
    check_report_text, count_resolved, lsp_report_text, render_diagnostics, unseen_diagnostics,
    Diagnostic,
};

fn diag(file: &str, line: usize, code: Option<&str>, message: &str) -> Diagnostic {
    Diagnostic {
        file: file.to_string(),
        line,
        column: 5,
        severity: "error".to_string(),
        code: code.map(|c| c.to_string()),
        message: message.to_string(),
    }
}

#[test]
fn a_diagnostic_renders_on_one_line() {
    let mut block = String::new();
    render_diagnostics(&mut block, &vec![diag("src/a.rs", 3, Some("E0308"), "mismatched types")], 20);
    assert_eq!(block, "  error [E0308] src/a.rs:3:5 — mismatched types\n");
    let mut b2 = String::new();
    render_diagnostics(&mut b2, &vec![diag("a.rs", 1, None, "m")], 20);
    assert_eq!(b2, "  error  a.rs:1:5 — m\n");
}

#[test]
fn long_messages_are_cut_by_characters() {
    let msg = "é".repeat(200);
    let mut block = String::new();
    render_diagnostics(&mut block, &vec![diag("a.rs", 1, None, &msg)], 20);
    assert_eq!(block, format!("  error  a.rs:1:5 — {}…\n", "é".repeat(160)));
}

#[test]
fn only_the_first_diagnostics_are_listed() {
    let ds: Vec<Diagnostic> = (0..25).map(|i| diag("a.rs", i, None, "m")).collect();
    let mut block = String::new();
    render_diagnostics(&mut block, &ds, 20);
    assert_eq!(block.lines().count(), 21);
    assert!(block.ends_with("  … and 5 more.\n"));
}

#[test]
fn a_moved_error_is_not_new() {
    let baseline = vec![diag("a.rs", 10, Some("E1"), "bad"), diag("b.rs", 1, None, "old")];
    let now = vec![diag("a.rs", 11, Some("E1"), "bad"), diag("c.rs", 2, None, "fresh")];
    assert_eq!(unseen_diagnostics(&now, &baseline), vec![1]);
    assert_eq!(count_resolved(&baseline, &now), 1);
}

#[test]
fn resolved_keys_are_counted_once() {
    let baseline = vec![diag("a.rs", 1, None, "x"), diag("a.rs", 2, None, "x"), diag("b.rs", 1, None, "y")];
    assert_eq!(count_resolved(&baseline, &Vec::new()), 2);
}

#[test]
fn lsp_report_shapes() {
    assert_eq!(
        lsp_report_text("rust-analyzer", &Vec::new()),
        "\n## LSP diagnostics\n\n`rust-analyzer`: no diagnostics on this file.\n"
    );
    let r = lsp_report_text("rust-analyzer", &vec![diag("a.rs", 1, None, "m")]);
    assert_eq!(
        r,
        "\n## LSP diagnostics\n\n`rust-analyzer` reported 1 diagnostic(s) on this file:\n\n  error  a.rs:1:5 — m\n"
    );
}

#[test]
fn check_report_without_a_baseline() {
    assert_eq!(
        check_report_text("cargo check", &Vec::new(), None, &Vec::new()),
        "\n## Auto-check\n\n`cargo check` is clean.\n"
    );
    let r = check_report_text("cargo check", &vec![diag("a.rs", 1, None, "m")], None, &Vec::new());
    assert!(r.contains("(No baseline was captured, so all are shown"));
    assert!(r.ends_with("  error  a.rs:1:5 — m\n"));
}

#[test]
fn check_report_names_new_errors_and_resolved_ones() {
    let baseline = vec![diag("old.rs", 1, None, "gone")];
    let now = vec![diag("a.rs", 1, None, "new")];
    let fresh = vec![diag("a.rs", 1, None, "new")];
    let r = check_report_text("cargo check", &now, Some(&baseline), &fresh);
    assert_eq!(
        r,
        "\n## Auto-check\n\n`cargo check` reported 1 NEW diagnostic(s) from this write:\n\n  error  a.rs:1:5 — new\n\n(1 pre-existing diagnostic(s) resolved.)\n\nFix the new errors before continuing.\n"
    );
}

#[test]
fn check_report_when_nothing_is_new() {
    let baseline = vec![diag("a.rs", 1, None, "stays"), diag("b.rs", 1, None, "gone")];
    let now = vec![diag("a.rs", 2, None, "stays")];
    let r = check_report_text("cargo check", &now, Some(&baseline), &Vec::new());
    assert!(r.contains("introduced no new errors and resolved 1 pre-existing diagnostic(s)."));
    let r2 = check_report_text("cargo check", &now, Some(&now), &Vec::new());
    assert!(r2.contains("introduced no new errors. 1 pre-existing diagnostic(s) remain"));
    let r3 = check_report_text("cargo check", &Vec::new(), Some(&Vec::new()), &Vec::new());
    assert_eq!(r3, "\n## Auto-check\n\n`cargo check` is clean.\n");
}
