use kod_core::at_refs::{
    at_ref_block, at_reference_candidates, expand_at_references, MAX_AT_REFS, MAX_AT_REF_BYTES,
};

/// The files a test workspace holds, as `(relative path, text)`. The
/// application resolves a candidate on disk (inside the working
/// directory, a regular file); here a candidate resolves when it names
/// one of these files.
fn resolve(token: &str, files: &[(&str, &str)]) -> Option<String> {
    files
        .iter()
        .find(|(p, _)| *p == token)
        .map(|(p, text)| at_ref_block(&format!("/work/{p}"), text, MAX_AT_REF_BYTES))
}

fn expand(input: &str, files: &[(&str, &str)]) -> String {
    let resolved: Vec<Option<String>> =
        at_reference_candidates(input).iter().map(|t| resolve(t, files)).collect();
    expand_at_references(input, &resolved)
}

#[test]
fn a_real_file_inside_the_workspace_is_expanded() {
    let out = expand("see @foo.rs for details", &[("foo.rs", "fn main() {}\n")]);
    assert!(out.contains("<file path="), "no file block: {out}");
    assert!(out.contains("fn main()"), "content missing: {out}");
    assert!(out.contains("see "), "prefix lost: {out}");
    assert!(out.contains(" for details"), "suffix lost: {out}");
}

#[test]
fn a_missing_file_leaves_the_token_untouched() {
    let out = expand("see @missing.rs here", &[]);
    assert!(out.contains("@missing.rs"), "token mangled: {out}");
    assert!(!out.contains("<file"), "spurious expansion: {out}");
}

#[test]
fn a_non_path_token_is_left_alone() {
    let out = expand("hi @user how are you", &[]);
    assert_eq!(out, "hi @user how are you");
    assert!(at_reference_candidates("hi @user how are you").is_empty());
}

#[test]
fn a_path_that_escapes_the_workspace_is_refused() {
    let out = expand("see @../etc/passwd", &[]);
    assert!(!out.contains("<file"), "escape expanded: {out}");
    assert!(out.contains("@../etc/passwd"), "token eaten: {out}");
}

#[test]
fn an_empty_input_is_unchanged() {
    assert_eq!(expand("", &[]), "");
}

#[test]
fn a_prompt_with_no_at_tokens_is_unchanged() {
    let input = "plain text, nothing to expand";
    assert_eq!(expand(input, &[]), input);
}

#[test]
fn only_word_boundary_at_signs_start_a_reference() {
    let out = expand("contact me at user@example.com", &[]);
    assert!(out.contains("user@example.com"), "mangled: {out}");
    assert!(at_reference_candidates("contact me at user@example.com").is_empty());
}

#[test]
fn a_bare_at_sign_is_preserved() {
    let out = expand("just @ alone", &[]);
    assert!(out.contains('@'), "at sign lost: {out}");
}

#[test]
fn an_empty_file_is_expanded_to_an_empty_block() {
    let out = expand("see @empty.txt", &[("empty.txt", "")]);
    assert!(out.contains("<file path="), "no block for empty file: {out}");
}

#[test]
fn a_directory_reference_does_not_expand() {
    let out = expand("see @my.dir", &[]);
    assert!(!out.contains("<file"), "directory expanded: {out}");
}

#[test]
fn candidates_are_listed_in_order_without_the_at() {
    let c = at_reference_candidates("@a.rs x\t@~/notes @b/c\n@@d.e @user");
    assert_eq!(
        c,
        vec!["a.rs".to_string(), "~/notes".to_string(), "b/c".to_string(), "@d.e".to_string()]
    );
}

#[test]
fn the_resolved_block_replaces_the_whole_token() {
    let out = expand_at_references(
        "a @x.rs b @y.rs c",
        &vec![Some("[X]".to_string()), None],
    );
    assert_eq!(out, "a [X] b @y.rs c");
}

#[test]
fn at_most_the_cap_of_references_expand() {
    let input: String = (0..MAX_AT_REFS + 2).map(|i| format!("@f{i}.rs ")).collect();
    let resolved: Vec<Option<String>> =
        (0..MAX_AT_REFS + 2).map(|i| Some(format!("<{i}>"))).collect();
    let out = expand_at_references(&input, &resolved);
    assert!(out.contains(&format!("<{}>", MAX_AT_REFS - 1)));
    assert!(!out.contains(&format!("<{}>", MAX_AT_REFS)));
    assert!(out.contains(&format!("@f{}.rs", MAX_AT_REFS)));
}

#[test]
fn non_ascii_text_is_kept() {
    let out = expand_at_references("héllo @x.rs — ok", &vec![Some("B".to_string())]);
    assert_eq!(out, "héllo B — ok");
}

#[test]
fn a_block_is_cut_on_a_char_boundary() {
    assert_eq!(at_ref_block("/p", "abc", 10), "\n\n<file path=\"/p\">\nabc\n</file>\n\n");
    assert_eq!(
        at_ref_block("/p", "aé", 2),
        "\n\n<file path=\"/p\">\na\n[truncated at 2 bytes]\n</file>\n\n"
    );
}

#[test]
fn unreadable_references_leave_the_prompt_unchanged() {
    let input = "look at @src/main.rs and @docs/x.md please";
    let n = at_reference_candidates(input).len();
    assert_eq!(n, 2);
    assert_eq!(expand_at_references(input, &vec![None; n]), input);
    assert_eq!(expand_at_references(input, &vec![]), input);
}
