use runbook::{view_rows, Book, ExecutionFlavor, LoadError, ResolveError};

const FENCE: &str = "```";

fn setup_doc() -> String {
    format!(
        "# Setup\n\nInstall the tool.\n{f}install python\nprint(\"hi\")\n{f}\n\nRemove build output.\n{f}clean\nrm -rf target\n{f}\n",
        f = FENCE
    )
}

fn load(text: &str, filter: Option<&str>) -> Result<Book, LoadError> {
    Book::from_text(text, filter.map(|s| s.to_string()))
}

#[test]
fn setup_page_scenario() {
    let book = load(&setup_doc(), None).unwrap();
    assert_eq!(book.pages.len(), 1);
    let page = &book.pages[0];
    assert_eq!(page.name, "Setup");
    assert!(page.categories.is_empty());
    assert_eq!(page.functions.len(), 2);
    assert_eq!(page.functions[0].name, "install");
    assert_eq!(page.functions[1].name, "clean");
    assert_eq!(page.functions[0].interpreter, Some("python".to_string()));
    assert_eq!(page.functions[1].interpreter, None);
    assert_eq!(page.functions[0].description, "Install the tool.");
    assert_eq!(page.functions[1].script, "rm -rf target\n");
    assert_eq!(
        ExecutionFlavor::for_function(&page.functions[0]),
        Ok(ExecutionFlavor::InterpretedScript { interpreter: "python".to_string() })
    );
    assert_eq!(ExecutionFlavor::for_function(&page.functions[1]), Ok(ExecutionFlavor::ShellScript));
}

#[test]
fn duplicate_function_fails() {
    let text = format!("# Build\n{f}build\nmake\n{f}\n{f}build\nmake all\n{f}\n", f = FENCE);
    assert_eq!(load(&text, None), Err(LoadError::DuplicateFunction("build".to_string())));
}

#[test]
fn filter_install_scenario() {
    let book = load(&setup_doc(), Some("install")).unwrap();
    assert_eq!(book.pages.len(), 1);
    assert_eq!(book.pages[0].name, "Setup");
    assert_eq!(book.pages[0].functions.len(), 1);
    assert_eq!(book.pages[0].functions[0].name, "install");
}

#[test]
fn empty_body_is_ambiguous_and_others_still_resolve() {
    let text = format!("# Misc\n{f}empty\n{f}\n{f}list\nls\n{f}\n", f = FENCE);
    let book = load(&text, None).unwrap();
    let fs = &book.pages[0].functions;
    assert_eq!(fs.len(), 2);
    assert_eq!(ExecutionFlavor::for_function(&fs[0]), Err(ResolveError::AmbiguousFlavor));
    assert_eq!(ExecutionFlavor::for_function(&fs[1]), Ok(ExecutionFlavor::ShellScript));
    let rows = view_rows(&book);
    assert_eq!(rows.len(), 2);
    assert_eq!(rows[0].context, "ambiguous body");
    assert_eq!(rows[1].function, "list");
    assert_eq!(rows[1].context, "shell");
}

#[test]
fn blank_body_is_ambiguous() {
    let text = format!("# Misc\n{f}blank\n   \n\t\n{f}\n", f = FENCE);
    let book = load(&text, None).unwrap();
    assert_eq!(
        ExecutionFlavor::for_function(&book.pages[0].functions[0]),
        Err(ResolveError::AmbiguousFlavor)
    );
}

#[test]
fn function_count_matches_blocks() {
    let text = format!(
        "# Tools\n## Setup\n{f}a\nx\n{f}\n{f}b python\ny\n{f}\n# Other\n{f}c\nz\n{f}\n",
        f = FENCE
    );
    let book = load(&text, None).unwrap();
    assert_eq!(book.function_count(), 3);
    assert_eq!(book.pages.len(), 3);
}

#[test]
fn loading_twice_gives_equal_books() {
    let a = load(&setup_doc(), None).unwrap();
    let b = load(&setup_doc(), None).unwrap();
    assert_eq!(a, b);
    let text = format!("# A\n{f}x\n", f = FENCE);
    assert_eq!(load(&text, None), load(&text, None));
}

#[test]
fn filter_ignores_ascii_case_and_matches_pages() {
    let text = format!(
        "# Tools\n## Setup\n{f}a\nx\n{f}\n## Clean\n{f}wipe\nrm x\n{f}\n{f}Purge\nrm y\n{f}\n",
        f = FENCE
    );
    let by_page = load(&text, Some("SET")).unwrap();
    assert_eq!(by_page.pages.len(), 1);
    assert_eq!(by_page.pages[0].name, "Setup");
    assert_eq!(by_page.pages[0].functions.len(), 1);
    let by_category = load(&text, Some("tools")).unwrap();
    assert_eq!(by_category.pages.len(), 2);
    assert_eq!(by_category.function_count(), 3);
    let by_name = load(&text, Some("purge")).unwrap();
    assert_eq!(by_name.pages.len(), 1);
    assert_eq!(by_name.pages[0].name, "Clean");
    assert_eq!(by_name.pages[0].functions.len(), 1);
    assert_eq!(by_name.pages[0].functions[0].name, "Purge");
}

#[test]
fn filter_matching_nothing_gives_no_pages() {
    let book = load(&setup_doc(), Some("nothing-here")).unwrap();
    assert!(book.pages.is_empty());
}

#[test]
fn empty_filter_keeps_pages_with_functions() {
    let text = format!("# Empty\n# Full\n{f}a\nx\n{f}\n", f = FENCE);
    let all = load(&text, None).unwrap();
    assert_eq!(all.pages.len(), 2);
    let filtered = load(&text, Some("")).unwrap();
    assert_eq!(filtered.pages.len(), 1);
    assert_eq!(filtered.pages[0].name, "Full");
}

#[test]
fn unsupported_interpreter() {
    let text = format!("# Old\n{f}report cobol\nDISPLAY 'HI'.\n{f}\n", f = FENCE);
    let book = load(&text, None).unwrap();
    let r = ExecutionFlavor::for_function(&book.pages[0].functions[0]);
    assert_eq!(r, Err(ResolveError::UnsupportedFlavor("cobol".to_string())));
    assert_eq!(r.unwrap_err().label(), "unsupported interpreter: cobol");
}

#[test]
fn known_interpreters_resolve() {
    for name in ["python", "python3", "node", "ruby", "perl", "bash", "sh"] {
        let text = format!("# P\n{f}run {n}\n{f}\n", f = FENCE, n = name);
        let book = load(&text, None).unwrap();
        assert_eq!(
            ExecutionFlavor::for_function(&book.pages[0].functions[0]),
            Ok(ExecutionFlavor::InterpretedScript { interpreter: name.to_string() })
        );
    }
}

#[test]
fn resolving_twice_gives_same_result() {
    let book = load(&setup_doc(), None).unwrap();
    for f in &book.pages[0].functions {
        assert_eq!(ExecutionFlavor::for_function(f), ExecutionFlavor::for_function(f));
    }
}

#[test]
fn block_before_heading_is_parse_error() {
    let text = format!("intro\n{f}a\nx\n{f}\n", f = FENCE);
    assert_eq!(load(&text, None), Err(LoadError::Parse { line: 2 }));
}

#[test]
fn repeated_heading_path_is_parse_error() {
    let text = "# A\n## B\n# C\n## B\n# C\n";
    assert_eq!(load(text, None), Err(LoadError::Parse { line: 5 }));
}

#[test]
fn unclosed_block_is_malformed() {
    let text = format!("# A\n\n{f}a\nx\n", f = FENCE);
    assert_eq!(load(&text, None), Err(LoadError::MalformedBlock { line: 3 }));
}

#[test]
fn block_without_name_is_malformed() {
    let text = format!("# A\n{f}\nx\n{f}\n", f = FENCE);
    assert_eq!(load(&text, None), Err(LoadError::MalformedBlock { line: 2 }));
}

#[test]
fn block_with_two_interpreters_is_malformed() {
    let text = format!("# A\n{f}a python ruby\nx\n{f}\n", f = FENCE);
    assert_eq!(load(&text, None), Err(LoadError::MalformedBlock { line: 2 }));
}

#[test]
fn nested_headings_give_categories() {
    let text = format!(
        "# Tools\n## Setup\n### Deep\n## Clean\n{f}a\nx\n{f}\n# Other\n",
        f = FENCE
    );
    let book = load(&text, None).unwrap();
    let names: Vec<&str> = book.pages.iter().map(|p| p.name.as_str()).collect();
    assert_eq!(names, vec!["Tools", "Setup", "Deep", "Clean", "Other"]);
    assert_eq!(book.pages[2].categories, vec!["Tools".to_string(), "Setup".to_string()]);
    assert_eq!(book.pages[3].categories, vec!["Tools".to_string()]);
    assert!(book.pages[4].categories.is_empty());
    assert_eq!(book.pages[3].functions.len(), 1);
}

#[test]
fn skipped_heading_levels_nest_by_depth() {
    let text = "# A\n### C\n### D\n## B\n";
    let book = load(text, None).unwrap();
    assert_eq!(book.pages[2].categories, vec!["A".to_string()]);
    assert_eq!(book.pages[3].categories, vec!["A".to_string()]);
}

#[test]
fn empty_document_has_no_pages() {
    let book = load("", None).unwrap();
    assert!(book.pages.is_empty());
    assert_eq!(book.function_count(), 0);
}

#[test]
fn description_lines_join_with_spaces() {
    let text = format!("# A\nfirst line\n\nsecond line\n{f}a\nx\n{f}\n{f}b\ny\n{f}\n", f = FENCE);
    let book = load(&text, None).unwrap();
    assert_eq!(book.pages[0].functions[0].description, "first line second line");
    assert_eq!(book.pages[0].functions[1].description, "");
}

#[test]
fn block_body_keeps_lines_and_fence_like_text() {
    let text = format!("# A\n{f}a\necho 1\n{f}x\n  # not a heading\n{f}\n", f = FENCE);
    let book = load(&text, None).unwrap();
    assert_eq!(book.pages.len(), 1);
    assert_eq!(book.pages[0].functions[0].script, "echo 1\n```x\n  # not a heading\n");
}

#[test]
fn view_rows_label_pages_and_flavors() {
    let text = format!(
        "# Tools\n## Setup\nGet it.\n{f}install python\nx\n{f}\n{f}clean\nrm\n{f}\n# Misc\n{f}old cobol\nx\n{f}\n",
        f = FENCE
    );
    let book = load(&text, None).unwrap();
    let rows = view_rows(&book);
    assert_eq!(rows.len(), 3);
    assert_eq!(rows[0].page, "Tools > Setup");
    assert_eq!(rows[0].function, "install");
    assert_eq!(rows[0].context, "python");
    assert_eq!(rows[0].description, "Get it.");
    assert_eq!(rows[1].page, "");
    assert_eq!(rows[1].context, "shell");
    assert_eq!(rows[2].page, " > Misc");
    assert_eq!(rows[2].context, "unsupported interpreter: cobol");
}

#[test]
fn flavor_labels() {
    assert_eq!(ExecutionFlavor::ShellScript.label(), "shell");
    assert_eq!(
        ExecutionFlavor::InterpretedScript { interpreter: "ruby".to_string() }.label(),
        "ruby"
    );
    assert_eq!(ResolveError::AmbiguousFlavor.label(), "ambiguous body");
}
