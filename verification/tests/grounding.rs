use sirbone::agent::grounding::{
    extract_refs, facts, facts_block, looks_like_path, path_is_absent, prompt_context, Lookup, Refs,
};

#[test]
fn extracts_paths_symbols_counts_skips_noise() {
    let r = extract_refs(
        "Edit `src/lib.rs` and create `src/new.rs`. `validate` exists. 12 `unwrap`s. \
         Use `HashMap`. Glob `src/*.rs`. URL `https://x.io/a.rs`. \
         Span `mock.rs:1 fn f`. Range `src/lib.rs:5-9`.",
    );
    assert!(r.paths.contains(&"src/lib.rs".to_string()));
    assert!(r.paths.contains(&"src/new.rs".to_string()));
    assert!(r.symbols.contains(&"validate".to_string()));
    assert!(r.symbols.contains(&"HashMap".to_string())); // extracted; no fact later
    assert!(r.counts.contains(&(12, "unwrap".to_string())));
    // noise excluded:
    assert!(!r.paths.iter().any(|p| p.contains('*'))); // glob
    assert!(!r.paths.iter().any(|p| p.contains("http"))); // URL
    assert!(!r.paths.iter().any(|p| p.contains(' '))); // compound span
    // range suffix stripped to the bare path (resolves to the real file)
    assert!(r.paths.contains(&"src/lib.rs".to_string()));
}

#[test]
fn line_number_adjacency_is_not_a_count() {
    let r = extract_refs("Add the flag at src/main.rs:23 `Cli`.");
    assert!(r.counts.is_empty(), "{r:?}");
}

/// What a project with one file, `src/lib.rs`, says of some references.
fn looked_up(r: &Refs) -> Lookup {
    let lib = "/p/src/lib.rs".to_string();
    Lookup {
        present: r.paths.iter().map(|p| p == "src/lib.rs").collect(),
        files: vec![lib.clone()],
        declared: r
            .symbols
            .iter()
            .map(|s| {
                if s == "validate" || s == "Config" {
                    vec![lib.clone()]
                } else {
                    vec![]
                }
            })
            .collect(),
        occurrences: r
            .counts
            .iter()
            .map(|(_, s)| if s == "unwrap" { 3 } else { 0 })
            .collect(),
    }
}

#[test]
fn facts_are_true_and_neutral() {
    let draft = "Plan: edit `src/lib.rs`, create a `src/new.rs` module, the doctor \
                 path has no `validate` usage, we keep `Config`. It has 99 `unwrap`s. \
                 We also use `HashMap`.";
    let r = extract_refs(draft);
    let f = facts("/p", &r, &looked_up(&r));
    // missing path -> neutral fact (harmless: it's a to-create file)
    assert!(f.iter().any(|x| x.contains("`src/new.rs` is not a current file")));
    // existing-symbol -> authoritative location (NOT an accusation)
    assert!(f.iter().any(|x| x.contains("`validate` is defined in src/lib.rs")));
    assert!(f.iter().any(|x| x.contains("`Config` is defined in src/lib.rs")));
    // wrong count -> real number
    assert!(f.iter().any(|x| x.contains("`unwrap` occurs 3 times") && x.contains("99")));
    // external symbol -> NO fact (no noise, no wrong fact)
    assert!(!f.iter().any(|x| x.contains("`HashMap`")));
    // an existing path is not noise
    assert!(!f.iter().any(|x| x.contains("`src/lib.rs` is not a current file")));
    assert!(facts_block(&f).is_some());
}

#[test]
fn no_refs_no_facts() {
    let r = extract_refs("just prose, nothing to ground");
    let f = facts("/p", &r, &looked_up(&r));
    assert!(f.is_empty());
    assert!(facts_block(&f).is_none());
}

#[test]
fn prompt_context_seeds_real_locations() {
    let r = extract_refs("add a flag near `validate`, reusing `Config`");
    let hits = r
        .symbols
        .iter()
        .map(|_| vec![("/p/src/lib.rs".to_string(), "pub fn".to_string())])
        .collect();
    let present = r.paths.iter().map(|_| false).collect();
    let ctx = prompt_context("/p", &r, &hits, &present, &vec!["/p/src/lib.rs".to_string()])
        .expect("should ground the named symbols");
    assert!(ctx.contains("`validate` → src/lib.rs"));
    assert!(ctx.contains("`Config` → src/lib.rs"));
    // external symbol the prompt didn't name -> not invented
    let none = extract_refs("use a HashMap somewhere");
    assert!(prompt_context("/p", &none, &vec![], &vec![], &vec![]).is_none());
}

#[test]
fn ambiguous_bare_filename_is_not_flagged_missing() {
    let files = vec!["/p/a/mod.rs".to_string(), "/p/b/mod.rs".to_string()];
    let r = extract_refs("Edit `mod.rs`, and create `truly_absent.rs`.");
    let lookup = Lookup {
        present: r.paths.iter().map(|_| false).collect(),
        files,
        declared: r.symbols.iter().map(|_| vec![]).collect(),
        occurrences: r.counts.iter().map(|_| 0).collect(),
    };
    let f = facts("/p", &r, &lookup);
    // `mod.rs` exists (ambiguously) -> NOT flagged as missing (was misleading)
    assert!(
        !f.iter().any(|x| x.contains("`mod.rs` is not a current file")),
        "{f:?}"
    );
    // a genuinely absent file is still flagged
    assert!(f.iter().any(|x| x.contains("`truly_absent.rs` is not a current file")));
}

#[test]
fn a_right_count_is_no_fact() {
    let r = extract_refs("It has 3 `unwrap`s.");
    assert!(r.counts.contains(&(3, "unwrap".to_string())));
    let f = facts("/p", &r, &looked_up(&r));
    assert!(!f.iter().any(|x| x.contains("occurs")));
}

#[test]
fn paths_are_told_by_slash_or_extension() {
    assert!(looks_like_path("src/lib"));
    assert!(looks_like_path("lib.rs"));
    assert!(!looks_like_path("Config"));
    assert!(!path_is_absent(true, &vec![], "x.rs"));
    assert!(path_is_absent(false, &vec!["/p/y.rs".to_string()], "x.rs"));
}

#[test]
fn a_repeated_draft_adds_no_reference() {
    let draft = "Edit `src/lib.rs`, see `validate`. 12 `unwrap`s, 3 calls to `parse`; \
                 `load` is used 4 times. Then `src/new.rs`.";
    let once = extract_refs(draft);
    let twice = extract_refs(&format!("{draft}\n.\n{draft}"));
    assert!(!once.paths.is_empty() && !once.symbols.is_empty() && !once.counts.is_empty());
    assert_eq!(once.paths, twice.paths);
    assert_eq!(once.symbols, twice.symbols);
    assert_eq!(once.counts, twice.counts);
}
