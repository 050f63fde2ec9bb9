use base64::Engine as _;
use sirbone::attachments::{
    digest, dir_for, media_type_for, pills, save_file, save_rgba, set_vision_supported,
    store_file, store_png, user_content, vision_supported, MAX_BYTES,
};
use sirbone::best_of::{improves, parse_k, BestOf, OracleResult, NO_SELECTOR};
use sirbone::claude_md::{instruction_files, load_instructions};
use sirbone::config::{
    cli_theme, ensure_global_env, global_path, mcp_enabled, merge_objects, merge_section,
    project_path, read, section, set_mcp_enabled, set_skills_enabled, skills_enabled, spend_cap,
    string_array, strip_obsolete_global_keys,
};
use sirbone::highlight::{lang_to_ext, syn_role, SynRole};
use sirbone::json::Json;
use sirbone::paths::{ancestors_of, join_path, rel, rename};
use sirbone::types::ContentBlock;

fn j(text: &str) -> Json {
    Json::parse(text).expect("JSON text")
}

// --- configuration

#[test]
fn section_merges_global_with_project_overrides() {
    let global = j(r#"{ "test_command": "cargo test" }"#);
    let project = j(r#"{ "test_command": "pytest" }"#);
    // Project key overrides the global one.
    assert_eq!(
        merge_section(Some(&global), Some(&project))
            .unwrap()
            .str_at("test_command"),
        Some("pytest")
    );
    // Falls back to global when the project omits the section.
    assert_eq!(
        merge_section(Some(&global), None)
            .unwrap()
            .str_at("test_command"),
        Some("cargo test")
    );
    // Neither defines it → None.
    assert!(merge_section(None, None).is_none());
    // Deep merge: a project key doesn't drop an unrelated global key.
    let merged = merge_section(
        Some(&j(r#"{ "test_command": "cargo test" }"#)),
        Some(&j(r#"{ "max_attempts": 5 }"#)),
    )
    .unwrap();
    assert_eq!(merged.str_at("test_command"), Some("cargo test"));
    assert_eq!(merged.u64_at("max_attempts"), Some(5));
    // the same through whole files
    let g = read(Some(r#"{"oracle":{"a":1}}"#));
    let p = read(Some(r#"{"oracle":{"b":2}}"#));
    let both = section("oracle", g.as_ref(), p.as_ref()).unwrap();
    assert_eq!((both.u64_at("a"), both.u64_at("b")), (Some(1), Some(2)));
    assert!(read(Some("{oops")).is_none());
    assert!(read(None).is_none());
}

#[test]
fn permissions_allow_soft_deny_are_unioned() {
    // A project must not silently drop a curated global allow/soft_deny rule.
    let global = j(
        r#"{ "allow": ["Bash(ls*)"], "soft_deny": ["Bash(rm -rf*)"], "environment": ["g.env"] }"#,
    );
    let project = j(
        r#"{ "allow": ["Bash(cat*)"], "soft_deny": ["Bash(dd*)"], "environment": ["p.env"] }"#,
    );
    let m = merge_section(Some(&global), Some(&project)).unwrap();
    let allow = m.array_at("allow").unwrap();
    assert!(allow.contains(&j(r#""Bash(ls*)""#)));
    assert!(allow.contains(&j(r#""Bash(cat*)""#)));
    let deny = m.array_at("soft_deny").unwrap();
    assert!(deny.contains(&j(r#""Bash(rm -rf*)""#)));
    assert!(deny.contains(&j(r#""Bash(dd*)""#)));
    // environment is NOT a union key — the project's value replaces global.
    assert_eq!(m.array_at("environment").unwrap(), &vec![j(r#""p.env""#)]);
}

#[test]
fn string_array_reads_section_key_else_empty() {
    let v = j(r#"{ "skills": { "enabled": ["tdd", "diagnose"] } }"#);
    assert_eq!(
        string_array(Some(&v), "skills", "enabled"),
        vec!["tdd", "diagnose"]
    );
    // Missing key, wrong type, missing section, and absent root all yield empty.
    assert!(string_array(Some(&j(r#"{ "skills": {} }"#)), "skills", "enabled").is_empty());
    assert!(string_array(
        Some(&j(r#"{ "skills": { "enabled": "tdd" } }"#)),
        "skills",
        "enabled"
    )
    .is_empty());
    assert!(string_array(Some(&j("{}")), "skills", "enabled").is_empty());
    assert!(string_array(None, "skills", "enabled").is_empty());
}

#[test]
fn a_list_that_was_written_is_read_back() {
    let root = j(r#"{"mcp":{"enabled":["x"]},"other":1}"#);
    let after = set_skills_enabled(Some(&root), &vec!["tdd".to_string()]).unwrap();
    assert_eq!(skills_enabled(Some(&after)), vec!["tdd"]);
    assert_eq!(mcp_enabled(Some(&after)), vec!["x"]);
    assert_eq!(after.u64_at("other"), Some(1));
    let fresh = set_mcp_enabled(None, &vec!["y".to_string()]).unwrap();
    assert_eq!(mcp_enabled(Some(&fresh)), vec!["y"]);
    assert_eq!(
        set_skills_enabled(Some(&j("[]")), &vec![]),
        Err("config root is not an object".to_string())
    );
    assert!(skills_enabled(None).is_empty());
}

#[test]
fn ensure_env_at_seeds_then_never_overwrites() {
    let first = ensure_global_env(Some("/home/u"), false).unwrap();
    assert!(first.created);
    assert_eq!(first.path, "/home/u/.sirbone/.env");
    let second = ensure_global_env(Some("/home/u"), true).unwrap();
    assert!(!second.created);
    assert_eq!(ensure_global_env(None, false).unwrap_err(), "HOME is not set");
    assert_eq!(
        global_path(Some("/home/u")).as_deref(),
        Some("/home/u/.sirbone/config.json")
    );
    assert_eq!(project_path(None), None);
}

#[test]
fn single_settings_are_read() {
    assert_eq!(cli_theme(Some(&j(r#"{"theme":"dark"}"#))).as_deref(), Some("dark"));
    assert_eq!(cli_theme(None), None);
    assert_eq!(spend_cap(None), None);
}

#[test]
fn obsolete_keys_leave_the_global_file() {
    let old = j(r#"{"mcpServers":{"a":{}},"keep":1}"#);
    let new = strip_obsolete_global_keys(&old).expect("something to strip");
    assert!(new.get("mcpServers").is_none());
    assert_eq!(new.u64_at("keep"), Some(1));
    assert!(strip_obsolete_global_keys(&new).is_none());
}

// --- attachments

#[test]
fn dir_sits_beside_the_session_file() {
    assert_eq!(
        dir_for("/home/u/.sirbone/sessions/abc.jsonl"),
        "/home/u/.sirbone/sessions/abc.attachments"
    );
}

#[test]
fn identical_bytes_store_one_file() {
    let rgba = vec![7u8; 4 * 2 * 2];
    let (a, _) = save_rgba("/d", "image_1".into(), 2, 2, &rgba).expect("first save");
    let (b, _) = save_rgba("/d", "image_2".into(), 2, 2, &rgba).expect("second save");
    assert_eq!(a.path, b.path);
}

#[test]
fn rgba_round_trips_to_a_png_block() {
    let (att, png) = save_rgba("/d", "image_1".into(), 2, 2, &vec![9u8; 16]).expect("save");
    assert_eq!(att.dimensions, Some((2, 2)));
    assert_eq!(att.media_type, "image/png");
    assert!(att.describe().starts_with("image_1 · 2×2 · "));
    assert_eq!(&png[..8], b"\x89PNG\r\n\x1a\n");
    let ContentBlock::Image { media_type, data } = att.to_block(&png) else {
        panic!("expected an image block");
    };
    assert_eq!(media_type, "image/png");
    let raw = base64::engine::general_purpose::STANDARD
        .decode(&data)
        .expect("base64");
    assert_eq!(&raw[..8], b"\x89PNG\r\n\x1a\n");
    assert_eq!(raw, png);
}

#[test]
fn an_image_that_is_none_is_refused() {
    assert_eq!(
        save_rgba("/d", "x".into(), 0, 2, &vec![]).unwrap_err(),
        "writing PNG header"
    );
    assert_eq!(
        save_rgba("/d", "x".into(), 2, 2, &vec![0u8; 3]).unwrap_err(),
        "encoding PNG"
    );
}

#[test]
fn files_keep_their_media_type_and_reject_oversize() {
    let att = save_file(
        "/d",
        "image_1".into(),
        "/x/shot.jpeg",
        &b"not really a jpeg".to_vec(),
    )
    .expect("save");
    assert_eq!(att.media_type, "image/jpeg");
    assert_eq!(att.dimensions, None);
    assert!(att.path.starts_with("/d/") && att.path.ends_with(".jpeg"));
    let refused = save_file("/d", "image_2".into(), "/x/big.png", &vec![0u8; MAX_BYTES + 1]);
    assert!(refused.unwrap_err().contains("5 MB"));
    assert_eq!(media_type_for("a.PNG"), "image/png");
    assert_eq!(digest(0xab), "00000000000000ab");
}

#[test]
fn images_precede_the_text_in_a_turn() {
    let (att, png) = save_rgba("/d", "image_1".into(), 1, 1, &vec![1, 2, 3, 4]).expect("save");
    let items = vec![att];
    let content = user_content(&items, &vec![Some(png)], "why does this fail?".into());
    assert!(matches!(content[0], ContentBlock::Image { .. }));
    assert!(matches!(content[1], ContentBlock::Text { .. }));
    assert_eq!(pills(&items), "[image_1] ");
    // a file that cannot be read is left out
    let content = user_content(&items, &vec![None], "why?".into());
    assert_eq!(content.len(), 1);
}

#[test]
fn the_first_word_on_vision_stays() {
    let mut known = None;
    assert!(!vision_supported(&known));
    set_vision_supported(&mut known, true);
    set_vision_supported(&mut known, false);
    assert!(vision_supported(&known));
}

// --- attempts

fn res(failed: usize) -> OracleResult {
    OracleResult {
        passed: failed == 0,
        failed,
        raw: String::new(),
    }
}

#[test]
fn k_is_parsed_and_bounded() {
    assert_eq!(parse_k("2"), Ok(Some(2)));
    assert_eq!(parse_k(" 4 "), Ok(Some(4)));
    // Explicitly off, not an error: a bench arm sets 1 for its control.
    assert_eq!(parse_k("1"), Ok(None));
    assert_eq!(parse_k("0"), Ok(None));
    assert!(parse_k("5").is_err(), "above the cap");
    assert!(parse_k("yes").is_err());
    assert!(parse_k("").is_err());
}

#[test]
fn a_refused_number_is_quoted() {
    assert!(parse_k("ye\"s").unwrap_err().contains(r#""ye\"s""#));
}

#[test]
fn selection_prefers_fewer_failures_and_keeps_ties() {
    assert!(improves(&res(0), &res(3)));
    assert!(improves(&res(1), &res(2)));
    assert!(
        !improves(&res(2), &res(2)),
        "a tie keeps the cheaper attempt"
    );
    assert!(!improves(&res(3), &res(1)));
    // A timed-out or unspawnable test command never wins a selection.
    assert!(!improves(&res(usize::MAX), &res(9)));
    assert!(improves(&res(9), &res(usize::MAX)));
}

#[test]
fn attempts_need_a_command_to_select_by() {
    assert!(BestOf::load(None, None, 0).unwrap().is_none());
    assert!(BestOf::load(Some("1"), None, 0).unwrap().is_none());
    assert_eq!(BestOf::load(Some("2"), None, 0).unwrap_err(), NO_SELECTOR);
    let b = BestOf::load(Some("2"), Some("cargo test".into()), 3)
        .unwrap()
        .unwrap();
    assert_eq!((b.k, b.command(), b.min_tests), (2, "cargo test", 3));
}

// --- instructions

#[test]
fn collects_files_root_to_cwd_skipping_empty() {
    let files = instruction_files("/r/a/b", "X.md", Some("/home/u"));
    assert!(files.contains(&"/r/X.md".to_string()));
    let root = files.iter().position(|f| f == "/r/X.md").unwrap();
    let mid = files.iter().position(|f| f == "/r/a/X.md").unwrap();
    let leaf = files.iter().position(|f| f == "/r/a/b/X.md").unwrap();
    assert!(root < mid && mid < leaf);
    // Root before mid, blank leaf omitted.
    assert_eq!(
        load_instructions(&vec!["ROOT".to_string(), "MID".to_string(), "  ".to_string()]),
        "ROOT\n\nMID"
    );
}

#[test]
fn missing_file_yields_empty_string() {
    assert_eq!(load_instructions(&vec![]), "");
}

// --- highlighting and paths

#[test]
fn languages_and_roles_are_named() {
    assert_eq!(lang_to_ext("rust"), Some("rs"));
    assert_eq!(lang_to_ext("klingon"), None);
    assert_eq!(syn_role("comment"), SynRole::Comment);
}

#[test]
fn paths_join_and_part() {
    assert_eq!(join_path("/a/b", "c"), "/a/b/c");
    assert_eq!(join_path("/a", "/b"), "/b");
    assert_eq!(rel("/a", "/a/b/c.rs"), "b/c.rs");
    assert_eq!(rel("/x", "/a/b"), "/a/b");
}

#[test]
fn paths_keep_their_text() {
    assert_eq!(rel("/a", "/a/b//c"), "b//c");
    assert_eq!(rel("/a", "/a//b/./c/."), "b/./c");
    assert_eq!(rel("//a/.", "/a/b"), "b");
    assert_eq!(rel("/", "/a//b"), "a//b");
    assert_eq!(rel(".", "./a"), "a");
    assert_eq!(rel("", "./a//b/"), "./a//b");
    assert_eq!(rel("", "//"), "/");
    assert_eq!(rel("/a/b", "/a/b/"), "");
    assert_eq!(rel("/x", "/a//b/"), "/a//b/");
    for (root, path) in [
        ("/a", "/a/b//c"),
        ("/a", "/a//b/./c/."),
        ("//a/.", "/a/b"),
        ("/", "/a//b"),
        (".", "./a"),
        ("", "./a//b/"),
        ("", "//"),
        ("", "./"),
        ("", "a/."),
        ("a", "a"),
        ("a", "b"),
        ("/a/b", "/a/b/"),
        ("/a/..", "/a/../b//./c//"),
    ] {
        let p = std::path::Path::new(path);
        let want = p.strip_prefix(root).unwrap_or(p);
        assert_eq!(rel(root, path), want.to_str().unwrap(), "{path} from {root}");
    }

    assert_eq!(dir_for("/x//y/z.jsonl"), "/x//y/z.attachments");
    assert_eq!(dir_for("z.jsonl"), "z.attachments");
    assert_eq!(dir_for("/x//./z.jsonl/."), "/x/z.attachments");
    for path in ["/x//y/z", "z", "./z", "/z", "//z//", "a/./z/.", "a/..", "/", ".", "", "../z"] {
        let want = std::path::Path::new(path).with_file_name("n");
        assert_eq!(rename(path, "n"), want.to_str().unwrap(), "{path}");
    }
}

#[test]
fn ancestors_go_up_to_the_root() {
    for path in ["/a/b", "/a//b/./c", "a/b", "./a/b", ".", "", "/", "..", "a/../b", "//a//"] {
        let mut want: Vec<String> = std::path::Path::new(path)
            .ancestors()
            .map(|p| p.to_str().unwrap().to_string())
            .collect();
        want.reverse();
        assert_eq!(ancestors_of(path), want, "{path}");
    }
    let files = instruction_files("/r//a/", "X.md", Some("/home/u"));
    assert_eq!(files, ["/X.md", "/r/X.md", "/r//a/X.md", "/home/u/.config/sirbone/X.md"]);
}

#[test]
fn sections_are_merged_at_every_depth() {
    assert_eq!(
        merge_objects(&j(r#"{"a":{"x":1}}"#), &j(r#"{"a":{"y":2}}"#)),
        j(r#"{"a":{"x":1,"y":2}}"#)
    );
    // a value of the project's counts and a list is replaced: within an object
    // there are no rules to unite
    let base = j(r#"{"a":{"b":{"x":1,"l":[1],"allow":["r"]},"k":true},"z":0}"#);
    let overlay = j(r#"{"a":{"b":{"x":2,"l":[2],"allow":["s","r"]}}}"#);
    assert_eq!(
        merge_objects(&base, &overlay),
        j(r#"{"a":{"b":{"x":2,"l":[2],"allow":["s","r"]},"k":true},"z":0}"#)
    );
    // at the top of the section the rules are united
    assert_eq!(
        merge_objects(
            &j(r#"{"soft_deny":["r"],"environment":["e"],"x":{"soft_deny":["r"]}}"#),
            &j(r#"{"soft_deny":["s","r"],"environment":["f"],"x":{"soft_deny":["s"]}}"#)
        ),
        j(r#"{"soft_deny":["r","s"],"environment":["f"],"x":{"soft_deny":["s"]}}"#)
    );
    // a project that sets something else under that name replaces the list
    assert_eq!(merge_objects(&j(r#"{"allow":["r"]}"#), &j(r#"{"allow":1}"#)), j(r#"{"allow":1}"#));
    // an object over something else, and something else over an object
    assert_eq!(merge_objects(&j(r#"{"a":1}"#), &j(r#"{"a":{"y":2}}"#)), j(r#"{"a":{"y":2}}"#));
    assert_eq!(merge_objects(&j(r#"{"a":{"y":2}}"#), &j(r#"{"a":1}"#)), j(r#"{"a":1}"#));
    // laid over a whole file, a patch keeps the other hooks
    let file = j(r#"{"hooks":{"stop":["make"],"post_tool_use":{"*.rs":"old"}}}"#);
    let patch = j(r#"{"hooks":{"post_tool_use":{"*.rs":"cargo check"}},"oracle":{"max_attempts":3}}"#);
    assert_eq!(
        merge_objects(&file, &patch),
        j(r#"{"hooks":{"post_tool_use":{"*.rs":"cargo check"},"stop":["make"]},"oracle":{"max_attempts":3}}"#)
    );
}

#[test]
fn the_hash_names_the_file() {
    assert_eq!(digest(u64::MAX), "ffffffffffffffff");
    let file = store_file("/d", "image_1".into(), "/x/shot.jpg", 3, 0x1f).expect("stored");
    assert_eq!(file.path, "/d/000000000000001f.jpeg");
    let png = store_png("/d/", "image_2".into(), 2, 3, 8, 0xdead_beef).expect("stored");
    assert_eq!(png.path, "/d/00000000deadbeef.png");
    assert_eq!(png.dimensions, Some((2, 3)));
    assert!(store_png("/d", "x".into(), 2, 3, MAX_BYTES + 1, 1)
        .unwrap_err()
        .starts_with("clipboard image encodes to "));
    // different images do not share a file
    let a = save_file("/d", "a".into(), "a.png", &vec![1, 2, 3]).expect("stored");
    let b = save_file("/d", "b".into(), "b.png", &vec![3, 2, 1]).expect("stored");
    assert_ne!(a.path, b.path);
}
