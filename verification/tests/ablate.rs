use sirbone::ablate::{
    ask_rounds_enabled, cache_disabled, disabled_hook, disabled_prompt, disabled_prompt_exact,
    disabled_skill, disabled_tool, spec_allows, spec_has, spec_matches, spill_disabled,
};

#[test]
fn allowlist_keeps_only_named_tools() {
    assert!(spec_allows("web_search, read", "read"));
    assert!(!spec_allows("web_search", "bash"));
    assert!(spec_allows("", "bash")); // no allowlist => everything
}

#[test]
fn matches_kind_and_name() {
    let s = "tool:web_search, skill:tdd ,cache:prompt";
    assert!(spec_has(s, "tool", "web_search"));
    assert!(spec_has(s, "skill", "tdd"));
    assert!(spec_has(s, "cache", "prompt"));
}

#[test]
fn no_false_positives() {
    let s = "tool:web_search";
    assert!(!spec_has(s, "tool", "code_map"));
    assert!(!spec_has(s, "skill", "web_search")); // wrong kind
    assert!(!spec_has("", "tool", "web_search"));
}

#[test]
fn wildcard_matches_any_name_of_kind() {
    assert!(spec_has("skill:*", "skill", "tdd"));
    assert!(spec_has("skill:*", "skill", "diagnose"));
    assert!(!spec_has("skill:*", "tool", "code_map")); // wildcard is kind-scoped
}

#[test]
fn prompt_kind_is_independent_of_the_others() {
    assert!(spec_has("prompt:historia", "prompt", "historia"));
    assert!(!spec_has("prompt:historia", "tool", "historia")); // block != tool
    assert!(spec_has("prompt:*", "prompt", "bugfix")); // naked-prompt arm
    assert!(!spec_has("prompt:*", "skill", "tdd"));
}

#[test]
fn exact_match_opts_out_of_the_wildcard_sweep() {
    // `claude_md` (user instructions) survives `prompt:*`, goes only when named.
    assert!(!spec_matches("prompt:*", "prompt", "claude_md", false));
    assert!(spec_matches(
        "prompt:*,prompt:claude_md",
        "prompt",
        "claude_md",
        false
    ));
}

#[test]
fn an_unset_variable_switches_nothing_off() {
    assert!(!disabled_tool(None, None, "bash"));
    assert!(!disabled_skill(None, "tdd"));
    assert!(!disabled_hook(None, "post"));
    assert!(!disabled_prompt(None, "historia"));
    assert!(!disabled_prompt_exact(None, "claude_md"));
    assert!(!spill_disabled(None));
    assert!(!cache_disabled(None));
}

#[test]
fn a_tool_is_off_by_name_or_by_the_allowlist() {
    assert!(disabled_tool(Some("tool:bash"), None, "bash"));
    assert!(disabled_tool(None, Some("read"), "bash"));
    assert!(!disabled_tool(Some("tool:grep"), Some("read, bash"), "bash"));
}

#[test]
fn switches_are_read_from_the_list() {
    assert!(disabled_hook(Some("hook:*"), "stop"));
    assert!(spill_disabled(Some("tool:spill")));
    assert!(cache_disabled(Some("cache:prompt")));
    assert!(ask_rounds_enabled(true, None));
    assert!(!ask_rounds_enabled(true, Some("ask:rounds")));
    assert!(!ask_rounds_enabled(false, None));
    assert!(!disabled_prompt_exact(Some("prompt:*"), "claude_md"));
}
