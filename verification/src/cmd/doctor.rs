//! A check of the setup: the provider, the configuration, the tools and the
//! hooks, one line for each.
use vstd::prelude::*;
use crate::ai::{redact_secrets, redacted, secrets_in};
use crate::checks::{configured_presets, named_presets, seen, HookPreset};
use crate::cmd::VendorNames;
use crate::json::{parsed_json, Json};
use crate::text::{
    align_right, begins, cat2, cat3, cat4, cat5, decimal, ends, holds, is_in, join, joined,
    law_joined_parts_stand_in_order, number, occurs_at, right_aligned, same,
    size_text, texts, trim, trimmed,
};

verus! {

// ------------------------------------------------------------ the provider

/// What the arguments and the environment say of the providers.
#[derive(Debug)]
pub struct ProviderInput {
    /// Whether a key for Anthropic is given as an argument.
    pub anthropic_key: bool,
    /// Whether `ANTHROPIC_AUTH_TOKEN` is set.
    pub auth_token: bool,
    /// Whether `ANTHROPIC_API_KEY` is set.
    pub anthropic_api_key: bool,
    pub anthropic_base: Option<String>,
    /// The value of `ANTHROPIC_BASE_URL`.
    pub anthropic_base_env: Option<String>,
    /// Whether a key is given as an argument.
    pub api_key: bool,
    /// Whether `OPENAI_API_KEY` is set.
    pub openai_api_key: bool,
    pub base: Option<String>,
    /// The value of `OPENAI_BASE_URL`.
    pub base_env: Option<String>,
}

/// The provider that is used.
#[derive(Debug)]
pub struct Provider {
    pub anthropic: bool,
    pub has_key: bool,
    pub base: String,
}

/// What a [`Provider`] stands for.
pub struct ProviderV {
    pub anthropic: bool,
    pub has_key: bool,
    pub base: Seq<char>,
}

impl View for Provider {
    type V = ProviderV;

    open spec fn view(&self) -> ProviderV {
        ProviderV { anthropic: self.anthropic, has_key: self.has_key, base: self.base@ }
    }
}

/// The first of two texts that is given, else the default.
pub open spec fn first_of(a: Option<String>, b: Option<String>, default: Seq<char>) -> Seq<char> {
    match (a, b) {
        (Some(t), _) => t@,
        (None, Some(t)) => t@,
        (None, None) => default,
    }
}

fn choose_text(a: &Option<String>, b: &Option<String>, default: &str) -> (r: String)
    ensures
        r@ == first_of(*a, *b, default@),
{
    match (a, b) {
        (Some(t), _) => t.clone(),
        (None, Some(t)) => t.clone(),
        (None, None) => default.to_owned(),
    }
}

/// The endpoint of a provider's own.
pub open spec fn own_base(anthropic: bool) -> Seq<char> {
    if anthropic {
        "https://api.anthropic.com"@
    } else {
        "https://api.openai.com/v1"@
    }
}

/// The provider that is used: Anthropic where any key for it is there, else one
/// that is compatible with OpenAI.
pub open spec fn provider_of(p: ProviderInput) -> ProviderV {
    if p.anthropic_key || p.auth_token || p.anthropic_api_key {
        ProviderV {
            anthropic: true,
            has_key: true,
            base: first_of(p.anthropic_base, p.anthropic_base_env, own_base(true)),
        }
    } else {
        ProviderV {
            anthropic: false,
            has_key: p.api_key || p.openai_api_key,
            base: first_of(p.base, p.base_env, own_base(false)),
        }
    }
}

/// Computes [`provider_of`].
pub fn provider_env(p: &ProviderInput) -> (r: Provider)
    ensures
        r@ == provider_of(*p),
{
    if p.anthropic_key || p.auth_token || p.anthropic_api_key {
        Provider {
            anthropic: true,
            has_key: true,
            base: choose_text(
                &p.anthropic_base,
                &p.anthropic_base_env,
                "https://api.anthropic.com",
            ),
        }
    } else {
        Provider {
            anthropic: false,
            has_key: p.api_key || p.openai_api_key,
            base: choose_text(&p.base, &p.base_env, "https://api.openai.com/v1"),
        }
    }
}

/// The name of a provider.
pub open spec fn provider_name(anthropic: bool) -> Seq<char> {
    if anthropic {
        "anthropic"@
    } else {
        "openai"@
    }
}

/// The model that is used: the argument, the environment, or the default, which
/// for Anthropic is `own`.
pub open spec fn model_of(
    arg: Option<String>,
    env: Option<String>,
    anthropic: bool,
    own: Seq<char>,
) -> Seq<char> {
    first_of(
        arg,
        env,
        if anthropic {
            own
        } else {
            "gpt-4o-mini"@
        },
    )
}

/// Computes [`model_of`].
pub fn choose_model(
    arg: &Option<String>,
    env: &Option<String>,
    anthropic: bool,
    own: &str,
) -> (r: String)
    ensures
        r@ == model_of(*arg, *env, anthropic, own@),
{
    choose_text(
        arg,
        env,
        if anthropic {
            own
        } else {
            "gpt-4o-mini"
        },
    )
}

// ------------------------------------------------------------ the checks

/// A line of the report: a check that went well or did not, or a line that
/// belongs to the one above it.
#[derive(Debug)]
pub enum DoctorLine {
    Check { ok: bool, text: String },
    Plain { text: String },
}

/// What a [`DoctorLine`] stands for.
pub enum DoctorV {
    Check { ok: bool, text: Seq<char> },
    Plain { text: Seq<char> },
}

impl View for DoctorLine {
    type V = DoctorV;

    open spec fn view(&self) -> DoctorV {
        match self {
            DoctorLine::Check { ok, text } => DoctorV::Check { ok: *ok, text: text@ },
            DoctorLine::Plain { text } => DoctorV::Plain { text: text@ },
        }
    }
}

/// What some lines stand for.
pub open spec fn doctor_views(v: Seq<DoctorLine>) -> Seq<DoctorV> {
    v.map_values(|l: DoctorLine| l@)
}

/// A check.
pub open spec fn check(ok: bool, text: Seq<char>) -> DoctorV {
    DoctorV::Check { ok, text }
}

/// The check of the provider. An endpoint that is not the provider's own is
/// pointed out, for the key goes there.
pub open spec fn provider_check(p: ProviderV) -> DoctorV {
    if p.has_key {
        check(
            true,
            "provider: "@ + provider_name(p.anthropic) + " key present, base "@ + p.base + (
            if p.base == own_base(p.anthropic) {
                Seq::empty()
            } else {
                " (non-default — the API key is sent here)"@
            }),
        )
    } else {
        check(
            false,
            "provider: no API key found for "@ + provider_name(p.anthropic)
                + "; set ANTHROPIC_AUTH_TOKEN or OPENAI_API_KEY"@,
        )
    }
}

/// The check of the system prompt: what it weighs, and whether parts of it are
/// switched off.
pub open spec fn prompt_check(chars: nat, disable: Option<String>) -> DoctorV {
    check(
        true,
        "system prompt: "@ + decimal(chars) + " chars (~"@ + decimal(chars / 4) + " tokens)"@ + (
        if disable is Some && trimmed(disable->0@).len() > 0 {
            " — ablated by SIRBONE_DISABLE"@
        } else {
            Seq::empty()
        }),
    )
}

/// What is known of a configuration file.
#[derive(Debug)]
pub struct FileFact {
    pub label: String,
    /// Its path, where there is one.
    pub path: Option<String>,
    pub exists_there: bool,
    /// What it holds, where it could be read.
    pub text: Option<String>,
}

/// The check of a configuration file: one that is missing is fine, one that is no
/// JSON text is not.
pub open spec fn file_check(f: FileFact) -> DoctorV {
    match f.path {
        None => check(false, f.label@ + ": unavailable"@),
        Some(p) => if !f.exists_there {
            check(true, f.label@ + ": missing ("@ + p@ + ")"@)
        } else {
            match f.text {
                None => check(false, f.label@ + ": invalid ("@ + p@ + ") — "@ + ("read "@ + p@)),
                Some(t) => if parsed_json(t@) is Some {
                    check(true, f.label@ + ": valid ("@ + p@ + ")"@)
                } else {
                    check(false, f.label@ + ": invalid ("@ + p@ + ") — "@ + "parse json"@)
                },
            }
        },
    }
}

/// The check of the project's instructions; `name` is the vendor's own file.
pub open spec fn instructions_check(agents_md: bool, vendor_md: bool, name: Seq<char>) -> DoctorV {
    if agents_md {
        check(true, "project instructions: AGENTS.md"@)
    } else if vendor_md {
        check(true, "project instructions: "@ + name)
    } else {
        check(
            false,
            "project instructions: missing AGENTS.md/"@ + name + " (run /init interactively)"@,
        )
    }
}

/// The check of the snapshots.
pub open spec fn snapshot_check(off: bool) -> DoctorV {
    if off {
        check(false, "snapshots: disabled by SIRBONE_NO_SNAPSHOT"@)
    } else {
        check(true, "snapshots: enabled"@)
    }
}

/// The names that a list lacks, in their order.
pub open spec fn lacking(names: Seq<Seq<char>>, list: Seq<Seq<char>>) -> Seq<Seq<char>>
    decreases names.len(),
{
    if names.len() == 0 {
        Seq::empty()
    } else {
        let before = lacking(names.drop_last(), list);
        if list.contains(names.last()) {
            before
        } else {
            before.push(names.last())
        }
    }
}

/// The check of the MCP servers: each that is switched on has to be in the
/// catalog.
pub open spec fn mcp_check(enabled: Seq<Seq<char>>, catalog: Seq<Seq<char>>) -> DoctorV {
    let gone = lacking(enabled, catalog);
    if enabled.len() == 0 {
        check(true, "MCP enabled servers: none"@)
    } else if gone.len() == 0 {
        check(true, "MCP enabled servers: "@ + joined(enabled, ", "@))
    } else {
        check(false, "MCP enabled servers missing from catalog: "@ + joined(gone, ", "@))
    }
}

/// What came of a call of the search program.
#[derive(Debug)]
pub enum SearchProbe {
    Version(String),
    Failed(String),
    Missing,
    TimedOut,
}

/// The check of the search program.
pub open spec fn search_check(p: SearchProbe) -> DoctorV {
    match p {
        SearchProbe::Version(v) => check(true, "search2md: "@ + trimmed(v@)),
        SearchProbe::Failed(status) => check(false, "search2md: --version exited with "@ + status@),
        SearchProbe::Missing => check(
            false,
            "search2md: missing from PATH (required by web_search)"@,
        ),
        SearchProbe::TimedOut => check(false, "search2md: --version timed out"@),
    }
}

/// The names of some presets.
pub open spec fn preset_texts(presets: Seq<HookPreset>) -> Seq<Seq<char>> {
    presets.map_values(|p: HookPreset| "high_risk"@)
}

/// The check of the hooks' section: it has to be an object, where there is one.
pub open spec fn hooks_check(section: Option<crate::json::JsonV>) -> DoctorV {
    match section {
        None => check(true, "hooks: not configured"@),
        Some(v) => {
            let active = joined(preset_texts(named_presets(section).0), ", "@);
            check(
                v is Object,
                "hooks: configured; presets: "@ + (if active.len() == 0 {
                    "none"@
                } else {
                    active
                }),
            )
        },
    }
}

/// The check of the names of presets.
pub open spec fn presets_check(unknown: Seq<Seq<char>>) -> DoctorV {
    if unknown.len() == 0 {
        check(true, "hook presets: all names recognized"@)
    } else {
        check(false, "hook presets: unknown name(s): "@ + joined(unknown, ", "@))
    }
}

/// The check of the cap on tokens.
pub open spec fn cap_check(cap: Option<u64>) -> DoctorV {
    match cap {
        Some(n) => check(true, "spend cap: enabled, "@ + decimal(n as nat) + " tokens"@),
        None => check(true, "spend cap: disabled"@),
    }
}

/// The check of the skills: those on disk do nothing until they are switched on.
pub open spec fn skills_check(on_disk: nat, enabled: nat) -> DoctorV {
    let dormant = on_disk > 0 && enabled == 0;
    check(
        !dormant,
        "skills: "@ + decimal(on_disk) + " on disk, "@ + decimal(enabled) + " enabled"@ + (
        if dormant {
            " — add names to skills.enabled in the project config"@
        } else {
            Seq::empty()
        }),
    )
}

/// What came of the calls to the provider; errors are in words.
#[derive(Debug)]
pub struct NetworkProbe {
    pub models: Result<usize, String>,
    pub window: Option<u32>,
    pub tokens: Result<u64, String>,
}

/// The checks of the network; errors go without the secrets.
pub open spec fn network_checks(p: NetworkProbe, secrets: Seq<Seq<char>>) -> Seq<DoctorV> {
    seq![
        match p.models {
            Ok(n) => check(true, "network models: ok ("@ + decimal(n as nat) + " model(s))"@),
            Err(e) => check(false, "network models: "@ + redacted(e@, secrets)),
        },
        match p.window {
            Some(n) => check(true, "network context window: "@ + decimal(n as nat) + " tokens"@),
            None => check(false, "network context window: unknown"@),
        },
        match p.tokens {
            Ok(n) => check(true, "network token count: "@ + decimal(n as nat) + " tokens"@),
            Err(e) => check(false, "network token count: "@ + redacted(e@, secrets)),
        },
    ]
}

/// Everything that the report is made from.
#[derive(Debug)]
pub struct DoctorFacts {
    pub cwd: String,
    pub version: String,
    pub provider: ProviderInput,
    pub system_prompt_chars: usize,
    /// The value of `SIRBONE_DISABLE`.
    pub disable: Option<String>,
    pub model: Option<String>,
    /// The value of `SIRBONE_MODEL`.
    pub model_env: Option<String>,
    /// The configuration files, in the order in which they are checked.
    pub files: Vec<FileFact>,
    pub agents_md: bool,
    pub vendor_md: bool,
    pub names: VendorNames,
    pub project_dir: String,
    /// Whether `SIRBONE_NO_SNAPSHOT` is set.
    pub snapshots_off: bool,
    pub enabled_mcp: Vec<String>,
    pub catalog: Vec<String>,
    /// The tools of an interactive run, and the tokens of their schemas.
    pub native_tools: usize,
    pub native_tokens: usize,
    /// Those of a run without a front-end.
    pub headless_tools: usize,
    pub headless_tokens: usize,
    /// Each tool with the tokens of its schema, in the order of the report.
    pub ranking: Vec<(String, usize)>,
    pub search: SearchProbe,
    /// The section of the hooks.
    pub hooks: Option<Json>,
    pub spend_cap: Option<u64>,
    pub skills_on_disk: usize,
    pub skills_enabled: usize,
    /// Whether the network is to be checked.
    pub network_asked: bool,
    /// What came of it, where there is a key.
    pub network: Option<NetworkProbe>,
    /// The values of the keys, which no line may show.
    pub settings: Vec<Option<String>>,
}

/// The checks of some files.
pub open spec fn file_checks(files: Seq<FileFact>) -> Seq<DoctorV> {
    files.map_values(|f: FileFact| file_check(f))
}

/// The lines on the schemas of the tools.
pub open spec fn ranking_lines(ranking: Seq<(String, usize)>) -> Seq<DoctorV> {
    ranking.map_values(
        |r: (String, usize)|
            DoctorV::Plain {
                text: "   "@ + right_aligned(decimal(r.1 as nat), 5) + " tok  "@ + r.0@,
            },
    )
}

/// What an optional section stands for.
pub open spec fn section_view(section: Option<Json>) -> Option<crate::json::JsonV> {
    match section {
        Some(j) => Some(j@),
        None => None,
    }
}

/// The lines of the report, but for the first and the last.
pub open spec fn report_lines(f: DoctorFacts) -> Seq<DoctorV> {
    let provider = provider_of(f.provider);
    let section = section_view(f.hooks);
    seq![
        provider_check(provider),
        prompt_check(f.system_prompt_chars as nat, f.disable),
        check(true, "model: "@ + model_of(f.model, f.model_env, provider.anthropic, f.names@.model)),
    ] + file_checks(f.files@) + seq![
        instructions_check(f.agents_md, f.vendor_md, f.names@.instructions),
        check(true, "project state: "@ + f.project_dir@),
        snapshot_check(f.snapshots_off),
        mcp_check(texts(f.enabled_mcp@), texts(f.catalog@)),
        check(
            true,
            "native tools registered: "@ + decimal(f.native_tools as nat) + " (~"@ + decimal(
                f.native_tokens as nat,
            ) + " schema tokens)"@,
        ),
        check(
            true,
            "headless run: "@ + decimal(f.headless_tools as nat) + " tools (~"@ + decimal(
                f.headless_tokens as nat,
            ) + " schema tokens)"@,
        ),
    ] + ranking_lines(f.ranking@) + seq![
        search_check(f.search),
        hooks_check(section),
        presets_check(named_presets(section).1),
        cap_check(f.spend_cap),
        skills_check(f.skills_on_disk as nat, f.skills_enabled as nat),
    ] + (if !f.network_asked {
        Seq::empty()
    } else if provider.has_key {
        network_checks(f.network->0, secrets_in(f.settings@))
    } else {
        seq![check(false, "network probe: skipped because no provider key is configured"@)]
    })
}

/// How many of the lines are checks that did not go well.
pub open spec fn warnings(lines: Seq<DoctorV>) -> nat
    decreases lines.len(),
{
    if lines.len() == 0 {
        0
    } else {
        warnings(lines.drop_last()) + (if lines.last() is Check && !lines.last()->ok {
            1nat
        } else {
            0
        })
    }
}

/// A line as it is printed.
pub open spec fn printed(l: DoctorV) -> Seq<char> {
    match l {
        DoctorV::Check { ok, text } => (if ok {
            "ok"@
        } else {
            "WARN"@
        }) + " "@ + text,
        DoctorV::Plain { text } => text,
    }
}

/// The report: who and where, the checks, and how many of them did not go well.
pub open spec fn report(f: DoctorFacts) -> Seq<Seq<char>> {
    let lines = report_lines(f);
    seq!["Sir Bone doctor"@, "cwd: "@ + f.cwd@, "version: "@ + f.version@] + lines.map_values(
        |l: DoctorV| printed(l),
    ) + seq![
        if warnings(lines) == 0 {
            "doctor: ready"@
        } else {
            "doctor: "@ + decimal(warnings(lines)) + " warning(s)"@
        },
    ]
}

// ------------------------------------------------------------ making the report

fn ok_line(ok: bool, text: String) -> (r: DoctorLine)
    ensures
        r@ == check(ok, text@),
{
    DoctorLine::Check { ok, text }
}

fn put_line(lines: &mut Vec<DoctorLine>, l: DoctorLine)
    ensures
        doctor_views(final(lines)@) == doctor_views(old(lines)@).push(l@),
{
    let ghost before = doctor_views(lines@);
    let ghost lv = l@;
    lines.push(l);
    assert(doctor_views(lines@) =~= before.push(lv));
}

fn name_of(anthropic: bool) -> (r: &'static str)
    ensures
        r@ == provider_name(anthropic),
{
    if anthropic {
        "anthropic"
    } else {
        "openai"
    }
}

fn check_provider(p: &Provider) -> (r: DoctorLine)
    ensures
        r@ == provider_check(p@),
{
    if p.has_key {
        let own = if p.anthropic {
            same(p.base.as_str(), "https://api.anthropic.com")
        } else {
            same(p.base.as_str(), "https://api.openai.com/v1")
        };
        let front = cat4(
            "provider: ",
            name_of(p.anthropic),
            " key present, base ",
            p.base.as_str(),
        );
        if own {
            assert(front@ + Seq::<char>::empty() =~= front@);
            ok_line(true, front)
        } else {
            ok_line(true, cat2(front.as_str(), " (non-default — the API key is sent here)"))
        }
    } else {
        ok_line(
            false,
            cat3(
                "provider: no API key found for ",
                name_of(p.anthropic),
                "; set ANTHROPIC_AUTH_TOKEN or OPENAI_API_KEY",
            ),
        )
    }
}

fn check_prompt(chars: usize, disable: &Option<String>) -> (r: DoctorLine)
    ensures
        r@ == prompt_check(chars as nat, *disable),
{
    let ablated = match disable {
        Some(t) => !trim(t.as_str()).as_str().is_empty(),
        None => false,
    };
    let front = cat5(
        "system prompt: ",
        size_text(chars).as_str(),
        " chars (~",
        size_text(chars / 4).as_str(),
        " tokens)",
    );
    if ablated {
        ok_line(true, cat2(front.as_str(), " — ablated by SIRBONE_DISABLE"))
    } else {
        assert(front@ + Seq::<char>::empty() =~= front@);
        ok_line(true, front)
    }
}

/// The check of a configuration file; see [`file_check`].
pub fn json_file_status(f: &FileFact) -> (r: DoctorLine)
    ensures
        r@ == file_check(*f),
{
    match &f.path {
        None => ok_line(false, cat2(f.label.as_str(), ": unavailable")),
        Some(p) => {
            if !f.exists_there {
                return ok_line(true, cat4(f.label.as_str(), ": missing (", p.as_str(), ")"));
            }
            match &f.text {
                None => {
                    let why = cat2("read ", p.as_str());
                    ok_line(
                        false,
                        cat5(f.label.as_str(), ": invalid (", p.as_str(), ") — ", why.as_str()),
                    )
                },
                Some(t) => {
                    if Json::parse(t.as_str()).is_some() {
                        ok_line(true, cat4(f.label.as_str(), ": valid (", p.as_str(), ")"))
                    } else {
                        ok_line(
                            false,
                            cat5(
                                f.label.as_str(),
                                ": invalid (",
                                p.as_str(),
                                ") — ",
                                "parse json",
                            ),
                        )
                    }
                },
            }
        },
    }
}

fn check_instructions(agents_md: bool, vendor_md: bool, name: &str) -> (r: DoctorLine)
    ensures
        r@ == instructions_check(agents_md, vendor_md, name@),
{
    if agents_md {
        ok_line(true, "project instructions: AGENTS.md".to_owned())
    } else if vendor_md {
        ok_line(true, cat2("project instructions: ", name))
    } else {
        ok_line(
            false,
            cat3(
                "project instructions: missing AGENTS.md/",
                name,
                " (run /init interactively)",
            ),
        )
    }
}

fn check_snapshots(off: bool) -> (r: DoctorLine)
    ensures
        r@ == snapshot_check(off),
{
    if off {
        ok_line(false, "snapshots: disabled by SIRBONE_NO_SNAPSHOT".to_owned())
    } else {
        ok_line(true, "snapshots: enabled".to_owned())
    }
}

fn find_lacking(names: &Vec<String>, list: &Vec<String>) -> (r: Vec<String>)
    ensures
        texts(r@) == lacking(texts(names@), texts(list@)),
{
    let ghost ns = texts(names@);
    let mut out: Vec<String> = Vec::new();
    let mut i: usize = 0;
    assert(ns.take(0) =~= Seq::empty());
    assert(texts(out@) =~= Seq::empty());
    while i < names.len()
        invariant
            i <= names@.len(),
            ns == texts(names@),
            texts(out@) == lacking(ns.take(i as int), texts(list@)),
        decreases names@.len() - i,
    {
        assert(ns.take(i + 1).drop_last() =~= ns.take(i as int));
        assert(ns.take(i + 1).last() == names@[i as int]@);
        let ghost before = texts(out@);
        if !is_in(names[i].as_str(), list) {
            out.push(names[i].clone());
            assert(texts(out@) =~= before.push(names@[i as int]@));
        }
        i += 1;
    }
    assert(ns.take(i as int) =~= ns);
    out
}

fn check_mcp(enabled: &Vec<String>, catalog: &Vec<String>) -> (r: DoctorLine)
    ensures
        r@ == mcp_check(texts(enabled@), texts(catalog@)),
{
    let gone = find_lacking(enabled, catalog);
    assert(texts(enabled@).len() == enabled@.len());
    assert(texts(gone@).len() == gone@.len());
    if enabled.len() == 0 {
        ok_line(true, "MCP enabled servers: none".to_owned())
    } else if gone.len() == 0 {
        ok_line(true, cat2("MCP enabled servers: ", join(enabled, ", ").as_str()))
    } else {
        ok_line(
            false,
            cat2("MCP enabled servers missing from catalog: ", join(&gone, ", ").as_str()),
        )
    }
}

fn check_search(p: &SearchProbe) -> (r: DoctorLine)
    ensures
        r@ == search_check(*p),
{
    match p {
        SearchProbe::Version(v) => ok_line(true, cat2("search2md: ", trim(v.as_str()).as_str())),
        SearchProbe::Failed(status) => ok_line(
            false,
            cat2("search2md: --version exited with ", status.as_str()),
        ),
        SearchProbe::Missing => ok_line(
            false,
            "search2md: missing from PATH (required by web_search)".to_owned(),
        ),
        SearchProbe::TimedOut => ok_line(false, "search2md: --version timed out".to_owned()),
    }
}

fn names_of(presets: &Vec<HookPreset>) -> (r: Vec<String>)
    ensures
        texts(r@) == preset_texts(presets@),
{
    let mut out: Vec<String> = Vec::new();
    let mut i: usize = 0;
    while i < presets.len()
        invariant
            i <= presets@.len(),
            out@.len() == i,
            forall|k: int| 0 <= k < i ==> (#[trigger] out@[k])@ == "high_risk"@,
        decreases presets@.len() - i,
    {
        out.push(presets[i].name().to_owned());
        i += 1;
    }
    assert(texts(out@) =~= preset_texts(presets@));
    out
}

fn borrow(section: &Option<Json>) -> (r: Option<&Json>)
    ensures
        seen(r) == section_view(*section),
{
    match section {
        Some(j) => Some(j),
        None => None,
    }
}

fn check_hooks(section: &Option<Json>, known: &Vec<HookPreset>) -> (r: DoctorLine)
    requires
        known@ == named_presets(section_view(*section)).0,
    ensures
        r@ == hooks_check(section_view(*section)),
{
    match section {
        None => ok_line(true, "hooks: not configured".to_owned()),
        Some(v) => {
            let active = join(&names_of(known), ", ");
            let shown = if active.as_str().is_empty() {
                "none"
            } else {
                active.as_str()
            };
            let is_object = v.as_object().is_some();
            ok_line(is_object, cat2("hooks: configured; presets: ", shown))
        },
    }
}

fn check_presets(unknown: &Vec<String>) -> (r: DoctorLine)
    ensures
        r@ == presets_check(texts(unknown@)),
{
    assert(texts(unknown@).len() == unknown@.len());
    if unknown.len() == 0 {
        ok_line(true, "hook presets: all names recognized".to_owned())
    } else {
        ok_line(false, cat2("hook presets: unknown name(s): ", join(unknown, ", ").as_str()))
    }
}

fn check_cap(cap: Option<u64>) -> (r: DoctorLine)
    ensures
        r@ == cap_check(cap),
{
    match cap {
        Some(n) => ok_line(true, cat3("spend cap: enabled, ", number(n).as_str(), " tokens")),
        None => ok_line(true, "spend cap: disabled".to_owned()),
    }
}

fn check_skills(on_disk: usize, enabled: usize) -> (r: DoctorLine)
    ensures
        r@ == skills_check(on_disk as nat, enabled as nat),
{
    let front = cat5(
        "skills: ",
        size_text(on_disk).as_str(),
        " on disk, ",
        size_text(enabled).as_str(),
        " enabled",
    );
    if on_disk > 0 && enabled == 0 {
        ok_line(
            false,
            cat2(front.as_str(), " — add names to skills.enabled in the project config"),
        )
    } else {
        assert(front@ + Seq::<char>::empty() =~= front@);
        ok_line(true, front)
    }
}

fn check_models(models: &Result<usize, String>, settings: &Vec<Option<String>>) -> (r: DoctorLine)
    ensures
        r@ == (match *models {
            Ok(n) => check(true, "network models: ok ("@ + decimal(n as nat) + " model(s))"@),
            Err(e) => check(false, "network models: "@ + redacted(e@, secrets_in(settings@))),
        }),
{
    match models {
        Ok(n) => ok_line(
            true,
            cat3("network models: ok (", size_text(*n).as_str(), " model(s))"),
        ),
        Err(e) => ok_line(
            false,
            cat2("network models: ", redact_secrets(e.as_str(), settings).as_str()),
        ),
    }
}

fn check_window(window: Option<u32>) -> (r: DoctorLine)
    ensures
        r@ == (match window {
            Some(n) => check(true, "network context window: "@ + decimal(n as nat) + " tokens"@),
            None => check(false, "network context window: unknown"@),
        }),
{
    match window {
        Some(n) => ok_line(
            true,
            cat3("network context window: ", number(n as u64).as_str(), " tokens"),
        ),
        None => ok_line(false, "network context window: unknown".to_owned()),
    }
}

fn check_tokens(tokens: &Result<u64, String>, settings: &Vec<Option<String>>) -> (r: DoctorLine)
    ensures
        r@ == (match *tokens {
            Ok(n) => check(true, "network token count: "@ + decimal(n as nat) + " tokens"@),
            Err(e) => check(false, "network token count: "@ + redacted(e@, secrets_in(settings@))),
        }),
{
    match tokens {
        Ok(n) => ok_line(true, cat3("network token count: ", number(*n).as_str(), " tokens")),
        Err(e) => ok_line(
            false,
            cat2("network token count: ", redact_secrets(e.as_str(), settings).as_str()),
        ),
    }
}

fn add_files(lines: &mut Vec<DoctorLine>, files: &Vec<FileFact>)
    ensures
        doctor_views(final(lines)@) == doctor_views(old(lines)@) + file_checks(files@),
{
    let ghost before = doctor_views(lines@);
    let ghost all = file_checks(files@);
    let mut i: usize = 0;
    assert(before + all.take(0) =~= before);
    while i < files.len()
        invariant
            i <= files@.len(),
            all == file_checks(files@),
            doctor_views(lines@) == before + all.take(i as int),
        decreases files@.len() - i,
    {
        put_line(lines, json_file_status(&files[i]));
        assert((before + all.take(i as int)).push(all[i as int]) =~= before + all.take(i + 1));
        i += 1;
    }
    assert(all.take(i as int) =~= all);
}

fn add_ranking(lines: &mut Vec<DoctorLine>, ranking: &Vec<(String, usize)>)
    ensures
        doctor_views(final(lines)@) == doctor_views(old(lines)@) + ranking_lines(ranking@),
{
    let ghost before = doctor_views(lines@);
    let ghost all = ranking_lines(ranking@);
    let mut i: usize = 0;
    assert(before + all.take(0) =~= before);
    while i < ranking.len()
        invariant
            i <= ranking@.len(),
            all == ranking_lines(ranking@),
            doctor_views(lines@) == before + all.take(i as int),
        decreases ranking@.len() - i,
    {
        let text = cat4(
            "   ",
            align_right(size_text(ranking[i].1).as_str(), 5).as_str(),
            " tok  ",
            ranking[i].0.as_str(),
        );
        put_line(lines, DoctorLine::Plain { text });
        assert((before + all.take(i as int)).push(all[i as int]) =~= before + all.take(i + 1));
        i += 1;
    }
    assert(all.take(i as int) =~= all);
}

fn gather_lines(f: &DoctorFacts) -> (r: Vec<DoctorLine>)
    requires
        f.network_asked && provider_of(f.provider).has_key ==> f.network is Some,
    ensures
        doctor_views(r@) == report_lines(*f),
{
    let provider = provider_env(&f.provider);
    let (known, unknown) = configured_presets(borrow(&f.hooks));
    let ghost section = section_view(f.hooks);
    let mut lines: Vec<DoctorLine> = Vec::new();
    assert(doctor_views(lines@) =~= Seq::empty());
    put_line(&mut lines, check_provider(&provider));
    put_line(&mut lines, check_prompt(f.system_prompt_chars, &f.disable));
    let model = choose_model(
        &f.model,
        &f.model_env,
        provider.anthropic,
        f.names.model.as_str(),
    );
    put_line(&mut lines, ok_line(true, cat2("model: ", model.as_str())));
    let ghost a = doctor_views(lines@);
    assert(a =~= seq![
        provider_check(provider@),
        prompt_check(f.system_prompt_chars as nat, f.disable),
        check(true, "model: "@ + model@),
    ]);
    add_files(&mut lines, &f.files);
    let ghost b = doctor_views(lines@);
    put_line(&mut lines, check_instructions(f.agents_md, f.vendor_md, f.names.instructions.as_str()));
    put_line(&mut lines, ok_line(true, cat2("project state: ", f.project_dir.as_str())));
    put_line(&mut lines, check_snapshots(f.snapshots_off));
    put_line(&mut lines, check_mcp(&f.enabled_mcp, &f.catalog));
    let native = cat5(
        "native tools registered: ",
        size_text(f.native_tools).as_str(),
        " (~",
        size_text(f.native_tokens).as_str(),
        " schema tokens)",
    );
    let ghost nv = native@;
    put_line(&mut lines, ok_line(true, native));
    let headless = cat5(
        "headless run: ",
        size_text(f.headless_tools).as_str(),
        " tools (~",
        size_text(f.headless_tokens).as_str(),
        " schema tokens)",
    );
    let ghost hv = headless@;
    put_line(&mut lines, ok_line(true, headless));
    let ghost c = doctor_views(lines@);
    assert(c =~= b + seq![
        instructions_check(f.agents_md, f.vendor_md, f.names@.instructions),
        check(true, "project state: "@ + f.project_dir@),
        snapshot_check(f.snapshots_off),
        mcp_check(texts(f.enabled_mcp@), texts(f.catalog@)),
        check(true, nv),
        check(true, hv),
    ]);
    add_ranking(&mut lines, &f.ranking);
    let ghost d = doctor_views(lines@);
    put_line(&mut lines, check_search(&f.search));
    put_line(&mut lines, check_hooks(&f.hooks, &known));
    put_line(&mut lines, check_presets(&unknown));
    put_line(&mut lines, check_cap(f.spend_cap));
    put_line(&mut lines, check_skills(f.skills_on_disk, f.skills_enabled));
    let ghost e = doctor_views(lines@);
    assert(e =~= d + seq![
        search_check(f.search),
        hooks_check(section),
        presets_check(named_presets(section).1),
        cap_check(f.spend_cap),
        skills_check(f.skills_on_disk as nat, f.skills_enabled as nat),
    ]);
    if f.network_asked {
        if provider.has_key {
            if let Some(p) = &f.network {
                put_line(&mut lines, check_models(&p.models, &f.settings));
                put_line(&mut lines, check_window(p.window));
                put_line(&mut lines, check_tokens(&p.tokens, &f.settings));
                assert(doctor_views(lines@) =~= e + network_checks(*p, secrets_in(f.settings@)));
            }
        } else {
            put_line(
                &mut lines,
                ok_line(
                    false,
                    "network probe: skipped because no provider key is configured".to_owned(),
                ),
            );
            assert(doctor_views(lines@) =~= e + seq![
                check(false, "network probe: skipped because no provider key is configured"@),
            ]);
        }
    } else {
        assert(e + Seq::<DoctorV>::empty() =~= e);
    }
    lines
}

/// Makes the report on a setup; see [`report`].
pub fn run_doctor(f: &DoctorFacts) -> (r: Vec<String>)
    requires
        f.network_asked && provider_of(f.provider).has_key ==> f.network is Some,
    ensures
        texts(r@) == report(*f),
{
    let lines = gather_lines(f);
    let ghost ls = doctor_views(lines@);
    let ghost all = ls.map_values(|l: DoctorV| printed(l));
    let mut out: Vec<String> = Vec::new();
    out.push("Sir Bone doctor".to_owned());
    out.push(cat2("cwd: ", f.cwd.as_str()));
    out.push(cat2("version: ", f.version.as_str()));
    let ghost front = texts(out@);
    assert(front =~= seq!["Sir Bone doctor"@, "cwd: "@ + f.cwd@, "version: "@ + f.version@]);
    let mut bad: usize = 0;
    let mut i: usize = 0;
    assert(ls.take(0) =~= Seq::empty());
    assert(front + all.take(0) =~= front);
    while i < lines.len()
        invariant
            i <= lines@.len(),
            ls == doctor_views(lines@),
            all == ls.map_values(|l: DoctorV| printed(l)),
            bad == warnings(ls.take(i as int)),
            bad <= i,
            texts(out@) == front + all.take(i as int),
        decreases lines@.len() - i,
    {
        assert(ls.take(i + 1).drop_last() =~= ls.take(i as int));
        assert(ls[i as int] == lines@[i as int]@);
        let ghost before = texts(out@);
        let text = match &lines[i] {
            DoctorLine::Check { ok, text } => {
                if !*ok {
                    bad += 1;
                }
                cat3(
                    if *ok {
                        "ok"
                    } else {
                        "WARN"
                    },
                    " ",
                    text.as_str(),
                )
            },
            DoctorLine::Plain { text } => text.clone(),
        };
        assert(text@ == all[i as int]);
        out.push(text);
        assert(texts(out@) =~= before.push(all[i as int]));
        assert((front + all.take(i as int)).push(all[i as int]) =~= front + all.take(i + 1));
        i += 1;
    }
    assert(ls.take(i as int) =~= ls);
    assert(all.take(i as int) =~= all);
    let verdict = if bad == 0 {
        "doctor: ready".to_owned()
    } else {
        cat3("doctor: ", size_text(bad).as_str(), " warning(s)")
    };
    let ghost vv = verdict@;
    let ghost most = texts(out@);
    out.push(verdict);
    assert(texts(out@) =~= most.push(vv));
    assert(texts(out@) =~= report(*f));
    out
}

// ------------------------------------------------------------ laws

/// The setup is called ready exactly where every check went well.
pub proof fn law_ready_means_no_warning(lines: Seq<DoctorV>)
    ensures
        warnings(lines) == 0 <==> forall|i: int|
            0 <= i < lines.len() ==> !((#[trigger] lines[i]) is Check && !lines[i]->ok),
    decreases lines.len(),
{
    if lines.len() > 0 {
        let front = lines.drop_last();
        law_ready_means_no_warning(front);
        if warnings(lines) == 0 {
            assert forall|i: int| 0 <= i < lines.len() implies !((#[trigger] lines[i]) is Check
                && !lines[i]->ok) by {
                if i < front.len() {
                    assert(front[i] == lines[i]);
                }
            }
        }
        if forall|i: int|
            0 <= i < lines.len() ==> !((#[trigger] lines[i]) is Check && !lines[i]->ok) {
            assert forall|i: int| 0 <= i < front.len() implies !((#[trigger] front[i]) is Check
                && !front[i]->ok) by {
                assert(front[i] == lines[i]);
            }
            assert(lines[lines.len() - 1] == lines.last());
        }
    }
}

/// A provider without a key is a warning, one with a key is none.
pub proof fn law_key_decides_the_provider_check(p: ProviderV)
    ensures
        provider_check(p) matches DoctorV::Check { ok, text } && ok == p.has_key,
{
}

proof fn lemma_lacking(names: Seq<Seq<char>>, list: Seq<Seq<char>>, name: Seq<char>)
    ensures
        lacking(names, list).contains(name) <==> names.contains(name) && !list.contains(name),
    decreases names.len(),
{
    if names.len() > 0 {
        let front = names.drop_last();
        let (before, all) = (lacking(front, list), lacking(names, list));
        lemma_lacking(front, list, name);
        if all.contains(name) {
            let k = choose|k: int| 0 <= k < all.len() && all[k] == name;
            if k < before.len() {
                assert(before[k] == name);
                let j = choose|j: int| 0 <= j < front.len() && front[j] == name;
                assert(names[j] == name);
            } else {
                assert(names[names.len() - 1] == name);
            }
        }
        if names.contains(name) && !list.contains(name) {
            let j = choose|j: int| 0 <= j < names.len() && names[j] == name;
            if j < front.len() {
                assert(front[j] == name);
                let k = choose|k: int| 0 <= k < before.len() && before[k] == name;
                assert(all[k] == name);
            } else {
                assert(all[all.len() - 1] == name);
            }
        }
    }
}

/// A server that is switched on and not in the catalog is a warning that names it; where
/// all of them are there, each is named and nothing is warned of.
pub proof fn law_missing_servers_are_named(
    enabled: Seq<Seq<char>>,
    catalog: Seq<Seq<char>>,
    name: Seq<char>,
)
    requires
        enabled.contains(name),
    ensures
        ({
            let c = mcp_check(enabled, catalog);
            &&& !catalog.contains(name) ==> !c->ok && holds(c->Check_text, name)
            &&& (forall|n: Seq<char>| enabled.contains(n) ==> #[trigger] catalog.contains(n))
                ==> c->ok && holds(c->Check_text, name)
        }),
{
    lemma_lacking(enabled, catalog, name);
    let gone = lacking(enabled, catalog);
    if !catalog.contains(name) {
        let k = choose|k: int| 0 <= k < gone.len() && gone[k] == name;
        lemma_listed("MCP enabled servers missing from catalog: "@, gone, k);
    }
    if forall|n: Seq<char>| enabled.contains(n) ==> #[trigger] catalog.contains(n) {
        if gone.len() > 0 {
            lemma_lacking(enabled, catalog, gone[0]);
            assert(gone.contains(gone[0]));
        }
        let k = choose|k: int| 0 <= k < enabled.len() && enabled[k] == name;
        lemma_listed("MCP enabled servers: "@, enabled, k);
    }
}

proof fn lemma_listed(lead: Seq<char>, parts: Seq<Seq<char>>, i: int)
    requires
        0 <= i < parts.len(),
    ensures
        holds(lead + joined(parts, ", "@), parts[i]),
{
    law_joined_parts_stand_in_order(parts, ", "@, i);
    let list = joined(parts, ", "@);
    let all = lead + list;
    let at = if i == 0 {
        0
    } else {
        (joined(parts.take(i), ", "@).len() + ", "@.len()) as int
    };
    let from = lead.len() + at;
    assert(all.subrange(from, from + parts[i].len()) =~= list.subrange(at, at + parts[i].len()));
    assert(occurs_at(all, parts[i], from));
}

/// A name of a preset that is not known is a warning that names it.
pub proof fn law_unknown_presets_are_named(unknown: Seq<Seq<char>>, i: int)
    ensures
        presets_check(unknown)->ok <==> unknown.len() == 0,
        0 <= i < unknown.len() ==> holds(presets_check(unknown)->Check_text, unknown[i]),
{
    if 0 <= i < unknown.len() {
        lemma_listed("hook presets: unknown name(s): "@, unknown, i);
    }
}

/// The provider is Anthropic wherever any key for it is there; an endpoint that is given
/// counts, the argument before the environment.
pub proof fn law_keys_choose_the_provider(p: ProviderInput)
    ensures
        provider_of(p).anthropic <==> p.anthropic_key || p.auth_token || p.anthropic_api_key,
        provider_of(p).has_key <==> p.anthropic_key || p.auth_token || p.anthropic_api_key
            || p.api_key || p.openai_api_key,
        provider_of(p).anthropic && p.anthropic_base is Some ==> provider_of(p).base
            == p.anthropic_base->0@,
        provider_of(p).anthropic && p.anthropic_base is None && p.anthropic_base_env is Some
            ==> provider_of(p).base == p.anthropic_base_env->0@,
        !provider_of(p).anthropic && p.base is Some ==> provider_of(p).base == p.base->0@,
        !provider_of(p).anthropic && p.base is None && p.base_env is Some ==> provider_of(p).base
            == p.base_env->0@,
{
}

/// The model is the argument, else the environment's.
pub proof fn law_model_is_the_one_named(
    arg: Option<String>,
    env: Option<String>,
    anthropic: bool,
    own: Seq<char>,
)
    ensures
        arg is Some ==> model_of(arg, env, anthropic, own) == arg->0@,
        arg is None && env is Some ==> model_of(arg, env, anthropic, own) == env->0@,
        arg is None && env is None && anthropic ==> model_of(arg, env, anthropic, own) == own,
{
}

/// A configuration file is fine where it is missing or holds JSON text, and a warning
/// where it has no path, cannot be read or holds anything else; its path is shown.
pub proof fn law_broken_files_are_warned_of(f: FileFact)
    ensures
        file_check(f) is Check,
        file_check(f)->ok <==> f.path is Some && (!f.exists_there || (f.text is Some
            && parsed_json(f.text->0@) is Some)),
        f.path is Some ==> holds(file_check(f)->Check_text, f.path->0@),
        begins(file_check(f)->Check_text, f.label@),
{
    let c = file_check(f);
    assert(c->Check_text.subrange(0, f.label@.len() as int) =~= f.label@);
    if let Some(p) = f.path {
        let front = f.label@ + (if !f.exists_there {
            ": missing ("@
        } else if f.text is Some && parsed_json(f.text->0@) is Some {
            ": valid ("@
        } else {
            ": invalid ("@
        });
        let at = front.len() as int;
        assert(c->Check_text.subrange(at, at + p@.len()) =~= p@);
        assert(occurs_at(c->Check_text, p@, at));
    }
}

/// What the network said is reported, each answer for itself: a failure is a warning,
/// and no line shows more of it than is left without the secrets.
pub proof fn law_network_answers_are_reported(p: NetworkProbe, secrets: Seq<Seq<char>>)
    ensures
        ({
            let c = network_checks(p, secrets);
            &&& c.len() == 3
            &&& c[0] is Check && c[1] is Check && c[2] is Check
            &&& c[0]->ok <==> p.models is Ok
            &&& c[1]->ok <==> p.window is Some
            &&& c[2]->ok <==> p.tokens is Ok
            &&& p.models is Err ==> ends(
                c[0]->Check_text,
                redacted(p.models->Err_0@, secrets),
            )
            &&& p.tokens is Err ==> ends(c[2]->Check_text, redacted(p.tokens->Err_0@, secrets))
        }),
{
    if p.models is Err {
        let e = redacted(p.models->Err_0@, secrets);
        let all = "network models: "@ + e;
        assert(all.subrange(all.len() - e.len(), all.len() as int) =~= e);
    }
    if p.tokens is Err {
        let e = redacted(p.tokens->Err_0@, secrets);
        let all = "network token count: "@ + e;
        assert(all.subrange(all.len() - e.len(), all.len() as int) =~= e);
    }
}

/// The report has a line for every configuration file, in order, and its last line says
/// how many checks did not go well.
pub proof fn law_every_file_is_reported(f: DoctorFacts, i: int)
    requires
        0 <= i < f.files@.len(),
    ensures
        report_lines(f)[3 + i] == file_check(f.files@[i]),
        report_lines(f)[0] == provider_check(provider_of(f.provider)),
        report(f).len() == 4 + report_lines(f).len(),
        report(f)[6 + i] == printed(file_check(f.files@[i])),
{
}

/// Skills that lie on disk with none switched on are warned of, and nothing else is.
pub proof fn law_dormant_skills_are_warned_of(on_disk: nat, enabled: nat)
    ensures
        skills_check(on_disk, enabled)->ok <==> on_disk == 0 || enabled > 0,
{
}

/// A line that did not go well is printed as a warning, one that did as fine, and its
/// text is all there.
pub proof fn law_lines_are_printed_whole(ok: bool, text: Seq<char>)
    ensures
        ends(printed(check(ok, text)), text),
        ok ==> begins(printed(check(ok, text)), "ok "@),
        !ok ==> begins(printed(check(ok, text)), "WARN "@),
{
    reveal_strlit("ok");
    reveal_strlit("WARN");
    reveal_strlit(" ");
    reveal_strlit("ok ");
    reveal_strlit("WARN ");
    let all = printed(check(ok, text));
    assert(all.subrange(all.len() - text.len(), all.len() as int) =~= text);
    if ok {
        assert(all.subrange(0, 3) =~= "ok "@);
    } else {
        assert(all.subrange(0, 5) =~= "WARN "@);
    }
}

/// A check goes well exactly where what it looks at is in order: snapshots that are on,
/// instructions that are there, a search program that answers, hooks that can be read. The
/// cap, the prompt and the version are shown as they are.
pub proof fn law_checks_go_by_the_facts(
    off: bool,
    agents_md: bool,
    vendor_md: bool,
    name: Seq<char>,
    probe: SearchProbe,
    section: Option<crate::json::JsonV>,
    cap: u64,
    chars: nat,
)
    ensures
        snapshot_check(off)->ok <==> !off,
        instructions_check(agents_md, vendor_md, name)->ok <==> agents_md || vendor_md,
        search_check(probe)->ok <==> probe is Version,
        hooks_check(section)->ok <==> section is None || section->0 is Object,
        cap_check(Some(cap))->ok && holds(cap_check(Some(cap))->Check_text, decimal(cap as nat)),
        cap_check(None)->ok,
        prompt_check(chars, None)->ok && holds(
            prompt_check(chars, None)->Check_text,
            decimal(chars) + " chars (~"@ + decimal(chars / 4) + " tokens)"@,
        ),
{
    let a = cap_check(Some(cap))->Check_text;
    let at = "spend cap: enabled, "@.len() as int;
    assert(a.subrange(at, at + decimal(cap as nat).len()) =~= decimal(cap as nat));
    assert(occurs_at(a, decimal(cap as nat), at));
    let b = prompt_check(chars, None)->Check_text;
    let n = decimal(chars) + " chars (~"@ + decimal(chars / 4) + " tokens)"@;
    let from = "system prompt: "@.len() as int;
    assert(b.subrange(from, from + n.len()) =~= n);
    assert(occurs_at(b, n, from));
}

/// An endpoint that is not the provider's own is pointed out, and only such a one is.
pub proof fn law_other_endpoints_are_pointed_out(p: ProviderV)
    requires
        p.has_key,
    ensures
        holds(provider_check(p)->Check_text, p.base),
        p.base != own_base(p.anthropic) ==> ends(
            provider_check(p)->Check_text,
            " (non-default — the API key is sent here)"@,
        ),
        p.base == own_base(p.anthropic) ==> ends(provider_check(p)->Check_text, p.base),
{
    let all = provider_check(p)->Check_text;
    let lead = "provider: "@ + provider_name(p.anthropic) + " key present, base "@;
    let at = lead.len() as int;
    assert(all.subrange(at, at + p.base.len()) =~= p.base);
    assert(occurs_at(all, p.base, at));
    let note = " (non-default — the API key is sent here)"@;
    if p.base != own_base(p.anthropic) {
        assert(all.subrange(all.len() - note.len(), all.len() as int) =~= note);
    } else {
        assert(all.subrange(all.len() - p.base.len(), all.len() as int) =~= p.base);
    }
}

} // verus!
