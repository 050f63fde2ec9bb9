//! The login: the providers to choose from, and the file of credentials that the
//! answers become.
use vstd::prelude::*;
use crate::agent::turn::unicode_lower;
use crate::ai::{redact_secrets, redacted, secrets_in, setting_view};
use crate::checks::text_view;
use crate::cmd::doctor::own_base;
use crate::cmd::{mask, masked, NamesV, VendorNames};
use crate::text::{
    cat2, cat3, cat4, cat5, decimal, ends, holds, law_numbers_are_read_back, occurs_at, parse_number, parsed_number, put, same, size_text, texts, trim,
    trimmed,
};

verus! {

// ------------------------------------------------------------ providers

/// Where the endpoint of a provider comes from.
#[derive(Clone, Copy, Debug)]
pub enum Base {
    /// The provider's own; it is not written.
    Default,
    Fixed(&'static str),
    /// The user is asked.
    Prompt,
}

/// A provider to choose.
#[derive(Debug)]
pub struct Preset {
    pub label: String,
    /// Whether it speaks as Anthropic does, or as OpenAI does.
    pub anthropic: bool,
    pub base: Base,
    /// The model that is offered; empty where the user has to name one.
    pub default_model: String,
}

/// What a [`Preset`] stands for: the label, how it speaks, the endpoint that is
/// written, whether the user is asked for it, and the model.
pub open spec fn preset_view(p: Preset) -> (Seq<char>, bool, Option<Seq<char>>, bool, Seq<char>) {
    (
        p.label@,
        p.anthropic,
        match p.base {
            Base::Fixed(u) => Some(u@),
            _ => None,
        },
        p.base is Prompt,
        p.default_model@,
    )
}

/// What some presets stand for.
pub open spec fn preset_views(v: Seq<Preset>) -> Seq<
    (Seq<char>, bool, Option<Seq<char>>, bool, Seq<char>),
> {
    v.map_values(|p: Preset| preset_view(p))
}

/// The providers to choose from.
pub open spec fn preset_table(names: NamesV) -> Seq<(Seq<char>, bool, Option<Seq<char>>, bool, Seq<char>)> {
    seq![
        (
            "Anthropic ("@ + names.brand + " — prompt caching + extended thinking)"@,
            true,
            None,
            false,
            names.model,
        ),
        (
            "z.ai / GLM (Anthropic-compatible — caching + thinking)"@,
            true,
            Some("https://api.z.ai/api/anthropic"@),
            false,
            "glm-5.2"@,
        ),
        (
            "OpenRouter (one key, most models)"@,
            false,
            Some("https://openrouter.ai/api/v1"@),
            false,
            names.routed_model,
        ),
        (
            "Groq (fast, free tier)"@,
            false,
            Some("https://api.groq.com/openai/v1"@),
            false,
            "llama-3.3-70b-versatile"@,
        ),
        (
            "Google AI Studio (free tier, no card)"@,
            false,
            Some("https://generativelanguage.googleapis.com/v1beta/openai/"@),
            false,
            "gemini-2.5-flash"@,
        ),
        ("OpenAI"@, false, None, false, "gpt-4o-mini"@),
        ("Custom OpenAI-compatible (Ollama, Mistral, …)"@, false, None, true, ""@),
    ]
}

/// Lists the providers; see [`preset_table`].
pub fn presets(names: &VendorNames) -> (v: Vec<Preset>)
    ensures
        preset_views(v@) == preset_table(names@),
        v@.len() == 7,
{
    let v: Vec<Preset> = vec![
        Preset {
            label: cat3(
                "Anthropic (",
                names.brand.as_str(),
                " — prompt caching + extended thinking)",
            ),
            anthropic: true,
            base: Base::Default,
            default_model: names.model.clone(),
        },
        Preset {
            label: "z.ai / GLM (Anthropic-compatible — caching + thinking)".to_owned(),
            anthropic: true,
            base: Base::Fixed("https://api.z.ai/api/anthropic"),
            default_model: "glm-5.2".to_owned(),
        },
        Preset {
            label: "OpenRouter (one key, most models)".to_owned(),
            anthropic: false,
            base: Base::Fixed("https://openrouter.ai/api/v1"),
            default_model: names.routed_model.clone(),
        },
        Preset {
            label: "Groq (fast, free tier)".to_owned(),
            anthropic: false,
            base: Base::Fixed("https://api.groq.com/openai/v1"),
            default_model: "llama-3.3-70b-versatile".to_owned(),
        },
        Preset {
            label: "Google AI Studio (free tier, no card)".to_owned(),
            anthropic: false,
            base: Base::Fixed("https://generativelanguage.googleapis.com/v1beta/openai/"),
            default_model: "gemini-2.5-flash".to_owned(),
        },
        Preset {
            label: "OpenAI".to_owned(),
            anthropic: false,
            base: Base::Default,
            default_model: "gpt-4o-mini".to_owned(),
        },
        Preset {
            label: "Custom OpenAI-compatible (Ollama, Mistral, …)".to_owned(),
            anthropic: false,
            base: Base::Prompt,
            default_model: "".to_owned(),
        },
    ];
    assert(preset_views(v@) =~= preset_table(names@));
    v
}

/// The provider that a line chooses, by its number from one on.
pub open spec fn chosen_preset(line: Seq<char>) -> Option<int> {
    match parsed_number(trimmed(line), usize::MAX as nat) {
        Some(n) => if 1 <= n <= 7 {
            Some(n - 1)
        } else {
            None
        },
        None => None,
    }
}

/// Reads a choice; see [`chosen_preset`].
pub fn choose_preset(line: &str) -> (r: Option<usize>)
    ensures
        match r {
            Some(i) => chosen_preset(line@) == Some(i as int) && i < 7,
            None => chosen_preset(line@) is None,
        },
{
    match parse_number(trim(line).as_str(), usize::MAX as u64) {
        Some(n) => if 1 <= n && n <= 7 {
            Some((n - 1) as usize)
        } else {
            None
        },
        None => None,
    }
}

/// The list of the providers, as it is shown.
pub fn preset_lines(names: &VendorNames) -> (r: Vec<String>)
    ensures
        r@.len() == 7,
        forall|i: int|
            0 <= i < 7 ==> (#[trigger] r@[i])@ == "  "@ + decimal((i + 1) as nat) + ") "@
                + preset_table(names@)[i].0,
{
    let table = presets(names);
    let mut out: Vec<String> = Vec::new();
    let mut i: usize = 0;
    while i < table.len()
        invariant
            i <= table@.len() == 7,
            preset_views(table@) == preset_table(names@),
            out@.len() == i,
            forall|k: int|
                0 <= k < i ==> (#[trigger] out@[k])@ == "  "@ + decimal(
                    (k + 1) as nat,
                ) + ") "@ + preset_table(names@)[k].0,
        decreases table@.len() - i,
    {
        assert(preset_views(table@)[i as int].0 == table@[i as int].label@);
        out.push(cat4("  ", size_text(i + 1).as_str(), ") ", table[i].label.as_str()));
        i += 1;
    }
    out
}

/// The model that a line names; the one that is offered where it names none.
pub fn choose_model(line: &str, default_model: &str) -> (r: String)
    ensures
        r@ == (if trimmed(line@).len() == 0 {
            default_model@
        } else {
            trimmed(line@)
        }),
{
    let m = trim(line);
    if m.as_str().is_empty() {
        default_model.to_owned()
    } else {
        m
    }
}

/// The answer to a question that has a default: yes in any of its words, the
/// default for nothing, else no.
pub open spec fn answered_yes(lower: Seq<char>, default_yes: bool) -> bool {
    if lower.len() == 0 {
        default_yes
    } else {
        lower == "y"@ || lower == "yes"@ || lower == "s"@ || lower == "si"@ || lower == "sì"@
    }
}

/// Decides [`answered_yes`]; the answer is given in lower case.
pub fn is_yes(lower: &str, default_yes: bool) -> (b: bool)
    ensures
        b == answered_yes(lower@, default_yes),
{
    if lower.is_empty() {
        return default_yes;
    }
    same(lower, "y") || same(lower, "yes") || same(lower, "s") || same(lower, "si") || same(
        lower,
        "sì",
    )
}

/// Reads the answer to a question that has a default.
pub fn ask_yes_no(line: &str, default_yes: bool) -> (b: bool)
    ensures
        b == answered_yes(unicode_lower(trimmed(line@)), default_yes),
{
    let answer = trim(line);
    let lower = answer.as_str().to_lowercase();
    is_yes(lower.as_str(), default_yes)
}

/// The question with the hint on its default.
pub fn yes_no_prompt(question: &str, default_yes: bool) -> (r: String)
    ensures
        r@ == question@ + " "@ + (if default_yes {
            "[Y/n]"@
        } else {
            "[y/N]"@
        }) + " "@,
{
    let hint = if default_yes {
        "[Y/n]"
    } else {
        "[y/N]"
    };
    cat4(question, " ", hint, " ")
}

// ------------------------------------------------------------ credentials

/// The variable that a token is written to.
pub open spec fn token_key(anthropic: bool) -> Seq<char> {
    if anthropic {
        "ANTHROPIC_AUTH_TOKEN"@
    } else {
        "OPENAI_API_KEY"@
    }
}

/// Computes [`token_key`].
pub fn token_variable(anthropic: bool) -> (r: &'static str)
    ensures
        r@ == token_key(anthropic),
{
    if anthropic {
        "ANTHROPIC_AUTH_TOKEN"
    } else {
        "OPENAI_API_KEY"
    }
}

/// What a login gives.
#[derive(Debug)]
pub struct Credentials {
    pub token: String,
    pub base: Option<String>,
    pub anthropic: bool,
    pub model: String,
}

/// What [`Credentials`] stand for.
pub struct CredentialsV {
    pub token: Seq<char>,
    pub base: Option<Seq<char>>,
    pub anthropic: bool,
    pub model: Seq<char>,
}

impl View for Credentials {
    type V = CredentialsV;

    open spec fn view(&self) -> CredentialsV {
        CredentialsV {
            token: self.token@,
            base: text_view(self.base),
            anthropic: self.anthropic,
            model: self.model@,
        }
    }
}

/// The value of a variable, where it is set to something.
pub open spec fn set_to(v: Option<String>) -> Option<Seq<char>> {
    match v {
        Some(t) => if t@.len() > 0 {
            Some(t@)
        } else {
            None
        },
        None => None,
    }
}

fn value_of(v: &Option<String>) -> (r: Option<String>)
    ensures
        text_view(r) == set_to(*v),
{
    match v {
        Some(t) => if t.as_str().is_empty() {
            None
        } else {
            Some(t.clone())
        },
        None => None,
    }
}

/// The variables in which credentials are looked for.
#[derive(Debug)]
pub struct LoginEnv {
    pub anthropic_token: Option<String>,
    pub anthropic_base: Option<String>,
    pub openai_key: Option<String>,
    pub openai_base: Option<String>,
    pub model: Option<String>,
}

/// The credentials that the environment holds already: those for Anthropic come
/// first.
pub open spec fn picked_up(e: LoginEnv, names: NamesV) -> Option<CredentialsV> {
    match (set_to(e.anthropic_token), set_to(e.openai_key)) {
        (Some(token), _) => Some(
            CredentialsV {
                token,
                base: set_to(e.anthropic_base),
                anthropic: true,
                model: match set_to(e.model) {
                    Some(m) => m,
                    None => names.model,
                },
            },
        ),
        (None, Some(token)) => Some(
            CredentialsV {
                token,
                base: set_to(e.openai_base),
                anthropic: false,
                model: match set_to(e.model) {
                    Some(m) => m,
                    None => "gpt-4o-mini"@,
                },
            },
        ),
        (None, None) => None,
    }
}

/// Computes [`picked_up`].
pub fn env_pickup(e: &LoginEnv, names: &VendorNames) -> (r: Option<Credentials>)
    ensures
        match r {
            Some(c) => picked_up(*e, names@) == Some(c@),
            None => picked_up(*e, names@) is None,
        },
{
    let model = value_of(&e.model);
    match value_of(&e.anthropic_token) {
        Some(token) => Some(
            Credentials {
                token,
                base: value_of(&e.anthropic_base),
                anthropic: true,
                model: match model {
                    Some(m) => m,
                    None => names.model.clone(),
                },
            },
        ),
        None => match value_of(&e.openai_key) {
            Some(token) => Some(
                Credentials {
                    token,
                    base: value_of(&e.openai_base),
                    anthropic: false,
                    model: match model {
                        Some(m) => m,
                        None => "gpt-4o-mini".to_owned(),
                    },
                },
            ),
            None => None,
        },
    }
}

/// The credentials that a front-end hands over: the token comes on its own, for
/// it must not stand among the arguments.
pub fn set_credentials(
    provider: &str,
    base: Option<&str>,
    model: Option<&str>,
    token: &str,
    names: &VendorNames,
) -> (r: Result<Credentials, String>)
    ensures
        ({
            let known = provider@ == "anthropic"@ || provider@ == "openai"@;
            let anthropic = provider@ == "anthropic"@;
            match r {
                Ok(c) => trimmed(token@).len() > 0 && known && c@ == (CredentialsV {
                    token: trimmed(token@),
                    base: setting_view(base),
                    anthropic,
                    model: match setting_view(model) {
                        Some(m) => if m.len() > 0 {
                            m
                        } else if anthropic {
                            names@.model
                        } else {
                            "gpt-4o-mini"@
                        },
                        None => if anthropic {
                            names@.model
                        } else {
                            "gpt-4o-mini"@
                        },
                    },
                }),
                Err(e) => if trimmed(token@).len() == 0 {
                    e@ == "empty token on stdin"@
                } else {
                    !known && e@ == "unknown provider '"@ + provider@
                        + "' (use anthropic|openai)"@
                },
            }
        }),
{
    let bare = trim(token);
    if bare.as_str().is_empty() {
        return Err("empty token on stdin".to_owned());
    }
    let anthropic = same(provider, "anthropic");
    if !anthropic && !same(provider, "openai") {
        return Err(cat3("unknown provider '", provider, "' (use anthropic|openai)"));
    }
    let default_model = if anthropic {
        names.model.as_str()
    } else {
        "gpt-4o-mini"
    };
    let named = match model {
        Some(m) => if m.is_empty() {
            default_model
        } else {
            m
        },
        None => default_model,
    };
    let written_base = match base {
        Some(b) => Some(b.to_owned()),
        None => None,
    };
    Ok(
        Credentials {
            token: bare,
            base: written_base,
            anthropic,
            model: named.to_owned(),
        },
    )
}

/// The endpoint that the credentials are tried at.
pub fn test_base(c: &Credentials) -> (r: String)
    ensures
        r@ == (match c@.base {
            Some(b) => b,
            None => own_base(c.anthropic),
        }),
{
    match &c.base {
        Some(b) => b.clone(),
        None => if c.anthropic {
            "https://api.anthropic.com".to_owned()
        } else {
            "https://api.openai.com/v1".to_owned()
        },
    }
}

/// What stands above the credentials in their file.
pub const ENV_FILE_HEADER: &'static str = "# Sir Bone credentials — written by `sirbone login`.\n\
# Optional flags (thinking, snapshot, …): see .env.example in the repo.\n";

/// The file of credentials: the token, the endpoint where one is given, and the
/// model where one is named.
pub open spec fn env_file(c: CredentialsV) -> Seq<char> {
    ENV_FILE_HEADER@ + token_key(c.anthropic) + "="@ + c.token + "\n"@ + (match c.base {
        Some(b) => (if c.anthropic {
            "ANTHROPIC_BASE_URL"@
        } else {
            "OPENAI_BASE_URL"@
        }) + "="@ + b + "\n"@,
        None => Seq::empty(),
    }) + (if c.model.len() > 0 {
        "SIRBONE_MODEL="@ + c.model + "\n"@
    } else {
        Seq::empty()
    })
}

/// Writes the file of credentials; see [`env_file`].
pub fn write_env(c: &Credentials) -> (r: String)
    ensures
        r@ == env_file(c@),
{
    let mut out = ENV_FILE_HEADER.to_owned();
    put(&mut out, token_variable(c.anthropic));
    put(&mut out, "=");
    put(&mut out, c.token.as_str());
    put(&mut out, "\n");
    let ghost front = out@;
    if let Some(b) = &c.base {
        put(
            &mut out,
            if c.anthropic {
                "ANTHROPIC_BASE_URL"
            } else {
                "OPENAI_BASE_URL"
            },
        );
        put(&mut out, "=");
        put(&mut out, b.as_str());
        put(&mut out, "\n");
    }
    let ghost mid = out@;
    assert(mid =~= front + (match c@.base {
        Some(b) => (if c.anthropic {
            "ANTHROPIC_BASE_URL"@
        } else {
            "OPENAI_BASE_URL"@
        }) + "="@ + b + "\n"@,
        None => Seq::empty(),
    }));
    if !c.model.as_str().is_empty() {
        put(&mut out, "SIRBONE_MODEL=");
        put(&mut out, c.model.as_str());
        put(&mut out, "\n");
    }
    assert(out@ =~= mid + (if c.model@.len() > 0 {
        "SIRBONE_MODEL="@ + c.model@ + "\n"@
    } else {
        Seq::empty()
    }));
    out
}

// ------------------------------------------------------------ the wizard

/// What the wizard waits for.
#[derive(Clone, Copy, Debug, PartialEq, Eq, Structural)]
pub enum Stage {
    /// Whether a file that is there may be written over.
    Reconfigure,
    /// Whether the credentials of the environment are to be kept.
    SaveFound,
    Choose,
    Token,
    BaseUrl,
    Model,
    /// There are credentials to write.
    Done,
    /// The file stays as it is.
    Left,
}

/// The questions of a login, up to the credentials that they lead to.
#[derive(Debug)]
pub struct Wizard {
    pub names: VendorNames,
    pub stage: Stage,
    pub found: Option<Credentials>,
    pub preset: Preset,
    pub token: String,
    pub base: Option<String>,
    pub result: Option<Credentials>,
}

/// What a [`Wizard`] stands for.
pub struct WizardV {
    pub names: NamesV,
    pub stage: Stage,
    pub found: Option<CredentialsV>,
    pub preset: (Seq<char>, bool, Option<Seq<char>>, bool, Seq<char>),
    pub token: Seq<char>,
    pub base: Option<Seq<char>>,
    pub result: Option<CredentialsV>,
}

/// What credentials stand for, where there are any.
pub open spec fn credentials_view(c: Option<Credentials>) -> Option<CredentialsV> {
    match c {
        Some(c) => Some(c@),
        None => None,
    }
}

impl View for Wizard {
    type V = WizardV;

    open spec fn view(&self) -> WizardV {
        WizardV {
            names: self.names@,
            stage: self.stage,
            found: credentials_view(self.found),
            preset: preset_view(self.preset),
            token: self.token@,
            base: text_view(self.base),
            result: credentials_view(self.result),
        }
    }
}

/// The lines that offer the providers.
pub open spec fn offer(names: NamesV) -> Seq<Seq<char>> {
    seq!["\nPick a provider:"@] + Seq::new(
        7,
        |i: int| "  "@ + decimal((i + 1) as nat) + ") "@ + preset_table(names)[i].0,
    )
}

/// How the wizard begins, with what it says.
pub open spec fn begun(path: Seq<char>, exists_there: bool, env: LoginEnv, names: NamesV) -> (
    WizardV,
    Seq<Seq<char>>,
) {
    let w = WizardV {
        names,
        stage: Stage::Choose,
        found: None,
        preset: preset_table(names)[0],
        token: ""@,
        base: None,
        result: None,
    };
    if exists_there {
        (WizardV { stage: Stage::Reconfigure, ..w }, seq![path + " already exists."@])
    } else {
        match picked_up(env, names) {
            Some(c) => (
                WizardV { stage: Stage::SaveFound, found: Some(c), ..w },
                seq![
                    "Found credentials in the environment: "@ + token_key(c.anthropic) + "="@
                        + masked(c.token),
                ],
            ),
            None => (w, offer(names)),
        }
    }
}

/// The wizard behind an answer, with what it says.
pub open spec fn advanced(w: WizardV, line: Seq<char>) -> (WizardV, Seq<Seq<char>>) {
    let t = trimmed(line);
    let none = Seq::<Seq<char>>::empty();
    match w.stage {
        Stage::Reconfigure => if answered_yes(unicode_lower(t), false) {
            (WizardV { stage: Stage::Choose, ..w }, offer(w.names))
        } else {
            (WizardV { stage: Stage::Left, ..w }, seq!["Leaving the file as is."@])
        },
        Stage::SaveFound => if answered_yes(unicode_lower(t), true) {
            (WizardV { stage: Stage::Done, result: w.found, found: None, ..w }, none)
        } else {
            (WizardV { stage: Stage::Choose, found: None, ..w }, offer(w.names))
        },
        Stage::Choose => match chosen_preset(line) {
            Some(i) => (WizardV { stage: Stage::Token, preset: preset_table(w.names)[i], ..w }, none),
            None => (w, seq!["Enter a number 1–7."@]),
        },
        Stage::Token => if t.len() == 0 {
            (w, seq!["Empty token."@])
        } else if w.preset.3 {
            (WizardV { stage: Stage::BaseUrl, token: t, ..w }, none)
        } else {
            (WizardV { stage: Stage::Model, token: t, base: w.preset.2, ..w }, none)
        },
        Stage::BaseUrl => if t.len() == 0 {
            (w, seq!["Empty URL."@])
        } else {
            (WizardV { stage: Stage::Model, base: Some(t), ..w }, none)
        },
        Stage::Model => (
            WizardV {
                stage: Stage::Done,
                result: Some(
                    CredentialsV {
                        token: w.token,
                        base: w.base,
                        anthropic: w.preset.1,
                        model: if t.len() == 0 {
                            w.preset.4
                        } else {
                            t
                        },
                    },
                ),
                ..w
            },
            none,
        ),
        Stage::Done => (w, none),
        Stage::Left => (w, none),
    }
}

/// What the user is asked; nothing where the wizard has ended.
pub open spec fn asked(w: WizardV) -> Option<Seq<char>> {
    match w.stage {
        Stage::Reconfigure => Some(
            "Reconfigure (overwrites credentials)?"@ + " "@ + "[y/N]"@ + " "@,
        ),
        Stage::SaveFound => Some("Save them to ~/.sirbone/.env?"@ + " "@ + "[Y/n]"@ + " "@),
        Stage::Choose => Some("> "@),
        Stage::Token => Some("Paste the API key / token: "@),
        Stage::BaseUrl => Some("Base URL (e.g. http://localhost:11434/v1): "@),
        Stage::Model => Some(
            "Model ["@ + (if w.preset.4.len() == 0 {
                "required"@
            } else {
                w.preset.4
            }) + "]: "@,
        ),
        Stage::Done => None,
        Stage::Left => None,
    }
}

fn offer_lines(names: &VendorNames) -> (r: Vec<String>)
    ensures
        texts(r@) == offer(names@),
{
    let mut out: Vec<String> = Vec::new();
    out.push("\nPick a provider:".to_owned());
    let rows = preset_lines(names);
    let mut i: usize = 0;
    while i < rows.len()
        invariant
            i <= rows@.len() == 7,
            out@.len() == i + 1,
            out@[0]@ == "\nPick a provider:"@,
            forall|k: int| 0 <= k < i ==> (#[trigger] out@[k + 1])@ == rows@[k]@,
        decreases rows@.len() - i,
    {
        out.push(rows[i].clone());
        i += 1;
    }
    assert(texts(out@) =~= offer(names@)) by {
        assert forall|k: int| 0 <= k < 8 implies texts(out@)[k] == offer(names@)[k] by {
            if k > 0 {
                assert(out@[(k - 1) + 1]@ == rows@[k - 1]@);
            }
        }
    }
    out
}

fn one_line(t: &str) -> (r: Vec<String>)
    ensures
        texts(r@) == seq![t@],
{
    let mut out: Vec<String> = Vec::new();
    out.push(t.to_owned());
    assert(texts(out@) =~= seq![t@]);
    out
}

fn nothing_said() -> (r: Vec<String>)
    ensures
        texts(r@) == Seq::<Seq<char>>::empty(),
{
    let out: Vec<String> = Vec::new();
    assert(texts(out@) =~= Seq::empty());
    out
}

impl Wizard {
    /// Begins a login; `exists_there` says whether the file of credentials is
    /// there. See [`begun`].
    pub fn start(path: &str, exists_there: bool, env: &LoginEnv, names: VendorNames) -> (r: (
        Wizard,
        Vec<String>,
    ))
        ensures
            (r.0@, texts(r.1@)) == begun(path@, exists_there, *env, names@),
    {
        let mut table = presets(&names);
        assert(preset_views(table@)[0] == preset_view(table@[0]));
        let preset = table.remove(0);
        let found = env_pickup(env, &names);
        let offered = offer_lines(&names);
        let mut w = Wizard {
            names,
            stage: Stage::Choose,
            found: None,
            preset,
            token: "".to_owned(),
            base: None,
            result: None,
        };
        if exists_there {
            w.stage = Stage::Reconfigure;
            return (w, one_line(cat2(path, " already exists.").as_str()));
        }
        match found {
            Some(c) => {
                let line = cat4(
                    "Found credentials in the environment: ",
                    token_variable(c.anthropic),
                    "=",
                    mask(c.token.as_str()).as_str(),
                );
                w.stage = Stage::SaveFound;
                w.found = Some(c);
                (w, one_line(line.as_str()))
            },
            None => (w, offered),
        }
    }

    /// Takes an answer; see [`advanced`].
    pub fn answer(&mut self, line: &str) -> (r: Vec<String>)
        ensures
            (final(self)@, texts(r@)) == advanced(old(self)@, line@),
    {
        match self.stage {
            Stage::Reconfigure => {
                if ask_yes_no(line, false) {
                    self.stage = Stage::Choose;
                    offer_lines(&self.names)
                } else {
                    self.stage = Stage::Left;
                    one_line("Leaving the file as is.")
                }
            },
            Stage::SaveFound => {
                let yes = ask_yes_no(line, true);
                let found = self.found.take();
                if yes {
                    self.stage = Stage::Done;
                    self.result = found;
                    nothing_said()
                } else {
                    self.stage = Stage::Choose;
                    offer_lines(&self.names)
                }
            },
            Stage::Choose => match choose_preset(line) {
                Some(i) => {
                    let mut table = presets(&self.names);
                    assert(preset_views(table@)[i as int] == preset_view(table@[i as int]));
                    self.preset = table.remove(i);
                    self.stage = Stage::Token;
                    nothing_said()
                },
                None => one_line("Enter a number 1–7."),
            },
            Stage::Token => {
                let t = trim(line);
                if t.as_str().is_empty() {
                    return one_line("Empty token.");
                }
                self.token = t;
                match self.preset.base {
                    Base::Default => {
                        self.base = None;
                        self.stage = Stage::Model;
                    },
                    Base::Fixed(u) => {
                        self.base = Some(u.to_owned());
                        self.stage = Stage::Model;
                    },
                    Base::Prompt => {
                        self.stage = Stage::BaseUrl;
                    },
                }
                nothing_said()
            },
            Stage::BaseUrl => {
                let t = trim(line);
                if t.as_str().is_empty() {
                    return one_line("Empty URL.");
                }
                self.base = Some(t);
                self.stage = Stage::Model;
                nothing_said()
            },
            Stage::Model => {
                let base = match &self.base {
                    Some(b) => Some(b.clone()),
                    None => None,
                };
                self.result = Some(
                    Credentials {
                        token: self.token.clone(),
                        base,
                        anthropic: self.preset.anthropic,
                        model: choose_model(line, self.preset.default_model.as_str()),
                    },
                );
                self.stage = Stage::Done;
                nothing_said()
            },
            Stage::Done => nothing_said(),
            Stage::Left => nothing_said(),
        }
    }

    /// Says what the user is asked; see [`asked`].
    pub fn prompt(&self) -> (r: Option<String>)
        ensures
            text_view(r) == asked(self@),
    {
        match self.stage {
            Stage::Reconfigure => Some(
                yes_no_prompt("Reconfigure (overwrites credentials)?", false),
            ),
            Stage::SaveFound => Some(yes_no_prompt("Save them to ~/.sirbone/.env?", true)),
            Stage::Choose => Some("> ".to_owned()),
            Stage::Token => Some("Paste the API key / token: ".to_owned()),
            Stage::BaseUrl => Some("Base URL (e.g. http://localhost:11434/v1): ".to_owned()),
            Stage::Model => {
                let d = self.preset.default_model.as_str();
                let shown = if d.is_empty() {
                    "required"
                } else {
                    d
                };
                Some(cat3("Model [", shown, "]: "))
            },
            Stage::Done => None,
            Stage::Left => None,
        }
    }
}

// ------------------------------------------------------------ messages

/// What is said of the file where nobody can be asked.
pub fn seeded_line(path: &str, created: bool) -> (r: String)
    ensures
        r@ == (if created {
            "Created "@ + path@ + " (chmod 600)."@
        } else {
            "Found existing "@ + path@ + " — leaving it untouched."@
        }),
{
    if created {
        cat3("Created ", path, " (chmod 600).")
    } else {
        cat3("Found existing ", path, " — leaving it untouched.")
    }
}

/// What is said while the credentials are tried.
pub fn testing_line(c: &Credentials) -> (r: String)
    ensures
        r@ == "Testing connection ("@ + c@.model + " @ "@ + (match c@.base {
            Some(b) => b,
            None => own_base(c.anthropic),
        }) + ")… "@,
{
    cat5("Testing connection (", c.model.as_str(), " @ ", test_base(c).as_str(), ")… ")
}

/// What came of the trial: how many models there are, why it failed, or that
/// nothing came in time.
#[derive(Debug)]
pub enum Trial {
    Models(usize),
    Failed(String),
    TimedOut,
}

/// Says what came of the trial; the secrets of the settings are taken out of what
/// the provider says.
pub fn trial_line(t: &Trial, settings: &Vec<Option<String>>) -> (r: String)
    ensures
        match *t {
            Trial::Models(n) => r@ == "ok ("@ + decimal(n as nat) + " models)."@,
            Trial::Failed(e) => r@ == "warning: "@ + redacted(e@, secrets_in(settings@))
                + " (credentials written; the endpoint may not expose /models — try `sirbone`)."@,
            Trial::TimedOut => r@
                == "warning: 15s timeout (endpoint unreachable; credentials written — try `sirbone`)."@,
        },
{
    match t {
        Trial::Models(n) => cat3("ok (", size_text(*n).as_str(), " models)."),
        Trial::Failed(e) => cat3(
            "warning: ",
            redact_secrets(e.as_str(), settings).as_str(),
            " (credentials written; the endpoint may not expose /models — try `sirbone`).",
        ),
        Trial::TimedOut =>
            "warning: 15s timeout (endpoint unreachable; credentials written — try `sirbone`).".to_owned(),
    }
}

/// What is said where the login of Codex failed.
pub fn login_codex(status: &str) -> (r: String)
    ensures
        r@ == "`codex login` exited with status "@ + status@,
{
    cat2("`codex login` exited with status ", status)
}

// ------------------------------------------------------------ laws

/// A number chooses a provider exactly where it is one of the list.
pub proof fn law_choice_is_in_the_list(line: Seq<char>, names: NamesV)
    ensures
        chosen_preset(line) matches Some(i) ==> 0 <= i < preset_table(names).len(),
{
}

/// A file of credentials that is there is written over only where the user says
/// so: the login begins with that question, and anything but a yes ends it.
pub proof fn law_existing_file_needs_consent(
    path: Seq<char>,
    env: LoginEnv,
    names: NamesV,
    line: Seq<char>,
)
    ensures
        ({
            let w = begun(path, true, env, names).0;
            &&& w.stage is Reconfigure
            &&& w.result is None
            &&& !answered_yes(unicode_lower(trimmed(line)), false) ==> advanced(w, line).0.stage
                is Left && advanced(w, line).0.result is None
        }),
{
}

/// What holds of a login at every step: a token that was taken is not empty, and
/// an endpoint that is fixed is the one that is kept.
pub open spec fn kept(w: WizardV) -> bool {
    &&& (w.stage is BaseUrl || w.stage is Model) ==> w.token.len() > 0
    &&& w.stage is BaseUrl ==> w.preset.3
    &&& w.stage is Model ==> if w.preset.3 {
        w.base is Some && w.base->0.len() > 0
    } else {
        w.base == w.preset.2
    }
    &&& w.found matches Some(c) ==> c.token.len() > 0
    &&& w.result matches Some(c) ==> c.token.len() > 0
    &&& w.stage is Done ==> w.result is Some
    &&& w.stage is SaveFound ==> w.found is Some
}

/// A login that ends with credentials ends with a token, whatever was answered.
pub proof fn law_login_ends_with_a_token(
    path: Seq<char>,
    exists_there: bool,
    env: LoginEnv,
    names: NamesV,
    w: WizardV,
    line: Seq<char>,
)
    ensures
        kept(begun(path, exists_there, env, names).0),
        kept(w) ==> kept(advanced(w, line).0),
{
}

/// What is not a word for yes never counts as one.
pub proof fn law_no_unless_said(lower: Seq<char>)
    requires
        lower.len() > 0,
    ensures
        answered_yes(lower, true) == answered_yes(lower, false),
{
}

proof fn lemma_line_is_held(all: Seq<char>, front: Seq<char>, n: Seq<char>, back: Seq<char>)
    requires
        all == front + n + back,
    ensures
        holds(all, n),
{
    let at = front.len() as int;
    assert(all.subrange(at, at + n.len()) =~= n);
    assert(occurs_at(all, n, at));
}

/// The file of credentials holds the token under the provider's own variable, the
/// endpoint where one is given, and the model where one is named.
pub proof fn law_credentials_are_written_whole(c: CredentialsV)
    ensures
        c.anthropic ==> holds(env_file(c), "ANTHROPIC_AUTH_TOKEN"@ + "="@ + c.token + "\n"@),
        !c.anthropic ==> holds(env_file(c), "OPENAI_API_KEY"@ + "="@ + c.token + "\n"@),
        c.base matches Some(b) ==> holds(
            env_file(c),
            (if c.anthropic {
                "ANTHROPIC_BASE_URL"@
            } else {
                "OPENAI_BASE_URL"@
            }) + "="@ + b + "\n"@,
        ),
        c.model.len() > 0 ==> ends(env_file(c), "SIRBONE_MODEL="@ + c.model + "\n"@),
{
    let all = env_file(c);
    let token = token_key(c.anthropic) + "="@ + c.token + "\n"@;
    let base = match c.base {
        Some(b) => (if c.anthropic {
            "ANTHROPIC_BASE_URL"@
        } else {
            "OPENAI_BASE_URL"@
        }) + "="@ + b + "\n"@,
        None => Seq::empty(),
    };
    let model = if c.model.len() > 0 {
        "SIRBONE_MODEL="@ + c.model + "\n"@
    } else {
        Seq::empty()
    };
    assert(all =~= ENV_FILE_HEADER@ + token + (base + model));
    assert(all =~= (ENV_FILE_HEADER@ + token) + base + model);
    lemma_line_is_held(all, ENV_FILE_HEADER@, token, base + model);
    lemma_line_is_held(all, ENV_FILE_HEADER@ + token, base, model);
    assert(all.subrange(all.len() - model.len(), all.len() as int) =~= model);
}

/// Credentials that are in the environment are taken as they are there, the Anthropic
/// ones first, each with its own endpoint; a variable that is set to nothing is not set.
pub proof fn law_environment_is_taken_as_it_is(e: LoginEnv, names: NamesV, token: String)
    ensures
        e.anthropic_token == Some(token) && token@.len() > 0 ==> {
            let c = picked_up(e, names);
            &&& c is Some
            &&& c->0.token == token@
            &&& c->0.anthropic
            &&& c->0.base == set_to(e.anthropic_base)
        },
        set_to(e.anthropic_token) is None && e.openai_key == Some(token) && token@.len() > 0 ==> {
            let c = picked_up(e, names);
            &&& c is Some
            &&& c->0.token == token@
            &&& !c->0.anthropic
            &&& c->0.base == set_to(e.openai_base)
        },
        picked_up(e, names) matches Some(c) ==> c.token.len() > 0 && (e.model matches Some(m)
            ==> m@.len() > 0 ==> c.model == m@),
        picked_up(e, names) is None <==> set_to(e.anthropic_token) is None && set_to(
            e.openai_key,
        ) is None,
{
}

/// A number chooses the provider of that number in the list, from one on.
pub proof fn law_numbers_choose_providers(line: Seq<char>, n: nat)
    requires
        trimmed(line) == decimal(n),
        n <= usize::MAX,
    ensures
        1 <= n <= 7 ==> chosen_preset(line) == Some(n - 1),
        n == 0 || n > 7 ==> chosen_preset(line) is None,
{
    law_numbers_are_read_back(n, n, usize::MAX as nat);
}

/// What was answered is what is kept: the provider that was chosen, the token, the
/// endpoint of the provider or the one that was typed, and the model that was named, or
/// the one that the provider offers.
pub proof fn law_answers_make_the_credentials(
    w: WizardV,
    choice: Seq<char>,
    token: Seq<char>,
    url: Seq<char>,
    model: Seq<char>,
)
    requires
        w.stage is Choose,
        chosen_preset(choice) is Some,
        trimmed(token).len() > 0,
        trimmed(url).len() > 0,
    ensures
        ({
            let p = preset_table(w.names)[chosen_preset(choice)->0];
            let typed = advanced(advanced(w, choice).0, token).0;
            let placed = if p.3 {
                advanced(typed, url).0
            } else {
                typed
            };
            let done = advanced(placed, model).0;
            &&& done.stage is Done
            &&& done.result is Some
            &&& done.result->0.token == trimmed(token)
            &&& done.result->0.anthropic == p.1
            &&& p.3 ==> done.result->0.base == Some(trimmed(url))
            &&& !p.3 ==> done.result->0.base == p.2
            &&& trimmed(model).len() > 0 ==> done.result->0.model == trimmed(model)
            &&& trimmed(model).len() == 0 ==> done.result->0.model == p.4
        }),
{
}

/// Credentials that were found are kept as they were found where the user wants them, and
/// dropped where they do not; an answer that says nothing changes no stage that needs one.
pub proof fn law_found_credentials_are_kept(w: WizardV, line: Seq<char>, c: CredentialsV)
    requires
        w.found == Some(c),
        w.stage is SaveFound,
    ensures
        answered_yes(unicode_lower(trimmed(line)), true) ==> advanced(w, line).0.result == Some(c)
            && advanced(w, line).0.stage is Done,
        !answered_yes(unicode_lower(trimmed(line)), true) ==> advanced(w, line).0.found is None
            && advanced(w, line).0.stage is Choose && advanced(w, line).0.result == w.result,
{
}

} // verus!
