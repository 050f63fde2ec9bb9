//! The providers: what goes into a request, what a stream gives back, and which
//! failures are worth another attempt.
use vstd::prelude::*;
use crate::json::{field, items_field, json_views, text_field, Json, JsonV};
use crate::text::{
    begins, byte_len, contains, contains_any, decimal, ends, ends_with, found_from, holds,
    holds_any, law_numbers_are_read_back, lemma_found, lemma_nothing_to_replace, lower_ascii,
    occurs_at, parse_number, parsed_number, replace, replaced, same, starts_with, texts,
    to_lower_ascii, trim, trimmed, utf8_len, words,
};
use crate::agent::turn::unicode_lower;

pub mod anthropic;
pub mod anthropic_stream;
pub mod assembly;
pub mod client;
pub mod codex;
pub mod exchange;

pub use anthropic::AnthropicClient;
pub use client::OpenAiClient;
pub use codex::CodexClient;

verus! {

// ------------------------------------------------------------ tools

/// What the model is told of a tool.
#[derive(Debug)]
pub struct ToolSpec {
    pub name: String,
    pub description: String,
    /// The JSON schema of its input.
    pub schema: Json,
}

/// What a [`ToolSpec`] stands for.
pub struct ToolSpecV {
    pub name: Seq<char>,
    pub description: Seq<char>,
    pub schema: JsonV,
}

impl View for ToolSpec {
    type V = ToolSpecV;

    open spec fn view(&self) -> ToolSpecV {
        ToolSpecV { name: self.name@, description: self.description@, schema: self.schema@ }
    }
}

/// What some tools stand for.
pub open spec fn tool_specs(v: Seq<ToolSpec>) -> Seq<ToolSpecV> {
    v.map_values(|t: ToolSpec| t@)
}

// ------------------------------------------------------------ replies

/// The names of the models in a provider's list.
pub open spec fn ids_in(items: Seq<JsonV>) -> Seq<Seq<char>>
    decreases items.len(),
{
    if items.len() == 0 {
        Seq::empty()
    } else {
        let before = ids_in(items.drop_last());
        match text_field(items.last(), "id"@) {
            Some(id) => before.push(id),
            None => before,
        }
    }
}

/// Reads the names of the models from a provider's reply.
pub fn model_ids(reply: &Json) -> (r: Vec<String>)
    ensures
        texts(r@) == (match items_field(reply@, "data"@) {
            Some(items) => ids_in(items),
            None => Seq::empty(),
        }),
{
    let mut out: Vec<String> = Vec::new();
    assert(texts(out@) =~= Seq::empty());
    if let Some(items) = reply.array_at("data") {
        let ghost js = json_views(items@);
        let mut i: usize = 0;
        assert(js.take(0) =~= Seq::empty());
        while i < items.len()
            invariant
                i <= items@.len(),
                js == json_views(items@),
                texts(out@) == ids_in(js.take(i as int)),
            decreases items@.len() - i,
        {
            assert(js.take(i + 1).drop_last() =~= js.take(i as int));
            assert(js.take(i + 1).last() == items@[i as int]@);
            let ghost before = texts(out@);
            if let Some(id) = items[i].str_at("id") {
                out.push(id.to_owned());
                assert(texts(out@) =~= before.push(id@));
            }
            i += 1;
        }
        assert(js.take(i as int) =~= js);
    }
    out
}

/// The lower 32 bits of a number.
pub open spec fn low32(n: nat) -> u32 {
    (n % 0x1_0000_0000) as u32
}

/// Computes [`low32`].
pub fn to_u32(n: u64) -> (r: u32)
    ensures
        r == low32(n as nat),
{
    (n % 0x1_0000_0000) as u32
}

// ------------------------------------------------------------ settings

/// The context window that a setting asks for.
pub open spec fn asked_window(setting: Option<Seq<char>>) -> Option<nat> {
    match setting {
        Some(t) => parsed_number(t, u32::MAX as nat),
        None => None,
    }
}

/// What an optional text stands for.
pub open spec fn setting_view(setting: Option<&str>) -> Option<Seq<char>> {
    match setting {
        Some(t) => Some(t@),
        None => None,
    }
}

/// Reads the context window from the value of `SIRBONE_CONTEXT_WINDOW`, for a
/// provider that does not tell it.
pub fn env_context_window(setting: Option<&str>) -> (r: Option<u32>)
    ensures
        match r {
            Some(n) => asked_window(setting_view(setting)) == Some(n as nat),
            None => asked_window(setting_view(setting)) is None,
        },
{
    match setting {
        Some(t) => match parse_number(t, u32::MAX as u64) {
            Some(n) => Some(n as u32),
            None => None,
        },
        None => None,
    }
}

/// The seconds without a byte after which a stream counts as stalled.
pub const DEFAULT_STREAM_IDLE_SECS: u64 = 90;

/// The seconds of silence that a setting asks for: a number above zero, else
/// the default.
pub open spec fn idle_secs(setting: Option<Seq<char>>) -> nat {
    match setting {
        Some(t) => match parsed_number(trimmed(t), u64::MAX as nat) {
            Some(n) => if n > 0 {
                n
            } else {
                DEFAULT_STREAM_IDLE_SECS as nat
            },
            None => DEFAULT_STREAM_IDLE_SECS as nat,
        },
        None => DEFAULT_STREAM_IDLE_SECS as nat,
    }
}

/// Reads the seconds of silence from the value of `SIRBONE_STREAM_IDLE_SECS`.
pub fn stream_idle_secs_from(v: Option<&str>) -> (r: u64)
    ensures
        r == idle_secs(setting_view(v)),
{
    match v {
        Some(t) => match parse_number(trim(t).as_str(), u64::MAX) {
            Some(n) => if n > 0 {
                n
            } else {
                DEFAULT_STREAM_IDLE_SECS
            },
            None => DEFAULT_STREAM_IDLE_SECS,
        },
        None => DEFAULT_STREAM_IDLE_SECS,
    }
}

// ------------------------------------------------------------ attempts

/// How often a turn is sent before it is given up.
pub const MAX_ATTEMPTS: u32 = 5;

/// Two to the power of `n`.
pub open spec fn doubled(n: nat) -> nat
    decreases n,
{
    if n == 0 {
        1
    } else {
        2 * doubled((n - 1) as nat)
    }
}

/// The seconds to wait after the given attempt, the first of which is one: each
/// wait is twice the one before, up to thirty seconds.
pub open spec fn backoff(attempt: nat) -> nat {
    let steps = if attempt == 0 {
        0
    } else {
        (attempt - 1) as nat
    };
    if steps >= 5 {
        30
    } else {
        doubled(steps)
    }
}

/// Computes [`backoff`].
pub fn backoff_secs(attempt: u32) -> (r: u64)
    ensures
        r == backoff(attempt as nat),
{
    let steps: u32 = if attempt == 0 {
        0
    } else {
        attempt - 1
    };
    if steps >= 5 {
        return 30;
    }
    let mut out: u64 = 1;
    let mut i: u32 = 0;
    while i < steps
        invariant
            i <= steps < 5,
            out == doubled(i as nat),
            out <= 16,
            i == 0 ==> out == 1,
            i == 1 ==> out == 2,
            i == 2 ==> out == 4,
            i == 3 ==> out == 8,
            i == 4 ==> out == 16,
        decreases steps - i,
    {
        out = out * 2;
        i += 1;
    }
    out
}

/// What comes after a failed attempt.
#[derive(Clone, Copy, Debug, PartialEq, Eq, Structural)]
pub enum NextAttempt {
    /// Wait this many seconds, then send again.
    Wait(u64),
    /// Report the failure.
    GiveUp,
}

/// What comes after a failed attempt that is worth another one or is not.
pub open spec fn after_attempt(retryable: bool, attempt: u32) -> NextAttempt {
    if retryable && attempt < MAX_ATTEMPTS {
        NextAttempt::Wait(backoff(attempt as nat) as u64)
    } else {
        NextAttempt::GiveUp
    }
}

/// Computes [`after_attempt`].
pub fn next_attempt(retryable: bool, attempt: u32) -> (r: NextAttempt)
    ensures
        r == after_attempt(retryable, attempt),
{
    if retryable && attempt < MAX_ATTEMPTS {
        NextAttempt::Wait(backoff_secs(attempt))
    } else {
        NextAttempt::GiveUp
    }
}

/// A status that is worth another attempt: too many requests, or a failure of
/// the server.
pub open spec fn retryable_status(status: u16) -> bool {
    status == 429 || 500 <= status < 600
}

/// Decides [`retryable_status`].
pub fn is_retryable_status(status: u16) -> (b: bool)
    ensures
        b == retryable_status(status),
{
    status == 429 || (500 <= status && status < 600)
}

// ------------------------------------------------------------ reasoning effort

/// The host that the `url` crate finds in an address; `None` where the address
/// is none, or has no host.
pub uninterp spec fn url_host(address: Seq<char>) -> Option<Seq<char>>;

/// Calls `url::Url::parse` and `Url::host_str`. The result depends on the
/// address alone.
#[verifier::external_body]
fn host_of(address: &str) -> (r: Option<String>)
    ensures
        match r {
            Some(h) => url_host(address@) == Some(h@),
            None => url_host(address@) is None,
        },
{
    url::Url::parse(address).ok()?.host_str().map(|h| h.to_string())
}

/// The name is that of a GLM model.
pub open spec fn glm_model(model: Seq<char>) -> bool {
    let m = lower_ascii(model);
    begins(m, "glm"@) || holds(m, "/glm"@)
}

/// The host serves GLM models.
pub open spec fn glm_host(host: Option<Seq<char>>) -> bool {
    match host {
        Some(h) => {
            let h = lower_ascii(h);
            h == "api.z.ai"@ || ends(h, ".z.ai"@) || h == "api.bigmodel.cn"@ || ends(
                h,
                ".bigmodel.cn"@,
            ) || ends(h, ".bigmodel.com"@)
        },
        None => false,
    }
}

/// Decides [`glm_host`].
pub fn is_glm_host(host: Option<&str>) -> (b: bool)
    ensures
        b == glm_host(setting_view(host)),
{
    match host {
        Some(h) => {
            let l = to_lower_ascii(h);
            let t = l.as_str();
            same(t, "api.z.ai") || ends_with(t, ".z.ai") || same(t, "api.bigmodel.cn") || ends_with(
                t,
                ".bigmodel.cn",
            ) || ends_with(t, ".bigmodel.com")
        },
        None => false,
    }
}

/// The model is a GLM, by its own name or by the host that serves it: there the
/// dial of the thinking budget stands for a level of effort.
pub open spec fn served_as_glm(base_url: Seq<char>, model: Seq<char>) -> bool {
    glm_model(model) || glm_host(url_host(base_url))
}

/// Decides [`served_as_glm`].
pub fn is_glm(base_url: &str, model: &str) -> (b: bool)
    ensures
        b == served_as_glm(base_url@, model@),
{
    let m = to_lower_ascii(model);
    if starts_with(m.as_str(), "glm") || contains(m.as_str(), "/glm") {
        return true;
    }
    match host_of(base_url) {
        Some(h) => is_glm_host(Some(h.as_str())),
        None => is_glm_host(None),
    }
}

/// The level of effort that a thinking budget stands for, in words.
pub open spec fn effort_label(budget: Option<u32>) -> Seq<char> {
    match budget {
        None => "light"@,
        Some(b) => if b <= 8000 {
            "low"@
        } else if b <= 16000 {
            "medium"@
        } else {
            "max"@
        },
    }
}

/// Computes [`effort_label`]. Without a budget the effort is light, not none:
/// these endpoints have no way to switch reasoning off.
pub fn glm_effort_label(budget: Option<u32>) -> (r: &'static str)
    ensures
        r@ == effort_label(budget),
{
    match budget {
        None => "light",
        Some(b) => if b <= 8000 {
            "low"
        } else if b <= 16000 {
            "medium"
        } else {
            "max"
        },
    }
}

// ------------------------------------------------------------ secrets

/// What stands in the place of a secret.
pub const REDACTED: &'static str = "[redacted]";

/// The text with each of the secrets replaced, one after the other.
pub open spec fn redacted(text: Seq<char>, secrets: Seq<Seq<char>>) -> Seq<char>
    decreases secrets.len(),
{
    if secrets.len() == 0 {
        text
    } else {
        replaced(redacted(text, secrets.drop_last()), secrets.last(), REDACTED@)
    }
}

/// Computes [`redacted`].
pub fn redact_with(text: &str, secrets: &Vec<String>) -> (r: String)
    ensures
        r@ == redacted(text@, texts(secrets@)),
{
    let ghost ss = texts(secrets@);
    let mut out = text.to_owned();
    let mut i: usize = 0;
    assert(ss.take(0) =~= Seq::empty());
    while i < secrets.len()
        invariant
            i <= secrets@.len(),
            ss == texts(secrets@),
            out@ == redacted(text@, ss.take(i as int)),
        decreases secrets@.len() - i,
    {
        assert(ss.take(i + 1).drop_last() =~= ss.take(i as int));
        assert(ss.take(i + 1).last() == secrets@[i as int]@);
        out = replace(out.as_str(), secrets[i].as_str(), REDACTED);
        i += 1;
    }
    assert(ss.take(i as int) =~= ss);
    out
}

/// The secrets among some settings: those that are set, and long enough not to
/// stand for ordinary words.
pub open spec fn secrets_in(settings: Seq<Option<String>>) -> Seq<Seq<char>>
    decreases settings.len(),
{
    if settings.len() == 0 {
        Seq::empty()
    } else {
        let before = secrets_in(settings.drop_last());
        match settings.last() {
            Some(v) => if utf8_len(v@) >= 8 {
                before.push(v@)
            } else {
                before
            },
            None => before,
        }
    }
}

/// Takes the secrets out of some settings; see [`secrets_in`].
pub fn known_secrets(settings: &Vec<Option<String>>) -> (r: Vec<String>)
    ensures
        texts(r@) == secrets_in(settings@),
{
    let mut out: Vec<String> = Vec::new();
    let mut i: usize = 0;
    assert(settings@.take(0) =~= Seq::empty());
    assert(texts(out@) =~= Seq::empty());
    while i < settings.len()
        invariant
            i <= settings@.len(),
            texts(out@) == secrets_in(settings@.take(i as int)),
        decreases settings@.len() - i,
    {
        assert(settings@.take(i + 1).drop_last() =~= settings@.take(i as int));
        let ghost before = texts(out@);
        if let Some(v) = &settings[i] {
            if byte_len(v.as_str()) >= 8 {
                out.push(v.clone());
                assert(texts(out@) =~= before.push(v@));
            }
        }
        i += 1;
    }
    assert(settings@.take(i as int) =~= settings@);
    out
}

/// Takes the values of the keys out of a text before it reaches a log.
/// `settings` are the values of `ANTHROPIC_AUTH_TOKEN`, `ANTHROPIC_API_KEY` and
/// `OPENAI_API_KEY`.
pub fn redact_secrets(text: &str, settings: &Vec<Option<String>>) -> (r: String)
    ensures
        r@ == redacted(text@, secrets_in(settings@)),
{
    redact_with(text, &known_secrets(settings))
}

// ------------------------------------------------------------ overflow

/// How providers say that a request did not fit the context window.
pub open spec fn overflow_markers() -> Seq<Seq<char>> {
    seq![
        "prompt is too long"@,
        "exceed context limit"@,
        "context_length_exceeded"@,
        "maximum context length"@,
        "context window"@,
        "too many tokens"@,
    ]
}

/// The message, in lower case, says that the request did not fit.
pub fn names_overflow(lower: &str) -> (b: bool)
    ensures
        b == holds_any(lower@, overflow_markers()),
{
    let list: Vec<&str> = vec![
        "prompt is too long",
        "exceed context limit",
        "context_length_exceeded",
        "maximum context length",
        "context window",
        "too many tokens",
    ];
    assert(words(list@) =~= overflow_markers());
    contains_any(lower, &list)
}

/// Whether a provider's error means that the request was too large for the
/// model's context. That failure is worth a compaction and another attempt.
pub fn is_context_overflow(error: &str) -> (b: bool)
    ensures
        b == holds_any(unicode_lower(error@), overflow_markers()),
{
    let lower = error.to_lowercase();
    names_overflow(lower.as_str())
}

// ------------------------------------------------------------ laws

/// No wait between two attempts is longer than thirty seconds, and none is
/// shorter than one.
pub proof fn law_backoff_is_capped(attempt: nat)
    ensures
        1 <= backoff(attempt) <= 30,
{
    reveal_with_fuel(doubled, 6);
}

/// A longer series of failures never waits less.
pub proof fn law_backoff_grows(attempt: nat)
    ensures
        backoff(attempt) <= backoff(attempt + 1),
{
    reveal_with_fuel(doubled, 6);
}

/// A turn is sent at most [`MAX_ATTEMPTS`] times, and a failure that is not
/// worth another attempt ends it at once.
pub proof fn law_attempts_end(retryable: bool, attempt: u32)
    ensures
        attempt >= MAX_ATTEMPTS ==> after_attempt(retryable, attempt) == NextAttempt::GiveUp,
        !retryable ==> after_attempt(retryable, attempt) == NextAttempt::GiveUp,
{
}

/// A text that holds none of the secrets is left as it is.
pub proof fn law_clean_text_is_untouched(text: Seq<char>, secrets: Seq<Seq<char>>)
    requires
        forall|i: int| 0 <= i < secrets.len() ==> (#[trigger] secrets[i]).len() > 0,
        forall|i: int| 0 <= i < secrets.len() ==> !holds(text, #[trigger] secrets[i]),
    ensures
        redacted(text, secrets) == text,
    decreases secrets.len(),
{
    if secrets.len() > 0 {
        assert forall|i: int| 0 <= i < secrets.drop_last().len() implies (
        #[trigger] secrets.drop_last()[i]).len() > 0 && !holds(text, secrets.drop_last()[i]) by {
            assert(secrets.drop_last()[i] == secrets[i]);
        }
        law_clean_text_is_untouched(text, secrets.drop_last());
        assert(secrets.last() == secrets[secrets.len() - 1]);
        lemma_nothing_to_replace(text, secrets.last(), REDACTED@);
    }
}

/// A secret that can be told from the mark of a replaced one: it has no bracket,
/// and is no part of the word between them.
pub open spec fn stands_apart(secret: Seq<char>) -> bool {
    secret.len() > 0 && !secret.contains('[') && !secret.contains(']') && !holds(
        "redacted"@,
        secret,
    )
}

proof fn lemma_mark()
    ensures
        REDACTED@ == seq!['['] + "redacted"@ + seq![']'],
        REDACTED@.len() == 10,
        "redacted"@.len() == 8,
{
    reveal_strlit("[redacted]");
    reveal_strlit("redacted");
    assert(REDACTED@ =~= seq!['['] + "redacted"@ + seq![']']);
}

/// What occurs in `head + mark + tail` and has no bracket occurs in the head or
/// in the tail.
proof fn lemma_not_across(head: Seq<char>, tail: Seq<char>, t: Seq<char>, k: int)
    requires
        stands_apart(t),
        occurs_at(head + REDACTED@ + tail, t, k),
    ensures
        occurs_at(head, t, k) || occurs_at(tail, t, k - head.len() - 10),
{
    lemma_mark();
    let whole = head + REDACTED@ + tail;
    let n = head.len() as int;
    let m = t.len() as int;
    assert(forall|j: int| 0 <= j < m ==> #[trigger] t[j] == whole[k + j]) by {
        assert forall|j: int| 0 <= j < m implies #[trigger] t[j] == whole[k + j] by {
            assert(whole.subrange(k, k + m)[j] == whole[k + j]);
        }
    }
    assert(whole[n] == '[');
    assert(whole[n + 9] == ']');
    if k <= n < k + m {
        assert(t[n - k] == '[');
        assert(t.contains('['));
    }
    if k <= n + 9 < k + m {
        assert(t[n + 9 - k] == ']');
        assert(t.contains(']'));
    }
    if k + m <= n {
        assert(head.subrange(k, k + m) =~= t);
    } else if k >= n + 10 {
        assert(tail.subrange(k - n - 10, k - n - 10 + m) =~= t) by {
            assert forall|j: int| 0 <= j < m implies tail.subrange(k - n - 10, k - n - 10 + m)[j]
                == t[j] by {
                assert(whole[k + j] == tail[k + j - n - 10]);
            }
        }
    } else {
        assert(n < k && k + m <= n + 9);
        let at = k - n - 1;
        assert("redacted"@.subrange(at, at + m) =~= t) by {
            assert forall|j: int| 0 <= j < m implies "redacted"@.subrange(at, at + m)[j] == t[j] by {
                assert(whole[k + j] == REDACTED@[k + j - n]);
                assert(REDACTED@[k + j - n] == "redacted"@[at + j]);
            }
        }
        assert(occurs_at("redacted"@, t, at));
    }
}

/// A replacement brings no other secret in.
proof fn lemma_no_new_secret(s: Seq<char>, secret: Seq<char>, t: Seq<char>)
    requires
        secret.len() > 0,
        stands_apart(t),
        holds(replaced(s, secret, REDACTED@), t),
    ensures
        holds(s, t),
    decreases s.len(),
{
    lemma_found(s, secret, 0);
    if let Some(i) = found_from(s, secret, 0) {
        let head = s.take(i);
        let rest = s.skip(i + secret.len());
        let tail = replaced(rest, secret, REDACTED@);
        let whole = head + REDACTED@ + tail;
        assert(replaced(s, secret, REDACTED@) == whole);
        let k = choose|k: int| #[trigger] occurs_at(whole, t, k);
        lemma_not_across(head, tail, t, k);
        if occurs_at(head, t, k) {
            assert(s.subrange(k, k + t.len()) =~= head.subrange(k, k + t.len()));
            assert(occurs_at(s, t, k));
        } else {
            assert(occurs_at(tail, t, k - head.len() - 10));
            lemma_no_new_secret(rest, secret, t);
            let j = choose|j: int| #[trigger] occurs_at(rest, t, j);
            assert(s.subrange(j + i + secret.len(), j + i + secret.len() + t.len())
                =~= rest.subrange(j, j + t.len()));
            assert(occurs_at(s, t, j + i + secret.len()));
        }
    }
}

/// A replaced secret is gone.
proof fn lemma_secret_is_gone(s: Seq<char>, t: Seq<char>)
    requires
        stands_apart(t),
    ensures
        !holds(replaced(s, t, REDACTED@), t),
    decreases s.len(),
{
    lemma_found(s, t, 0);
    match found_from(s, t, 0) {
        Some(i) => {
            let head = s.take(i);
            let rest = s.skip(i + t.len());
            let tail = replaced(rest, t, REDACTED@);
            let whole = head + REDACTED@ + tail;
            lemma_secret_is_gone(rest, t);
            if holds(whole, t) {
                let k = choose|k: int| #[trigger] occurs_at(whole, t, k);
                lemma_not_across(head, tail, t, k);
                if occurs_at(head, t, k) {
                    assert(s.subrange(k, k + t.len()) =~= head.subrange(k, k + t.len()));
                    assert(occurs_at(s, t, k));
                } else {
                    assert(holds(tail, t));
                }
            }
        },
        None => {
            if holds(s, t) {
                let k = choose|k: int| #[trigger] occurs_at(s, t, k);
                assert(0 <= k);
            }
        },
    }
}

/// A redacted text holds none of the secrets, as long as they can be told from
/// the mark that replaces them.
pub proof fn law_redacted_text_holds_no_secret(text: Seq<char>, secrets: Seq<Seq<char>>, i: int)
    requires
        0 <= i < secrets.len(),
        forall|k: int| 0 <= k < secrets.len() ==> stands_apart(#[trigger] secrets[k]),
    ensures
        !holds(redacted(text, secrets), secrets[i]),
    decreases secrets.len(),
{
    let before = secrets.drop_last();
    let last = secrets.last();
    assert(last == secrets[secrets.len() - 1]);
    if i == secrets.len() - 1 {
        lemma_secret_is_gone(redacted(text, before), last);
    } else {
        assert forall|k: int| 0 <= k < before.len() implies stands_apart(#[trigger] before[k]) by {
            assert(before[k] == secrets[k]);
        }
        law_redacted_text_holds_no_secret(text, before, i);
        if holds(redacted(text, secrets), secrets[i]) {
            lemma_no_new_secret(redacted(text, before), last, secrets[i]);
        }
    }
}

/// The name of a GLM model decides, whatever serves it.
pub proof fn law_glm_by_name(base_url: Seq<char>, other_url: Seq<char>, model: Seq<char>)
    requires
        glm_model(model),
    ensures
        served_as_glm(base_url, model),
        served_as_glm(other_url, model),
{
}

/// The wait doubles from one attempt to the next, from one second up, and a failure
/// that is worth another attempt is followed by that wait as long as attempts are
/// left.
pub proof fn law_waits_double(attempt: u32)
    ensures
        backoff(1) == 1,
        1 <= attempt < 5 ==> backoff((attempt + 1) as nat) == 2 * backoff(attempt as nat),
        attempt >= 6 ==> backoff(attempt as nat) == 30,
        attempt < 5 ==> after_attempt(true, attempt) == NextAttempt::Wait(
            backoff(attempt as nat) as u64,
        ),
{
    reveal_with_fuel(doubled, 6);
}

/// Too many requests and failures of the server are worth another attempt; what the
/// request itself is refused for is not, and a success is no failure.
pub proof fn law_refusals_are_not_repeated(status: u16)
    ensures
        status == 429 ==> retryable_status(status),
        500 <= status <= 599 ==> retryable_status(status),
        status < 500 && status != 429 ==> !retryable_status(status),
        status >= 600 ==> !retryable_status(status),
{
}

/// Every model that has a name is listed, in order, and no other.
pub proof fn law_every_model_is_listed(items: Seq<JsonV>, i: int)
    ensures
        0 <= i < items.len() ==> match field(items[i], "id"@) {
            Some(JsonV::Str(id)) => ids_in(items).contains(id),
            _ => true,
        },
        ids_in(items).len() <= items.len(),
        forall|k: int|
            0 <= k < ids_in(items).len() ==> exists|j: int|
                0 <= j < items.len() && field(#[trigger] items[j], "id"@) == Some(
                    JsonV::Str(#[trigger] ids_in(items)[k]),
                ),
    decreases items.len(),
{
    if items.len() > 0 {
        let front = items.drop_last();
        let (before, after) = (ids_in(front), ids_in(items));
        law_every_model_is_listed(front, i);
        if 0 <= i < items.len() - 1 {
            assert(front[i] == items[i]);
            if let Some(JsonV::Str(id)) = field(items[i], "id"@) {
                let k = choose|k: int| 0 <= k < before.len() && before[k] == id;
                assert(after[k] == id);
            }
        } else if i == items.len() - 1 {
            if after.len() > 0 {
                assert(after[after.len() - 1] == after.last());
            }
        }
        assert forall|k: int| 0 <= k < after.len() implies exists|j: int|
            0 <= j < items.len() && field(#[trigger] items[j], "id"@) == Some(
                JsonV::Str(#[trigger] after[k]),
            ) by {
            if k < before.len() {
                assert(before[k] == after[k]);
                let j = choose|j: int|
                    0 <= j < front.len() && field(#[trigger] front[j], "id"@) == Some(
                        JsonV::Str(before[k]),
                    );
                assert(items[j] == front[j]);
            } else {
                assert(field(items[items.len() - 1], "id"@) == Some(JsonV::Str(after[k])));
            }
        }
    }
}

/// Every setting of eight bytes or more is kept secret, and nothing shorter, which
/// could stand for an ordinary word.
pub proof fn law_long_settings_are_secret(settings: Seq<Option<String>>, t: Seq<char>)
    ensures
        secrets_in(settings).contains(t) <==> exists|i: int|
            0 <= i < settings.len() && (#[trigger] settings[i]) is Some && settings[i]->0@ == t
                && utf8_len(t) >= 8,
    decreases settings.len(),
{
    if settings.len() > 0 {
        let front = settings.drop_last();
        let (before, after) = (secrets_in(front), secrets_in(settings));
        law_long_settings_are_secret(front, t);
        if after.contains(t) {
            let k = choose|k: int| 0 <= k < after.len() && after[k] == t;
            if k < before.len() {
                assert(before[k] == t);
                let i = choose|i: int|
                    0 <= i < front.len() && (#[trigger] front[i]) is Some && front[i]->0@ == t
                        && utf8_len(t) >= 8;
                assert(settings[i] == front[i]);
            } else {
                assert(settings[settings.len() - 1] is Some);
            }
        }
        if exists|i: int|
            0 <= i < settings.len() && (#[trigger] settings[i]) is Some && settings[i]->0@ == t
                && utf8_len(t) >= 8 {
            let i = choose|i: int|
                0 <= i < settings.len() && (#[trigger] settings[i]) is Some && settings[i]->0@ == t
                    && utf8_len(t) >= 8;
            if i < front.len() {
                assert(front[i] == settings[i]);
                let k = choose|k: int| 0 <= k < before.len() && before[k] == t;
                assert(after[k] == t);
            } else {
                assert(after[after.len() - 1] == t);
            }
        }
    }
}

/// What is around a secret stays: the text up to the first place of it is kept, the
/// mark stands in its place, and what is behind goes the same way.
pub proof fn law_redaction_keeps_the_rest(before: Seq<char>, secret: Seq<char>, behind: Seq<char>)
    requires
        secret.len() > 0,
        !holds(behind, secret),
        forall|j: int|
            0 <= j < before.len() ==> !#[trigger] occurs_at(before + secret + behind, secret, j),
    ensures
        redacted(before + secret + behind, seq![secret]) == before + "[redacted]"@ + behind,
{
    let one = seq![secret];
    assert(one.drop_last() =~= Seq::empty());
    crate::text::law_first_place_is_replaced(before, secret, behind, REDACTED@);
    crate::text::lemma_nothing_to_replace(behind, secret, REDACTED@);
    assert(redacted(before + secret + behind, one.drop_last()) == before + secret + behind);
}

/// A number above zero is the silence that is waited for, as it was set; anything
/// else leaves ninety seconds.
pub proof fn law_silence_is_as_set(n: nat)
    ensures
        0 < n <= u64::MAX ==> idle_secs(Some(decimal(n))) == n,
        idle_secs(Some(decimal(0))) == 90,
        idle_secs(None) == 90,
{
    law_numbers_are_read_back(n, n, u64::MAX as nat);
    law_numbers_are_read_back(0, 0, u64::MAX as nat);
    lemma_digits_stay(decimal(n));
    lemma_digits_stay(decimal(0));
}

proof fn lemma_digits_stay(s: Seq<char>)
    requires
        crate::text::all_digits(s),
    ensures
        trimmed(s) == s,
{
    assert(crate::text::is_digit(s[0]));
    assert(crate::text::is_digit(s[s.len() - 1]));
}

/// A window that is asked for is the number that is written.
pub proof fn law_asked_window_is_as_written(n: nat)
    ensures
        n <= u32::MAX ==> asked_window(Some(decimal(n))) == Some(n),
        n > u32::MAX ==> asked_window(Some(decimal(n))) is None,
        asked_window(None) is None,
{
    law_numbers_are_read_back(n, n, u32::MAX as nat);
}

/// The effort is named after the budget: none is light, up to eight thousand tokens is low,
/// up to sixteen thousand medium, and more is the most.
pub proof fn law_effort_is_named_after_the_budget(b: u32)
    ensures
        effort_label(None) == "light"@,
        effort_label(Some(b)) == (if b > 16000 {
            "max"@
        } else if b > 8000 {
            "medium"@
        } else {
            "low"@
        }),
{
}

} // verus!
