//! The Agent Client Protocol: what each message of the client asks for, and the
//! messages that a run sends to it. The lines themselves are read and written
//! elsewhere.
use vstd::prelude::*;
use crate::agent::{Prompt, PromptAnswer, PromptKind, PromptQuestion, PromptReply};
use crate::ai::setting_view;
use crate::checks::text_view;
use crate::config::{json_option, own_option};
use crate::json::{
    add_item, arr, boolean, field, inside, items_field, items_in, js, json_views,
    law_fields_are_found_by_name, no_fields,
    no_items, num, obj, object1, object2, object3, object4, object6, parsed_json, text_field,
    whole_field, Json, JsonV,
};
use crate::text::{
    cat2, cat3, decimal, ends, holds, law_numbers_are_read_back, occurs_at, parse_number, parsed_number, same, size_text, texts, trim, trimmed,
};
use crate::types::{
    blocks, transcript, AgentEvent, BlockV, ContentBlock, EventV, Message, MessageV, Role,
};

verus! {

/// The version of the protocol.
pub const PROTOCOL_VERSION: u64 = 1;

// ------------------------------------------------------------ frames

/// A notification.
pub open spec fn notification(method: Seq<char>, params: JsonV) -> JsonV {
    JsonV::Object(
        seq![
            ("jsonrpc"@, JsonV::Str("2.0"@)),
            ("method"@, JsonV::Str(method)),
            ("params"@, params),
        ],
    )
}

/// The answer to a request.
pub open spec fn answer(id: JsonV, result: JsonV) -> JsonV {
    JsonV::Object(seq![("id"@, id), ("jsonrpc"@, JsonV::Str("2.0"@)), ("result"@, result)])
}

/// The refusal of a request; the code is a number, as it is written.
pub open spec fn error_answer(id: JsonV, code: Seq<char>, message: Seq<char>) -> JsonV {
    JsonV::Object(
        seq![
            (
                "error"@,
                JsonV::Object(
                    seq![("code"@, JsonV::Number(code)), ("message"@, JsonV::Str(message))],
                ),
            ),
            ("id"@, id),
            ("jsonrpc"@, JsonV::Str("2.0"@)),
        ],
    )
}

/// A request to the client.
pub open spec fn outgoing(id: nat, method: Seq<char>, params: JsonV) -> JsonV {
    JsonV::Object(
        seq![
            ("id"@, JsonV::Number(decimal(id))),
            ("jsonrpc"@, JsonV::Str("2.0"@)),
            ("method"@, JsonV::Str(method)),
            ("params"@, params),
        ],
    )
}

/// A notification; see [`notification`].
pub fn notify(method: &str, params: Json) -> (r: Json)
    ensures
        r@ == notification(method@, params@),
{
    object3("jsonrpc", js("2.0"), "method", js(method), "params", params)
}

/// The answer to a request; see [`answer`].
pub fn respond(id: Json, result: Json) -> (r: Json)
    ensures
        r@ == answer(id@, result@),
{
    object3("id", id, "jsonrpc", js("2.0"), "result", result)
}

/// The refusal of a request; see [`error_answer`].
pub fn respond_err(id: Json, code: &str, message: &str) -> (r: Json)
    ensures
        r@ == error_answer(id@, code@, message@),
{
    let code = Json::Number(code.to_owned());
    object3(
        "error",
        object2("code", code, "message", js(message)),
        "id",
        id,
        "jsonrpc",
        js("2.0"),
    )
}

// ------------------------------------------------------------ requests of our own

/// The requests of our own that wait for an answer.
#[derive(Debug)]
pub struct Conn {
    /// The number of the next request.
    pub next_id: u64,
    /// The numbers of those that wait.
    pub pending: Vec<u64>,
}

impl Conn {
    /// The numbers that wait are below the next one, and each waits once.
    pub open spec fn sound(self) -> bool {
        &&& forall|i: int| 0 <= i < self.pending@.len() ==> #[trigger] self.pending@[i] < self.next_id
        &&& self.pending@.no_duplicates()
    }

    /// Nothing waits; the first request will be number one.
    pub fn new() -> (c: Conn)
        ensures
            c.next_id == 1,
            c.pending@.len() == 0,
            c.sound(),
    {
        Conn { next_id: 1, pending: Vec::new() }
    }

    /// Issues a request. Returns its number and what is sent.
    pub fn request(&mut self, method: &str, params: Json) -> (r: (u64, Json))
        requires
            old(self).sound(),
            old(self).next_id < u64::MAX,
        ensures
            r.0 == old(self).next_id,
            r.1@ == outgoing(r.0 as nat, method@, params@),
            final(self).next_id == r.0 + 1,
            final(self).pending@ == old(self).pending@.push(r.0),
            final(self).sound(),
    {
        let id: u64 = self.next_id;
        self.next_id = id + 1;
        self.pending.push(id);
        let line = object4(
            "id",
            num(id),
            "jsonrpc",
            js("2.0"),
            "method",
            js(method),
            "params",
            params,
        );
        (id, line)
    }

    /// Takes the answer to the request of that number; `false` where none waits
    /// for it.
    pub fn resolve(&mut self, id: u64) -> (b: bool)
        requires
            old(self).sound(),
        ensures
            b == old(self).pending@.contains(id),
            final(self).next_id == old(self).next_id,
            final(self).sound(),
            forall|x: u64|
                #[trigger] final(self).pending@.contains(x) <==> old(self).pending@.contains(x) && x
                    != id,
    {
        let ghost before = self.pending@;
        let mut i: usize = 0;
        while i < self.pending.len()
            invariant
                i <= self.pending@.len(),
                self.pending@ == before,
                self.next_id == old(self).next_id,
                before == old(self).pending@,
                old(self).sound(),
                forall|k: int| 0 <= k < i ==> before[k] != id,
            decreases self.pending@.len() - i,
        {
            if self.pending[i] == id {
                self.pending.remove(i);
                proof {
                    let after = self.pending@;
                    assert(after =~= before.remove(i as int));
                    assert(before[i as int] == id);
                    assert forall|x: u64| #[trigger]
                        after.contains(x) <==> before.contains(x) && x != id by {
                        if after.contains(x) {
                            let k = choose|k: int| 0 <= k < after.len() && after[k] == x;
                            if k < i {
                                assert(before[k] == x);
                            } else {
                                assert(before[k + 1] == x);
                            }
                        }
                        if before.contains(x) && x != id {
                            let k = choose|k: int| 0 <= k < before.len() && before[k] == x;
                            if k < i {
                                assert(after[k] == x);
                            } else {
                                assert(after[k - 1] == x);
                            }
                        }
                    }
                    assert forall|a: int, b: int|
                        0 <= a < after.len() && 0 <= b < after.len() && a != b implies after[a]
                        != after[b] by {
                        let oa = if a < i {
                            a
                        } else {
                            a + 1
                        };
                        let ob = if b < i {
                            b
                        } else {
                            b + 1
                        };
                        assert(before[oa] != before[ob]);
                    }
                    assert forall|k: int| 0 <= k < after.len() implies #[trigger] after[k]
                        < self.next_id by {
                        if k < i {
                            assert(before[k] < old(self).next_id);
                        } else {
                            assert(before[k + 1] < old(self).next_id);
                        }
                    }
                }
                return true;
            }
            i += 1;
        }
        false
    }
}

/// The result in the answer to a request of our own; null where it has none.
pub fn result_of(response: &Json) -> (r: Json)
    ensures
        r@ == inside(response@, "result"@),
{
    response.at("result").clone()
}

// ------------------------------------------------------------ sessions

/// A session: its name, which is the path of its file, and its transcript.
#[derive(Debug)]
pub struct Session {
    pub id: String,
    pub messages: Vec<Message>,
}

/// The sessions of a connection.
#[derive(Debug)]
pub struct Sessions {
    pub list: Vec<Session>,
}

/// The position of the session of that name among the first `n`.
pub open spec fn session_at(list: Seq<Session>, id: Seq<char>, n: int) -> Option<int>
    decreases n,
{
    if n <= 0 {
        None
    } else {
        match session_at(list, id, n - 1) {
            Some(i) => Some(i),
            None => if list[n - 1].id@ == id {
                Some(n - 1)
            } else {
                None
            },
        }
    }
}

proof fn lemma_session_at(list: Seq<Session>, id: Seq<char>, n: int)
    requires
        0 <= n <= list.len(),
    ensures
        session_at(list, id, n) matches Some(i) ==> 0 <= i < n && list[i].id@ == id && forall|k: int|
            0 <= k < i ==> (#[trigger] list[k]).id@ != id,
        session_at(list, id, n) is None ==> forall|k: int|
            0 <= k < n ==> (#[trigger] list[k]).id@ != id,
    decreases n,
{
    if n > 0 {
        lemma_session_at(list, id, n - 1);
    }
}

proof fn lemma_session_is(list: Seq<Session>, id: Seq<char>, n: int, i: int)
    requires
        0 <= i < n <= list.len(),
        list[i].id@ == id,
        forall|k: int| 0 <= k < i ==> (#[trigger] list[k]).id@ != id,
    ensures
        session_at(list, id, n) == Some(i),
    decreases n,
{
    lemma_session_at(list, id, n - 1);
    if i < n - 1 {
        lemma_session_is(list, id, n - 1, i);
    }
}

impl Sessions {
    /// The transcript of the session of that name.
    pub open spec fn transcript_of(self, id: Seq<char>) -> Option<Seq<MessageV>> {
        match session_at(self.list@, id, self.list@.len() as int) {
            Some(i) => Some(transcript(self.list@[i].messages@)),
            None => None,
        }
    }

    /// No session yet.
    pub fn new() -> (s: Sessions)
        ensures
            forall|id: Seq<char>| #[trigger] s.transcript_of(id) is None,
    {
        Sessions { list: Vec::new() }
    }

    fn find(&self, id: &str) -> (r: Option<usize>)
        ensures
            match r {
                Some(i) => session_at(self.list@, id@, self.list@.len() as int) == Some(i as int) && i
                    < self.list@.len(),
                None => session_at(self.list@, id@, self.list@.len() as int) is None,
            },
    {
        let mut i: usize = 0;
        while i < self.list.len()
            invariant
                i <= self.list@.len(),
                forall|k: int| 0 <= k < i ==> (#[trigger] self.list@[k]).id@ != id@,
            decreases self.list@.len() - i,
        {
            if same(self.list[i].id.as_str(), id) {
                proof {
                    lemma_session_is(self.list@, id@, self.list@.len() as int, i as int);
                }
                return Some(i);
            }
            i += 1;
        }
        proof {
            lemma_session_at(self.list@, id@, self.list@.len() as int);
        }
        None
    }

    /// Whether there is a session of that name.
    pub fn knows(&self, id: &str) -> (b: bool)
        ensures
            b == (self.transcript_of(id@) is Some),
    {
        self.find(id).is_some()
    }

    /// Gives the session of that name a transcript; a session that did not exist
    /// is opened. The other sessions stay.
    pub fn put(&mut self, id: &str, messages: Vec<Message>)
        ensures
            final(self).transcript_of(id@) == Some(transcript(messages@)),
            forall|x: Seq<char>|
                x != id@ ==> #[trigger] final(self).transcript_of(x) == old(self).transcript_of(x),
    {
        let ghost before = self.list@;
        let ghost n = before.len() as int;
        let ghost mv = messages@;
        match self.find(id) {
            Some(i) => {
                self.list.set(i, Session { id: id.to_owned(), messages });
                proof {
                    let after = self.list@;
                    lemma_session_at(before, id@, n);
                    assert forall|k: int| 0 <= k < i implies (#[trigger] after[k]).id@ != id@ by {
                        assert(after[k] == before[k]);
                    }
                    lemma_session_is(after, id@, n, i as int);
                    assert forall|x: Seq<char>| x != id@ implies #[trigger] self.transcript_of(x)
                        == old(self).transcript_of(x) by {
                        lemma_session_at(before, x, n);
                        lemma_session_at(after, x, n);
                        match session_at(before, x, n) {
                            Some(j) => {
                                assert forall|k: int| 0 <= k < j implies (#[trigger] after[k]).id@
                                    != x by {
                                    assert(before[k].id@ != x);
                                }
                                lemma_session_is(after, x, n, j);
                            },
                            None => {
                                if let Some(j) = session_at(after, x, n) {
                                    assert(before[j].id@ != x);
                                }
                            },
                        }
                    }
                }
            },
            None => {
                self.list.push(Session { id: id.to_owned(), messages });
                proof {
                    let after = self.list@;
                    lemma_session_at(before, id@, n);
                    assert forall|k: int| 0 <= k < n implies (#[trigger] after[k]).id@ != id@ by {
                        assert(after[k] == before[k]);
                    }
                    lemma_session_is(after, id@, n + 1, n);
                    assert forall|x: Seq<char>| x != id@ implies #[trigger] self.transcript_of(x)
                        == old(self).transcript_of(x) by {
                        lemma_session_at(before, x, n);
                        lemma_session_at(after, x, n + 1);
                        match session_at(before, x, n) {
                            Some(j) => {
                                assert forall|k: int| 0 <= k < j implies (#[trigger] after[k]).id@
                                    != x by {
                                    assert(before[k].id@ != x);
                                }
                                lemma_session_is(after, x, n + 1, j);
                            },
                            None => {
                                if let Some(j) = session_at(after, x, n + 1) {
                                    if j < n {
                                        assert(before[j].id@ != x);
                                    }
                                }
                            },
                        }
                    }
                }
            },
        }
    }

    /// Takes the transcript out of the session of that name for a turn; `None`
    /// where there is no such session.
    pub fn take(&mut self, id: &str) -> (r: Option<Vec<Message>>)
        ensures
            match r {
                Some(m) => {
                    &&& old(self).transcript_of(id@) == Some(transcript(m@))
                    &&& final(self).transcript_of(id@) == Some(Seq::<MessageV>::empty())
                },
                None => old(self).transcript_of(id@) is None && *final(self) == *old(self),
            },
            forall|x: Seq<char>|
                x != id@ ==> #[trigger] final(self).transcript_of(x) == old(self).transcript_of(x),
    {
        match self.find(id) {
            Some(i) => {
                let mut out: Vec<Message> = Vec::new();
                let mut k: usize = 0;
                while k < self.list[i].messages.len()
                    invariant
                        i < self.list@.len(),
                        *self == *old(self),
                        k <= self.list@[i as int].messages@.len(),
                        out@.len() == k,
                        forall|j: int|
                            0 <= j < k ==> (#[trigger] out@[j])@
                                == self.list@[i as int].messages@[j]@,
                    decreases self.list@[i as int].messages@.len() - k,
                {
                    out.push(self.list[i].messages[k].clone());
                    k += 1;
                }
                assert(transcript(out@) =~= transcript(self.list@[i as int].messages@));
                let none: Vec<Message> = Vec::new();
                assert(transcript(none@) =~= Seq::empty());
                self.put(id, none);
                Some(out)
            },
            None => None,
        }
    }
}

// ------------------------------------------------------------ what a line asks for

/// What a line of the client asks for.
#[derive(Debug)]
#[allow(inconsistent_fields)]
pub enum Action {
    /// Nothing.
    Ignore,
    /// Send this.
    Send(Json),
    /// Hand the answer to the request of our own of that number.
    Resolve { id: u64, response: Json },
    /// Open a session, then answer with [`session_created`].
    NewSession { id: Json },
    /// Load the session, send what [`replay`] gives, then answer with an empty
    /// object; where loading fails, answer with [`load_failed`].
    LoadSession { id: Json, session_id: String },
    /// Run a turn on what the user says; where there is no such session, answer
    /// with [`unknown_session`].
    Prompt { id: Json, session_id: String, content: Vec<ContentBlock> },
    /// Cancel the turn of the session, if there is one.
    Cancel { session_id: String },
}

/// What an [`Action`] stands for.
#[allow(inconsistent_fields)]
pub enum ActionV {
    Ignore,
    Send(JsonV),
    Resolve { id: nat, response: JsonV },
    NewSession { id: JsonV },
    LoadSession { id: JsonV, session_id: Seq<char> },
    Prompt { id: JsonV, session_id: Seq<char>, content: Seq<BlockV> },
    Cancel { session_id: Seq<char> },
}

impl View for Action {
    type V = ActionV;

    open spec fn view(&self) -> ActionV {
        match self {
            Action::Ignore => ActionV::Ignore,
            Action::Send(v) => ActionV::Send(v@),
            Action::Resolve { id, response } => ActionV::Resolve {
                id: *id as nat,
                response: response@,
            },
            Action::NewSession { id } => ActionV::NewSession { id: id@ },
            Action::LoadSession { id, session_id } => ActionV::LoadSession {
                id: id@,
                session_id: session_id@,
            },
            Action::Prompt { id, session_id, content } => ActionV::Prompt {
                id: id@,
                session_id: session_id@,
                content: blocks(content@),
            },
            Action::Cancel { session_id } => ActionV::Cancel { session_id: session_id@ },
        }
    }
}

/// What the agent says of itself.
pub open spec fn introduction(version: Seq<char>, images_ok: bool) -> JsonV {
    JsonV::Object(
        seq![
            (
                "agentCapabilities"@,
                JsonV::Object(
                    seq![
                        ("loadSession"@, JsonV::Bool(true)),
                        (
                            "promptCapabilities"@,
                            JsonV::Object(seq![("image"@, JsonV::Bool(images_ok))]),
                        ),
                    ],
                ),
            ),
            (
                "agentInfo"@,
                JsonV::Object(
                    seq![
                        ("name"@, JsonV::Str("sirbone"@)),
                        ("version"@, JsonV::Str(version)),
                    ],
                ),
            ),
            ("protocolVersion"@, JsonV::Number(decimal(PROTOCOL_VERSION as nat))),
        ],
    )
}

fn introduce(version: &str, images_ok: bool) -> (r: Json)
    ensures
        r@ == introduction(version@, images_ok),
{
    object3(
        "agentCapabilities",
        object2(
            "loadSession",
            boolean(true),
            "promptCapabilities",
            object1("image", boolean(images_ok)),
        ),
        "agentInfo",
        object2("name", js("sirbone"), "version", js(version)),
        "protocolVersion",
        num(PROTOCOL_VERSION),
    )
}

/// The block that a block of the client's prompt becomes. References to
/// resources become text, for the files are within reach; images are dropped
/// where the model does not read them.
pub open spec fn content_of(b: JsonV, images_ok: bool) -> Option<BlockV> {
    let kind = text_field(b, "type"@);
    if kind == Some("text"@) {
        match text_field(b, "text"@) {
            Some(t) => Some(BlockV::Text { text: t }),
            None => None,
        }
    } else if kind == Some("image"@) && images_ok {
        match (text_field(b, "data"@), text_field(b, "mimeType"@)) {
            (Some(data), Some(media_type)) => Some(BlockV::Image { media_type, data }),
            _ => None,
        }
    } else if kind == Some("resource_link"@) {
        match text_field(b, "uri"@) {
            Some(uri) => Some(BlockV::Text { text: "[resource: "@ + uri + "]"@ }),
            None => None,
        }
    } else if kind == Some("resource"@) {
        match text_field(inside(b, "resource"@), "text"@) {
            Some(t) => Some(BlockV::Text { text: t }),
            None => None,
        }
    } else {
        None
    }
}

/// The blocks that the blocks of a prompt become.
pub open spec fn contents_of(items: Seq<JsonV>, images_ok: bool) -> Seq<BlockV>
    decreases items.len(),
{
    if items.len() == 0 {
        Seq::empty()
    } else {
        let before = contents_of(items.drop_last(), images_ok);
        match content_of(items.last(), images_ok) {
            Some(b) => before.push(b),
            None => before,
        }
    }
}

/// What the user says in a prompt; nothing where it is no list.
pub open spec fn said(prompt: Option<JsonV>, images_ok: bool) -> Seq<BlockV> {
    match prompt {
        Some(v) => match items_in(v) {
            Some(items) => contents_of(items, images_ok),
            None => Seq::empty(),
        },
        None => Seq::empty(),
    }
}

fn is_kind(kind: Option<&str>, name: &str) -> (b: bool)
    ensures
        b == (setting_view(kind) == Some(name@)),
{
    match kind {
        Some(k) => same(k, name),
        None => false,
    }
}

fn block_of(b: &Json, images_ok: bool) -> (r: Option<ContentBlock>)
    ensures
        match r {
            Some(c) => content_of(b@, images_ok) == Some(c@),
            None => content_of(b@, images_ok) is None,
        },
{
    let kind = b.str_at("type");
    if is_kind(kind, "text") {
        match b.str_at("text") {
            Some(t) => Some(ContentBlock::Text { text: t.to_owned() }),
            None => None,
        }
    } else if is_kind(kind, "image") && images_ok {
        match (b.str_at("data"), b.str_at("mimeType")) {
            (Some(data), Some(mime)) => Some(
                ContentBlock::Image { media_type: mime.to_owned(), data: data.to_owned() },
            ),
            _ => None,
        }
    } else if is_kind(kind, "resource_link") {
        match b.str_at("uri") {
            Some(uri) => Some(ContentBlock::Text { text: cat3("[resource: ", uri, "]") }),
            None => None,
        }
    } else if is_kind(kind, "resource") {
        match b.at("resource").str_at("text") {
            Some(t) => Some(ContentBlock::Text { text: t.to_owned() }),
            None => None,
        }
    } else {
        None
    }
}

/// What the user says in a prompt; see [`said`].
pub fn prompt_to_content(prompt: Option<&Json>, images_ok: bool) -> (r: Vec<ContentBlock>)
    ensures
        blocks(r@) == said(json_option(prompt), images_ok),
{
    let mut out: Vec<ContentBlock> = Vec::new();
    assert(blocks(out@) =~= Seq::empty());
    if let Some(v) = prompt {
        if let Some(items) = v.as_array() {
            let ghost js0 = json_views(items@);
            let mut i: usize = 0;
            assert(js0.take(0) =~= Seq::empty());
            while i < items.len()
                invariant
                    i <= items@.len(),
                    js0 == json_views(items@),
                    blocks(out@) == contents_of(js0.take(i as int), images_ok),
                decreases items@.len() - i,
            {
                assert(js0.take(i + 1).drop_last() =~= js0.take(i as int));
                assert(js0.take(i + 1).last() == items@[i as int]@);
                let ghost before = blocks(out@);
                if let Some(b) = block_of(&items[i], images_ok) {
                    let ghost bv = b@;
                    out.push(b);
                    assert(blocks(out@) =~= before.push(bv));
                }
                i += 1;
            }
            assert(js0.take(i as int) =~= js0);
        }
    }
    out
}

/// What a request or a notification of the client asks for. A request that
/// carries no number gets no answer.
pub open spec fn asked(v: JsonV, version: Seq<char>, images_ok: bool) -> ActionV {
    let method = text_field(v, "method"@);
    let params = inside(v, "params"@);
    let session = text_field(params, "sessionId"@);
    if method == Some("session/cancel"@) {
        match session {
            Some(s) => ActionV::Cancel { session_id: s },
            None => ActionV::Ignore,
        }
    } else {
        match field(v, "id"@) {
            None => ActionV::Ignore,
            Some(id) => if method == Some("initialize"@) {
                ActionV::Send(answer(id, introduction(version, images_ok)))
            } else if method == Some("authenticate"@) {
                ActionV::Send(answer(id, JsonV::Object(Seq::empty())))
            } else if method == Some("session/new"@) {
                ActionV::NewSession { id }
            } else if method == Some("session/load"@) {
                match session {
                    Some(s) => ActionV::LoadSession { id, session_id: s },
                    None => ActionV::Send(error_answer(id, "-32602"@, "missing sessionId"@)),
                }
            } else if method == Some("session/prompt"@) {
                match session {
                    Some(s) => ActionV::Prompt {
                        id,
                        session_id: s,
                        content: said(field(params, "prompt"@), images_ok),
                    },
                    None => ActionV::Send(error_answer(id, "-32602"@, "missing sessionId"@)),
                }
            } else {
                ActionV::Send(error_answer(id, "-32601"@, "method not found"@))
            },
        }
    }
}

/// What a request or a notification of the client asks for; see [`asked`].
pub fn dispatch(v: &Json, version: &str, images_ok: bool) -> (r: Action)
    ensures
        r@ == asked(v@, version@, images_ok),
{
    let method = v.str_at("method");
    let params = v.at("params");
    let session = params.str_at("sessionId");
    if is_kind(method, "session/cancel") {
        return match session {
            Some(s) => Action::Cancel { session_id: s.to_owned() },
            None => Action::Ignore,
        };
    }
    match v.get("id") {
        None => Action::Ignore,
        Some(id) => {
            if is_kind(method, "initialize") {
                Action::Send(respond(id.clone(), introduce(version, images_ok)))
            } else if is_kind(method, "authenticate") {
                Action::Send(respond(id.clone(), obj(no_fields())))
            } else if is_kind(method, "session/new") {
                Action::NewSession { id: id.clone() }
            } else if is_kind(method, "session/load") {
                match session {
                    Some(s) => Action::LoadSession { id: id.clone(), session_id: s.to_owned() },
                    None => Action::Send(respond_err(id.clone(), "-32602", "missing sessionId")),
                }
            } else if is_kind(method, "session/prompt") {
                match session {
                    Some(s) => Action::Prompt {
                        id: id.clone(),
                        session_id: s.to_owned(),
                        content: prompt_to_content(params.get("prompt"), images_ok),
                    },
                    None => Action::Send(respond_err(id.clone(), "-32602", "missing sessionId")),
                }
            } else {
                Action::Send(respond_err(id.clone(), "-32601", "method not found"))
            }
        },
    }
}

/// What a value of the client asks for: one with a method is a request or a
/// notification, one with a number alone is an answer.
pub open spec fn taken(v: JsonV, version: Seq<char>, images_ok: bool) -> ActionV {
    if field(v, "method"@) is Some {
        asked(v, version, images_ok)
    } else {
        match whole_field(v, "id"@) {
            Some(id) => ActionV::Resolve { id, response: v },
            None => ActionV::Ignore,
        }
    }
}

/// What a value of the client asks for; see [`taken`].
pub fn take_value(v: &Json, version: &str, images_ok: bool) -> (r: Action)
    ensures
        r@ == taken(v@, version@, images_ok),
{
    if v.get("method").is_some() {
        dispatch(v, version, images_ok)
    } else {
        match v.u64_at("id") {
            Some(id) => Action::Resolve { id, response: v.clone() },
            None => Action::Ignore,
        }
    }
}

/// What a line of the client asks for; one that is no JSON text asks for
/// nothing.
pub fn take_line(line: &str, version: &str, images_ok: bool) -> (r: Action)
    ensures
        r@ == (match parsed_json(trimmed(line@)) {
            Some(v) => taken(v, version@, images_ok),
            None => ActionV::Ignore,
        }),
{
    match Json::parse(trim(line).as_str()) {
        Some(v) => take_value(&v, version, images_ok),
        None => Action::Ignore,
    }
}

/// The answer that names a new session.
pub fn session_created(id: Json, session_id: &str) -> (r: Json)
    ensures
        r@ == answer(id@, JsonV::Object(seq![("sessionId"@, JsonV::Str(session_id@))])),
{
    respond(id, object1("sessionId", js(session_id)))
}

/// The refusal of a session that cannot be loaded.
pub fn load_failed(id: Json, error: &str) -> (r: Json)
    ensures
        r@ == error_answer(id@, "-32603"@, "load failed: "@ + error@),
{
    let message = cat2("load failed: ", error);
    respond_err(id, "-32603", message.as_str())
}

/// The refusal of a prompt for a session that does not exist.
pub fn unknown_session(id: Json) -> (r: Json)
    ensures
        r@ == error_answer(id@, "-32602"@, "unknown sessionId"@),
{
    respond_err(id, "-32602", "unknown sessionId")
}

// ------------------------------------------------------------ updates

/// A piece of a message.
pub open spec fn chunk(kind: Seq<char>, text: Seq<char>) -> JsonV {
    JsonV::Object(
        seq![
            (
                "content"@,
                JsonV::Object(seq![("text"@, JsonV::Str(text)), ("type"@, JsonV::Str("text"@))]),
            ),
            ("sessionUpdate"@, JsonV::Str(kind)),
        ],
    )
}

fn chunk_json(kind: &str, text: &str) -> (r: Json)
    ensures
        r@ == chunk(kind@, text@),
{
    object2(
        "content",
        object2("text", js(text), "type", js("text")),
        "sessionUpdate",
        js(kind),
    )
}

/// The kind of a tool, for the client's icons.
pub open spec fn kind_of(name: Seq<char>) -> Seq<char> {
    if name == "read"@ {
        "read"@
    } else if name == "write"@ || name == "edit"@ || name == "undo"@ {
        "edit"@
    } else if name == "bash"@ || name == "job_status"@ {
        "execute"@
    } else if name == "grep"@ || name == "glob"@ || name == "code_map"@ {
        "search"@
    } else if name == "web_fetch"@ || name == "web_search"@ {
        "fetch"@
    } else {
        "other"@
    }
}

/// Computes [`kind_of`].
pub fn tool_kind(name: &str) -> (r: &'static str)
    ensures
        r@ == kind_of(name@),
{
    if same(name, "read") {
        "read"
    } else if same(name, "write") || same(name, "edit") || same(name, "undo") {
        "edit"
    } else if same(name, "bash") || same(name, "job_status") {
        "execute"
    } else if same(name, "grep") || same(name, "glob") || same(name, "code_map") {
        "search"
    } else if same(name, "web_fetch") || same(name, "web_search") {
        "fetch"
    } else {
        "other"
    }
}

/// A tool call.
pub open spec fn call_update(
    id: Seq<char>,
    name: Seq<char>,
    input: JsonV,
    status: Seq<char>,
) -> JsonV {
    JsonV::Object(
        seq![
            ("kind"@, JsonV::Str(kind_of(name))),
            ("rawInput"@, input),
            ("sessionUpdate"@, JsonV::Str("tool_call"@)),
            ("status"@, JsonV::Str(status)),
            ("title"@, JsonV::Str(name)),
            ("toolCallId"@, JsonV::Str(id)),
        ],
    )
}

fn call_json(id: &str, name: &str, input: &Json, status: &str) -> (r: Json)
    ensures
        r@ == call_update(id@, name@, input@, status@),
{
    object6(
        "kind",
        js(tool_kind(name)),
        "rawInput",
        input.clone(),
        "sessionUpdate",
        js("tool_call"),
        "status",
        js(status),
        "title",
        js(name),
        "toolCallId",
        js(id),
    )
}

/// The result of a tool call.
pub open spec fn result_update(id: Seq<char>, result: Seq<char>, is_error: bool) -> JsonV {
    JsonV::Object(
        seq![
            (
                "content"@,
                JsonV::Array(
                    seq![
                        JsonV::Object(
                            seq![
                                (
                                    "content"@,
                                    JsonV::Object(
                                        seq![
                                            ("text"@, JsonV::Str(result)),
                                            ("type"@, JsonV::Str("text"@)),
                                        ],
                                    ),
                                ),
                                ("type"@, JsonV::Str("content"@)),
                            ],
                        ),
                    ],
                ),
            ),
            ("sessionUpdate"@, JsonV::Str("tool_call_update"@)),
            (
                "status"@,
                JsonV::Str(
                    if is_error {
                        "failed"@
                    } else {
                        "completed"@
                    },
                ),
            ),
            ("toolCallId"@, JsonV::Str(id)),
        ],
    )
}

fn result_json(id: &str, result: &str, is_error: bool) -> (r: Json)
    ensures
        r@ == result_update(id@, result@, is_error),
{
    let inner = object2(
        "content",
        object2("text", js(result), "type", js("text")),
        "type",
        js("content"),
    );
    let ghost iv = inner@;
    let mut items = no_items();
    add_item(&mut items, inner);
    assert(json_views(items@) =~= seq![iv]);
    let status = if is_error {
        "failed"
    } else {
        "completed"
    };
    object4(
        "content",
        arr(items),
        "sessionUpdate",
        js("tool_call_update"),
        "status",
        js(status),
        "toolCallId",
        js(id),
    )
}

/// The update that an event of a run becomes; `None` for one that the client
/// does not see.
pub open spec fn update_of(ev: EventV) -> Option<JsonV> {
    match ev {
        EventV::TextChunk(t) => Some(chunk("agent_message_chunk"@, t)),
        EventV::ThinkingChunk(t) => Some(chunk("agent_thought_chunk"@, t)),
        EventV::ToolCallStart { id, name, input } => Some(
            call_update(id, name, input, "in_progress"@),
        ),
        EventV::ToolCallEnd { id, name, result, is_error } => Some(
            result_update(id, result, is_error),
        ),
        EventV::Error(t) => Some(chunk("agent_message_chunk"@, "⚠ "@ + t)),
        EventV::Notice { text, level } => Some(chunk("agent_message_chunk"@, text)),
        _ => None,
    }
}

/// The update that an event becomes; see [`update_of`].
pub fn event_to_update(ev: &AgentEvent) -> (r: Option<Json>)
    ensures
        own_option(r) == update_of(ev@),
{
    match ev {
        AgentEvent::TextChunk(t) => Some(chunk_json("agent_message_chunk", t.as_str())),
        AgentEvent::ThinkingChunk(t) => Some(chunk_json("agent_thought_chunk", t.as_str())),
        AgentEvent::ToolCallStart { id, name, input } => Some(
            call_json(id.as_str(), name.as_str(), input, "in_progress"),
        ),
        AgentEvent::ToolCallEnd { id, result, is_error, .. } => Some(
            result_json(id.as_str(), result.as_str(), *is_error),
        ),
        AgentEvent::Error(t) => {
            let text = cat2("⚠ ", t.as_str());
            Some(chunk_json("agent_message_chunk", text.as_str()))
        },
        AgentEvent::Notice { text, .. } => Some(
            chunk_json("agent_message_chunk", text.as_str()),
        ),
        _ => None,
    }
}

/// A step of the model's list: its text and how far it has come, where the value
/// is one.
pub open spec fn step_of(v: JsonV) -> Option<(Seq<char>, Seq<char>)> {
    match (text_field(v, "content"@), text_field(v, "status"@)) {
        (Some(c), Some(s)) => if s == "pending"@ || s == "in_progress"@ || s == "completed"@ {
            Some((c, s))
        } else {
            None
        },
        _ => None,
    }
}

/// An entry of the client's plan.
pub open spec fn plan_entry(content: Seq<char>, status: Seq<char>) -> JsonV {
    JsonV::Object(
        seq![
            ("content"@, JsonV::Str(content)),
            ("priority"@, JsonV::Str("medium"@)),
            ("status"@, JsonV::Str(status)),
        ],
    )
}

/// The entries of a plan; `None` where one of the steps is malformed.
pub open spec fn plan_entries(items: Seq<JsonV>) -> Option<Seq<JsonV>>
    decreases items.len(),
{
    if items.len() == 0 {
        Some(Seq::empty())
    } else {
        match (plan_entries(items.drop_last()), step_of(items.last())) {
            (Some(before), Some((c, s))) => Some(before.push(plan_entry(c, s))),
            _ => None,
        }
    }
}

/// The plan that an event shows: a call of the tool `todo` with a list of steps.
pub open spec fn plan_of(ev: EventV) -> Option<JsonV> {
    match ev {
        EventV::ToolCallStart { id, name, input } => if name == "todo"@ {
            match items_field(input, "todos"@) {
                Some(items) => match plan_entries(items) {
                    Some(entries) => Some(
                        JsonV::Object(
                            seq![
                                ("entries"@, JsonV::Array(entries)),
                                ("sessionUpdate"@, JsonV::Str("plan"@)),
                            ],
                        ),
                    ),
                    None => None,
                },
                None => None,
            }
        } else {
            None
        },
        _ => None,
    }
}

proof fn lemma_no_plan(items: Seq<JsonV>, n: int)
    requires
        0 <= n <= items.len(),
        plan_entries(items.take(n)) is None,
    ensures
        plan_entries(items) is None,
    decreases items.len() - n,
{
    if n < items.len() {
        assert(items.take(n + 1).drop_last() =~= items.take(n));
        lemma_no_plan(items, n + 1);
    } else {
        assert(items.take(n) =~= items);
    }
}

fn read_plan(items: &Vec<Json>) -> (r: Option<Vec<Json>>)
    ensures
        match r {
            Some(v) => plan_entries(json_views(items@)) == Some(json_views(v@)),
            None => plan_entries(json_views(items@)) is None,
        },
{
    let ghost js0 = json_views(items@);
    let mut out = no_items();
    let mut i: usize = 0;
    assert(js0.take(0) =~= Seq::empty());
    while i < items.len()
        invariant
            i <= items@.len(),
            js0 == json_views(items@),
            plan_entries(js0.take(i as int)) == Some(json_views(out@)),
        decreases items@.len() - i,
    {
        assert(js0.take(i + 1).drop_last() =~= js0.take(i as int));
        assert(js0.take(i + 1).last() == items@[i as int]@);
        let known = match (items[i].str_at("content"), items[i].str_at("status")) {
            (Some(c), Some(s)) => {
                if same(s, "pending") || same(s, "in_progress") || same(s, "completed") {
                    Some((c, s))
                } else {
                    None
                }
            },
            _ => None,
        };
        match known {
            Some((c, s)) => {
                add_item(
                    &mut out,
                    object3("content", js(c), "priority", js("medium"), "status", js(s)),
                );
            },
            None => {
                proof {
                    lemma_no_plan(js0, i + 1);
                }
                return None;
            },
        }
        i += 1;
    }
    assert(js0.take(i as int) =~= js0);
    Some(out)
}

/// The plan that an event shows; see [`plan_of`].
pub fn todo_plan_update(ev: &AgentEvent) -> (r: Option<Json>)
    ensures
        own_option(r) == plan_of(ev@),
{
    match ev {
        AgentEvent::ToolCallStart { name, input, .. } => {
            if !same(name.as_str(), "todo") {
                return None;
            }
            match input.array_at("todos") {
                Some(items) => match read_plan(items) {
                    Some(entries) => Some(
                        object2("entries", arr(entries), "sessionUpdate", js("plan")),
                    ),
                    None => None,
                },
                None => None,
            }
        },
        _ => None,
    }
}

/// The updates that an event becomes, in the order in which they are sent.
pub open spec fn updates_of(ev: EventV) -> Seq<JsonV> {
    (match update_of(ev) {
        Some(u) => seq![u],
        None => Seq::empty(),
    }) + (match plan_of(ev) {
        Some(p) => seq![p],
        None => Seq::empty(),
    })
}

/// The updates that an event becomes; see [`updates_of`].
pub fn event_updates(ev: &AgentEvent) -> (r: Vec<Json>)
    ensures
        json_views(r@) == updates_of(ev@),
{
    let mut out = no_items();
    if let Some(u) = event_to_update(ev) {
        add_item(&mut out, u);
    }
    if let Some(p) = todo_plan_update(ev) {
        add_item(&mut out, p);
    }
    assert(json_views(out@) =~= updates_of(ev@));
    out
}

/// The notification that carries an update.
pub open spec fn update_frame(session_id: Seq<char>, update: JsonV) -> JsonV {
    notification(
        "session/update"@,
        JsonV::Object(seq![("sessionId"@, JsonV::Str(session_id)), ("update"@, update)]),
    )
}

/// The notification that carries an update; see [`update_frame`].
pub fn session_update(session_id: &str, update: Json) -> (r: Json)
    ensures
        r@ == update_frame(session_id@, update@),
{
    notify("session/update", object2("sessionId", js(session_id), "update", update))
}

/// The update that a block of an old message becomes.
pub open spec fn replayed(role: Role, b: BlockV) -> Option<JsonV> {
    match b {
        BlockV::Text { text } => Some(
            chunk(
                if role == Role::User {
                    "user_message_chunk"@
                } else {
                    "agent_message_chunk"@
                },
                text,
            ),
        ),
        BlockV::ToolUse { id, name, input } => Some(call_update(id, name, input, "completed"@)),
        BlockV::ToolResult { tool_use_id, content, is_error } => Some(
            result_update(tool_use_id, content, is_error),
        ),
        _ => None,
    }
}

/// The updates that the blocks of an old message become.
pub open spec fn all_replayed(role: Role, content: Seq<BlockV>) -> Seq<JsonV>
    decreases content.len(),
{
    if content.len() == 0 {
        Seq::empty()
    } else {
        let before = all_replayed(role, content.drop_last());
        match replayed(role, content.last()) {
            Some(u) => before.push(u),
            None => before,
        }
    }
}

/// The updates that an old message becomes, when its session is loaded.
pub fn replay_updates(msg: &Message) -> (r: Vec<Json>)
    ensures
        json_views(r@) == all_replayed(msg.role, blocks(msg.content@)),
{
    let ghost bs = blocks(msg.content@);
    let mut out = no_items();
    let mut i: usize = 0;
    assert(bs.take(0) =~= Seq::empty());
    while i < msg.content.len()
        invariant
            i <= msg.content@.len(),
            bs == blocks(msg.content@),
            json_views(out@) == all_replayed(msg.role, bs.take(i as int)),
        decreases msg.content@.len() - i,
    {
        assert(bs.take(i + 1).drop_last() =~= bs.take(i as int));
        assert(bs.take(i + 1).last() == msg.content@[i as int]@);
        match &msg.content[i] {
            ContentBlock::Text { text } => {
                let kind = match msg.role {
                    Role::User => "user_message_chunk",
                    _ => "agent_message_chunk",
                };
                add_item(&mut out, chunk_json(kind, text.as_str()));
            },
            ContentBlock::ToolUse { id, name, input } => {
                add_item(
                    &mut out,
                    call_json(id.as_str(), name.as_str(), input, "completed"),
                );
            },
            ContentBlock::ToolResult { tool_use_id, content, is_error } => {
                add_item(
                    &mut out,
                    result_json(tool_use_id.as_str(), content.as_str(), *is_error),
                );
            },
            _ => {},
        }
        i += 1;
    }
    assert(bs.take(i as int) =~= bs);
    out
}

/// The notifications for some updates.
pub open spec fn frames(session_id: Seq<char>, updates: Seq<JsonV>) -> Seq<JsonV> {
    updates.map_values(|u: JsonV| update_frame(session_id, u))
}

/// The notifications that show a loaded transcript.
pub open spec fn replay_frames(session_id: Seq<char>, msgs: Seq<MessageV>) -> Seq<JsonV>
    decreases msgs.len(),
{
    if msgs.len() == 0 {
        Seq::empty()
    } else {
        replay_frames(session_id, msgs.drop_last()) + frames(
            session_id,
            all_replayed(msgs.last().role, msgs.last().content),
        )
    }
}

/// The notifications that show a loaded transcript; see [`replay_frames`].
pub fn replay(session_id: &str, messages: &Vec<Message>) -> (r: Vec<Json>)
    ensures
        json_views(r@) == replay_frames(session_id@, transcript(messages@)),
{
    let ghost ms = transcript(messages@);
    let mut out = no_items();
    let mut i: usize = 0;
    assert(ms.take(0) =~= Seq::empty());
    while i < messages.len()
        invariant
            i <= messages@.len(),
            ms == transcript(messages@),
            json_views(out@) == replay_frames(session_id@, ms.take(i as int)),
        decreases messages@.len() - i,
    {
        assert(ms.take(i + 1).drop_last() =~= ms.take(i as int));
        assert(ms.take(i + 1).last() == messages@[i as int]@);
        let ghost before = json_views(out@);
        let updates = replay_updates(&messages[i]);
        let ghost us = json_views(updates@);
        let ghost fs = frames(session_id@, us);
        let mut k: usize = 0;
        assert(before + fs.take(0) =~= before);
        while k < updates.len()
            invariant
                k <= updates@.len(),
                us == json_views(updates@),
                fs == frames(session_id@, us),
                json_views(out@) == before + fs.take(k as int),
            decreases updates@.len() - k,
        {
            assert(us[k as int] == updates@[k as int]@);
            assert(fs[k as int] == update_frame(session_id@, us[k as int]));
            add_item(&mut out, session_update(session_id, updates[k].clone()));
            assert((before + fs.take(k as int)).push(fs[k as int]) =~= before + fs.take(k + 1));
            k += 1;
        }
        assert(fs.take(k as int) =~= fs);
        i += 1;
    }
    assert(ms.take(i as int) =~= ms);
    out
}

// ------------------------------------------------------------ permission

/// The kind of an option: of a permission the first allows once, the second
/// always and the others reject; of another question the last rejects.
pub open spec fn option_kind(permission: bool, i: int, count: int) -> Seq<char> {
    if permission {
        if i == 0 {
            "allow_once"@
        } else if i == 1 {
            "allow_always"@
        } else {
            "reject_once"@
        }
    } else if i == count - 1 {
        "reject_once"@
    } else {
        "allow_once"@
    }
}

/// The options of a prompt; the place of an option is its name in the answer.
pub open spec fn option_list(options: Seq<Seq<char>>, permission: bool) -> Seq<JsonV> {
    Seq::new(
        options.len(),
        |i: int|
            JsonV::Object(
                seq![
                    ("kind"@, JsonV::Str(option_kind(permission, i, options.len() as int))),
                    ("name"@, JsonV::Str(options[i])),
                    ("optionId"@, JsonV::Str(decimal(i as nat))),
                ],
            ),
    )
}

/// A text, or null where there is none.
pub open spec fn text_or_null(t: Option<Seq<char>>) -> JsonV {
    match t {
        Some(t) => JsonV::Str(t),
        None => JsonV::Null,
    }
}

/// The call that a prompt is shown as.
pub open spec fn prompt_call(title: Seq<char>, detail: Option<Seq<char>>) -> JsonV {
    JsonV::Object(
        seq![
            ("kind"@, JsonV::Str("other"@)),
            (
                "rawInput"@,
                JsonV::Object(seq![("detail"@, text_or_null(detail))]),
            ),
            ("status"@, JsonV::Str("pending"@)),
            ("title"@, JsonV::Str(title)),
            ("toolCallId"@, JsonV::Str("permission"@)),
        ],
    )
}

/// What is asked of the client for a prompt.
pub open spec fn permission_request(
    session_id: Seq<char>,
    title: Seq<char>,
    detail: Option<Seq<char>>,
    options: Seq<Seq<char>>,
    permission: bool,
) -> JsonV {
    JsonV::Object(
        seq![
            ("options"@, JsonV::Array(option_list(options, permission))),
            ("sessionId"@, JsonV::Str(session_id)),
            ("toolCall"@, prompt_call(title, detail)),
        ],
    )
}

fn list_options(options: &Vec<String>, permission: bool) -> (r: Vec<Json>)
    ensures
        json_views(r@) == option_list(texts(options@), permission),
{
    let ghost os = texts(options@);
    let ghost all = option_list(os, permission);
    let mut out = no_items();
    let mut i: usize = 0;
    let size: usize = options.len();
    assert(all.take(0) =~= Seq::empty());
    while i < options.len()
        invariant
            i <= options@.len() == size,
            os == texts(options@),
            all == option_list(os, permission),
            json_views(out@) == all.take(i as int),
        decreases options@.len() - i,
    {
        assert(os[i as int] == options@[i as int]@);
        let kind = if permission {
            if i == 0 {
                "allow_once"
            } else if i == 1 {
                "allow_always"
            } else {
                "reject_once"
            }
        } else if i == size - 1 {
            "reject_once"
        } else {
            "allow_once"
        };
        let o = object3(
            "kind",
            js(kind),
            "name",
            js(options[i].as_str()),
            "optionId",
            js(size_text(i).as_str()),
        );
        assert(o@ == all[i as int]);
        add_item(&mut out, o);
        assert(all.take(i as int).push(all[i as int]) =~= all.take(i + 1));
        i += 1;
    }
    assert(all.take(i as int) =~= all);
    out
}

/// What is asked of the client for a prompt; see [`permission_request`].
pub fn permission_params(session_id: &str, p: &Prompt) -> (r: Json)
    ensures
        r@ == permission_request(
            session_id@,
            p.title@,
            text_view(p.detail),
            texts(p.options@),
            p.kind is Permission,
        ),
{
    let permission = match &p.kind {
        PromptKind::Permission { .. } => true,
        _ => false,
    };
    let detail = match &p.detail {
        Some(d) => js(d.as_str()),
        None => Json::Null,
    };
    assert(detail@ == text_or_null(text_view(p.detail)));
    let call = crate::json::object5(
        "kind",
        js("other"),
        "rawInput",
        object1("detail", detail),
        "status",
        js("pending"),
        "title",
        js(p.title.as_str()),
        "toolCallId",
        js("permission"),
    );
    object3(
        "options",
        arr(list_options(&p.options, permission)),
        "sessionId",
        js(session_id),
        "toolCall",
        call,
    )
}

/// The option that the client's answer chooses; none where it was cancelled or
/// is garbled.
pub open spec fn chosen_option(result: JsonV) -> Option<nat> {
    let outcome = inside(result, "outcome"@);
    if text_field(outcome, "outcome"@) == Some("selected"@) {
        match text_field(outcome, "optionId"@) {
            Some(t) => parsed_number(t, usize::MAX as nat),
            None => None,
        }
    } else {
        None
    }
}

/// What the client answered; see [`chosen_option`]. An answer without an option
/// denies.
pub fn outcome_to_reply(result: &Json) -> (r: PromptReply)
    ensures
        match r.index {
            Some(i) => chosen_option(result@) == Some(i as nat),
            None => chosen_option(result@) is None,
        },
        r.text is None,
        r.answers@.len() == 0,
{
    let outcome = result.at("outcome");
    let mut index: Option<usize> = None;
    if is_kind(outcome.str_at("outcome"), "selected") {
        if let Some(t) = outcome.str_at("optionId") {
            if let Some(n) = parse_number(t, usize::MAX as u64) {
                index = Some(n as usize);
            }
        }
    }
    PromptReply { index, text: None, answers: Vec::new() }
}

/// The reply to a prompt that the client did not answer: it denies.
pub fn no_reply() -> (r: PromptReply)
    ensures
        r.index is None,
        r.text is None,
        r.answers@.len() == 0,
{
    PromptReply { index: None, text: None, answers: Vec::new() }
}

/// A question of a round as a prompt of its own: the protocol asks one thing at
/// a time.
pub fn question_prompt(q: &PromptQuestion) -> (r: Prompt)
    ensures
        asks_question(r, *q),
{
    let mut options: Vec<String> = Vec::new();
    let mut i: usize = 0;
    while i < q.options.len()
        invariant
            i <= q.options@.len(),
            options@.len() == i,
            forall|k: int| 0 <= k < i ==> (#[trigger] options@[k])@ == q.options@[k]@,
        decreases q.options@.len() - i,
    {
        options.push(q.options[i].clone());
        i += 1;
    }
    assert(texts(options@) =~= texts(q.options@));
    let detail = match &q.detail {
        Some(d) => Some(d.clone()),
        None => None,
    };
    Prompt {
        title: q.title.clone(),
        detail,
        options,
        allow_free_text: q.allow_free_text,
        kind: PromptKind::Question,
    }
}

/// The reply to a round, from the replies to its questions.
pub fn round_reply(replies: Vec<PromptReply>) -> (r: PromptReply)
    ensures
        r.index is None,
        r.text is None,
        r.answers@.len() == replies@.len(),
        forall|i: int|
            0 <= i < replies@.len() ==> (#[trigger] r.answers@[i]).index == replies@[i].index
                && text_view(r.answers@[i].text) == text_view(replies@[i].text),
{
    let mut answers: Vec<PromptAnswer> = Vec::new();
    let mut i: usize = 0;
    while i < replies.len()
        invariant
            i <= replies@.len(),
            answers@.len() == i,
            forall|k: int|
                0 <= k < i ==> (#[trigger] answers@[k]).index == replies@[k].index && text_view(
                    answers@[k].text,
                ) == text_view(replies@[k].text),
        decreases replies@.len() - i,
    {
        let text = match &replies[i].text {
            Some(t) => Some(t.clone()),
            None => None,
        };
        answers.push(PromptAnswer { index: replies[i].index, text });
        i += 1;
    }
    PromptReply { index: None, text: None, answers }
}

// ------------------------------------------------------------ the end of a turn

/// The messages that a turn added: those behind the first `n`. After a
/// compaction there may be none.
pub fn new_messages(messages: &Vec<Message>, n: usize) -> (r: Vec<Message>)
    ensures
        transcript(r@) == (if n <= messages@.len() {
            transcript(messages@).skip(n as int)
        } else {
            Seq::empty()
        }),
{
    let mut out: Vec<Message> = Vec::new();
    let mut i: usize = n;
    if n <= messages.len() {
        while i < messages.len()
            invariant
                n <= i <= messages@.len(),
                out@.len() == i - n,
                forall|k: int| 0 <= k < out@.len() ==> (#[trigger] out@[k])@ == messages@[n + k]@,
            decreases messages@.len() - i,
        {
            out.push(messages[i].clone());
            i += 1;
        }
        assert(transcript(out@) =~= transcript(messages@).skip(n as int));
    } else {
        assert(transcript(out@) =~= Seq::empty());
    }
    out
}

/// How a turn ended, for the session's file: the status, and the reason where
/// there is one. What the user cancelled counts as cancelled, whatever else went
/// wrong.
pub fn run_status(cancelled: bool, error: Option<String>) -> (r: (&'static str, Option<String>))
    ensures
        r.0@ == (if cancelled {
            "cancelled"@
        } else if error is Some {
            "error"@
        } else {
            "done"@
        }),
        text_view(r.1) == (if cancelled {
            Some("cancelled by user"@)
        } else {
            text_view(error)
        }),
{
    if cancelled {
        ("cancelled", Some("cancelled by user".to_owned()))
    } else {
        match error {
            Some(e) => ("error", Some(e)),
            None => ("done", None),
        }
    }
}

/// The answer to a prompt when its turn is over.
pub fn turn_over(id: Json, cancelled: bool) -> (r: Json)
    ensures
        r@ == answer(
            id@,
            JsonV::Object(
                seq![
                    (
                        "stopReason"@,
                        JsonV::Str(
                            if cancelled {
                                "cancelled"@
                            } else {
                                "end_turn"@
                            },
                        ),
                    ),
                ],
            ),
        ),
{
    let reason = if cancelled {
        "cancelled"
    } else {
        "end_turn"
    };
    respond(id, object1("stopReason", js(reason)))
}

// ------------------------------------------------------------ sessions and turns

/// Opens the session `session_id` with nothing in it, and gives the answer to the
/// request for it.
pub fn open_session(sessions: &mut Sessions, id: Json, session_id: &str) -> (r: Json)
    ensures
        final(sessions).transcript_of(session_id@) == Some(Seq::<MessageV>::empty()),
        forall|x: Seq<char>|
            x != session_id@ ==> #[trigger] final(sessions).transcript_of(x) == old(
                sessions,
            ).transcript_of(x),
        r@ == answer(id@, JsonV::Object(seq![("sessionId"@, JsonV::Str(session_id@))])),
{
    let none: Vec<Message> = Vec::new();
    assert(transcript(none@) =~= Seq::empty());
    sessions.put(session_id, none);
    session_created(id, session_id)
}

/// What is sent when a session was loaded, or could not be: its transcript and
/// the answer, or the refusal.
pub open spec fn load_frames(
    id: JsonV,
    session_id: Seq<char>,
    loaded: Result<Seq<MessageV>, Seq<char>>,
) -> Seq<JsonV> {
    match loaded {
        Ok(msgs) => replay_frames(session_id, msgs).push(
            answer(id, JsonV::Object(Seq::empty())),
        ),
        Err(error) => seq![error_answer(id, "-32603"@, "load failed: "@ + error)],
    }
}

/// Takes a session that was loaded, or the reason why it could not be. Gives what
/// is sent; see [`load_frames`].
pub fn load_session(
    sessions: &mut Sessions,
    id: Json,
    session_id: &str,
    loaded: Result<Vec<Message>, String>,
) -> (r: Vec<Json>)
    ensures
        json_views(r@) == load_frames(
            id@,
            session_id@,
            match loaded {
                Ok(m) => Ok(transcript(m@)),
                Err(e) => Err(e@),
            },
        ),
        match loaded {
            Ok(m) => final(sessions).transcript_of(session_id@) == Some(transcript(m@)) && forall|
                x: Seq<char>,
            |
                x != session_id@ ==> #[trigger] final(sessions).transcript_of(x) == old(
                    sessions,
                ).transcript_of(x),
            Err(_) => *final(sessions) == *old(sessions),
        },
{
    match loaded {
        Ok(messages) => {
            let mut out = replay(session_id, &messages);
            let ghost before = json_views(out@);
            let done = respond(id, obj(no_fields()));
            let ghost d = done@;
            out.push(done);
            assert(json_views(out@) =~= before.push(d));
            sessions.put(session_id, messages);
            out
        },
        Err(error) => {
            let refusal = load_failed(id, error.as_str());
            let ghost d = refusal@;
            let mut out: Vec<Json> = Vec::new();
            out.push(refusal);
            assert(json_views(out@) =~= seq![d]);
            out
        },
    }
}

/// A turn that begins: the transcript with what the user says at its end, and how
/// many messages it has.
#[derive(Debug)]
pub struct OpenedTurn {
    pub messages: Vec<Message>,
    pub before: usize,
}

/// What the user says, as a message.
pub open spec fn user_message(content: Seq<BlockV>) -> MessageV {
    MessageV { role: Role::User, content, injected: false }
}

/// Begins the turn of a prompt: takes the transcript out of the session and puts
/// what the user says at its end. A session that does not exist is refused.
pub fn begin_prompt(
    sessions: &mut Sessions,
    id: Json,
    session_id: &str,
    content: Vec<ContentBlock>,
) -> (r: Result<OpenedTurn, Json>)
    ensures
        match old(sessions).transcript_of(session_id@) {
            Some(msgs) => {
                &&& r matches Ok(t) && transcript(t.messages@) == msgs.push(
                    user_message(blocks(content@)),
                ) && t.before == t.messages@.len()
                &&& final(sessions).transcript_of(session_id@) == Some(Seq::<MessageV>::empty())
            },
            None => {
                &&& r matches Err(e) && e@ == error_answer(
                    id@,
                    "-32602"@,
                    "unknown sessionId"@,
                )
                &&& *final(sessions) == *old(sessions)
            },
        },
        forall|x: Seq<char>|
            x != session_id@ ==> #[trigger] final(sessions).transcript_of(x) == old(
                sessions,
            ).transcript_of(x),
{
    match sessions.take(session_id) {
        Some(mut messages) => {
            let ghost msgs = transcript(messages@);
            let ghost c = blocks(content@);
            messages.push(Message { role: Role::User, content, injected: false });
            assert(transcript(messages@) =~= msgs.push(user_message(c)));
            let before: usize = messages.len();
            Ok(OpenedTurn { messages, before })
        },
        None => Err(unknown_session(id)),
    }
}

/// A turn that is over: the messages that it added and how it ended, for the
/// session's file, and the answer to the prompt.
#[derive(Debug)]
pub struct ClosedTurn {
    pub tail: Vec<Message>,
    pub status: &'static str,
    pub reason: Option<String>,
    pub answer: Json,
}

/// Ends the turn of a prompt: gives the transcript back to the session, where
/// there still is one.
pub fn end_prompt(
    sessions: &mut Sessions,
    id: Json,
    session_id: &str,
    messages: Vec<Message>,
    before: usize,
    cancelled: bool,
    error: Option<String>,
) -> (r: ClosedTurn)
    ensures
        final(sessions).transcript_of(session_id@) == (if old(sessions).transcript_of(
            session_id@,
        ) is Some {
            Some(transcript(messages@))
        } else {
            None
        }),
        forall|x: Seq<char>|
            x != session_id@ ==> #[trigger] final(sessions).transcript_of(x) == old(
                sessions,
            ).transcript_of(x),
        transcript(r.tail@) == (if before <= messages@.len() {
            transcript(messages@).skip(before as int)
        } else {
            Seq::empty()
        }),
        r.status@ == (if cancelled {
            "cancelled"@
        } else if error is Some {
            "error"@
        } else {
            "done"@
        }),
        text_view(r.reason) == (if cancelled {
            Some("cancelled by user"@)
        } else {
            text_view(error)
        }),
        r.answer@ == answer(
            id@,
            JsonV::Object(
                seq![
                    (
                        "stopReason"@,
                        JsonV::Str(
                            if cancelled {
                                "cancelled"@
                            } else {
                                "end_turn"@
                            },
                        ),
                    ),
                ],
            ),
        ),
{
    let tail = new_messages(&messages, before);
    let (status, reason) = run_status(cancelled, error);
    if sessions.knows(session_id) {
        sessions.put(session_id, messages);
    }
    ClosedTurn { tail, status, reason, answer: turn_over(id, cancelled) }
}

/// The prompt `p` asks what the question `q` of a round asks.
pub open spec fn asks_question(p: Prompt, q: PromptQuestion) -> bool {
    &&& p.title@ == q.title@
    &&& text_view(p.detail) == text_view(q.detail)
    &&& texts(p.options@) == texts(q.options@)
    &&& p.allow_free_text == q.allow_free_text
    &&& p.kind is Question
}

/// The prompts that are put to the client for a round of questions, one for each;
/// `None` for any other prompt, which is put as it is.
pub fn round_prompts(p: &Prompt) -> (r: Option<Vec<Prompt>>)
    ensures
        match p.kind {
            PromptKind::QuestionRound { questions } => r matches Some(ps) && ps@.len()
                == questions@.len() && forall|i: int|
                0 <= i < questions@.len() ==> asks_question(#[trigger] ps@[i], questions@[i]),
            _ => r is None,
        },
{
    match &p.kind {
        PromptKind::QuestionRound { questions } => {
            let mut out: Vec<Prompt> = Vec::new();
            let mut i: usize = 0;
            while i < questions.len()
                invariant
                    i <= questions@.len(),
                    out@.len() == i,
                    forall|k: int| 0 <= k < i ==> asks_question(#[trigger] out@[k], questions@[k]),
                decreases questions@.len() - i,
            {
                out.push(question_prompt(&questions[i]));
                i += 1;
            }
            Some(out)
        },
        _ => None,
    }
}

// ------------------------------------------------------------ laws

/// A notification is never answered.
pub proof fn law_notifications_get_no_answer(v: JsonV, version: Seq<char>, images_ok: bool)
    requires
        field(v, "id"@) is None,
    ensures
        !(asked(v, version, images_ok) is Send),
{
}

/// A request that is answered at once carries its own number in the answer.
pub proof fn law_answers_carry_the_number(v: JsonV, version: Seq<char>, images_ok: bool)
    requires
        field(v, "id"@) is Some,
        asked(v, version, images_ok) is Send,
    ensures
        ({
            let sent = asked(v, version, images_ok)->Send_0;
            let id = field(v, "id"@)->0;
            (exists|result: JsonV| sent == #[trigger] answer(id, result)) || (exists|
                code: Seq<char>,
                message: Seq<char>,
            |
                sent == #[trigger] error_answer(id, code, message))
        }),
{
    let id = field(v, "id"@)->0;
    let sent = asked(v, version, images_ok)->Send_0;
    let method = text_field(v, "method"@);
    if method == Some("initialize"@) {
        assert(sent == answer(id, introduction(version, images_ok)));
    } else if method == Some("authenticate"@) {
        assert(sent == answer(id, JsonV::Object(Seq::empty())));
    } else if method == Some("session/load"@) || method == Some("session/prompt"@) {
        assert(sent == error_answer(id, "-32602"@, "missing sessionId"@));
    } else {
        assert(sent == error_answer(id, "-32601"@, "method not found"@));
    }
}

/// An answer that chooses nothing denies: no option is taken for it.
pub proof fn law_only_a_selection_allows(result: JsonV)
    requires
        text_field(inside(result, "outcome"@), "outcome"@) != Some("selected"@),
    ensures
        chosen_option(result) is None,
{
}

/// A permission is granted by its first two options alone.
pub proof fn law_permission_kinds(i: int, count: int)
    requires
        0 <= i < count,
    ensures
        option_kind(true, i, count) == "reject_once"@ <==> i >= 2,
{
    reveal_strlit("allow_once");
    reveal_strlit("allow_always");
    reveal_strlit("reject_once");
    assert("allow_once"@.len() == 10);
    assert("allow_always"@.len() == 12);
    assert("reject_once"@.len() == 11);
}

/// A model that reads no images is shown none.
pub proof fn law_no_images_unless_read(items: Seq<JsonV>)
    ensures
        forall|i: int|
            0 <= i < contents_of(items, false).len() ==> (#[trigger] contents_of(
                items,
                false,
            )[i]) is Text,
    decreases items.len(),
{
    if items.len() > 0 {
        law_no_images_unless_read(items.drop_last());
        let before = contents_of(items.drop_last(), false);
        let after = contents_of(items, false);
        assert forall|i: int| 0 <= i < after.len() implies (#[trigger] after[i]) is Text by {
            if i < before.len() {
                assert(after[i] == before[i]);
            }
        }
    }
}

/// A plan comes with the call that shows it, never instead of it.
pub proof fn law_plan_comes_with_the_call(ev: EventV)
    requires
        plan_of(ev) is Some,
    ensures
        updates_of(ev).len() == 2,
        Some(updates_of(ev)[0]) == update_of(ev),
{
}

// ------------------------------------------------------------ what the client is told

proof fn lemma_names_apart()
    ensures
        "id"@.len() == 2,
        "jsonrpc"@.len() == 7,
        "result"@.len() == 6,
        "error"@.len() == 5,
        "code"@.len() == 4,
        "message"@.len() == 7,
        "method"@.len() == 6,
        "params"@.len() == 6,
        "sessionId"@.len() == 9,
        "update"@.len() == 6,
        "content"@.len() == 7,
        "sessionUpdate"@.len() == 13,
        "text"@.len() == 4,
        "type"@.len() == 4,
        "kind"@.len() == 4,
        "rawInput"@.len() == 8,
        "status"@.len() == 6,
        "title"@.len() == 5,
        "toolCallId"@.len() == 10,
        "name"@.len() == 4,
        "optionId"@.len() == 8,
        "options"@.len() == 7,
        "toolCall"@.len() == 8,
        "priority"@.len() == 8,
        "entries"@.len() == 7,
        "outcome"@.len() == 7,
        "method"@ != "params"@,
        "text"@ != "type"@,
        "kind"@ != "name"@,
        "outcome"@ != "options"@,
{
    reveal_strlit("id");
    reveal_strlit("jsonrpc");
    reveal_strlit("result");
    reveal_strlit("error");
    reveal_strlit("code");
    reveal_strlit("message");
    reveal_strlit("method");
    reveal_strlit("params");
    reveal_strlit("sessionId");
    reveal_strlit("update");
    reveal_strlit("content");
    reveal_strlit("sessionUpdate");
    reveal_strlit("text");
    reveal_strlit("type");
    reveal_strlit("kind");
    reveal_strlit("rawInput");
    reveal_strlit("status");
    reveal_strlit("title");
    reveal_strlit("toolCallId");
    reveal_strlit("name");
    reveal_strlit("optionId");
    reveal_strlit("options");
    reveal_strlit("toolCall");
    reveal_strlit("priority");
    reveal_strlit("entries");
    reveal_strlit("outcome");
    assert("method"@[0] != "params"@[0]);
    assert("text"@[1] != "type"@[1]);
    assert("kind"@[0] != "name"@[0]);
    assert("outcome"@[1] != "options"@[1]);
}

/// Every frame says what it is for: an answer carries the number of its request and
/// the result, a refusal the number and the reason, a request its own number, the
/// method and what goes with it, and a notification no number.
pub proof fn law_frames_say_what_they_are_for(
    id: JsonV,
    n: nat,
    method: Seq<char>,
    value: JsonV,
    code: Seq<char>,
    message: Seq<char>,
)
    ensures
        field(answer(id, value), "id"@) == Some(id),
        field(answer(id, value), "result"@) == Some(value),
        field(answer(id, value), "error"@) is None,
        field(error_answer(id, code, message), "id"@) == Some(id),
        field(error_answer(id, code, message), "result"@) is None,
        field(inside(error_answer(id, code, message), "error"@), "message"@) == Some(
            JsonV::Str(message),
        ),
        field(inside(error_answer(id, code, message), "error"@), "code"@) == Some(
            JsonV::Number(code),
        ),
        field(outgoing(n, method, value), "id"@) == Some(JsonV::Number(decimal(n))),
        field(outgoing(n, method, value), "method"@) == Some(JsonV::Str(method)),
        field(outgoing(n, method, value), "params"@) == Some(value),
        field(notification(method, value), "id"@) is None,
        field(notification(method, value), "method"@) == Some(JsonV::Str(method)),
        field(notification(method, value), "params"@) == Some(value),
{
    lemma_names_apart();
    let a = answer(id, value)->Object_0;
    law_fields_are_found_by_name(a, 0, "error"@);
    law_fields_are_found_by_name(a, 2, "error"@);
    let e = error_answer(id, code, message)->Object_0;
    law_fields_are_found_by_name(e, 0, "result"@);
    law_fields_are_found_by_name(e, 1, "result"@);
    let inner = e[0].1->Object_0;
    law_fields_are_found_by_name(inner, 0, "code"@);
    law_fields_are_found_by_name(inner, 1, "code"@);
    let o = outgoing(n, method, value)->Object_0;
    law_fields_are_found_by_name(o, 0, "id"@);
    law_fields_are_found_by_name(o, 2, "id"@);
    law_fields_are_found_by_name(o, 3, "id"@);
    let t = notification(method, value)->Object_0;
    law_fields_are_found_by_name(t, 1, "id"@);
    law_fields_are_found_by_name(t, 2, "id"@);
}

/// The update shows a piece of text, as one of that kind.
pub open spec fn shows_text(update: JsonV, kind: Seq<char>, text: Seq<char>) -> bool {
    &&& field(update, "sessionUpdate"@) == Some(JsonV::Str(kind))
    &&& field(inside(update, "content"@), "text"@) == Some(JsonV::Str(text))
}

/// The update shows a call: its id, the name of the tool, what goes into it and how
/// far it has come.
pub open spec fn shows_call(
    update: JsonV,
    id: Seq<char>,
    name: Seq<char>,
    input: JsonV,
    status: Seq<char>,
) -> bool {
    &&& field(update, "toolCallId"@) == Some(JsonV::Str(id))
    &&& field(update, "title"@) == Some(JsonV::Str(name))
    &&& field(update, "rawInput"@) == Some(input)
    &&& field(update, "status"@) == Some(JsonV::Str(status))
    &&& field(update, "sessionUpdate"@) == Some(JsonV::Str("tool_call"@))
}

/// The update shows what came of a call: its id, whether it failed, and the result.
pub open spec fn shows_result(
    update: JsonV,
    id: Seq<char>,
    result: Seq<char>,
    is_error: bool,
) -> bool {
    &&& field(update, "toolCallId"@) == Some(JsonV::Str(id))
    &&& field(update, "status"@) == Some(
        JsonV::Str(
            if is_error {
                "failed"@
            } else {
                "completed"@
            },
        ),
    )
    &&& items_field(update, "content"@) is Some
    &&& items_field(update, "content"@)->0.len() == 1
    &&& field(inside(items_field(update, "content"@)->0[0], "content"@), "text"@) == Some(
        JsonV::Str(result),
    )
}

proof fn lemma_chunk_shows(kind: Seq<char>, text: Seq<char>)
    ensures
        shows_text(chunk(kind, text), kind, text),
{
    lemma_names_apart();
    let c = chunk(kind, text)->Object_0;
    law_fields_are_found_by_name(c, 0, "content"@);
    law_fields_are_found_by_name(c, 1, "content"@);
    law_fields_are_found_by_name(c[0].1->Object_0, 0, "text"@);
}

proof fn lemma_call_shows(id: Seq<char>, name: Seq<char>, input: JsonV, status: Seq<char>)
    ensures
        shows_call(call_update(id, name, input, status), id, name, input, status),
{
    lemma_names_apart();
    let c = call_update(id, name, input, status)->Object_0;
    law_fields_are_found_by_name(c, 1, "kind"@);
    law_fields_are_found_by_name(c, 2, "kind"@);
    law_fields_are_found_by_name(c, 3, "kind"@);
    law_fields_are_found_by_name(c, 4, "kind"@);
    law_fields_are_found_by_name(c, 5, "kind"@);
}

proof fn lemma_result_shows(id: Seq<char>, result: Seq<char>, is_error: bool)
    ensures
        shows_result(result_update(id, result, is_error), id, result, is_error),
{
    lemma_names_apart();
    let c = result_update(id, result, is_error)->Object_0;
    law_fields_are_found_by_name(c, 0, "content"@);
    law_fields_are_found_by_name(c, 2, "content"@);
    law_fields_are_found_by_name(c, 3, "content"@);
    let item = c[0].1->Array_0[0]->Object_0;
    law_fields_are_found_by_name(item, 0, "content"@);
    law_fields_are_found_by_name(item[0].1->Object_0, 0, "text"@);
}

/// What happens in a run is shown to the client as it is: every piece of text and of
/// thought, every call with its input, every result with whether it failed, every
/// failure and every notice.
pub proof fn law_events_are_shown(
    text: Seq<char>,
    id: Seq<char>,
    name: Seq<char>,
    input: JsonV,
    is_error: bool,
    ev: EventV,
)
    ensures
        ({
            let u = update_of(EventV::TextChunk(text));
            u is Some && shows_text(u->0, "agent_message_chunk"@, text)
        }),
        ({
            let u = update_of(EventV::ThinkingChunk(text));
            u is Some && shows_text(u->0, "agent_thought_chunk"@, text)
        }),
        ({
            let u = update_of(EventV::ToolCallStart { id, name, input });
            u is Some && shows_call(u->0, id, name, input, "in_progress"@)
        }),
        ({
            let u = update_of(EventV::ToolCallEnd { id, name, result: text, is_error });
            u is Some && shows_result(u->0, id, text, is_error)
        }),
        ({
            let u = update_of(EventV::Error(text));
            u is Some && exists|t: Seq<char>|
                #[trigger] shows_text(u->0, "agent_message_chunk"@, t) && ends(t, text)
        }),
        ev is Notice ==> update_of(ev) is Some && shows_text(
            update_of(ev)->0,
            "agent_message_chunk"@,
            ev->Notice_text,
        ),
        updates_of(ev).len() >= 1 <==> update_of(ev) is Some,
        update_of(ev) is Some ==> updates_of(ev)[0] == update_of(ev)->0,
{
    lemma_chunk_shows("agent_message_chunk"@, text);
    lemma_chunk_shows("agent_thought_chunk"@, text);
    lemma_call_shows(id, name, input, "in_progress"@);
    lemma_result_shows(id, text, is_error);
    let t = "⚠ "@ + text;
    assert(t.subrange(t.len() - text.len(), t.len() as int) =~= text);
    lemma_chunk_shows("agent_message_chunk"@, t);
    assert(shows_text(update_of(EventV::Error(text))->0, "agent_message_chunk"@, t));
    if ev is Notice {
        lemma_chunk_shows("agent_message_chunk"@, ev->Notice_text);
    }
}

/// The frame shows a block of an old message in that session.
pub open spec fn shows_block(frame: JsonV, session_id: Seq<char>, role: Role, b: BlockV) -> bool {
    let params = inside(frame, "params"@);
    let update = inside(params, "update"@);
    &&& field(frame, "method"@) == Some(JsonV::Str("session/update"@))
    &&& field(params, "sessionId"@) == Some(JsonV::Str(session_id))
    &&& match b {
        BlockV::Text { text } => shows_text(
            update,
            if role == Role::User {
                "user_message_chunk"@
            } else {
                "agent_message_chunk"@
            },
            text,
        ),
        BlockV::ToolUse { id, name, input } => shows_call(update, id, name, input, "completed"@),
        BlockV::ToolResult { tool_use_id, content, is_error } => shows_result(
            update,
            tool_use_id,
            content,
            is_error,
        ),
        _ => false,
    }
}

proof fn lemma_block_is_shown(session_id: Seq<char>, role: Role, b: BlockV)
    requires
        b is Text || b is ToolUse || b is ToolResult,
    ensures
        replayed(role, b) is Some,
        shows_block(update_frame(session_id, replayed(role, b)->0), session_id, role, b),
{
    let u = replayed(role, b)->0;
    let params = JsonV::Object(seq![("sessionId"@, JsonV::Str(session_id)), ("update"@, u)]);
    law_frames_say_what_they_are_for(u, 0, "session/update"@, params, ""@, ""@);
    lemma_names_apart();
    law_fields_are_found_by_name(params->Object_0, 0, "update"@);
    law_fields_are_found_by_name(params->Object_0, 1, "update"@);
    match b {
        BlockV::Text { text } => {
            lemma_chunk_shows(
                if role == Role::User {
                    "user_message_chunk"@
                } else {
                    "agent_message_chunk"@
                },
                text,
            );
        },
        BlockV::ToolUse { id, name, input } => {
            lemma_call_shows(id, name, input, "completed"@);
        },
        BlockV::ToolResult { tool_use_id, content, is_error } => {
            lemma_result_shows(tool_use_id, content, is_error);
        },
        _ => {},
    }
}

/// How many blocks of a message the client can be shown.
pub open spec fn showable(content: Seq<BlockV>) -> nat
    decreases content.len(),
{
    if content.len() == 0 {
        0
    } else {
        showable(content.drop_last()) + (if content.last() is Text || content.last() is ToolUse
            || content.last() is ToolResult {
            1nat
        } else {
            0
        })
    }
}

proof fn lemma_all_replayed(role: Role, content: Seq<BlockV>, j: int)
    requires
        0 <= j < content.len(),
        content[j] is Text || content[j] is ToolUse || content[j] is ToolResult,
    ensures
        ({
            let all = all_replayed(role, content);
            let at = all_replayed(role, content.take(j)).len() as int;
            at < all.len() && replayed(role, content[j]) == Some(all[at])
        }),
    decreases content.len(),
{
    let front = content.drop_last();
    if j < content.len() - 1 {
        lemma_all_replayed(role, front, j);
        assert(front.take(j) =~= content.take(j));
    } else {
        assert(content.take(j) =~= front);
    }
}

proof fn lemma_showable(role: Role, content: Seq<BlockV>)
    ensures
        all_replayed(role, content).len() == showable(content),
    decreases content.len(),
{
    if content.len() > 0 {
        lemma_showable(role, content.drop_last());
    }
}

/// The frames of two parts of a transcript follow each other.
pub proof fn law_replays_add_up(session_id: Seq<char>, a: Seq<MessageV>, b: Seq<MessageV>)
    ensures
        replay_frames(session_id, a + b) == replay_frames(session_id, a) + replay_frames(
            session_id,
            b,
        ),
    decreases b.len(),
{
    if b.len() == 0 {
        assert(a + b =~= a);
        assert(replay_frames(session_id, b) =~= Seq::empty());
        assert(replay_frames(session_id, a) + Seq::empty() =~= replay_frames(session_id, a));
    } else {
        law_replays_add_up(session_id, a, b.drop_last());
        assert((a + b).drop_last() =~= a + b.drop_last());
        assert((a + b).last() == b.last());
        let last = frames(session_id, all_replayed(b.last().role, b.last().content));
        assert((replay_frames(session_id, a) + replay_frames(session_id, b.drop_last())) + last
            =~= replay_frames(session_id, a) + (replay_frames(session_id, b.drop_last()) + last));
    }
}

/// A message is shown by as many frames as it has blocks that can be shown, and each
/// of these blocks has one, in the order of the blocks.
pub proof fn law_every_block_is_replayed(session_id: Seq<char>, m: MessageV, j: int)
    ensures
        replay_frames(session_id, seq![m]).len() == showable(m.content),
        0 <= j < m.content.len() && (m.content[j] is Text || m.content[j] is ToolUse
            || m.content[j] is ToolResult) ==> exists|at: int|
            0 <= at < showable(m.content) && #[trigger] shows_block(
                replay_frames(session_id, seq![m])[at],
                session_id,
                m.role,
                m.content[j],
            ) && at == showable(m.content.take(j)),
{
    let one = seq![m];
    let ups = all_replayed(m.role, m.content);
    assert(one.drop_last() =~= Seq::empty());
    assert(replay_frames(session_id, one.drop_last()) =~= Seq::empty());
    assert(replay_frames(session_id, one) =~= frames(session_id, ups));
    lemma_showable(m.role, m.content);
    if 0 <= j < m.content.len() && (m.content[j] is Text || m.content[j] is ToolUse
        || m.content[j] is ToolResult) {
        lemma_all_replayed(m.role, m.content, j);
        lemma_showable(m.role, m.content.take(j));
        lemma_block_is_shown(session_id, m.role, m.content[j]);
        let at = all_replayed(m.role, m.content.take(j)).len() as int;
        assert(replay_frames(session_id, one)[at] == update_frame(session_id, ups[at]));
        assert(shows_block(
            replay_frames(session_id, one)[at],
            session_id,
            m.role,
            m.content[j],
        ));
    }
}

/// A loaded session is shown and answered; one that cannot be loaded is refused with
/// the reason, under the number of the request.
pub proof fn law_loading_is_answered(
    id: JsonV,
    session_id: Seq<char>,
    msgs: Seq<MessageV>,
    error: Seq<char>,
)
    ensures
        ({
            let sent = load_frames(id, session_id, Ok(msgs));
            &&& sent.drop_last() == replay_frames(session_id, msgs)
            &&& field(sent.last(), "id"@) == Some(id)
            &&& field(sent.last(), "result"@) is Some
        }),
        ({
            let sent = load_frames(id, session_id, Err(error));
            &&& sent.len() == 1
            &&& field(sent[0], "id"@) == Some(id)
            &&& text_field(inside(sent[0], "error"@), "message"@) is Some
            &&& ends(text_field(inside(sent[0], "error"@), "message"@)->0, error)
        }),
{
    let empty = JsonV::Object(Seq::empty());
    let t = "load failed: "@ + error;
    law_frames_say_what_they_are_for(id, 0, ""@, empty, "-32603"@, t);
    assert(load_frames(id, session_id, Ok(msgs)).drop_last() =~= replay_frames(session_id, msgs));
    assert(t.subrange(t.len() - error.len(), t.len() as int) =~= error);
    let sent = load_frames(id, session_id, Err(error));
    assert(field(inside(sent[0], "error"@), "message"@) == Some(JsonV::Str(t)));
}

// ------------------------------------------------------------ what the client says

/// What the parts of a prompt say follows each other.
pub proof fn law_prompts_add_up(a: Seq<JsonV>, b: Seq<JsonV>, images_ok: bool)
    ensures
        contents_of(a + b, images_ok) == contents_of(a, images_ok) + contents_of(b, images_ok),
    decreases b.len(),
{
    if b.len() == 0 {
        assert(a + b =~= a);
        assert(contents_of(a, images_ok) + Seq::empty() =~= contents_of(a, images_ok));
    } else {
        law_prompts_add_up(a, b.drop_last(), images_ok);
        assert((a + b).drop_last() =~= a + b.drop_last());
        assert((a + b).last() == b.last());
        let (x, y) = (contents_of(a, images_ok), contents_of(b.drop_last(), images_ok));
        if let Some(c) = content_of(b.last(), images_ok) {
            assert((x + y).push(c) =~= x + y.push(c));
        }
    }
}

proof fn lemma_kinds_apart()
    ensures
        "text"@ != "image"@,
        "text"@ != "resource_link"@,
        "text"@ != "resource"@,
        "image"@ != "resource_link"@,
        "image"@ != "resource"@,
        "resource_link"@ != "resource"@,
{
    reveal_strlit("text");
    reveal_strlit("image");
    reveal_strlit("resource_link");
    reveal_strlit("resource");
    assert("text"@.len() == 4 && "image"@.len() == 5);
    assert("resource_link"@.len() == 13 && "resource"@.len() == 8);
}

/// What the user wrote is said to the model word for word; an image goes with it where
/// the model reads them; a resource is handed on by its text, or named.
pub proof fn law_users_words_are_kept(b: JsonV, t: Seq<char>, images_ok: bool)
    ensures
        ({
            let c = contents_of(seq![b], images_ok);
            let kind = field(b, "type"@);
            &&& kind == Some(JsonV::Str("text"@)) && field(b, "text"@) == Some(JsonV::Str(t)) ==> c
                == seq![BlockV::Text { text: t }]
            &&& kind == Some(JsonV::Str("resource"@)) && field(
                inside(b, "resource"@),
                "text"@,
            ) == Some(JsonV::Str(t)) ==> c == seq![BlockV::Text { text: t }]
            &&& kind == Some(JsonV::Str("resource_link"@)) && field(b, "uri"@) == Some(
                JsonV::Str(t),
            ) ==> c.len() == 1 && c[0] is Text && holds(c[0]->text, t)
            &&& kind == Some(JsonV::Str("image"@)) && images_ok && field(b, "data"@) == Some(
                JsonV::Str(t),
            ) && text_field(b, "mimeType"@) is Some ==> c == seq![
                BlockV::Image { media_type: text_field(b, "mimeType"@)->0, data: t },
            ]
        }),
{
    lemma_kinds_apart();
    let one = seq![b];
    assert(one.drop_last() =~= Seq::empty());
    assert(contents_of(one.drop_last(), images_ok) =~= Seq::empty());
    let c = contents_of(one, images_ok);
    if let Some(x) = content_of(b, images_ok) {
        assert(c =~= seq![x]);
    }
    if text_field(b, "uri"@) == Some(t) {
        let all = "[resource: "@ + t + "]"@;
        let at = "[resource: "@.len() as int;
        assert(all.subrange(at, at + t.len()) =~= t);
        assert(occurs_at(all, t, at));
    }
}

proof fn lemma_methods_apart()
    ensures
        "session/cancel"@ != "initialize"@,
        "session/cancel"@ != "session/new"@,
        "session/cancel"@ != "session/load"@,
        "session/cancel"@ != "session/prompt"@,
        "initialize"@ != "session/new"@,
        "initialize"@ != "session/load"@,
        "initialize"@ != "session/prompt"@,
        "authenticate"@ != "session/new"@,
        "authenticate"@ != "session/load"@,
        "authenticate"@ != "session/prompt"@,
        "session/new"@ != "session/load"@,
        "session/new"@ != "session/prompt"@,
        "session/load"@ != "session/prompt"@,
{
    reveal_strlit("session/cancel");
    reveal_strlit("initialize");
    reveal_strlit("authenticate");
    reveal_strlit("session/new");
    reveal_strlit("session/load");
    reveal_strlit("session/prompt");
    assert("session/cancel"@[8] != "session/prompt"@[8]);
    assert("authenticate"@[0] != "session/load"@[0]);
    assert("session/cancel"@.len() == 14 && "session/prompt"@.len() == 14);
    assert("initialize"@.len() == 10 && "authenticate"@.len() == 12);
    assert("session/new"@.len() == 11 && "session/load"@.len() == 12);
}

/// A prompt is run in the session that it names, with what the user says in it; a
/// session is opened, loaded or cancelled where the client asks for that. Where the
/// session is not named, the client is told so.
pub proof fn law_requests_are_taken(
    v: JsonV,
    id: JsonV,
    session: Seq<char>,
    version: Seq<char>,
    images_ok: bool,
)
    requires
        field(v, "id"@) == Some(id),
    ensures
        ({
            let a = taken(v, version, images_ok);
            let method = field(v, "method"@);
            let named = field(inside(v, "params"@), "sessionId"@);
            let here = named == Some(JsonV::Str(session));
            &&& method == Some(JsonV::Str("session/prompt"@)) && here ==> a is Prompt
                && a->Prompt_id == id && a->Prompt_session_id == session && a->content == said(
                field(inside(v, "params"@), "prompt"@),
                images_ok,
            )
            &&& method == Some(JsonV::Str("session/load"@)) && here ==> a == ActionV::LoadSession {
                id,
                session_id: session,
            }
            &&& method == Some(JsonV::Str("session/cancel"@)) && here ==> a == ActionV::Cancel {
                session_id: session,
            }
            &&& method == Some(JsonV::Str("session/new"@)) ==> a == ActionV::NewSession { id }
            &&& (method == Some(JsonV::Str("session/prompt"@)) || method == Some(
                JsonV::Str("session/load"@),
            )) && named is None ==> a is Send && field(a->Send_0, "id"@) == Some(id) && field(
                a->Send_0,
                "error"@,
            ) is Some
            &&& method is Some ==> !(a is Resolve)
        }),
{
    lemma_methods_apart();
    lemma_names_apart();
    let e = error_answer(id, "-32602"@, "missing sessionId"@);
    law_frames_say_what_they_are_for(id, 0, ""@, e, "-32602"@, "missing sessionId"@);
    law_fields_are_found_by_name(e->Object_0, 0, "error"@);
}

/// An answer to a request of our own is handed to it as it came.
pub proof fn law_answers_find_their_request(
    v: JsonV,
    n: nat,
    version: Seq<char>,
    images_ok: bool,
)
    requires
        field(v, "method"@) is None,
        field(v, "id"@) == Some(JsonV::Number(decimal(n))),
        n <= u64::MAX,
    ensures
        taken(v, version, images_ok) == (ActionV::Resolve { id: n, response: v }),
{
    law_numbers_are_read_back(n, n, u64::MAX as nat);
}

/// The option that the client names is the one that was offered under that name: to
/// choose the `i`-th is to reply with `i`.
pub proof fn law_choice_is_the_one_offered(
    options: Seq<Seq<char>>,
    permission: bool,
    i: int,
    result: JsonV,
)
    requires
        0 <= i < options.len() <= usize::MAX,
        field(inside(result, "outcome"@), "outcome"@) == Some(JsonV::Str("selected"@)),
        field(inside(result, "outcome"@), "optionId"@) == field(
            option_list(options, permission)[i],
            "optionId"@,
        ),
    ensures
        chosen_option(result) == Some(i as nat),
        field(option_list(options, permission)[i], "name"@) == Some(JsonV::Str(options[i])),
        option_list(options, permission).len() == options.len(),
{
    lemma_names_apart();
    let o = option_list(options, permission)[i]->Object_0;
    law_fields_are_found_by_name(o, 1, "name"@);
    law_fields_are_found_by_name(o, 2, "name"@);
    law_numbers_are_read_back(i as nat, 0, usize::MAX as nat);
}

/// A prompt is put to the client with its title, its detail and all its options, in
/// the session that it belongs to.
pub proof fn law_prompts_are_put(
    session_id: Seq<char>,
    title: Seq<char>,
    detail: Seq<char>,
    options: Seq<Seq<char>>,
    permission: bool,
)
    ensures
        ({
            let r = permission_request(session_id, title, Some(detail), options, permission);
            let call = inside(r, "toolCall"@);
            &&& field(r, "sessionId"@) == Some(JsonV::Str(session_id))
            &&& field(r, "options"@) == Some(JsonV::Array(option_list(options, permission)))
            &&& field(call, "title"@) == Some(JsonV::Str(title))
            &&& exists|d: JsonV|
                field(call, "rawInput"@) == Some(d) && #[trigger] field(d, "detail"@) == Some(
                    JsonV::Str(detail),
                )
        }),
{
    lemma_names_apart();
    let r = permission_request(session_id, title, Some(detail), options, permission)->Object_0;
    law_fields_are_found_by_name(r, 0, "options"@);
    law_fields_are_found_by_name(r, 1, "options"@);
    law_fields_are_found_by_name(r, 2, "options"@);
    let c = r[2].1->Object_0;
    law_fields_are_found_by_name(c, 1, "kind"@);
    law_fields_are_found_by_name(c, 3, "kind"@);
    let d = c[1].1;
    law_fields_are_found_by_name(d->Object_0, 0, "detail"@);
    assert(field(d, "detail"@) == Some(JsonV::Str(detail)));
}

/// A plan has an entry for every step of the model's list, in order, with its text and
/// how far it has come.
pub proof fn law_plan_keeps_the_steps(items: Seq<JsonV>, i: int)
    requires
        plan_entries(items) is Some,
        0 <= i < items.len(),
    ensures
        ({
            let entries = plan_entries(items)->0;
            &&& entries.len() == items.len()
            &&& field(items[i], "content"@) is Some
            &&& field(items[i], "status"@) is Some
            &&& field(entries[i], "content"@) == field(items[i], "content"@)
            &&& field(entries[i], "status"@) == field(items[i], "status"@)
        }),
    decreases items.len(),
{
    lemma_names_apart();
    let front = items.drop_last();
    if i < front.len() {
        law_plan_keeps_the_steps(front, i);
    } else {
        if front.len() > 0 {
            law_plan_keeps_the_steps(front, 0);
        }
        let e = plan_entries(items)->0[i]->Object_0;
        law_fields_are_found_by_name(e, 0, "content"@);
        law_fields_are_found_by_name(e, 2, "content"@);
    }
}

} // verus!
