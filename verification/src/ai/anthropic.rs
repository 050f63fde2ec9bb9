//! The Anthropic API: the request that a transcript becomes, and the client's
//! own state.
use vstd::prelude::*;
use crate::ai::{
    asked_window, env_context_window, low32, setting_view, to_u32, tool_specs, ToolSpec, ToolSpecV,
};
use crate::json::{
    add_field, add_item, arr, boolean, field, field_views, inside, js, json_u64, json_views,
    law_fields_are_found_by_name, lemma_field_is_set, lemma_other_field_stays, no_fields, no_items, num, number_in, obj, object1, object2, object3, object4, set_field, text_field,
    whole_field, with_field, Json, JsonV,
};
use crate::text::{cat2, cat3, decimal, same, trim_trailing, without_trailing};
use crate::types::{
    blocks, extract_text, text_of_blocks, transcript, BlockV, ContentBlock, Message, MessageV, Role,
};

verus! {

// ------------------------------------------------------------ blocks

/// The mark for the prompt cache.
pub open spec fn ephemeral() -> JsonV {
    JsonV::Object(seq![("type"@, JsonV::Str("ephemeral"@))])
}

fn ephemeral_mark() -> (r: Json)
    ensures
        r@ == ephemeral(),
{
    object1("type", js("ephemeral"))
}

/// A block of text.
pub open spec fn text_part(text: Seq<char>) -> JsonV {
    JsonV::Object(seq![("text"@, JsonV::Str(text)), ("type"@, JsonV::Str("text"@))])
}

/// A block of text with the mark for the prompt cache.
pub open spec fn cached_text(text: Seq<char>) -> JsonV {
    JsonV::Object(
        seq![
            ("cache_control"@, ephemeral()),
            ("text"@, JsonV::Str(text)),
            ("type"@, JsonV::Str("text"@)),
        ],
    )
}

fn cached_text_part(text: &str) -> (r: Json)
    ensures
        r@ == cached_text(text@),
{
    object3("cache_control", ephemeral_mark(), "text", js(text), "type", js("text"))
}

/// What a block becomes in a message of the given role; `None` where such a
/// message does not carry it. Empty text of the model is left out.
pub open spec fn part(role: Role, b: BlockV) -> Option<JsonV> {
    match (role, b) {
        (Role::User, BlockV::Text { text }) => Some(text_part(text)),
        (Role::User, BlockV::Image { media_type, data }) => Some(
            JsonV::Object(
                seq![
                    (
                        "source"@,
                        JsonV::Object(
                            seq![
                                ("data"@, JsonV::Str(data)),
                                ("media_type"@, JsonV::Str(media_type)),
                                ("type"@, JsonV::Str("base64"@)),
                            ],
                        ),
                    ),
                    ("type"@, JsonV::Str("image"@)),
                ],
            ),
        ),
        (Role::Assistant, BlockV::Text { text }) => if text.len() > 0 {
            Some(text_part(text))
        } else {
            None
        },
        (Role::Assistant, BlockV::Thinking { thinking }) => Some(
            JsonV::Object(
                seq![("thinking"@, JsonV::Str(thinking)), ("type"@, JsonV::Str("thinking"@))],
            ),
        ),
        (Role::Assistant, BlockV::ToolUse { id, name, input }) => Some(
            JsonV::Object(
                seq![
                    ("id"@, JsonV::Str(id)),
                    ("input"@, input),
                    ("name"@, JsonV::Str(name)),
                    ("type"@, JsonV::Str("tool_use"@)),
                ],
            ),
        ),
        (Role::Tool, BlockV::ToolResult { tool_use_id, content, is_error }) => Some(
            JsonV::Object(
                seq![
                    ("content"@, JsonV::Str(content)),
                    ("is_error"@, JsonV::Bool(is_error)),
                    ("tool_use_id"@, JsonV::Str(tool_use_id)),
                    ("type"@, JsonV::Str("tool_result"@)),
                ],
            ),
        ),
        _ => None,
    }
}

fn part_of(role: Role, b: &ContentBlock) -> (r: Option<Json>)
    ensures
        match r {
            Some(j) => part(role, b@) == Some(j@),
            None => part(role, b@) is None,
        },
{
    match (role, b) {
        (Role::User, ContentBlock::Text { text }) => Some(
            object2("text", js(text.as_str()), "type", js("text")),
        ),
        (Role::User, ContentBlock::Image { media_type, data }) => {
            let source = object3(
                "data",
                js(data.as_str()),
                "media_type",
                js(media_type.as_str()),
                "type",
                js("base64"),
            );
            Some(object2("source", source, "type", js("image")))
        },
        (Role::Assistant, ContentBlock::Text { text }) => {
            if text.as_str().is_empty() {
                None
            } else {
                Some(object2("text", js(text.as_str()), "type", js("text")))
            }
        },
        (Role::Assistant, ContentBlock::Thinking { thinking }) => Some(
            object2("thinking", js(thinking.as_str()), "type", js("thinking")),
        ),
        (Role::Assistant, ContentBlock::ToolUse { id, name, input }) => Some(
            object4(
                "id",
                js(id.as_str()),
                "input",
                input.clone(),
                "name",
                js(name.as_str()),
                "type",
                js("tool_use"),
            ),
        ),
        (Role::Tool, ContentBlock::ToolResult { tool_use_id, content, is_error }) => Some(
            object4(
                "content",
                js(content.as_str()),
                "is_error",
                boolean(*is_error),
                "tool_use_id",
                js(tool_use_id.as_str()),
                "type",
                js("tool_result"),
            ),
        ),
        _ => None,
    }
}

/// What the blocks of a message become.
pub open spec fn parts(role: Role, content: Seq<BlockV>) -> Seq<JsonV>
    decreases content.len(),
{
    if content.len() == 0 {
        Seq::empty()
    } else {
        let before = parts(role, content.drop_last());
        match part(role, content.last()) {
            Some(p) => before.push(p),
            None => before,
        }
    }
}

fn parts_of(role: Role, content: &Vec<ContentBlock>) -> (r: Vec<Json>)
    ensures
        json_views(r@) == parts(role, blocks(content@)),
{
    let ghost bs = blocks(content@);
    let mut out = no_items();
    let mut i: usize = 0;
    assert(bs.take(0) =~= Seq::empty());
    while i < content.len()
        invariant
            i <= content@.len(),
            bs == blocks(content@),
            json_views(out@) == parts(role, bs.take(i as int)),
        decreases content@.len() - i,
    {
        assert(bs.take(i + 1).drop_last() =~= bs.take(i as int));
        assert(bs.take(i + 1).last() == content@[i as int]@);
        if let Some(p) = part_of(role, &content[i]) {
            add_item(&mut out, p);
        }
        i += 1;
    }
    assert(bs.take(i as int) =~= bs);
    out
}

// ------------------------------------------------------------ messages

/// The content of a message of the user: a plain text where it is one text,
/// else its blocks.
pub open spec fn user_content(content: Seq<BlockV>) -> JsonV {
    let ps = parts(Role::User, content);
    if ps.len() == 1 && text_field(ps[0], "type"@) == Some("text"@) {
        JsonV::Str(text_of_blocks(content))
    } else {
        JsonV::Array(ps)
    }
}

/// The messages with the results of some tools: they join the message before
/// them where it is one of the user's that holds blocks.
pub open spec fn with_results(before: Seq<(bool, JsonV)>, results: Seq<JsonV>) -> Seq<
    (bool, JsonV),
> {
    match before.last() {
        (true, JsonV::Array(items)) => if before.len() > 0 {
            before.update(before.len() - 1, (true, JsonV::Array(items + results)))
        } else {
            before.push((true, JsonV::Array(results)))
        },
        _ => before.push((true, JsonV::Array(results))),
    }
}

/// The messages of the request: whether the user speaks, and the content. The
/// system prompt is none of them, and tool results are the user's.
pub open spec fn sent(msgs: Seq<MessageV>) -> Seq<(bool, JsonV)>
    decreases msgs.len(),
{
    if msgs.len() == 0 {
        Seq::empty()
    } else {
        let before = sent(msgs.drop_last());
        let m = msgs.last();
        match m.role {
            Role::System => before,
            Role::User => before.push((true, user_content(m.content))),
            Role::Assistant => before.push(
                (false, JsonV::Array(parts(Role::Assistant, m.content))),
            ),
            Role::Tool => with_results(before, parts(Role::Tool, m.content)),
        }
    }
}

/// The last system prompt.
pub open spec fn system_of(msgs: Seq<MessageV>) -> Option<Seq<char>>
    decreases msgs.len(),
{
    if msgs.len() == 0 {
        None
    } else if msgs.last().role == Role::System {
        Some(text_of_blocks(msgs.last().content))
    } else {
        system_of(msgs.drop_last())
    }
}

/// What some messages of the request stand for.
pub open spec fn sent_views(v: Seq<(bool, Json)>) -> Seq<(bool, JsonV)> {
    v.map_values(|m: (bool, Json)| (m.0, m.1@))
}

fn content_of_user(content: &Vec<ContentBlock>) -> (r: Json)
    ensures
        r@ == user_content(blocks(content@)),
{
    let ps = parts_of(Role::User, content);
    assert(json_views(ps@).len() == ps@.len());
    if ps.len() == 1 {
        assert(json_views(ps@)[0] == ps@[0]@);
        if let Some(t) = ps[0].str_at("type") {
            if same(t, "text") {
                return js(extract_text(content).as_str());
            }
        }
    }
    arr(ps)
}

fn push_sent(out: &mut Vec<(bool, Json)>, from_user: bool, content: Json)
    ensures
        sent_views(final(out)@) == sent_views(old(out)@).push((from_user, content@)),
{
    let ghost before = sent_views(out@);
    let ghost c = content@;
    out.push((from_user, content));
    assert(sent_views(out@) =~= before.push((from_user, c)));
}

fn add_results(out: &mut Vec<(bool, Json)>, results: Vec<Json>)
    ensures
        sent_views(final(out)@) == with_results(sent_views(old(out)@), json_views(results@)),
{
    let ghost before = sent_views(out@);
    let ghost rs = json_views(results@);
    let size: usize = out.len();
    if size > 0 {
        assert(before.last() == (out@[size - 1].0, out@[size - 1].1@));
        if out[size - 1].0 {
            if let Some(items) = out[size - 1].1.as_array() {
                let ghost js0 = json_views(items@);
                let mut all = no_items();
                let mut i: usize = 0;
                assert(js0.take(0) =~= Seq::empty());
                while i < items.len()
                    invariant
                        i <= items@.len(),
                        js0 == json_views(items@),
                        json_views(all@) == js0.take(i as int),
                    decreases items@.len() - i,
                {
                    assert(js0[i as int] == items@[i as int]@);
                    add_item(&mut all, items[i].clone());
                    assert(js0.take(i as int).push(js0[i as int]) =~= js0.take(i + 1));
                    i += 1;
                }
                assert(js0.take(i as int) =~= js0);
                let mut k: usize = 0;
                assert(js0 + rs.take(0) =~= js0);
                while k < results.len()
                    invariant
                        k <= results@.len(),
                        rs == json_views(results@),
                        json_views(all@) == js0 + rs.take(k as int),
                    decreases results@.len() - k,
                {
                    assert(rs[k as int] == results@[k as int]@);
                    add_item(&mut all, results[k].clone());
                    assert((js0 + rs.take(k as int)).push(rs[k as int]) =~= js0 + rs.take(k + 1));
                    k += 1;
                }
                assert(rs.take(k as int) =~= rs);
                let joined_up = arr(all);
                let ghost jv = joined_up@;
                out.set(size - 1, (true, joined_up));
                assert(sent_views(out@) =~= before.update(size - 1, (true, jv)));
                return ;
            }
        }
    }
    push_sent(out, true, arr(results));
}

fn collect_sent(messages: &Vec<Message>) -> (r: (Vec<(bool, Json)>, Option<String>))
    ensures
        sent_views(r.0@) == sent(transcript(messages@)),
        crate::checks::text_view(r.1) == system_of(transcript(messages@)),
{
    let ghost ms = transcript(messages@);
    let mut out: Vec<(bool, Json)> = Vec::new();
    let mut system: Option<String> = None;
    let mut i: usize = 0;
    assert(ms.take(0) =~= Seq::empty());
    assert(sent_views(out@) =~= Seq::empty());
    while i < messages.len()
        invariant
            i <= messages@.len(),
            ms == transcript(messages@),
            sent_views(out@) == sent(ms.take(i as int)),
            crate::checks::text_view(system) == system_of(ms.take(i as int)),
        decreases messages@.len() - i,
    {
        assert(ms.take(i + 1).drop_last() =~= ms.take(i as int));
        assert(ms.take(i + 1).last() == messages@[i as int]@);
        let content = &messages[i].content;
        match messages[i].role {
            Role::System => {
                system = Some(extract_text(content));
            },
            Role::User => {
                push_sent(&mut out, true, content_of_user(content));
            },
            Role::Assistant => {
                push_sent(&mut out, false, arr(parts_of(Role::Assistant, content)));
            },
            Role::Tool => {
                add_results(&mut out, parts_of(Role::Tool, content));
            },
        }
        i += 1;
    }
    assert(ms.take(i as int) =~= ms);
    (out, system)
}

// ------------------------------------------------------------ the prompt cache

/// An object with the mark for the prompt cache.
pub open spec fn marked(v: JsonV) -> JsonV {
    match v {
        JsonV::Object(fields) => JsonV::Object(with_field(fields, "cache_control"@, ephemeral())),
        _ => v,
    }
}

fn mark(v: &Json) -> (r: Json)
    ensures
        r@ == marked(v@),
{
    match v.as_object() {
        Some(fields) => {
            let ghost fs = field_views(fields@);
            let mut out = no_fields();
            let mut i: usize = 0;
            assert(fs.take(0) =~= Seq::empty());
            while i < fields.len()
                invariant
                    i <= fields@.len(),
                    fs == field_views(fields@),
                    field_views(out@) == fs.take(i as int),
                decreases fields@.len() - i,
            {
                assert(fs[i as int] == (fields@[i as int].0@, fields@[i as int].1@));
                add_field(&mut out, fields[i].0.as_str(), fields[i].1.clone());
                assert(fs.take(i as int).push(fs[i as int]) =~= fs.take(i + 1));
                i += 1;
            }
            assert(fs.take(i as int) =~= fs);
            set_field(&mut out, "cache_control".to_owned(), ephemeral_mark());
            obj(out)
        },
        None => v.clone(),
    }
}

/// The items with the mark on the last of them.
pub open spec fn last_marked(items: Seq<JsonV>) -> Seq<JsonV> {
    if items.len() > 0 {
        items.update(items.len() - 1, marked(items.last()))
    } else {
        items
    }
}

fn mark_last(items: &Vec<Json>) -> (r: Vec<Json>)
    ensures
        json_views(r@) == last_marked(json_views(items@)),
{
    let ghost js0 = json_views(items@);
    let mut out = no_items();
    let mut i: usize = 0;
    let size: usize = items.len();
    while i < items.len()
        invariant
            i <= items@.len() == size,
            js0 == json_views(items@),
            json_views(out@).len() == i,
            forall|k: int|
                0 <= k < i ==> #[trigger] json_views(out@)[k] == last_marked(js0)[k],
        decreases items@.len() - i,
    {
        assert(js0[i as int] == items@[i as int]@);
        let ghost before = json_views(out@);
        if i + 1 == size {
            add_item(&mut out, mark(&items[i]));
        } else {
            add_item(&mut out, items[i].clone());
        }
        assert forall|k: int| 0 <= k < i + 1 implies #[trigger] json_views(out@)[k]
            == last_marked(js0)[k] by {
            if k < i {
                assert(json_views(out@)[k] == before[k]);
            }
        }
        i += 1;
    }
    assert(json_views(out@) =~= last_marked(js0));
    out
}

/// The content with the mark on its last block; a plain text becomes a block,
/// for only blocks carry the mark.
pub open spec fn cached_content(content: JsonV) -> JsonV {
    match content {
        JsonV::Str(t) => JsonV::Array(seq![cached_text(t)]),
        JsonV::Array(items) => JsonV::Array(last_marked(items)),
        _ => content,
    }
}

fn cache_content(content: &Json) -> (r: Json)
    ensures
        r@ == cached_content(content@),
{
    match content.as_str() {
        Some(t) => {
            let mut items = no_items();
            add_item(&mut items, cached_text_part(t));
            assert(json_views(items@) =~= seq![cached_text(t@)]);
            arr(items)
        },
        None => match content.as_array() {
            Some(items) => arr(mark_last(items)),
            None => content.clone(),
        },
    }
}

/// A message of the request.
pub open spec fn message_json(m: (bool, JsonV)) -> JsonV {
    JsonV::Object(
        seq![
            ("content"@, m.1),
            (
                "role"@,
                JsonV::Str(
                    if m.0 {
                        "user"@
                    } else {
                        "assistant"@
                    },
                ),
            ),
        ],
    )
}

/// The messages of the request; with the cache, the last of them carries the
/// mark, so that the next request can reuse all of this one.
pub open spec fn messages_json(msgs: Seq<(bool, JsonV)>, cache: bool) -> Seq<JsonV> {
    let marked_up = if cache && msgs.len() > 0 {
        msgs.update(msgs.len() - 1, (msgs.last().0, cached_content(msgs.last().1)))
    } else {
        msgs
    };
    marked_up.map_values(|m: (bool, JsonV)| message_json(m))
}

fn write_messages(msgs: &Vec<(bool, Json)>, cache: bool) -> (r: Vec<Json>)
    ensures
        json_views(r@) == messages_json(sent_views(msgs@), cache),
{
    let ghost ms = sent_views(msgs@);
    let mut out = no_items();
    let mut i: usize = 0;
    let size: usize = msgs.len();
    while i < msgs.len()
        invariant
            i <= msgs@.len() == size,
            ms == sent_views(msgs@),
            json_views(out@).len() == i,
            forall|k: int|
                0 <= k < i ==> #[trigger] json_views(out@)[k] == messages_json(ms, cache)[k],
        decreases msgs@.len() - i,
    {
        assert(ms[i as int] == (msgs@[i as int].0, msgs@[i as int].1@));
        let ghost before = json_views(out@);
        let content = if cache && i + 1 == size {
            cache_content(&msgs[i].1)
        } else {
            msgs[i].1.clone()
        };
        let role = if msgs[i].0 {
            "user"
        } else {
            "assistant"
        };
        let m = object2("content", content, "role", js(role));
        assert(m@ == messages_json(ms, cache)[i as int]);
        add_item(&mut out, m);
        assert forall|k: int| 0 <= k < i + 1 implies #[trigger] json_views(out@)[k]
            == messages_json(ms, cache)[k] by {
            if k < i {
                assert(json_views(out@)[k] == before[k]);
            }
        }
        i += 1;
    }
    assert(json_views(out@) =~= messages_json(ms, cache));
    out
}

/// What a request says of a tool.
pub open spec fn tool_json(t: ToolSpecV) -> JsonV {
    JsonV::Object(
        seq![
            ("description"@, JsonV::Str(t.description)),
            ("input_schema"@, t.schema),
            ("name"@, JsonV::Str(t.name)),
        ],
    )
}

/// The tools of a request; with the cache, the last of them carries the mark.
pub open spec fn tools_json(tools: Seq<ToolSpecV>, cache: bool) -> Seq<JsonV> {
    let all = tools.map_values(|t: ToolSpecV| tool_json(t));
    if cache {
        last_marked(all)
    } else {
        all
    }
}

fn write_tools(tools: &Vec<ToolSpec>, cache: bool) -> (r: Vec<Json>)
    ensures
        json_views(r@) == tools_json(tool_specs(tools@), cache),
{
    let ghost ts = tool_specs(tools@);
    let ghost all = ts.map_values(|t: ToolSpecV| tool_json(t));
    let mut out = no_items();
    let mut i: usize = 0;
    assert(all.take(0) =~= Seq::empty());
    while i < tools.len()
        invariant
            i <= tools@.len(),
            ts == tool_specs(tools@),
            all == ts.map_values(|t: ToolSpecV| tool_json(t)),
            json_views(out@) == all.take(i as int),
        decreases tools@.len() - i,
    {
        assert(ts[i as int] == tools@[i as int]@);
        assert(all[i as int] == tool_json(ts[i as int]));
        let t = object3(
            "description",
            js(tools[i].description.as_str()),
            "input_schema",
            tools[i].schema.clone(),
            "name",
            js(tools[i].name.as_str()),
        );
        add_item(&mut out, t);
        assert(all.take(i as int).push(all[i as int]) =~= all.take(i + 1));
        i += 1;
    }
    assert(all.take(i as int) =~= all);
    if cache {
        mark_last(&out)
    } else {
        out
    }
}

// ------------------------------------------------------------ the request

/// The fields of a request. One that only counts tokens goes without the limit
/// and without streaming.
pub open spec fn request_fields(
    msgs: Seq<MessageV>,
    tools: Seq<ToolSpecV>,
    model: Seq<char>,
    thinking_budget: Option<u32>,
    cache: bool,
    counting: bool,
) -> Seq<(Seq<char>, JsonV)> {
    let none = Seq::<(Seq<char>, JsonV)>::empty();
    (if counting {
        none
    } else {
        seq![("max_tokens"@, JsonV::Number(decimal(16384)))]
    }) + seq![
        ("messages"@, JsonV::Array(messages_json(sent(msgs), cache))),
        ("model"@, JsonV::Str(model)),
    ] + (if counting {
        none
    } else {
        seq![("stream"@, JsonV::Bool(true))]
    }) + (match system_of(msgs) {
        Some(s) => seq![
            (
                "system"@,
                if cache {
                    JsonV::Array(seq![cached_text(s)])
                } else {
                    JsonV::Str(s)
                },
            ),
        ],
        None => none,
    }) + (match thinking_budget {
        Some(b) => seq![
            (
                "thinking"@,
                JsonV::Object(
                    seq![
                        ("budget_tokens"@, JsonV::Number(decimal(b as nat))),
                        ("type"@, JsonV::Str("enabled"@)),
                    ],
                ),
            ),
        ],
        None => none,
    }) + (if tools.len() > 0 {
        seq![("tools"@, JsonV::Array(tools_json(tools, cache)))]
    } else {
        none
    })
}

fn write_request(
    messages: &Vec<Message>,
    tools: &Vec<ToolSpec>,
    model: &str,
    thinking_budget: Option<u32>,
    cache: bool,
    counting: bool,
) -> (r: Json)
    ensures
        r@ == JsonV::Object(
            request_fields(
                transcript(messages@),
                tool_specs(tools@),
                model@,
                thinking_budget,
                cache,
                counting,
            ),
        ),
{
    let (msgs, system) = collect_sent(messages);
    let mut f = no_fields();
    if !counting {
        add_field(&mut f, "max_tokens", num(16384));
    }
    add_field(&mut f, "messages", arr(write_messages(&msgs, cache)));
    add_field(&mut f, "model", js(model));
    if !counting {
        add_field(&mut f, "stream", boolean(true));
    }
    if let Some(s) = &system {
        if cache {
            let mut items = no_items();
            add_item(&mut items, cached_text_part(s.as_str()));
            assert(json_views(items@) =~= seq![cached_text(s@)]);
            add_field(&mut f, "system", arr(items));
        } else {
            add_field(&mut f, "system", js(s.as_str()));
        }
    }
    if let Some(b) = thinking_budget {
        add_field(
            &mut f,
            "thinking",
            object2("budget_tokens", num(b as u64), "type", js("enabled")),
        );
    }
    assert(tool_specs(tools@).len() == tools@.len());
    if tools.len() > 0 {
        add_field(&mut f, "tools", arr(write_tools(tools, cache)));
    }
    assert(field_views(f@) =~= request_fields(
        transcript(messages@),
        tool_specs(tools@),
        model@,
        thinking_budget,
        cache,
        counting,
    ));
    obj(f)
}

/// The request that a transcript becomes. `cache` says whether it carries the
/// marks for the prompt cache.
pub fn to_anthropic_request(
    messages: &Vec<Message>,
    tools: &Vec<ToolSpec>,
    model: &str,
    thinking_budget: Option<u32>,
    cache: bool,
) -> (r: Json)
    ensures
        r@ == JsonV::Object(
            request_fields(
                transcript(messages@),
                tool_specs(tools@),
                model@,
                thinking_budget,
                cache,
                false,
            ),
        ),
{
    write_request(messages, tools, model, thinking_budget, cache, false)
}

/// The request that counts the tokens of a transcript: what would be sent,
/// without what the counting endpoint refuses.
pub fn count_tokens_request(
    messages: &Vec<Message>,
    tools: &Vec<ToolSpec>,
    model: &str,
    cache: bool,
) -> (r: Json)
    ensures
        r@ == JsonV::Object(
            request_fields(
                transcript(messages@),
                tool_specs(tools@),
                model@,
                None,
                cache,
                true,
            ),
        ),
{
    write_request(messages, tools, model, None, cache, true)
}

/// Reads the count from the reply of the counting endpoint.
pub fn counted_tokens(reply: &Json) -> (r: Option<u64>)
    ensures
        match r {
            Some(n) => whole_field(reply@, "input_tokens"@) == Some(n as nat),
            None => whole_field(reply@, "input_tokens"@) is None,
        },
{
    reply.u64_at("input_tokens")
}

// ------------------------------------------------------------ the client

/// The state of a client of the Anthropic API.
#[derive(Debug)]
pub struct AnthropicClient {
    pub base_url: String,
    pub api_key: String,
    pub model: String,
    /// The budget for extended thinking; zero for none.
    pub budget: u32,
    /// The context window of the model; zero where it was not asked for yet.
    pub window: u32,
}

impl AnthropicClient {
    /// A client without a thinking budget, that has not asked for the context
    /// window yet. Slashes at the end of the address are dropped.
    pub fn new(base_url: &str, api_key: &str, model: &str) -> (c: AnthropicClient)
        ensures
            c.base_url@ == without_trailing(base_url@, '/'),
            c.api_key@ == api_key@,
            c.model@ == model@,
            c.budget == 0,
            c.window == 0,
    {
        AnthropicClient {
            base_url: trim_trailing(base_url, '/'),
            api_key: api_key.to_owned(),
            model: model.to_owned(),
            budget: 0,
            window: 0,
        }
    }

    /// Takes another model; its context window is not known yet.
    pub fn set_model(&mut self, model: String)
        ensures
            final(self).model == model,
            final(self).window == 0,
            final(self).base_url == old(self).base_url,
            final(self).api_key == old(self).api_key,
            final(self).budget == old(self).budget,
    {
        self.model = model;
        self.window = 0;
    }

    /// Sets the thinking budget; zero and none are the same.
    pub fn set_thinking_budget(&mut self, budget: Option<u32>)
        ensures
            final(self).budget == (match budget {
                Some(b) => b,
                None => 0,
            }),
            final(self).model == old(self).model,
            final(self).window == old(self).window,
            final(self).base_url == old(self).base_url,
            final(self).api_key == old(self).api_key,
    {
        self.budget = match budget {
            Some(b) => b,
            None => 0,
        };
    }

    /// The thinking budget, where there is one.
    pub fn thinking_budget(&self) -> (r: Option<u32>)
        ensures
            r == (if self.budget == 0 {
                None
            } else {
                Some(self.budget)
            }),
    {
        if self.budget == 0 {
            None
        } else {
            Some(self.budget)
        }
    }

    /// The context window, where a setting gives it or a reply was read.
    pub fn known_window(&self, setting: Option<&str>) -> (r: Option<u32>)
        ensures
            r == (match asked_window(setting_view(setting)) {
                Some(n) => Some(n as u32),
                None => if self.window != 0 {
                    Some(self.window)
                } else {
                    None
                },
            }),
    {
        match env_context_window(setting) {
            Some(n) => Some(n),
            None => if self.window != 0 {
                Some(self.window)
            } else {
                None
            },
        }
    }

    /// Reads the context window from what the provider says of the model, and
    /// keeps it.
    pub fn context_window(&mut self, reply: &Json) -> (r: Option<u32>)
        ensures
            match number_in(inside(reply@, "max_input_tokens"@)) {
                Some(n) => r == Some(low32(n)) && final(self).window == low32(n),
                None => r is None && final(self).window == old(self).window,
            },
            final(self).model == old(self).model,
            final(self).budget == old(self).budget,
            final(self).base_url == old(self).base_url,
            final(self).api_key == old(self).api_key,
    {
        match json_u64(reply.at("max_input_tokens")) {
            Some(n) => {
                self.window = to_u32(n);
                Some(self.window)
            },
            None => None,
        }
    }

    /// Where turns are sent.
    pub fn messages_url(&self) -> (r: String)
        ensures
            r@ == self.base_url@ + "/v1/messages"@,
    {
        cat2(self.base_url.as_str(), "/v1/messages")
    }

    /// Where tokens are counted.
    pub fn count_url(&self) -> (r: String)
        ensures
            r@ == self.base_url@ + "/v1/messages/count_tokens"@,
    {
        cat2(self.base_url.as_str(), "/v1/messages/count_tokens")
    }

    /// Where the models are listed.
    pub fn models_url(&self) -> (r: String)
        ensures
            r@ == self.base_url@ + "/v1/models"@,
    {
        cat2(self.base_url.as_str(), "/v1/models")
    }

    /// Where the model is described.
    pub fn model_url(&self) -> (r: String)
        ensures
            r@ == self.base_url@ + "/v1/models/"@ + self.model@,
    {
        cat3(self.base_url.as_str(), "/v1/models/", self.model.as_str())
    }
}

// ------------------------------------------------------------ laws

/// No system message, and no role but those of the user and the model, is among
/// the messages of a request: it has at most as many as the transcript.
pub proof fn law_request_is_no_longer_than_transcript(msgs: Seq<MessageV>)
    ensures
        sent(msgs).len() <= msgs.len(),
    decreases msgs.len(),
{
    if msgs.len() > 0 {
        law_request_is_no_longer_than_transcript(msgs.drop_last());
    }
}

/// The mark for the cache is on the last message alone: the others are what
/// they would be without the cache.
pub proof fn law_only_the_last_message_is_marked(msgs: Seq<(bool, JsonV)>, i: int)
    requires
        0 <= i < msgs.len() - 1,
    ensures
        messages_json(msgs, true)[i] == messages_json(msgs, false)[i],
{
}

/// Without the cache the request carries the messages as they are.
pub proof fn law_no_mark_without_cache(msgs: Seq<(bool, JsonV)>)
    ensures
        messages_json(msgs, false) == msgs.map_values(|m: (bool, JsonV)| message_json(m)),
{
}

/// The results of a batch of tools, one message each, go out as one message of
/// the user: the API refuses a request whose roles do not alternate.
pub proof fn law_tool_results_merge(before: Seq<(bool, JsonV)>, a: Seq<JsonV>, b: Seq<JsonV>)
    requires
        before.len() == 0 || !before.last().0,
    ensures
        with_results(with_results(before, a), b) == before.push((true, JsonV::Array(a + b))),
{
    let one = with_results(before, a);
    assert(one == before.push((true, JsonV::Array(a))));
    assert(one.last() == (true, JsonV::Array(a)));
    assert(with_results(one, b) =~= before.push((true, JsonV::Array(a + b))));
}

// ------------------------------------------------------------ what a request tells

/// A message of the role carries the block. Empty text of the model is not worth
/// sending.
pub open spec fn carries(role: Role, b: BlockV) -> bool {
    match role {
        Role::System => false,
        Role::User => b is Text || b is Image,
        Role::Assistant => b is Thinking || b is ToolUse || (b is Text && b->text.len() > 0),
        Role::Tool => b is ToolResult,
    }
}

/// A block of a request says what a block of the transcript says: it names its kind,
/// and holds each of its parts whole.
pub open spec fn tells(item: JsonV, b: BlockV) -> bool {
    match b {
        BlockV::Text { text } => {
            &&& field(item, "type"@) == Some(JsonV::Str("text"@))
            &&& field(item, "text"@) == Some(JsonV::Str(text))
        },
        BlockV::Thinking { thinking } => {
            &&& field(item, "type"@) == Some(JsonV::Str("thinking"@))
            &&& field(item, "thinking"@) == Some(JsonV::Str(thinking))
        },
        BlockV::ToolUse { id, name, input } => {
            &&& field(item, "type"@) == Some(JsonV::Str("tool_use"@))
            &&& field(item, "id"@) == Some(JsonV::Str(id))
            &&& field(item, "name"@) == Some(JsonV::Str(name))
            &&& field(item, "input"@) == Some(input)
        },
        BlockV::ToolResult { tool_use_id, content, is_error } => {
            &&& field(item, "type"@) == Some(JsonV::Str("tool_result"@))
            &&& field(item, "tool_use_id"@) == Some(JsonV::Str(tool_use_id))
            &&& field(item, "content"@) == Some(JsonV::Str(content))
            &&& field(item, "is_error"@) == Some(JsonV::Bool(is_error))
        },
        BlockV::Image { media_type, data } => {
            &&& field(item, "type"@) == Some(JsonV::Str("image"@))
            &&& field(item, "source"@) is Some
            &&& field(field(item, "source"@)->0, "type"@) == Some(JsonV::Str("base64"@))
            &&& field(field(item, "source"@)->0, "media_type"@) == Some(JsonV::Str(media_type))
            &&& field(field(item, "source"@)->0, "data"@) == Some(JsonV::Str(data))
        },
    }
}

/// The content of a message says, in its block `q`, what a block of the transcript
/// says; a plain text is its only block.
pub open spec fn tells_at(content: JsonV, q: int, b: BlockV) -> bool {
    match content {
        JsonV::Str(t) => q == 0 && b == (BlockV::Text { text: t }),
        JsonV::Array(items) => 0 <= q < items.len() && tells(items[q], b),
        _ => false,
    }
}

/// The number of blocks in the content of a message.
pub open spec fn block_count(content: JsonV) -> int {
    match content {
        JsonV::Str(_) => 1,
        JsonV::Array(items) => items.len() as int,
        _ => 0,
    }
}

/// Message `p` of a request speaks in the name of `from`, and its block `q` says
/// what the block says.
pub open spec fn message_tells(messages: Seq<JsonV>, p: int, q: int, from: Role, b: BlockV) -> bool {
    &&& 0 <= p < messages.len()
    &&& field(messages[p], "role"@) == Some(
        JsonV::Str(
            if from == Role::Assistant {
                "assistant"@
            } else {
                "user"@
            },
        ),
    )
    &&& field(messages[p], "content"@) matches Some(c) && tells_at(c, q, b)
}

/// The messages that a request holds.
pub open spec fn request_tells(
    msgs: Seq<MessageV>,
    tools: Seq<ToolSpecV>,
    model: Seq<char>,
    thinking_budget: Option<u32>,
    cache: bool,
    counting: bool,
) -> Option<JsonV> {
    field(
        JsonV::Object(request_fields(msgs, tools, model, thinking_budget, cache, counting)),
        "messages"@,
    )
}

proof fn lemma_names_differ()
    ensures
        "cache_control"@ != "type"@,
        "cache_control"@ != "text"@,
        "cache_control"@ != "thinking"@,
        "cache_control"@ != "id"@,
        "cache_control"@ != "name"@,
        "cache_control"@ != "input"@,
        "cache_control"@ != "tool_use_id"@,
        "cache_control"@ != "content"@,
        "cache_control"@ != "is_error"@,
        "cache_control"@ != "source"@,
        "cache_control"@ != "description"@,
        "cache_control"@ != "input_schema"@,
        "text"@ != "type"@,
        "text"@ != "thinking"@,
        "text"@ != "tool_use"@,
        "text"@ != "tool_result"@,
        "text"@ != "image"@,
        "thinking"@ != "type"@,
        "thinking"@ != "tool_use"@,
        "thinking"@ != "tool_result"@,
        "thinking"@ != "image"@,
        "tool_use"@ != "tool_result"@,
        "tool_use"@ != "image"@,
        "tool_result"@ != "image"@,
        "id"@ != "input"@,
        "id"@ != "name"@,
        "id"@ != "type"@,
        "input"@ != "name"@,
        "input"@ != "type"@,
        "name"@ != "type"@,
        "content"@ != "is_error"@,
        "content"@ != "tool_use_id"@,
        "content"@ != "type"@,
        "is_error"@ != "tool_use_id"@,
        "is_error"@ != "type"@,
        "tool_use_id"@ != "type"@,
        "source"@ != "type"@,
        "data"@ != "media_type"@,
        "data"@ != "type"@,
        "media_type"@ != "type"@,
        "content"@ != "role"@,
        "description"@ != "input_schema"@,
        "description"@ != "name"@,
        "input_schema"@ != "name"@,
{
    reveal_strlit("cache_control");
    reveal_strlit("type");
    reveal_strlit("text");
    reveal_strlit("thinking");
    reveal_strlit("id");
    reveal_strlit("name");
    reveal_strlit("input");
    reveal_strlit("tool_use_id");
    reveal_strlit("content");
    reveal_strlit("is_error");
    reveal_strlit("source");
    reveal_strlit("tool_use");
    reveal_strlit("tool_result");
    reveal_strlit("image");
    reveal_strlit("data");
    reveal_strlit("media_type");
    reveal_strlit("role");
    reveal_strlit("description");
    reveal_strlit("input_schema");
    assert("cache_control"@.len() == 13);
    assert("type"@.len() == 4 && "text"@.len() == 4 && "name"@.len() == 4 && "data"@.len() == 4
        && "role"@.len() == 4);
    assert("type"@[1] == 'y' && "text"@[1] == 'e' && "name"@[1] == 'a' && "data"@[0] == 'd');
    assert("thinking"@.len() == 8 && "tool_use"@.len() == 8 && "is_error"@.len() == 8);
    assert("thinking"@[1] == 'h' && "tool_use"@[1] == 'o');
    assert("id"@.len() == 2);
    assert("input"@.len() == 5 && "image"@.len() == 5);
    assert("tool_use_id"@.len() == 11 && "tool_result"@.len() == 11 && "description"@.len() == 11);
    assert("content"@.len() == 7);
    assert("source"@.len() == 6);
    assert("media_type"@.len() == 10);
    assert("input_schema"@.len() == 12);
    assert("image"@[0] == 'i');
}

proof fn lemma_part_tells(role: Role, b: BlockV)
    ensures
        part(role, b) is Some <==> carries(role, b),
        part(role, b) matches Some(x) ==> tells(x, b) && x is Object,
{
    lemma_names_differ();
    if let Some(x) = part(role, b) {
        let fs = x->Object_0;
        assert forall|i: int| 0 <= i < fs.len() implies field(x, (#[trigger] fs[i]).0) == Some(
            fs[i].1,
        ) by {
            law_fields_are_found_by_name(fs, i, fs[i].0);
        }
        assert(field(x, fs[0].0) == Some(fs[0].1));
        assert(field(x, fs[1].0) == Some(fs[1].1));
        if b is ToolUse || b is ToolResult {
            assert(field(x, fs[2].0) == Some(fs[2].1));
            assert(field(x, fs[3].0) == Some(fs[3].1));
        }
        if b is Image {
            let source = fs[0].1->Object_0;
            assert forall|i: int| 0 <= i < source.len() implies field(
                fs[0].1,
                (#[trigger] source[i]).0,
            ) == Some(source[i].1) by {
                law_fields_are_found_by_name(source, i, source[i].0);
            }
            assert(field(fs[0].1, source[0].0) == Some(source[0].1));
            assert(field(fs[0].1, source[1].0) == Some(source[1].1));
            assert(field(fs[0].1, source[2].0) == Some(source[2].1));
        }
    }
}

proof fn lemma_mark_hides_nothing(item: JsonV, key: Seq<char>)
    requires
        key != "cache_control"@,
    ensures
        field(marked(item), key) == field(item, key),
{
    if let JsonV::Object(fs) = item {
        lemma_other_field_stays(fs, "cache_control"@, ephemeral(), key);
    }
}

proof fn lemma_mark_tells(item: JsonV, b: BlockV)
    ensures
        tells(marked(item), b) <==> tells(item, b),
{
    lemma_names_differ();
    lemma_mark_hides_nothing(item, "type"@);
    lemma_mark_hides_nothing(item, "text"@);
    lemma_mark_hides_nothing(item, "thinking"@);
    lemma_mark_hides_nothing(item, "id"@);
    lemma_mark_hides_nothing(item, "name"@);
    lemma_mark_hides_nothing(item, "input"@);
    lemma_mark_hides_nothing(item, "tool_use_id"@);
    lemma_mark_hides_nothing(item, "content"@);
    lemma_mark_hides_nothing(item, "is_error"@);
    lemma_mark_hides_nothing(item, "source"@);
}

proof fn lemma_told_once(item: JsonV, a: BlockV, b: BlockV)
    requires
        tells(item, a),
        tells(item, b),
    ensures
        a == b,
{
    lemma_names_differ();
}

proof fn lemma_cached_tells(content: JsonV, q: int, b: BlockV)
    requires
        content is Str || content is Array,
    ensures
        tells_at(cached_content(content), q, b) <==> tells_at(content, q, b),
        block_count(cached_content(content)) == block_count(content),
{
    match content {
        JsonV::Str(t) => {
            lemma_names_differ();
            let item = cached_text(t);
            let fs = item->Object_0;
            law_fields_are_found_by_name(fs, 1, "text"@);
            law_fields_are_found_by_name(fs, 2, "type"@);
            let own = BlockV::Text { text: t };
            assert(tells(item, own));
            if tells(item, b) {
                lemma_told_once(item, own, b);
            }
        },
        JsonV::Array(items) => {
            if items.len() > 0 {
                lemma_mark_tells(items.last(), b);
            }
        },
        _ => {},
    }
}

proof fn lemma_parts_add_up(role: Role, a: Seq<BlockV>, b: Seq<BlockV>)
    ensures
        parts(role, a + b) == parts(role, a) + parts(role, b),
    decreases b.len(),
{
    if b.len() > 0 {
        lemma_parts_add_up(role, a, b.drop_last());
        assert((a + b).drop_last() =~= a + b.drop_last());
        assert((a + b).last() == b.last());
        assert(parts(role, a + b) =~= parts(role, a) + parts(role, b));
    } else {
        assert(a + b =~= a);
        assert(parts(role, a + b) =~= parts(role, a) + parts(role, b));
    }
}

/// How many blocks before the block `k` a message carries.
spec fn rank(role: Role, content: Seq<BlockV>, k: int) -> int {
    parts(role, content.take(k)).len() as int
}

proof fn lemma_rank(role: Role, content: Seq<BlockV>, k: int)
    requires
        0 <= k < content.len(),
        carries(role, content[k]),
    ensures
        0 <= rank(role, content, k) < parts(role, content).len(),
        parts(role, content)[rank(role, content, k)] == part(role, content[k])->0,
        rank(role, content, k + 1) == rank(role, content, k) + 1,
        forall|l: int|
            k < l <= content.len() ==> rank(role, content, k) < #[trigger] rank(role, content, l),
{
    lemma_part_tells(role, content[k]);
    assert(content.take(k + 1).drop_last() =~= content.take(k));
    lemma_parts_add_up(role, content.take(k + 1), content.skip(k + 1));
    assert(content.take(k + 1) + content.skip(k + 1) =~= content);
    assert forall|l: int| k < l <= content.len() implies rank(role, content, k) < #[trigger] rank(
        role,
        content,
        l,
    ) by {
        lemma_parts_add_up(role, content.take(k + 1), content.subrange(k + 1, l));
        assert(content.take(k + 1) + content.subrange(k + 1, l) =~= content.take(l));
    }
}

proof fn lemma_parts_come_from_blocks(role: Role, content: Seq<BlockV>, q: int) -> (k: int)
    requires
        0 <= q < parts(role, content).len(),
    ensures
        0 <= k < content.len(),
        carries(role, content[k]),
        rank(role, content, k) == q,
        part(role, content[k]) == Some(parts(role, content)[q]),
    decreases content.len(),
{
    let front = content.drop_last();
    lemma_part_tells(role, content.last());
    if q < parts(role, front).len() {
        let k = lemma_parts_come_from_blocks(role, front, q);
        assert(front.take(k) =~= content.take(k));
        k
    } else {
        assert(content.take(content.len() - 1) =~= front);
        content.len() - 1
    }
}

proof fn lemma_lone_text(content: Seq<BlockV>, text: Seq<char>)
    ensures
        parts(Role::User, content).len() == 0 ==> text_of_blocks(content).len() == 0,
        parts(Role::User, content) == seq![text_part(text)] ==> text_of_blocks(content) == text,
    decreases content.len(),
{
    if content.len() > 0 {
        let front = content.drop_last();
        lemma_lone_text(front, text);
        let ps = parts(Role::User, content);
        if part(Role::User, content.last()) is Some {
            if ps == seq![text_part(text)] {
                assert(ps == parts(Role::User, front).push(part(Role::User, content.last())->0));
                assert(seq![text_part(text)].len() == 1);
                assert(parts(Role::User, front).len() == 0);
                assert(ps.last() == part(Role::User, content.last())->0);
                let x = part(Role::User, content.last())->0;
                assert(x == text_part(text));
                lemma_part_tells(Role::User, content.last());
                lemma_part_tells(Role::User, BlockV::Text { text });
                lemma_told_once(x, content.last(), BlockV::Text { text });
                assert(text_of_blocks(content) =~= text);
            }
        } else {
            assert(text_of_blocks(content) =~= text_of_blocks(front));
        }
    } else if parts(Role::User, content) == seq![text_part(text)] {
        assert(parts(Role::User, content).len() == 1);
    }
}

proof fn lemma_user_content_tells(content: Seq<BlockV>)
    ensures
        user_content(content) is Str || user_content(content) is Array,
        block_count(user_content(content)) == parts(Role::User, content).len(),
        forall|k: int|
            0 <= k < content.len() && carries(Role::User, #[trigger] content[k]) ==> tells_at(
                user_content(content),
                rank(Role::User, content, k),
                content[k],
            ),
{
    let ps = parts(Role::User, content);
    assert forall|k: int|
        0 <= k < content.len() && carries(Role::User, #[trigger] content[k]) implies tells_at(
        user_content(content),
        rank(Role::User, content, k),
        content[k],
    ) by {
        lemma_rank(Role::User, content, k);
        lemma_part_tells(Role::User, content[k]);
        if user_content(content) is Str {
            let x = part(Role::User, content[k])->0;
            assert(ps[0] == x);
            lemma_names_differ();
            assert(content[k] is Text);
            assert(ps =~= seq![text_part(content[k]->text)]);
            lemma_lone_text(content, content[k]->text);
        }
    }
}

/// The content of a message has only grown: blocks were added behind those it had.
spec fn grown(a: JsonV, b: JsonV) -> bool {
    a == b || (a is Array && b is Array && a->Array_0.len() <= b->Array_0.len() && a->Array_0
        == b->Array_0.take(a->Array_0.len() as int))
}

proof fn lemma_grown_tells(a: JsonV, b: JsonV, q: int, x: BlockV)
    requires
        grown(a, b),
        tells_at(a, q, x),
    ensures
        tells_at(b, q, x),
{
    if a != b {
        assert(b->Array_0[q] == b->Array_0.take(a->Array_0.len() as int)[q]);
    }
}

proof fn lemma_sent_grows(msgs: Seq<MessageV>, n: int, p: int)
    requires
        0 <= n <= msgs.len(),
        0 <= p < sent(msgs.take(n)).len(),
    ensures
        p < sent(msgs).len(),
        sent(msgs)[p].0 == sent(msgs.take(n))[p].0,
        grown(sent(msgs.take(n))[p].1, sent(msgs)[p].1),
    decreases msgs.len() - n,
{
    if n < msgs.len() {
        let front = msgs.drop_last();
        assert(front.take(n) =~= msgs.take(n));
        lemma_sent_grows(front, n, p);
        let (a, b) = (sent(front), sent(msgs));
        assert(b.len() >= a.len());
        assert(b[p].0 == a[p].0 && grown(a[p].1, b[p].1)) by {
            if msgs.last().role == Role::Tool && p == a.len() - 1 && a[p].0 && a[p].1 is Array {
                let items = a[p].1->Array_0;
                let more = parts(Role::Tool, msgs.last().content);
                assert((items + more).take(items.len() as int) =~= items);
            }
        }
        let first = sent(msgs.take(n))[p].1;
        if first != a[p].1 && a[p].1 != b[p].1 {
            let m = first->Array_0.len() as int;
            let items = a[p].1->Array_0;
            assert(b[p].1->Array_0.take(items.len() as int).take(m) =~= b[p].1->Array_0.take(m));
        }
    } else {
        assert(msgs.take(n) =~= msgs);
    }
}

/// Where a block of the transcript stands among the messages of the request.
spec fn place_of(msgs: Seq<MessageV>, i: int, k: int) -> (int, int) {
    let before = sent(msgs.take(i));
    let r = rank(msgs[i].role, msgs[i].content, k);
    if msgs[i].role == Role::Tool && before.len() > 0 && before.last().0 && before.last().1 is Array {
        (before.len() - 1, before.last().1->Array_0.len() + r)
    } else {
        (before.len() as int, r)
    }
}

proof fn lemma_message_is_sent(msgs: Seq<MessageV>, i: int, k: int)
    requires
        0 <= i < msgs.len(),
        0 <= k < msgs[i].content.len(),
        carries(msgs[i].role, msgs[i].content[k]),
    ensures
        ({
            let (p, q) = place_of(msgs, i, k);
            let now = sent(msgs.take(i + 1));
            &&& 0 <= p < now.len()
            &&& p == now.len() - 1
            &&& now[p].0 == (msgs[i].role != Role::Assistant)
            &&& tells_at(now[p].1, q, msgs[i].content[k])
            &&& 0 <= q < block_count(now[p].1)
        }),
{
    let m = msgs[i];
    let before = sent(msgs.take(i));
    let r = rank(m.role, m.content, k);
    assert(msgs.take(i + 1).drop_last() =~= msgs.take(i));
    assert(msgs.take(i + 1).last() == m);
    lemma_rank(m.role, m.content, k);
    lemma_part_tells(m.role, m.content[k]);
    if m.role == Role::User {
        lemma_user_content_tells(m.content);
    }
}

proof fn lemma_sent_tells(msgs: Seq<MessageV>, i: int, k: int)
    requires
        0 <= i < msgs.len(),
        0 <= k < msgs[i].content.len(),
        carries(msgs[i].role, msgs[i].content[k]),
    ensures
        ({
            let (p, q) = place_of(msgs, i, k);
            &&& 0 <= p < sent(msgs).len()
            &&& sent(msgs)[p].0 == (msgs[i].role != Role::Assistant)
            &&& tells_at(sent(msgs)[p].1, q, msgs[i].content[k])
        }),
{
    let (p, q) = place_of(msgs, i, k);
    lemma_message_is_sent(msgs, i, k);
    lemma_sent_grows(msgs, i + 1, p);
    lemma_grown_tells(
        sent(msgs.take(i + 1))[p].1,
        sent(msgs)[p].1,
        q,
        msgs[i].content[k],
    );
}

proof fn lemma_sent_is_content(msgs: Seq<MessageV>, p: int)
    requires
        0 <= p < sent(msgs).len(),
    ensures
        sent(msgs)[p].1 is Str || sent(msgs)[p].1 is Array,
    decreases msgs.len(),
{
    let front = msgs.drop_last();
    if p < sent(front).len() {
        lemma_sent_is_content(front, p);
    }
    lemma_user_content_tells(msgs.last().content);
}

proof fn lemma_json_tells(msgs: Seq<MessageV>, cache: bool, p: int, q: int, from: Role, b: BlockV)
    requires
        0 <= p < sent(msgs).len(),
    ensures
        message_tells(messages_json(sent(msgs), cache), p, q, from, b) <==> (sent(msgs)[p].0 == (from
            != Role::Assistant) && tells_at(sent(msgs)[p].1, q, b)),
{
    let ms = messages_json(sent(msgs), cache);
    let s = sent(msgs);
    lemma_names_differ();
    reveal_strlit("user");
    reveal_strlit("assistant");
    assert("user"@.len() == 4 && "assistant"@.len() == 9);
    lemma_sent_is_content(msgs, p);
    let content = if cache && p == s.len() - 1 {
        cached_content(s[p].1)
    } else {
        s[p].1
    };
    lemma_cached_tells(s[p].1, q, b);
    assert(ms[p] == message_json((s[p].0, content)));
    let fs = ms[p]->Object_0;
    law_fields_are_found_by_name(fs, 0, "content"@);
    law_fields_are_found_by_name(fs, 1, "role"@);
}

proof fn lemma_request_names_differ()
    ensures
        "max_tokens"@ != "messages"@,
        "max_tokens"@ != "model"@,
        "max_tokens"@ != "stream"@,
        "max_tokens"@ != "system"@,
        "max_tokens"@ != "thinking"@,
        "max_tokens"@ != "tools"@,
        "messages"@ != "model"@,
        "messages"@ != "stream"@,
        "messages"@ != "system"@,
        "messages"@ != "thinking"@,
        "messages"@ != "tools"@,
        "model"@ != "stream"@,
        "model"@ != "system"@,
        "model"@ != "thinking"@,
        "model"@ != "tools"@,
        "stream"@ != "system"@,
        "stream"@ != "thinking"@,
        "stream"@ != "tools"@,
        "system"@ != "thinking"@,
        "system"@ != "tools"@,
        "thinking"@ != "tools"@,
{
    reveal_strlit("max_tokens");
    reveal_strlit("messages");
    reveal_strlit("model");
    reveal_strlit("stream");
    reveal_strlit("system");
    reveal_strlit("thinking");
    reveal_strlit("tools");
    assert("max_tokens"@.len() == 10);
    assert("messages"@.len() == 8 && "thinking"@.len() == 8 && "messages"@[0] == 'm'
        && "thinking"@[0] == 't');
    assert("model"@.len() == 5 && "tools"@.len() == 5 && "model"@[0] == 'm' && "tools"@[0] == 't');
    assert("stream"@.len() == 6 && "system"@.len() == 6 && "stream"@[1] == 't' && "system"@[1]
        == 'y');
}

proof fn lemma_request_field(
    msgs: Seq<MessageV>,
    tools: Seq<ToolSpecV>,
    model: Seq<char>,
    thinking_budget: Option<u32>,
    cache: bool,
    counting: bool,
    i: int,
)
    ensures
        ({
            let fs = request_fields(msgs, tools, model, thinking_budget, cache, counting);
            0 <= i < fs.len() ==> field(JsonV::Object(fs), fs[i].0) == Some(fs[i].1)
        }),
{
    let fs = request_fields(msgs, tools, model, thinking_budget, cache, counting);
    lemma_request_names_differ();
    if 0 <= i < fs.len() {
        assert forall|k: int| 0 <= k < i implies (#[trigger] fs[k]).0 != fs[i].0 by {}
        law_fields_are_found_by_name(fs, i, fs[i].0);
    }
}

proof fn lemma_request_holds_messages(
    msgs: Seq<MessageV>,
    tools: Seq<ToolSpecV>,
    model: Seq<char>,
    thinking_budget: Option<u32>,
    cache: bool,
    counting: bool,
)
    ensures
        request_tells(msgs, tools, model, thinking_budget, cache, counting) == Some(
            JsonV::Array(messages_json(sent(msgs), cache)),
        ),
{
    let at = if counting {
        0int
    } else {
        1
    };
    let fs = request_fields(msgs, tools, model, thinking_budget, cache, counting);
    assert(fs[at] == ("messages"@, JsonV::Array(messages_json(sent(msgs), cache))));
    lemma_request_field(msgs, tools, model, thinking_budget, cache, counting, at);
}

/// Everything that was said reaches the model: each block of the transcript that its
/// message carries stands in a message of the request that speaks in the same name,
/// whole. A result stands under the id of its call, a call with its input.
pub proof fn law_every_block_is_sent(
    msgs: Seq<MessageV>,
    tools: Seq<ToolSpecV>,
    model: Seq<char>,
    thinking_budget: Option<u32>,
    cache: bool,
    counting: bool,
    i: int,
    k: int,
)
    requires
        0 <= i < msgs.len(),
        0 <= k < msgs[i].content.len(),
        carries(msgs[i].role, msgs[i].content[k]),
    ensures
        request_tells(msgs, tools, model, thinking_budget, cache, counting) matches Some(
            JsonV::Array(messages),
        ) && exists|p: int, q: int|
            #[trigger] message_tells(messages, p, q, msgs[i].role, msgs[i].content[k]),
{
    lemma_request_holds_messages(msgs, tools, model, thinking_budget, cache, counting);
    let (p, q) = place_of(msgs, i, k);
    lemma_sent_tells(msgs, i, k);
    lemma_json_tells(msgs, cache, p, q, msgs[i].role, msgs[i].content[k]);
    let told = request_tells(msgs, tools, model, thinking_budget, cache, counting);
    assert(message_tells(told->0->Array_0, p, q, msgs[i].role, msgs[i].content[k]));
}

/// What was said first is sent first: a block stands before another in the request
/// where it stands before it in the transcript.
pub proof fn law_blocks_are_sent_in_order(
    msgs: Seq<MessageV>,
    cache: bool,
    i: int,
    k: int,
    j: int,
    l: int,
)
    requires
        0 <= i < msgs.len(),
        0 <= k < msgs[i].content.len(),
        carries(msgs[i].role, msgs[i].content[k]),
        0 <= j < msgs.len(),
        0 <= l < msgs[j].content.len(),
        carries(msgs[j].role, msgs[j].content[l]),
        i < j || (i == j && k < l),
    ensures
        exists|p: int, q: int, r: int, t: int|
            #[trigger] message_tells(
                messages_json(sent(msgs), cache),
                p,
                q,
                msgs[i].role,
                msgs[i].content[k],
            ) && #[trigger] message_tells(
                messages_json(sent(msgs), cache),
                r,
                t,
                msgs[j].role,
                msgs[j].content[l],
            ) && (p < r || (p == r && q < t)),
{
    let (p, q) = place_of(msgs, i, k);
    let (r, t) = place_of(msgs, j, l);
    lemma_sent_tells(msgs, i, k);
    lemma_sent_tells(msgs, j, l);
    lemma_json_tells(msgs, cache, p, q, msgs[i].role, msgs[i].content[k]);
    lemma_json_tells(msgs, cache, r, t, msgs[j].role, msgs[j].content[l]);
    if i == j {
        lemma_rank(msgs[i].role, msgs[i].content, k);
    } else {
        lemma_message_is_sent(msgs, i, k);
        let earlier = msgs.take(j);
        assert(earlier.take(i + 1) =~= msgs.take(i + 1));
        lemma_sent_grows(earlier, i + 1, p);
        let now = sent(earlier);
        if r == p {
            assert(p == now.len() - 1);
            assert(now[p].1 is Array);
            let before = sent(msgs.take(i + 1))[p].1;
            assert(q < block_count(before));
            assert(block_count(before) <= now[p].1->Array_0.len());
        }
    }
}

/// Nothing is put into the model's mouth, or the user's: every block of a request
/// stands for one of the transcript, of a message in the same name.
pub proof fn law_nothing_is_made_up(msgs: Seq<MessageV>, cache: bool, p: int, q: int)
    requires
        0 <= p < messages_json(sent(msgs), cache).len(),
        field(messages_json(sent(msgs), cache)[p], "content"@) matches Some(c) && 0 <= q
            < block_count(c),
    ensures
        exists|i: int, k: int|
            0 <= i < msgs.len() && 0 <= k < msgs[i].content.len() && message_tells(
                messages_json(sent(msgs), cache),
                p,
                q,
                msgs[i].role,
                #[trigger] msgs[i].content[k],
            ),
{
    let ms = messages_json(sent(msgs), cache);
    let s = sent(msgs);
    lemma_names_differ();
    law_fields_are_found_by_name(ms[p]->Object_0, 0, "content"@);
    lemma_sent_is_content(msgs, p);
    lemma_cached_tells(s[p].1, q, BlockV::Text { text: Seq::empty() });
    let (i, k) = lemma_sent_comes_from(msgs, p, q);
    lemma_json_tells(msgs, cache, p, q, msgs[i].role, msgs[i].content[k]);
}

proof fn lemma_sent_comes_from(msgs: Seq<MessageV>, p: int, q: int) -> (r: (int, int))
    requires
        0 <= p < sent(msgs).len(),
        0 <= q < block_count(sent(msgs)[p].1),
    ensures
        0 <= r.0 < msgs.len(),
        0 <= r.1 < msgs[r.0].content.len(),
        sent(msgs)[p].0 == (msgs[r.0].role != Role::Assistant),
        tells_at(sent(msgs)[p].1, q, msgs[r.0].content[r.1]),
    decreases msgs.len(),
{
    let front = msgs.drop_last();
    let (a, b) = (sent(front), sent(msgs));
    let m = msgs.last();
    if p < a.len() && q < block_count(a[p].1) {
        let (i, k) = lemma_sent_comes_from(front, p, q);
        assert(front =~= msgs.take(msgs.len() - 1));
        lemma_sent_grows(msgs, msgs.len() - 1, p);
        lemma_grown_tells(a[p].1, b[p].1, q, front[i].content[k]);
        (i, k)
    } else {
        lemma_user_content_tells(m.content);
        let merges = m.role == Role::Tool && a.len() > 0 && a.last().0 && a.last().1 is Array;
        let had = if merges {
            a.last().1->Array_0.len() as int
        } else {
            0
        };
        assert(p == b.len() - 1);
        let k = lemma_parts_come_from_blocks(m.role, m.content, q - had);
        lemma_part_tells(m.role, m.content[k]);
        assert(tells_at(b[p].1, q, m.content[k]));
        (msgs.len() - 1, k)
    }
}

/// A request tells transcripts apart: where two of them first differ in a block that
/// is carried, be it in a single character of a result, so do their requests.
pub proof fn law_requests_differ_as_transcripts_do(
    a: Seq<MessageV>,
    b: Seq<MessageV>,
    tools: Seq<ToolSpecV>,
    model: Seq<char>,
    thinking_budget: Option<u32>,
    cache: bool,
    counting: bool,
    i: int,
    k: int,
)
    requires
        0 <= i < a.len(),
        i < b.len(),
        a.take(i) == b.take(i),
        a[i].role == b[i].role,
        0 <= k < a[i].content.len(),
        k < b[i].content.len(),
        a[i].content.take(k) == b[i].content.take(k),
        carries(a[i].role, a[i].content[k]),
        carries(b[i].role, b[i].content[k]),
        a[i].content[k] != b[i].content[k],
    ensures
        request_fields(a, tools, model, thinking_budget, cache, counting) != request_fields(
            b,
            tools,
            model,
            thinking_budget,
            cache,
            counting,
        ),
{
    let (p, q) = place_of(a, i, k);
    assert(place_of(b, i, k) == (p, q));
    lemma_sent_tells(a, i, k);
    lemma_sent_tells(b, i, k);
    lemma_json_tells(a, cache, p, q, a[i].role, a[i].content[k]);
    lemma_json_tells(b, cache, p, q, b[i].role, b[i].content[k]);
    lemma_request_holds_messages(a, tools, model, thinking_budget, cache, counting);
    lemma_request_holds_messages(b, tools, model, thinking_budget, cache, counting);
    let (ma, mb) = (messages_json(sent(a), cache), messages_json(sent(b), cache));
    if ma == mb {
        let content = field(ma[p], "content"@)->0;
        if let JsonV::Array(items) = content {
            lemma_told_once(items[q], a[i].content[k], b[i].content[k]);
        }
    }
}

/// The last system prompt goes out as such, and no other.
pub proof fn law_system_prompt_is_sent(
    msgs: Seq<MessageV>,
    tools: Seq<ToolSpecV>,
    model: Seq<char>,
    thinking_budget: Option<u32>,
    cache: bool,
    counting: bool,
    i: int,
)
    requires
        forall|j: int|
            0 <= j < msgs.len() && i < j ==> (#[trigger] msgs[j]).role != Role::System,
    ensures
        ({
            let said = field(
                JsonV::Object(
                    request_fields(msgs, tools, model, thinking_budget, cache, counting),
                ),
                "system"@,
            );
            &&& i < 0 ==> said is None
            &&& 0 <= i < msgs.len() && msgs[i].role == Role::System ==> said is Some && tells_at(
                said->0,
                0,
                BlockV::Text { text: text_of_blocks(msgs[i].content) },
            ) && block_count(said->0) == 1
        }),
{
    let fs = request_fields(msgs, tools, model, thinking_budget, cache, counting);
    lemma_system_of(msgs, i);
    let at = if counting {
        2int
    } else {
        4
    };
    lemma_request_names_differ();
    match system_of(msgs) {
        Some(t) => {
            assert(fs[at].0 == "system"@);
            lemma_request_field(msgs, tools, model, thinking_budget, cache, counting, at);
            lemma_cached_tells(JsonV::Str(t), 0, BlockV::Text { text: t });
        },
        None => {
            assert forall|k: int| 0 <= k < fs.len() implies (#[trigger] fs[k]).0 != "system"@ by {}
            law_fields_are_found_by_name(fs, 0, "system"@);
        },
    }
}

proof fn lemma_system_of(msgs: Seq<MessageV>, i: int)
    requires
        forall|j: int|
            0 <= j < msgs.len() && i < j ==> (#[trigger] msgs[j]).role != Role::System,
    ensures
        i < 0 ==> system_of(msgs) is None,
        0 <= i < msgs.len() && msgs[i].role == Role::System ==> system_of(msgs) == Some(
            text_of_blocks(msgs[i].content),
        ),
    decreases msgs.len(),
{
    if msgs.len() > 0 {
        let front = msgs.drop_last();
        if i < msgs.len() - 1 {
            assert(msgs[msgs.len() - 1].role != Role::System);
            assert forall|j: int| 0 <= j < front.len() && i < j implies (#[trigger] front[j]).role
                != Role::System by {
                assert(msgs[j].role != Role::System);
            }
            lemma_system_of(front, i);
        }
    }
}

/// Every tool is offered, in order, by its name, with its description and the schema
/// of its input; without tools nothing is said of any. The model is the one asked
/// for. What is sent to be answered has a limit and streams, what is sent to be
/// counted has neither, and thinking is asked for exactly where there is a budget.
pub proof fn law_request_asks_for_what_is_wanted(
    msgs: Seq<MessageV>,
    tools: Seq<ToolSpecV>,
    model: Seq<char>,
    thinking_budget: Option<u32>,
    cache: bool,
    counting: bool,
    t: int,
)
    ensures
        ({
            let r = JsonV::Object(
                request_fields(msgs, tools, model, thinking_budget, cache, counting),
            );
            &&& field(r, "model"@) == Some(JsonV::Str(model))
            &&& tools.len() == 0 ==> field(r, "tools"@) is None
            &&& tools.len() > 0 ==> field(r, "tools"@) is Some && field(r, "tools"@)->0 is Array
                && field(r, "tools"@)->0->Array_0.len() == tools.len()
            &&& 0 <= t < tools.len() ==> {
                let item = field(r, "tools"@)->0->Array_0[t];
                &&& field(item, "name"@) == Some(JsonV::Str(tools[t].name))
                &&& field(item, "description"@) == Some(JsonV::Str(tools[t].description))
                &&& field(item, "input_schema"@) == Some(tools[t].schema)
            }
            &&& counting ==> field(r, "max_tokens"@) is None && field(r, "stream"@) is None
            &&& !counting ==> field(r, "stream"@) == Some(JsonV::Bool(true)) && field(
                r,
                "max_tokens"@,
            ) == Some(JsonV::Number(decimal(16384)))
            &&& thinking_budget is None ==> field(r, "thinking"@) is None
            &&& thinking_budget matches Some(b) ==> field(r, "thinking"@) is Some && field(
                field(r, "thinking"@)->0,
                "budget_tokens"@,
            ) == Some(JsonV::Number(decimal(b as nat))) && field(
                field(r, "thinking"@)->0,
                "type"@,
            ) == Some(JsonV::Str("enabled"@))
        }),
{
    let fs = request_fields(msgs, tools, model, thinking_budget, cache, counting);
    let r = JsonV::Object(fs);
    let o = if counting {
        0int
    } else {
        1
    };
    lemma_request_names_differ();
    lemma_names_differ();
    lemma_request_field(msgs, tools, model, thinking_budget, cache, counting, o + 1);
    assert(fs[o + 1] == ("model"@, JsonV::Str(model)));
    if !counting {
        lemma_request_field(msgs, tools, model, thinking_budget, cache, counting, 0);
        lemma_request_field(msgs, tools, model, thinking_budget, cache, counting, 3);
        assert(fs[3] == ("stream"@, JsonV::Bool(true)));
    } else {
        assert forall|k: int| 0 <= k < fs.len() implies (#[trigger] fs[k]).0 != "max_tokens"@
            && fs[k].0 != "stream"@ by {}
        law_fields_are_found_by_name(fs, 0, "max_tokens"@);
        law_fields_are_found_by_name(fs, 0, "stream"@);
    }
    let sys = if system_of(msgs) is Some {
        1int
    } else {
        0
    };
    let th = 2 + 2 * o + sys;
    match thinking_budget {
        Some(b) => {
            assert(fs[th].0 == "thinking"@);
            lemma_request_field(msgs, tools, model, thinking_budget, cache, counting, th);
            let inner = fs[th].1->Object_0;
            reveal_strlit("budget_tokens");
            reveal_strlit("type");
            assert("budget_tokens"@.len() == 13 && "type"@.len() == 4);
            law_fields_are_found_by_name(inner, 0, "budget_tokens"@);
            law_fields_are_found_by_name(inner, 1, "type"@);
        },
        None => {
            assert forall|k: int| 0 <= k < fs.len() implies (#[trigger] fs[k]).0 != "thinking"@ by {}
            law_fields_are_found_by_name(fs, 0, "thinking"@);
        },
    }
    if tools.len() == 0 {
        assert forall|k: int| 0 <= k < fs.len() implies (#[trigger] fs[k]).0 != "tools"@ by {}
        law_fields_are_found_by_name(fs, 0, "tools"@);
    } else {
        let at = fs.len() - 1;
        assert(fs[at] == ("tools"@, JsonV::Array(tools_json(tools, cache))));
        lemma_request_field(msgs, tools, model, thinking_budget, cache, counting, at);
        if 0 <= t < tools.len() {
            let plain = tool_json(tools[t]);
            law_fields_are_found_by_name(plain->Object_0, 0, "description"@);
            law_fields_are_found_by_name(plain->Object_0, 1, "input_schema"@);
            law_fields_are_found_by_name(plain->Object_0, 2, "name"@);
            lemma_mark_hides_nothing(plain, "name"@);
            lemma_mark_hides_nothing(plain, "description"@);
            lemma_mark_hides_nothing(plain, "input_schema"@);
        }
    }
}

/// With the cache, the last block of the last message carries the mark, and the last
/// tool: what comes behind them next time is all that is new.
pub proof fn law_cache_marks_the_end(msgs: Seq<MessageV>, tools: Seq<ToolSpecV>)
    ensures
        ({
            let messages = messages_json(sent(msgs), true);
            let mark = JsonV::Object(seq![("type"@, JsonV::Str("ephemeral"@))]);
            &&& messages.len() > 0 && block_count(sent(msgs).last().1) > 0 ==> {
                let c = field(messages.last(), "content"@);
                &&& c is Some && c->0 is Array && c->0->Array_0.len() > 0
                &&& c->0->Array_0.last() is Object ==> field(
                    c->0->Array_0.last(),
                    "cache_control"@,
                ) == Some(mark)
            }
            &&& tools.len() > 0 ==> field(tools_json(tools, true).last(), "cache_control"@) == Some(
                mark,
            )
        }),
{
    let s = sent(msgs);
    let messages = messages_json(s, true);
    let mark = JsonV::Object(seq![("type"@, JsonV::Str("ephemeral"@))]);
    lemma_names_differ();
    if messages.len() > 0 && block_count(s.last().1) > 0 {
        let p = s.len() - 1;
        law_fields_are_found_by_name(messages[p]->Object_0, 0, "content"@);
        lemma_sent_is_content(msgs, p);
        match s[p].1 {
            JsonV::Str(t) => {
                law_fields_are_found_by_name(cached_text(t)->Object_0, 0, "cache_control"@);
            },
            JsonV::Array(items) => {
                if let JsonV::Object(fs) = items.last() {
                    lemma_field_is_set(fs, "cache_control"@, ephemeral());
                }
            },
            _ => {},
        }
    }
    if tools.len() > 0 {
        lemma_field_is_set(
            tool_json(tools.last())->Object_0,
            "cache_control"@,
            ephemeral(),
        );
    }
}

} // verus!
