//! The configuration: the user's own file with the project's laid over it. A
//! file that is missing or malformed contributes nothing.
use vstd::prelude::*;
use crate::ai::setting_view;
use crate::checks::text_view;
use crate::json::{
    add_field, add_item, arr, field, field_views, fields_in, items_in, js, json_views,
    key_at, law_fields_are_found_by_name, lemma_field_is_set, lemma_json_views, lemma_key_at_range, lemma_other_field_stays,
    no_fields, no_items, obj, parsed_json, set_field, text_field, text_in, whole_field, with_field, Json, JsonV,
};
use crate::paths::{
    in_dir, join_path, law_paths_stand_in_their_directory,
};
use crate::text::{
    begins, cat3, decimal, ends, law_numbers_are_read_back, same, texts,
};

verus! {

// ------------------------------------------------------------ places

/// A file of the user's own, under the home directory.
pub open spec fn home_file(home: Option<Seq<char>>, name: Seq<char>) -> Option<Seq<char>> {
    match home {
        Some(h) => Some(in_dir(h, name)),
        None => None,
    }
}

/// The user's own configuration file; none without a home directory.
pub fn global_path(home: Option<&str>) -> (r: Option<String>)
    ensures
        text_view(r) == home_file(setting_view(home), ".sirbone/config.json"@),
{
    match home {
        Some(h) => Some(join_path(h, ".sirbone/config.json")),
        None => None,
    }
}

/// The user's own file of environment variables; none without a home directory.
pub fn global_env_path(home: Option<&str>) -> (r: Option<String>)
    ensures
        text_view(r) == home_file(setting_view(home), ".sirbone/.env"@),
{
    match home {
        Some(h) => Some(join_path(h, ".sirbone/.env")),
        None => None,
    }
}

/// The project's configuration file, in the directory that is kept for it.
pub fn project_path(project_dir: Option<&str>) -> (r: Option<String>)
    ensures
        text_view(r) == home_file(setting_view(project_dir), "config.json"@),
{
    match project_dir {
        Some(d) => Some(join_path(d, "config.json")),
        None => None,
    }
}

/// What became of the user's file of environment variables.
#[derive(Debug)]
pub struct LoginInfo {
    pub path: String,
    /// Whether it has to be created: what is there is never written over.
    pub created: bool,
}

/// Decides what to do about the user's file of environment variables: it is
/// created where it does not exist.
pub fn ensure_global_env(home: Option<&str>, exists_there: bool) -> (r: Result<LoginInfo, String>)
    ensures
        match r {
            Ok(i) => home_file(setting_view(home), ".sirbone/.env"@) == Some(i.path@) && i.created
                == !exists_there,
            Err(e) => home is None && e@ == "HOME is not set"@,
        },
{
    match global_env_path(home) {
        Some(path) => Ok(LoginInfo { path, created: !exists_there }),
        None => Err("HOME is not set".to_owned()),
    }
}

// ------------------------------------------------------------ merging

/// The list with the items of another that it does not hold.
pub open spec fn unioned(list: Seq<JsonV>, more: Seq<JsonV>) -> Seq<JsonV>
    decreases more.len(),
{
    if more.len() == 0 {
        list
    } else {
        let before = unioned(list, more.drop_last());
        if before.contains(more.last()) {
            before
        } else {
            before.push(more.last())
        }
    }
}

/// The name of a list of rules, of which a project may add to the user's own and
/// drop none.
pub open spec fn is_rule_list(key: Seq<char>) -> bool {
    key == "allow"@ || key == "soft_deny"@
}

/// The value of a key in the merged section: two objects are merged in their
/// turn, two lists of rules at the top of the section are united, anything else is
/// the project's.
pub open spec fn merged_value(
    top: bool,
    key: Seq<char>,
    base: Option<JsonV>,
    overlay: JsonV,
) -> JsonV
    decreases overlay,
{
    match (base, overlay) {
        (Some(JsonV::Object(b)), JsonV::Object(o)) => JsonV::Object(merged_fields(false, b, o)),
        (Some(JsonV::Array(b)), JsonV::Array(o)) => if top && is_rule_list(key) {
            JsonV::Array(unioned(b, o))
        } else {
            overlay
        },
        _ => overlay,
    }
}

/// The fields of a section, or of an object within it, with the project's laid
/// over them.
pub open spec fn merged_fields(
    top: bool,
    base: Seq<(Seq<char>, JsonV)>,
    overlay: Seq<(Seq<char>, JsonV)>,
) -> Seq<(Seq<char>, JsonV)>
    decreases overlay,
{
    if overlay.len() == 0 {
        base
    } else {
        let before = merged_fields(top, base, overlay.subrange(0, overlay.len() - 1));
        let key = overlay[overlay.len() - 1].0;
        with_field(
            before,
            key,
            merged_value(
                top,
                key,
                field(JsonV::Object(before), key),
                overlay[overlay.len() - 1].1,
            ),
        )
    }
}

/// Two values in one: objects are merged at every depth, else the project's value
/// counts.
pub open spec fn merged_at(top: bool, base: JsonV, overlay: JsonV) -> JsonV {
    match (base, overlay) {
        (JsonV::Object(b), JsonV::Object(o)) => JsonV::Object(merged_fields(top, b, o)),
        _ => overlay,
    }
}

/// Two values of a section in one.
pub open spec fn merged(base: JsonV, overlay: JsonV) -> JsonV {
    merged_at(true, base, overlay)
}

fn holds_value(list: &Vec<Json>, v: &Json) -> (b: bool)
    ensures
        b == json_views(list@).contains(v@),
{
    let ghost js = json_views(list@);
    let mut i: usize = 0;
    while i < list.len()
        invariant
            i <= list@.len(),
            js == json_views(list@),
            forall|k: int| 0 <= k < i ==> js[k] != v@,
        decreases list@.len() - i,
    {
        assert(js[i as int] == list@[i as int]@);
        if list[i].equals(v) {
            return true;
        }
        i += 1;
    }
    false
}

fn copy_items(items: &Vec<Json>) -> (r: Vec<Json>)
    ensures
        json_views(r@) == json_views(items@),
{
    let ghost js = json_views(items@);
    let mut out = no_items();
    let mut i: usize = 0;
    assert(js.take(0) =~= Seq::empty());
    while i < items.len()
        invariant
            i <= items@.len(),
            js == json_views(items@),
            json_views(out@) == js.take(i as int),
        decreases items@.len() - i,
    {
        assert(js[i as int] == items@[i as int]@);
        add_item(&mut out, items[i].clone());
        assert(js.take(i as int).push(js[i as int]) =~= js.take(i + 1));
        i += 1;
    }
    assert(js.take(i as int) =~= js);
    out
}

fn copy_fields(fields: &Vec<(String, Json)>) -> (r: Vec<(String, Json)>)
    ensures
        field_views(r@) == field_views(fields@),
{
    let ghost fs = field_views(fields@);
    let mut out = no_fields();
    let mut i: usize = 0;
    assert(fs.take(0) =~= Seq::empty());
    while i < fields.len()
        invariant
            i <= fields@.len(),
            fs == field_views(fields@),
            field_views(out@) == fs.take(i as int),
        decreases fields@.len() - i,
    {
        assert(fs[i as int] == (fields@[i as int].0@, fields@[i as int].1@));
        add_field(&mut out, fields[i].0.as_str(), fields[i].1.clone());
        assert(fs.take(i as int).push(fs[i as int]) =~= fs.take(i + 1));
        i += 1;
    }
    assert(fs.take(i as int) =~= fs);
    out
}

fn union_of(list: &Vec<Json>, more: &Vec<Json>) -> (r: Vec<Json>)
    ensures
        json_views(r@) == unioned(json_views(list@), json_views(more@)),
{
    let ghost ms = json_views(more@);
    let mut out = copy_items(list);
    let mut i: usize = 0;
    assert(ms.take(0) =~= Seq::empty());
    while i < more.len()
        invariant
            i <= more@.len(),
            ms == json_views(more@),
            json_views(out@) == unioned(json_views(list@), ms.take(i as int)),
        decreases more@.len() - i,
    {
        assert(ms.take(i + 1).drop_last() =~= ms.take(i as int));
        assert(ms.take(i + 1).last() == more@[i as int]@);
        if !holds_value(&out, &more[i]) {
            add_item(&mut out, more[i].clone());
        }
        i += 1;
    }
    assert(ms.take(i as int) =~= ms);
    out
}

fn value_of(top: bool, key: &str, base: Option<&Json>, overlay: &Json) -> (r: Json)
    ensures
        r@ == merged_value(top, key@, json_option(base), overlay@),
    decreases overlay, 1int,
{
    proof {
        lemma_json_views(*overlay);
        if let Some(b) = base {
            lemma_json_views(*b);
        }
    }
    match (base, overlay) {
        (Some(Json::Object(_)), Json::Object(_)) => match base {
            Some(b) => merge_at(false, b, overlay),
            None => overlay.clone(),
        },
        (Some(Json::Array(old_items)), Json::Array(new_items)) => {
            if top && (same(key, "allow") || same(key, "soft_deny")) {
                arr(union_of(old_items, new_items))
            } else {
                overlay.clone()
            }
        },
        _ => overlay.clone(),
    }
}

/// Merges two values of a section; see [`merged`].
pub fn merge_objects(base: &Json, overlay: &Json) -> (r: Json)
    ensures
        r@ == merged(base@, overlay@),
{
    merge_at(true, base, overlay)
}

fn merge_at(top: bool, base: &Json, overlay: &Json) -> (r: Json)
    ensures
        r@ == merged_at(top, base@, overlay@),
    decreases overlay, 0int,
{
    proof {
        lemma_json_views(*base);
        lemma_json_views(*overlay);
    }
    match (base, overlay) {
        (Json::Object(b), Json::Object(o)) => {
            let ghost os = field_views(o@);
            let ghost bs = field_views(b@);
            let mut out = obj(copy_fields(b));
            let mut i: usize = 0;
            assert(os.take(0) =~= Seq::empty());
            while i < o.len()
                invariant
                    i <= o@.len(),
                    os == field_views(o@),
                    *overlay == Json::Object(*o),
                    out@ == JsonV::Object(merged_fields(top, bs, os.take(i as int))),
                decreases o@.len() - i,
            {
                let ghost next_os = os.take(i + 1);
                assert(next_os.subrange(0, next_os.len() - 1) =~= os.take(i as int));
                assert(next_os[next_os.len() - 1] == (o@[i as int].0@, o@[i as int].1@));
                let key = o[i].0.as_str();
                assert(decreases_to!(*overlay => overlay->Object_0));
                assert(decreases_to!(overlay->Object_0 => o@));
                assert(decreases_to!(o@ => o@[i as int]));
                assert(decreases_to!(o@[i as int] => o@[i as int].1));
                let value = value_of(top, key, out.get(key), &o[i].1);
                if let Some(fields) = out.as_object() {
                    let mut next = copy_fields(fields);
                    set_field(&mut next, o[i].0.clone(), value);
                    out = obj(next);
                }
                i += 1;
            }
            assert(os.take(i as int) =~= os);
            out
        },
        _ => overlay.clone(),
    }
}

/// The section of the two files in one, where either has it.
pub open spec fn merged_section(global: Option<JsonV>, project: Option<JsonV>) -> Option<JsonV> {
    match (global, project) {
        (None, None) => None,
        (None, Some(p)) => Some(p),
        (Some(g), None) => Some(g),
        (Some(g), Some(p)) => Some(merged(g, p)),
    }
}

/// What an optional value stands for.
pub open spec fn json_option(v: Option<&Json>) -> Option<JsonV> {
    match v {
        Some(v) => Some(v@),
        None => None,
    }
}

/// What an optional value of one's own stands for.
pub open spec fn own_option(v: Option<Json>) -> Option<JsonV> {
    match v {
        Some(v) => Some(v@),
        None => None,
    }
}

/// Merges the section of the two files; see [`merged_section`].
pub fn merge_section(global: Option<&Json>, project: Option<&Json>) -> (r: Option<Json>)
    ensures
        own_option(r) == merged_section(json_option(global), json_option(project)),
{
    match (global, project) {
        (None, None) => None,
        (None, Some(p)) => Some(p.clone()),
        (Some(g), None) => Some(g.clone()),
        (Some(g), Some(p)) => Some(merge_objects(g, p)),
    }
}

/// The section of a file.
pub open spec fn section_in(root: Option<JsonV>, key: Seq<char>) -> Option<JsonV> {
    match root {
        Some(v) => field(v, key),
        None => None,
    }
}

fn section_of<'a>(root: Option<&'a Json>, key: &str) -> (r: Option<&'a Json>)
    ensures
        json_option(r) == section_in(json_option(root), key@),
{
    match root {
        Some(v) => v.get(key),
        None => None,
    }
}

/// A section of the configuration: the user's file with the project's laid over
/// it.
pub fn section(key: &str, global: Option<&Json>, project: Option<&Json>) -> (r: Option<Json>)
    ensures
        own_option(r) == merged_section(
            section_in(json_option(global), key@),
            section_in(json_option(project), key@),
        ),
{
    merge_section(section_of(global, key), section_of(project, key))
}

/// Reads a configuration file; `None` where it is missing or malformed.
pub fn read(text: Option<&str>) -> (r: Option<Json>)
    ensures
        own_option(r) == (match setting_view(text) {
            Some(t) => parsed_json(t),
            None => None,
        }),
{
    match text {
        Some(t) => Json::parse(t),
        None => None,
    }
}

// ------------------------------------------------------------ settings

/// The cap on tokens that a section asks for: none unless it is switched on and
/// above zero.
pub open spec fn cap_in(section: Option<JsonV>) -> Option<nat> {
    match section {
        Some(s) => if field(s, "enabled"@) == Some(JsonV::Bool(true)) {
            match whole_field(s, "max_tokens"@) {
                Some(n) => if n > 0 {
                    Some(n)
                } else {
                    None
                },
                None => None,
            }
        } else {
            None
        },
        None => None,
    }
}

/// The cap on tokens, from the section `spend_cap`; see [`cap_in`].
pub fn spend_cap(section: Option<&Json>) -> (r: Option<u64>)
    ensures
        match r {
            Some(n) => cap_in(json_option(section)) == Some(n as nat),
            None => cap_in(json_option(section)) is None,
        },
{
    match section {
        Some(s) => {
            let enabled = match s.get("enabled") {
                Some(v) => match v.as_bool() {
                    Some(b) => b,
                    None => false,
                },
                None => false,
            };
            if !enabled {
                return None;
            }
            match s.u64_at("max_tokens") {
                Some(n) => if n > 0 {
                    Some(n)
                } else {
                    None
                },
                None => None,
            }
        },
        None => None,
    }
}

/// The name of the colour theme, from the section `cli`.
pub fn cli_theme(section: Option<&Json>) -> (r: Option<String>)
    ensures
        text_view(r) == (match section {
            Some(s) => text_field(s@, "theme"@),
            None => None,
        }),
{
    match section {
        Some(s) => match s.str_at("theme") {
            Some(t) => Some(t.to_owned()),
            None => None,
        },
        None => None,
    }
}

/// The texts among some values.
pub open spec fn texts_among(items: Seq<JsonV>) -> Seq<Seq<char>>
    decreases items.len(),
{
    if items.len() == 0 {
        Seq::empty()
    } else {
        let before = texts_among(items.drop_last());
        match text_in(items.last()) {
            Some(t) => before.push(t),
            None => before,
        }
    }
}

/// The texts of a list in a section; nothing where there is no such list.
pub open spec fn listed_texts(root: Option<JsonV>, section: Seq<char>, key: Seq<char>) -> Seq<
    Seq<char>,
> {
    match section_in(section_in(root, section), key) {
        Some(v) => match items_in(v) {
            Some(items) => texts_among(items),
            None => Seq::empty(),
        },
        None => Seq::empty(),
    }
}

/// Reads a list of texts; see [`listed_texts`].
pub fn string_array(root: Option<&Json>, section: &str, key: &str) -> (r: Vec<String>)
    ensures
        texts(r@) == listed_texts(json_option(root), section@, key@),
{
    let mut out: Vec<String> = Vec::new();
    assert(texts(out@) =~= Seq::empty());
    if let Some(v) = section_of(section_of(root, section), key) {
        if let Some(items) = v.as_array() {
            let ghost js = json_views(items@);
            let mut i: usize = 0;
            assert(js.take(0) =~= Seq::empty());
            while i < items.len()
                invariant
                    i <= items@.len(),
                    js == json_views(items@),
                    texts(out@) == texts_among(js.take(i as int)),
                decreases items@.len() - i,
            {
                assert(js.take(i + 1).drop_last() =~= js.take(i as int));
                assert(js.take(i + 1).last() == items@[i as int]@);
                let ghost before = texts(out@);
                if let Some(t) = items[i].as_str() {
                    out.push(t.to_owned());
                    assert(texts(out@) =~= before.push(t@));
                }
                i += 1;
            }
            assert(js.take(i as int) =~= js);
        }
    }
    out
}

/// The skills that the project switches on; without a list there are none. The
/// user's own file does not count.
pub fn skills_enabled(project: Option<&Json>) -> (r: Vec<String>)
    ensures
        texts(r@) == listed_texts(json_option(project), "skills"@, "enabled"@),
{
    string_array(project, "skills", "enabled")
}

/// The MCP servers that the project switches on, likewise.
pub fn mcp_enabled(project: Option<&Json>) -> (r: Vec<String>)
    ensures
        texts(r@) == listed_texts(json_option(project), "mcp"@, "enabled"@),
{
    string_array(project, "mcp", "enabled")
}

/// A list of texts as a value.
pub open spec fn text_list(names: Seq<Seq<char>>) -> JsonV {
    JsonV::Array(names.map_values(|n: Seq<char>| JsonV::Str(n)))
}

/// The fields of a file with a list in one of its sections; everything else
/// stays. An error where the section is something else than an object.
pub open spec fn with_list(
    fields: Seq<(Seq<char>, JsonV)>,
    section: Seq<char>,
    key: Seq<char>,
    names: Seq<Seq<char>>,
) -> Option<Seq<(Seq<char>, JsonV)>> {
    match field(JsonV::Object(fields), section) {
        None => Some(
            with_field(
                fields,
                section,
                JsonV::Object(with_field(Seq::empty(), key, text_list(names))),
            ),
        ),
        Some(JsonV::Object(s)) => Some(
            with_field(fields, section, JsonV::Object(with_field(s, key, text_list(names)))),
        ),
        Some(_) => None,
    }
}

fn list_of(names: &Vec<String>) -> (r: Json)
    ensures
        r@ == text_list(texts(names@)),
{
    let ghost ns = texts(names@);
    let ghost all = ns.map_values(|n: Seq<char>| JsonV::Str(n));
    let mut out = no_items();
    let mut i: usize = 0;
    assert(all.take(0) =~= Seq::empty());
    while i < names.len()
        invariant
            i <= names@.len(),
            ns == texts(names@),
            all == ns.map_values(|n: Seq<char>| JsonV::Str(n)),
            json_views(out@) == all.take(i as int),
        decreases names@.len() - i,
    {
        assert(ns[i as int] == names@[i as int]@);
        add_item(&mut out, js(names[i].as_str()));
        assert(all.take(i as int).push(all[i as int]) =~= all.take(i + 1));
        i += 1;
    }
    assert(all.take(i as int) =~= all);
    arr(out)
}

/// The file with a list in one of its sections; see [`with_list`]. A missing
/// file counts as an empty one.
pub fn set_project_array(root: Option<&Json>, section: &str, key: &str, names: &Vec<String>) -> (r:
    Result<Json, String>)
    ensures
        ({
            let fields = match root {
                Some(v) => fields_in(v@),
                None => Some(Seq::empty()),
            };
            match fields {
                None => r matches Err(e) && e@ == "config root is not an object"@,
                Some(f) => match with_list(f, section@, key@, texts(names@)) {
                    Some(after) => r matches Ok(v) && v@ == JsonV::Object(after),
                    None => r matches Err(e) && e@ == "config `"@ + section@
                        + "` is not an object"@,
                },
            }
        }),
{
    let mut fields = match root {
        Some(v) => match v.as_object() {
            Some(f) => copy_fields(f),
            None => {
                return Err("config root is not an object".to_owned());
            },
        },
        None => no_fields(),
    };
    let ghost before = field_views(fields@);
    let at = crate::json::find_key(&fields, section);
    let mut inner = match at {
        Some(i) => {
            assert(field_views(fields@)[i as int].1 == fields@[i as int].1@);
            match fields[i].1.as_object() {
                Some(s) => copy_fields(s),
                None => {
                    return Err(cat3("config `", section, "` is not an object"));
                },
            }
        },
        None => no_fields(),
    };
    set_field(&mut inner, key.to_owned(), list_of(names));
    set_field(&mut fields, section.to_owned(), obj(inner));
    Ok(obj(fields))
}

/// The project's file with its list of skills.
pub fn set_skills_enabled(root: Option<&Json>, names: &Vec<String>) -> (r: Result<Json, String>)
    ensures
        ({
            let fields = match root {
                Some(v) => fields_in(v@),
                None => Some(Seq::empty()),
            };
            match fields {
                None => r matches Err(e) && e@ == "config root is not an object"@,
                Some(f) => match with_list(f, "skills"@, "enabled"@, texts(names@)) {
                    Some(after) => r matches Ok(v) && v@ == JsonV::Object(after),
                    None => r matches Err(e) && e@ == "config `"@ + "skills"@
                        + "` is not an object"@,
                },
            }
        }),
{
    set_project_array(root, "skills", "enabled", names)
}

/// The project's file with its list of MCP servers.
pub fn set_mcp_enabled(root: Option<&Json>, names: &Vec<String>) -> (r: Result<Json, String>)
    ensures
        ({
            let fields = match root {
                Some(v) => fields_in(v@),
                None => Some(Seq::empty()),
            };
            match fields {
                None => r matches Err(e) && e@ == "config root is not an object"@,
                Some(f) => match with_list(f, "mcp"@, "enabled"@, texts(names@)) {
                    Some(after) => r matches Ok(v) && v@ == JsonV::Object(after),
                    None => r matches Err(e) && e@ == "config `"@ + "mcp"@ + "` is not an object"@,
                },
            }
        }),
{
    set_project_array(root, "mcp", "enabled", names)
}

/// The fields without the first of that name.
pub open spec fn without_field(fields: Seq<(Seq<char>, JsonV)>, key: Seq<char>) -> Seq<
    (Seq<char>, JsonV),
> {
    match key_at(fields, key) {
        Some(i) => fields.remove(i),
        None => fields,
    }
}

fn remove_field(fields: &mut Vec<(String, Json)>, key: &str) -> (b: bool)
    ensures
        field_views(final(fields)@) == without_field(field_views(old(fields)@), key@),
        b == (key_at(field_views(old(fields)@), key@) is Some),
{
    let ghost before = field_views(fields@);
    match crate::json::find_key(fields, key) {
        Some(i) => {
            fields.remove(i);
            assert(field_views(fields@) =~= before.remove(i as int));
            true
        },
        None => false,
    }
}

/// What becomes of the section `skills`: its list of what is switched off goes,
/// and the section with it where nothing else is in it.
pub open spec fn without_disabled(fields: Seq<(Seq<char>, JsonV)>) -> Seq<(Seq<char>, JsonV)> {
    match field(JsonV::Object(fields), "skills"@) {
        Some(JsonV::Object(s)) => {
            let left = without_field(s, "disabled"@);
            if left.len() == 0 {
                without_field(fields, "skills"@)
            } else {
                with_field(fields, "skills"@, JsonV::Object(left))
            }
        },
        _ => fields,
    }
}

/// A field that no longer counts is in the user's own file.
pub open spec fn obsolete(fields: Seq<(Seq<char>, JsonV)>) -> bool {
    key_at(fields, "mcpServers"@) is Some || (field(
        JsonV::Object(without_field(fields, "mcpServers"@)),
        "skills"@,
    ) matches Some(JsonV::Object(s)) && key_at(s, "disabled"@) is Some)
}

/// The user's own file without the fields that no longer count; `None` where
/// there is nothing to write.
pub fn strip_obsolete_global_keys(root: &Json) -> (r: Option<Json>)
    ensures
        match fields_in(root@) {
            Some(f) => if obsolete(f) {
                r matches Some(v) && v@ == JsonV::Object(
                    without_disabled(without_field(f, "mcpServers"@)),
                )
            } else {
                r is None
            },
            None => r is None,
        },
{
    let mut fields = match root.as_object() {
        Some(f) => copy_fields(f),
        None => {
            return None;
        },
    };
    let mut changed = remove_field(&mut fields, "mcpServers");
    let ghost mid = field_views(fields@);
    let at = crate::json::find_key(&fields, "skills");
    if let Some(i) = at {
        assert(mid[i as int].1 == fields@[i as int].1@);
        let inner = match fields[i].1.as_object() {
            Some(s) => Some(copy_fields(s)),
            None => None,
        };
        if let Some(mut s) = inner {
            let ghost sv = field_views(s@);
            let dropped = remove_field(&mut s, "disabled");
            changed = changed || dropped;
            assert(field_views(s@).len() == s@.len());
            if s.len() == 0 {
                let gone = remove_field(&mut fields, "skills");
            } else {
                set_field(&mut fields, "skills".to_owned(), obj(s));
            }
        }
    }
    if changed {
        Some(obj(fields))
    } else {
        None
    }
}

// ------------------------------------------------------------ laws

/// A project can add to the user's rules and drop none: in the union every item
/// of both lists stands, and nothing else.
pub proof fn law_union_keeps_every_rule(list: Seq<JsonV>, more: Seq<JsonV>, rule: JsonV)
    ensures
        unioned(list, more).contains(rule) <==> list.contains(rule) || more.contains(rule),
    decreases more.len(),
{
    if more.len() > 0 {
        let front = more.drop_last();
        law_union_keeps_every_rule(list, front, rule);
        let before = unioned(list, front);
        assert(more =~= front.push(more.last()));
        assert(more.contains(rule) <==> front.contains(rule) || rule == more.last()) by {
            if front.contains(rule) {
                let i = choose|i: int| 0 <= i < front.len() && front[i] == rule;
                assert(more[i] == rule);
            }
            if rule == more.last() {
                assert(more[more.len() - 1] == rule);
            }
            if more.contains(rule) {
                let i = choose|i: int| 0 <= i < more.len() && more[i] == rule;
                if i < front.len() {
                    assert(front[i] == rule);
                }
            }
        }
        let after = unioned(list, more);
        if !before.contains(more.last()) {
            assert(after == before.push(more.last()));
            assert(after.contains(rule) <==> before.contains(rule) || rule == more.last()) by {
                if before.contains(rule) {
                    let i = choose|i: int| 0 <= i < before.len() && before[i] == rule;
                    assert(after[i] == rule);
                }
                if rule == more.last() {
                    assert(after[after.len() - 1] == rule);
                }
                if after.contains(rule) {
                    let i = choose|i: int| 0 <= i < after.len() && after[i] == rule;
                    if i < before.len() {
                        assert(before[i] == rule);
                    }
                }
            }
        }
    }
}

/// A key that the project does not name keeps the user's value.
pub proof fn law_unnamed_keys_stay(
    top: bool,
    base: Seq<(Seq<char>, JsonV)>,
    overlay: Seq<(Seq<char>, JsonV)>,
    key: Seq<char>,
)
    requires
        forall|i: int| 0 <= i < overlay.len() ==> (#[trigger] overlay[i]).0 != key,
    ensures
        field(JsonV::Object(merged_fields(top, base, overlay)), key) == field(
            JsonV::Object(base),
            key,
        ),
    decreases overlay.len(),
{
    if overlay.len() > 0 {
        let front = overlay.subrange(0, overlay.len() - 1);
        assert forall|i: int| 0 <= i < front.len() implies (#[trigger] front[i]).0 != key by {
            assert(front[i] == overlay[i]);
        }
        law_unnamed_keys_stay(top, base, front, key);
        let before = merged_fields(top, base, front);
        let (k, v) = overlay.last();
        assert(overlay[overlay.len() - 1].0 != key);
        lemma_other_field_stays(
            before,
            k,
            merged_value(top, k, field(JsonV::Object(before), k), v),
            key,
        );
    }
}

/// A key that the project names has the project's value, merged with the user's
/// where both are objects, and united with it where both are lists of rules at the
/// top of the section.
pub proof fn law_named_keys_are_merged(
    top: bool,
    base: Seq<(Seq<char>, JsonV)>,
    overlay: Seq<(Seq<char>, JsonV)>,
    i: int,
)
    requires
        0 <= i < overlay.len(),
        forall|a: int, b: int|
            0 <= a < b < overlay.len() ==> (#[trigger] overlay[a]).0 != (#[trigger] overlay[b]).0,
    ensures
        field(JsonV::Object(merged_fields(top, base, overlay)), overlay[i].0) == Some(
            merged_value(
                top,
                overlay[i].0,
                field(JsonV::Object(base), overlay[i].0),
                overlay[i].1,
            ),
        ),
    decreases overlay.len(),
{
    let front = overlay.subrange(0, overlay.len() - 1);
    let before = merged_fields(top, base, front);
    let (k, v) = overlay.last();
    let value = merged_value(top, k, field(JsonV::Object(before), k), v);
    assert forall|a: int, b: int| 0 <= a < b < front.len() implies (#[trigger] front[a]).0 != (
    #[trigger] front[b]).0 by {
        assert(front[a] == overlay[a] && front[b] == overlay[b]);
    }
    if i == overlay.len() - 1 {
        assert forall|j: int| 0 <= j < front.len() implies (#[trigger] front[j]).0 != k by {
            assert(front[j] == overlay[j]);
            assert(overlay[j].0 != overlay[i].0);
        }
        law_unnamed_keys_stay(top, base, front, k);
        lemma_field_is_set(before, k, value);
    } else {
        law_named_keys_are_merged(top, base, front, i);
        assert(front[i] == overlay[i]);
        assert(overlay[i].0 != overlay[overlay.len() - 1].0);
        lemma_other_field_stays(before, k, value, overlay[i].0);
    }
}

/// The value under a path of keys.
pub open spec fn at_path(v: JsonV, path: Seq<Seq<char>>) -> Option<JsonV>
    decreases path.len(),
{
    if path.len() == 0 {
        Some(v)
    } else {
        match field(v, path[0]) {
            Some(f) => at_path(f, path.skip(1)),
            None => None,
        }
    }
}

/// The value goes some way along the path, by objects alone, and then does not
/// name the next key.
pub open spec fn leaves_out(v: JsonV, path: Seq<Seq<char>>) -> bool
    decreases path.len(),
{
    v is Object && path.len() > 0 && match field(v, path[0]) {
        Some(f) => leaves_out(f, path.skip(1)),
        None => true,
    }
}

/// No object in the value, down by objects, names a key twice.
pub open spec fn names_once(v: JsonV) -> bool
    decreases v,
{
    match v {
        JsonV::Object(fields) => {
            &&& forall|a: int, b: int|
                0 <= a < b < fields.len() ==> (#[trigger] fields[a]).0 != (#[trigger] fields[b]).0
            &&& forall|i: int| 0 <= i < fields.len() ==> names_once((#[trigger] fields[i]).1)
        },
        _ => true,
    }
}

/// A project never loses a rule of the user's: a rule in one of the user's lists
/// is in the merged one, whatever the project lists under that name.
pub proof fn law_no_rule_is_lost(
    base: Seq<(Seq<char>, JsonV)>,
    overlay: Seq<(Seq<char>, JsonV)>,
    key: Seq<char>,
    rule: JsonV,
)
    requires
        is_rule_list(key),
        names_once(JsonV::Object(overlay)),
        field(JsonV::Object(base), key) matches Some(JsonV::Array(rules)) && rules.contains(rule),
        match field(JsonV::Object(overlay), key) {
            None => true,
            Some(v) => v is Array,
        },
    ensures
        field(merged(JsonV::Object(base), JsonV::Object(overlay)), key) matches Some(
            JsonV::Array(rules),
        ) && rules.contains(rule),
{
    lemma_key_at_range(overlay, key);
    match key_at(overlay, key) {
        None => {
            law_unnamed_keys_stay(true, base, overlay, key);
        },
        Some(i) => {
            law_named_keys_are_merged(true, base, overlay, i);
            let own = field(JsonV::Object(base), key)->0->Array_0;
            law_union_keeps_every_rule(own, overlay[i].1->Array_0, rule);
        },
    }
}

/// A project that sets one key drops no other, at any depth: what the user's file
/// holds under a path that the project leaves out stays as it is.
pub proof fn law_nested_keys_stay(base: JsonV, overlay: JsonV, path: Seq<Seq<char>>)
    requires
        names_once(overlay),
        leaves_out(overlay, path),
        at_path(base, path) is Some,
    ensures
        at_path(merged(base, overlay), path) == at_path(base, path),
{
    lemma_nested_keys_stay(true, base, overlay, path);
}

proof fn lemma_nested_keys_stay(top: bool, base: JsonV, overlay: JsonV, path: Seq<Seq<char>>)
    requires
        names_once(overlay),
        leaves_out(overlay, path),
        at_path(base, path) is Some,
    ensures
        at_path(merged_at(top, base, overlay), path) == at_path(base, path),
    decreases path.len(),
{
    let b = base->Object_0;
    let o = overlay->Object_0;
    let rest = path.skip(1);
    let under = field(base, path[0])->0;
    assert(base is Object && field(base, path[0]) is Some);
    assert(at_path(base, path) == at_path(under, rest));
    lemma_key_at_range(o, path[0]);
    match key_at(o, path[0]) {
        None => {
            law_unnamed_keys_stay(top, b, o, path[0]);
        },
        Some(i) => {
            let over = o[i].1;
            assert(field(overlay, path[0]) == Some(over));
            assert(names_once(over));
            assert(leaves_out(over, rest));
            assert(over is Object && rest.len() > 0);
            assert(at_path(under, rest) is Some);
            assert(under is Object);
            lemma_nested_keys_stay(false, under, over, rest);
            law_named_keys_are_merged(top, b, o, i);
            assert(field(merged_at(top, base, overlay), path[0]) == Some(
                merged_at(false, under, over),
            ));
        },
    }
}

/// A value of the project's that is neither an object nor a list counts, at any
/// depth, whatever the user's file holds.
pub proof fn law_nested_values_count(base: JsonV, overlay: JsonV, path: Seq<Seq<char>>)
    requires
        names_once(overlay),
        at_path(overlay, path) matches Some(v) && v !is Object && v !is Array,
    ensures
        at_path(merged(base, overlay), path) == at_path(overlay, path),
{
    lemma_nested_values_count(true, base, overlay, path);
}

proof fn lemma_nested_values_count(
    top: bool,
    base: JsonV,
    overlay: JsonV,
    path: Seq<Seq<char>>,
)
    requires
        names_once(overlay),
        at_path(overlay, path) matches Some(v) && v !is Object && v !is Array,
    ensures
        at_path(merged_at(top, base, overlay), path) == at_path(overlay, path),
    decreases path.len(),
{
    if path.len() > 0 && base is Object {
        let o = overlay->Object_0;
        let rest = path.skip(1);
        assert(overlay is Object && field(overlay, path[0]) is Some);
        lemma_key_at_range(o, path[0]);
        let i = key_at(o, path[0])->0;
        let over = o[i].1;
        assert(field(overlay, path[0]) == Some(over));
        assert(at_path(overlay, path) == at_path(over, rest));
        assert(names_once(over));
        law_named_keys_are_merged(top, base->Object_0, o, i);
        if let Some(under) = field(base, path[0]) {
            lemma_nested_values_count(false, under, over, rest);
            if over is Array {
                assert(rest.len() > 0);
                assert(field(over, rest[0]) is None);
            }
            assert(field(merged_at(top, base, overlay), path[0]) == Some(
                merged_at(false, under, over),
            ));
        }
    }
}

/// A list within an object of the section is the project's, whatever its name:
/// only at the top of the section are rules united.
pub proof fn law_nested_lists_are_replaced(base: JsonV, overlay: JsonV, path: Seq<Seq<char>>)
    requires
        names_once(overlay),
        path.len() > 1,
        at_path(overlay, path) is Some,
        at_path(overlay, path)->0 is Array,
    ensures
        at_path(merged(base, overlay), path) == at_path(overlay, path),
{
    lemma_nested_lists_are_replaced(true, base, overlay, path);
}

proof fn lemma_nested_lists_are_replaced(
    top: bool,
    base: JsonV,
    overlay: JsonV,
    path: Seq<Seq<char>>,
)
    requires
        names_once(overlay),
        top ==> path.len() > 1,
        at_path(overlay, path) is Some,
        at_path(overlay, path)->0 is Array,
    ensures
        at_path(merged_at(top, base, overlay), path) == at_path(overlay, path),
    decreases path.len(),
{
    if path.len() > 0 && base is Object {
        let o = overlay->Object_0;
        let rest = path.skip(1);
        assert(overlay is Object && field(overlay, path[0]) is Some);
        lemma_key_at_range(o, path[0]);
        let i = key_at(o, path[0])->0;
        let over = o[i].1;
        assert(field(overlay, path[0]) == Some(over));
        assert(at_path(overlay, path) == at_path(over, rest));
        assert(names_once(over));
        law_named_keys_are_merged(top, base->Object_0, o, i);
        if let Some(under) = field(base, path[0]) {
            lemma_nested_lists_are_replaced(false, under, over, rest);
            if over is Array && rest.len() > 0 {
                assert(field(over, rest[0]) is None);
            }
            assert(field(merged_at(top, base, overlay), path[0]) == Some(
                merged_at(false, under, over),
            ));
        }
    }
}

/// What was written as a project's list is read back from the file.
pub proof fn law_written_list_is_read_back(
    fields: Seq<(Seq<char>, JsonV)>,
    section: Seq<char>,
    key: Seq<char>,
    names: Seq<Seq<char>>,
)
    requires
        with_list(fields, section, key, names) is Some,
    ensures
        listed_texts(
            Some(JsonV::Object(with_list(fields, section, key, names)->0)),
            section,
            key,
        ) == names,
{
    let inner = match field(JsonV::Object(fields), section) {
        Some(JsonV::Object(s)) => s,
        _ => Seq::empty(),
    };
    let items = names.map_values(|n: Seq<char>| JsonV::Str(n));
    let written_inner = JsonV::Object(with_field(inner, key, text_list(names)));
    lemma_field_is_set(fields, section, written_inner);
    lemma_field_is_set(inner, key, text_list(names));
    lemma_texts_among(names);
}

proof fn lemma_texts_among(names: Seq<Seq<char>>)
    ensures
        texts_among(names.map_values(|n: Seq<char>| JsonV::Str(n))) == names,
    decreases names.len(),
{
    let items = names.map_values(|n: Seq<char>| JsonV::Str(n));
    if names.len() > 0 {
        let front = names.drop_last();
        lemma_texts_among(front);
        assert(items.drop_last() =~= front.map_values(|n: Seq<char>| JsonV::Str(n)));
        assert(front.push(names.last()) =~= names);
    } else {
        assert(names =~= Seq::empty());
    }
}

/// Writing a list leaves every other section as it is.
pub proof fn law_other_sections_stay(
    fields: Seq<(Seq<char>, JsonV)>,
    section: Seq<char>,
    key: Seq<char>,
    names: Seq<Seq<char>>,
    other: Seq<char>,
)
    requires
        with_list(fields, section, key, names) is Some,
        other != section,
    ensures
        field(JsonV::Object(with_list(fields, section, key, names)->0), other) == field(
            JsonV::Object(fields),
            other,
        ),
{
    let inner = match field(JsonV::Object(fields), section) {
        Some(JsonV::Object(s)) => s,
        _ => Seq::empty(),
    };
    lemma_other_field_stays(
        fields,
        section,
        JsonV::Object(with_field(inner, key, text_list(names))),
        other,
    );
}

/// A project that says nothing switches nothing on.
pub proof fn law_nothing_is_on_by_default(section: Seq<char>, key: Seq<char>)
    ensures
        listed_texts(None, section, key).len() == 0,
{
}

/// A united list begins with the user's own rules, in their order, and holds no rule of
/// the project's twice.
pub proof fn law_union_begins_with_the_users_rules(list: Seq<JsonV>, more: Seq<JsonV>)
    ensures
        unioned(list, more).len() >= list.len(),
        unioned(list, more).take(list.len() as int) == list,
        list.no_duplicates() ==> unioned(list, more).no_duplicates(),
        unioned(list, Seq::empty()) == list,
    decreases more.len(),
{
    if more.len() == 0 {
        assert(list.take(list.len() as int) =~= list);
    } else {
        let before = unioned(list, more.drop_last());
        law_union_begins_with_the_users_rules(list, more.drop_last());
        if !before.contains(more.last()) {
            let all = before.push(more.last());
            assert(all.take(list.len() as int) =~= before.take(list.len() as int));
            if list.no_duplicates() {
                assert forall|a: int, b: int|
                    0 <= a < all.len() && 0 <= b < all.len() && a != b implies all[a] != all[b] by {
                    if a == before.len() {
                        assert(before.contains(before[b]));
                    }
                    if b == before.len() {
                        assert(before.contains(before[a]));
                    }
                }
            }
        }
    }
}

/// A file that is missing changes nothing: a section that one file alone has is taken as
/// it stands there, and where both have it neither is passed over.
pub proof fn law_one_file_is_enough(g: JsonV, p: JsonV, key: Seq<char>)
    ensures
        merged_section(Some(g), None) == Some(g),
        merged_section(None, Some(p)) == Some(p),
        merged_section(None, None) is None,
        merged_section(Some(g), Some(p)) is Some,
        g is Object && p is Object && field(p, key) is None ==> field(
            merged_section(Some(g), Some(p))->0,
            key,
        ) == field(g, key),
{
    if g is Object && p is Object && field(p, key) is None {
        let (b, o) = (g->Object_0, p->Object_0);
        assert forall|i: int| 0 <= i < o.len() implies (#[trigger] o[i]).0 != key by {
            lemma_key_at_range(o, key);
        }
        law_unnamed_keys_stay(true, b, o, key);
    }
}

/// A cap counts where it is switched on and above zero, and is the number that is
/// written there.
pub proof fn law_caps_are_as_written(s: JsonV, n: nat)
    requires
        n <= u64::MAX,
    ensures
        field(s, "max_tokens"@) == Some(JsonV::Number(decimal(n))) && field(s, "enabled"@) == Some(
            JsonV::Bool(true),
        ) ==> cap_in(Some(s)) == (if n > 0 {
            Some(n)
        } else {
            None
        }),
        field(s, "enabled"@) != Some(JsonV::Bool(true)) ==> cap_in(Some(s)) is None,
        cap_in(None) is None,
{
    law_numbers_are_read_back(n, n, u64::MAX as nat);
}

/// The texts of a list are read in their order, and what is no text is passed over.
pub proof fn law_lists_are_read_in_order(a: Seq<JsonV>, b: Seq<JsonV>, t: Seq<char>)
    ensures
        texts_among(a + b) == texts_among(a) + texts_among(b),
        texts_among(seq![JsonV::Str(t)]) == seq![t],
    decreases b.len(),
{
    let one = seq![JsonV::Str(t)];
    assert(one.drop_last() =~= Seq::empty());
    assert(texts_among(one.drop_last()) =~= Seq::empty());
    assert(texts_among(one) =~= seq![t]);
    if b.len() == 0 {
        assert(a + b =~= a);
        assert(texts_among(a) + texts_among(b) =~= texts_among(a));
    } else {
        law_lists_are_read_in_order(a, b.drop_last(), t);
        assert((a + b).drop_last() =~= a + b.drop_last());
        assert((a + b).last() == b.last());
        let (x, y) = (texts_among(a), texts_among(b.drop_last()));
        if let Some(c) = text_in(b.last()) {
            assert((x + y).push(c) =~= x + y.push(c));
        }
    }
}

/// Writing a list leaves the other keys of its section as they are.
pub proof fn law_other_keys_of_the_section_stay(
    fields: Seq<(Seq<char>, JsonV)>,
    section: Seq<char>,
    key: Seq<char>,
    names: Seq<Seq<char>>,
    other: Seq<char>,
)
    requires
        with_list(fields, section, key, names) is Some,
        other != key,
    ensures
        section_in(
            section_in(Some(JsonV::Object(with_list(fields, section, key, names)->0)), section),
            other,
        ) == section_in(section_in(Some(JsonV::Object(fields)), section), other),
{
    match field(JsonV::Object(fields), section) {
        Some(JsonV::Object(s)) => {
            let inner = JsonV::Object(with_field(s, key, text_list(names)));
            lemma_field_is_set(fields, section, inner);
            lemma_other_field_stays(s, key, text_list(names), other);
        },
        _ => {
            let none: Seq<(Seq<char>, JsonV)> = Seq::empty();
            let inner = JsonV::Object(with_field(none, key, text_list(names)));
            lemma_field_is_set(fields, section, inner);
            lemma_other_field_stays(none, key, text_list(names), other);
        },
    }
}

proof fn lemma_key_at_least(fields: Seq<(Seq<char>, JsonV)>, key: Seq<char>)
    ensures
        key_at(fields, key) matches Some(j) ==> forall|k: int|
            0 <= k < j ==> (#[trigger] fields[k]).0 != key,
    decreases fields.len(),
{
    if fields.len() > 0 {
        let front = fields.drop_last();
        lemma_key_at_least(front, key);
        lemma_key_at_range(front, key);
        if let Some(j) = key_at(fields, key) {
            assert forall|k: int| 0 <= k < j implies (#[trigger] fields[k]).0 != key by {
                assert(front[k] == fields[k]);
            }
        }
    }
}

proof fn lemma_others_stay_without(
    fields: Seq<(Seq<char>, JsonV)>,
    key: Seq<char>,
    other: Seq<char>,
)
    requires
        other != key,
    ensures
        field(JsonV::Object(without_field(fields, key)), other) == field(
            JsonV::Object(fields),
            other,
        ),
{
    lemma_key_at_range(fields, key);
    if let Some(i) = key_at(fields, key) {
        let left = fields.remove(i);
        lemma_key_at_range(fields, other);
        lemma_key_at_range(left, other);
        match key_at(fields, other) {
            Some(j) => {
                let at = if j < i {
                    j
                } else {
                    j - 1
                };
                assert(left[at] == fields[j]);
                lemma_key_at_least(fields, other);
                assert forall|k: int| 0 <= k < at implies (#[trigger] left[k]).0 != left[at].0 by {
                    if k < i {
                        assert(left[k] == fields[k]);
                    } else {
                        assert(left[k] == fields[k + 1]);
                    }
                }
                law_fields_are_found_by_name(left, at, other);
            },
            None => {
                assert forall|k: int| 0 <= k < left.len() implies (#[trigger] left[k]).0
                    != other by {
                    if k < i {
                        assert(left[k] == fields[k]);
                    } else {
                        assert(left[k] == fields[k + 1]);
                    }
                }
                law_fields_are_found_by_name(left, 0, other);
            },
        }
    }
}

/// Taking the obsolete fields out of the user's file leaves every other field as it is.
pub proof fn law_current_fields_stay(fields: Seq<(Seq<char>, JsonV)>, other: Seq<char>)
    requires
        other != "mcpServers"@,
        other != "skills"@,
    ensures
        field(
            JsonV::Object(without_disabled(without_field(fields, "mcpServers"@))),
            other,
        ) == field(JsonV::Object(fields), other),
{
    let left = without_field(fields, "mcpServers"@);
    lemma_others_stay_without(fields, "mcpServers"@, other);
    if let Some(JsonV::Object(s)) = field(JsonV::Object(left), "skills"@) {
        lemma_others_stay_without(left, "skills"@, other);
        lemma_other_field_stays(
            left,
            "skills"@,
            JsonV::Object(without_field(s, "disabled"@)),
            other,
        );
    }
}

/// A file of the user's own is looked for in their home directory, and nowhere without
/// one.
pub proof fn law_own_files_lie_at_home(home: Option<Seq<char>>, name: Seq<char>)
    ensures
        home is None <==> home_file(home, name) is None,
        home matches Some(h) ==> ends(home_file(home, name)->0, name),
        home matches Some(h) ==> !(name.len() > 0 && name[0] == '/') ==> begins(
            home_file(home, name)->0,
            h,
        ),
{
    if let Some(h) = home {
        law_paths_stand_in_their_directory(h, name);
    }
}

/// A file is rewritten exactly where it still names servers, or lists skills that are
/// switched off.
pub proof fn law_obsolete_fields_are_noticed(fields: Seq<(Seq<char>, JsonV)>)
    ensures
        field(JsonV::Object(fields), "mcpServers"@) is Some ==> obsolete(fields),
        field(JsonV::Object(fields), "mcpServers"@) is None ==> (obsolete(fields) <==> ({
            let skills = field(JsonV::Object(fields), "skills"@);
            skills is Some && skills->0 is Object && field(skills->0, "disabled"@) is Some
        })),
{
}

} // verus!
