//! First-run local-model setup: detect a running local model server and write
//! a `[model.<id>]` entry for it, so that a session can start with no login.

use vstd::prelude::*;
use vstd::string::*;

use crate::json::{elements, get, json, member, Json};
use crate::text::{chars_of, string_of, views};
use crate::toml::{
    document, entries_of, has_table, holds_table, is_table, made_implicit, make_implicit,
    new_table, open_table, parse, parsed_toml, put_inner_bool, put_inner_text, put_table, put_text,
    readable, reads_as, same_settings, setting, text_of, toml_error, toml_text, with_entry,
    with_table, Toml,
};

verus! {

/// A detected local model server and the models it advertises.
#[derive(Debug, Clone, PartialEq, Eq)]
pub struct LocalModelServer {
    /// Human label, such as `"Ollama"`.
    pub label: &'static str,
    /// OpenAI-compatible base URL ending in `/v1` (ready to write as
    /// `base_url`).
    pub base_url: String,
    /// Model ids advertised by `GET /v1/models`.
    pub models: Vec<String>,
}

/// A well-known place where a model server may be running.
#[derive(Debug, Clone, Copy)]
pub struct ProbeTarget {
    pub label: &'static str,
    pub base: &'static str,
}

/// The well-known local servers, in order of preference.
pub fn probe_targets() -> (r: Vec<ProbeTarget>)
    ensures
        r@.len() == 4,
        r@[0].label@ == "Ollama"@ && r@[0].base@ == "http://localhost:11434"@,
        r@[1].label@ == "LM Studio"@ && r@[1].base@ == "http://localhost:1234"@,
        r@[2].label@ == "llama.cpp"@ && r@[2].base@ == "http://localhost:8080"@,
        r@[3].label@ == "vLLM"@ && r@[3].base@ == "http://localhost:8000"@,
{
    let mut out: Vec<ProbeTarget> = Vec::new();
    out.push(ProbeTarget { label: "Ollama", base: "http://localhost:11434" });
    out.push(ProbeTarget { label: "LM Studio", base: "http://localhost:1234" });
    out.push(ProbeTarget { label: "llama.cpp", base: "http://localhost:8080" });
    out.push(ProbeTarget { label: "vLLM", base: "http://localhost:8000" });
    out
}

/// The id of one entry of a model list.
pub open spec fn model_id(entry: Json) -> Option<Seq<char>> {
    match member(entry, "id"@) {
        Some(Json::Text(id)) => Some(id),
        _ => None,
    }
}

/// The ids of the entries that have one, in order.
pub open spec fn ids_of(entries: Seq<Json>) -> Seq<Seq<char>>
    decreases entries.len(),
{
    if entries.len() == 0 {
        Seq::empty()
    } else {
        let before = ids_of(entries.drop_last());
        match model_id(entries.last()) {
            Some(id) => before.push(id),
            None => before,
        }
    }
}

/// The model ids of a response body. A body without a `data` array has none.
pub open spec fn model_ids(body: Json) -> Seq<Seq<char>> {
    match member(body, "data"@) {
        Some(Json::Array(entries)) => ids_of(entries),
        _ => Seq::empty(),
    }
}

/// Extract model ids from an OpenAI `/v1/models` response body.
pub fn parse_model_ids(body: &serde_json::Value) -> (r: Vec<String>)
    ensures
        views(r@) == model_ids(json(*body)),
{
    let mut out: Vec<String> = Vec::new();
    assert(views(out@) =~= Seq::empty());
    let data = match get(body, "data") {
        Some(data) => data,
        None => {
            return out;
        },
    };
    let entries = match data.as_array() {
        Some(entries) => entries,
        None => {
            return out;
        },
    };
    let ghost all = elements(entries@);
    let mut i: usize = 0;
    assert(all.take(0) =~= Seq::empty());
    while i < entries.len()
        invariant
            i <= entries@.len(),
            all == elements(entries@),
            views(out@) == ids_of(all.take(i as int)),
        decreases entries@.len() - i,
    {
        proof {
            let t = all.take(i + 1);
            assert(t.drop_last() =~= all.take(i as int));
            assert(t.last() == json(entries@[i as int]));
        }
        if let Some(value) = get(&entries[i], "id") {
            if let Some(id) = value.as_str() {
                let ghost before = out@;
                out.push(id.to_owned());
                assert(views(out@) =~= views(before).push(id@));
            }
        }
        i += 1;
    }
    assert(all.take(i as int) =~= all);
    out
}

/// Where a server lists its models.
pub fn models_url(base: &str) -> (r: String)
    ensures
        r@ == base@ + "/v1/models"@,
{
    let mut out = base.to_owned();
    out.append("/v1/models");
    out
}

/// The server that a probe found: none where the response is no success, has
/// no JSON body, or lists no model.
pub fn detected_server(
    label: &'static str,
    base: &str,
    success: bool,
    body: Option<&serde_json::Value>,
) -> (r: Option<LocalModelServer>)
    ensures
        r is Some == (success && body is Some && model_ids(json(*body->0)).len() > 0),
        r matches Some(server) ==> {
            &&& server.label@ == label@
            &&& server.base_url@ == base@ + "/v1"@
            &&& views(server.models@) == model_ids(json(*body->0))
        },
{
    if !success {
        return None;
    }
    match body {
        None => None,
        Some(body) => {
            let models = parse_model_ids(body);
            assert(views(models@).len() == models@.len());
            if models.len() == 0 {
                return None;
            }
            let mut base_url = base.to_owned();
            base_url.append("/v1");
            Some(LocalModelServer { label, base_url, models })
        },
    }
}

// ---- Section ids ----

/// A character of a section id.
pub open spec fn id_char(c: char) -> bool {
    'a' <= c <= 'z' || '0' <= c <= '9' || c == '_' || c == '-'
}

/// The character that stands for `c` in a section id.
pub open spec fn id_char_for(c: char) -> char {
    if 'A' <= c <= 'Z' {
        ((c as u8) + 32) as char
    } else if id_char(c) {
        c
    } else {
        '-'
    }
}

/// `s` without dashes at either end.
pub open spec fn undashed(s: Seq<char>) -> Seq<char>
    decreases s.len(),
{
    if s.len() > 0 && s[0] == '-' {
        undashed(s.skip(1))
    } else if s.len() > 0 && s.last() == '-' {
        undashed(s.drop_last())
    } else {
        s
    }
}

/// The characters of a model id, each turned into one of a section id.
pub open spec fn mapped(model: Seq<char>) -> Seq<char> {
    model.map_values(|c: char| id_char_for(c))
}

/// The section id of a model.
pub open spec fn config_id(model: Seq<char>) -> Seq<char> {
    if undashed(mapped(model)).len() == 0 {
        "local"@
    } else {
        undashed(mapped(model))
    }
}

fn mapped_char(c: char) -> (r: char)
    ensures
        r == id_char_for(c),
{
    if 'A' <= c && c <= 'Z' {
        ((c as u8) + 32) as char
    } else if ('a' <= c && c <= 'z') || ('0' <= c && c <= '9') || c == '_' || c == '-' {
        c
    } else {
        '-'
    }
}

/// Derive a TOML-bare-key-friendly config section id from a model id, so that
/// the `[model.<id>]` key and `[models].default` match without quoting
/// surprises (`llama3.1:8b` gives `llama3-1-8b`; dots must not survive, or TOML
/// would read `[model.llama3.1]` as nested tables).
pub fn config_id_for_model(model: &str) -> (r: String)
    ensures
        r@ == config_id(model@),
{
    let chars = chars_of(model);
    let mut out: Vec<char> = Vec::new();
    let mut i: usize = 0;
    while i < chars.len()
        invariant
            i <= chars@.len(),
            out@ == mapped(chars@).take(i as int),
        decreases chars@.len() - i,
    {
        out.push(mapped_char(chars[i]));
        i += 1;
        assert(out@ =~= mapped(chars@).take(i as int));
    }
    assert(out@ =~= mapped(model@));
    let mut from: usize = 0;
    let mut to: usize = out.len();
    assert(out@.subrange(0, out@.len() as int) =~= out@);
    while from < to && out[from] == '-'
        invariant
            from <= to <= out@.len(),
            undashed(out@) == undashed(out@.subrange(from as int, to as int)),
        decreases to - from,
    {
        proof {
            let s = out@.subrange(from as int, to as int);
            assert(s.skip(1) =~= out@.subrange(from + 1, to as int));
        }
        from += 1;
    }
    while from < to && out[to - 1] == '-'
        invariant
            from <= to <= out@.len(),
            from < to ==> out@[from as int] != '-',
            undashed(out@) == undashed(out@.subrange(from as int, to as int)),
        decreases to - from,
    {
        proof {
            let s = out@.subrange(from as int, to as int);
            assert(s[0] == out@[from as int]);
            assert(s.last() == out@[to - 1]);
            assert(s.drop_last() =~= out@.subrange(from as int, to - 1));
        }
        to -= 1;
    }
    proof {
        let s = out@.subrange(from as int, to as int);
        if s.len() > 0 {
            assert(s[0] == out@[from as int]);
            assert(s.last() == out@[to - 1]);
        }
        assert(undashed(s) == s);
    }
    if from == to {
        "local".to_owned()
    } else {
        string_of(&crate::text::slice_of(&out, from, to))
    }
}

// ---- Writing the configuration ----

/// Why a configuration cannot be changed.
#[derive(Debug)]
pub enum ConfigError {
    /// It is no TOML document, for the reason given.
    InvalidToml(String),
    /// Its `model` is no table.
    ModelNotTable,
    /// Its `models` is no table.
    ModelsNotTable,
}

impl ConfigError {
    /// The text of the error.
    pub fn message(&self) -> (r: String)
        ensures
            r@ == match self {
                ConfigError::InvalidToml(reason) => "invalid TOML: "@ + reason@,
                ConfigError::ModelNotTable => "[model] is not a table"@,
                ConfigError::ModelsNotTable => "[models] is not a table"@,
            },
    {
        match self {
            ConfigError::InvalidToml(reason) => {
                let mut out = "invalid TOML: ".to_owned();
                out.append(reason.as_str());
                out
            },
            ConfigError::ModelNotTable => "[model] is not a table".to_owned(),
            ConfigError::ModelsNotTable => "[models] is not a table".to_owned(),
        }
    }
}

/// The entry of a model with the settings of a local server put into it.
pub open spec fn with_settings(
    entry: Toml,
    base_url: Seq<char>,
    model: Seq<char>,
    no_auth: bool,
) -> Toml {
    let named = with_entry(
        with_entry(
            with_entry(entry, "model"@, Toml::Text(model)),
            "base_url"@,
            Toml::Text(base_url),
        ),
        "name"@,
        Toml::Text(model),
    );
    if no_auth {
        with_entry(named, "no_auth"@, Toml::Bool(true))
    } else {
        named
    }
}

/// The entry of a model, where it is a table, or else an empty table.
pub open spec fn model_entry(models: Toml, id: Seq<char>) -> Toml {
    if has_table(models, id) {
        entries_of(models)[id]
    } else {
        new_table()
    }
}

/// What is under `key`, or would be as soon as a table is asked for there.
pub open spec fn table_under(entries: Map<Seq<char>, Toml>, key: Seq<char>) -> Toml {
    with_table(entries, key)[key]
}

/// A configuration with the settings of a local server in its `[model.<id>]`
/// entry. The parent table is implicit, so that no empty `[model]` header is
/// printed.
pub open spec fn with_model(
    entries: Map<Seq<char>, Toml>,
    id: Seq<char>,
    base_url: Seq<char>,
    model: Seq<char>,
    no_auth: bool,
) -> Map<Seq<char>, Toml> {
    let models = table_under(entries, "model"@);
    with_table(entries, "model"@).insert(
        "model"@,
        with_entry(
            made_implicit(models),
            id,
            with_settings(model_entry(models, id), base_url, model, no_auth),
        ),
    )
}

/// A configuration with a default model.
pub open spec fn with_default(entries: Map<Seq<char>, Toml>, id: Seq<char>) -> Map<
    Seq<char>,
    Toml,
> {
    with_table(entries, "models"@).insert(
        "models"@,
        with_entry(table_under(entries, "models"@), "default"@, Toml::Text(id)),
    )
}

/// A configuration with a local model that is its default.
pub open spec fn configured(
    entries: Map<Seq<char>, Toml>,
    id: Seq<char>,
    base_url: Seq<char>,
    model: Seq<char>,
    no_auth: bool,
) -> Map<Seq<char>, Toml> {
    with_default(with_model(entries, id, base_url, model, no_auth), id)
}

/// Point the `[model.<config_id>]` entry of a document at a local server, and
/// make it the default. All other entries stay, also those of an entry that is
/// there already.
pub fn add_local_model(
    doc: &mut toml_edit::DocumentMut,
    config_id: &str,
    base_url: &str,
    model: &str,
    no_auth: bool,
) -> (r: Result<(), ConfigError>)
    requires
        readable(*old(doc)),
    ensures
        readable(*final(doc)),
        match r {
            Ok(()) => {
                &&& table_under(document(*old(doc)), "model"@) is Table
                &&& table_under(document(*old(doc)), "models"@) is Table
                &&& document(*final(doc)) == configured(
                    document(*old(doc)),
                    config_id@,
                    base_url@,
                    model@,
                    no_auth,
                )
            },
            Err(ConfigError::ModelNotTable) => {
                &&& !(table_under(document(*old(doc)), "model"@) is Table)
                &&& document(*final(doc)) == document(*old(doc))
            },
            Err(ConfigError::ModelsNotTable) => {
                &&& table_under(document(*old(doc)), "model"@) is Table
                &&& !(table_under(document(*old(doc)), "models"@) is Table)
                &&& document(*final(doc)) == with_model(
                    document(*old(doc)),
                    config_id@,
                    base_url@,
                    model@,
                    no_auth,
                )
            },
            Err(ConfigError::InvalidToml(_)) => false,
        },
{
    let ghost before = document(*doc);
    if !open_table(doc, "model") {
        assert(with_table(before, "model"@) == before);
        return Err(ConfigError::ModelNotTable);
    }
    make_implicit(doc, "model");
    let ghost models = table_under(before, "model"@);
    if !holds_table(doc, "model", config_id) {
        put_table(doc, "model", config_id);
    }
    put_inner_text(doc, "model", config_id, "model", model);
    put_inner_text(doc, "model", config_id, "base_url", base_url);
    put_inner_text(doc, "model", config_id, "name", model);
    if no_auth {
        put_inner_bool(doc, "model", config_id, "no_auth", true);
    }
    proof {
        let settings = with_settings(model_entry(models, config_id@), base_url@, model@, no_auth);
        assert(entries_of(document(*doc)["model"@]) =~= entries_of(
            with_entry(models, config_id@, settings),
        ));
        assert(document(*doc) =~= with_model(before, config_id@, base_url@, model@, no_auth));
        lemma_keys_differ();
        assert(table_under(document(*doc), "models"@) == table_under(before, "models"@));
    }
    if !open_table(doc, "models") {
        return Err(ConfigError::ModelsNotTable);
    }
    put_text(doc, "models", "default", config_id);
    Ok(())
}

proof fn lemma_keys_differ()
    ensures
        "model"@ != "models"@,
        "model"@ != "base_url"@,
        "model"@ != "name"@,
        "model"@ != "no_auth"@,
        "base_url"@ != "name"@,
        "base_url"@ != "no_auth"@,
        "name"@ != "no_auth"@,
{
    reveal_strlit("model");
    reveal_strlit("models");
    reveal_strlit("base_url");
    reveal_strlit("name");
    reveal_strlit("no_auth");
    assert("model"@.len() == 5 && "models"@.len() == 6 && "base_url"@.len() == 8 && "name"@.len()
        == 4 && "no_auth"@.len() == 7);
}

/// The text of a configuration whose `[model.<config_id>]` entry points at a
/// local server and is the default, preserving all existing settings.
/// `base_url` should be an OpenAI-compatible endpoint ending in `/v1`.
///
/// The text is that of a document with these entries, and reading it gives their
/// settings back. How it is laid out is left to `toml_edit`.
///
/// Loopback URLs are treated as no-auth, so `no_auth` may stay false for them.
/// For a non-loopback endpoint that needs no key (a LAN server), pass
/// `no_auth = true` so that it, too, skips authentication.
pub fn write_local_model_config(
    existing: &str,
    config_id: &str,
    base_url: &str,
    model: &str,
    no_auth: bool,
) -> (r: Result<String, ConfigError>)
    ensures
        match parsed_toml(existing@) {
            None => r matches Err(ConfigError::InvalidToml(reason)) && reason@ == toml_error(
                existing@,
            ),
            Some(entries) => if !(table_under(entries, "model"@) is Table) {
                r matches Err(e) && e is ModelNotTable
            } else if !(table_under(entries, "models"@) is Table) {
                r matches Err(e) && e is ModelsNotTable
            } else {
                &&& r matches Ok(text)
                &&& reads_as(
                    text@,
                    configured(entries, config_id@, base_url@, model@, no_auth),
                )
                &&& exists|doc: toml_edit::DocumentMut| #[trigger]
                    toml_text(doc) == text@ && document(doc) == configured(
                        entries,
                        config_id@,
                        base_url@,
                        model@,
                        no_auth,
                    )
            },
        },
{
    let mut doc = match parse(existing) {
        Ok(doc) => doc,
        Err(reason) => {
            return Err(ConfigError::InvalidToml(reason));
        },
    };
    match add_local_model(&mut doc, config_id, base_url, model, no_auth) {
        Ok(()) => Ok(text_of(&doc)),
        Err(e) => Err(e),
    }
}

// ---- Laws ----

/// A section id needs no quotes as a TOML key and holds no dot: it is made of
/// lower-case letters, digits, underscores and dashes, is not empty, and has no
/// dash at either end.
pub proof fn a_section_id_is_a_bare_key(model: Seq<char>)
    ensures
        config_id(model).len() > 0,
        forall|i: int| 0 <= i < config_id(model).len() ==> id_char(#[trigger] config_id(model)[i]),
        forall|i: int| 0 <= i < config_id(model).len() ==> #[trigger] config_id(model)[i] != '.',
        config_id(model)[0] != '-',
        config_id(model).last() != '-',
{
    reveal_strlit("local");
    lemma_undashed(mapped(model));
    let id = config_id(model);
    assert forall|i: int| 0 <= i < id.len() implies id_char(#[trigger] id[i]) by {
        if undashed(mapped(model)).len() > 0 {
            let at = choose|at: int|
                0 <= at && at + id.len() <= mapped(model).len() && #[trigger] mapped(
                    model,
                ).subrange(at, at + id.len()) == id;
            assert(id[i] == mapped(model)[at + i]);
            assert(mapped(model)[at + i] == id_char_for(model[at + i]));
        }
    }
}

proof fn lemma_undashed(s: Seq<char>)
    ensures
        exists|at: int|
            0 <= at && at + undashed(s).len() <= s.len() && #[trigger] s.subrange(
                at,
                at + undashed(s).len(),
            ) == undashed(s),
        undashed(s).len() > 0 ==> undashed(s)[0] != '-' && undashed(s).last() != '-',
    decreases s.len(),
{
    let u = undashed(s);
    if s.len() > 0 && s[0] == '-' {
        let t = s.skip(1);
        lemma_undashed(t);
        let at = choose|at: int|
            0 <= at && at + u.len() <= t.len() && #[trigger] t.subrange(at, at + u.len()) == u;
        assert(s.subrange(at + 1, at + 1 + u.len()) =~= t.subrange(at, at + u.len()));
    } else if s.len() > 0 && s.last() == '-' {
        let t = s.drop_last();
        lemma_undashed(t);
        let at = choose|at: int|
            0 <= at && at + u.len() <= t.len() && #[trigger] t.subrange(at, at + u.len()) == u;
        assert(s.subrange(at, at + u.len()) =~= t.subrange(at, at + u.len()));
    } else {
        let start: int = 0;
        assert(s.subrange(start, start + u.len()) =~= u);
    }
}

/// The section id of a section id is itself.
pub proof fn a_section_id_is_stable(model: Seq<char>)
    ensures
        config_id(config_id(model)) == config_id(model),
{
    let id = config_id(model);
    a_section_id_is_a_bare_key(model);
    assert forall|i: int| 0 <= i < id.len() implies id_char_for(#[trigger] id[i]) == id[i] by {
        assert(id_char(id[i]));
    }
    assert(mapped(id) =~= id);
    assert(undashed(id) == id);
}

/// Adding a model keeps every other entry of the configuration: those outside
/// `model` and `models`, the other models, the other settings of the model
/// itself, and the other settings of `models`.
pub proof fn other_entries_are_preserved(
    entries: Map<Seq<char>, Toml>,
    id: Seq<char>,
    base_url: Seq<char>,
    model: Seq<char>,
    no_auth: bool,
    key: Seq<char>,
)
    requires
        table_under(entries, "model"@) is Table,
        table_under(entries, "models"@) is Table,
    ensures
        ({
            let after = configured(entries, id, base_url, model, no_auth);
            let models = table_under(entries, "model"@);
            &&& key != "model"@ && key != "models"@ ==> same_at(after, entries, key)
            &&& key != id ==> same_at(entries_of(after["model"@]), entries_of(models), key)
            &&& key != "model"@ && key != "base_url"@ && key != "name"@ && (key != "no_auth"@
                || !no_auth) ==> same_at(
                entries_of(entries_of(after["model"@])[id]),
                entries_of(model_entry(models, id)),
                key,
            )
            &&& key != "default"@ ==> same_at(
                entries_of(after["models"@]),
                entries_of(table_under(entries, "models"@)),
                key,
            )
        }),
{
    lemma_keys_differ();
}

/// Two tables have the same, or nothing, under a key.
pub open spec fn same_at(
    a: Map<Seq<char>, Toml>,
    b: Map<Seq<char>, Toml>,
    key: Seq<char>,
) -> bool {
    &&& a.dom().contains(key) == b.dom().contains(key)
    &&& a.dom().contains(key) ==> a[key] == b[key]
}

/// After adding a model, the default names it, its entry gives its model and
/// URL, and the entry is told to skip authentication only where that was asked
/// for: then or before.
pub proof fn the_default_is_the_added_model(
    entries: Map<Seq<char>, Toml>,
    id: Seq<char>,
    base_url: Seq<char>,
    model: Seq<char>,
    no_auth: bool,
)
    requires
        table_under(entries, "model"@) is Table,
        table_under(entries, "models"@) is Table,
    ensures
        ({
            let after = configured(entries, id, base_url, model, no_auth);
            let before = model_entry(table_under(entries, "model"@), id);
            let entry = entries_of(after["model"@])[id];
            &&& after["models"@] is Table
            &&& entries_of(after["models"@])["default"@] == Toml::Text(id)
            &&& after["model"@] is Table && after["model"@]->implicit
            &&& has_table(after["model"@], id)
            &&& entries_of(entry)["model"@] == Toml::Text(model)
            &&& entries_of(entry)["name"@] == Toml::Text(model)
            &&& entries_of(entry)["base_url"@] == Toml::Text(base_url)
            &&& if no_auth {
                entries_of(entry).dom().contains("no_auth"@) && entries_of(entry)["no_auth"@]
                    == Toml::Bool(true)
            } else {
                same_at(entries_of(entry), entries_of(before), "no_auth"@)
            }
        }),
{
    lemma_keys_differ();
}

/// The path of a setting that adding a model writes, or of what stood in its
/// place: the default, the model's own settings, and its entry where that was no
/// table.
pub open spec fn is_written(path: Seq<Seq<char>>, id: Seq<char>, no_auth: bool) -> bool {
    ||| path.len() >= 2 && path[0] == "models"@ && path[1] == "default"@
    ||| path.len() == 2 && path[0] == "model"@ && path[1] == id
    ||| path.len() >= 3 && path[0] == "model"@ && path[1] == id && (path[2] == "model"@ || path[2]
        == "base_url"@ || path[2] == "name"@ || (path[2] == "no_auth"@ && no_auth))
}

/// What is read from a written configuration is what was written and everything
/// that stood there before: the default names the model, its entry gives its
/// model and URL, and every other setting, wherever it stands, is as it was.
pub proof fn a_written_configuration_reads_back(
    read: Map<Seq<char>, Toml>,
    entries: Map<Seq<char>, Toml>,
    id: Seq<char>,
    base_url: Seq<char>,
    model: Seq<char>,
    no_auth: bool,
)
    requires
        table_under(entries, "model"@) is Table,
        table_under(entries, "models"@) is Table,
        same_settings(read, configured(entries, id, base_url, model, no_auth)),
    ensures
        setting(read, seq!["models"@, "default"@]) == Some(Toml::Text(id)),
        setting(read, seq!["model"@, id, "model"@]) == Some(Toml::Text(model)),
        setting(read, seq!["model"@, id, "name"@]) == Some(Toml::Text(model)),
        setting(read, seq!["model"@, id, "base_url"@]) == Some(Toml::Text(base_url)),
        no_auth ==> setting(read, seq!["model"@, id, "no_auth"@]) == Some(Toml::Bool(true)),
        forall|path: Seq<Seq<char>>|
            !is_written(path, id, no_auth) ==> #[trigger] setting(read, path) == setting(
                entries,
                path,
            ),
{
    let after = configured(entries, id, base_url, model, no_auth);
    lemma_keys_differ();
    lemma_setting_within(after, "models"@, "default"@);
    lemma_setting_of_model(after, id, "model"@);
    lemma_setting_of_model(after, id, "name"@);
    lemma_setting_of_model(after, id, "base_url"@);
    lemma_setting_of_model(after, id, "no_auth"@);
    assert forall|path: Seq<Seq<char>>| !is_written(path, id, no_auth) implies #[trigger] setting(
        read,
        path,
    ) == setting(entries, path) by {
        assert(setting(read, path) == setting(after, path));
        if path.len() > 0 {
            lemma_other_settings(entries, id, base_url, model, no_auth, path);
        }
    }
}

proof fn lemma_setting_within(entries: Map<Seq<char>, Toml>, outer: Seq<char>, key: Seq<char>)
    requires
        entries.dom().contains(outer),
        is_table(entries[outer]),
        entries_of(entries[outer]).dom().contains(key),
        !is_table(entries_of(entries[outer])[key]),
    ensures
        setting(entries, seq![outer, key]) == Some(entries_of(entries[outer])[key]),
{
    assert(seq![outer, key].skip(1) =~= seq![key]);
    assert(setting(entries_of(entries[outer]), seq![key]) == Some(
        entries_of(entries[outer])[key],
    ));
}

proof fn lemma_setting_of_model(entries: Map<Seq<char>, Toml>, id: Seq<char>, key: Seq<char>)
    requires
        entries.dom().contains("model"@),
        has_table(entries["model"@], id),
        is_table(entries["model"@]),
    ensures
        ({
            let entry = entries_of(entries_of(entries["model"@])[id]);
            entry.dom().contains(key) && !is_table(entry[key]) ==> setting(
                entries,
                seq!["model"@, id, key],
            ) == Some(entry[key])
        }),
{
    let entry = entries_of(entries_of(entries["model"@])[id]);
    if entry.dom().contains(key) && !is_table(entry[key]) {
        assert(seq!["model"@, id, key].skip(1) =~= seq![id, key]);
        lemma_setting_within(entries_of(entries["model"@]), id, key);
    }
}

proof fn lemma_other_settings(
    entries: Map<Seq<char>, Toml>,
    id: Seq<char>,
    base_url: Seq<char>,
    model: Seq<char>,
    no_auth: bool,
    path: Seq<Seq<char>>,
)
    requires
        table_under(entries, "model"@) is Table,
        table_under(entries, "models"@) is Table,
        path.len() > 0,
        !is_written(path, id, no_auth),
    ensures
        setting(configured(entries, id, base_url, model, no_auth), path) == setting(entries, path),
{
    let after = configured(entries, id, base_url, model, no_auth);
    let inner = path.skip(1);
    lemma_keys_differ();
    other_entries_are_preserved(entries, id, base_url, model, no_auth, path[0]);
    if path[0] == "model"@ || path[0] == "models"@ {
        if path.len() > 1 {
            assert(inner[0] == path[1]);
            other_entries_are_preserved(entries, id, base_url, model, no_auth, path[1]);
            if path[0] == "model"@ && path[1] == id {
                assert(inner.skip(1)[0] == path[2]);
                other_entries_are_preserved(entries, id, base_url, model, no_auth, path[2]);
            }
        }
        reveal_with_fuel(setting, 3);
    }
}

/// Adding the same model again changes nothing.
pub proof fn adding_twice_adds_once(
    entries: Map<Seq<char>, Toml>,
    id: Seq<char>,
    base_url: Seq<char>,
    model: Seq<char>,
    no_auth: bool,
)
    requires
        table_under(entries, "model"@) is Table,
        table_under(entries, "models"@) is Table,
    ensures
        configured(
            configured(entries, id, base_url, model, no_auth),
            id,
            base_url,
            model,
            no_auth,
        ) == configured(entries, id, base_url, model, no_auth),
{
    lemma_keys_differ();
    let once = configured(entries, id, base_url, model, no_auth);
    let twice = configured(once, id, base_url, model, no_auth);
    let first = entries_of(once["model"@])[id];
    let second = entries_of(twice["model"@])[id];
    assert(is_table(first));
    assert(entries_of(second) =~= entries_of(first));
    assert(entries_of(twice["model"@]) =~= entries_of(once["model"@]));
    assert(entries_of(twice["models"@]) =~= entries_of(once["models"@]));
    assert(twice =~= once);
}

/// Each entry of a model list that has an id adds it, in order, and one without
/// an id, or whose id is no text, adds nothing. Only the array under `data`
/// counts.
pub proof fn each_entry_with_an_id_counts(entries: Seq<Json>, entry: Json, body: Json)
    ensures
        ids_of(Seq::empty()).len() == 0,
        member(entry, "id"@) matches Some(Json::Text(id)) ==> ids_of(entries.push(entry))
            == ids_of(entries).push(id),
        !(member(entry, "id"@) matches Some(Json::Text(_))) ==> ids_of(entries.push(entry))
            == ids_of(entries),
        member(body, "data"@) == Some(Json::Array(entries)) ==> model_ids(body) == ids_of(entries),
        !(member(body, "data"@) matches Some(Json::Array(_))) ==> model_ids(body).len() == 0,
{
    assert(entries.push(entry).drop_last() =~= entries);
}

/// What a character of a model id becomes: capitals are lowered, other letters,
/// digits, underscores and dashes of ASCII stay, and the rest become dashes.
pub open spec fn becomes(c: char, d: char) -> bool {
    if 'A' <= c <= 'Z' {
        d as int == c as int + 32
    } else if 'a' <= c <= 'z' || '0' <= c <= '9' || c == '_' || c == '-' {
        d == c
    } else {
        d == '-'
    }
}

/// A section id spells its model, character by character, but for dashes at
/// either end; where nothing else is left, it is `local`.
pub proof fn a_section_id_spells_its_model(model: Seq<char>)
    ensures
        exists|at: int, n: int|
            {
                &&& 0 <= at && 0 <= n && at + n <= model.len()
                &&& forall|i: int|
                    (0 <= i < at || at + n <= i < model.len()) ==> becomes(#[trigger] model[i], '-')
                &&& n == 0 ==> config_id(model) == "local"@
                &&& n > 0 ==> {
                    &&& #[trigger] model.subrange(at, at + n).len() == config_id(model).len()
                    &&& forall|i: int|
                        0 <= i < n ==> becomes(model[at + i], #[trigger] config_id(model)[i])
                    &&& config_id(model)[0] != '-'
                    &&& config_id(model).last() != '-'
                }
            },
{
    let s = mapped(model);
    let u = undashed(s);
    let at = lemma_undashed_at(s);
    let n = u.len() as int;
    assert(s.len() == model.len());
    assert forall|i: int| (0 <= i < at || at + n <= i < model.len()) implies becomes(
        #[trigger] model[i],
        '-',
    ) by {
        assert(s[i] == '-');
        assert(s[i] == id_char_for(model[i]));
    }
    if n > 0 {
        assert forall|i: int| 0 <= i < n implies becomes(
            model[at + i],
            #[trigger] config_id(model)[i],
        ) by {
            assert(s.subrange(at, at + n)[i] == s[at + i]);
            assert(s[at + i] == id_char_for(model[at + i]));
        }
    }
    assert(model.subrange(at, at + n).len() == n);
}

proof fn lemma_undashed_at(s: Seq<char>) -> (at: int)
    ensures
        0 <= at,
        at + undashed(s).len() <= s.len(),
        s.subrange(at, at + undashed(s).len()) == undashed(s),
        forall|i: int|
            (0 <= i < at || at + undashed(s).len() <= i < s.len()) ==> #[trigger] s[i] == '-',
        undashed(s).len() > 0 ==> undashed(s)[0] != '-' && undashed(s).last() != '-',
    decreases s.len(),
{
    let u = undashed(s);
    if s.len() > 0 && s[0] == '-' {
        let t = s.skip(1);
        let at = lemma_undashed_at(t);
        assert(s.subrange(at + 1, at + 1 + u.len()) =~= t.subrange(at, at + u.len()));
        assert forall|i: int| (0 <= i < at + 1 || at + 1 + u.len() <= i < s.len()) implies #[trigger] s[i]
            == '-' by {
            if i > 0 {
                assert(t[i - 1] == s[i]);
            }
        }
        at + 1
    } else if s.len() > 0 && s.last() == '-' {
        let t = s.drop_last();
        let at = lemma_undashed_at(t);
        assert(s.subrange(at, at + u.len()) =~= t.subrange(at, at + u.len()));
        assert forall|i: int| (0 <= i < at || at + u.len() <= i < s.len()) implies #[trigger] s[i]
            == '-' by {
            if i < t.len() {
                assert(t[i] == s[i]);
            }
        }
        at
    } else {
        let start: int = 0;
        assert(s.subrange(start, start + u.len()) =~= u);
        start
    }
}
/// A section that is missing counts as an empty table, and one that is there as
/// what it is.
pub proof fn a_section_may_be_missing(entries: Map<Seq<char>, Toml>, key: Seq<char>)
    ensures
        !entries.dom().contains(key) ==> table_under(entries, key) == (Toml::Table {
            implicit: false,
            entries: Map::empty(),
        }),
        entries.dom().contains(key) ==> table_under(entries, key) == entries[key],
{
}

// ---- What the functions give ----

/// The model list stands below the base, and a server counts as found where the
/// response is a success whose body lists a model.
pub proof fn a_server_is_found_by_its_models(
    base: &str,
    url: String,
    label: &'static str,
    success: bool,
    body: Option<&serde_json::Value>,
    r: Option<LocalModelServer>,
    response: &serde_json::Value,
    ids: Vec<String>,
)
    requires
        call_ensures(models_url, (base,), url),
        call_ensures(detected_server, (label, base, success, body), r),
        call_ensures(parse_model_ids, (response,), ids),
    ensures
        url@ == base@ + "/v1/models"@,
        r is Some <==> (success && body is Some && model_ids(json(*body->0)).len() > 0),
        r matches Some(server) ==> {
            &&& server.label@ == label@
            &&& server.base_url@ == base@ + "/v1"@
            &&& views(server.models@) == model_ids(json(*body->0))
        },
        views(ids@) == model_ids(json(*response)),
{
}

/// These places are probed, in this order.
pub proof fn these_places_are_probed(r: Vec<ProbeTarget>)
    requires
        call_ensures(probe_targets, (), r),
    ensures
        r@.len() == 4,
        r@[0].label@ == "Ollama"@ && r@[0].base@ == "http://localhost:11434"@,
        r@[1].label@ == "LM Studio"@ && r@[1].base@ == "http://localhost:1234"@,
        r@[2].label@ == "llama.cpp"@ && r@[2].base@ == "http://localhost:8080"@,
        r@[3].label@ == "vLLM"@ && r@[3].base@ == "http://localhost:8000"@,
{
}

/// The section id of a model is a bare key that spells it.
pub proof fn a_model_gets_a_bare_key(model: &str, r: String)
    requires
        call_ensures(config_id_for_model, (model,), r),
    ensures
        r@.len() > 0,
        forall|i: int| 0 <= i < r@.len() ==> id_char(#[trigger] r@[i]),
        r@ == config_id(model@),
{
    a_section_id_is_a_bare_key(model@);
}

/// A configuration is refused exactly where it is no document or one of the two
/// sections is no table. Else what was written reads back: the default names the
/// model, its entry gives its model and URL, and every other setting is as it
/// was.
pub proof fn writing_keeps_what_was_there(
    existing: &str,
    id: &str,
    base_url: &str,
    model: &str,
    no_auth: bool,
    r: Result<String, ConfigError>,
)
    requires
        call_ensures(write_local_model_config, (existing, id, base_url, model, no_auth), r),
    ensures
        match parsed_toml(existing@) {
            None => r matches Err(ConfigError::InvalidToml(reason)) && reason@ == toml_error(
                existing@,
            ),
            Some(entries) => if entries.dom().contains("model"@) && !(entries["model"@] is Table) {
                r matches Err(e) && e is ModelNotTable
            } else if entries.dom().contains("models"@) && !(entries["models"@] is Table) {
                r matches Err(e) && e is ModelsNotTable
            } else {
                &&& r matches Ok(text)
                &&& parsed_toml(text@) matches Some(read)
                &&& setting(read, seq!["models"@, "default"@]) == Some(Toml::Text(id@))
                &&& setting(read, seq!["model"@, id@, "model"@]) == Some(Toml::Text(model@))
                &&& setting(read, seq!["model"@, id@, "name"@]) == Some(Toml::Text(model@))
                &&& setting(read, seq!["model"@, id@, "base_url"@]) == Some(Toml::Text(base_url@))
                &&& no_auth ==> setting(read, seq!["model"@, id@, "no_auth"@]) == Some(
                    Toml::Bool(true),
                )
                &&& forall|path: Seq<Seq<char>>|
                    !is_written(path, id@, no_auth) ==> #[trigger] setting(read, path) == setting(
                        entries,
                        path,
                    )
            },
        },
{
    if let Some(entries) = parsed_toml(existing@) {
        a_section_may_be_missing(entries, "model"@);
        a_section_may_be_missing(entries, "models"@);
        if table_under(entries, "model"@) is Table && table_under(entries, "models"@) is Table {
            let read = parsed_toml(r->Ok_0@)->0;
            a_written_configuration_reads_back(read, entries, id@, base_url@, model@, no_auth);
        }
    }
}

/// An error says which part of the configuration is at fault.
pub proof fn an_error_names_the_part_at_fault(error: &ConfigError, r: String)
    requires
        call_ensures(ConfigError::message, (error,), r),
    ensures
        r@ == match *error {
            ConfigError::InvalidToml(reason) => "invalid TOML: "@ + reason@,
            ConfigError::ModelNotTable => "[model] is not a table"@,
            ConfigError::ModelsNotTable => "[models] is not a table"@,
        },
{
}

/// Adding a model to a document puts its entry and the default into it and keeps
/// every other setting. Where `model` or `models` is no table, it is an error.
pub proof fn adding_a_model_keeps_the_other_settings(
    doc: &mut toml_edit::DocumentMut,
    id: &str,
    base_url: &str,
    model: &str,
    no_auth: bool,
    r: Result<(), ConfigError>,
)
    requires
        call_ensures(add_local_model, (doc, id, base_url, model, no_auth), r),
        readable(*old(doc)),
    ensures
        readable(*final(doc)),
        r is Ok <==> {
            let entries = document(*old(doc));
            &&& entries.dom().contains("model"@) ==> entries["model"@] is Table
            &&& entries.dom().contains("models"@) ==> entries["models"@] is Table
        },
        r is Ok ==> ({
            let entries = document(*old(doc));
            let after = document(*final(doc));
            &&& setting(after, seq!["models"@, "default"@]) == Some(Toml::Text(id@))
            &&& setting(after, seq!["model"@, id@, "model"@]) == Some(Toml::Text(model@))
            &&& setting(after, seq!["model"@, id@, "name"@]) == Some(Toml::Text(model@))
            &&& setting(after, seq!["model"@, id@, "base_url"@]) == Some(Toml::Text(base_url@))
            &&& no_auth ==> setting(after, seq!["model"@, id@, "no_auth"@]) == Some(
                Toml::Bool(true),
            )
            &&& forall|path: Seq<Seq<char>>|
                !is_written(path, id@, no_auth) ==> #[trigger] setting(after, path) == setting(
                    entries,
                    path,
                )
        }),
{
    let entries = document(*old(doc));
    a_section_may_be_missing(entries, "model"@);
    a_section_may_be_missing(entries, "models"@);
    if r is Ok {
        a_written_configuration_reads_back(
            document(*final(doc)),
            entries,
            id@,
            base_url@,
            model@,
            no_auth,
        );
    }
}

} // verus!
