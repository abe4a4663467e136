use axon::local_setup::{
    config_id_for_model, detected_server, models_url, parse_model_ids, probe_targets,
    write_local_model_config, ConfigError,
};
use serde_json::Value;

fn parse(text: &str) -> Value {
    serde_json::from_str(text).unwrap()
}

#[test]
fn parse_model_ids_reads_openai_shape() {
    let body = parse(
        r#"{
        "object": "list",
        "data": [{"id": "llama3.1:8b"}, {"id": "qwen2.5-coder"}, {"other": 1}]
    }"#,
    );
    assert_eq!(parse_model_ids(&body), vec!["llama3.1:8b", "qwen2.5-coder"]);
    assert!(parse_model_ids(&parse("{}")).is_empty());
}

#[test]
fn config_id_is_toml_bare_key_safe() {
    assert_eq!(config_id_for_model("llama3.1:8b"), "llama3-1-8b");
    assert_eq!(config_id_for_model("Qwen2.5-Coder"), "qwen2-5-coder");
    assert_eq!(config_id_for_model("gpt-4o"), "gpt-4o");
    assert_eq!(config_id_for_model("///"), "local");
    // No dots survive — a dotted key would nest tables in TOML.
    assert!(!config_id_for_model("a.b.c").contains('.'));
}

#[test]
fn write_creates_entry_and_default_preserving_existing() {
    let written = write_local_model_config(
        "[cli]\nauto_update = false\n",
        "local-llama",
        "http://localhost:11434/v1",
        "llama3.1:8b",
        false,
    )
    .unwrap();

    // No redundant empty `[model]` header (implicit parent).
    assert!(
        !written.lines().any(|l| l.trim() == "[model]"),
        "unexpected empty [model] header:\n{written}"
    );
    let doc: toml_edit::DocumentMut = written.parse().unwrap();
    // Existing content preserved.
    assert_eq!(doc["cli"]["auto_update"].as_bool(), Some(false));
    // New model entry.
    assert_eq!(
        doc["model"]["local-llama"]["base_url"].as_str(),
        Some("http://localhost:11434/v1")
    );
    assert_eq!(
        doc["model"]["local-llama"]["model"].as_str(),
        Some("llama3.1:8b")
    );
    // Default points at it.
    assert_eq!(doc["models"]["default"].as_str(), Some("local-llama"));

    // Read by another parser, to prove that it round-trips.
    let toml: toml::Value = toml::from_str(&written).unwrap();
    assert!(toml.get("model").and_then(|m| m.get("local-llama")).is_some());
}

#[test]
fn write_sets_no_auth_only_when_requested() {
    let written =
        write_local_model_config("", "lan", "http://192.168.1.9:8080/v1", "m", true).unwrap();
    let doc: toml_edit::DocumentMut = written.parse().unwrap();
    assert_eq!(doc["model"]["lan"]["no_auth"].as_bool(), Some(true));

    let written =
        write_local_model_config("", "lo", "http://localhost:11434/v1", "m", false).unwrap();
    let doc2: toml_edit::DocumentMut = written.parse().unwrap();
    assert!(doc2["model"]["lo"].get("no_auth").is_none());
}

#[test]
fn other_entries_and_comments_survive() {
    let existing = "# mine\n[model.old]\nmodel = \"a\" # kept\n\n[models]\ndefault = \"old\"\nextra = 1\n";
    let written = write_local_model_config(existing, "new", "http://x/v1", "b", false).unwrap();
    assert!(written.contains("# mine") && written.contains("# kept"), "{written}");
    let doc: toml_edit::DocumentMut = written.parse().unwrap();
    assert_eq!(doc["model"]["old"]["model"].as_str(), Some("a"));
    assert_eq!(doc["model"]["new"]["model"].as_str(), Some("b"));
    assert_eq!(doc["model"]["new"]["name"].as_str(), Some("b"));
    assert_eq!(doc["models"]["extra"].as_integer(), Some(1));
    assert_eq!(doc["models"]["default"].as_str(), Some("new"));
    let again = write_local_model_config(&written, "new", "http://x/v1", "b", false).unwrap();
    assert_eq!(again, written);
}

#[test]
fn settings_of_an_existing_entry_survive() {
    let url = "http://localhost:11434/v1";
    let existing = "[model.local]\nmodel = \"m\"\nbase_url = \"http://localhost:1/v1\"\ncontext_window = 8192\n";
    let written = write_local_model_config(existing, "local", url, "m", false).unwrap();
    let doc: toml_edit::DocumentMut = written.parse().unwrap();
    assert_eq!(doc["model"]["local"]["base_url"].as_str(), Some(url));
    assert_eq!(doc["model"]["local"]["context_window"].as_integer(), Some(8192));

    for existing in [
        "[model]\nlocal = { model = \"m\", context_window = 8192, no_auth = true }\n",
        "[model]\nlocal.context_window = 8192\nlocal.no_auth = true\n",
        "model.local.context_window = 8192\nmodel.local.no_auth = true\n",
        "[model.local]\ncontext_window = 8192\nno_auth = true\n[model.local.extra]\na = 1\n",
    ] {
        let written = write_local_model_config(existing, "local", url, "n", false).unwrap();
        let doc: toml_edit::DocumentMut = written.parse().unwrap();
        let entry = &doc["model"]["local"];
        assert_eq!(entry["base_url"].as_str(), Some(url), "{written}");
        assert_eq!(entry["model"].as_str(), Some("n"), "{written}");
        assert_eq!(entry["name"].as_str(), Some("n"), "{written}");
        assert_eq!(entry["context_window"].as_integer(), Some(8192), "{written}");
        assert_eq!(entry["no_auth"].as_bool(), Some(true), "{written}");
        assert_eq!(doc["models"]["default"].as_str(), Some("local"), "{written}");
    }

    // What is no table gives way.
    let written = write_local_model_config("[model]\nlocal = 5\n", "local", url, "m", true).unwrap();
    let doc: toml_edit::DocumentMut = written.parse().unwrap();
    assert_eq!(doc["model"]["local"]["no_auth"].as_bool(), Some(true));
    assert_eq!(doc["model"]["local"]["base_url"].as_str(), Some(url));
}

#[test]
fn a_configuration_of_another_shape_is_refused() {
    let refused = |existing: &str| {
        write_local_model_config(existing, "id", "u", "m", false).unwrap_err()
    };
    let error = refused("[oops");
    assert!(matches!(error, ConfigError::InvalidToml(_)));
    assert!(error.message().starts_with("invalid TOML: "), "{}", error.message());
    let error = refused("model = 1\n");
    assert!(matches!(error, ConfigError::ModelNotTable));
    assert_eq!(error.message(), "[model] is not a table");
    let error = refused("model = { a = 1 }\n");
    assert!(matches!(error, ConfigError::ModelNotTable));
    let error = refused("models = \"x\"\n");
    assert!(matches!(error, ConfigError::ModelsNotTable));
    assert_eq!(error.message(), "[models] is not a table");
}

#[test]
fn a_server_is_detected_by_its_models() {
    let body = parse(r#"{"object":"list","data":[{"id":"llama3"},{"id":"qwen"}]}"#);
    let got = detected_server("Mock", "http://h:1", true, Some(&body)).unwrap();
    assert_eq!(got.label, "Mock");
    assert_eq!(got.base_url, "http://h:1/v1");
    assert_eq!(got.models, vec!["llama3", "qwen"]);
    assert_eq!(detected_server("Mock", "b", false, Some(&body)), None);
    assert_eq!(detected_server("Mock", "b", true, None), None);
    let empty = parse(r#"{"data":[]}"#);
    assert_eq!(detected_server("Mock", "b", true, Some(&empty)), None);
    let wrong = parse(r#"{"data":{"id":"x"}}"#);
    assert_eq!(detected_server("Mock", "b", true, Some(&wrong)), None);
    let numbers = parse(r#"{"data":[{"id":7},"x",null]}"#);
    assert_eq!(detected_server("Mock", "b", true, Some(&numbers)), None);
    assert_eq!(models_url("http://h:1"), "http://h:1/v1/models");
}

#[test]
fn the_well_known_servers_are_probed_in_order() {
    let labels: Vec<&str> = probe_targets().iter().map(|t| t.label).collect();
    assert_eq!(labels, vec!["Ollama", "LM Studio", "llama.cpp", "vLLM"]);
    assert_eq!(probe_targets()[0].base, "http://localhost:11434");
    assert_eq!(probe_targets()[3].base, "http://localhost:8000");
}

#[test]
fn section_ids_are_stable_bare_keys() {
    for model in ["", "-a-", "A.B", "é", "__x__", "a b\tc", "--", "MiXtral:8x7B"] {
        let id = config_id_for_model(model);
        assert!(!id.is_empty());
        assert!(id.chars().all(|c| c.is_ascii_lowercase() || c.is_ascii_digit() || c == '_' || c == '-'));
        assert!(!id.starts_with('-') && !id.ends_with('-'));
        assert_eq!(config_id_for_model(&id), id);
    }
    assert_eq!(config_id_for_model("-a-b-"), "a-b");
}

/// Every value that is no table, with the keys that lead to it.
fn settings(table: &toml::Table, path: &[String], found: &mut Vec<(Vec<String>, toml::Value)>) {
    for (key, value) in table {
        let mut at = path.to_vec();
        at.push(key.clone());
        match value {
            toml::Value::Table(inner) => settings(inner, &at, found),
            other => found.push((at, other.clone())),
        }
    }
}

fn settings_of(text: &str) -> Vec<(Vec<String>, toml::Value)> {
    let table: toml::Table = text.parse().unwrap_or_else(|e| panic!("{e}\n{text}"));
    let mut found = Vec::new();
    settings(&table, &[], &mut found);
    found.sort_by(|a, b| a.0.cmp(&b.0));
    found
}

/// The settings of `existing` once a model has been added to it.
fn expected_settings(
    existing: &str,
    id: &str,
    url: &str,
    model: &str,
    no_auth: bool,
) -> Vec<(Vec<String>, toml::Value)> {
    let path = |keys: &[&str]| keys.iter().map(|k| k.to_string()).collect::<Vec<String>>();
    let mut written = vec![
        (path(&["model", id, "model"]), toml::Value::String(model.to_string())),
        (path(&["model", id, "base_url"]), toml::Value::String(url.to_string())),
        (path(&["model", id, "name"]), toml::Value::String(model.to_string())),
        (path(&["models", "default"]), toml::Value::String(id.to_string())),
    ];
    if no_auth {
        written.push((path(&["model", id, "no_auth"]), toml::Value::Boolean(true)));
    }
    let mut found = settings_of(existing);
    found.retain(|(at, _)| {
        *at != path(&["model", id]) && !written.iter().any(|(own, _)| at.starts_with(own))
    });
    found.extend(written);
    found.sort_by(|a, b| a.0.cmp(&b.0));
    found
}

#[test]
fn a_written_configuration_reads_back() {
    let documents = [
        "",
        "\n\n# only a comment",
        "a = 1",
        "a = 1\r\nb = \"x\" # c\r\n\r\n[model]\r\n# d\r\n[other]\r\nx = 'y'\r\n",
        "[model]\n",
        "# head\n[model] # side\n# tail\n",
        "[model]\nkeep = 1\n",
        "[model]\nm = 1\n[model.old]\nb = 2\n",
        "[model.old]\nb = 2\n[model]\nm = 1\n",
        "[model.m.deep.er]\nb = 2\n[zeta]\nq = 1\n[model.m]\nc = 3\n",
        "model.x.y = 1\n",
        "model.x = 1\nmodel.m = 2\n[tail]\nk = 1\n",
        "model.m.x = 1\nmodel.m.model.deep = 2\nmodel.other.z = 1\n",
        "model.x.y = 1\nmodels.default = 'x'\nmodels.more = 2\n[last]\nl = 1\n",
        "[model]\nx.y = 1\nm.z = 2\n",
        "[model]\nx.y.z = 1\nm = [1, 2]\n[models]\ndefault = { a = 1 }\n",
        "[model]\nm = { a = 1 }\n",
        "[model]\nm = {}\n",
        "[model]\nm = { a = 1, b.c = 2 } # after\nn = 1\n",
        "[model]\nm = { # c\n }\nn = 1\n",
        "[model]\nm = { a = 1 # c\n }\nn = 1\n",
        "[model]\nm = { a = 1, # c\n }\nn = 1\n",
        "[model]\nm = {\n  a = 1, # c\n  model = 'x' # d\n  , b = 2\n  # e\n }\nn = 1\n",
        "[model]\nm.a = { q = 1 # c\n }\nm.b = 1 # d\n",
        "[[model.m]]\na = 1\n[[model.m]]\nb = 2\n",
        "[[model.x]]\na = 1\n[model.x.y]\nb = 2\n[[model.x]]\nc = 3\n[[model.x.z]]\nd = 4\n",
        "[[many]]\na = 1\n[[many]]\n# c\nb = [ # d\n 1, # e\n 2,\n]\n[many.in]\nz = 1979-05-27T07:32:00Z\n",
        "[models]\n[models.default]\nx = 1\n[models.other]\ny = 2\n",
        "[models.other]\ny = 2\n[model.m]\nmodel = { a = 1 }\nbase_url.b = 2\n",
        "[model.m.name]\ny = 2\n[model.m]\nbase_url = 7 # seven\n[[model.m.model]]\nz = 1\n",
        "[model.m.no_auth]\ny = 2\n[[model.m.list]]\nz = 1\n",
        "[model.'m']\na = 1\n[model.\"a.b\"]\nc = 1\n[\"model\".\"q\\\"r\"]\nd = 1\n",
        "f = [1.5, -0.0, inf, 1e3]\ns = \"\"\"\nmany\r\nlines\"\"\"\nl = '''\n raw\\x '''\nh = 0xFF\n",
        "a.b = 1\na.c = 2\n[x.y.z]\nk = 1\n[x]\nk = 2\n[model]\n[x.w]\nk = 3\n",
        "[a]\n[a.b]\n[model.m]\n[c]\n",
        "\u{feff}a = 1\n",
        "[model]\n[zeta]\nk = 1",
        "k = 1 # no newline at the end",
    ];
    let names = [
        "m", "x", "q\"r", "a.b", "", "new-one", "a b", "\"", "'", "'''", "\"\"\"", "\n", "\r\n", "\t#=[]",
        "\u{0}\u{7f}\u{1b}", "\\", "\\u0041", "caf\u{e9}\u{1f980}", "'\"'''\"\"\"\n", "\n'", "a\r", "true", "1",
        "model", "default",
    ];
    for existing in documents {
        for id in names {
            for (text, no_auth) in [("plain:8b", false), (id, true), ("\n\"\"\"'''\r\\", false)] {
                let written = write_local_model_config(existing, id, text, text, no_auth)
                    .unwrap_or_else(|e| panic!("{existing:?} {id:?}: {}", e.message()));
                assert_eq!(
                    settings_of(&written),
                    expected_settings(existing, id, text, text, no_auth),
                    "{existing:?} with {id:?} and {text:?} gave\n{written}"
                );
                let again = write_local_model_config(&written, id, text, text, no_auth).unwrap();
                assert_eq!(settings_of(&again), settings_of(&written), "{existing:?} with {id:?}");
            }
        }
    }
}
