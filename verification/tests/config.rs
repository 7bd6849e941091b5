use broozelix_bridge::config::{
    default_spawn, expand_env_vars, Config, Handler, HandlerDefaults, SpawnMode, SubscribeConfig,
};
use broozelix_bridge::dispatch::plan_event;
use broozelix_bridge::error::BridgeError;
use broozelix_bridge::protocol::socket_json::SocketLine;

fn spawn_from(v: Option<&toml::Value>) -> Option<SpawnMode> {
    v.and_then(|s| s.as_str()).map(|s| match s {
        "sync" => SpawnMode::Sync,
        "async" => SpawnMode::Async,
        other => panic!("unknown spawn mode {other}"),
    })
}

/// Reads a config the way the bridge does, with the documented defaults.
fn config_from_toml(raw: &str) -> Config {
    let table: toml::Table = toml::from_str(raw).unwrap();
    let events = table["subscribe"]["events"]
        .as_array()
        .unwrap()
        .iter()
        .map(|e| String::from(e.as_str().unwrap()))
        .collect();
    let handler_defaults = match table.get("handler_defaults") {
        Some(d) => HandlerDefaults {
            debounce_ms: d.get("debounce_ms").and_then(|v| v.as_integer()).unwrap_or(0) as u64,
            spawn: spawn_from(d.get("spawn")).unwrap_or(default_spawn()),
        },
        None => HandlerDefaults::default(),
    };
    let handlers = table["handlers"]
        .as_array()
        .unwrap()
        .iter()
        .map(|h| Handler {
            event: String::from(h["event"].as_str().unwrap()),
            command: String::from(h["command"].as_str().unwrap()),
            debounce_ms: h.get("debounce_ms").and_then(|v| v.as_integer()).map(|v| v as u64),
            spawn: spawn_from(h.get("spawn")),
            when: h.get("when").and_then(|w| w.as_table()).map(|w| {
                w.iter()
                    .map(|(k, v)| (k.clone(), String::from(v.as_str().unwrap())))
                    .collect()
            }),
        })
        .collect();
    Config { subscribe: SubscribeConfig { events }, handler_defaults, handlers }
}

fn focus_line(path: &str) -> SocketLine {
    SocketLine {
        v: 1,
        op: String::from("event"),
        event: Some(String::from("document-focus")),
        path: Some(String::from(path)),
        line: Some(1),
        column: Some(1),
        mode: None,
        error: None,
    }
}

fn handler(event: &str, command: &str) -> Handler {
    Handler {
        event: String::from(event),
        command: String::from(command),
        debounce_ms: None,
        spawn: None,
        when: None,
    }
}

#[test]
fn expands_dollar_and_braced_vars() {
    let env = vec![(String::from("BB_TEST_VAR"), String::from("hello"))];
    assert_eq!(
        expand_env_vars("prefix $BB_TEST_VAR ${BB_TEST_VAR}-suffix", &env),
        "prefix hello hello-suffix"
    );
}

#[test]
fn expansion_edge_cases() {
    let env = vec![
        (String::from("A"), String::from("1")),
        (String::from("A_B"), String::from("2")),
    ];
    assert_eq!(expand_env_vars("$A_B$A", &env), "21");
    assert_eq!(expand_env_vars("$UNSET-x ${UNSET}y", &env), "-x y");
    assert_eq!(expand_env_vars("cost: $5 and $", &env), "cost:  and $");
    assert_eq!(expand_env_vars("${A", &env), "${A");
    assert_eq!(expand_env_vars("${}", &env), "${}");
    assert_eq!(expand_env_vars("${A-B}", &env), "${A-B}");
    assert_eq!(expand_env_vars("${A}}", &env), "1}");
    assert_eq!(expand_env_vars("no references", &env), "no references");
    // Text outside references is kept as it is.
    assert_eq!(expand_env_vars("é", &env), "é");
    assert_eq!(expand_env_vars("ünï $A ✓ ${A_B}é", &env), "ünï 1 ✓ 2é");
    // Inserted values are not expanded again.
    let env = vec![(String::from("X"), String::from("$A")), (String::from("A"), String::from("1"))];
    assert_eq!(expand_env_vars("$X", &env), "$A");
}

#[test]
fn parses_minimal_config() {
    let raw = r#"
[subscribe]
events = ["document-focus"]

[[handlers]]
event = "document-focus"
command = "echo {path}"
"#;
    let config = config_from_toml(raw);
    assert_eq!(config.subscribe.events, vec!["document-focus"]);
    assert_eq!(config.handlers.len(), 1);
    assert_eq!(config.handlers[0].effective_debounce_ms(&config.handler_defaults), 0);
}

#[test]
fn dispatches_configured_handler_line() {
    let raw = r#"
[subscribe]
events = ["document-focus"]

[[handlers]]
event = "document-focus"
command = "true"
"#;
    let config = config_from_toml(raw);
    assert!(config.validate().is_ok());
    let runs = plan_event(&config, &focus_line("/tmp/a.rs"));
    assert_eq!(runs.len(), 1);
    assert_eq!(runs[0].index, 0);
    assert_eq!(runs[0].command, "true");
    assert_eq!(runs[0].debounce_ms, 0);
    assert_eq!(runs[0].spawn, SpawnMode::Async);
}

#[test]
fn plans_only_matching_handlers_in_order() {
    let raw = r#"
[subscribe]
events = ["document-focus", "mode-changed"]

[handler_defaults]
debounce_ms = 50
spawn = "sync"

[[handlers]]
event = "mode-changed"
command = "echo mode"

[[handlers]]
event = "document-focus"
command = "echo {path}:{line}"
debounce_ms = 0

[[handlers]]
event = "document-focus"
command = "echo second"
spawn = "async"
when = { path = "/tmp/b.rs" }

[[handlers]]
event = "document-focus"
command = "echo third"
"#;
    let config = config_from_toml(raw);
    let runs = plan_event(&config, &focus_line("/tmp/a.rs"));
    assert_eq!(runs.len(), 2);
    assert_eq!(runs[0].index, 1);
    assert_eq!(runs[0].command, "echo /tmp/a.rs:1");
    assert_eq!(runs[0].debounce_ms, 0);
    assert_eq!(runs[0].spawn, SpawnMode::Sync);
    assert_eq!(runs[1].index, 3);
    assert_eq!(runs[1].debounce_ms, 50);
    let runs = plan_event(&config, &focus_line("/tmp/b.rs"));
    assert_eq!(runs.iter().map(|r| r.index).collect::<Vec<_>>(), vec![1, 2, 3]);
    assert_eq!(runs[1].spawn, SpawnMode::Async);
    let mut nameless = focus_line("/tmp/a.rs");
    nameless.event = None;
    assert!(plan_event(&config, &nameless).is_empty());
}

#[test]
fn effective_settings_prefer_the_handler() {
    let defaults = HandlerDefaults { debounce_ms: 250, spawn: SpawnMode::Sync };
    let mut h = handler("document-focus", "true");
    assert_eq!(h.effective_debounce_ms(&defaults), 250);
    assert_eq!(h.effective_spawn(&defaults), SpawnMode::Sync);
    h.debounce_ms = Some(0);
    h.spawn = Some(SpawnMode::Async);
    assert_eq!(h.effective_debounce_ms(&defaults), 0);
    assert_eq!(h.effective_spawn(&defaults), SpawnMode::Async);
    assert_eq!(HandlerDefaults::default().debounce_ms, 0);
    assert_eq!(HandlerDefaults::default().spawn, SpawnMode::Async);
    assert_eq!(SpawnMode::default(), SpawnMode::Async);
}

#[test]
fn validation_errors() {
    let ok = Config {
        subscribe: SubscribeConfig { events: vec![String::from("document-focus")] },
        handler_defaults: HandlerDefaults::default(),
        handlers: vec![handler("document-focus", "true")],
    };
    assert!(ok.validate().is_ok());

    let mut c = ok.clone();
    c.subscribe.events.clear();
    assert_eq!(c.validate(), Err(BridgeError::EmptySubscribeEvents));
    assert_eq!(c.validate().unwrap_err().message(), "subscribe.events must not be empty");

    let mut c = ok.clone();
    c.handlers.clear();
    assert_eq!(c.validate(), Err(BridgeError::NoHandlers));
    assert_eq!(c.validate().unwrap_err().message(), "at least one [[handlers]] entry is required");

    let mut c = ok.clone();
    c.handlers.push(handler("mode-changed", " \t\u{3000}"));
    c.handlers.push(handler("cwd-changed", ""));
    let e = c.validate().unwrap_err();
    assert_eq!(e, BridgeError::EmptyHandlerCommand { event: String::from("mode-changed") });
    assert_eq!(e.message(), "handler for event 'mode-changed' has empty command");
}

#[test]
fn unknown_events_and_event_list() {
    let c = Config {
        subscribe: SubscribeConfig {
            events: vec![
                String::from("document-focus"),
                String::from("buffer-scroll"),
                String::from("cwd-changed"),
                String::from("x"),
            ],
        },
        handler_defaults: HandlerDefaults::default(),
        handlers: vec![handler("document-focus", "true")],
    };
    assert_eq!(c.unknown_events(), vec![String::from("buffer-scroll"), String::from("x")]);
    assert_eq!(c.subscribe_event_list(), "document-focus,buffer-scroll,cwd-changed,x");
    let mut one = c.clone();
    one.subscribe.events.truncate(1);
    assert_eq!(one.subscribe_event_list(), "document-focus");
    assert!(one.unknown_events().is_empty());
}

#[test]
fn reference_expands_to_value_then_rest() {
    let env = vec![(String::from("NAME"), String::from("v{a}$B"))];
    let rest = "-tail ${NAME}";
    let rest_expanded = expand_env_vars(rest, &env);
    assert_eq!(expand_env_vars(&format!("$NAME{rest}"), &env), format!("v{{a}}$B{rest_expanded}"));
    assert_eq!(expand_env_vars(&format!("${{NAME}}{rest}"), &env), format!("v{{a}}$B{rest_expanded}"));
    // The name is the longest run of name characters.
    assert_eq!(expand_env_vars("$NAMEX", &env), "");
}

#[test]
fn event_list_splits_back() {
    let events = vec![
        String::from("document-focus"),
        String::from("mode-changed"),
        String::from("document-focus"),
    ];
    let c = Config {
        subscribe: SubscribeConfig { events: events.clone() },
        handler_defaults: HandlerDefaults::default(),
        handlers: vec![handler("document-focus", "true")],
    };
    let joined = c.subscribe_event_list();
    let back: Vec<String> = joined.split(',').map(String::from).collect();
    assert_eq!(back, events);
    assert_eq!(c.clone(), c);
}
