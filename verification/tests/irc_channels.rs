use dar_extensions::irc::channels::read_channels;
use dar_extensions::irc::config::IrcConfig;
use dar_extensions::json::{Json, Member};

fn convert(value: serde_json::Value) -> Json {
    match value {
        serde_json::Value::Null => Json::Null,
        serde_json::Value::Bool(b) => Json::Bool(b),
        serde_json::Value::Number(n) => {
            if let Some(u) = n.as_u64() {
                Json::Unsigned(u)
            } else if let Some(i) = n.as_i64() {
                Json::Negative(i)
            } else {
                Json::Decimal(n.to_string())
            }
        }
        serde_json::Value::String(s) => Json::Text(s),
        serde_json::Value::Array(list) => Json::Array(list.into_iter().map(convert).collect()),
        serde_json::Value::Object(map) => Json::Object(
            map.into_iter()
                .map(|(name, value)| Member {
                    name,
                    value: convert(value),
                })
                .collect(),
        ),
    }
}

fn json(text: &str) -> Json {
    convert(serde_json::from_str(text).unwrap())
}

fn config(text: &str) -> IrcConfig {
    let settings = json(text);
    let mention_required = match settings.get("mention_required") {
        Some(Json::Bool(b)) => Some(*b),
        _ => None,
    };
    IrcConfig {
        channels: read_channels(settings.get("channels").unwrap()).unwrap(),
        mention_required,
        ..IrcConfig::default()
    }
}

#[test]
fn channels_list_form_parses() {
    let cfg = config(r##"{"channels": ["#a", "#b"]}"##);
    assert_eq!(cfg.channels.len(), 2);
    assert_eq!(cfg.channels[0].name, "#a");
    assert!(cfg.channels[0].mention_required.is_none());
    assert_eq!(cfg.channels[1].name, "#b");
    assert!(cfg.channels[1].mention_required.is_none());
    // unset per-channel => falls back to global default => true
    assert!(cfg.mention_required_for("#a"));
}

#[test]
fn channels_map_form_parses_and_overrides() {
    let cfg = config(
        r##"{
            "mention_required": true,
            "channels": {
                "#team": {},
                "#public": { "mention_required": false }
            }
        }"##,
    );
    assert!(cfg.mention_required_for("#team"));
    assert!(!cfg.mention_required_for("#public"));
    // case-insensitive lookup
    assert!(!cfg.mention_required_for("#PUBLIC"));
}

#[test]
fn global_default_applies_to_unknown_and_map_channels() {
    let cfg = config(r##"{"mention_required": false, "channels": { "#x": {} }}"##);
    // channel with no override inherits global false
    assert!(!cfg.mention_required_for("#x"));
    // completely unknown channel also gets global false
    assert!(!cfg.mention_required_for("#nope"));
}

#[test]
fn mapped_channels_are_sorted_by_name() {
    let member = |name: &str, value: Json| Member {
        name: name.to_string(),
        value,
    };
    let map = Json::Object(vec![
        member("#b", Json::Object(Vec::new())),
        member("#a", Json::Array(vec![Json::Bool(true)])),
        member("#", Json::Array(Vec::new())),
        member("#b", Json::Array(vec![Json::Bool(false)])),
    ]);
    let entries = read_channels(&map).unwrap();
    let found: Vec<(&str, Option<bool>)> = entries
        .iter()
        .map(|entry| (entry.name.as_str(), entry.mention_required))
        .collect();
    assert_eq!(
        found,
        vec![("#", None), ("#a", Some(true)), ("#b", Some(false))]
    );
}

#[test]
fn other_channel_settings_are_refused() {
    for text in [
        "null",
        "true",
        "\"#a\"",
        "[1]",
        "[\"#a\", null]",
        r##"{"#a": true}"##,
        r##"{"#a": null}"##,
        r##"{"#a": {"mention_required": 1}}"##,
        r##"{"#a": [true, true]}"##,
    ] {
        assert!(read_channels(&json(text)).is_none(), "accepted {text}");
    }
    let unset = read_channels(&json(r##"{"#a": {"mention_required": null, "x": 1}}"##));
    assert_eq!(unset.unwrap()[0].mention_required, None);
}
