use codex_logic::additional_context::model_visible_projection;
use codex_logic::additional_context::project_application_entry;
use codex_logic::additional_context::AdditionalContextEntry;
use codex_logic::additional_context::AdditionalContextKind;
use codex_logic::additional_context::AdditionalContextStore;
use codex_logic::additional_context::ContextFragment;
use codex_logic::additional_context::ContextValues;
use codex_logic::additional_context::FragmentRole;

fn entry(value: &str, kind: AdditionalContextKind) -> AdditionalContextEntry {
    AdditionalContextEntry { value: value.to_string(), kind }
}

fn values(pairs: &[(&str, AdditionalContextEntry)]) -> ContextValues {
    let mut v = ContextValues::new();
    for (k, e) in pairs {
        v.insert(k.to_string(), e.clone());
    }
    v
}

#[test]
fn projection_passes_other_entries_unchanged() {
    let e = entry(r#"{"library":"x"}"#, AdditionalContextKind::Untrusted);
    assert_eq!(model_visible_projection("application", &e), Some(e.clone()));
    let e = entry(r#"{"library":"x"}"#, AdditionalContextKind::Application);
    assert_eq!(model_visible_projection("workspace", &e), Some(e.clone()));
}

#[test]
fn projection_drops_library_member() {
    let e = entry(r#"{"name":"editor","library":{"version":3},"mode":"dark"}"#, AdditionalContextKind::Application);
    assert_eq!(
        model_visible_projection("application", &e),
        Some(entry(r#"{"mode":"dark","name":"editor"}"#, AdditionalContextKind::Application))
    );
}

#[test]
fn projection_hides_application_with_only_library() {
    let e = entry(r#"{"library":[1,2]}"#, AdditionalContextKind::Application);
    assert_eq!(model_visible_projection("application", &e), None);
}

#[test]
fn projection_keeps_values_that_are_not_objects_or_lack_library() {
    for value in ["not json", "[1,2]", r#""text""#, r#"{"name":"editor"}"#] {
        let e = entry(value, AdditionalContextKind::Application);
        assert_eq!(model_visible_projection("application", &e), Some(e.clone()));
    }
}

#[test]
fn context_values_stay_sorted_and_replace() {
    let v = values(&[
        ("zeta", entry("1", AdditionalContextKind::Untrusted)),
        ("alpha", entry("2", AdditionalContextKind::Application)),
        ("mid", entry("3", AdditionalContextKind::Untrusted)),
        ("alpha", entry("4", AdditionalContextKind::Untrusted)),
    ]);
    assert_eq!(v.len(), 3);
    let keys: Vec<String> = (0..v.len()).map(|i| v.entry_at(i).0.clone()).collect();
    assert_eq!(keys, vec!["alpha", "mid", "zeta"]);
    assert_eq!(v.get("alpha"), Some(&entry("4", AdditionalContextKind::Untrusted)));
    assert_eq!(v.get("beta"), None);
}

#[test]
fn merge_emits_changed_visible_fragments_in_key_order() {
    let mut store = AdditionalContextStore::new();
    let first = values(&[
        ("workspace", entry("repo", AdditionalContextKind::Untrusted)),
        ("application", entry(r#"{"library":1,"theme":"dark"}"#, AdditionalContextKind::Application)),
    ]);
    let fragments = store.merge(first.clone());
    assert_eq!(
        fragments,
        vec![
            ContextFragment {
                role: FragmentRole::Developer,
                key: "application".to_string(),
                value: r#"{"theme":"dark"}"#.to_string(),
            },
            ContextFragment { role: FragmentRole::User, key: "workspace".to_string(), value: "repo".to_string() },
        ]
    );
    assert!(store.merge(first).is_empty());

    // only the library member changed: nothing new for the model
    let second = values(&[
        ("workspace", entry("repo", AdditionalContextKind::Untrusted)),
        ("application", entry(r#"{"library":2,"theme":"dark"}"#, AdditionalContextKind::Application)),
    ]);
    assert!(store.merge(second).is_empty());

    let third = values(&[("workspace", entry("other", AdditionalContextKind::Untrusted))]);
    assert_eq!(
        store.merge(third),
        vec![ContextFragment { role: FragmentRole::User, key: "workspace".to_string(), value: "other".to_string() }]
    );
}

#[test]
fn application_value_only_for_application_entries() {
    let mut store = AdditionalContextStore::new();
    store.merge(values(&[
        ("application", entry(r#"{"library":1}"#, AdditionalContextKind::Application)),
        ("workspace", entry("repo", AdditionalContextKind::Untrusted)),
    ]));
    assert_eq!(store.application_value("application"), Some(r#"{"library":1}"#));
    assert_eq!(store.application_value("workspace"), None);
    assert_eq!(store.application_value("missing"), None);
}

#[test]
fn application_entry_from_given_object() {
    let e = entry("ignored", AdditionalContextKind::Application);
    let serde_json::Value::Object(m) = serde_json::from_str(r#"{"library":"x","os":"linux"}"#).expect("object") else {
        panic!("object");
    };
    assert_eq!(
        project_application_entry(&e, Some(m)),
        Some(entry(r#"{"os":"linux"}"#, AdditionalContextKind::Application))
    );
    let serde_json::Value::Object(only) = serde_json::from_str(r#"{"library":"x"}"#).expect("object") else {
        panic!("object");
    };
    assert_eq!(project_application_entry(&e, Some(only)), None);
    assert_eq!(project_application_entry(&e, None), Some(e.clone()));
}

#[test]
fn projecting_twice_shows_the_same() {
    let e = entry(r#"{"library":{"v":1.1},"score":0.30000000000000004,"name":"x"}"#, AdditionalContextKind::Application);
    let once = model_visible_projection("application", &e).expect("shown");
    assert_eq!(model_visible_projection("application", &once), Some(once.clone()));
    assert_eq!(once.kind, AdditionalContextKind::Application);
}
