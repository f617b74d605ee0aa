use corpo_drone::apps::{
    apps_json, joined_with, list_running_apps, loopback_ids, loopback_targets, RunningApp, Streams,
};

fn strings(v: &[&str]) -> Vec<String> {
    v.iter().map(|s| s.to_string()).collect()
}

#[test]
fn identifiers_are_parted_by_commas() {
    assert_eq!(loopback_ids("com.hnc.Discord,us.zoom.xos"), strings(&["com.hnc.Discord", "us.zoom.xos"]));
    assert_eq!(loopback_ids(" a , ,b,"), strings(&["a", "b"]));
    assert_eq!(loopback_ids(""), strings(&[]));
    assert_eq!(loopback_ids(" , "), strings(&[]));
}

#[test]
fn chosen_identifiers_are_read_back() {
    let ids = strings(&["com.hnc.Discord", "us.zoom.xos", "x"]);
    assert_eq!(joined_with(&ids, ","), "com.hnc.Discord,us.zoom.xos,x");
    assert_eq!(loopback_ids(&joined_with(&ids, ",")), ids);
    assert_eq!(joined_with(&strings(&[]), ","), "");
    assert_eq!(joined_with(&strings(&["one"]), ", "), "one");
}

#[test]
fn the_display_is_recorded_in_any_case() {
    let t = loopback_targets(None);
    assert!(t.display);
    assert!(t.apps.is_empty());
    let t = loopback_targets(Some(vec![]));
    assert!(t.display);
    assert!(t.apps.is_empty());
    let t = loopback_targets(Some(strings(&["a"])));
    assert!(t.display);
    assert_eq!(t.apps, strings(&["a"]));
}

#[test]
fn each_chosen_process_gets_one_stream() {
    let ids = strings(&["a", "b"]);
    let mut s = Streams::new();
    assert!(s.wants(&ids, "b", 7));
    s.started(7);
    assert!(!s.wants(&ids, "b", 7));
    assert!(s.wants(&ids, "b", 8));
    assert!(!s.wants(&ids, "c", 8));
}

#[test]
fn only_applications_in_the_dock_are_listed() {
    let app = |name: &str, bundle: &str, regular: bool| RunningApp {
        name: name.to_string(),
        bundle_id: bundle.to_string(),
        regular,
    };
    let apps = vec![
        app("Zoom", "us.zoom.xos", true),
        app("", "x", true),
        app("X", "", true),
        app("Dock", "com.apple.dock", false),
        app("Discord", "com.hnc.Discord", true),
    ];
    assert_eq!(
        list_running_apps(apps),
        vec![
            ("Zoom".to_string(), "us.zoom.xos".to_string()),
            ("Discord".to_string(), "com.hnc.Discord".to_string())
        ]
    );
}

#[test]
fn the_list_is_printed_as_an_array() {
    let apps = vec![
        ("A \"b\"".to_string(), "1".to_string()),
        ("C".to_string(), "2".to_string()),
    ];
    let text = apps_json(&apps);
    assert_eq!(text, r#"[{"name":"A \"b\"","bundle_id":"1"},{"name":"C","bundle_id":"2"}]"#);
    let v: serde_json::Value = serde_json::from_str(&text).unwrap();
    assert_eq!(v[0]["name"].as_str(), Some("A \"b\""));
    assert_eq!(apps_json(&vec![]), "[]");
}

#[test]
fn any_name_is_printed_as_json() {
    let apps = vec![
        ("a\\".to_string(), "b".to_string()),
        ("tab\tline\n\u{1}\u{1f}".to_string(), "é \u{7f} \"q\" \\n".to_string()),
    ];
    let text = apps_json(&apps);
    assert!(text.starts_with(r#"[{"name":"a\\","bundle_id":"b"},{"name":"tab\u0009line\u000a\u0001\u001f","#));
    let v: serde_json::Value = serde_json::from_str(&text).unwrap();
    for (i, (name, id)) in apps.iter().enumerate() {
        assert_eq!(v[i]["name"].as_str(), Some(name.as_str()));
        assert_eq!(v[i]["bundle_id"].as_str(), Some(id.as_str()));
    }
}
