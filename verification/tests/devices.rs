use corpo_drone::devices::{
    list_audio_devices, list_cpal_inputs, list_devices, list_devices_json, list_devices_windows,
    list_json, list_loopback_apps, DeviceNames,
};

fn names(v: &[&str]) -> Vec<Result<String, u8>> {
    v.iter().map(|s| Ok(s.to_string())).collect()
}

#[test]
fn devices_are_listed_by_name() {
    let r = list_cpal_inputs(names(&["a", "b"])).unwrap_or_else(|_| panic!("an error"));
    assert_eq!(r.len(), 2);
    assert_eq!((r[1].id.as_str(), r[1].name.as_str()), ("b", "b"));
}

#[test]
fn the_first_error_ends_the_list() {
    let v: Vec<Result<String, u8>> = vec![Ok("a".to_string()), Err(3), Err(4)];
    assert_eq!(list_cpal_inputs(v).err(), Some(3));
    let v: Vec<Result<String, u8>> = vec![Err(5)];
    assert_eq!(list_devices_json(DeviceNames::Strict(v)).err(), Some(5));
}

#[test]
fn a_nameless_device_is_numbered() {
    let l = list_devices_windows(vec![Some("x".to_string()), None]);
    assert_eq!(l.inputs[1].name, "Capture 1");
    assert_eq!(l.inputs[1].id, "Capture 1");
    assert_eq!(list_json(&l), r#"{"inputs":[{"id":"x","name":"x"},{"id":"Capture 1","name":"Capture 1"}]}"#);
}

#[test]
fn the_list_is_handed_over_as_json() {
    let r = list_devices_json(DeviceNames::Strict(names(&["a \"b\""])));
    assert_eq!(r, Ok(r#"{"inputs":[{"id":"a \"b\"","name":"a \"b\""}]}"#.to_string()));
    let r: Result<String, u8> = list_devices_json(DeviceNames::Lenient(vec![None]));
    assert_eq!(r, Ok(r#"{"inputs":[{"id":"Capture 0","name":"Capture 0"}]}"#.to_string()));
    let r = list_devices(DeviceNames::Strict(names(&[])));
    assert_eq!(r.unwrap_or_else(|_| panic!("an error")).inputs.len(), 0);
}

#[test]
fn the_printed_list_is_read() {
    let v = list_audio_devices(true, b" {\"inputs\":[]}\n", b"").unwrap();
    assert_eq!(v["inputs"].as_array().unwrap().len(), 0);
}

#[test]
fn a_failed_listing_is_told() {
    assert_eq!(
        list_audio_devices(false, b"{}", b"no \xff audio").err().unwrap(),
        "audio-capture list-devices failed: no \u{fffd} audio"
    );
    assert_eq!(
        list_audio_devices(true, b"oops", b"").err().unwrap(),
        "Invalid device list JSON: expected value at line 1 column 1"
    );
}

#[test]
fn applications_are_listed_where_they_can_be_chosen() {
    let none = serde_json::Value::Array(vec![]);
    assert_eq!(list_loopback_apps(None), none);
    assert_eq!(list_loopback_apps(Some(b"oops")), none);
    let v = list_loopback_apps(Some(b"[{\"name\":\"A\",\"bundle_id\":\"b\"}]\n"));
    assert_eq!(v[0]["bundle_id"].as_str(), Some("b"));
}
