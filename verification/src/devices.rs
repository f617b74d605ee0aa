//! The microphones that the settings offer.

use vstd::prelude::*;
use serde_json::Value;
use vstd::string::StringExecFns;
use crate::json::{array_value, compact, json, json_parsed, json_seq, json_text, member, members, object_value, parse, text_value, Json, Parsed};
use crate::number::{int_text, u64_text};
use crate::text::{chars, from_utf8_lossy, lossy_text, string, trim, trimmed, Class};

verus! {

broadcast use vstd::string::group_string_axioms;

/// A device: the name stands for it.
pub struct AudioDeviceInfo {
    pub id: String,
    pub name: String,
}

/// The devices of a system.
pub struct AudioDeviceList {
    pub inputs: Vec<AudioDeviceInfo>,
}

/// What a system says of its input devices, in its order.
pub enum DeviceNames<E> {
    /// A name for each device, or the error of asking for it.
    Strict(Vec<Result<String, E>>),
    /// A name for each device, where it has one.
    Lenient(Vec<Option<String>>),
}

/// The name of a device that has none: `Capture` and its number.
pub open spec fn fallback_name(i: int) -> Seq<char> {
    "Capture "@ + int_text(i)
}

/// The names of devices, each as `id` and as `name`.
pub open spec fn lists_names(devices: Seq<AudioDeviceInfo>, names: Seq<Seq<char>>) -> bool {
    &&& devices.len() == names.len()
    &&& forall|i: int|
        0 <= i < names.len() ==> (#[trigger] devices[i]).id@ == names[i] && devices[i].name@
            == names[i]
}

/// The names that were told, with a fallback for the others.
pub open spec fn lenient_names(names: Seq<Option<String>>) -> Seq<Seq<char>> {
    Seq::new(
        names.len(),
        |i: int|
            match names[i] {
                Some(n) => n@,
                None => fallback_name(i),
            },
    )
}

/// The names before the first error.
pub open spec fn strict_names<E>(names: Seq<Result<String, E>>) -> Seq<Seq<char>> {
    Seq::new(names.len(), |i: int| names[i]->Ok_0@)
}

/// Whether every device told its name.
pub open spec fn all_told<E>(names: Seq<Result<String, E>>) -> bool {
    forall|i: int| 0 <= i < names.len() ==> (#[trigger] names[i]) is Ok
}

/// The devices of a system that must name each of them: the first error is the result.
pub fn list_cpal_inputs<E>(names: Vec<Result<String, E>>) -> (r: Result<Vec<AudioDeviceInfo>, E>)
    ensures
        match r {
            Ok(devices) => all_told(names@) && lists_names(devices@, strict_names(names@)),
            Err(e) => exists|i: int|
                0 <= i < names@.len() && #[trigger] names@[i] == Err::<String, E>(e) && all_told(
                    names@.take(i),
                ),
        },
{
    let mut inputs: Vec<AudioDeviceInfo> = Vec::new();
    let ghost all = names@;
    for n in it: names
        invariant
            it.seq() == all,
            all == names@,
            inputs@.len() == it.index(),
            forall|i: int| 0 <= i < it.index() ==> (#[trigger] all[i]) is Ok,
            forall|i: int|
                0 <= i < it.index() ==> (#[trigger] inputs@[i]).id@ == all[i]->Ok_0@
                    && inputs@[i].name@ == all[i]->Ok_0@,
    {
        match n {
            Ok(name) => {
                inputs.push(AudioDeviceInfo { id: name.clone(), name });
            },
            Err(e) => {
                proof {
                    let i = it.index();
                    assert(all[i] == Err::<String, E>(e));
                    assert(all_told(all.take(i)));
                }
                return Err(e);
            },
        }
    }
    Ok(inputs)
}

/// The devices of a system that need not name each of them.
pub fn list_devices_windows(names: Vec<Option<String>>) -> (r: AudioDeviceList)
    ensures
        lists_names(r.inputs@, lenient_names(names@)),
{
    let mut inputs: Vec<AudioDeviceInfo> = Vec::new();
    let ghost all = names@;
    let total: usize = names.len();
    let mut i: u64 = 0;
    for n in it: names
        invariant
            it.seq() == all,
            all == names@,
            i == it.index(),
            all.len() == total,
            lists_names(inputs@, lenient_names(all).take(it.index())),
    {
        let name: String = match n {
            Some(name) => name,
            None => {
                let mut s: String = "Capture ".to_owned();
                s.append(u64_text(i).as_str());
                s
            },
        };
        let d: AudioDeviceInfo = AudioDeviceInfo { id: name.clone(), name };
        proof {
            assert(lenient_names(all)[i as int] == d.name@);
        }
        inputs.push(d);
        i += 1;
    }
    proof {
        assert(lenient_names(all).take(all.len() as int) =~= lenient_names(all));
    }
    AudioDeviceList { inputs }
}

/// The devices of a system.
pub fn list_devices<E>(names: DeviceNames<E>) -> (r: Result<AudioDeviceList, E>)
    ensures
        match names {
            DeviceNames::Strict(ns) => match r {
                Ok(list) => all_told(ns@) && lists_names(list.inputs@, strict_names(ns@)),
                Err(e) => exists|i: int|
                    0 <= i < ns@.len() && #[trigger] ns@[i] == Err::<String, E>(e) && all_told(
                        ns@.take(i),
                    ),
            },
            DeviceNames::Lenient(ns) => match r {
                Ok(list) => lists_names(list.inputs@, lenient_names(ns@)),
                Err(_) => false,
            },
        },
{
    match names {
        DeviceNames::Strict(ns) => match list_cpal_inputs(ns) {
            Ok(inputs) => Ok(AudioDeviceList { inputs }),
            Err(e) => Err(e),
        },
        DeviceNames::Lenient(ns) => Ok(list_devices_windows(ns)),
    }
}

/// A device as JSON.
pub open spec fn device_json(id: Seq<char>, name: Seq<char>) -> Json {
    Json::Object(map!["id"@ => Json::Text(id), "name"@ => Json::Text(name)])
}

/// The devices of a list as JSON.
pub open spec fn devices_json(list: AudioDeviceList) -> Json {
    Json::Object(
        map!["inputs"@ => Json::Array(
            list.inputs@.map_values(|d: AudioDeviceInfo| device_json(d.id@, d.name@)),
        )],
    )
}

/// The devices with the given names as JSON.
pub open spec fn names_json(names: Seq<Seq<char>>) -> Json {
    Json::Object(
        map!["inputs"@ => Json::Array(names.map_values(|n: Seq<char>| device_json(n, n)))],
    )
}

proof fn lemma_names_json(list: AudioDeviceList, names: Seq<Seq<char>>)
    requires
        lists_names(list.inputs@, names),
    ensures
        devices_json(list) == names_json(names),
{
    assert(list.inputs@.map_values(|d: AudioDeviceInfo| device_json(d.id@, d.name@))
        =~= names.map_values(|n: Seq<char>| device_json(n, n)));
}

/// The text that hands the devices to the settings.
pub fn list_json(list: &AudioDeviceList) -> (r: String)
    ensures
        r@ == json_text(devices_json(*list)),
{
    let mut items: Vec<Value> = Vec::new();
    let ghost want = list.inputs@.map_values(|d: AudioDeviceInfo| device_json(d.id@, d.name@));
    let mut i: usize = 0;
    proof {
        assert(json_seq(items@) =~= want.take(0));
    }
    while i < list.inputs.len()
        invariant
            want == list.inputs@.map_values(|d: AudioDeviceInfo| device_json(d.id@, d.name@)),
            i <= list.inputs@.len(),
            json_seq(items@) == want.take(i as int),
        decreases list.inputs@.len() - i,
    {
        let d: &AudioDeviceInfo = &list.inputs[i];
        let mut m: serde_json::Map<String, Value> = serde_json::Map::new();
        m.insert("id".to_owned(), text_value(d.id.clone()));
        m.insert("name".to_owned(), text_value(d.name.clone()));
        let v: Value = object_value(m);
        proof {
            assert(members(m) =~= map!["id"@ => Json::Text(d.id@), "name"@ => Json::Text(d.name@)]);
            assert(json(v) == want[i as int]);
            assert(json_seq(items@.push(v)) =~= json_seq(items@).push(json(v)));
            assert(want.take(i + 1) =~= want.take(i as int).push(json(v)));
        }
        items.push(v);
        i += 1;
    }
    let mut m: serde_json::Map<String, Value> = serde_json::Map::new();
    let a: Value = array_value(items);
    m.insert("inputs".to_owned(), a);
    proof {
        assert(want.take(i as int) =~= want);
        assert(members(m) =~= map!["inputs"@ => Json::Array(want)]);
    }
    let v: Value = object_value(m);
    compact(&v)
}

/// The text that hands the devices of a system to the settings.
pub fn list_devices_json<E>(names: DeviceNames<E>) -> (r: Result<String, E>)
    ensures
        match names {
            DeviceNames::Strict(ns) => match r {
                Ok(text) => all_told(ns@) && text@ == json_text(names_json(strict_names(ns@))),
                Err(e) => exists|i: int|
                    0 <= i < ns@.len() && #[trigger] ns@[i] == Err::<String, E>(e) && all_told(
                        ns@.take(i),
                    ),
            },
            DeviceNames::Lenient(ns) => match r {
                Ok(text) => text@ == json_text(names_json(lenient_names(ns@))),
                Err(_) => false,
            },
        },
{
    let ghost told = names;
    match list_devices(names) {
        Ok(list) => {
            proof {
                match told {
                    DeviceNames::Strict(ns) => {
                        lemma_names_json(list, strict_names(ns@));
                    },
                    DeviceNames::Lenient(ns) => {
                        lemma_names_json(list, lenient_names(ns@));
                    },
                }
            }
            Ok(list_json(&list))
        },
        Err(e) => Err(e),
    }
}

/// The devices that the capture program listed, from how it ended and what it printed.
pub fn list_audio_devices(success: bool, stdout: &[u8], stderr: &[u8]) -> (r: Result<Value, String>)
    ensures
        match r {
            Ok(v) => success && json_parsed(trim(lossy_text(stdout@), Class::Space))
                == Parsed::Holds(json(v)),
            Err(e) => if success {
                json_parsed(trim(lossy_text(stdout@), Class::Space)) matches Parsed::Refused(why)
                    && e@ == "Invalid device list JSON: "@ + why
            } else {
                e@ == "audio-capture list-devices failed: "@ + lossy_text(stderr@)
            },
        },
{
    if !success {
        let mut e: String = "audio-capture list-devices failed: ".to_owned();
        e.append(from_utf8_lossy(stderr).as_str());
        return Err(e);
    }
    let printed: Vec<char> = chars(from_utf8_lossy(stdout).as_str());
    match parse(string(trimmed(printed.as_slice(), Class::Space)).as_str()) {
        Ok(v) => Ok(v),
        Err(why) => {
            let mut e: String = "Invalid device list JSON: ".to_owned();
            e.append(why.as_str());
            Err(e)
        },
    }
}

/// The applications that the capture program listed, from what it printed; none where
/// that is no JSON, and none on a platform where no application can be chosen, where
/// the program is not asked.
pub fn list_loopback_apps(stdout: Option<&[u8]>) -> (r: Value)
    ensures
        match stdout {
            Some(out) => match json_parsed(trim(lossy_text(out@), Class::Space)) {
                Parsed::Holds(v) => json(r) == v,
                Parsed::Refused(_) => json(r) == Json::Array(seq![]),
            },
            None => json(r) == Json::Array(seq![]),
        },
{
    if let Some(out) = stdout {
        let printed: Vec<char> = chars(from_utf8_lossy(out).as_str());
        if let Ok(v) = parse(string(trimmed(printed.as_slice(), Class::Space)).as_str()) {
            return v;
        }
    }
    let none: Vec<Value> = Vec::new();
    proof {
        assert(json_seq(none@) =~= seq![]);
    }
    array_value(none)
}

/// A device that tells no name is called `Capture` with its number; one that does keeps its
/// own.
pub proof fn law_nameless_devices_are_numbered(names: Seq<Option<String>>, i: int)
    requires
        0 <= i < names.len(),
    ensures
        lenient_names(names).len() == names.len(),
        names[i] matches Some(n) ==> lenient_names(names)[i] == n@,
        names[i] is None ==> lenient_names(names)[i] == seq![
            'C',
            'a',
            'p',
            't',
            'u',
            'r',
            'e',
            ' ',
        ] + int_text(i),
{
    reveal_strlit("Capture ");
    assert("Capture "@ =~= seq!['C', 'a', 'p', 't', 'u', 'r', 'e', ' ']);
}

/// Where every device tells its name, the names are those, in their order.
pub proof fn law_told_names_are_listed<E>(names: Seq<Result<String, E>>, i: int)
    requires
        0 <= i < names.len(),
    ensures
        strict_names(names).len() == names.len(),
        names[i] matches Ok(n) ==> strict_names(names)[i] == n@,
        all_told(names) ==> names[i] is Ok,
        (forall|j: int| 0 <= j < names.len() ==> (#[trigger] names[j]) is Ok) ==> all_told(names),
{
}

/// The settings get one entry for each device, in their order, with its identifier and its
/// name, and nothing else.
pub proof fn law_each_device_has_its_entry(list: AudioDeviceList, i: int, k: Seq<char>)
    requires
        0 <= i < list.inputs@.len(),
    ensures
        member(devices_json(list), "inputs"@) matches Some(Json::Array(a)) && a.len()
            == list.inputs@.len() && member(a[i], "id"@) == Some(Json::Text(list.inputs@[i].id@))
            && member(a[i], "name"@) == Some(Json::Text(list.inputs@[i].name@)) && (k != "id"@ && k
            != "name"@ ==> member(a[i], k) is None),
        k != "inputs"@ ==> member(devices_json(list), k) is None,
{
    reveal_strlit("id");
    reveal_strlit("name");
    assert("id"@.len() != "name"@.len());
}

/// A list by names has for each name one entry, of which it is the identifier and the name.
pub proof fn law_each_name_has_its_entry(names: Seq<Seq<char>>, i: int)
    requires
        0 <= i < names.len(),
    ensures
        member(names_json(names), "inputs"@) matches Some(Json::Array(a)) && a.len() == names.len()
            && member(a[i], "id"@) == Some(Json::Text(names[i])) && member(a[i], "name"@) == Some(
            Json::Text(names[i]),
        ),
{
    reveal_strlit("id");
    reveal_strlit("name");
    assert("id"@.len() != "name"@.len());
}

/// A list of names lists a device for each name, in their order, with the name as its
/// identifier too.
pub proof fn law_devices_are_listed_by_name(
    devices: Seq<AudioDeviceInfo>,
    names: Seq<Seq<char>>,
    i: int,
)
    requires
        lists_names(devices, names),
        0 <= i < names.len(),
    ensures
        devices.len() == names.len(),
        devices[i].id@ == names[i],
        devices[i].name@ == names[i],
{
}

} // verus!
