//! The language model's server: where it is asked for its models, and what is told of
//! its answer.

use vstd::prelude::*;
use serde_json::Value;
use vstd::slice::slice_subrange;
use vstd::string::StringExecFns;
use crate::desktop_config::{Config, Platform};
use crate::json::{bool_value, get, json, json_seq, member, member_or_null, members, object_value, with, with_text, Json, Members};
use crate::messages::{log, ok_json, ok_reply, Level, Log};
use crate::recorder::{and, one, ProcessCommand};
use crate::text::{begins, chars, equal, has_prefix, string, string_views, trim_end, Class};

verus! {

broadcast use vstd::string::group_string_axioms;

/// The address that lists the models of a server.
pub open spec fn tags_address(host: Seq<char>) -> Seq<char> {
    trim_end(host, Class::Only('/')) + "/api/tags"@
}

/// The address that lists the models of a server.
pub fn tags_url(host: &str) -> (r: String)
    ensures
        r@ == tags_address(host@),
{
    let cs: Vec<char> = chars(host);
    let mut n: usize = cs.len();
    proof {
        assert(cs@.take(n as int) =~= host@);
    }
    while n > 0 && cs[n - 1] == '/'
        invariant
            n <= cs@.len(),
            trim_end(cs@.take(n as int), Class::Only('/')) == trim_end(host@, Class::Only('/')),
        decreases n,
    {
        proof {
            assert(cs@.take(n as int).drop_last() =~= cs@.take(n - 1));
        }
        n -= 1;
    }
    let base: &[char] = slice_subrange(cs.as_slice(), 0, n);
    proof {
        if n > 0 {
            assert(cs@.take(n as int).last() == cs@[n - 1]);
        }
        assert(base@ =~= cs@.take(n as int));
    }
    let mut s: String = string(base);
    s.append("/api/tags");
    s
}

/// Whether the name of a model is the one that is wanted, with or without a tag.
pub open spec fn is_model(name: Seq<char>, model: Seq<char>) -> bool {
    name == model || has_prefix(name, model + ":"@)
}

/// Whether an entry of the list of models is for the one that is wanted.
pub open spec fn is_entry_of(entry: Json, model: Seq<char>) -> bool {
    match member_or_null(entry, "name"@) {
        Json::Text(n) => is_model(n, model),
        _ => false,
    }
}

/// Whether the server's answer lists the model that is wanted.
pub open spec fn lists_model(body: Json, model: Seq<char>) -> bool {
    match member_or_null(body, "models"@) {
        Json::Array(a) => exists|i: int| 0 <= i < a.len() && is_entry_of(#[trigger] a[i], model),
        _ => false,
    }
}

fn is_wanted(entry: &Value, model: &str, tagged: &str) -> (r: bool)
    requires
        tagged@ == model@ + ":"@,
    ensures
        r == is_entry_of(json(*entry), model@),
{
    match get(entry, "name") {
        Some(v) => match v.as_str() {
            Some(n) => equal(n, model) || begins(chars(n).as_slice(), tagged),
            None => false,
        },
        None => false,
    }
}

/// Whether the server's answer lists the model that is wanted.
pub fn has_model(body: &Value, model: &str) -> (r: bool)
    ensures
        r == lists_model(json(*body), model@),
{
    let mut tagged: String = model.to_owned();
    tagged.append(":");
    match get(body, "models") {
        Some(models) => match models.as_array() {
            Some(list) => {
                let ghost a = json_seq(list@);
                let mut i: usize = 0;
                while i < list.len()
                    invariant
                        i <= list@.len(),
                        a == json_seq(list@),
                        member_or_null(json(*body), "models"@) == Json::Array(a),
                        tagged@ == model@ + ":"@,
                        forall|j: int| 0 <= j < i ==> !is_entry_of(#[trigger] a[j], model@),
                    decreases list@.len() - i,
                {
                    proof {
                        assert(a[i as int] == json(list@[i as int]));
                    }
                    if is_wanted(&list[i], model, tagged.as_str()) {
                        proof {
                            assert(0 <= i < a.len());
                            assert(is_entry_of(a[i as int], model@));
                            assert(member_or_null(json(*body), "models"@)->Array_0 == a);
                        }
                        return true;
                    }
                    i += 1;
                }
                false
            },
            None => false,
        },
        None => false,
    }
}

/// What the user interface is told of the server.
pub open spec fn ollama_json(running: bool, has_model: bool) -> Json {
    Json::Object(map!["running"@ => Json::Bool(running), "has_model"@ => Json::Bool(has_model)])
}

/// What the user interface is told of the server. Its answer is missing where it did not
/// give one, or refused.
pub fn check_ollama_status(answer: Option<&Value>, model: &str) -> (r: Value)
    ensures
        json(r) == (match answer {
            Some(body) => ollama_json(true, lists_model(json(*body), model@)),
            None => ollama_json(false, false),
        }),
{
    let (running, found): (bool, bool) = match answer {
        Some(body) => (true, has_model(body, model)),
        None => (false, false),
    };
    let m: Members = with(Members::new(), "running", bool_value(running));
    let m: Members = with(m, "has_model", bool_value(found));
    proof {
        assert(members(m) =~= map![
            "running"@ => Json::Bool(running),
            "has_model"@ => Json::Bool(found),
        ]);
    }
    object_value(m)
}

/// What the user interface is told of the configuration.
pub fn get_ollama_config(cfg: &Config) -> (r: Value)
    ensures
        json(r) == Json::Object(
            map![
                "host"@ => Json::Text(cfg.ollama_host@),
                "model"@ => Json::Text(cfg.ollama_model@),
                "summarize"@ => Json::Bool(cfg.summarize),
            ],
        ),
{
    let m: Members = with_text(Members::new(), "host", cfg.ollama_host.as_str());
    let m: Members = with_text(m, "model", cfg.ollama_model.as_str());
    let m: Members = with(m, "summarize", bool_value(cfg.summarize));
    proof {
        assert(members(m) =~= map![
            "host"@ => Json::Text(cfg.ollama_host@),
            "model"@ => Json::Text(cfg.ollama_model@),
            "summarize"@ => Json::Bool(cfg.summarize),
        ]);
    }
    object_value(m)
}

/// The command that starts the server as a process of its own: the program, and the
/// arguments.
pub open spec fn serve_spec(platform: Platform) -> (Seq<char>, Seq<Seq<char>>) {
    match platform {
        Platform::Windows => ("cmd"@, seq!["/c"@, "start"@, ""@, "ollama"@, "serve"@]),
        Platform::Unix => ("sh"@, seq!["-c"@, "ollama serve &"@]),
    }
}

/// The command that starts the server as a process of its own, and what is logged.
pub fn start_ollama_service(platform: Platform) -> (r: (Log, ProcessCommand))
    ensures
        r.0.says(Level::Info, "starting_ollama_service"@),
        r.1.runs(serve_spec(platform).0, serve_spec(platform).1),
{
    let command: ProcessCommand = match platform {
        Platform::Windows => {
            let args: Vec<String> = and(and(and(and(one("/c"), "start"), ""), "ollama"), "serve");
            proof {
                assert(string_views(args@) =~= seq!["/c"@, "start"@, ""@, "ollama"@, "serve"@]);
            }
            ProcessCommand { program: "cmd".to_owned(), args }
        },
        Platform::Unix => {
            let args: Vec<String> = and(one("-c"), "ollama serve &");
            proof {
                assert(string_views(args@) =~= seq!["-c"@, "ollama serve &"@]);
            }
            ProcessCommand { program: "sh".to_owned(), args }
        },
    };
    (log(Level::Info, "starting_ollama_service"), command)
}

/// What the user is told of the start of the server, which may have failed for a reason.
pub fn ollama_service_reply(error: Option<&str>) -> (r: Value)
    ensures
        json(r) == (match error {
            Some(e) => Json::Object(
                map!["ok"@ => Json::Bool(false), "error"@ => Json::Text(e@)],
            ),
            None => ok_json(true),
        }),
{
    match error {
        Some(e) => {
            let m: Members = with(Members::new(), "ok", bool_value(false));
            let m: Members = with_text(m, "error", e);
            proof {
                assert(members(m) =~= map!["ok"@ => Json::Bool(false), "error"@ => Json::Text(e@)]);
            }
            object_value(m)
        },
        None => ok_reply(true),
    }
}

/// The models are listed at `/api/tags` below the server's address, without the slashes at
/// its end.
pub proof fn law_models_are_listed_below_the_host(host: Seq<char>, slashes: Seq<char>)
    requires
        host.len() == 0 || host.last() != '/',
        forall|i: int| 0 <= i < slashes.len() ==> #[trigger] slashes[i] == '/',
    ensures
        tags_address(host + slashes) == host + "/api/tags"@,
        tags_address(host) == host + "/api/tags"@,
    decreases slashes.len(),
{
    let s = host + slashes;
    if slashes.len() > 0 {
        let less = slashes.drop_last();
        assert(s.last() == slashes[slashes.len() - 1]);
        assert(s.drop_last() =~= host + less);
        assert forall|i: int| 0 <= i < less.len() implies #[trigger] less[i] == '/' by {
            assert(less[i] == slashes[i]);
        }
        law_models_are_listed_below_the_host(host, less);
    } else {
        assert(s =~= host);
    }
}

/// A name is that of the model where it is the model's, or the model's with a colon and a tag
/// behind it.
pub proof fn law_models_may_have_tags(model: Seq<char>, name: Seq<char>, tag: Seq<char>)
    ensures
        is_model(model, model),
        is_model(model.push(':') + tag, model),
        is_model(name, model) && name != model ==> name.len() > model.len() && name.take(
            model.len() as int,
        ) == model && name[model.len() as int] == ':',
{
    reveal_strlit(":");
    assert(model + ":"@ =~= model.push(':'));
    assert((model.push(':') + tag).take(model.len() as int + 1) =~= model.push(':'));
    if is_model(name, model) && name != model {
        let p = model.push(':');
        assert(name.take(p.len() as int) == p);
        assert(name[model.len() as int] == p[model.len() as int]);
        assert(name.take(model.len() as int) =~= model) by {
            assert forall|i: int| 0 <= i < model.len() implies name[i] == model[i] by {
                assert(name.take(p.len() as int)[i] == p[i]);
            }
        }
    }
}

/// The server has the model where one of the entries under `models`, at whatever place, has a
/// name of it.
pub proof fn law_named_model_is_found(
    body: Json,
    models: Seq<Json>,
    model: Seq<char>,
    i: int,
    name: Seq<char>,
)
    requires
        member(body, "models"@) == Some(Json::Array(models)),
        0 <= i < models.len(),
        member(models[i], "name"@) == Some(Json::Text(name)),
        is_model(name, model),
    ensures
        lists_model(body, model),
{
    let entry = models[i];
    assert(member_or_null(body, "models"@) == Json::Array(models));
    assert(member_or_null(entry, "name"@) == Json::Text(name));
    assert(is_entry_of(entry, model));
    if let Json::Array(a) = member_or_null(body, "models"@) {
        assert(a[i] == entry);
        assert(is_entry_of(a[i], model));
    }
}

/// It has the model only there: where it has it, an entry, at the place that is given, has a
/// name of it.
pub proof fn law_found_model_is_named(body: Json, models: Seq<Json>, model: Seq<char>) -> (i: int)
    requires
        member(body, "models"@) == Some(Json::Array(models)),
        lists_model(body, model),
    ensures
        0 <= i < models.len(),
        member(models[i], "name"@) matches Some(Json::Text(n)) && is_model(n, model),
{
    choose|i: int| 0 <= i < models.len() && is_entry_of(#[trigger] models[i], model)
}

/// An answer without a list of models has none.
pub proof fn law_no_list_has_no_model(body: Json, model: Seq<char>)
    requires
        !(member(body, "models"@) matches Some(Json::Array(_))),
    ensures
        !lists_model(body, model),
{
}

/// The user interface is told whether the server runs and whether it has the model, and
/// nothing else.
pub proof fn law_server_is_told_of(running: bool, has_model: bool, k: Seq<char>)
    ensures
        member(ollama_json(running, has_model), "running"@) == Some(Json::Bool(running)),
        member(ollama_json(running, has_model), "has_model"@) == Some(Json::Bool(has_model)),
        k != "running"@ && k != "has_model"@ ==> member(ollama_json(running, has_model), k) is None,
{
    reveal_strlit("running");
    reveal_strlit("has_model");
    assert("running"@.len() != "has_model"@.len());
}

/// The server is started through the system's shell.
pub proof fn law_server_is_started_by_the_shell()
    ensures
        serve_spec(Platform::Unix).0 == "sh"@,
        serve_spec(Platform::Unix).1 == seq!["-c"@, "ollama serve &"@],
        serve_spec(Platform::Windows).0 == "cmd"@,
        serve_spec(Platform::Windows).1 == seq!["/c"@, "start"@, ""@, "ollama"@, "serve"@],
{
}

} // verus!
