//! JSON values. `serde_json` holds, reads and writes them; `Json` says what they hold.

use vstd::prelude::*;
use serde_json::Value;
use crate::number::{is_mantissa, is_word, unsigned};

verus! {

broadcast use vstd::string::group_string_axioms;

/// What a JSON value holds.
#[verifier::ext_equal]
pub enum Json {
    Null,
    Bool(bool),
    /// A number without a fraction or an exponent, within 64 bits.
    Int(int),
    /// Any other number, by the bits of the double that stands for it.
    Real(u64),
    Text(Seq<char>),
    Array(Seq<Json>),
    Object(Map<Seq<char>, Json>),
}

/// `serde_json::Value`.
#[verifier::external_type_specification]
#[verifier::external_body]
pub struct ExValue(Value);

/// `serde_json::Map`, the members of an object.
#[verifier::external_type_specification]
#[verifier::external_body]
#[verifier::reject_recursive_types(K)]
#[verifier::reject_recursive_types(V)]
pub struct ExMap<K, V>(serde_json::Map<K, V>);

/// What a `serde_json::Value` holds.
pub uninterp spec fn json(v: Value) -> Json;

/// What a `serde_json::Map` holds.
pub uninterp spec fn members(m: serde_json::Map<String, Value>) -> Map<Seq<char>, Json>;

/// What a list of values holds.
pub open spec fn json_seq(v: Seq<Value>) -> Seq<Json> {
    v.map_values(|x: Value| json(x))
}

/// The members of an object; none for any other value.
pub open spec fn object_members(v: Json) -> Map<Seq<char>, Json> {
    match v {
        Json::Object(m) => m,
        _ => Map::empty(),
    }
}

/// The member of an object, if the value is an object that has it.
pub open spec fn member(v: Json, key: Seq<char>) -> Option<Json> {
    if object_members(v).contains_key(key) {
        Some(object_members(v)[key])
    } else {
        None
    }
}

/// The member of an object, or `null`.
pub open spec fn member_or_null(v: Json, key: Seq<char>) -> Json {
    match member(v, key) {
        Some(m) => m,
        None => Json::Null,
    }
}

/// Whether a double, given by its bits, is smaller than the 977th power of two.
pub open spec fn is_moderate(bits: u64) -> bool {
    bits / 0x10_0000_0000_0000 % 2048 < 2000
}

/// Whether arrays and objects are nested at most `depth` deep in the value, and
/// no double in it is near the end of the range.
pub open spec fn readable_within(v: Json, depth: nat) -> bool
    decreases depth,
{
    match v {
        Json::Real(bits) => is_moderate(bits),
        Json::Array(a) => depth > 0 && forall|i: int|
            0 <= i < a.len() ==> readable_within(#[trigger] a[i], (depth - 1) as nat),
        Json::Object(m) => depth > 0 && forall|k: Seq<char>|
            m.contains_key(k) ==> readable_within(#[trigger] m[k], (depth - 1) as nat),
        _ => true,
    }
}

/// Whether arrays and objects are nested at most `depth` deep in the value.
pub open spec fn nested_within(v: Json, depth: nat) -> bool
    decreases depth,
{
    match v {
        Json::Array(a) => depth > 0 && forall|i: int|
            0 <= i < a.len() ==> nested_within(#[trigger] a[i], (depth - 1) as nat),
        Json::Object(m) => depth > 0 && forall|k: Seq<char>|
            m.contains_key(k) ==> nested_within(#[trigger] m[k], (depth - 1) as nat),
        _ => true,
    }
}

/// Whether no double in the value, down to that depth, is near the end of the range.
pub open spec fn moderate_within(v: Json, depth: nat) -> bool
    decreases depth,
{
    match v {
        Json::Real(bits) => is_moderate(bits),
        Json::Array(a) => depth > 0 ==> forall|i: int|
            0 <= i < a.len() ==> moderate_within(#[trigger] a[i], (depth - 1) as nat),
        Json::Object(m) => depth > 0 ==> forall|k: Seq<char>|
            m.contains_key(k) ==> moderate_within(#[trigger] m[k], (depth - 1) as nat),
        _ => true,
    }
}

/// A value that is nested so deep, and has only moderate doubles, is readable.
pub proof fn lemma_readable(v: Json, depth: nat)
    requires
        nested_within(v, depth),
        moderate_within(v, depth),
    ensures
        readable_within(v, depth),
    decreases depth,
{
    match v {
        Json::Array(a) => {
            assert forall|i: int| 0 <= i < a.len() implies readable_within(
                #[trigger] a[i],
                (depth - 1) as nat,
            ) by {
                lemma_readable(a[i], (depth - 1) as nat);
            }
        },
        Json::Object(m) => {
            assert forall|k: Seq<char>| m.contains_key(k) implies readable_within(
                #[trigger] m[k],
                (depth - 1) as nat,
            ) by {
                lemma_readable(m[k], (depth - 1) as nat);
            }
        },
        _ => {},
    }
}

/// Whether two values, nested at most `depth` deep, are the same but for the
/// doubles in them: these may differ.
pub open spec fn alike_within(v: Json, w: Json, depth: nat) -> bool
    decreases depth,
{
    match (v, w) {
        (Json::Real(_), Json::Real(_)) => true,
        (Json::Array(a), Json::Array(b)) => {
            &&& depth > 0
            &&& a.len() == b.len()
            &&& forall|i: int|
                0 <= i < a.len() ==> alike_within(#[trigger] a[i], b[i], (depth - 1) as nat)
        },
        (Json::Object(m), Json::Object(n)) => {
            &&& depth > 0
            &&& m.dom() == n.dom()
            &&& forall|k: Seq<char>|
                m.contains_key(k) ==> alike_within(#[trigger] m[k], n[k], (depth - 1) as nat)
        },
        _ => v == w,
    }
}

/// Whether no double is in the value, and arrays and objects are nested at most
/// `depth` deep in it.
pub open spec fn exact_within(v: Json, depth: nat) -> bool
    decreases depth,
{
    match v {
        Json::Real(_) => false,
        Json::Array(a) => depth > 0 && forall|i: int|
            0 <= i < a.len() ==> exact_within(#[trigger] a[i], (depth - 1) as nat),
        Json::Object(m) => depth > 0 && forall|k: Seq<char>|
            m.contains_key(k) ==> exact_within(#[trigger] m[k], (depth - 1) as nat),
        _ => true,
    }
}

/// What is like an exact value is that value.
pub proof fn lemma_exact(v: Json, w: Json, depth: nat)
    requires
        exact_within(v, depth),
    ensures
        readable_within(v, depth),
        alike_within(v, w, depth) ==> v == w,
    decreases depth,
{
    match v {
        Json::Array(a) => {
            assert forall|i: int| 0 <= i < a.len() implies readable_within(
                #[trigger] a[i],
                (depth - 1) as nat,
            ) by {
                lemma_exact(a[i], a[i], (depth - 1) as nat);
            }
            if let Json::Array(b) = w {
                if alike_within(v, w, depth) {
                    assert forall|i: int| 0 <= i < a.len() implies a[i] == b[i] by {
                        lemma_exact(a[i], b[i], (depth - 1) as nat);
                    }
                    assert(a =~= b);
                }
            }
        },
        Json::Object(m) => {
            assert forall|k: Seq<char>| m.contains_key(k) implies readable_within(
                #[trigger] m[k],
                (depth - 1) as nat,
            ) by {
                lemma_exact(m[k], m[k], (depth - 1) as nat);
            }
            if let Json::Object(n) = w {
                if alike_within(v, w, depth) {
                    assert forall|k: Seq<char>| m.contains_key(k) implies m[k] == n[k] by {
                        lemma_exact(m[k], n[k], (depth - 1) as nat);
                    }
                    assert(m =~= n);
                }
            }
        },
        _ => {},
    }
}

/// What reading a text gives.
pub enum Parsed {
    Holds(Json),
    /// The text is no JSON, and this is what is said to be wrong with it.
    Refused(Seq<char>),
}

/// What `serde_json` reads out of a text.
pub uninterp spec fn json_parsed(text: Seq<char>) -> Parsed;

/// The compact text that `serde_json` writes a value as.
pub uninterp spec fn json_text(v: Json) -> Seq<char>;

/// The indented text that `serde_json` writes a value as.
pub uninterp spec fn json_pretty(v: Json) -> Seq<char>;

/// `serde_json::from_str` reads a value, or refuses the text with an error whose
/// text depends on the input alone. It refuses what is nested more than 127 deep.
#[verifier::external_body]
pub(crate) fn parse(text: &str) -> (r: Result<Value, String>)
    ensures
        match r {
            Ok(v) => json_parsed(text@) == Parsed::Holds(json(v)) && nested_within(json(v), 127),
            Err(e) => json_parsed(text@) == Parsed::Refused(e@),
        },
{
    serde_json::from_str(text).map_err(|e| e.to_string())
}

/// Whether a text reads as the value, but for its doubles.
pub open spec fn reads_as(text: Seq<char>, v: Json) -> bool {
    match json_parsed(text) {
        Parsed::Holds(w) => alike_within(v, w, 127),
        Parsed::Refused(_) => false,
    }
}

/// Whether a text, if it is read at all, reads as the value but for its doubles.
pub open spec fn may_read_as(text: Seq<char>, v: Json) -> bool {
    match json_parsed(text) {
        Parsed::Holds(w) => alike_within(v, w, 127),
        Parsed::Refused(_) => true,
    }
}

/// `Value::to_string` writes a value on one line. Where the text is read, it gives the
/// value back but for its doubles, which need not be read to the last bit. It is read
/// unless arrays and objects are nested more than 127 deep, or a double is so large
/// that rounding may take it out of range.
#[verifier::external_body]
pub(crate) fn compact(v: &Value) -> (r: String)
    ensures
        r@ == json_text(json(*v)),
        !r@.contains('\n'),
        may_read_as(r@, json(*v)),
        readable_within(json(*v), 127) ==> reads_as(r@, json(*v)),
{
    v.to_string()
}

/// `serde_json::to_string_pretty` writes a value over several lines; it does not
/// fail on a `Value`, whose keys are strings. The text is read back as the compact
/// one is.
#[verifier::external_body]
pub(crate) fn pretty(v: &Value) -> (r: String)
    ensures
        r@ == json_pretty(json(*v)),
        may_read_as(r@, json(*v)),
        readable_within(json(*v), 127) ==> reads_as(r@, json(*v)),
{
    serde_json::to_string_pretty(v).unwrap_or_default()
}

/// `Value::get` with a key: the member of an object.
#[verifier::external_body]
pub(crate) fn get<'a>(v: &'a Value, key: &str) -> (r: Option<&'a Value>)
    ensures
        match r {
            Some(m) => member(json(*v), key@) == Some(json(*m)),
            None => member(json(*v), key@) is None,
        },
{
    v.get(key)
}

/// `Value::get_mut` with a key: the member of an object, to be changed in place.
#[verifier::external_body]
pub(crate) fn get_mut<'a>(v: &'a mut Value, key: &str) -> (r: Option<&'a mut Value>)
    ensures
        match r {
            Some(m) => {
                &&& member(json(*old(v)), key@) == Some(json(*m))
                &&& json(*final(v)) == Json::Object(
                    object_members(json(*old(v))).insert(key@, json(*final(m))),
                )
            },
            None => {
                &&& member(json(*old(v)), key@) is None
                &&& *final(v) == *old(v)
            },
        },
{
    v.get_mut(key)
}

/// Indexing a `Value` mutably with a key: the member of an object, which is made
/// as `null` where it is missing. `null` becomes an object first.
#[verifier::external_body]
pub(crate) fn index_mut<'a>(v: &'a mut Value, key: &str) -> (r: &'a mut Value)
    requires
        json(*old(v)) is Null || json(*old(v)) is Object,
    ensures
        json(*r) == member_or_null(json(*old(v)), key@),
        json(*final(v)) == Json::Object(
            object_members(json(*old(v))).insert(key@, json(*final(r))),
        ),
{
    &mut v[key]
}

/// `Value::is_object`.
pub assume_specification[ Value::is_object ](v: &Value) -> (r: bool)
    ensures
        r == (json(*v) is Object),
;

/// `Value::is_null`.
pub assume_specification[ Value::is_null ](v: &Value) -> (r: bool)
    ensures
        r == (json(*v) is Null),
;

/// `Value::as_str`.
pub assume_specification[ Value::as_str ](v: &Value) -> (r: Option<&str>)
    ensures
        match r {
            Some(s) => json(*v) == Json::Text(s@),
            None => !(json(*v) is Text),
        },
;

/// `Value::as_bool`.
pub assume_specification[ Value::as_bool ](v: &Value) -> (r: Option<bool>)
    ensures
        match r {
            Some(b) => json(*v) == Json::Bool(b),
            None => !(json(*v) is Bool),
        },
;

/// `Value::as_i64`.
pub assume_specification[ Value::as_i64 ](v: &Value) -> (r: Option<i64>)
    ensures
        match r {
            Some(n) => json(*v) == Json::Int(n as int),
            None => !(json(*v) matches Json::Int(n) && i64::MIN <= n <= i64::MAX),
        },
;

/// `Value::as_array`.
pub assume_specification[ Value::as_array ](v: &Value) -> (r: Option<&Vec<Value>>)
    ensures
        match r {
            Some(a) => json(*v) == Json::Array(json_seq(a@)),
            None => !(json(*v) is Array),
        },
;

/// `Value::as_array_mut`.
pub assume_specification[ Value::as_array_mut ](v: &mut Value) -> (r: Option<&mut Vec<Value>>)
    ensures
        match r {
            Some(a) => {
                &&& json(*old(v)) == Json::Array(json_seq(a@))
                &&& json(*final(v)) == Json::Array(json_seq(final(a)@))
            },
            None => !(json(*old(v)) is Array) && *final(v) == *old(v),
        },
;

/// `Value::as_object_mut`.
pub assume_specification[ Value::as_object_mut ](v: &mut Value) -> (r: Option<
    &mut serde_json::Map<String, Value>,
>)
    ensures
        match r {
            Some(m) => {
                &&& json(*old(v)) == Json::Object(members(*m))
                &&& json(*final(v)) == Json::Object(members(*final(m)))
            },
            None => !(json(*old(v)) is Object) && *final(v) == *old(v),
        },
;

/// `serde_json::Map::new` makes an object without members.
pub assume_specification[ serde_json::Map::<String, Value>::new ]() -> (r: serde_json::Map<
    String,
    Value,
>)
    ensures
        members(r) =~= map![],
;

/// `serde_json::Map::insert` sets a member, and hands out the one that it replaces.
pub assume_specification[ serde_json::Map::<String, Value>::insert ](
    m: &mut serde_json::Map<String, Value>,
    k: String,
    v: Value,
) -> (r: Option<Value>)
    ensures
        members(*final(m)) == members(*old(m)).insert(k@, json(v)),
        match r {
            Some(w) => members(*old(m)).contains_key(k@) && members(*old(m))[k@] == json(w),
            None => !members(*old(m)).contains_key(k@),
        },
;

/// `serde_json::Map::remove` takes a member out.
#[verifier::external_body]
pub(crate) fn map_remove(m: &mut serde_json::Map<String, Value>, key: &str) -> (r: Option<Value>)
    ensures
        members(*final(m)) == members(*old(m)).remove(key@),
        match r {
            Some(w) => members(*old(m)).contains_key(key@) && members(*old(m))[key@] == json(w),
            None => !members(*old(m)).contains_key(key@),
        },
{
    m.remove(key)
}

/// `serde_json::Map::get_mut`: a member, to be changed in place.
#[verifier::external_body]
pub(crate) fn map_get_mut<'a>(m: &'a mut serde_json::Map<String, Value>, key: &str) -> (r: Option<
    &'a mut Value,
>)
    ensures
        match r {
            Some(w) => {
                &&& members(*old(m)).contains_key(key@)
                &&& members(*old(m))[key@] == json(*w)
                &&& members(*final(m)) == members(*old(m)).insert(key@, json(*final(w)))
            },
            None => !members(*old(m)).contains_key(key@) && *final(m) == *old(m),
        },
{
    m.get_mut(key)
}

/// `Value::Object` with the given members.
#[verifier::external_body]
pub(crate) fn object_value(m: serde_json::Map<String, Value>) -> (r: Value)
    ensures
        json(r) == Json::Object(members(m)),
{
    Value::Object(m)
}

/// `Value::Array` with the given items.
#[verifier::external_body]
pub(crate) fn array_value(a: Vec<Value>) -> (r: Value)
    ensures
        json(r) == Json::Array(json_seq(a@)),
{
    Value::Array(a)
}

/// `Value::String` with the given text.
#[verifier::external_body]
pub(crate) fn text_value(s: String) -> (r: Value)
    ensures
        json(r) == Json::Text(s@),
{
    Value::String(s)
}

/// `Value::Bool` with the given truth value.
#[verifier::external_body]
pub(crate) fn bool_value(b: bool) -> (r: Value)
    ensures
        json(r) == Json::Bool(b),
{
    Value::Bool(b)
}

/// `Value::from` of a natural number.
#[verifier::external_body]
pub(crate) fn nat_value(n: u64) -> (r: Value)
    ensures
        json(r) == Json::Int(n as int),
{
    Value::from(n)
}

/// `Value::from` of an integer.
#[verifier::external_body]
pub(crate) fn int_value(n: i64) -> (r: Value)
    ensures
        json(r) == Json::Int(n as int),
{
    Value::from(n)
}

/// Whether a text is a decimal of at most 300 characters, without an exponent.
pub open spec fn is_plain(literal: Seq<char>) -> bool {
    is_mantissa(unsigned(literal)) && literal.len() <= 300
}

/// Whether a text is a literal of an infinity or of a NaN.
pub open spec fn stands_for_none(literal: Seq<char>) -> bool {
    let t = unsigned(literal);
    is_word(t, "inf"@) || is_word(t, "infinity"@) || is_word(t, "nan"@)
}

/// The JSON number of the double that a literal stands for.
pub uninterp spec fn literal_json(literal: Seq<char>) -> Json;

/// `serde_json::Number::from_f64` of the double that `str::parse` reads from a literal.
/// There is no JSON number for an infinity or a NaN, and no double in what is no
/// literal: both give `null`. A decimal of at most 300 characters, without an exponent,
/// is a literal, and far from the end of the range: it gives a number.
#[verifier::external_body]
pub(crate) fn literal_value(literal: &str) -> (r: Value)
    ensures
        json(r) == literal_json(literal@),
        json(r) is Real || json(r) is Null,
        is_plain(literal@) ==> json(r) is Real,
        stands_for_none(literal@) ==> json(r) is Null,
{
    let number = literal.parse().ok().and_then(serde_json::Number::from_f64);
    number.map_or(Value::Null, Value::Number)
}

/// The text that `Display` writes for the double that a JSON number stands for.
pub uninterp spec fn double_text(v: Json) -> Seq<char>;

/// `Value::as_f64`, as the text that the double's `Display` writes: a number of either
/// kind has a double, any other value has none. Nothing is said of how the digits of
/// the text are laid out.
#[verifier::external_body]
pub(crate) fn as_double_text(v: &Value) -> (r: Option<String>)
    ensures
        match r {
            Some(s) => (json(*v) is Int || json(*v) is Real) && s@ == double_text(json(*v)),
            None => !(json(*v) is Int || json(*v) is Real),
        },
{
    v.as_f64().map(|d| d.to_string())
}

/// The members of an object under construction.
pub(crate) type Members = serde_json::Map<String, Value>;

/// The members with one more, or with a new value for one.
pub(crate) fn with(m: Members, key: &str, v: Value) -> (r: Members)
    ensures
        members(r) == members(m).insert(key@, json(v)),
{
    let mut m: Members = m;
    m.insert(key.to_owned(), v);
    m
}

/// The members with one more that is a text.
pub(crate) fn with_text(m: Members, key: &str, text: &str) -> (r: Members)
    ensures
        members(r) == members(m).insert(key@, Json::Text(text@)),
{
    with(m, key, text_value(text.to_owned()))
}

} // verus!
