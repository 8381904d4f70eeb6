//! JSON documents, as payloads carry them, and how values turn into documents
//! and back. Reading and writing the bytes is the work of `serde_json`.

use crate::text::text_before;
use crate::value::{
    object_view, props_view, put, put_keeps_well_formed, put_property, rank, sorted, well_formed,
    ValueView,
};
use vstd::prelude::*;

verus! {

/// A document as `serde_json` holds it, on its way into or out of a [`Json`].
#[verifier::external_body]
struct SerdeTree {
    tree: serde_json::Value,
}

/// The numbers of `serde_json`. Nothing is known of what one holds.
#[verifier::external_type_specification]
#[verifier::external_body]
pub struct ExJsonNumber(serde_json::Number);

/// The error that reading and writing with `serde_json` can end in. Nothing
/// is known of what it holds.
#[verifier::external_type_specification]
#[verifier::external_body]
pub struct ExJsonError(serde_json::Error);

/// The mathematical content of a [`Json`] document.
pub enum JsonView {
    Null,
    Bool(bool),
    Integer(i64),
    Unsigned(u64),
    Float(Seq<char>),
    Str(Seq<char>),
    Array(Seq<JsonView>),
    Object(Seq<(Seq<char>, JsonView)>),
}

/// A JSON document.
#[derive(Debug, PartialEq)]
pub enum Json {
    Null,
    Bool(bool),
    /// A whole number that fits a signed 64-bit integer.
    Integer(i64),
    /// A whole number beyond the signed 64-bit integers.
    Unsigned(u64),
    /// Any other number, as the shortest decimal text that reads back as it.
    Float(String),
    Str(String),
    Array(Vec<Json>),
    /// Members by key, in the order in which they are written. Where
    /// `serde_json` has read them, no key occurs twice: of two members with
    /// one key the document's later value stands at the earlier one's place.
    Object(Vec<(String, Json)>),
}

/// The mathematical content of `doc`.
pub open spec fn json_view(doc: Json) -> JsonView
    decreases doc,
{
    match doc {
        Json::Null => JsonView::Null,
        Json::Bool(b) => JsonView::Bool(b),
        Json::Integer(i) => JsonView::Integer(i),
        Json::Unsigned(u) => JsonView::Unsigned(u),
        Json::Float(s) => JsonView::Float(s@),
        Json::Str(s) => JsonView::Str(s@),
        Json::Array(items) => JsonView::Array(
            Seq::new(
                items@.len(),
                |i: int|
                    if 0 <= i < items@.len() {
                        json_view(items@[i])
                    } else {
                        JsonView::Null
                    },
            ),
        ),
        Json::Object(members) => JsonView::Object(
            Seq::new(
                members@.len(),
                |i: int|
                    if 0 <= i < members@.len() {
                        (members@[i].0@, json_view(members@[i].1))
                    } else {
                        (Seq::empty(), JsonView::Null)
                    },
            ),
        ),
    }
}

impl View for Json {
    type V = JsonView;

    open spec fn view(&self) -> JsonView {
        json_view(*self)
    }
}

/// The contents of a list of members.
pub open spec fn members_view(members: Seq<(String, Json)>) -> Seq<(Seq<char>, JsonView)> {
    Seq::new(members.len(), |i: int| (members[i].0@, members[i].1@))
}

/// The view of an object is the view of its members.
pub proof fn json_object_view(members: Vec<(String, Json)>)
    ensures
        Json::Object(members)@ == JsonView::Object(members_view(members@)),
{
    reveal_with_fuel(json_view, 2);
    assert(Json::Object(members)@->Object_0 =~= members_view(members@));
}

/// The document that `serde_json` reads from `bytes`, if it reads one.
pub uninterp spec fn json_document(bytes: Seq<u8>) -> Option<JsonView>;

/// The bytes that `serde_json` writes for `doc`, if it writes any.
pub uninterp spec fn json_bytes(doc: JsonView) -> Option<Seq<u8>>;

/// The content of what reading gave.
pub open spec fn read_view(r: Result<Json, serde_json::Error>) -> Option<JsonView> {
    match r {
        Ok(doc) => Some(doc@),
        Err(_) => None,
    }
}

/// The content of what writing gave.
pub open spec fn written_view(r: Result<Vec<u8>, serde_json::Error>) -> Option<Seq<u8>> {
    match r {
        Ok(bytes) => Some(bytes@),
        Err(_) => None,
    }
}

/// Turns a number of `serde_json` into a document: a whole number where
/// `as_i64` or `as_u64` gives one, else the decimal text of what `as_f64`
/// gives.
#[verifier::external_body]
fn number_from_serde(n: &serde_json::Number) -> Json {
    match (n.as_i64(), n.as_u64(), n.as_f64()) {
        (Some(i), _, _) => Json::Integer(i),
        (_, Some(u), _) => Json::Unsigned(u),
        (_, _, Some(x)) => Json::Float(x.to_string()),
        _ => Json::Null,
    }
}

/// Turns a `serde_json::Value` into a document, variant by variant.
#[verifier::external_body]
fn document_from_serde(v: SerdeTree) -> Json {
    match v.tree {
        serde_json::Value::Null => Json::Null,
        serde_json::Value::Bool(b) => Json::Bool(b),
        serde_json::Value::Number(n) => number_from_serde(&n),
        serde_json::Value::String(s) => Json::Str(s),
        serde_json::Value::Array(a) => Json::Array(
            a.into_iter().map(|tree| document_from_serde(SerdeTree { tree })).collect(),
        ),
        serde_json::Value::Object(o) => Json::Object(
            o.into_iter().map(|(k, tree)| (k, document_from_serde(SerdeTree { tree }))).collect(),
        ),
    }
}

/// Reads a document with `serde_json::from_slice`. The contract names what it
/// reads; it says nothing of which bytes give which document.
#[verifier::external_body]
fn read_document(bytes: &[u8]) -> (r: Result<Json, serde_json::Error>)
    ensures
        read_view(r) == json_document(bytes@),
{
    serde_json::from_slice(bytes).map(|tree| document_from_serde(SerdeTree { tree }))
}

/// Turns the decimal text of a number into a number of `serde_json` with
/// `Number::from_f64`, and into `null` where the text is no finite number.
#[verifier::external_body]
fn float_to_serde(text: &str) -> SerdeTree {
    let number = text.parse().ok().and_then(serde_json::Number::from_f64);
    SerdeTree { tree: number.map_or(serde_json::Value::Null, serde_json::Value::Number) }
}

/// Turns a document into a `serde_json::Value`, variant by variant.
#[verifier::external_body]
fn document_to_serde(doc: &Json) -> SerdeTree {
    let tree = match doc {
        Json::Null => serde_json::Value::Null,
        Json::Bool(b) => serde_json::Value::Bool(*b),
        Json::Integer(i) => serde_json::Value::from(*i),
        Json::Unsigned(u) => serde_json::Value::from(*u),
        Json::Float(s) => float_to_serde(s).tree,
        Json::Str(s) => serde_json::Value::String(s.clone()),
        Json::Array(a) => a.iter().map(|d| document_to_serde(d).tree).collect(),
        Json::Object(o) => o.iter().map(|m| (m.0.clone(), document_to_serde(&m.1).tree)).collect(),
    };
    SerdeTree { tree }
}

/// Writes a document with `serde_json::to_vec`. The contract names what it
/// writes; it says nothing of which bytes those are.
#[verifier::external_body]
fn write_document(doc: &Json) -> (r: Result<Vec<u8>, serde_json::Error>)
    ensures
        written_view(r) == json_bytes(doc@),
{
    serde_json::to_vec(&document_to_serde(doc).tree)
}

impl Json {
    /// The document that `bytes` spell, if they spell one.
    pub fn read(bytes: &[u8]) -> (r: Option<Json>)
        ensures
            r matches Some(doc) ==> json_document(bytes@) == Some(doc@),
            r is None ==> json_document(bytes@) is None,
    {
        match read_document(bytes) {
            Ok(doc) => Some(doc),
            Err(_) => None,
        }
    }

    /// The bytes that spell the document, if it can be written.
    pub fn write(&self) -> (r: Option<Vec<u8>>)
        ensures
            r matches Some(bytes) ==> json_bytes(self@) == Some(bytes@),
            r is None ==> json_bytes(self@) is None,
    {
        match write_document(self) {
            Ok(bytes) => Some(bytes),
            Err(_) => None,
        }
    }
}

/// The properties that the first `n` members of a document give, each member
/// set in turn, or nothing if one of them holds what no value can.
pub open spec fn members_value(members: Seq<(Seq<char>, JsonView)>, n: nat) -> Option<
    Seq<(Seq<char>, ValueView)>,
>
    decreases members, n,
{
    if n == 0 || n > members.len() {
        Some(Seq::empty())
    } else {
        match (members_value(members, (n - 1) as nat), from_json(members[n - 1].1)) {
            (Some(props), Some(value)) => Some(put(props, members[n - 1].0, value)),
            _ => None,
        }
    }
}

/// The value that a document stands for: a boolean, a whole number that fits
/// a signed 64-bit integer, any other number that is not whole, a string, or
/// an object of such values. A document with `null`, an array or a larger
/// whole number in it stands for none.
pub open spec fn from_json(doc: JsonView) -> Option<ValueView>
    decreases doc, 0nat,
{
    match doc {
        JsonView::Null => None,
        JsonView::Bool(b) => Some(ValueView::Bool(b)),
        JsonView::Integer(i) => Some(ValueView::Integer(i)),
        JsonView::Unsigned(u) => if u <= i64::MAX {
            Some(ValueView::Integer(u as i64))
        } else {
            None
        },
        JsonView::Float(s) => Some(ValueView::Float(s)),
        JsonView::Str(s) => Some(ValueView::Str(s)),
        JsonView::Array(_) => None,
        JsonView::Object(members) => match members_value(members, members.len()) {
            Some(props) => Some(ValueView::Object(props)),
            None => None,
        },
    }
}

/// The members that the first `n` properties turn into.
pub open spec fn props_json(props: Seq<(Seq<char>, ValueView)>, n: nat) -> Seq<
    (Seq<char>, JsonView),
>
    decreases props, n,
{
    if n == 0 || n > props.len() {
        Seq::empty()
    } else {
        props_json(props, (n - 1) as nat).push((props[n - 1].0, to_json(props[n - 1].1)))
    }
}

/// The document of a whole number that is not negative.
pub open spec fn whole(n: nat) -> JsonView {
    if n <= i64::MAX {
        JsonView::Integer(n as i64)
    } else {
        JsonView::Unsigned(n as u64)
    }
}

/// The document of a span of `nanos` nanoseconds: an object of its whole
/// seconds, `secs`, and the nanoseconds beyond them, `nanos`.
pub open spec fn span_json(nanos: nat) -> JsonView {
    JsonView::Object(
        seq![
            ("secs"@, whole(crate::value::Duration::secs_of(nanos))),
            ("nanos"@, whole(crate::value::Duration::subsec_of(nanos))),
        ],
    )
}

/// The document of a time of day: the name of sunrise and of sunset, and for
/// a time of the clock an object that holds hour and minute as an array under
/// `HM`.
pub open spec fn time_json(t: crate::value::TimeOfDay) -> JsonView {
    match t {
        crate::value::TimeOfDay::Sunrise => JsonView::Str("Sunrise"@),
        crate::value::TimeOfDay::Sunset => JsonView::Str("Sunset"@),
        crate::value::TimeOfDay::HM(h, m) => JsonView::Object(
            seq![("HM"@, JsonView::Array(seq![whole(h as nat), whole(m as nat)]))],
        ),
    }
}

/// The document that stands for a value. Text and paths become strings,
/// numbers and booleans stay what they are, an address becomes a number, an
/// object becomes an object of the documents of what it holds. A span of time
/// and a time of day become what `span_json` and `time_json` say.
pub open spec fn to_json(v: ValueView) -> JsonView
    decreases v, 0nat,
{
    match v {
        ValueView::Str(s) => JsonView::Str(s),
        ValueView::Path(s) => JsonView::Str(s),
        ValueView::Float(s) => JsonView::Float(s),
        ValueView::Integer(i) => JsonView::Integer(i),
        ValueView::Bool(b) => JsonView::Bool(b),
        ValueView::Object(props) => JsonView::Object(props_json(props, props.len())),
        ValueView::Duration(nanos) => span_json(nanos),
        ValueView::Time(t) => time_json(t),
        ValueView::Jump(ip) => whole(ip as nat),
    }
}

/// The properties that the members of a document give.
fn members_to_props(members: &Vec<(String, Json)>) -> (r: Option<Vec<(String, crate::value::Value)>>)
    ensures
        r matches Some(props) ==> members_value(members_view(members@), members@.len()) == Some(
            props_view(props@),
        ),
        r is None ==> members_value(members_view(members@), members@.len()) is None,
    decreases members,
{
    let ghost view = members_view(members@);
    let mut props: Vec<(String, crate::value::Value)> = Vec::new();
    let mut i: usize = 0;
    assert(props_view(props@) =~= Seq::empty());
    while i < members.len()
        invariant
            i <= members.len(),
            view == members_view(members@),
            members_value(view, i as nat) == Some(props_view(props@)),
        decreases members.len() - i,
    {
        proof {
            assert(decreases_to!(*members => members[i as int]));
        }
        assert(view[i as int] == (members@[i as int].0@, members@[i as int].1@));
        match members[i].1.to_value() {
            Some(value) => {
                put_property(&mut props, members[i].0.clone(), value);
            },
            None => {
                proof {
                    members_value_stays_none(view, (i + 1) as nat, members@.len() as nat);
                }
                return None;
            },
        }
        i += 1;
    }
    Some(props)
}

/// Once a member stands for no value, no longer run of members gives
/// properties.
proof fn members_value_stays_none(members: Seq<(Seq<char>, JsonView)>, n: nat, m: nat)
    requires
        n <= m <= members.len(),
        members_value(members, n) is None,
    ensures
        members_value(members, m) is None,
    decreases m,
{
    if n < m {
        members_value_stays_none(members, n, (m - 1) as nat);
    }
}

/// The view of an array is the views of its items.
pub proof fn json_array_view(items: Vec<Json>)
    ensures
        Json::Array(items)@ == JsonView::Array(Seq::new(items@.len(), |i: int| items@[i]@)),
{
    reveal_with_fuel(json_view, 2);
    assert(Json::Array(items)@->Array_0 =~= Seq::new(items@.len(), |i: int| items@[i]@));
}

/// The document of a whole number that is not negative.
fn whole_number(n: u64) -> (r: Json)
    ensures
        r@ == whole(n as nat),
{
    if n <= i64::MAX as u64 {
        Json::Integer(n as i64)
    } else {
        Json::Unsigned(n)
    }
}

/// The document of a span of time.
fn span_document(d: &crate::value::Duration) -> (r: Json)
    ensures
        r@ == span_json(d.as_nanos()),
{
    let mut members: Vec<(String, Json)> = Vec::new();
    members.push((String::from_str("secs"), whole_number(d.as_secs())));
    members.push((String::from_str("nanos"), whole_number(d.subsec_nanos() as u64)));
    proof {
        json_object_view(members);
        assert(members_view(members@) =~= span_json(d.as_nanos())->Object_0);
    }
    Json::Object(members)
}

/// The document of a time of day.
fn time_document(t: &crate::value::TimeOfDay) -> (r: Json)
    ensures
        r@ == time_json(*t),
{
    match t {
        crate::value::TimeOfDay::Sunrise => Json::Str(String::from_str("Sunrise")),
        crate::value::TimeOfDay::Sunset => Json::Str(String::from_str("Sunset")),
        crate::value::TimeOfDay::HM(h, m) => {
            let mut items: Vec<Json> = Vec::new();
            items.push(whole_number(*h as u64));
            items.push(whole_number(*m as u64));
            let ghost pair = Seq::new(items@.len(), |i: int| items@[i]@);
            proof {
                json_array_view(items);
                assert(pair =~= seq![whole(*h as nat), whole(*m as nat)]);
            }
            let mut members: Vec<(String, Json)> = Vec::new();
            members.push((String::from_str("HM"), Json::Array(items)));
            proof {
                json_object_view(members);
                assert(members_view(members@) =~= time_json(*t)->Object_0);
            }
            Json::Object(members)
        },
    }
}

/// The members that the properties of an object turn into.
fn props_to_members(props: &Vec<(String, crate::value::Value)>) -> (r: Vec<(String, Json)>)
    ensures
        members_view(r@) == props_json(props_view(props@), props@.len()),
    decreases props,
{
    let ghost view = props_view(props@);
    let mut members: Vec<(String, Json)> = Vec::new();
    let mut i: usize = 0;
    assert(members_view(members@) =~= Seq::empty());
    while i < props.len()
        invariant
            i <= props.len(),
            view == props_view(props@),
            members_view(members@) == props_json(view, i as nat),
        decreases props.len() - i,
    {
        proof {
            assert(decreases_to!(*props => props[i as int]));
        }
        assert(view[i as int] == (props@[i as int].0@, props@[i as int].1@));
        let doc = Json::from_value(&props[i].1);
        let ghost before = members_view(members@);
        members.push((props[i].0.clone(), doc));
        assert(members_view(members@) =~= before.push((view[i as int].0, doc@)));
        i += 1;
    }
    members
}

impl Json {
    /// The value that the document stands for, if it stands for one.
    pub fn to_value(&self) -> (r: Option<crate::value::Value>)
        ensures
            r matches Some(v) ==> from_json(self@) == Some(v@) && well_formed(v@),
            r is None ==> from_json(self@) is None,
        decreases self,
    {
        proof {
            if from_json(self@) is Some {
                document_value_is_well_formed(self@);
            }
        }
        match self {
            Json::Null => None,
            Json::Bool(b) => Some(crate::value::Value::Bool(*b)),
            Json::Integer(i) => Some(crate::value::Value::Integer(*i)),
            Json::Unsigned(u) => {
                if *u <= i64::MAX as u64 {
                    Some(crate::value::Value::Integer(*u as i64))
                } else {
                    None
                }
            },
            Json::Float(s) => Some(crate::value::Value::Float(s.clone())),
            Json::Str(s) => Some(crate::value::Value::Str(s.clone())),
            Json::Array(_) => None,
            Json::Object(members) => {
                proof {
                    json_object_view(*members);
                }
                match members_to_props(members) {
                    Some(props) => {
                        proof {
                            object_view(props);
                        }
                        Some(crate::value::Value::Object(props))
                    },
                    None => None,
                }
            },
        }
    }

    /// The document that stands for `v`.
    pub fn from_value(v: &crate::value::Value) -> (r: Json)
        ensures
            r@ == to_json(v@),
        decreases v,
    {
        match v {
            crate::value::Value::Str(s) => Json::Str(s.clone()),
            crate::value::Value::Path(s) => Json::Str(s.clone()),
            crate::value::Value::Float(s) => Json::Float(s.clone()),
            crate::value::Value::Integer(i) => Json::Integer(*i),
            crate::value::Value::Bool(b) => Json::Bool(*b),
            crate::value::Value::Object(props) => {
                proof {
                    object_view(*props);
                }
                let members = props_to_members(props);
                proof {
                    json_object_view(members);
                }
                Json::Object(members)
            },
            crate::value::Value::Duration(d) => span_document(d),
            crate::value::Value::Time(t) => time_document(t),
            crate::value::Value::Jump(ip) => whole_number(*ip as u64),
        }
    }
}

/// Whether a value is made of what documents hold as it is: text, numbers,
/// booleans, and objects of such values that keep their keys in order. A
/// path, a span of time, a time of day and an address are not: their
/// documents stand for other values.
pub open spec fn plain_value(v: ValueView) -> bool
    decreases v,
{
    match v {
        ValueView::Path(_) => false,
        ValueView::Jump(_) => false,
        ValueView::Duration(_) => false,
        ValueView::Time(_) => false,
        ValueView::Object(props) => {
            &&& sorted(props)
            &&& forall|i: int| 0 <= i < props.len() ==> plain_value(#[trigger] props[i].1)
        },
        _ => true,
    }
}

/// A key that all the keys of a list come before has the rank of the list's
/// length.
proof fn rank_past_the_end(props: Seq<(Seq<char>, ValueView)>, key: Seq<char>)
    requires
        forall|i: int| 0 <= i < props.len() ==> text_before(#[trigger] props[i].0, key),
    ensures
        rank(props, key) == props.len(),
    decreases props.len(),
{
    if props.len() > 0 {
        let rest = props.drop_first();
        assert forall|i: int| 0 <= i < rest.len() implies text_before(#[trigger] rest[i].0, key) by {
            assert(rest[i] == props[i + 1]);
        }
        rank_past_the_end(rest, key);
        assert(text_before(props[0].0, key));
    }
}

/// The members of the first `n` properties carry the keys of the properties
/// and the documents of what they hold.
pub proof fn props_json_shape(props: Seq<(Seq<char>, ValueView)>, n: nat)
    requires
        n <= props.len(),
    ensures
        props_json(props, n).len() == n,
        forall|i: int|
            0 <= i < n ==> #[trigger] props_json(props, n)[i] == (props[i].0, to_json(props[i].1)),
    decreases n,
{
    if n > 0 {
        props_json_shape(props, (n - 1) as nat);
    }
}

/// Reading back the first `n` members of an object's document gives the first
/// `n` properties of the object.
proof fn members_round_trip(
    props: Seq<(Seq<char>, ValueView)>,
    members: Seq<(Seq<char>, JsonView)>,
    n: nat,
)
    requires
        sorted(props),
        forall|i: int| 0 <= i < props.len() ==> plain_value(#[trigger] props[i].1),
        members.len() == props.len(),
        forall|i: int|
            0 <= i < props.len() ==> #[trigger] members[i] == (props[i].0, to_json(props[i].1)),
        n <= props.len(),
    ensures
        members_value(members, n) == Some(props.take(n as int)),
    decreases props, n,
{
    if n == 0 {
        assert(props.take(0) =~= Seq::empty());
    } else {
        let last = (n - 1) as int;
        members_round_trip(props, members, (n - 1) as nat);
        assert(members[last] == (props[last].0, to_json(props[last].1)));
        assert(plain_value(props[last].1));
        json_round_trip(props[last].1);
        let before = props.take(last);
        assert forall|i: int| 0 <= i < before.len() implies text_before(
            #[trigger] before[i].0,
            props[last].0,
        ) by {
            assert(before[i] == props[i]);
        }
        rank_past_the_end(before, props[last].0);
        assert(put(before, props[last].0, props[last].1) =~= props.take(n as int));
    }
}

/// Turning a value into its document and the document back into a value
/// gives the value again, where the value is made of text, numbers, booleans
/// and objects of such. It does not hold of a value with a path, a span of
/// time, a time of day or an address in it: a path comes back as text, a span
/// as an object of `secs` and `nanos`.
pub proof fn json_round_trip(v: ValueView)
    requires
        plain_value(v),
    ensures
        from_json(to_json(v)) == Some(v),
    decreases v, 0nat,
{
    match v {
        ValueView::Object(props) => {
            let members = props_json(props, props.len());
            props_json_shape(props, props.len());
            members_round_trip(props, members, props.len());
            assert(props.take(props.len() as int) =~= props);
        },
        _ => {},
    }
}

/// The properties that members give are those of a well-formed object.
proof fn members_value_is_well_formed(members: Seq<(Seq<char>, JsonView)>, n: nat)
    requires
        members_value(members, n) is Some,
    ensures
        well_formed(ValueView::Object(members_value(members, n)->0)),
    decreases members, n,
{
    if n == 0 || n > members.len() {
    } else {
        members_value_is_well_formed(members, (n - 1) as nat);
        document_value_is_well_formed(members[n - 1].1);
        put_keeps_well_formed(
            members_value(members, (n - 1) as nat)->0,
            members[n - 1].0,
            from_json(members[n - 1].1)->0,
        );
    }
}

/// The value that a document stands for is well-formed: every object in it
/// keeps its keys in ascending order.
pub proof fn document_value_is_well_formed(doc: JsonView)
    requires
        from_json(doc) is Some,
    ensures
        well_formed(from_json(doc)->0),
    decreases doc, 0nat,
{
    match doc {
        JsonView::Object(members) => {
            members_value_is_well_formed(members, members.len());
        },
        _ => {},
    }
}

} // verus!
