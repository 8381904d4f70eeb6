//! The values that a running script holds on its stack.

use crate::text::{
    comes_before, decimal, push_decimal, push_digits, push_str, same_text, string_of, text_before,
    text_before_transitive, text_order_total,
};
use vstd::prelude::*;

verus! {

/// Nanoseconds in one second.
pub const NANOS_PER_SECOND: u32 = 1_000_000_000;

/// A time of day at which something recurs.
#[derive(Clone, Copy, Debug, PartialEq, Eq, Structural)]
pub enum TimeOfDay {
    Sunrise,
    Sunset,
    /// Hour and minute on the 24-hour clock.
    HM(u32, u32),
}

/// A span of time: whole seconds and the nanoseconds beyond them, which stay
/// under one second.
#[derive(Clone, Copy, Debug, PartialEq, Eq)]
pub struct Duration {
    secs: u64,
    nanos: u32,
}

impl Duration {
    /// The nanoseconds beyond the whole seconds stay under one second.
    #[verifier::type_invariant]
    spec fn well_formed(self) -> bool {
        self.nanos < NANOS_PER_SECOND
    }

    /// The whole span in nanoseconds.
    pub closed spec fn as_nanos(self) -> nat {
        (self.secs * NANOS_PER_SECOND + self.nanos) as nat
    }

    /// The whole seconds of a span of `nanos` nanoseconds.
    pub open spec fn secs_of(nanos: nat) -> nat {
        nanos / (NANOS_PER_SECOND as nat)
    }

    /// The nanoseconds beyond the whole seconds of a span of `nanos`.
    pub open spec fn subsec_of(nanos: nat) -> nat {
        nanos % (NANOS_PER_SECOND as nat)
    }

    /// A span of `secs` whole seconds.
    pub fn from_secs(secs: u64) -> (d: Duration)
        ensures
            d.as_nanos() == secs * NANOS_PER_SECOND,
    {
        Duration { secs, nanos: 0 }
    }

    /// A span of `secs` seconds and `nanos` nanoseconds, if `nanos` stays under
    /// one second.
    pub fn new(secs: u64, nanos: u32) -> (d: Option<Duration>)
        ensures
            d is Some <==> nanos < NANOS_PER_SECOND,
            d matches Some(d) ==> d.as_nanos() == secs * NANOS_PER_SECOND + nanos,
    {
        if nanos < NANOS_PER_SECOND {
            Some(Duration { secs, nanos })
        } else {
            None
        }
    }

    /// The whole seconds of the span.
    pub fn as_secs(&self) -> (secs: u64)
        ensures
            secs == Self::secs_of(self.as_nanos()),
    {
        proof {
            use_type_invariant(self);
            assert(self.as_nanos() / (NANOS_PER_SECOND as nat) == self.secs) by (nonlinear_arith)
                requires
                    self.as_nanos() == self.secs * NANOS_PER_SECOND + self.nanos,
                    self.nanos < NANOS_PER_SECOND,
                    NANOS_PER_SECOND == 1_000_000_000,
            ;
        }
        self.secs
    }

    /// The nanoseconds beyond the whole seconds.
    pub fn subsec_nanos(&self) -> (nanos: u32)
        ensures
            nanos == Self::subsec_of(self.as_nanos()),
            nanos < NANOS_PER_SECOND,
    {
        proof {
            use_type_invariant(self);
            assert(self.as_nanos() % (NANOS_PER_SECOND as nat) == self.nanos) by (nonlinear_arith)
                requires
                    self.as_nanos() == self.secs * NANOS_PER_SECOND + self.nanos,
                    self.nanos < NANOS_PER_SECOND,
                    NANOS_PER_SECOND == 1_000_000_000,
            ;
        }
        self.nanos
    }

    /// Whether two spans are equally long.
    pub fn same(&self, other: &Duration) -> (b: bool)
        ensures
            b == (self.as_nanos() == other.as_nanos()),
    {
        let a = self.as_secs();
        let b = other.as_secs();
        let x = self.subsec_nanos();
        let y = other.subsec_nanos();
        proof {
            vstd::arithmetic::div_mod::lemma_fundamental_div_mod(
                self.as_nanos() as int,
                NANOS_PER_SECOND as int,
            );
            vstd::arithmetic::div_mod::lemma_fundamental_div_mod(
                other.as_nanos() as int,
                NANOS_PER_SECOND as int,
            );
        }
        a == b && x == y
    }
}

/// The mathematical content of a [`Value`].
pub enum ValueView {
    Str(Seq<char>),
    Path(Seq<char>),
    /// A span of time, in nanoseconds.
    Duration(nat),
    Time(TimeOfDay),
    /// A floating-point number, as its shortest decimal text.
    Float(Seq<char>),
    Integer(i64),
    Bool(bool),
    /// The properties of an object, each a key and what it holds.
    Object(Seq<(Seq<char>, ValueView)>),
    Jump(usize),
}

/// What a script computes with.
#[derive(Debug, PartialEq)]
pub enum Value {
    /// Text.
    Str(String),
    /// The path of a topic.
    Path(String),
    Duration(Duration),
    Time(TimeOfDay),
    /// A double-precision number, held as the shortest decimal text that reads
    /// back as the same number (`7`, `0.1`, `-0`).
    Float(String),
    Integer(i64),
    Bool(bool),
    /// Properties by key. The keys are in ascending order and none occurs
    /// twice.
    Object(Vec<(String, Value)>),
    /// The address of an instruction.
    Jump(usize),
}

/// The mathematical content of `v`.
pub open spec fn value_view(v: Value) -> ValueView
    decreases v,
{
    match v {
        Value::Str(s) => ValueView::Str(s@),
        Value::Path(s) => ValueView::Path(s@),
        Value::Duration(d) => ValueView::Duration(d.as_nanos()),
        Value::Time(t) => ValueView::Time(t),
        Value::Float(s) => ValueView::Float(s@),
        Value::Integer(i) => ValueView::Integer(i),
        Value::Bool(b) => ValueView::Bool(b),
        Value::Object(props) => ValueView::Object(
            Seq::new(
                props@.len(),
                |i: int|
                    if 0 <= i < props@.len() {
                        (props@[i].0@, value_view(props@[i].1))
                    } else {
                        (Seq::empty(), ValueView::Bool(false))
                    },
            ),
        ),
        Value::Jump(ip) => ValueView::Jump(ip),
    }
}

impl View for Value {
    type V = ValueView;

    open spec fn view(&self) -> ValueView {
        value_view(*self)
    }
}

/// The contents of a list of properties.
pub open spec fn props_view(props: Seq<(String, Value)>) -> Seq<(Seq<char>, ValueView)> {
    Seq::new(props.len(), |i: int| (props[i].0@, props[i].1@))
}

/// The view of an object is the view of its properties.
pub proof fn object_view(props: Vec<(String, Value)>)
    ensures
        Value::Object(props)@ == ValueView::Object(props_view(props@)),
{
    reveal_with_fuel(value_view, 2);
    assert(Value::Object(props)@->Object_0 =~= props_view(props@));
}

/// Whether two floating-point numbers, each given by its shortest decimal
/// text, are equal: the same text, or both a zero of either sign.
pub open spec fn float_equal(a: Seq<char>, b: Seq<char>) -> bool {
    a == b || (is_zero(a) && is_zero(b))
}

/// Whether a decimal text is that of zero, positive or negative.
pub open spec fn is_zero(a: Seq<char>) -> bool {
    a == seq!['0'] || a == seq!['-', '0']
}

/// Whether two values are equal: the same kind of value with equal contents.
/// Values of different kinds are never equal.
pub open spec fn value_equal(a: ValueView, b: ValueView) -> bool
    decreases a,
{
    match (a, b) {
        (ValueView::Str(x), ValueView::Str(y)) => x == y,
        (ValueView::Path(x), ValueView::Path(y)) => x == y,
        (ValueView::Duration(x), ValueView::Duration(y)) => x == y,
        (ValueView::Time(x), ValueView::Time(y)) => x == y,
        (ValueView::Float(x), ValueView::Float(y)) => float_equal(x, y),
        (ValueView::Integer(x), ValueView::Integer(y)) => x == y,
        (ValueView::Bool(x), ValueView::Bool(y)) => x == y,
        (ValueView::Object(x), ValueView::Object(y)) => {
            &&& x.len() == y.len()
            &&& forall|i: int|
                0 <= i < x.len() ==> x[i].0 == y[i].0 && value_equal(#[trigger] x[i].1, y[i].1)
        },
        (ValueView::Jump(x), ValueView::Jump(y)) => x == y,
        _ => false,
    }
}

/// Whether a decimal text is that of zero, positive or negative.
fn is_zero_text(a: &str) -> (b: bool)
    ensures
        b == is_zero(a@),
{
    proof {
        reveal_strlit("0");
        reveal_strlit("-0");
    }
    let zero = "0";
    let minus_zero = "-0";
    assert(zero@ =~= seq!['0']);
    assert(minus_zero@ =~= seq!['-', '0']);
    same_text(a, zero) || same_text(a, minus_zero)
}

/// A copy of a list of properties.
fn copy_props(props: &Vec<(String, Value)>) -> (r: Vec<(String, Value)>)
    ensures
        props_view(r@) == props_view(props@),
    decreases props,
{
    let mut out: Vec<(String, Value)> = Vec::new();
    let mut i: usize = 0;
    while i < props.len()
        invariant
            i <= props.len(),
            out.len() == i,
            forall|j: int|
                0 <= j < i ==> out@[j].0@ == props@[j].0@ && out@[j].1@ == props@[j].1@,
        decreases props.len() - i,
    {
        let k = props[i].0.clone();
        proof {
            assert(decreases_to!(*props => props[i as int]));
        }
        let v = props[i].1.copy();
        out.push((k, v));
        i += 1;
    }
    assert(props_view(out@) =~= props_view(props@));
    out
}

/// Whether two lists of properties hold equal keys and equal values, place by
/// place.
pub open spec fn props_equal(
    x: Seq<(Seq<char>, ValueView)>,
    y: Seq<(Seq<char>, ValueView)>,
) -> bool {
    value_equal(ValueView::Object(x), ValueView::Object(y))
}

/// Whether two lists of properties hold equal keys and equal values, place by
/// place.
fn same_props(x: &Vec<(String, Value)>, y: &Vec<(String, Value)>) -> (b: bool)
    ensures
        b == props_equal(props_view(x@), props_view(y@)),
    decreases x,
{
    if x.len() != y.len() {
        return false;
    }
    let ghost xs = props_view(x@);
    let ghost ys = props_view(y@);
    let mut i: usize = 0;
    while i < x.len()
        invariant
            xs == props_view(x@),
            ys == props_view(y@),
            x.len() == y.len(),
            i <= x.len(),
            forall|j: int|
                0 <= j < i ==> #[trigger] xs[j].0 == ys[j].0 && value_equal(xs[j].1, ys[j].1),
        decreases x.len() - i,
    {
        proof {
            assert(decreases_to!(*x => x[i as int]));
        }
        let same_key = same_text(x[i].0.as_str(), y[i].0.as_str());
        let same_value = x[i].1.equals(&y[i].1);
        assert(xs[i as int] == (x@[i as int].0@, x@[i as int].1@));
        assert(ys[i as int] == (y@[i as int].0@, y@[i as int].1@));
        assert(same_key == (xs[i as int].0 == ys[i as int].0));
        assert(same_value == value_equal(xs[i as int].1, ys[i as int].1));
        if !same_key || !same_value {
            assert(!(xs[i as int].0 == ys[i as int].0 && value_equal(
                xs[i as int].1,
                ys[i as int].1,
            )));
            return false;
        }
        assert(xs[i as int].0 == ys[i as int].0);
        assert(value_equal(xs[i as int].1, ys[i as int].1));
        i += 1;
        assert forall|j: int| 0 <= j < i implies #[trigger] xs[j].0 == ys[j].0 && value_equal(
            xs[j].1,
            ys[j].1,
        ) by {
            if j < i - 1 {
                assert(xs[j].0 == ys[j].0);
            } else {
                assert(j == i - 1);
            }
        }
    }
    true
}

impl Value {
    /// A copy of the value.
    pub fn copy(&self) -> (r: Value)
        ensures
            r@ == self@,
        decreases self,
    {
        match self {
            Value::Str(s) => Value::Str(s.clone()),
            Value::Path(s) => Value::Path(s.clone()),
            Value::Duration(d) => Value::Duration(*d),
            Value::Time(t) => Value::Time(*t),
            Value::Float(s) => Value::Float(s.clone()),
            Value::Integer(i) => Value::Integer(*i),
            Value::Bool(b) => Value::Bool(*b),
            Value::Object(props) => {
                let out = copy_props(props);
                proof {
                    object_view(out);
                    object_view(*props);
                }
                Value::Object(out)
            },
            Value::Jump(ip) => Value::Jump(*ip),
        }
    }

    /// Whether the two values are equal.
    pub fn equals(&self, other: &Value) -> (b: bool)
        ensures
            b == value_equal(self@, other@),
        decreases self,
    {
        match self {
            Value::Str(x) => match other {
                Value::Str(y) => same_text(x.as_str(), y.as_str()),
                _ => false,
            },
            Value::Path(x) => match other {
                Value::Path(y) => same_text(x.as_str(), y.as_str()),
                _ => false,
            },
            Value::Duration(x) => match other {
                Value::Duration(y) => x.same(y),
                _ => false,
            },
            Value::Time(x) => match other {
                Value::Time(y) => *x == *y,
                _ => false,
            },
            Value::Float(x) => match other {
                Value::Float(y) => same_text(x.as_str(), y.as_str()) || (is_zero_text(
                    x.as_str(),
                ) && is_zero_text(y.as_str())),
                _ => false,
            },
            Value::Integer(x) => match other {
                Value::Integer(y) => *x == *y,
                _ => false,
            },
            Value::Bool(x) => match other {
                Value::Bool(y) => *x == *y,
                _ => false,
            },
            Value::Object(x) => match other {
                Value::Object(y) => {
                    proof {
                        object_view(*x);
                        object_view(*y);
                    }
                    same_props(x, y)
                },
                _ => false,
            },
            Value::Jump(x) => match other {
                Value::Jump(y) => *x == *y,
                _ => false,
            },
        }
    }
}

/// The text that the standard library's `Debug` gives for a span of `secs`
/// seconds and `nanos` nanoseconds.
pub uninterp spec fn duration_text(secs: u64, nanos: u32) -> Seq<char>;

/// Formats a span of time with the `Debug` of `std::time::Duration`. The
/// contract names that text; it says nothing of what the text holds.
#[verifier::external_body]
fn duration_debug(secs: u64, nanos: u32) -> (r: String)
    requires
        nanos < NANOS_PER_SECOND,
    ensures
        r@ == duration_text(secs, nanos),
{
    format!("{:?}", std::time::Duration::new(secs, nanos))
}

/// The text of a time of day: `sunrise`, `sunset`, or hour and minute with a
/// colon between them.
pub open spec fn time_text(t: TimeOfDay) -> Seq<char> {
    match t {
        TimeOfDay::Sunrise => "sunrise"@,
        TimeOfDay::Sunset => "sunset"@,
        TimeOfDay::HM(h, m) => decimal(h as int) + ":"@ + decimal(m as int),
    }
}

/// The text of a span of `nanos` nanoseconds.
pub open spec fn span_text(nanos: nat) -> Seq<char> {
    duration_text(Duration::secs_of(nanos) as u64, Duration::subsec_of(nanos) as u32)
}

/// The text that printing a value gives.
pub open spec fn value_text(v: ValueView) -> Seq<char>
    decreases v, 0nat,
{
    match v {
        ValueView::Str(s) => s,
        ValueView::Path(s) => s,
        ValueView::Duration(n) => span_text(n),
        ValueView::Time(t) => time_text(t),
        ValueView::Float(s) => s,
        ValueView::Integer(i) => decimal(i as int),
        ValueView::Bool(b) => if b {
            "true"@
        } else {
            "false"@
        },
        ValueView::Object(props) => "{"@ + props_text(props, props.len()) + "}"@,
        ValueView::Jump(ip) => "jmp: "@ + decimal(ip as int),
    }
}

/// The text of the first `n` properties: each as its key, a colon and its
/// value, with a comma between one and the next.
pub open spec fn props_text(props: Seq<(Seq<char>, ValueView)>, n: nat) -> Seq<char>
    decreases props, n,
{
    if n == 0 || n > props.len() {
        Seq::empty()
    } else {
        props_text(props, (n - 1) as nat) + (if n > 1 {
            ", "@
        } else {
            Seq::empty()
        }) + props[n - 1].0 + ": "@ + value_text(props[n - 1].1)
    }
}

impl TimeOfDay {
    /// Appends the text of the time to `out`.
    pub fn write_text(&self, out: &mut Vec<char>)
        ensures
            final(out)@ == old(out)@ + time_text(*self),
    {
        let ghost before = out@;
        match self {
            TimeOfDay::Sunrise => push_str(out, "sunrise"),
            TimeOfDay::Sunset => push_str(out, "sunset"),
            TimeOfDay::HM(h, m) => {
                push_digits(out, *h as u64);
                push_str(out, ":");
                push_digits(out, *m as u64);
                assert(out@ =~= before + time_text(*self));
            },
        }
    }
}

impl Duration {
    /// Appends the text of the span to `out`.
    pub fn write_text(&self, out: &mut Vec<char>)
        ensures
            final(out)@ == old(out)@ + span_text(self.as_nanos()),
    {
        let text = duration_debug(self.as_secs(), self.subsec_nanos());
        push_str(out, text.as_str());
    }
}

/// Appends the text of the properties to `out`.
fn write_props(props: &Vec<(String, Value)>, out: &mut Vec<char>)
    ensures
        final(out)@ == old(out)@ + props_text(props_view(props@), props@.len()),
    decreases props,
{
    let ghost before = out@;
    let ghost view = props_view(props@);
    let mut i: usize = 0;
    while i < props.len()
        invariant
            i <= props.len(),
            view == props_view(props@),
            out@ == before + props_text(view, i as nat),
        decreases props.len() - i,
    {
        let ghost sofar = out@;
        if i > 0 {
            push_str(out, ", ");
        }
        push_str(out, props[i].0.as_str());
        push_str(out, ": ");
        proof {
            assert(decreases_to!(*props => props[i as int]));
        }
        props[i].1.write_text(out);
        assert(view[i as int] == (props@[i as int].0@, props@[i as int].1@));
        assert(out@ =~= before + props_text(view, (i + 1) as nat));
        i += 1;
    }
}

impl Value {
    /// Appends the text of the value to `out`.
    pub fn write_text(&self, out: &mut Vec<char>)
        ensures
            final(out)@ == old(out)@ + value_text(self@),
        decreases self,
    {
        let ghost before = out@;
        match self {
            Value::Str(s) => push_str(out, s.as_str()),
            Value::Path(s) => push_str(out, s.as_str()),
            Value::Duration(d) => d.write_text(out),
            Value::Time(t) => t.write_text(out),
            Value::Float(s) => push_str(out, s.as_str()),
            Value::Integer(i) => push_decimal(out, *i),
            Value::Bool(b) => {
                if *b {
                    push_str(out, "true")
                } else {
                    push_str(out, "false")
                }
            },
            Value::Object(props) => {
                proof {
                    object_view(*props);
                }
                push_str(out, "{");
                write_props(props, out);
                push_str(out, "}");
                assert(out@ =~= before + value_text(self@));
            },
            Value::Jump(ip) => {
                push_str(out, "jmp: ");
                push_digits(out, *ip as u64);
                assert(out@ =~= before + value_text(self@));
            },
        }
    }

    /// The text that printing the value gives.
    pub fn to_text(&self) -> (r: String)
        ensures
            r@ == value_text(self@),
    {
        let mut out: Vec<char> = Vec::new();
        self.write_text(&mut out);
        assert(out@ =~= value_text(self@));
        string_of(out.as_slice())
    }
}

/// Whether the keys of the properties are in ascending order, none twice.
pub open spec fn sorted(props: Seq<(Seq<char>, ValueView)>) -> bool {
    forall|i: int, j: int|
        0 <= i < j < props.len() ==> text_before(#[trigger] props[i].0, #[trigger] props[j].0)
}

/// Whether every object in the value, at any depth, keeps its keys in
/// ascending order.
pub open spec fn well_formed(v: ValueView) -> bool
    decreases v,
{
    match v {
        ValueView::Object(props) => {
            &&& sorted(props)
            &&& forall|i: int| 0 <= i < props.len() ==> well_formed(#[trigger] props[i].1)
        },
        _ => true,
    }
}

/// How many of the leading keys come before `key`.
pub open spec fn rank(props: Seq<(Seq<char>, ValueView)>, key: Seq<char>) -> nat
    decreases props.len(),
{
    if props.len() > 0 && text_before(props[0].0, key) {
        1 + rank(props.drop_first(), key)
    } else {
        0
    }
}

/// The properties with `key` set to `value`: in place of what `key` held, or
/// else at the place that keeps the keys in order.
pub open spec fn put(
    props: Seq<(Seq<char>, ValueView)>,
    key: Seq<char>,
    value: ValueView,
) -> Seq<(Seq<char>, ValueView)> {
    let at = rank(props, key) as int;
    if at < props.len() && props[at].0 == key {
        props.update(at, (key, value))
    } else {
        props.insert(at, (key, value))
    }
}

/// What the first property with the key `key` holds.
pub open spec fn property(props: Seq<(Seq<char>, ValueView)>, key: Seq<char>) -> Option<
    ValueView,
>
    decreases props.len(),
{
    if props.len() == 0 {
        None
    } else if props[0].0 == key {
        Some(props[0].1)
    } else {
        property(props.drop_first(), key)
    }
}

/// The rank of a key is a place in the list, the keys before it come before
/// the key, and the key at it does not.
pub proof fn rank_splits(props: Seq<(Seq<char>, ValueView)>, key: Seq<char>)
    ensures
        rank(props, key) <= props.len(),
        forall|i: int| 0 <= i < rank(props, key) ==> text_before(#[trigger] props[i].0, key),
        rank(props, key) < props.len() ==> !text_before(props[rank(props, key) as int].0, key),
    decreases props.len(),
{
    if props.len() > 0 && text_before(props[0].0, key) {
        let rest = props.drop_first();
        rank_splits(rest, key);
        assert forall|i: int| 0 <= i < rank(props, key) implies text_before(
            #[trigger] props[i].0,
            key,
        ) by {
            if i > 0 {
                assert(props[i] == rest[i - 1]);
            }
        }
        if rank(props, key) < props.len() {
            assert(props[rank(props, key) as int] == rest[rank(rest, key) as int]);
        }
    }
}

/// Setting a key in properties that are in order leaves them in order.
pub proof fn put_keeps_sorted(props: Seq<(Seq<char>, ValueView)>, key: Seq<char>, value: ValueView)
    requires
        sorted(props),
    ensures
        sorted(put(props, key, value)),
{
    rank_splits(props, key);
    let at = rank(props, key) as int;
    let out = put(props, key, value);
    if at < props.len() && props[at].0 == key {
        assert forall|i: int, j: int| 0 <= i < j < out.len() implies text_before(
            #[trigger] out[i].0,
            #[trigger] out[j].0,
        ) by {
            assert(out[i].0 == props[i].0);
            assert(out[j].0 == props[j].0);
        }
    } else {
        assert forall|i: int, j: int| 0 <= i < j < out.len() implies text_before(
            #[trigger] out[i].0,
            #[trigger] out[j].0,
        ) by {
            if j < at {
                assert(out[i] == props[i] && out[j] == props[j]);
            } else if j == at {
                assert(out[i] == props[i]);
            } else if i == at {
                assert(out[j] == props[j - 1]);
                text_order_total(props[at].0, key);
                if j - 1 > at {
                    assert(text_before(props[at].0, props[j - 1].0));
                    text_before_transitive(key, props[at].0, props[j - 1].0);
                }
            } else if i < at {
                assert(out[i] == props[i] && out[j] == props[j - 1]);
                if i == j - 1 {
                    text_order_total(props[at].0, key);
                    text_before_transitive(props[i].0, key, props[at].0);
                }
            } else {
                assert(out[i] == props[i - 1] && out[j] == props[j - 1]);
            }
        }
    }
}

/// Sets `key` to `value` in `props`.
pub fn put_property(props: &mut Vec<(String, Value)>, key: String, value: Value)
    ensures
        props_view(final(props)@) == put(props_view(old(props)@), key@, value@),
{
    let ghost before = props_view(props@);
    let mut at: usize = 0;
    assert(before.skip(0) =~= before);
    while at < props.len() && comes_before(props[at].0.as_str(), key.as_str())
        invariant
            at <= props.len(),
            before == props_view(props@),
            props@ == old(props)@,
            rank(before, key@) == at + rank(before.skip(at as int), key@),
        decreases props.len() - at,
    {
        let ghost rest = before.skip(at as int);
        assert(rest[0] == before[at as int]);
        assert(rest.drop_first() =~= before.skip(at + 1));
        at += 1;
    }
    assert(rank(before, key@) == at) by {
        let rest = before.skip(at as int);
        if at < props.len() {
            assert(rest[0] == before[at as int]);
        }
    }
    if at < props.len() && same_text(props[at].0.as_str(), key.as_str()) {
        let _ = props.remove(at);
        props.insert(at, (key, value));
        assert(props_view(props@) =~= put(before, key@, value@));
    } else {
        props.insert(at, (key, value));
        assert(props_view(props@) =~= put(before, key@, value@));
    }
}

/// The place of the first property with the key `key`.
pub fn find_property(props: &Vec<(String, Value)>, key: &str) -> (r: Option<usize>)
    ensures
        r matches Some(i) ==> i < props.len() && property(props_view(props@), key@) == Some(
            props@[i as int].1@,
        ),
        r is None ==> property(props_view(props@), key@) is None,
{
    let ghost view = props_view(props@);
    let mut i: usize = 0;
    assert(view.skip(0) =~= view);
    while i < props.len()
        invariant
            i <= props.len(),
            view == props_view(props@),
            property(view, key@) == property(view.skip(i as int), key@),
        decreases props.len() - i,
    {
        let ghost rest = view.skip(i as int);
        assert(rest[0] == view[i as int]);
        assert(rest.drop_first() =~= view.skip(i + 1));
        if same_text(props[i].0.as_str(), key) {
            return Some(i);
        }
        i += 1;
    }
    None
}

/// Setting a key to a well-formed value in the properties of a well-formed
/// object gives the properties of a well-formed object.
pub proof fn put_keeps_well_formed(
    props: Seq<(Seq<char>, ValueView)>,
    key: Seq<char>,
    value: ValueView,
)
    requires
        well_formed(ValueView::Object(props)),
        well_formed(value),
    ensures
        well_formed(ValueView::Object(put(props, key, value))),
{
    put_keeps_sorted(props, key, value);
    rank_splits(props, key);
    let at = rank(props, key) as int;
    let out = put(props, key, value);
    assert forall|i: int| 0 <= i < out.len() implies well_formed(#[trigger] out[i].1) by {
        if at < props.len() && props[at].0 == key {
            if i != at {
                assert(out[i] == props[i]);
                assert(well_formed(props[i].1));
            }
        } else if i < at {
            assert(out[i] == props[i]);
            assert(well_formed(props[i].1));
        } else if i > at {
            assert(out[i] == props[i - 1]);
            assert(well_formed(props[i - 1].1));
        }
    }
}

} // verus!
