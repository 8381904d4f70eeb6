//! Literals: the values that the text of a script spells.

use crate::ast::{fields_view, object_literal_view, Expr, ExprView};
use crate::error::CompileError;
use crate::text::{chars_of, number_of, read_number, same_text};
use crate::value::{
    object_view, props_view, put, put_keeps_well_formed, put_property, well_formed, Duration,
    TimeOfDay, Value, ValueView, NANOS_PER_SECOND,
};
use vstd::prelude::*;

verus! {

/// How many characters of `s` come before the first `c`: all of them, if `c`
/// is not among them.
pub open spec fn run_before(s: Seq<char>, c: char) -> nat
    decreases s.len(),
{
    if s.len() == 0 || s[0] == c {
        0
    } else {
        1 + run_before(s.drop_first(), c)
    }
}

/// The offset of the hours of a time from what its text says: `PM` adds twelve
/// hours, except at twelve o'clock.
pub open spec fn hour_offset(pm: bool, hour: nat) -> nat {
    if pm && hour != 12 {
        12
    } else {
        0
    }
}

/// The time of day that a text spells. `sunrise` and `sunset` spell
/// themselves, with or without the `#` that marks them in a script. Any other
/// text has to end in `AM` or `PM` and hold, before that, an hour and a minute
/// with one colon between them that make a time of the day.
pub open spec fn time_of(text: Seq<char>) -> Result<TimeOfDay, CompileError> {
    if text == "sunrise"@ || text == "#sunrise"@ {
        Ok(TimeOfDay::Sunrise)
    } else if text == "sunset"@ || text == "#sunset"@ {
        Ok(TimeOfDay::Sunset)
    } else if text.len() < 2 || text[text.len() - 1] != 'M' || (text[text.len() - 2] != 'A'
        && text[text.len() - 2] != 'P') {
        Err(CompileError::MalformedTime)
    } else {
        let clock = text.take(text.len() - 2);
        let pm = text[text.len() - 2] == 'P';
        let colon = run_before(clock, ':') as int;
        if colon >= clock.len() {
            Err(CompileError::MalformedTime)
        } else {
            let hour = number_of(clock.take(colon), u32::MAX as nat);
            let minute = number_of(clock.skip(colon + 1), u32::MAX as nat);
            match (hour, minute) {
                (Some(h), Some(m)) => if h + hour_offset(pm, h) <= 23 && m <= 59 {
                    Ok(TimeOfDay::HM((h + hour_offset(pm, h)) as u32, m as u32))
                } else {
                    Err(CompileError::MalformedTime)
                },
                _ => Err(CompileError::MalformedTime),
            }
        }
    }
}

/// How many seconds `count` units of time are: the unit `h` is an hour, `m` a
/// minute, `s` a second. Nothing else is a unit.
pub open spec fn seconds_of(count: nat, unit: char) -> Option<nat> {
    if unit == 'h' {
        Some(count * 3600)
    } else if unit == 'm' {
        Some(count * 60)
    } else if unit == 's' {
        Some(count)
    } else {
        None
    }
}

/// The span of time that a text spells, in nanoseconds: a whole number and a
/// unit, `h`, `m` or `s`, that make a number of seconds that fits 64 bits.
pub open spec fn duration_of(text: Seq<char>) -> Result<nat, CompileError> {
    if text.len() < 1 {
        Err(CompileError::MalformedDuration)
    } else {
        match number_of(text.drop_last(), u64::MAX as nat) {
            Some(count) => match seconds_of(count, text.last()) {
                Some(secs) => if secs <= u64::MAX {
                    Ok(secs * (NANOS_PER_SECOND as nat))
                } else {
                    Err(CompileError::MalformedDuration)
                },
                None => Err(CompileError::MalformedDuration),
            },
            None => Err(CompileError::MalformedDuration),
        }
    }
}

/// The finite number that a text spells, as the standard library reads
/// numbers with a fraction, given as the shortest decimal text that reads back
/// as the same number. Nothing, where the text spells no finite number.
pub uninterp spec fn float_text(text: Seq<char>) -> Option<Seq<char>>;

/// Reads a number with `str::parse`, keeps it if `serde_json::Number::from_f64`
/// takes it, which it does if the number is finite, and writes it with
/// `to_string`. The contract names what comes out; it says nothing of which
/// text spells which number.
#[verifier::external_body]
fn shortest_decimal(text: &str) -> (r: Option<String>)
    ensures
        r matches Some(s) ==> float_text(text@) == Some(s@),
        r is None ==> float_text(text@) is None,
{
    let number = text.parse().ok().and_then(serde_json::Number::from_f64);
    number.and_then(|n| n.as_f64()).map(|x| x.to_string())
}

/// The number that the text of a literal with a fraction spells, as its
/// shortest decimal text.
pub open spec fn float_of(text: Seq<char>) -> Result<Seq<char>, CompileError> {
    match float_text(text) {
        Some(shortest) => Ok(shortest),
        None => Err(CompileError::MalformedNumber),
    }
}

/// The properties that the first `n` properties of an object literal give,
/// each set in turn, or the first error among them.
pub open spec fn fields_value(fields: Seq<(Seq<char>, ExprView)>, n: nat) -> Result<
    Seq<(Seq<char>, ValueView)>,
    CompileError,
>
    decreases fields, n,
{
    if n == 0 || n > fields.len() {
        Ok(Seq::empty())
    } else {
        match fields_value(fields, (n - 1) as nat) {
            Err(e) => Err(e),
            Ok(props) => match literal_of(fields[n - 1].1) {
                Err(e) => Err(e),
                Ok(value) => Ok(put(props, fields[n - 1].0, value)),
            },
        }
    }
}

/// The value of a literal, or why the expression has none.
pub open spec fn literal_of(e: ExprView) -> Result<ValueView, CompileError>
    decreases e, 0nat,
{
    match e {
        ExprView::String(s) => Ok(ValueView::Str(s)),
        ExprView::Duration(text) => match duration_of(text) {
            Ok(nanos) => Ok(ValueView::Duration(nanos)),
            Err(e) => Err(e),
        },
        ExprView::Time(text) => match time_of(text) {
            Ok(t) => Ok(ValueView::Time(t)),
            Err(e) => Err(e),
        },
        ExprView::Float(text) => match float_of(text) {
            Ok(shortest) => Ok(ValueView::Float(shortest)),
            Err(e) => Err(e),
        },
        ExprView::Boolean(b) => Ok(ValueView::Bool(b)),
        ExprView::Integer(i) => Ok(ValueView::Integer(i)),
        ExprView::Object(fields) => match fields_value(fields, fields.len()) {
            Ok(props) => Ok(ValueView::Object(props)),
            Err(e) => Err(e),
        },
        _ => Err(CompileError::NotLiteral),
    }
}

/// The span of time that `text` spells.
fn read_duration(text: &str) -> (r: Result<Duration, CompileError>)
    ensures
        match duration_of(text@) {
            Ok(nanos) => r matches Ok(d) && d.as_nanos() == nanos,
            Err(e) => r matches Err(f) && f == e,
        },
{
    let chars = chars_of(text);
    let n = chars.len();
    if n < 1 {
        return Err(CompileError::MalformedDuration);
    }
    let unit = chars[n - 1];
    assert(chars@.subrange(0, n - 1) =~= text@.drop_last());
    let number = read_number(chars.as_slice(), 0, n - 1, u64::MAX);
    let limit: u64 = if unit == 'h' {
        u64::MAX / 3600
    } else if unit == 'm' {
        u64::MAX / 60
    } else if unit == 's' {
        u64::MAX
    } else {
        return Err(CompileError::MalformedDuration);
    };
    assert(text@.last() == unit);
    match number {
        Some(count) => {
            if unit == 'h' {
                if count > limit {
                    assert(count * 3600 > u64::MAX);
                    Err(CompileError::MalformedDuration)
                } else {
                    Ok(Duration::from_secs(count * 3600))
                }
            } else if unit == 'm' {
                if count > limit {
                    assert(count * 60 > u64::MAX);
                    Err(CompileError::MalformedDuration)
                } else {
                    Ok(Duration::from_secs(count * 60))
                }
            } else {
                Ok(Duration::from_secs(count))
            }
        },
        None => Err(CompileError::MalformedDuration),
    }
}

/// The time of day that `text` spells.
fn read_time(text: &str) -> (r: Result<TimeOfDay, CompileError>)
    ensures
        r == time_of(text@),
{
    if same_text(text, "sunrise") || same_text(text, "#sunrise") {
        return Ok(TimeOfDay::Sunrise);
    }
    if same_text(text, "sunset") || same_text(text, "#sunset") {
        return Ok(TimeOfDay::Sunset);
    }
    let chars = chars_of(text);
    let n = chars.len();
    if n < 2 || chars[n - 1] != 'M' || (chars[n - 2] != 'A' && chars[n - 2] != 'P') {
        return Err(CompileError::MalformedTime);
    }
    let pm = chars[n - 2] == 'P';
    let ghost clock = text@.take(n - 2);
    let mut colon: usize = 0;
    assert(clock.skip(0) =~= clock);
    while colon < n - 2 && chars[colon] != ':'
        invariant
            colon <= n - 2,
            n == chars.len(),
            clock == chars@.take(n - 2),
            run_before(clock, ':') == colon + run_before(clock.skip(colon as int), ':'),
        decreases n - colon,
    {
        let ghost rest = clock.skip(colon as int);
        assert(rest[0] == chars@[colon as int]);
        assert(rest.drop_first() =~= clock.skip(colon + 1));
        colon += 1;
    }
    assert(run_before(clock, ':') == colon) by {
        let rest = clock.skip(colon as int);
        if colon < n - 2 {
            assert(rest[0] == chars@[colon as int]);
        }
    }
    if colon >= n - 2 {
        return Err(CompileError::MalformedTime);
    }
    assert(chars@.subrange(0, colon as int) =~= clock.take(colon as int));
    assert(chars@.subrange(colon + 1, n - 2) =~= clock.skip(colon + 1));
    let hour = read_number(chars.as_slice(), 0, colon, u32::MAX as u64);
    let minute = read_number(chars.as_slice(), colon + 1, n - 2, u32::MAX as u64);
    match (hour, minute) {
        (Some(h), Some(m)) => {
            let offset: u64 = if pm && h != 12 {
                12
            } else {
                0
            };
            if h + offset <= 23 && m <= 59 {
                Ok(TimeOfDay::HM((h + offset) as u32, m as u32))
            } else {
                Err(CompileError::MalformedTime)
            }
        },
        _ => Err(CompileError::MalformedTime),
    }
}

/// The number that `text` spells, as its shortest decimal text.
fn read_float(text: &str) -> (r: Result<String, CompileError>)
    ensures
        match float_of(text@) {
            Ok(shortest) => r matches Ok(s) && s@ == shortest,
            Err(e) => r matches Err(f) && f == e,
        },
{
    match shortest_decimal(text) {
        Some(shortest) => Ok(shortest),
        None => Err(CompileError::MalformedNumber),
    }
}

/// The properties that the properties of an object literal give.
fn read_fields(fields: &Vec<(String, Expr)>) -> (r: Result<Vec<(String, Value)>, CompileError>)
    ensures
        match fields_value(fields_view(fields@), fields@.len()) {
            Ok(props) => r matches Ok(p) && props_view(p@) == props,
            Err(e) => r matches Err(f) && f == e,
        },
    decreases fields,
{
    let ghost view = fields_view(fields@);
    let mut props: Vec<(String, Value)> = Vec::new();
    let mut i: usize = 0;
    assert(props_view(props@) =~= Seq::empty());
    while i < fields.len()
        invariant
            i <= fields.len(),
            view == fields_view(fields@),
            fields_value(view, i as nat) == Ok::<Seq<(Seq<char>, ValueView)>, CompileError>(
                props_view(props@),
            ),
        decreases fields.len() - i,
    {
        proof {
            assert(decreases_to!(*fields => fields[i as int]));
        }
        assert(view[i as int] == (fields@[i as int].0@, fields@[i as int].1@));
        match Value::from_expr(&fields[i].1) {
            Ok(value) => {
                put_property(&mut props, fields[i].0.clone(), value);
            },
            Err(e) => {
                proof {
                    fields_value_stays_err(view, (i + 1) as nat, fields@.len() as nat);
                }
                return Err(e);
            },
        }
        i += 1;
    }
    Ok(props)
}

/// Once a property of an object literal has no value, the error stays with
/// every longer run of properties.
proof fn fields_value_stays_err(fields: Seq<(Seq<char>, ExprView)>, n: nat, m: nat)
    requires
        n <= m <= fields.len(),
        fields_value(fields, n) is Err,
    ensures
        fields_value(fields, m) == fields_value(fields, n),
    decreases m,
{
    if n < m {
        fields_value_stays_err(fields, n, (m - 1) as nat);
    }
}

impl Value {
    /// The value of a literal.
    pub fn from_expr(expr: &Expr) -> (r: Result<Value, CompileError>)
        ensures
            match literal_of(expr@) {
                Ok(v) => r matches Ok(w) && w@ == v && well_formed(v),
                Err(e) => r matches Err(f) && f == e,
            },
        decreases expr,
    {
        proof {
            if literal_of(expr@) is Ok {
                literal_is_well_formed(expr@);
            }
        }
        match expr {
            Expr::String(s) => Ok(Value::Str(s.clone())),
            Expr::Duration(text) => match read_duration(text.as_str()) {
                Ok(d) => Ok(Value::Duration(d)),
                Err(e) => Err(e),
            },
            Expr::Time(text) => match read_time(text.as_str()) {
                Ok(t) => Ok(Value::Time(t)),
                Err(e) => Err(e),
            },
            Expr::Float(text) => match read_float(text.as_str()) {
                Ok(shortest) => Ok(Value::Float(shortest)),
                Err(e) => Err(e),
            },
            Expr::Boolean(b) => Ok(Value::Bool(*b)),
            Expr::Integer(i) => Ok(Value::Integer(*i)),
            Expr::Object(fields) => {
                proof {
                    object_literal_view(*fields);
                }
                match read_fields(fields) {
                    Ok(props) => {
                        proof {
                            object_view(props);
                        }
                        Ok(Value::Object(props))
                    },
                    Err(e) => Err(e),
                }
            },
            _ => Err(CompileError::NotLiteral),
        }
    }
}

/// The properties that the properties of an object literal give are those
/// of a well-formed object.
proof fn fields_value_is_well_formed(fields: Seq<(Seq<char>, ExprView)>, n: nat)
    requires
        fields_value(fields, n) is Ok,
    ensures
        well_formed(ValueView::Object(fields_value(fields, n)->Ok_0)),
    decreases fields, n,
{
    if n == 0 || n > fields.len() {
    } else {
        fields_value_is_well_formed(fields, (n - 1) as nat);
        literal_is_well_formed(fields[n - 1].1);
        put_keeps_well_formed(
            fields_value(fields, (n - 1) as nat)->Ok_0,
            fields[n - 1].0,
            literal_of(fields[n - 1].1)->Ok_0,
        );
    }
}

/// The value of a literal is well-formed: every object in it keeps its keys
/// in ascending order, none twice.
pub proof fn literal_is_well_formed(e: ExprView)
    requires
        literal_of(e) is Ok,
    ensures
        well_formed(literal_of(e)->Ok_0),
    decreases e, 0nat,
{
    match e {
        ExprView::Object(fields) => {
            fields_value_is_well_formed(fields, fields.len());
        },
        _ => {},
    }
}

} // verus!
