//! Text helpers shared by the parser, the compiler and the virtual machine:
//! conversions between strings, characters and bytes, decimal numbers, and the
//! order in which object keys are kept.

use vstd::prelude::*;
use vstd::utf8::{decode_utf8, encode_utf8, encode_utf8_decode_utf8, valid_utf8};

verus! {

/// `String::push` of the standard library appends one character to the end of
/// the string and leaves the rest as it was.
pub assume_specification[ std::string::String::push ](s: &mut std::string::String, ch: char)
    ensures
        final(s)@ == old(s)@.push(ch),
;

/// `String::from_utf8` of the standard library: the text that the bytes encode,
/// when they are well-formed UTF-8, and nothing otherwise.
#[verifier::external_body]
pub(crate) fn utf8_text(bytes: &[u8]) -> (r: Option<String>)
    ensures
        valid_utf8(bytes@) <==> r is Some,
        r matches Some(s) ==> s@ == decode_utf8(bytes@),
{
    String::from_utf8(bytes.to_vec()).ok()
}

/// The characters of `s`, in order.
pub fn chars_of(s: &str) -> (r: Vec<char>)
    ensures
        r@ == s@,
{
    let mut out: Vec<char> = Vec::new();
    for c in it: s.chars()
        invariant
            it.seq() == s@,
            out@ == it.seq().take(it.index() as int),
    {
        out.push(c);
        assert(it.seq().take(it.index() + 1) =~= it.seq().take(it.index() as int).push(c));
    }
    assert(s@.take(s@.len() as int) =~= s@);
    out
}

/// The string made of the characters of `chars`, in order.
pub fn string_of(chars: &[char]) -> (r: String)
    ensures
        r@ == chars@,
{
    let mut out = String::new();
    let mut i: usize = 0;
    while i < chars.len()
        invariant
            i <= chars.len(),
            out@ == chars@.take(i as int),
        decreases chars.len() - i,
    {
        out.push(chars[i]);
        assert(chars@.take(i + 1) =~= chars@.take(i as int).push(chars@[i as int]));
        i += 1;
    }
    assert(chars@.take(chars.len() as int) =~= chars@);
    out
}

/// Appends the characters of `s` to `out`.
pub fn push_str(out: &mut Vec<char>, s: &str)
    ensures
        final(out)@ == old(out)@ + s@,
{
    let ghost before = out@;
    for c in it: s.chars()
        invariant
            it.seq() == s@,
            out@ == before + it.seq().take(it.index() as int),
    {
        out.push(c);
        assert(it.seq().take(it.index() + 1) =~= it.seq().take(it.index() as int).push(c));
        assert(out@ =~= before + it.seq().take(it.index() + 1));
    }
    assert(s@.take(s@.len() as int) =~= s@);
}

/// The decimal digit for `d`, which is at most nine.
pub open spec fn digit(d: nat) -> char {
    ((48 + d) as u8) as char
}

/// The decimal digits of `n`, most significant first, without leading zeros.
pub open spec fn digits(n: nat) -> Seq<char>
    decreases n,
{
    if n < 10 {
        seq![digit(n)]
    } else {
        digits(n / 10).push(digit(n % 10))
    }
}

/// The decimal text of `n`, with a minus sign when it is negative.
pub open spec fn decimal(n: int) -> Seq<char> {
    if n < 0 {
        seq!['-'] + digits((-n) as nat)
    } else {
        digits(n as nat)
    }
}

/// Appends the decimal digits of `n` to `out`.
pub fn push_digits(out: &mut Vec<char>, n: u64)
    ensures
        final(out)@ == old(out)@ + digits(n as nat),
    decreases n,
{
    let ghost before = out@;
    if n >= 10 {
        push_digits(out, n / 10);
    }
    let d: u8 = (n % 10) as u8;
    out.push((48u8 + d) as char);
    assert(out@ =~= before + digits(n as nat));
}

/// Appends the decimal text of `n` to `out`.
pub fn push_decimal(out: &mut Vec<char>, n: i64)
    ensures
        final(out)@ == old(out)@ + decimal(n as int),
{
    let ghost before = out@;
    if n < 0 {
        out.push('-');
        let magnitude: u64 = (-(n as i128)) as u64;
        push_digits(out, magnitude);
        assert(out@ =~= before + decimal(n as int));
    } else {
        push_digits(out, n as u64);
    }
}

/// Whether `c` is one of the ten decimal digits.
pub open spec fn is_digit(c: char) -> bool {
    '0' <= c <= '9'
}

/// The number that the digits of `s` spell, read most significant first.
pub open spec fn digits_value(s: Seq<char>) -> nat
    decreases s.len(),
{
    if s.len() == 0 {
        0
    } else {
        digits_value(s.drop_last()) * 10 + (s.last() as nat - 48) as nat
    }
}

/// Whether `s` is a number as the standard library reads one: an optional plus
/// sign, then one or more decimal digits.
pub open spec fn is_number(s: Seq<char>) -> bool {
    let body = number_body(s);
    body.len() > 0 && forall|i: int| 0 <= i < body.len() ==> is_digit(#[trigger] body[i])
}

/// The digits of a number, without its optional plus sign.
pub open spec fn number_body(s: Seq<char>) -> Seq<char> {
    if s.len() > 0 && s[0] == '+' {
        s.drop_first()
    } else {
        s
    }
}

/// What reading `s` as a number of at most `max` gives.
pub open spec fn number_of(s: Seq<char>, max: nat) -> Option<nat> {
    if is_number(s) && digits_value(number_body(s)) <= max {
        Some(digits_value(number_body(s)))
    } else {
        None
    }
}

/// The value of a digit string grows with each digit that is added.
pub proof fn digits_value_grows(s: Seq<char>, n: int)
    requires
        0 <= n <= s.len(),
    ensures
        digits_value(s.take(n)) <= digits_value(s),
    decreases s.len() - n,
{
    if n < s.len() {
        assert(s.take(n + 1).drop_last() =~= s.take(n));
        digits_value_grows(s, n + 1);
    } else {
        assert(s.take(n) =~= s);
    }
}

/// Reads `chars[from..to]` as a number of at most `max`.
pub fn read_number(chars: &[char], from: usize, to: usize, max: u64) -> (r: Option<u64>)
    requires
        from <= to <= chars.len(),
    ensures
        r matches Some(n) ==> number_of(chars@.subrange(from as int, to as int), max as nat)
            == Some(n as nat),
        r is None ==> number_of(chars@.subrange(from as int, to as int), max as nat) is None,
{
    let ghost s = chars@.subrange(from as int, to as int);
    let mut i: usize = from;
    if i < to && chars[i] == '+' {
        i += 1;
    }
    let start: usize = i;
    let ghost body = number_body(s);
    assert(body =~= chars@.subrange(start as int, to as int));
    if start == to {
        return None;
    }
    let mut acc: u64 = 0;
    while i < to
        invariant
            from <= start <= i <= to <= chars.len(),
            body == chars@.subrange(start as int, to as int),
            body == number_body(chars@.subrange(from as int, to as int)),
            forall|j: int| 0 <= j < i - start ==> is_digit(#[trigger] body[j]),
            acc == digits_value(body.take(i - start)),
            acc <= max,
        decreases to - i,
    {
        let c = chars[i];
        assert(c == body[i - start]);
        if !(c >= '0' && c <= '9') {
            assert(!is_digit(body[i - start]));
            return None;
        }
        let d: u64 = (c as u64) - 48;
        assert(body.take(i - start + 1).drop_last() =~= body.take(i - start));
        proof {
            digits_value_grows(body, i - start + 1);
        }
        let next: u128 = (acc as u128) * 10 + (d as u128);
        if next > max as u128 {
            return None;
        }
        acc = next as u64;
        i += 1;
    }
    assert(body.take(to - start) =~= body);
    Some(acc)
}

/// Whether `a` comes before `b` when the two are compared byte by byte, a
/// proper prefix first.
pub open spec fn bytes_before(a: Seq<u8>, b: Seq<u8>) -> bool
    decreases a.len(),
{
    if b.len() == 0 {
        false
    } else if a.len() == 0 {
        true
    } else if a[0] != b[0] {
        a[0] < b[0]
    } else {
        bytes_before(a.drop_first(), b.drop_first())
    }
}

/// Whether the text `a` comes before the text `b`: the order of their UTF-8
/// bytes, which is the order of strings in the standard library.
pub open spec fn text_before(a: Seq<char>, b: Seq<char>) -> bool {
    bytes_before(encode_utf8(a), encode_utf8(b))
}

/// How two texts stand to each other in the order of `text_before`.
#[derive(Clone, Copy, Debug, PartialEq, Eq, Structural)]
pub enum Order {
    Before,
    Same,
    After,
}

/// No sequence of bytes comes before itself.
pub proof fn bytes_before_irreflexive(a: Seq<u8>)
    ensures
        !bytes_before(a, a),
    decreases a.len(),
{
    if a.len() > 0 {
        bytes_before_irreflexive(a.drop_first());
    }
}

/// The order of bytes is transitive.
pub proof fn bytes_before_transitive(a: Seq<u8>, b: Seq<u8>, c: Seq<u8>)
    requires
        bytes_before(a, b),
        bytes_before(b, c),
    ensures
        bytes_before(a, c),
    decreases a.len(),
{
    if a.len() > 0 && a[0] == b[0] && b[0] == c[0] {
        bytes_before_transitive(a.drop_first(), b.drop_first(), c.drop_first());
    }
}

/// Two texts with the same UTF-8 bytes are the same text.
pub proof fn encoding_is_injective(a: Seq<char>, b: Seq<char>)
    requires
        encode_utf8(a) == encode_utf8(b),
    ensures
        a == b,
{
    encode_utf8_decode_utf8(a);
    encode_utf8_decode_utf8(b);
}

/// Of two texts at most one comes before the other.
pub proof fn text_before_asymmetric(a: Seq<char>, b: Seq<char>)
    requires
        text_before(a, b),
    ensures
        !text_before(b, a),
        a != b,
{
    if text_before(b, a) {
        text_before_transitive(a, b, a);
    }
    text_before_irreflexive(a);
}

/// No text comes before itself.
pub proof fn text_before_irreflexive(a: Seq<char>)
    ensures
        !text_before(a, a),
{
    bytes_before_irreflexive(encode_utf8(a));
}

/// The order of texts is transitive.
pub proof fn text_before_transitive(a: Seq<char>, b: Seq<char>, c: Seq<char>)
    requires
        text_before(a, b),
        text_before(b, c),
    ensures
        text_before(a, c),
{
    bytes_before_transitive(encode_utf8(a), encode_utf8(b), encode_utf8(c));
}

/// How two runs of bytes stand to each other, judged from the position `i`
/// on, where the two agree before it.
spec fn order_from(a: Seq<u8>, b: Seq<u8>, i: int) -> Order
    decreases a.len() - i,
{
    if i >= a.len() || i >= b.len() {
        if a.len() == b.len() {
            Order::Same
        } else if a.len() < b.len() {
            Order::Before
        } else {
            Order::After
        }
    } else if a[i] < b[i] {
        Order::Before
    } else if a[i] > b[i] {
        Order::After
    } else {
        order_from(a, b, i + 1)
    }
}

/// What is found from the position `i` on is how the rest of the one stands
/// to the rest of the other.
proof fn order_from_is_order(a: Seq<u8>, b: Seq<u8>, i: int)
    requires
        0 <= i <= a.len(),
        i <= b.len(),
    ensures
        order_from(a, b, i) == Order::Before <==> bytes_before(a.skip(i), b.skip(i)),
        order_from(a, b, i) == Order::Same <==> a.skip(i) == b.skip(i),
    decreases a.len() - i,
{
    let x = a.skip(i);
    let y = b.skip(i);
    if i >= a.len() || i >= b.len() {
        if a.len() == b.len() {
            assert(x =~= y);
        } else {
            assert(x.len() != y.len());
        }
    } else {
        assert(x[0] == a[i] && y[0] == b[i]);
        assert(x.drop_first() =~= a.skip(i + 1));
        assert(y.drop_first() =~= b.skip(i + 1));
        if a[i] == b[i] {
            order_from_is_order(a, b, i + 1);
            if a.skip(i + 1) == b.skip(i + 1) {
                assert(x =~= seq![a[i]] + x.drop_first());
                assert(y =~= seq![b[i]] + y.drop_first());
            }
        }
    }
}

/// Compares two texts in the order of `text_before`.
pub fn compare_text(a: &str, b: &str) -> (r: Order)
    ensures
        r == Order::Before <==> text_before(a@, b@),
        r == Order::Same <==> a@ == b@,
        r == Order::After <==> text_before(b@, a@),
{
    let x = a.as_bytes();
    let y = b.as_bytes();
    let mut i: usize = 0;
    let ghost whole = order_from(x@, y@, 0);
    proof {
        order_from_is_order(x@, y@, 0);
        order_from_is_order(y@, x@, 0);
        assert(x@.skip(0) =~= x@);
        assert(y@.skip(0) =~= y@);
        if x@ == y@ {
            encoding_is_injective(a@, b@);
        }
        order_flips(x@, y@, 0);
    }
    while i < x.len() && i < y.len()
        invariant
            i <= x.len(),
            i <= y.len(),
            order_from(x@, y@, i as int) == whole,
            whole == Order::Before <==> text_before(a@, b@),
            whole == Order::Same <==> a@ == b@,
            whole == Order::After <==> text_before(b@, a@),
        decreases x.len() - i,
    {
        if x[i] < y[i] {
            return Order::Before;
        }
        if x[i] > y[i] {
            return Order::After;
        }
        i += 1;
    }
    if x.len() == y.len() {
        Order::Same
    } else if x.len() < y.len() {
        Order::Before
    } else {
        Order::After
    }
}

/// Of two different texts one comes before the other.
pub proof fn text_order_total(a: Seq<char>, b: Seq<char>)
    ensures
        text_before(a, b) || a == b || text_before(b, a),
{
    let x = encode_utf8(a);
    let y = encode_utf8(b);
    order_from_is_order(x, y, 0);
    order_from_is_order(y, x, 0);
    order_flips(x, y, 0);
    assert(x.skip(0) =~= x);
    assert(y.skip(0) =~= y);
    if x == y {
        encoding_is_injective(a, b);
    }
}

/// Whether the text `a` comes before the text `b`.
pub fn comes_before(a: &str, b: &str) -> (r: bool)
    ensures
        r == text_before(a@, b@),
{
    matches!(compare_text(a, b), Order::Before)
}

/// Whether two texts are the same.
pub fn same_text(a: &str, b: &str) -> (r: bool)
    ensures
        r == (a@ == b@),
{
    matches!(compare_text(a, b), Order::Same)
}

/// The one comes after the other where the other comes before it.
proof fn order_flips(a: Seq<u8>, b: Seq<u8>, i: int)
    requires
        0 <= i <= a.len(),
        i <= b.len(),
    ensures
        order_from(a, b, i) == Order::After <==> order_from(b, a, i) == Order::Before,
    decreases a.len() - i,
{
    if i < a.len() && i < b.len() && a[i] == b[i] {
        order_flips(a, b, i + 1);
    }
}

} // verus!
