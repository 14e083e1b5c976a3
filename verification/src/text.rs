//! Text helpers: equality and ordering of names, and decimal numerals.

use vstd::prelude::*;
use vstd::utf8::encode_utf8_decode_utf8;
use vstd::utf8::encode_utf8;

verus! {

/// Lexicographic "strictly less" on byte strings, compared from position
/// `from` on: the first differing byte decides, and a proper prefix comes
/// first.
pub open spec fn bytes_lt_from(a: Seq<u8>, b: Seq<u8>, from: int) -> bool
    decreases a.len() - from,
{
    if from < 0 || from >= b.len() {
        false
    } else if from >= a.len() {
        true
    } else if a[from] != b[from] {
        a[from] < b[from]
    } else {
        bytes_lt_from(a, b, from + 1)
    }
}

/// Lexicographic "strictly less" on byte strings.
pub open spec fn bytes_lt(a: Seq<u8>, b: Seq<u8>) -> bool {
    bytes_lt_from(a, b, 0)
}

/// The order in which names are emitted: byte-wise lexicographic order of
/// their UTF-8 encodings.
pub open spec fn name_lt(a: Seq<char>, b: Seq<char>) -> bool {
    bytes_lt(encode_utf8(a), encode_utf8(b))
}

/// No byte string comes before itself.
pub proof fn lemma_bytes_lt_irreflexive(a: Seq<u8>, from: int)
    ensures
        !bytes_lt_from(a, a, from),
    decreases a.len() - from,
{
    if 0 <= from < a.len() {
        lemma_bytes_lt_irreflexive(a, from + 1);
    }
}

/// The order on byte strings is transitive.
pub proof fn lemma_bytes_lt_transitive(a: Seq<u8>, b: Seq<u8>, c: Seq<u8>, from: int)
    requires
        bytes_lt_from(a, b, from),
        bytes_lt_from(b, c, from),
    ensures
        bytes_lt_from(a, c, from),
    decreases a.len() - from,
{
    if from < a.len() && a[from] == b[from] && b[from] == c[from] {
        lemma_bytes_lt_transitive(a, b, c, from + 1);
    }
}

/// Of two byte strings that agree before `from` and neither of which comes
/// before the other from there on, each equals the other.
pub proof fn lemma_bytes_lt_total(a: Seq<u8>, b: Seq<u8>, from: int)
    requires
        0 <= from,
        from <= a.len(),
        from <= b.len(),
        a.subrange(0, from) == b.subrange(0, from),
        !bytes_lt_from(a, b, from),
        !bytes_lt_from(b, a, from),
    ensures
        a == b,
    decreases a.len() - from,
{
    if from >= a.len() || from >= b.len() {
        assert(a.subrange(0, from) =~= a);
        assert(b.subrange(0, from) =~= b);
    } else {
        assert(a.subrange(0, from + 1) =~= a.subrange(0, from).push(a[from]));
        assert(b.subrange(0, from + 1) =~= b.subrange(0, from).push(b[from]));
        lemma_bytes_lt_total(a, b, from + 1);
    }
}

/// The emission order of names is a strict total order: no name comes
/// before itself, the order is transitive, and of two different names one
/// comes before the other.
pub proof fn lemma_name_lt_strict_total(a: Seq<char>, b: Seq<char>, c: Seq<char>)
    ensures
        !name_lt(a, a),
        name_lt(a, b) && name_lt(b, c) ==> name_lt(a, c),
        name_lt(a, b) ==> !name_lt(b, a),
        a != b ==> name_lt(a, b) || name_lt(b, a),
{
    let x = encode_utf8(a);
    let y = encode_utf8(b);
    let z = encode_utf8(c);
    lemma_bytes_lt_irreflexive(x, 0);
    if name_lt(a, b) && name_lt(b, c) {
        lemma_bytes_lt_transitive(x, y, z, 0);
    }
    if name_lt(a, b) && name_lt(b, a) {
        lemma_bytes_lt_transitive(x, y, x, 0);
    }
    if !name_lt(a, b) && !name_lt(b, a) {
        assert(x.subrange(0, 0) =~= y.subrange(0, 0));
        lemma_bytes_lt_total(x, y, 0);
        lemma_encoding_injective(a, b);
    }
}

/// Two names are equal exactly when their UTF-8 encodings are.
pub proof fn lemma_encoding_injective(a: Seq<char>, b: Seq<char>)
    ensures
        (encode_utf8(a) == encode_utf8(b)) <==> (a == b),
{
    encode_utf8_decode_utf8(a);
    encode_utf8_decode_utf8(b);
}

/// Whether two string slices hold the same text.
pub fn str_eq(a: &str, b: &str) -> (same: bool)
    ensures
        same == (a@ == b@),
{
    let x = a.as_bytes();
    let y = b.as_bytes();
    proof {
        lemma_encoding_injective(a@, b@);
    }
    if x.len() != y.len() {
        return false;
    }
    let mut i: usize = 0;
    while i < x.len()
        invariant
            i <= x.len(),
            x.len() == y.len(),
            forall|k: int| 0 <= k < i ==> x@[k] == y@[k],
            x@ == encode_utf8(a@),
            y@ == encode_utf8(b@),
        decreases x.len() - i,
    {
        if x[i] != y[i] {
            return false;
        }
        i += 1;
    }
    assert(x@ =~= y@);
    true
}

/// Whether `a` comes strictly before `b` in emission order.
pub fn str_lt(a: &str, b: &str) -> (less: bool)
    ensures
        less == name_lt(a@, b@),
{
    let x = a.as_bytes();
    let y = b.as_bytes();
    let mut i: usize = 0;
    loop
        invariant
            i <= x.len(),
            i <= y.len(),
            x@ == encode_utf8(a@),
            y@ == encode_utf8(b@),
            bytes_lt(x@, y@) == bytes_lt_from(x@, y@, i as int),
        decreases x.len() - i,
    {
        if i >= y.len() {
            return false;
        }
        if i >= x.len() {
            return true;
        }
        if x[i] != y[i] {
            return x[i] < y[i];
        }
        i += 1;
    }
}

/// The character that stands for a decimal digit.
pub open spec fn digit_char(digit: nat) -> char {
    if digit == 0 {
        '0'
    } else if digit == 1 {
        '1'
    } else if digit == 2 {
        '2'
    } else if digit == 3 {
        '3'
    } else if digit == 4 {
        '4'
    } else if digit == 5 {
        '5'
    } else if digit == 6 {
        '6'
    } else if digit == 7 {
        '7'
    } else if digit == 8 {
        '8'
    } else {
        '9'
    }
}

/// The decimal numeral of a natural number, without leading zeros.
pub open spec fn decimal(n: nat) -> Seq<char>
    decreases n,
{
    if n < 10 {
        seq![digit_char(n)]
    } else {
        decimal(n / 10).push(digit_char(n % 10))
    }
}

/// Every numeral has a digit, and starts with a digit.
pub proof fn lemma_decimal_starts_with_digit(n: nat)
    ensures
        decimal(n).len() >= 1,
        exists|digit: nat| digit < 10 && decimal(n)[0] == digit_char(digit),
    decreases n,
{
    if n < 10 {
        assert(decimal(n)[0] == digit_char(n));
    } else {
        lemma_decimal_starts_with_digit(n / 10);
        let digit = choose|digit: nat| digit < 10 && decimal(n / 10)[0] == digit_char(digit);
        assert(decimal(n)[0] == digit_char(digit));
    }
}

/// No numeral is the text `null`.
pub proof fn lemma_decimal_is_not_null(n: nat)
    ensures
        decimal(n) != "null"@,
{
    lemma_decimal_starts_with_digit(n);
    reveal_strlit("null");
    assert("null"@[0] == 'n');
}

/// Different digits have different characters.
pub proof fn lemma_digit_char_injective(a: nat, b: nat)
    requires
        a < 10,
        b < 10,
        digit_char(a) == digit_char(b),
    ensures
        a == b,
{
}

/// Different numbers have different numerals.
pub proof fn lemma_decimal_injective(a: nat, b: nat)
    requires
        decimal(a) == decimal(b),
    ensures
        a == b,
    decreases a,
{
    lemma_decimal_starts_with_digit(a / 10);
    lemma_decimal_starts_with_digit(b / 10);
    if a < 10 && b < 10 {
        assert(decimal(a)[0] == digit_char(a));
        assert(decimal(b)[0] == digit_char(b));
        lemma_digit_char_injective(a, b);
    } else if a >= 10 && b >= 10 {
        let x = decimal(a / 10);
        let y = decimal(b / 10);
        let p = digit_char(a % 10);
        let q = digit_char(b % 10);
        assert(decimal(a) == x.push(p));
        assert(decimal(b) == y.push(q));
        assert(x.push(p).last() == p);
        assert(y.push(q).last() == q);
        assert(p == q);
        assert(x =~= x.push(p).drop_last());
        assert(y =~= y.push(q).drop_last());
        assert(x == y);
        lemma_decimal_injective(a / 10, b / 10);
        lemma_digit_char_injective(a % 10, b % 10);
        assert(a == 10 * (a / 10) + a % 10);
        assert(b == 10 * (b / 10) + b % 10);
    } else if a < 10 {
        assert(decimal(a).len() == 1);
        assert(decimal(b) == decimal(b / 10).push(digit_char(b % 10)));
        assert(decimal(b).len() >= 2);
    } else {
        assert(decimal(b).len() == 1);
        assert(decimal(a) == decimal(a / 10).push(digit_char(a % 10)));
        assert(decimal(a).len() >= 2);
    }
}

fn digit_text(digit: usize) -> (text: &'static str)
    requires
        digit < 10,
    ensures
        text@ == seq![digit_char(digit as nat)],
{
    proof {
        reveal_strlit("0");
        reveal_strlit("1");
        reveal_strlit("2");
        reveal_strlit("3");
        reveal_strlit("4");
        reveal_strlit("5");
        reveal_strlit("6");
        reveal_strlit("7");
        reveal_strlit("8");
        reveal_strlit("9");
    }
    let text = if digit == 0 {
        "0"
    } else if digit == 1 {
        "1"
    } else if digit == 2 {
        "2"
    } else if digit == 3 {
        "3"
    } else if digit == 4 {
        "4"
    } else if digit == 5 {
        "5"
    } else if digit == 6 {
        "6"
    } else if digit == 7 {
        "7"
    } else if digit == 8 {
        "8"
    } else {
        "9"
    };
    assert(text@ =~= seq![digit_char(digit as nat)]);
    text
}

/// Writes a number as a decimal numeral.
pub fn decimal_string(n: usize) -> (text: String)
    ensures
        text@ == decimal(n as nat),
    decreases n,
{
    if n < 10 {
        String::from_str(digit_text(n))
    } else {
        let mut text = decimal_string(n / 10);
        text.append(digit_text(n % 10));
        assert(text@ =~= decimal(n as nat));
        text
    }
}

} // verus!
