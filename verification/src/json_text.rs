//! The JSON text of a document, with every number written exactly: an
//! integer in decimal, a double as the exact decimal value it holds.

use vstd::prelude::*;
use crate::text::{decimal_text, digit_char, digit_str, signed_text, u64_text, chars_of, parse_i64_spec,
    law_signed_64_round_trip};
use crate::json::{Json, JsonValue, lemma_view_parts, is_finite_bits, finite_bits};
use vstd::string::StringExecFns;

verus! {

broadcast use vstd::string::group_string_axioms;

/// `10` to the power `n`.
pub open spec fn pow10(n: nat) -> nat
    decreases n,
{
    if n == 0 {
        1
    } else {
        10 * pow10((n - 1) as nat)
    }
}

/// `b` to the power `n`.
pub open spec fn pown(b: nat, n: nat) -> nat
    decreases n,
{
    if n == 0 {
        1
    } else {
        b * pown(b, (n - 1) as nat)
    }
}

/// The number that decimal digits stand for, the least significant first.
pub open spec fn lval(d: Seq<u8>) -> nat
    decreases d.len(),
{
    if d.len() == 0 {
        0
    } else {
        d[0] as nat + 10 * lval(d.drop_first())
    }
}

/// Whether every entry is a decimal digit.
pub open spec fn small_digits(d: Seq<u8>) -> bool {
    forall|i: int| 0 <= i < d.len() ==> #[trigger] d[i] < 10
}

/// The text of digits, the least significant first, written the most
/// significant first.
pub open spec fn rev_text(d: Seq<u8>) -> Seq<char>
    decreases d.len(),
{
    if d.len() == 0 {
        Seq::empty()
    } else {
        rev_text(d.drop_first()).push(digit_char(d[0] as nat))
    }
}

proof fn lemma_pow10_pos(n: nat)
    ensures
        pow10(n) >= 1,
    decreases n,
{
    if n > 0 {
        lemma_pow10_pos((n - 1) as nat);
    }
}

/// A digit put on top adds its value at that place.
proof fn lemma_lval_push(d: Seq<u8>, x: u8)
    ensures
        lval(d.push(x)) == lval(d) + (x as nat) * pow10(d.len()),
    decreases d.len(),
{
    if d.len() == 0 {
        assert(d.push(x).drop_first() =~= Seq::<u8>::empty());
        assert(lval(d.push(x).drop_first()) == 0);
        assert(lval(d) == 0);
        assert(pow10(0) == 1);
    } else {
        assert(d.push(x).drop_first() =~= d.drop_first().push(x));
        assert(d.push(x)[0] == d[0]);
        lemma_lval_push(d.drop_first(), x);
        let p = pow10((d.len() - 1) as nat);
        assert(pow10(d.len()) == 10 * p);
        assert(10 * ((x as nat) * p) == (x as nat) * (10 * p)) by (nonlinear_arith);
    }
}

/// Digits whose top digit is not zero stand for a number above zero.
proof fn lemma_lval_positive(d: Seq<u8>)
    requires
        d.len() > 0,
        d.last() != 0,
    ensures
        lval(d) > 0,
    decreases d.len(),
{
    if d.len() > 1 {
        assert(d.drop_first().last() == d.last());
        lemma_lval_positive(d.drop_first());
    }
}

/// Digits without a leading zero are written as the decimal text of the
/// number they stand for.
proof fn lemma_rev_text(d: Seq<u8>)
    requires
        small_digits(d),
        d.len() > 0,
        d.len() == 1 || d.last() != 0,
    ensures
        rev_text(d) == decimal_text(lval(d)),
    decreases d.len(),
{
    let t = d.drop_first();
    assert(d[0] < 10);
    if d.len() == 1 {
        assert(t =~= Seq::<u8>::empty());
        assert(rev_text(t) =~= Seq::<char>::empty());
        assert(lval(t) == 0);
        assert(lval(d) == d[0] as nat);
        assert(rev_text(d) =~= seq![digit_char(d[0] as nat)]);
    } else {
        assert(t.last() == d.last());
        assert(small_digits(t)) by {
            assert forall|i: int| 0 <= i < t.len() implies #[trigger] t[i] < 10 by {
                assert(t[i] == d[i + 1]);
            }
        }
        lemma_rev_text(t);
        lemma_lval_positive(t);
        let n = lval(d);
        assert(n == d[0] as nat + 10 * lval(t));
        assert(n / 10 == lval(t) && n % 10 == d[0] as nat);
    }
}

/// The digits of a number, the least significant first.
fn digits_of(n: u64) -> (r: Vec<u8>)
    ensures
        small_digits(r@),
        lval(r@) == n,
        r.len() >= 1,
{
    let mut out: Vec<u8> = Vec::new();
    let d0: u8 = (n % 10) as u8;
    assert(d0 == n % 10);
    out.push(d0);
    let mut rest: u64 = n / 10;
    assert(pow10(0) == 1);
    assert(pow10(1) == 10 * pow10(0));
    assert(out@.drop_first() =~= Seq::<u8>::empty());
    assert(lval(out@.drop_first()) == 0);
    assert(lval(out@) == n % 10);
    assert(out.len() == 1);
    while rest > 0
        invariant
            small_digits(out@),
            lval(out@) + pow10(out.len() as nat) * rest == n,
            out.len() >= 1,
        decreases rest,
    {
        let d = (rest % 10) as u8;
        let ghost p = pow10(out.len() as nat);
        proof {
            lemma_lval_push(out@, d);
            assert((d as nat) * p + (10 * p) * (rest / 10) == p * rest) by (nonlinear_arith)
                requires
                    rest == d + 10 * (rest / 10),
            ;
        }
        out.push(d);
        rest = rest / 10;
    }
    out
}

/// The digits of `c` times the number that `d` stands for.
fn mul_small(d: &Vec<u8>, c: u8) -> (r: Vec<u8>)
    requires
        small_digits(d@),
        c < 10,
        d.len() >= 1,
    ensures
        small_digits(r@),
        lval(r@) == (c as nat) * lval(d@),
        r.len() >= 1,
{
    let mut out: Vec<u8> = Vec::new();
    let mut carry: u8 = 0;
    let mut i: usize = 0;
    assert(d@.take(0) =~= Seq::<u8>::empty());
    assert(lval(d@.take(0)) == 0);
    assert(lval(out@) == 0);
    assert(pow10(0) == 1);
    while i < d.len()
        invariant
            i <= d.len(),
            c < 10,
            small_digits(d@),
            out.len() == i,
            small_digits(out@),
            carry < 10,
            lval(out@) + pow10(i as nat) * (carry as nat) == (c as nat) * lval(d@.take(i as int)),
        decreases d.len() - i,
    {
        let di = d[i];
        assert(di < 10);
        assert(c * di <= 81) by (nonlinear_arith)
            requires
                c < 10,
                di < 10,
        ;
        let t: u8 = c * di + carry;
        let nd: u8 = t % 10;
        let nc: u8 = t / 10;
        let ghost p = pow10(i as nat);
        let ghost l = lval(d@.take(i as int));
        proof {
            lemma_lval_push(out@, nd);
            lemma_lval_push(d@.take(i as int), di);
            assert(d@.take(i as int).push(di) =~= d@.take(i + 1));
            assert(pow10((i + 1) as nat) == 10 * p);
            assert((nd as nat) * p + (10 * p) * (nc as nat) == (c as nat) * ((di as nat) * p) + p * (carry as nat))
                by (nonlinear_arith)
                requires
                    nd + 10 * nc == c * di + carry,
            ;
            assert((c as nat) * (l + (di as nat) * p) == (c as nat) * l + (c as nat) * ((di as nat) * p))
                by (nonlinear_arith);
        }
        out.push(nd);
        carry = nc;
        i = i + 1;
    }
    assert(d@.take(d.len() as int) =~= d@);
    if carry > 0 {
        proof {
            lemma_lval_push(out@, carry);
            let p = pow10(i as nat);
            assert((carry as nat) * p == p * (carry as nat)) by (nonlinear_arith);
        }
        out.push(carry);
    } else {
        assert(lval(out@) + pow10(i as nat) * 0 == lval(out@));
    }
    out
}

/// The digits of `c` to the power `k` times the number that `d` stands
/// for.
fn mul_pow(d: Vec<u8>, c: u8, k: u64) -> (r: Vec<u8>)
    requires
        small_digits(d@),
        c < 10,
        d.len() >= 1,
    ensures
        small_digits(r@),
        lval(r@) == lval(d@) * pown(c as nat, k as nat),
        r.len() >= 1,
{
    let mut cur = d;
    let mut j: u64 = 0;
    assert(pown(c as nat, 0) == 1);
    while j < k
        invariant
            j <= k,
            c < 10,
            small_digits(cur@),
            cur.len() >= 1,
            lval(cur@) == lval(d@) * pown(c as nat, j as nat),
        decreases k - j,
    {
        let next = mul_small(&cur, c);
        proof {
            let a = lval(d@);
            let q = pown(c as nat, j as nat);
            assert(pown(c as nat, (j + 1) as nat) == (c as nat) * q);
            assert((c as nat) * (a * q) == a * ((c as nat) * q)) by (nonlinear_arith);
        }
        cur = next;
        j = j + 1;
    }
    cur
}

/// The decimal text of the number that `d` stands for.
fn digits_text(d: Vec<u8>) -> (r: String)
    requires
        small_digits(d@),
        d.len() >= 1,
    ensures
        r@ == decimal_text(lval(d@)),
{
    let mut d = d;
    let ghost n = lval(d@);
    while d.len() > 1 && d[d.len() - 1] == 0
        invariant
            small_digits(d@),
            d.len() >= 1,
            lval(d@) == n,
        decreases d.len(),
    {
        let ghost before = d@;
        d.pop();
        proof {
            assert(before =~= d@.push(0u8));
            lemma_lval_push(d@, 0u8);
        }
    }
    proof {
        lemma_rev_text(d@);
    }
    let mut out = String::from_str("");
    proof {
        reveal_strlit("");
    }
    let mut i: usize = d.len();
    assert(d@.subrange(i as int, d.len() as int) =~= Seq::<u8>::empty());
    assert(rev_text(Seq::<u8>::empty()) =~= Seq::<char>::empty());
    while i > 0
        invariant
            i <= d.len(),
            small_digits(d@),
            out@ == rev_text(d@.subrange(i as int, d.len() as int)),
        decreases i,
    {
        let x = d[i - 1];
        assert(x < 10);
        out.append(digit_str(x as u64));
        let ghost s = d@.subrange(i - 1, d.len() as int);
        assert(s.drop_first() =~= d@.subrange(i as int, d.len() as int));
        assert(s[0] == x);
        i = i - 1;
    }
    assert(d@.subrange(0, d.len() as int) =~= d@);
    out
}

/// The exact decimal text of a finite double given by its bits. With `e`
/// the biased exponent field and `f` the fraction field, the double is
/// `m * 2^x`, where `m = f` and `x = -1074` when `e` is zero and
/// `m = f + 2^52` and `x = e - 1075` otherwise. For `x >= 0` that is the
/// integer `m * 2^x`; for `x = -k < 0` it is `m * 5^k * 10^-k`, written
/// as the digits of `m * 5^k` with the exponent `E-k`. A set sign bit
/// puts a minus sign in front.
pub open spec fn float_text(bits: u64) -> Seq<char> {
    let e = (bits >> 52u64) & 0x7ffu64;
    let f = bits & 0xf_ffff_ffff_ffffu64;
    let m: nat = if e == 0 {
        f as nat
    } else {
        f as nat + 0x10_0000_0000_0000
    };
    let sign = if (bits >> 63u64) == 1u64 {
        seq!['-']
    } else {
        Seq::<char>::empty()
    };
    if e >= 1075 {
        sign + decimal_text(m * pown(2, (e - 1075) as nat))
    } else {
        let k: nat = if e == 0 {
            1074
        } else {
            (1075 - e) as nat
        };
        sign + decimal_text(m * pown(5, k)) + seq!['E', '-'] + decimal_text(k)
    }
}

/// The exact decimal text of a double given by its bits.
pub fn float_json_text(bits: u64) -> (r: String)
    ensures
        r@ == float_text(bits),
{
    let e: u64 = (bits >> 52u64) & 0x7ffu64;
    let f: u64 = bits & 0xf_ffff_ffff_ffffu64;
    assert(f < 0x10_0000_0000_0000u64) by (bit_vector)
        requires
            f == bits & 0xf_ffff_ffff_ffffu64,
    ;
    assert(e <= 0x7ffu64) by (bit_vector)
        requires
            e == (bits >> 52u64) & 0x7ffu64,
    ;
    let m: u64 = if e == 0 {
        f
    } else {
        f + 0x10_0000_0000_0000u64
    };
    let negative = (bits >> 63u64) == 1u64;
    let mut out = if negative {
        "-".to_string()
    } else {
        String::from_str("")
    };
    proof {
        reveal_strlit("-");
        reveal_strlit("");
        reveal_strlit("E-");
    }
    let ghost sign = if negative {
        seq!['-']
    } else {
        Seq::<char>::empty()
    };
    assert(out@ =~= sign);
    let digits = digits_of(m);
    if e >= 1075 {
        let scaled = mul_pow(digits, 2, e - 1075);
        let t = digits_text(scaled);
        out.append(t.as_str());
    } else {
        let k: u64 = if e == 0 {
            1074
        } else {
            1075 - e
        };
        let scaled = mul_pow(digits, 5, k);
        let t = digits_text(scaled);
        out.append(t.as_str());
        out.append("E-");
        let kt = u64_text(k);
        out.append(kt.as_str());
        assert("E-"@ =~= seq!['E', '-']);
    }
    out
}

/// The decimal text of a signed 64-bit number.
pub fn i64_text(n: i64) -> (r: String)
    ensures
        r@ == signed_text(n as int),
{
    if n < 0 {
        let m: u64 = if n == i64::MIN {
            0x8000_0000_0000_0000u64
        } else {
            (-n) as u64
        };
        let mut s = "-".to_string();
        let digits = u64_text(m);
        s.append(digits.as_str());
        proof {
            reveal_strlit("-");
        }
        assert(s@ =~= seq!['-'] + decimal_text((-(n as int)) as nat));
        s
    } else {
        u64_text(n as u64)
    }
}

/// The hexadecimal digit of a number below sixteen, in lower case.
pub open spec fn hex_digit(n: nat) -> char {
    if n < 10 {
        digit_char(n)
    } else if n == 10 {
        'a'
    } else if n == 11 {
        'b'
    } else if n == 12 {
        'c'
    } else if n == 13 {
        'd'
    } else if n == 14 {
        'e'
    } else {
        'f'
    }
}

/// A character inside a JSON string: a quote and a backslash are escaped
/// with a backslash, a control character as `\u00` and two hexadecimal
/// digits; any other character stands for itself.
pub open spec fn escape_char(c: char) -> Seq<char> {
    if c == '"' {
        seq!['\\', '"']
    } else if c == '\\' {
        seq!['\\', '\\']
    } else if (c as u32) < 32 {
        seq!['\\', 'u', '0', '0', hex_digit((c as u32 / 16) as nat), hex_digit((c as u32 % 16) as nat)]
    } else {
        seq![c]
    }
}

/// The characters of a string with each escaped as `escape_char` says.
pub open spec fn escaped(s: Seq<char>) -> Seq<char>
    decreases s.len(),
{
    if s.len() == 0 {
        Seq::empty()
    } else {
        escaped(s.drop_last()) + escape_char(s.last())
    }
}

/// The JSON text of a string.
pub open spec fn quoted(s: Seq<char>) -> Seq<char> {
    seq!['"'] + escaped(s) + seq!['"']
}

/// The text of one hexadecimal digit.
fn hex_str(n: u32) -> (r: &'static str)
    requires
        n < 16,
    ensures
        r@ == seq![hex_digit(n as nat)],
{
    if n < 10 {
        digit_str(n as u64)
    } else {
        let r = if n == 10 { "a" }
        else if n == 11 { "b" }
        else if n == 12 { "c" }
        else if n == 13 { "d" }
        else if n == 14 { "e" }
        else { "f" };
        proof {
            reveal_strlit("a");
            reveal_strlit("b");
            reveal_strlit("c");
            reveal_strlit("d");
            reveal_strlit("e");
            reveal_strlit("f");
        }
        assert(r@ =~= seq![hex_digit(n as nat)]);
        r
    }
}

/// Appends the JSON text of a string.
fn write_quoted(out: &mut String, s: &str)
    ensures
        final(out)@ == old(out)@ + quoted(s@),
{
    let cs = chars_of(s);
    let ghost start = out@;
    proof {
        reveal_strlit("\"");
        reveal_strlit("\\\"");
        reveal_strlit("\\\\");
        reveal_strlit("\\u00");
    }
    out.append("\"");
    assert(s@.take(0) =~= Seq::<char>::empty());
    let mut i: usize = 0;
    while i < cs.len()
        invariant
            i <= cs.len(),
            cs@ == s@,
            out@ == start + seq!['"'] + escaped(s@.take(i as int)),
        decreases cs.len() - i,
    {
        let c = cs[i];
        let ghost before = out@;
        proof {
            reveal_strlit("\\\"");
            reveal_strlit("\\\\");
            reveal_strlit("\\u00");
        }
        if c == '"' {
            out.append("\\\"");
            assert(out@ =~= before + escape_char(c));
        } else if c == '\\' {
            out.append("\\\\");
            assert(out@ =~= before + escape_char(c));
        } else if (c as u32) < 32 {
            out.append("\\u00");
            let hi = hex_str((c as u32) / 16);
            out.append(hi);
            let lo = hex_str((c as u32) % 16);
            out.append(lo);
            assert(escape_char(c) == seq!['\\', 'u', '0', '0', hex_digit(((c as u32) / 16) as nat), hex_digit(((c as u32) % 16) as nat)]);
            assert(out@ =~= before + escape_char(c));
        } else {
            out.append(s.substring_char(i, i + 1));
            assert(s@.subrange(i as int, i + 1) =~= seq![c]);
            assert(out@ =~= before + escape_char(c));
        }
        assert(out@ =~= before + escape_char(c));
        assert(s@.take(i + 1).drop_last() =~= s@.take(i as int));
        assert(s@.take(i + 1).last() == c);
        i = i + 1;
    }
    assert(s@.take(cs.len() as int) =~= s@);
    out.append("\"");
    assert(out@ =~= start + quoted(s@));
}

/// The JSON text of a document: `null`, `true`, `false`; an integer in
/// decimal; a finite double as its exact decimal value (`null` for one
/// that is not finite, which JSON cannot hold); a string quoted; an array's
/// items and an object's members in order, separated by commas.
pub open spec fn json_text(j: Json) -> Seq<char>
    decreases j,
{
    match j {
        Json::Null => "null"@,
        Json::Bool(b) => if b {
            "true"@
        } else {
            "false"@
        },
        Json::Int(i) => signed_text(i as int),
        Json::Float(b) => if is_finite_bits(b) {
            float_text(b)
        } else {
            "null"@
        },
        Json::Str(s) => quoted(s),
        Json::Array(items) => seq!['['] + items_text(items) + seq![']'],
        Json::Object(es) => seq!['{'] + members_text(es) + seq!['}'],
    }
}

/// The texts of array items, separated by commas.
pub open spec fn items_text(s: Seq<Json>) -> Seq<char>
    decreases s,
{
    if s.len() == 0 {
        Seq::empty()
    } else if s.len() == 1 {
        json_text(s[0])
    } else {
        items_text(s.drop_last()) + seq![','] + json_text(s.last())
    }
}

/// The texts of object members, each key quoted before a colon and its
/// document, separated by commas.
pub open spec fn members_text(s: Seq<(Seq<char>, Json)>) -> Seq<char>
    decreases s,
{
    if s.len() == 0 {
        Seq::empty()
    } else if s.len() == 1 {
        quoted(s[0].0) + seq![':'] + json_text(s[0].1)
    } else {
        members_text(s.drop_last()) + seq![','] + quoted(s.last().0) + seq![':'] + json_text(s.last().1)
    }
}

/// Appends the JSON text of a document.
#[verifier::loop_isolation(false)]
pub fn write_json(out: &mut String, v: &JsonValue)
    ensures
        final(out)@ == old(out)@ + json_text(v@),
    decreases v,
{
    proof {
        lemma_view_parts(v);
        reveal_strlit("null");
        reveal_strlit("true");
        reveal_strlit("false");
        reveal_strlit("[");
        reveal_strlit("]");
        reveal_strlit("{");
        reveal_strlit("}");
        reveal_strlit(",");
        reveal_strlit(":");
    }
    let ghost start = out@;
    match v {
        JsonValue::Null => out.append("null"),
        JsonValue::Bool(b) => {
            if *b {
                out.append("true");
            } else {
                out.append("false");
            }
        },
        JsonValue::Int(i) => {
            let t = i64_text(*i);
            out.append(t.as_str());
        },
        JsonValue::Float(b) => {
            if finite_bits(*b) {
                let t = float_json_text(*b);
                out.append(t.as_str());
            } else {
                out.append("null");
            }
        },
        JsonValue::Str(s) => write_quoted(out, s.as_str()),
        JsonValue::Array(items) => {
            let ghost m = v@->Array_0;
            out.append("[");
            let mut i: usize = 0;
            assert(m.take(0) =~= Seq::<Json>::empty());
            while i < items.len()
                invariant
                    i <= items.len(),
                    m.len() == items.len(),
                    forall|q: int| 0 <= q < items.len() ==> #[trigger] m[q] == items@[q]@,
                    out@ == start + seq!['['] + items_text(m.take(i as int)),
                decreases items.len() - i,
            {
                proof {
                    vstd::std_specs::vec::axiom_vec_index_decreases(*items, i as int);
                }
                let ghost before = out@;
                if i > 0 {
                    out.append(",");
                }
                write_json(out, &items[i]);
                let ghost t = m.take(i + 1);
                assert(t.drop_last() =~= m.take(i as int));
                assert(t.last() == m[i as int]);
                if i == 0 {
                    assert(t.len() == 1 && t[0] == m[0]);
                }
                assert(out@ =~= start + seq!['['] + items_text(t));
                i = i + 1;
            }
            assert(m.take(items.len() as int) =~= m);
            out.append("]");
            assert(out@ =~= start + json_text(v@));
        },
        JsonValue::Object(entries) => {
            let ghost m = v@->Object_0;
            out.append("{");
            let mut i: usize = 0;
            assert(m.take(0) =~= Seq::<(Seq<char>, Json)>::empty());
            while i < entries.len()
                invariant
                    i <= entries.len(),
                    m.len() == entries.len(),
                    forall|q: int| 0 <= q < entries.len() ==> #[trigger] m[q] == (entries@[q].0@, entries@[q].1@),
                    out@ == start + seq!['{'] + members_text(m.take(i as int)),
                decreases entries.len() - i,
            {
                proof {
                    vstd::std_specs::vec::axiom_vec_index_decreases(*entries, i as int);
                }
                if i > 0 {
                    out.append(",");
                }
                write_quoted(out, entries[i].0.as_str());
                out.append(":");
                write_json(out, &entries[i].1);
                let ghost t = m.take(i + 1);
                assert(t.drop_last() =~= m.take(i as int));
                assert(t.last() == m[i as int]);
                if i == 0 {
                    assert(t.len() == 1 && t[0] == m[0]);
                }
                assert(out@ =~= start + seq!['{'] + members_text(t));
                i = i + 1;
            }
            assert(m.take(entries.len() as int) =~= m);
            out.append("}");
            assert(out@ =~= start + json_text(v@));
        },
    }
}

/// The JSON text of a document.
pub fn to_json_text(v: &JsonValue) -> (r: String)
    ensures
        r@ == json_text(v@),
{
    let mut out = String::from_str("");
    proof {
        reveal_strlit("");
    }
    write_json(&mut out, v);
    out
}

/// The text of one object member: its key quoted, a colon, its document.
pub open spec fn member_text(m: (Seq<char>, Json)) -> Seq<char> {
    quoted(m.0) + seq![':'] + json_text(m.1)
}

/// Whether `part` occurs in `whole` starting at some position.
pub open spec fn occurs_in(part: Seq<char>, whole: Seq<char>) -> bool {
    exists|p: int| 0 <= p && p + part.len() <= whole.len() && #[trigger] whole.subrange(p, p + part.len()) == part
}

proof fn lemma_occurs_in_append(part: Seq<char>, a: Seq<char>, b: Seq<char>)
    requires
        occurs_in(part, a),
    ensures
        occurs_in(part, a + b),
        occurs_in(part, b + a),
{
    let p = choose|p: int| 0 <= p && p + part.len() <= a.len() && #[trigger] a.subrange(p, p + part.len()) == part;
    assert((a + b).subrange(p, p + part.len()) =~= part);
    assert((b + a).subrange(b.len() + p, b.len() + p + part.len()) =~= part);
}

proof fn lemma_occurs_in_self(a: Seq<char>)
    ensures
        occurs_in(a, a),
{
    let p: int = 0;
    assert(a.subrange(p, p + a.len()) =~= a);
}

proof fn lemma_members_text_holds(s: Seq<(Seq<char>, Json)>, i: int)
    requires
        0 <= i < s.len(),
    ensures
        occurs_in(member_text(s[i]), members_text(s)),
    decreases s.len(),
{
    if s.len() == 1 {
        lemma_occurs_in_self(member_text(s[0]));
        assert(members_text(s) == member_text(s[0]));
    } else if i == s.len() - 1 {
        lemma_occurs_in_self(member_text(s.last()));
        lemma_occurs_in_append(member_text(s.last()), member_text(s.last()), members_text(s.drop_last()) + seq![',']);
        assert(members_text(s) =~= (members_text(s.drop_last()) + seq![',']) + member_text(s.last()));
    } else {
        lemma_members_text_holds(s.drop_last(), i);
        assert(s.drop_last()[i] == s[i]);
        let rest = seq![','] + member_text(s.last());
        lemma_occurs_in_append(member_text(s[i]), members_text(s.drop_last()), rest);
        assert(members_text(s) =~= members_text(s.drop_last()) + rest);
    }
}

proof fn lemma_items_text_holds(s: Seq<Json>, i: int)
    requires
        0 <= i < s.len(),
    ensures
        occurs_in(json_text(s[i]), items_text(s)),
    decreases s.len(),
{
    if s.len() == 1 {
        lemma_occurs_in_self(json_text(s[0]));
    } else if i == s.len() - 1 {
        lemma_occurs_in_self(json_text(s.last()));
        lemma_occurs_in_append(json_text(s.last()), json_text(s.last()), items_text(s.drop_last()) + seq![',']);
        assert(items_text(s) =~= (items_text(s.drop_last()) + seq![',']) + json_text(s.last()));
    } else {
        lemma_items_text_holds(s.drop_last(), i);
        assert(s.drop_last()[i] == s[i]);
        let rest = seq![','] + json_text(s.last());
        lemma_occurs_in_append(json_text(s[i]), items_text(s.drop_last()), rest);
        assert(items_text(s) =~= items_text(s.drop_last()) + rest);
    }
}

/// The text of a document leaves nothing out: an object's text holds each
/// member as its quoted key, a colon and its document's text, and an
/// array's text holds each item's text; the text of an integer reads back
/// as that integer; a string without quotes, backslashes or control
/// characters is written between quotes as it is.
pub proof fn law_json_text_leaves_nothing_out(j: Json, i: int)
    ensures
        j matches Json::Object(es) ==> (0 <= i < es.len() ==> occurs_in(member_text(es[i]), json_text(j))),
        j matches Json::Array(items) ==> (0 <= i < items.len() ==> occurs_in(json_text(items[i]), json_text(j))),
        j matches Json::Int(n) ==> parse_i64_spec(json_text(j)) == Some(n as int),
        j matches Json::Str(s) ==> ((forall|q: int| 0 <= q < s.len() ==> #[trigger] s[q] != '"' && s[q] != '\\'
            && (s[q] as u32) >= 32) ==> json_text(j) == seq!['"'] + s + seq!['"']),
{
    match j {
        Json::Object(es) => {
            if 0 <= i < es.len() {
                lemma_members_text_holds(es, i);
                lemma_occurs_in_append(member_text(es[i]), members_text(es), seq!['}']);
                lemma_occurs_in_append(member_text(es[i]), members_text(es) + seq!['}'], seq!['{']);
                assert(json_text(j) =~= seq!['{'] + (members_text(es) + seq!['}']));
            }
        },
        Json::Array(items) => {
            if 0 <= i < items.len() {
                lemma_items_text_holds(items, i);
                lemma_occurs_in_append(json_text(items[i]), items_text(items), seq![']']);
                lemma_occurs_in_append(json_text(items[i]), items_text(items) + seq![']'], seq!['[']);
                assert(json_text(j) =~= seq!['['] + (items_text(items) + seq![']']));
            }
        },
        Json::Int(n) => {
            law_signed_64_round_trip(n);
        },
        Json::Str(s) => {
            if forall|q: int| 0 <= q < s.len() ==> #[trigger] s[q] != '"' && s[q] != '\\' && (s[q] as u32) >= 32 {
                lemma_escaped_plain(s);
            }
        },
        _ => {},
    }
}

proof fn lemma_escaped_plain(s: Seq<char>)
    requires
        forall|q: int| 0 <= q < s.len() ==> #[trigger] s[q] != '"' && s[q] != '\\' && (s[q] as u32) >= 32,
    ensures
        escaped(s) == s,
    decreases s.len(),
{
    if s.len() > 0 {
        assert forall|q: int| 0 <= q < s.drop_last().len() implies #[trigger] s.drop_last()[q] != '"'
            && s.drop_last()[q] != '\\' && (s.drop_last()[q] as u32) >= 32 by {
            assert(s.drop_last()[q] == s[q]);
        }
        lemma_escaped_plain(s.drop_last());
        assert(s[s.len() - 1] == s.last());
        assert(escape_char(s.last()) == seq![s.last()]);
        assert(s =~= s.drop_last() + seq![s.last()]);
    }
}

} // verus!
