//! The `fractional` operator: consistent bucketing of evaluation subjects
//! into weighted variants.
//!
//! A subject lands in the bucket of the first variant whose cumulative share
//! of the total weight exceeds the subject's point: the magnitude of the
//! signed MurmurHash3 of the bucketing key, as a share of `i32::MAX`. Shares
//! are compared exactly, as fractions of integers.

use vstd::prelude::*;
use crate::json::{Json, JsonValue, json_get, items_model, lemma_items_model, lemma_view_parts};
use vstd::string::StringExecFns;

verus! {

broadcast use vstd::string::group_string_axioms;

/// The 32-bit x86 variant of MurmurHash3 of `bytes` with `seed`, as the
/// `murmurhash3` crate computes it.
pub uninterp spec fn murmur3_x86_32(bytes: Seq<u8>, seed: u32) -> u32;

/// Calls `murmurhash3::murmurhash3_x86_32`. The contract claims only that the
/// result is a function of the bytes and the seed alone; the hash algorithm
/// itself is not stated.
#[verifier::external_body]
fn murmurhash3_x86_32(bytes: &[u8], seed: u32) -> (r: u32)
    ensures
        r == murmur3_x86_32(bytes@, seed),
{
    murmurhash3::murmurhash3_x86_32(bytes, seed)
}

/// The characters of `j` when it is a string, else the empty string.
pub open spec fn str_or_empty(j: Option<Json>) -> Seq<char> {
    match j {
        Some(Json::Str(s)) => s,
        _ => Seq::empty(),
    }
}

/// The bucketing key taken from the evaluation data: the flag key under
/// `$flagd.flagKey` followed by the targeting key.
pub open spec fn context_bucket_key(data: Json) -> Seq<char> {
    let targeting = str_or_empty(json_get(data, "targetingKey"@));
    let flag = match json_get(data, "$flagd"@) {
        Some(f) => str_or_empty(json_get(f, "flagKey"@)),
        None => Seq::empty(),
    };
    flag + targeting
}

/// The bucket that one distribution entry defines: a non-empty array whose
/// first item names the variant (a non-string names the empty variant) and
/// whose second item, an integer, weighs it (truncated to 32 bits; weight 1
/// when absent or not an integer).
pub open spec fn bucket_of(d: Json) -> Option<(Seq<char>, i32)> {
    match d {
        Json::Array(items) => if items.len() > 0 {
            let variant = str_or_empty(Some(items[0]));
            let weight: i32 = if items.len() > 1 && items[1] is Int {
                items[1]->Int_0 as i32
            } else {
                1i32
            };
            Some((variant, weight))
        } else {
            None
        },
        _ => None,
    }
}

/// The buckets of all well-formed distribution entries, in order.
pub open spec fn buckets_of(dists: Seq<Json>) -> Seq<(Seq<char>, i32)>
    decreases dists.len(),
{
    if dists.len() == 0 {
        Seq::empty()
    } else {
        let rest = buckets_of(dists.drop_last());
        match bucket_of(dists.last()) {
            Some(b) => rest.push(b),
            None => rest,
        }
    }
}

/// The total weight as a 32-bit sum that wraps on overflow.
pub open spec fn wrapped_total(bs: Seq<(Seq<char>, i32)>) -> i32
    decreases bs.len(),
{
    if bs.len() == 0 {
        0
    } else {
        wrapped_total(bs.drop_last()).wrapping_add(bs.last().1)
    }
}

/// The magnitude of the signed reading of a 32-bit hash: the subject's
/// point, as a share of `i32::MAX`.
pub open spec fn point_of(hash: u32) -> int {
    let s = hash as i32;
    if s < 0 {
        -(s as int)
    } else {
        s as int
    }
}

/// The variant of the first bucket whose cumulative weight, counted from
/// `acc`, puts the point below it: `point / i32::MAX < cumulative / total`.
pub open spec fn first_match(bs: Seq<(Seq<char>, i32)>, point: int, total: int, acc: int) -> Option<
    Seq<char>,
>
    decreases bs.len(),
{
    if bs.len() == 0 {
        None
    } else {
        let acc2 = acc + bs[0].1;
        if point * total < acc2 * 0x7fff_ffff {
            Some(bs[0].0)
        } else {
            first_match(bs.drop_first(), point, total, acc2)
        }
    }
}

/// The key by which subjects are bucketed, and the distribution entries.
pub open spec fn fractional_split(args: Seq<Json>, data: Json) -> (Seq<char>, Seq<Json>) {
    match args[0] {
        Json::Str(s) => (s, args.drop_first()),
        _ => (context_bucket_key(data), args),
    }
}

/// What the `fractional` operator yields for its evaluated arguments and
/// the evaluation data.
pub open spec fn fractional_result(args: Seq<Json>, data: Json) -> Json {
    if args.len() == 0 {
        Json::Null
    } else {
        let (key, dists) = fractional_split(args, data);
        if dists.len() == 0 {
            Json::Null
        } else {
            let bs = buckets_of(dists);
            let total = wrapped_total(bs);
            if total <= 0 {
                Json::Null
            } else {
                let point = point_of(murmur3_x86_32(vstd::utf8::encode_utf8(key), 0));
                match first_match(bs, point, total as int, 0) {
                    Some(v) => Json::Str(v),
                    None => Json::Null,
                }
            }
        }
    }
}

/// The hash of a bucketing key and the subject's point: the magnitude of the
/// hash read as a signed 32-bit number. The point as a percentage is
/// `point * 100 / i32::MAX`.
pub fn bucket_for(bucket_by: &str) -> (r: (u32, u32))
    ensures
        r.0 == murmur3_x86_32(vstd::utf8::encode_utf8(bucket_by@), 0),
        r.1 as int == point_of(r.0),
{
    let hash = murmurhash3_x86_32(bucket_by.as_bytes(), 0);
    let signed = hash as i32;
    let point: u32 = if signed < 0 {
        if signed == i32::MIN {
            0x8000_0000u32
        } else {
            (-signed) as u32
        }
    } else {
        signed as u32
    };
    (hash, point)
}


/// The `fractional` operator.
pub struct FractionalOperator;

/// The bucket of one distribution entry.
fn bucket_from(d: &JsonValue) -> (r: Option<(String, i32)>)
    ensures
        match bucket_of(d@) {
            Some(b) => r matches Some(x) && x.0@ == b.0 && x.1 == b.1,
            None => r is None,
        },
{
    proof {
        lemma_view_parts(d);
    }
    match d {
        JsonValue::Array(items) => {
            if items.len() == 0 {
                return None;
            }
            let variant = match items[0].as_str() {
                Some(s) => s.to_string(),
                None => String::new(),
            };
            let weight: i32 = if items.len() > 1 {
                match &items[1] {
                    JsonValue::Int(i) => *i as i32,
                    _ => 1,
                }
            } else {
                1
            };
            proof {
                if items.len() > 1 {
                    lemma_view_parts(&items[1]);
                }
            }
            Some((variant, weight))
        },
        _ => None,
    }
}

/// The string under `key` in `data`, or the empty string.
fn str_field(data: &JsonValue, key: &str) -> (r: String)
    ensures
        r@ == str_or_empty(json_get(data@, key@)),
{
    match data.get(key) {
        Some(v) => match v.as_str() {
            Some(s) => s.to_string(),
            None => String::new(),
        },
        None => String::new(),
    }
}

/// The bucketing key taken from the evaluation data.
fn context_key(data: &JsonValue) -> (r: String)
    ensures
        r@ == context_bucket_key(data@),
{
    let targeting = str_field(data, "targetingKey");
    let mut key = match data.get("$flagd") {
        Some(f) => str_field(f, "flagKey"),
        None => String::new(),
    };
    key.append(targeting.as_str());
    key
}

/// One more entry extends the buckets by that entry's bucket, if any.
proof fn lemma_buckets_step(before: Seq<Json>, d: Json)
    ensures
        buckets_of(before.push(d)) == match bucket_of(d) {
            Some(b) => buckets_of(before).push(b),
            None => buckets_of(before),
        },
        bucket_of(d) matches Some(b) ==> wrapped_total(buckets_of(before).push(b))
            == wrapped_total(buckets_of(before)).wrapping_add(b.1),
{
    assert(before.push(d).drop_last() =~= before);
    match bucket_of(d) {
        Some(b) => {
            assert(buckets_of(before).push(b).drop_last() =~= buckets_of(before));
        },
        None => {},
    }
}

/// The buckets of the distribution entries `args[start..]`, and their
/// wrapped total weight.
fn collect_buckets(args: &[JsonValue], start: usize) -> (r: (Vec<(String, i32)>, i32))
    requires
        start <= args.len(),
    ensures
        r.0@.len() == buckets_of(items_model(args@).subrange(start as int, args@.len() as int)).len(),
        forall|k: int|
            #![trigger r.0@[k]]
            0 <= k < r.0@.len() ==> r.0@[k].0@ == buckets_of(
                items_model(args@).subrange(start as int, args@.len() as int),
            )[k].0 && r.0@[k].1 == buckets_of(
                items_model(args@).subrange(start as int, args@.len() as int),
            )[k].1,
        r.1 == wrapped_total(buckets_of(items_model(args@).subrange(start as int, args@.len() as int))),
{
    let ghost m = items_model(args@);
    proof {
        lemma_items_model(args@);
    }
    let mut buckets: Vec<(String, i32)> = Vec::new();
    let mut total: i32 = 0;
    let mut i: usize = start;
    assert(m.subrange(start as int, start as int) =~= Seq::<Json>::empty());
    while i < args.len()
        invariant
            start <= i <= args.len(),
            m == items_model(args@),
            m.len() == args.len(),
            forall|k: int| 0 <= k < args.len() ==> #[trigger] m[k] == args@[k]@,
            buckets@.len() == buckets_of(m.subrange(start as int, i as int)).len(),
            forall|k: int|
                #![trigger buckets@[k]]
                0 <= k < buckets@.len() ==> buckets@[k].0@ == buckets_of(
                    m.subrange(start as int, i as int),
                )[k].0 && buckets@[k].1 == buckets_of(m.subrange(start as int, i as int))[k].1,
            total == wrapped_total(buckets_of(m.subrange(start as int, i as int))),
        decreases args.len() - i,
    {
        let ghost before = m.subrange(start as int, i as int);
        assert(m.subrange(start as int, i + 1) =~= before.push(args@[i as int]@));
        proof {
            lemma_buckets_step(before, args@[i as int]@);
        }
        match bucket_from(&args[i]) {
            Some(b) => {
                total = total.wrapping_add(b.1);
                buckets.push(b);
            },
            None => {},
        }
        i = i + 1;
    }
    (buckets, total)
}

/// The variant of the first bucket whose cumulative weight puts `point`
/// below it.
fn pick_bucket(
    buckets: &Vec<(String, i32)>,
    Ghost(bs): Ghost<Seq<(Seq<char>, i32)>>,
    point: u32,
    total: i32,
) -> (r: Option<String>)
    requires
        buckets@.len() == bs.len(),
        forall|k: int|
            #![trigger buckets@[k]]
            0 <= k < buckets@.len() ==> buckets@[k].0@ == bs[k].0 && buckets@[k].1 == bs[k].1,
        0 < total,
        point <= 0x8000_0000,
    ensures
        match first_match(bs, point as int, total as int, 0) {
            Some(v) => r matches Some(s) && s@ == v,
            None => r is None,
        },
{
    let mut acc: i128 = 0;
    let mut j: usize = 0;
    assert(bs.subrange(0, bs.len() as int) =~= bs);
    assert(0 <= (point as int) * (total as int) <= 0x8000_0000 * 0x7fff_ffff) by (nonlinear_arith)
        requires
            point <= 0x8000_0000,
            0 < total <= 0x7fff_ffff,
    ;
    let lhs: i128 = (point as i128) * (total as i128);
    while j < buckets.len()
        invariant
            j <= buckets.len(),
            buckets@.len() == bs.len(),
            forall|k: int|
                #![trigger buckets@[k]]
                0 <= k < buckets@.len() ==> buckets@[k].0@ == bs[k].0 && buckets@[k].1 == bs[k].1,
            0 < total,
            point <= 0x8000_0000,
            lhs == (point as int) * (total as int),
            -(j as int) * 0x8000_0000 <= acc <= (j as int) * 0x8000_0000,
            first_match(bs, point as int, total as int, 0) == first_match(
                bs.subrange(j as int, bs.len() as int),
                point as int,
                total as int,
                acc as int,
            ),
        decreases buckets.len() - j,
    {
        let ghost rest = bs.subrange(j as int, bs.len() as int);
        assert(rest[0] == bs[j as int]);
        assert(rest.drop_first() =~= bs.subrange(j + 1, bs.len() as int));
        let w = buckets[j].1;
        assert(j < 0x1_0000_0000_0000_0000) by {
            assert(buckets.len() <= usize::MAX);
        }
        assert(-(j as int + 1) * 0x8000_0000 <= acc + w <= (j as int + 1) * 0x8000_0000)
            by (nonlinear_arith)
            requires
                -(j as int) * 0x8000_0000 <= acc <= (j as int) * 0x8000_0000,
                -0x8000_0000 <= w < 0x8000_0000,
        ;
        assert((j as int + 1) * 0x8000_0000 <= 0x1_0000_0000_0000_0000 * 0x8000_0000)
            by (nonlinear_arith)
            requires
                j < 0x1_0000_0000_0000_0000,
        ;
        let acc2: i128 = acc + w as i128;
        assert(-0x1_0000_0000_0000_0000_0000_0000 * 0x8000_0000 <= acc2 * 0x7fff_ffff
            <= 0x1_0000_0000_0000_0000_0000_0000 * 0x8000_0000) by (nonlinear_arith)
            requires
                -0x1_0000_0000_0000_0000 * 0x8000_0000 <= acc2 <= 0x1_0000_0000_0000_0000
                    * 0x8000_0000,
        ;
        let rhs: i128 = acc2 * 0x7fff_ffff;
        if lhs < rhs {
            return Some(buckets[j].0.clone());
        }
        acc = acc2;
        j = j + 1;
    }
    None
}

impl FractionalOperator {
    /// Evaluates `fractional` on its evaluated arguments against the
    /// evaluation data: the chosen variant, or null.
    pub fn evaluate(&self, args: &[JsonValue], data: &JsonValue) -> (r: JsonValue)
        ensures
            r@ == fractional_result(items_model(args@), data@),
    {
        let ghost m = items_model(args@);
        proof {
            lemma_items_model(args@);
        }
        if args.len() == 0 {
            return JsonValue::Null;
        }
        let (key, start): (String, usize) = match args[0].as_str() {
            Some(s) => (s.to_string(), 1),
            None => (context_key(data), 0),
        };
        let ghost dists = m.subrange(start as int, m.len() as int);
        assert(key@ == fractional_split(m, data@).0);
        assert(dists =~= fractional_split(m, data@).1);
        if start == args.len() {
            return JsonValue::Null;
        }
        let (buckets, total) = collect_buckets(args, start);
        if total <= 0 {
            return JsonValue::Null;
        }
        let (_hash, point) = bucket_for(key.as_str());
        match pick_bucket(&buckets, Ghost(buckets_of(dists)), point, total) {
            Some(v) => JsonValue::Str(v),
            None => JsonValue::Null,
        }
    }
}


/// The exact sum of the bucket weights.
pub open spec fn weight_sum(bs: Seq<(Seq<char>, i32)>) -> int
    decreases bs.len(),
{
    if bs.len() == 0 {
        0
    } else {
        bs[0].1 + weight_sum(bs.drop_first())
    }
}

/// The sum of the weights can be taken from the back as well.
proof fn lemma_weight_sum_last(bs: Seq<(Seq<char>, i32)>)
    requires
        bs.len() > 0,
    ensures
        weight_sum(bs) == weight_sum(bs.drop_last()) + bs.last().1,
    decreases bs.len(),
{
    if bs.len() > 1 {
        lemma_weight_sum_last(bs.drop_first());
        assert(bs.drop_first().drop_last() =~= bs.drop_last().drop_first());
        assert(bs.drop_first().last() == bs.last());
        assert(bs.drop_last()[0] == bs[0]);
        assert(weight_sum(bs.drop_last()) == bs[0].1 + weight_sum(bs.drop_last().drop_first()));
        assert(weight_sum(bs) == bs[0].1 + weight_sum(bs.drop_first()));
    } else {
        assert(bs.drop_first().len() == 0);
        assert(bs.drop_last().len() == 0);
        assert(bs.last() == bs[0]);
        assert(weight_sum(bs.drop_first()) == 0);
        assert(weight_sum(bs.drop_last()) == 0);
        assert(weight_sum(bs) == bs[0].1 + weight_sum(bs.drop_first()));
    }
}

/// With positive weights whose sum fits in `i32`, the wrapped total is the
/// exact sum.
proof fn lemma_wrapped_total_exact(bs: Seq<(Seq<char>, i32)>)
    requires
        forall|k: int| 0 <= k < bs.len() ==> #[trigger] bs[k].1 > 0,
        weight_sum(bs) <= i32::MAX,
    ensures
        wrapped_total(bs) as int == weight_sum(bs),
        weight_sum(bs) >= 0,
    decreases bs.len(),
{
    if bs.len() > 0 {
        lemma_weight_sum_last(bs);
        let front = bs.drop_last();
        assert forall|k: int| 0 <= k < front.len() implies #[trigger] front[k].1 > 0 by {
            assert(front[k] == bs[k]);
        }
        assert(bs.last().1 > 0);
        lemma_wrapped_total_exact(front);
    }
}

/// A search that finds no bucket has passed buckets whose cumulative share
/// never exceeded the point, the last of them included.
proof fn lemma_first_match_none(bs: Seq<(Seq<char>, i32)>, point: int, total: int, acc: int)
    requires
        bs.len() > 0,
        first_match(bs, point, total, acc) is None,
    ensures
        point * total >= (acc + weight_sum(bs)) * 0x7fff_ffff,
    decreases bs.len(),
{
    let acc2 = acc + bs[0].1;
    assert(!(point * total < acc2 * 0x7fff_ffff));
    assert(first_match(bs.drop_first(), point, total, acc2) is None);
    if bs.len() > 1 {
        lemma_first_match_none(bs.drop_first(), point, total, acc2);
        assert(weight_sum(bs) == bs[0].1 + weight_sum(bs.drop_first()));
    } else {
        assert(bs.drop_first().len() == 0);
        assert(weight_sum(bs.drop_first()) == 0);
        assert(weight_sum(bs) == bs[0].1);
    }
}

/// A chosen variant is one of the buckets'.
proof fn lemma_first_match_listed(bs: Seq<(Seq<char>, i32)>, point: int, total: int, acc: int)
    ensures
        first_match(bs, point, total, acc) matches Some(v) ==> exists|k: int|
            0 <= k < bs.len() && #[trigger] bs[k].0 == v,
    decreases bs.len(),
{
    if bs.len() > 0 {
        lemma_first_match_listed(bs.drop_first(), point, total, acc + bs[0].1);
        if let Some(v) = first_match(bs.drop_first(), point, total, acc + bs[0].1) {
            if first_match(bs, point, total, acc) != Some(bs[0].0) {
                let k = choose|k: int| 0 <= k < bs.drop_first().len() && #[trigger] bs.drop_first()[k].0 == v;
                assert(bs[k + 1].0 == v);
            }
        }
    }
}

/// `fractional` yields null or the name of a variant listed in its
/// distribution: it never makes up a variant.
pub proof fn law_fractional_picks_listed_variant(args: Seq<Json>, data: Json)
    ensures
        fractional_result(args, data) matches Json::Str(v) ==> exists|k: int|
            0 <= k < buckets_of(fractional_split(args, data).1).len()
                && #[trigger] buckets_of(fractional_split(args, data).1)[k].0 == v,
{
    if args.len() > 0 {
        let (key, dists) = fractional_split(args, data);
        let bs = buckets_of(dists);
        let point = point_of(murmur3_x86_32(vstd::utf8::encode_utf8(key), 0));
        lemma_first_match_listed(bs, point, wrapped_total(bs) as int, 0);
    }
}

/// With positive weights whose sum fits in `i32`, every subject whose point
/// lies below `i32::MAX` lands in some bucket: the buckets' shares cover the
/// whole range. (The three hashes whose magnitude is `i32::MAX` or more get
/// no bucket.)
pub proof fn law_fractional_covers(args: Seq<Json>, data: Json)
    requires
        args.len() > 0,
        buckets_of(fractional_split(args, data).1).len() > 0,
        forall|k: int|
            0 <= k < buckets_of(fractional_split(args, data).1).len()
                ==> #[trigger] buckets_of(fractional_split(args, data).1)[k].1 > 0,
        weight_sum(buckets_of(fractional_split(args, data).1)) <= i32::MAX,
        point_of(murmur3_x86_32(vstd::utf8::encode_utf8(fractional_split(args, data).0), 0))
            < 0x7fff_ffff,
    ensures
        fractional_result(args, data) is Str,
{
    let (key, dists) = fractional_split(args, data);
    let bs = buckets_of(dists);
    let point = point_of(murmur3_x86_32(vstd::utf8::encode_utf8(key), 0));
    assert(dists.len() > 0) by {
        if dists.len() == 0 {
            assert(buckets_of(dists).len() == 0);
        }
    }
    lemma_wrapped_total_exact(bs);
    let total = wrapped_total(bs) as int;
    assert(bs[0].1 > 0);
    assert(weight_sum(bs) == bs[0].1 + weight_sum(bs.drop_first()));
    assert forall|k: int| 0 <= k < bs.drop_first().len() implies #[trigger] bs.drop_first()[k].1 > 0 by {
        assert(bs.drop_first()[k] == bs[k + 1]);
    }
    assert(weight_sum(bs.drop_first()) >= 0) by {
        if bs.drop_first().len() > 0 {
            lemma_weight_sum_nonneg(bs.drop_first());
        }
    }
    assert(total > 0);
    if first_match(bs, point, total, 0) is None {
        lemma_first_match_none(bs, point, total, 0);
        assert(point * total < total * 0x7fff_ffff) by (nonlinear_arith)
            requires
                0 <= point < 0x7fff_ffff,
                total > 0,
        ;
    }
}

/// The sum of the first `n` weights.
proof fn lemma_prefix_sum_step(bs: Seq<(Seq<char>, i32)>, n: int)
    requires
        1 <= n <= bs.len(),
    ensures
        weight_sum(bs.take(n)) == bs[0].1 + weight_sum(bs.drop_first().take(n - 1)),
{
    assert(bs.take(n).drop_first() =~= bs.drop_first().take(n - 1));
    assert(bs.take(n)[0] == bs[0]);
}

/// The search picks bucket `k` when `k` is the first bucket whose
/// cumulative weight, counted from `acc`, puts the point below it.
proof fn lemma_first_match_prefix(bs: Seq<(Seq<char>, i32)>, point: int, total: int, acc: int, k: int)
    requires
        0 <= k < bs.len(),
        point * total < (acc + weight_sum(bs.take(k + 1))) * 0x7fff_ffff,
        forall|j: int| 1 <= j <= k ==> point * total >= (acc + weight_sum(#[trigger] bs.take(j))) * 0x7fff_ffff,
    ensures
        first_match(bs, point, total, acc) == Some(bs[k].0),
    decreases k,
{
    lemma_prefix_sum_step(bs, 1);
    assert(bs.drop_first().take(0) =~= Seq::<(Seq<char>, i32)>::empty());
    if k > 0 {
        assert(point * total >= (acc + weight_sum(bs.take(1))) * 0x7fff_ffff);
        let t = bs.drop_first();
        let acc2 = acc + bs[0].1;
        lemma_prefix_sum_step(bs, k + 1);
        assert forall|j: int| 1 <= j <= k - 1 implies point * total >= (acc2 + weight_sum(#[trigger] t.take(j)))
            * 0x7fff_ffff by {
            lemma_prefix_sum_step(bs, j + 1);
            assert(point * total >= (acc + weight_sum(bs.take(j + 1))) * 0x7fff_ffff);
        }
        lemma_first_match_prefix(t, point, total, acc2, k - 1);
        assert(t[k - 1] == bs[k]);
    }
}

/// The variant `fractional` picks is that of the first bucket whose
/// cumulative share of the total weight exceeds the subject's share
/// `point / i32::MAX`: bucket `k` is chosen when
/// `point / i32::MAX < (w0 + ... + wk) / total` and for no `j < k` does
/// `point / i32::MAX < (w0 + ... + wj) / total` hold.
pub proof fn law_fractional_first_share_above_point(args: Seq<Json>, data: Json, k: int)
    requires
        args.len() > 0,
        wrapped_total(buckets_of(fractional_split(args, data).1)) > 0,
        0 <= k < buckets_of(fractional_split(args, data).1).len(),
        point_of(murmur3_x86_32(vstd::utf8::encode_utf8(fractional_split(args, data).0), 0))
            * wrapped_total(buckets_of(fractional_split(args, data).1)) < weight_sum(
            buckets_of(fractional_split(args, data).1).take(k + 1),
        ) * 0x7fff_ffff,
        forall|j: int|
            1 <= j <= k ==> point_of(murmur3_x86_32(vstd::utf8::encode_utf8(fractional_split(args, data).0), 0))
                * wrapped_total(buckets_of(fractional_split(args, data).1)) >= weight_sum(
                #[trigger] buckets_of(fractional_split(args, data).1).take(j),
            ) * 0x7fff_ffff,
    ensures
        fractional_result(args, data) == Json::Str(buckets_of(fractional_split(args, data).1)[k].0),
{
    let (key, dists) = fractional_split(args, data);
    let bs = buckets_of(dists);
    let point = point_of(murmur3_x86_32(vstd::utf8::encode_utf8(key), 0));
    let total = wrapped_total(bs) as int;
    assert(dists.len() > 0) by {
        if dists.len() == 0 {
            assert(buckets_of(dists).len() == 0);
        }
    }
    assert forall|j: int| 1 <= j <= k implies point * total >= (0 + weight_sum(#[trigger] bs.take(j))) * 0x7fff_ffff by {
        assert(point * total >= weight_sum(bs.take(j)) * 0x7fff_ffff);
    }
    lemma_first_match_prefix(bs, point, total, 0, k);
}

/// The choice depends on the weights only through their ratios: scaling
/// every weight, the running sum and the total by the same positive factor
/// leaves the chosen bucket unchanged.
pub proof fn law_fractional_scale_invariant(
    bs: Seq<(Seq<char>, i32)>,
    scaled: Seq<(Seq<char>, i32)>,
    c: int,
    point: int,
    total: int,
    acc: int,
)
    requires
        c > 0,
        scaled.len() == bs.len(),
        forall|i: int| 0 <= i < bs.len() ==> #[trigger] scaled[i].0 == bs[i].0 && scaled[i].1 == c * bs[i].1,
    ensures
        first_match(scaled, point, total * c, acc * c) == first_match(bs, point, total, acc),
    decreases bs.len(),
{
    if bs.len() > 0 {
        let acc2 = acc + bs[0].1;
        assert(acc * c + scaled[0].1 == acc2 * c) by (nonlinear_arith)
            requires
                scaled[0].1 == c * bs[0].1,
                acc2 == acc + bs[0].1,
        ;
        assert((point * (total * c) < (acc2 * c) * 0x7fff_ffff) == (point * total < acc2 * 0x7fff_ffff))
            by (nonlinear_arith)
            requires
                c > 0,
        ;
        assert forall|i: int| 0 <= i < bs.drop_first().len() implies #[trigger] scaled.drop_first()[i].0
            == bs.drop_first()[i].0 && scaled.drop_first()[i].1 == c * bs.drop_first()[i].1 by {
            assert(scaled[i + 1].0 == bs[i + 1].0);
        }
        law_fractional_scale_invariant(bs.drop_first(), scaled.drop_first(), c, point, total, acc2);
    }
}

/// The unsigned search picks bucket `k` when `k` is the first bucket whose
/// cumulative weight, counted from `acc`, puts the hash's share below it.
proof fn lemma_unsigned_first_match_prefix(bs: Seq<(Seq<char>, i32)>, hash: int, total: int, acc: int, k: int)
    requires
        0 <= k < bs.len(),
        total > 0,
        hash * total < (acc + weight_sum(bs.take(k + 1))) * 0xffff_ffff,
        forall|j: int| 1 <= j <= k ==> hash * total >= (acc + weight_sum(#[trigger] bs.take(j))) * 0xffff_ffff,
    ensures
        unsigned_first_match(bs, hash, total, acc) == Some(bs[k].0),
    decreases k,
{
    lemma_prefix_sum_step(bs, 1);
    assert(bs.drop_first().take(0) =~= Seq::<(Seq<char>, i32)>::empty());
    if k > 0 {
        assert(hash * total >= (acc + weight_sum(bs.take(1))) * 0xffff_ffff);
        let t = bs.drop_first();
        let acc2 = acc + bs[0].1;
        lemma_prefix_sum_step(bs, k + 1);
        assert forall|j: int| 1 <= j <= k - 1 implies hash * total >= (acc2 + weight_sum(#[trigger] t.take(j)))
            * 0xffff_ffff by {
            lemma_prefix_sum_step(bs, j + 1);
            assert(hash * total >= (acc + weight_sum(bs.take(j + 1))) * 0xffff_ffff);
        }
        lemma_unsigned_first_match_prefix(t, hash, total, acc2, k - 1);
        assert(t[k - 1] == bs[k]);
    }
}

/// With a positive total weight, the single-list form of `fractional`
/// picks the first bucket whose cumulative share of the total exceeds the
/// hash's share `hash / u32::MAX`.
pub proof fn law_fractional_fn_first_share_above_hash(args: Seq<Json>, data: Json, k: int)
    requires
        args.len() > 0,
        wrapped_total(pair_buckets_of(fractional_split(args, data).1)) > 0,
        0 <= k < pair_buckets_of(fractional_split(args, data).1).len(),
        murmur3_x86_32(vstd::utf8::encode_utf8(fractional_split(args, data).0), 0) * wrapped_total(
            pair_buckets_of(fractional_split(args, data).1),
        ) < weight_sum(pair_buckets_of(fractional_split(args, data).1).take(k + 1)) * 0xffff_ffff,
        forall|j: int|
            1 <= j <= k ==> murmur3_x86_32(vstd::utf8::encode_utf8(fractional_split(args, data).0), 0)
                * wrapped_total(pair_buckets_of(fractional_split(args, data).1)) >= weight_sum(
                #[trigger] pair_buckets_of(fractional_split(args, data).1).take(j),
            ) * 0xffff_ffff,
    ensures
        fractional_fn_result(args, data) == Json::Str(pair_buckets_of(fractional_split(args, data).1)[k].0),
{
    let (key, dists) = fractional_split(args, data);
    let bs = pair_buckets_of(dists);
    let hash = murmur3_x86_32(vstd::utf8::encode_utf8(key), 0) as int;
    let total = wrapped_total(bs) as int;
    assert(dists.len() > 0) by {
        if dists.len() == 0 {
            assert(pair_buckets_of(dists).len() == 0);
        }
    }
    assert forall|j: int| 1 <= j <= k implies hash * total >= (0 + weight_sum(#[trigger] bs.take(j))) * 0xffff_ffff by {
        assert(hash * total >= weight_sum(bs.take(j)) * 0xffff_ffff);
    }
    lemma_unsigned_first_match_prefix(bs, hash, total, 0, k);
}

/// Positive weights have a non-negative sum.
proof fn lemma_weight_sum_nonneg(bs: Seq<(Seq<char>, i32)>)
    requires
        forall|k: int| 0 <= k < bs.len() ==> #[trigger] bs[k].1 > 0,
    ensures
        weight_sum(bs) >= 0,
    decreases bs.len(),
{
    if bs.len() > 0 {
        assert forall|k: int| 0 <= k < bs.drop_first().len() implies #[trigger] bs.drop_first()[k].1 > 0 by {
            assert(bs.drop_first()[k] == bs[k + 1]);
        }
        assert(bs[0].1 > 0);
        lemma_weight_sum_nonneg(bs.drop_first());
    }
}

/// The bucket that one entry of the single-argument-list form defines: an
/// array of at least two items, the variant's name (a non-string names the
/// empty variant) and its integer weight (truncated to 32 bits; weight 1
/// when not an integer).
pub open spec fn pair_bucket_of(d: Json) -> Option<(Seq<char>, i32)> {
    match d {
        Json::Array(items) => if items.len() >= 2 {
            let variant = str_or_empty(Some(items[0]));
            let weight: i32 = if items[1] is Int {
                items[1]->Int_0 as i32
            } else {
                1i32
            };
            Some((variant, weight))
        } else {
            None
        },
        _ => None,
    }
}

/// The buckets of all entries with at least two items, in order.
pub open spec fn pair_buckets_of(dists: Seq<Json>) -> Seq<(Seq<char>, i32)>
    decreases dists.len(),
{
    if dists.len() == 0 {
        Seq::empty()
    } else {
        let rest = pair_buckets_of(dists.drop_last());
        match pair_bucket_of(dists.last()) {
            Some(b) => rest.push(b),
            None => rest,
        }
    }
}

/// Whether the share `hash / u32::MAX` lies below the cumulative share
/// `acc / total` (with `total` not zero).
pub open spec fn unsigned_share_below(hash: int, total: int, acc: int) -> bool {
    if total > 0 {
        hash * total < acc * 0xffff_ffff
    } else {
        hash * total > acc * 0xffff_ffff
    }
}

/// The variant of the first bucket whose cumulative share, counted from
/// `acc`, lies above the unsigned share of the hash.
pub open spec fn unsigned_first_match(bs: Seq<(Seq<char>, i32)>, hash: int, total: int, acc: int) -> Option<Seq<char>>
    decreases bs.len(),
{
    if bs.len() == 0 {
        None
    } else {
        let acc2 = acc + bs[0].1;
        if unsigned_share_below(hash, total, acc2) {
            Some(bs[0].0)
        } else {
            unsigned_first_match(bs.drop_first(), hash, total, acc2)
        }
    }
}

/// The variant chosen by the single-argument-list form of `fractional`.
/// With a total weight of zero every cumulative share is infinite or
/// undefined: the first bucket is chosen when its own weight is positive,
/// and none otherwise.
pub open spec fn unsigned_choice(bs: Seq<(Seq<char>, i32)>, hash: int) -> Option<Seq<char>> {
    let total = wrapped_total(bs);
    if total == 0 {
        if bs.len() > 0 && bs[0].1 > 0 {
            Some(bs[0].0)
        } else {
            None
        }
    } else {
        unsigned_first_match(bs, hash, total as int, 0)
    }
}

/// What `fractional_fn` yields for its evaluated arguments and the data.
pub open spec fn fractional_fn_result(args: Seq<Json>, data: Json) -> Json {
    if args.len() == 0 {
        Json::Null
    } else {
        let (key, dists) = fractional_split(args, data);
        if dists.len() == 0 {
            Json::Null
        } else {
            let hash = murmur3_x86_32(vstd::utf8::encode_utf8(key), 0);
            match unsigned_choice(pair_buckets_of(dists), hash as int) {
                Some(v) => Json::Str(v),
                None => Json::Null,
            }
        }
    }
}

/// The bucket of one entry of the single-argument-list form.
fn pair_bucket_from(d: &JsonValue) -> (r: Option<(String, i32)>)
    ensures
        match pair_bucket_of(d@) {
            Some(b) => r matches Some(x) && x.0@ == b.0 && x.1 == b.1,
            None => r is None,
        },
{
    proof {
        lemma_view_parts(d);
    }
    match d {
        JsonValue::Array(items) => {
            if items.len() < 2 {
                return None;
            }
            let variant = match items[0].as_str() {
                Some(s) => s.to_string(),
                None => String::new(),
            };
            proof {
                lemma_view_parts(&items[1]);
            }
            let weight: i32 = match &items[1] {
                JsonValue::Int(i) => *i as i32,
                _ => 1,
            };
            Some((variant, weight))
        },
        _ => None,
    }
}

/// One more entry extends the pair buckets by that entry's bucket, if any.
proof fn lemma_pair_buckets_step(before: Seq<Json>, d: Json)
    ensures
        pair_buckets_of(before.push(d)) == match pair_bucket_of(d) {
            Some(b) => pair_buckets_of(before).push(b),
            None => pair_buckets_of(before),
        },
        pair_bucket_of(d) matches Some(b) ==> wrapped_total(pair_buckets_of(before).push(b))
            == wrapped_total(pair_buckets_of(before)).wrapping_add(b.1),
{
    assert(before.push(d).drop_last() =~= before);
    match pair_bucket_of(d) {
        Some(b) => {
            assert(pair_buckets_of(before).push(b).drop_last() =~= pair_buckets_of(before));
        },
        None => {},
    }
}

/// The pair buckets of `args[start..]` and their wrapped total weight.
fn collect_pair_buckets(args: &[JsonValue], start: usize) -> (r: (Vec<(String, i32)>, i32))
    requires
        start <= args.len(),
    ensures
        r.0@.len() == pair_buckets_of(items_model(args@).subrange(start as int, args@.len() as int)).len(),
        forall|k: int|
            #![trigger r.0@[k]]
            0 <= k < r.0@.len() ==> r.0@[k].0@ == pair_buckets_of(
                items_model(args@).subrange(start as int, args@.len() as int),
            )[k].0 && r.0@[k].1 == pair_buckets_of(
                items_model(args@).subrange(start as int, args@.len() as int),
            )[k].1,
        r.1 == wrapped_total(pair_buckets_of(items_model(args@).subrange(start as int, args@.len() as int))),
{
    let ghost m = items_model(args@);
    proof {
        lemma_items_model(args@);
    }
    let mut buckets: Vec<(String, i32)> = Vec::new();
    let mut total: i32 = 0;
    let mut i: usize = start;
    assert(m.subrange(start as int, start as int) =~= Seq::<Json>::empty());
    while i < args.len()
        invariant
            start <= i <= args.len(),
            m == items_model(args@),
            m.len() == args.len(),
            forall|k: int| 0 <= k < args.len() ==> #[trigger] m[k] == args@[k]@,
            buckets@.len() == pair_buckets_of(m.subrange(start as int, i as int)).len(),
            forall|k: int|
                #![trigger buckets@[k]]
                0 <= k < buckets@.len() ==> buckets@[k].0@ == pair_buckets_of(
                    m.subrange(start as int, i as int),
                )[k].0 && buckets@[k].1 == pair_buckets_of(m.subrange(start as int, i as int))[k].1,
            total == wrapped_total(pair_buckets_of(m.subrange(start as int, i as int))),
        decreases args.len() - i,
    {
        let ghost before = m.subrange(start as int, i as int);
        assert(m.subrange(start as int, i + 1) =~= before.push(args@[i as int]@));
        proof {
            lemma_pair_buckets_step(before, args@[i as int]@);
        }
        match pair_bucket_from(&args[i]) {
            Some(b) => {
                total = total.wrapping_add(b.1);
                buckets.push(b);
            },
            None => {},
        }
        i = i + 1;
    }
    (buckets, total)
}

/// The variant of the first bucket whose cumulative share lies above the
/// unsigned share of `hash`, for a total weight that is not zero.
fn pick_unsigned(
    buckets: &Vec<(String, i32)>,
    Ghost(bs): Ghost<Seq<(Seq<char>, i32)>>,
    hash: u32,
    total: i32,
) -> (r: Option<String>)
    requires
        buckets@.len() == bs.len(),
        forall|k: int|
            #![trigger buckets@[k]]
            0 <= k < buckets@.len() ==> buckets@[k].0@ == bs[k].0 && buckets@[k].1 == bs[k].1,
        total != 0,
    ensures
        match unsigned_first_match(bs, hash as int, total as int, 0) {
            Some(v) => r matches Some(s) && s@ == v,
            None => r is None,
        },
{
    let mut acc: i128 = 0;
    let mut j: usize = 0;
    assert(bs.subrange(0, bs.len() as int) =~= bs);
    assert(-0x8000_0000 * 0xffff_ffff <= (hash as int) * (total as int) <= 0xffff_ffff * 0x7fff_ffff)
        by (nonlinear_arith)
        requires
            -0x8000_0000 <= total <= 0x7fff_ffff,
            0 <= hash <= 0xffff_ffff,
    ;
    let lhs: i128 = (hash as i128) * (total as i128);
    while j < buckets.len()
        invariant
            j <= buckets.len(),
            buckets@.len() == bs.len(),
            forall|k: int|
                #![trigger buckets@[k]]
                0 <= k < buckets@.len() ==> buckets@[k].0@ == bs[k].0 && buckets@[k].1 == bs[k].1,
            total != 0,
            lhs == (hash as int) * (total as int),
            -(j as int) * 0x8000_0000 <= acc <= (j as int) * 0x8000_0000,
            unsigned_first_match(bs, hash as int, total as int, 0) == unsigned_first_match(
                bs.subrange(j as int, bs.len() as int),
                hash as int,
                total as int,
                acc as int,
            ),
        decreases buckets.len() - j,
    {
        let ghost rest = bs.subrange(j as int, bs.len() as int);
        assert(rest[0] == bs[j as int]);
        assert(rest.drop_first() =~= bs.subrange(j + 1, bs.len() as int));
        let w = buckets[j].1;
        assert(j < 0x1_0000_0000_0000_0000) by {
            assert(buckets.len() <= usize::MAX);
        }
        assert(-(j as int + 1) * 0x8000_0000 <= acc + w <= (j as int + 1) * 0x8000_0000)
            by (nonlinear_arith)
            requires
                -(j as int) * 0x8000_0000 <= acc <= (j as int) * 0x8000_0000,
                -0x8000_0000 <= w < 0x8000_0000,
        ;
        assert((j as int + 1) * 0x8000_0000 <= 0x1_0000_0000_0000_0000 * 0x8000_0000)
            by (nonlinear_arith)
            requires
                j < 0x1_0000_0000_0000_0000,
        ;
        let acc2: i128 = acc + w as i128;
        assert(-0x1_0000_0000_0000_0000 * 0x8000_0000 * 0xffff_ffff <= acc2 * 0xffff_ffff
            <= 0x1_0000_0000_0000_0000 * 0x8000_0000 * 0xffff_ffff) by (nonlinear_arith)
            requires
                -0x1_0000_0000_0000_0000 * 0x8000_0000 <= acc2 <= 0x1_0000_0000_0000_0000
                    * 0x8000_0000,
        ;
        let rhs: i128 = acc2 * 0xffff_ffff;
        let below: bool = if total > 0 {
            lhs < rhs
        } else {
            lhs > rhs
        };
        if below {
            return Some(buckets[j].0.clone());
        }
        acc = acc2;
        j = j + 1;
    }
    None
}

/// The `fractional` operator in its single-argument-list form: the subject's
/// share is its unsigned 32-bit MurmurHash3 over `u32::MAX`, and every
/// bucket entry needs a variant and a weight. The result is always `Ok`.
pub fn fractional_fn(args: &[JsonValue], data: &JsonValue) -> (r: Result<JsonValue, String>)
    ensures
        r matches Ok(v) && v@ == fractional_fn_result(items_model(args@), data@),
{
    let ghost m = items_model(args@);
    proof {
        lemma_items_model(args@);
    }
    if args.len() == 0 {
        return Ok(JsonValue::Null);
    }
    let (key, start): (String, usize) = match args[0].as_str() {
        Some(s) => (s.to_string(), 1),
        None => (context_key(data), 0),
    };
    let ghost dists = m.subrange(start as int, m.len() as int);
    assert(key@ == fractional_split(m, data@).0);
    assert(dists =~= fractional_split(m, data@).1);
    if start == args.len() {
        return Ok(JsonValue::Null);
    }
    let (buckets, total) = collect_pair_buckets(args, start);
    let (hash, _point) = bucket_for(key.as_str());
    let choice = if total == 0 {
        if buckets.len() > 0 && buckets[0].1 > 0 {
            Some(buckets[0].0.clone())
        } else {
            None
        }
    } else {
        pick_unsigned(&buckets, Ghost(pair_buckets_of(dists)), hash, total)
    };
    match choice {
        Some(v) => Ok(JsonValue::Str(v)),
        None => Ok(JsonValue::Null),
    }
}

} // verus!
