//! A small JSON document model.
//!
//! Backtraces, display configuration blobs and pass-through keys of the
//! input arrive as arbitrary JSON. The analyzer holds such values in
//! [`JsonValue`], whose mathematical view is [`JsonVal`]: numbers keep
//! their decimal lexeme, objects keep their key order.

use vstd::prelude::*;
use vstd::string::{StrSliceExecFns, StringExecFns};
use crate::strutil::str_eq;

verus! {

broadcast use vstd::seq::group_seq_axioms, vstd::std_specs::vec::group_vec_axioms;

/// An arbitrary JSON value. Numbers are kept as their lexeme so that a
/// document passes through the analyzer unchanged.
#[derive(Debug)]
pub enum JsonValue {
    Null,
    Bool(bool),
    Num(String),
    Text(String),
    Arr(Vec<JsonValue>),
    Obj(Vec<(String, JsonValue)>),
}

/// The mathematical view of a [`JsonValue`].
#[verifier::ext_equal]
pub enum JsonVal {
    Null,
    Bool(bool),
    Num(Seq<char>),
    Text(Seq<char>),
    Arr(Seq<JsonVal>),
    Obj(Seq<(Seq<char>, JsonVal)>),
}

impl View for JsonValue {
    type V = JsonVal;

    open spec fn view(&self) -> JsonVal
        decreases self,
    {
        match self {
            JsonValue::Null => JsonVal::Null,
            JsonValue::Bool(b) => JsonVal::Bool(*b),
            JsonValue::Num(s) => JsonVal::Num(s@),
            JsonValue::Text(s) => JsonVal::Text(s@),
            JsonValue::Arr(items) => JsonVal::Arr(arr_view(items@)),
            JsonValue::Obj(kvs) => JsonVal::Obj(pairs_view(kvs@)),
        }
    }
}

/// Element-wise view of a JSON array's contents.
pub open spec fn arr_view(items: Seq<JsonValue>) -> Seq<JsonVal>
    decreases items,
    via arr_view_decreases
{
    Seq::new(
        items.len(),
        |i: int|
            if 0 <= i < items.len() {
                items[i]@
            } else {
                JsonVal::Null
            },
    )
}

#[via_fn]
proof fn arr_view_decreases(items: Seq<JsonValue>) {
    broadcast use vstd::seq::axiom_seq_index_decreases;

}

/// Element-wise view of a JSON object's key/value pairs.
pub open spec fn pairs_view(kvs: Seq<(String, JsonValue)>) -> Seq<(Seq<char>, JsonVal)>
    decreases kvs,
    via pairs_view_decreases
{
    Seq::new(
        kvs.len(),
        |i: int|
            if 0 <= i < kvs.len() {
                (kvs[i].0@, kvs[i].1@)
            } else {
                (Seq::empty(), JsonVal::Null)
            },
    )
}

#[via_fn]
proof fn pairs_view_decreases(kvs: Seq<(String, JsonValue)>) {
    broadcast use vstd::seq::axiom_seq_index_decreases;

}

/// First value bound to `key`, scanning pairs from the front.
pub open spec fn obj_lookup(kvs: Seq<(Seq<char>, JsonVal)>, key: Seq<char>) -> Option<JsonVal>
    decreases kvs.len(),
{
    if kvs.len() == 0 {
        None
    } else if kvs.first().0 == key {
        Some(kvs.first().1)
    } else {
        obj_lookup(kvs.drop_first(), key)
    }
}

/// `obj_lookup` succeeds exactly when some binding carries `key`.
pub proof fn lemma_obj_lookup_exists(kvs: Seq<(Seq<char>, JsonVal)>, key: Seq<char>)
    ensures
        (obj_lookup(kvs, key) is Some) <==> exists|p: int|
            0 <= p < kvs.len() && (#[trigger] kvs[p]).0 == key,
    decreases kvs.len(),
{
    if kvs.len() > 0 {
        lemma_obj_lookup_exists(kvs.drop_first(), key);
        if kvs.first().0 == key {
            assert(kvs[0].0 == key);
        } else {
            if obj_lookup(kvs, key) is Some {
                let p0 = choose|p: int|
                    0 <= p < kvs.drop_first().len() && (#[trigger] kvs.drop_first()[p]).0 == key;
                assert(kvs.drop_first()[p0] == kvs[p0 + 1]);
                assert(kvs[p0 + 1].0 == key);
            } else {
                assert forall|p: int| 0 <= p < kvs.len() implies (#[trigger] kvs[p]).0 != key by {
                    if p > 0 {
                        assert(kvs.drop_first()[p - 1] == kvs[p]);
                    }
                }
            }
        }
    }
}

/// `obj_lookup` misses when no binding carries `key`.
pub proof fn lemma_obj_lookup_none(kvs: Seq<(Seq<char>, JsonVal)>, key: Seq<char>)
    requires
        forall|p: int| 0 <= p < kvs.len() ==> (#[trigger] kvs[p]).0 != key,
    ensures
        obj_lookup(kvs, key) is None,
{
    lemma_obj_lookup_exists(kvs, key);
}

/// `obj_lookup` returns the value at the first binding of `key`.
pub proof fn lemma_obj_lookup_first(kvs: Seq<(Seq<char>, JsonVal)>, key: Seq<char>, p: int)
    requires
        0 <= p < kvs.len(),
        kvs[p].0 == key,
        forall|q: int| 0 <= q < p ==> (#[trigger] kvs[q]).0 != key,
    ensures
        obj_lookup(kvs, key) == Some(kvs[p].1),
    decreases p,
{
    if p == 0 {
        assert(kvs.first().0 == key);
    } else {
        assert(kvs.first().0 != key);
        assert forall|q: int| 0 <= q < p - 1 implies (#[trigger] kvs.drop_first()[q]).0 != key by {
            assert(kvs.drop_first()[q] == kvs[q + 1]);
        }
        assert(kvs.drop_first()[p - 1] == kvs[p]);
        lemma_obj_lookup_first(kvs.drop_first(), key, p - 1);
    }
}

/// Looking a key up in a concatenation tries the left part first.
pub proof fn lemma_obj_lookup_concat(s1: Seq<(Seq<char>, JsonVal)>, s2: Seq<(Seq<char>, JsonVal)>)
    ensures
        forall|key: Seq<char>|
            #[trigger] obj_lookup(s1 + s2, key) == (if obj_lookup(s1, key) is Some {
                obj_lookup(s1, key)
            } else {
                obj_lookup(s2, key)
            }),
    decreases s1.len(),
{
    if s1.len() == 0 {
        assert(s1 + s2 =~= s2);
    } else {
        lemma_obj_lookup_concat(s1.drop_first(), s2);
        assert forall|key: Seq<char>|
            #[trigger] obj_lookup(s1 + s2, key) == (if obj_lookup(s1, key) is Some {
                obj_lookup(s1, key)
            } else {
                obj_lookup(s2, key)
            }) by {
            assert((s1 + s2).len() > 0);
            assert((s1 + s2).first() == s1.first());
            assert((s1 + s2).drop_first() =~= s1.drop_first() + s2);
            if s1.first().0 != key {
                assert(obj_lookup(s1.drop_first() + s2, key) == (if obj_lookup(
                    s1.drop_first(),
                    key,
                ) is Some {
                    obj_lookup(s1.drop_first(), key)
                } else {
                    obj_lookup(s2, key)
                }));
            }
        }
    }
}

/// Member access: `key`'s value if `v` is an object that has it.
pub open spec fn json_get(v: JsonVal, key: Seq<char>) -> Option<JsonVal> {
    match v {
        JsonVal::Obj(kvs) => obj_lookup(kvs, key),
        _ => None,
    }
}

/// The character content if `v` is a JSON string.
pub open spec fn json_as_text(v: JsonVal) -> Option<Seq<char>> {
    match v {
        JsonVal::Text(s) => Some(s),
        _ => None,
    }
}

/// The element sequence if `v` is a JSON array.
pub open spec fn json_as_arr(v: JsonVal) -> Option<Seq<JsonVal>> {
    match v {
        JsonVal::Arr(items) => Some(items),
        _ => None,
    }
}

/// Numeric value of a digit sequence, most significant digit first.
pub open spec fn digits_val(s: Seq<char>) -> int
    decreases s.len(),
{
    if s.len() == 0 {
        0
    } else {
        digits_val(s.drop_last()) * 10 + (s.last() as int - '0' as int)
    }
}

/// Whether every character of `s` is a decimal digit.
pub open spec fn all_digits(s: Seq<char>) -> bool {
    forall|i: int| 0 <= i < s.len() ==> '0' <= #[trigger] s[i] && s[i] <= '9'
}

/// The unsigned value of `v`, if `v` is a number whose lexeme is a plain
/// decimal integer that fits in a `u64`.
pub open spec fn json_as_u64(v: JsonVal) -> Option<u64> {
    match v {
        JsonVal::Num(s) => {
            if s.len() > 0 && all_digits(s) && digits_val(s) <= u64::MAX {
                Some(digits_val(s) as u64)
            } else {
                None
            }
        },
        _ => None,
    }
}

impl JsonValue {
    /// Member access on an object; `None` on any other value.
    pub fn get<'a>(&'a self, key: &str) -> (r: Option<&'a JsonValue>)
        ensures
            match r {
                Some(v) => json_get(self@, key@) == Some(v@),
                None => json_get(self@, key@) is None,
            },
    {
        match self {
            JsonValue::Obj(kvs) => {
                let ghost kvv = pairs_view(kvs@);
                let n = kvs.len();
                let mut i: usize = 0;
                proof {
                    assert(kvv.skip(0) =~= kvv);
                }
                while i < n
                    invariant
                        n == kvs@.len(),
                        i <= n,
                        kvv == pairs_view(kvs@),
                        self@ == JsonVal::Obj(kvv),
                        obj_lookup(kvv, key@) == obj_lookup(kvv.skip(i as int), key@),
                    decreases n - i,
                {
                    if str_eq(kvs[i].0.as_str(), key) {
                        assert(obj_lookup(kvv.skip(i as int), key@) == Some(kvv[i as int].1));
                        return Some(&kvs[i].1);
                    }
                    proof {
                        assert(kvv.skip(i as int).drop_first() =~= kvv.skip(i + 1));
                        assert(kvv.skip(i as int).first() == kvv[i as int]);
                    }
                    i = i + 1;
                }
                assert(obj_lookup(kvv.skip(n as int), key@) is None);
                None
            },
            _ => None,
        }
    }

    /// The borrowed string content, if this is a JSON string.
    pub fn as_str<'a>(&'a self) -> (r: Option<&'a str>)
        ensures
            match r {
                Some(s) => json_as_text(self@) == Some(s@),
                None => json_as_text(self@) is None,
            },
    {
        match self {
            JsonValue::Text(s) => Some(s.as_str()),
            _ => None,
        }
    }

    /// The borrowed element vector, if this is a JSON array.
    pub fn as_array<'a>(&'a self) -> (r: Option<&'a Vec<JsonValue>>)
        ensures
            match r {
                Some(items) => json_as_arr(self@) == Some(arr_view(items@)),
                None => json_as_arr(self@) is None,
            },
    {
        match self {
            JsonValue::Arr(items) => Some(items),
            _ => None,
        }
    }

    /// A fresh value with the same view.
    pub fn dup(&self) -> (r: JsonValue)
        ensures
            r@ == self@,
        decreases self,
    {
        match self {
            JsonValue::Null => JsonValue::Null,
            JsonValue::Bool(b) => JsonValue::Bool(*b),
            JsonValue::Num(s) => JsonValue::Num(s.clone()),
            JsonValue::Text(s) => JsonValue::Text(s.clone()),
            JsonValue::Arr(items) => {
                let n = items.len();
                let mut out: Vec<JsonValue> = Vec::new();
                let mut i: usize = 0;
                while i < n
                    invariant
                        i <= n,
                        n == items@.len(),
                        out@.len() == i,
                        forall|k: int| 0 <= k < i ==> (#[trigger] out@[k])@ == items@[k]@,
                        *self == JsonValue::Arr(*items),
                    decreases n - i,
                {
                    proof {
                        assert(decreases_to!(*self => items@[i as int])) by {
                            assert(decreases_to!(*self => self->Arr_0));
                            vstd::std_specs::vec::axiom_vec_index_decreases(*items, i as int);
                        }
                    }
                    out.push(items[i].dup());
                    i = i + 1;
                }
                let r = JsonValue::Arr(out);
                assert(arr_view(r->Arr_0@) =~= arr_view(items@));
                r
            },
            JsonValue::Obj(kvs) => {
                let n = kvs.len();
                let mut out: Vec<(String, JsonValue)> = Vec::new();
                let mut i: usize = 0;
                while i < n
                    invariant
                        i <= n,
                        n == kvs@.len(),
                        out@.len() == i,
                        forall|k: int|
                            0 <= k < i ==> (#[trigger] out@[k]).0@ == kvs@[k].0@ && out@[k].1@
                                == kvs@[k].1@,
                        *self == JsonValue::Obj(*kvs),
                    decreases n - i,
                {
                    proof {
                        assert(decreases_to!(*self => kvs@[i as int].1)) by {
                            assert(decreases_to!(*self => self->Obj_0));
                            vstd::std_specs::vec::axiom_vec_index_decreases(*kvs, i as int);
                            assert(decreases_to!(kvs@[i as int] => kvs@[i as int].1));
                        }
                    }
                    out.push((kvs[i].0.clone(), kvs[i].1.dup()));
                    i = i + 1;
                }
                let r = JsonValue::Obj(out);
                assert(pairs_view(r->Obj_0@) =~= pairs_view(kvs@));
                r
            },
        }
    }

    /// The value as an unsigned integer, per [`json_as_u64`].
    pub fn as_u64(&self) -> (r: Option<u64>)
        ensures
            r == json_as_u64(self@),
    {
        match self {
            JsonValue::Num(s) => parse_u64_digits(s.as_str()),
            _ => None,
        }
    }
}

/// Parse a plain decimal integer; `None` on any other lexeme or on overflow.
fn parse_u64_digits(s: &str) -> (r: Option<u64>)
    ensures
        r == (if s@.len() > 0 && all_digits(s@) && digits_val(s@) <= u64::MAX {
            Some(digits_val(s@) as u64)
        } else {
            None::<u64>
        }),
{
    let n = s.unicode_len();
    if n == 0 {
        return None;
    }
    let mut acc: u64 = 0;
    let mut i: usize = 0;
    while i < n
        invariant
            n == s@.len(),
            i <= n,
            all_digits(s@.subrange(0, i as int)),
            acc == digits_val(s@.subrange(0, i as int)),
        decreases n - i,
    {
        let c = s.get_char(i);
        if !('0' <= c && c <= '9') {
            assert(!all_digits(s@));
            return None;
        }
        let d: u64 = ((c as u8) - 48) as u64;
        let shifted = match acc.checked_mul(10) {
            Some(v) => v,
            None => {
                proof {
                    lemma_digits_val_nonneg(s@.subrange(0, i as int));
                    if all_digits(s@) {
                        lemma_digits_val_prefix_overflow(s@, i as int);
                    }
                }
                return None;
            },
        };
        let next = match shifted.checked_add(d) {
            Some(v) => v,
            None => {
                proof {
                    if all_digits(s@) {
                        lemma_digits_val_prefix_overflow(s@, i as int);
                    }
                }
                return None;
            },
        };
        assert(s@.subrange(0, i + 1).drop_last() =~= s@.subrange(0, i as int));
        assert(s@.subrange(0, i + 1).last() == s@[i as int]);
        acc = next;
        i = i + 1;
    }
    assert(s@.subrange(0, n as int) =~= s@);
    Some(acc)
}

/// The decimal digit character of `d` (for `d` below ten).
pub open spec fn dec_digit(d: nat) -> char {
    ((48 + d) as u8) as char
}

/// The decimal lexeme of `n`, most significant digit first.
pub open spec fn dec_seq(n: nat) -> Seq<char>
    decreases n,
{
    if n < 10 {
        seq![dec_digit(n)]
    } else {
        dec_seq(n / 10).push(dec_digit(n % 10))
    }
}

/// The decimal lexeme of `n` is a nonempty digit string denoting `n`.
pub proof fn lemma_dec_seq_val(n: nat)
    ensures
        dec_seq(n).len() >= 1,
        all_digits(dec_seq(n)),
        digits_val(dec_seq(n)) == n,
    decreases n,
{
    if n < 10 {
        let s = dec_seq(n);
        assert(s == seq![dec_digit(n)]);
        assert(s.len() == 1);
        assert(s.drop_last() =~= Seq::<char>::empty());
        assert(digits_val(s.drop_last()) == 0);
        assert(s.last() == dec_digit(n));
        assert('0' <= dec_digit(n) && dec_digit(n) <= '9');
        assert(dec_digit(n) as int - '0' as int == n);
        assert(digits_val(s) == digits_val(s.drop_last()) * 10 + (s.last() as int - '0' as int));
        assert(digits_val(s) == n);
    } else {
        lemma_dec_seq_val(n / 10);
        let s = dec_seq(n / 10).push(dec_digit(n % 10));
        assert(s.drop_last() =~= dec_seq(n / 10));
        assert(s.last() == dec_digit(n % 10));
        assert('0' <= dec_digit(n % 10) && dec_digit(n % 10) <= '9');
        assert(dec_digit(n % 10) as int - '0' as int == n % 10);
        assert forall|i: int| 0 <= i < s.len() implies '0' <= #[trigger] s[i] && s[i] <= '9' by {
            if i < s.len() - 1 {
                assert(s[i] == dec_seq(n / 10)[i]);
            }
        }
        assert(digits_val(s) == digits_val(dec_seq(n / 10)) * 10 + (n % 10));
        assert((n / 10) * 10 + n % 10 == n) by (nonlinear_arith);
    }
}

/// The decimal digit of `d` as a one-character string.
fn dec_digit_str(d: u64) -> (r: &'static str)
    requires
        d < 10,
    ensures
        r@ == seq![dec_digit(d as nat)],
{
    let r: &'static str = if d == 0 {
        "0"
    } else if d == 1 {
        "1"
    } else if d == 2 {
        "2"
    } else if d == 3 {
        "3"
    } else if d == 4 {
        "4"
    } else if d == 5 {
        "5"
    } else if d == 6 {
        "6"
    } else if d == 7 {
        "7"
    } else if d == 8 {
        "8"
    } else {
        "9"
    };
    proof {
        reveal_strlit("0");
        reveal_strlit("1");
        reveal_strlit("2");
        reveal_strlit("3");
        reveal_strlit("4");
        reveal_strlit("5");
        reveal_strlit("6");
        reveal_strlit("7");
        reveal_strlit("8");
        reveal_strlit("9");
        assert(r@ =~= seq![dec_digit(d as nat)]);
    }
    r
}

/// Render `n` as its decimal lexeme.
pub fn u64_to_dec(n: u64) -> (r: String)
    ensures
        r@ == dec_seq(n as nat),
    decreases n,
{
    if n < 10 {
        let r = dec_digit_str(n).to_owned();
        r
    } else {
        let mut s = u64_to_dec(n / 10);
        s.append(dec_digit_str(n % 10));
        proof {
            assert(dec_seq((n / 10) as nat) + seq![dec_digit((n % 10) as nat)] =~= dec_seq(
                (n / 10) as nat,
            ).push(dec_digit((n % 10) as nat)));
            assert((n as nat) / 10 == (n / 10) as nat);
            assert((n as nat) % 10 == (n % 10) as nat);
        }
        s
    }
}

/// A digit string's value is nonnegative.
proof fn lemma_digits_val_nonneg(s: Seq<char>)
    requires
        all_digits(s),
    ensures
        digits_val(s) >= 0,
    decreases s.len(),
{
    if s.len() > 0 {
        assert(all_digits(s.drop_last())) by {
            assert(forall|i: int|
                0 <= i < s.len() - 1 ==> s.drop_last()[i] == #[trigger] s[i]);
        }
        lemma_digits_val_nonneg(s.drop_last());
    }
}

/// If a digit prefix extended by one more digit already overflows a `u64`,
/// the value of the whole digit string overflows as well.
proof fn lemma_digits_val_prefix_overflow(s: Seq<char>, i: int)
    requires
        0 <= i < s.len(),
        all_digits(s),
        digits_val(s.subrange(0, i)) * 10 + (s[i] as int - '0' as int) > u64::MAX,
    ensures
        digits_val(s) > u64::MAX,
{
    lemma_digits_val_monotone(s, i + 1);
    assert(s.subrange(0, i + 1).drop_last() =~= s.subrange(0, i));
    assert(s.subrange(0, i + 1).last() == s[i]);
}

/// The value of a digit string is at least the value of any of its prefixes.
proof fn lemma_digits_val_monotone(s: Seq<char>, i: int)
    requires
        0 <= i <= s.len(),
        all_digits(s),
    ensures
        digits_val(s) >= digits_val(s.subrange(0, i)),
    decreases s.len() - i,
{
    if i == s.len() {
        assert(s.subrange(0, i) =~= s);
    } else {
        lemma_digits_val_monotone(s, i + 1);
        assert(s.subrange(0, i + 1).drop_last() =~= s.subrange(0, i));
        assert(all_digits(s.subrange(0, i))) by {
            assert(forall|k: int|
                0 <= k < i ==> s.subrange(0, i)[k] == #[trigger] s[k]);
        }
        lemma_digits_val_nonneg(s.subrange(0, i));
        assert(s.subrange(0, i + 1).last() == s[i]);
        assert(digits_val(s.subrange(0, i + 1)) >= digits_val(s.subrange(0, i)));
    }
}

} // verus!
