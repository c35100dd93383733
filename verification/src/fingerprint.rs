//! Cache keys: a BLAKE3 digest of the route namespace, the endpoint, the
//! optional cache scope and an unambiguous canonical encoding of the request.
//!
//! The canonical encoding tags every JSON value and length-prefixes every
//! variable-length part, so it is prefix-free: two encodings are equal exactly
//! when the values are the same (object members being in key order already).
use vstd::prelude::*;
use vstd::utf8::*;
use vstd::slice::slice_to_vec;
use crate::json::{JsonValue, JsonMember, canonical, members_sorted, members_map, chars_lt, lemma_members_map_sorted, lemma_chars_lt_asym, lemma_chars_lt_irrefl};

verus! {

broadcast use encode_utf8_decode_utf8;

/// The first `k` little-endian bytes of `n`.
pub open spec fn le_bytes(n: nat, k: nat) -> Seq<u8>
    decreases k,
{
    if k == 0 {
        Seq::empty()
    } else {
        seq![(n % 256) as u8] + le_bytes(n / 256, (k - 1) as nat)
    }
}

/// `(n as u64).to_le_bytes()`.
pub open spec fn le8(n: nat) -> Seq<u8> {
    le_bytes(n, 8)
}

pub open spec fn from_le(s: Seq<u8>) -> nat
    decreases s.len(),
{
    if s.len() == 0 {
        0
    } else {
        s[0] as nat + 256 * from_le(s.drop_first())
    }
}

pub open spec fn pow256(k: nat) -> nat
    decreases k,
{
    if k == 0 {
        1
    } else {
        256 * pow256((k - 1) as nat)
    }
}

pub proof fn lemma_le_bytes(n: nat, k: nat)
    requires
        n < pow256(k),
    ensures
        le_bytes(n, k).len() == k,
        from_le(le_bytes(n, k)) == n,
    decreases k,
{
    if k > 0 {
        let q = n / 256;
        assert(q < pow256((k - 1) as nat)) by (nonlinear_arith)
            requires
                n < 256 * pow256((k - 1) as nat),
                q == n / 256,
        ;
        lemma_le_bytes(q, (k - 1) as nat);
        let s = le_bytes(n, k);
        assert(s.drop_first() =~= le_bytes(q, (k - 1) as nat));
        assert(n == (n % 256) + 256 * q) by (nonlinear_arith)
            requires
                q == n / 256,
        ;
    }
}

pub open spec fn u64_limit() -> nat {
    pow256(8)
}

/// Distinct lengths below 2^64 have distinct 8-byte encodings.
pub proof fn lemma_le8_injective(a: nat, b: nat)
    requires
        a < u64_limit(),
        b < u64_limit(),
        le8(a) == le8(b),
    ensures
        a == b,
{
    lemma_le_bytes(a, 8);
    lemma_le_bytes(b, 8);
}

pub proof fn lemma_u64_limit()
    ensures
        u64_limit() == 0x1_0000_0000_0000_0000,
{
    reveal_with_fuel(pow256, 9);
}

/// UTF-8 bytes of a string.
pub open spec fn sbytes(s: Seq<char>) -> Seq<u8> {
    encode_utf8(s)
}

/// The canonical encoding of a JSON value: `n`; `b1`/`b0`; `d` or `s`
/// followed by the 8-byte length and the text; `a` followed by the count and
/// the items; `o` followed by the count and, per member in stored (key) order,
/// the key's length, the key and the value.
pub open spec fn enc(v: JsonValue) -> Seq<u8>
    decreases v,
{
    match v {
        JsonValue::Null => seq![110u8],
        JsonValue::Bool(b) => if b {
            seq![98u8, 49u8]
        } else {
            seq![98u8, 48u8]
        },
        JsonValue::Number(n) => seq![100u8] + le8(sbytes(n.text@).len()) + sbytes(n.text@),
        JsonValue::String(s) => seq![115u8] + le8(sbytes(s@).len()) + sbytes(s@),
        JsonValue::Array(items) => seq![97u8] + le8(items@.len()) + enc_list(items@),
        JsonValue::Object(ms) => seq![111u8] + le8(ms@.len()) + enc_members(ms@),
    }
}

pub open spec fn enc_list(s: Seq<JsonValue>) -> Seq<u8>
    decreases s,
{
    if s.len() == 0 {
        Seq::empty()
    } else {
        enc(s[0]) + enc_list(s.drop_first())
    }
}

pub open spec fn enc_members(s: Seq<JsonMember>) -> Seq<u8>
    decreases s,
{
    if s.len() == 0 {
        Seq::empty()
    } else {
        le8(sbytes(s[0].key@).len()) + sbytes(s[0].key@) + enc(s[0].value) + enc_members(
            s.drop_first(),
        )
    }
}

/// Structural sameness of two JSON values (strings compared by content).
pub open spec fn json_same(a: JsonValue, b: JsonValue) -> bool
    decreases a,
{
    match a {
        JsonValue::Null => b is Null,
        JsonValue::Bool(x) => b matches JsonValue::Bool(y) && x == y,
        JsonValue::Number(x) => b matches JsonValue::Number(y) && x.text@ == y.text@,
        JsonValue::String(x) => b matches JsonValue::String(y) && x@ == y@,
        JsonValue::Array(x) => b matches JsonValue::Array(y) && x@.len() == y@.len() && same_list(
            x@,
            y@,
        ),
        JsonValue::Object(x) => b matches JsonValue::Object(y) && x@.len() == y@.len()
            && same_members(x@, y@),
    }
}

pub open spec fn same_list(x: Seq<JsonValue>, y: Seq<JsonValue>) -> bool
    decreases x,
{
    if x.len() == 0 {
        true
    } else {
        y.len() > 0 && json_same(x[0], y[0]) && same_list(x.drop_first(), y.drop_first())
    }
}

pub open spec fn same_members(x: Seq<JsonMember>, y: Seq<JsonMember>) -> bool
    decreases x,
{
    if x.len() == 0 {
        true
    } else {
        y.len() > 0 && x[0].key@ == y[0].key@ && json_same(x[0].value, y[0].value)
            && same_members(x.drop_first(), y.drop_first())
    }
}

/// Every length in the value is below 2^64 (true of any value in memory).
pub open spec fn fits(v: JsonValue) -> bool
    decreases v,
{
    match v {
        JsonValue::Number(n) => sbytes(n.text@).len() < u64_limit(),
        JsonValue::String(s) => sbytes(s@).len() < u64_limit(),
        JsonValue::Array(items) => items@.len() < u64_limit() && fits_list(items@),
        JsonValue::Object(ms) => ms@.len() < u64_limit() && fits_members(ms@),
        _ => true,
    }
}

pub open spec fn fits_list(s: Seq<JsonValue>) -> bool
    decreases s,
{
    s.len() == 0 || (fits(s[0]) && fits_list(s.drop_first()))
}

pub open spec fn fits_members(s: Seq<JsonMember>) -> bool
    decreases s,
{
    s.len() == 0 || (sbytes(s[0].key@).len() < u64_limit() && fits(s[0].value) && fits_members(
        s.drop_first(),
    ))
}

proof fn lemma_split(a: Seq<u8>, b: Seq<u8>, c: Seq<u8>, d: Seq<u8>)
    requires
        a + b == c + d,
        a.len() == c.len(),
    ensures
        a == c,
        b == d,
{
    assert(a =~= (a + b).take(a.len() as int));
    assert(c =~= (c + d).take(c.len() as int));
    assert(b =~= (a + b).skip(a.len() as int));
    assert(d =~= (c + d).skip(c.len() as int));
}

/// Strips an 8-byte length and the `len` bytes it announces.
proof fn lemma_split_counted(
    l1: nat,
    x1: Seq<u8>,
    r1: Seq<u8>,
    l2: nat,
    x2: Seq<u8>,
    r2: Seq<u8>,
)
    requires
        le8(l1) + x1 + r1 == le8(l2) + x2 + r2,
        l1 < u64_limit(),
        l2 < u64_limit(),
    ensures
        l1 == l2,
        le8(l1) + x1 + r1 == le8(l1) + x2 + r2,
        x1 + r1 == x2 + r2,
{
    lemma_le_bytes(l1, 8);
    lemma_le_bytes(l2, 8);
    assert(le8(l1) + x1 + r1 =~= le8(l1) + (x1 + r1));
    assert(le8(l2) + x2 + r2 =~= le8(l2) + (x2 + r2));
    lemma_split(le8(l1), x1 + r1, le8(l2), x2 + r2);
    lemma_le8_injective(l1, l2);
}

pub open spec fn tag(v: JsonValue) -> u8 {
    match v {
        JsonValue::Null => 110u8,
        JsonValue::Bool(_) => 98u8,
        JsonValue::Number(_) => 100u8,
        JsonValue::String(_) => 115u8,
        JsonValue::Array(_) => 97u8,
        JsonValue::Object(_) => 111u8,
    }
}

proof fn lemma_enc_tag(v: JsonValue)
    ensures
        enc(v).len() >= 1,
        enc(v)[0] == tag(v),
        v matches JsonValue::Bool(x) ==> enc(v).len() == 2 && enc(v)[1] == (if x { 49u8 } else { 48u8 }),
        v is Null ==> enc(v).len() == 1,
{
}

proof fn lemma_counted_prefix(t: u8, x1: Seq<u8>, r1: Seq<u8>, x2: Seq<u8>, r2: Seq<u8>)
    requires
        seq![t] + le8(x1.len()) + x1 + r1 == seq![t] + le8(x2.len()) + x2 + r2,
        x1.len() < u64_limit(),
        x2.len() < u64_limit(),
    ensures
        x1 == x2,
        r1 == r2,
{
    assert(seq![t] + le8(x1.len()) + x1 + r1 =~= seq![t] + (le8(x1.len()) + x1 + r1));
    assert(seq![t] + le8(x2.len()) + x2 + r2 =~= seq![t] + (le8(x2.len()) + x2 + r2));
    lemma_split(seq![t], le8(x1.len()) + x1 + r1, seq![t], le8(x2.len()) + x2 + r2);
    lemma_split_counted(x1.len(), x1, r1, x2.len(), x2, r2);
    lemma_split(x1, r1, x2, r2);
}

proof fn lemma_counted_items(t: u8, n1: nat, x1: Seq<u8>, r1: Seq<u8>, n2: nat, x2: Seq<u8>, r2: Seq<u8>)
    requires
        seq![t] + le8(n1) + x1 + r1 == seq![t] + le8(n2) + x2 + r2,
        n1 < u64_limit(),
        n2 < u64_limit(),
    ensures
        n1 == n2,
        x1 + r1 == x2 + r2,
{
    assert(seq![t] + le8(n1) + x1 + r1 =~= seq![t] + (le8(n1) + x1 + r1));
    assert(seq![t] + le8(n2) + x2 + r2 =~= seq![t] + (le8(n2) + x2 + r2));
    lemma_split(seq![t], le8(n1) + x1 + r1, seq![t], le8(n2) + x2 + r2);
    lemma_split_counted(n1, x1, r1, n2, x2, r2);
}

/// The encoding is prefix-free: one encoding followed by anything equals
/// another followed by anything only if the values are the same and the
/// rests are equal.
pub proof fn lemma_enc_prefix_free(a: JsonValue, b: JsonValue, r1: Seq<u8>, r2: Seq<u8>)
    requires
        fits(a),
        fits(b),
        enc(a) + r1 == enc(b) + r2,
    ensures
        json_same(a, b),
        r1 == r2,
    decreases a,
{
    lemma_enc_tag(a);
    lemma_enc_tag(b);
    assert((enc(a) + r1)[0] == enc(a)[0]);
    assert((enc(b) + r2)[0] == enc(b)[0]);
    assert(tag(a) == tag(b));
    match a {
        JsonValue::Null => {
            assert(b is Null);
            lemma_split(enc(a), r1, enc(b), r2);
        },
        JsonValue::Bool(x) => {
            assert(b is Bool);
            assert((enc(a) + r1)[1] == enc(a)[1]);
            assert((enc(b) + r2)[1] == enc(b)[1]);
            lemma_split(enc(a), r1, enc(b), r2);
        },
        JsonValue::Number(x) => {
            assert(b is Number);
            let y = b->Number_0;
            lemma_counted_prefix(100u8, sbytes(x.text@), r1, sbytes(y.text@), r2);
            assert(decode_utf8(sbytes(x.text@)) == x.text@);
            assert(decode_utf8(sbytes(y.text@)) == y.text@);
        },
        JsonValue::String(x) => {
            assert(b is String);
            let y = b->String_0;
            lemma_counted_prefix(115u8, sbytes(x@), r1, sbytes(y@), r2);
            assert(decode_utf8(sbytes(x@)) == x@);
            assert(decode_utf8(sbytes(y@)) == y@);
        },
        JsonValue::Array(x) => {
            assert(b is Array);
            let y = b->Array_0;
            lemma_counted_items(97u8, x@.len(), enc_list(x@), r1, y@.len(), enc_list(y@), r2);
            lemma_enc_list_prefix_free(x@, y@, r1, r2);
        },
        JsonValue::Object(x) => {
            assert(b is Object);
            let y = b->Object_0;
            lemma_counted_items(111u8, x@.len(), enc_members(x@), r1, y@.len(), enc_members(y@), r2);
            lemma_enc_members_prefix_free(x@, y@, r1, r2);
        },
    }
}

pub proof fn lemma_enc_list_prefix_free(x: Seq<JsonValue>, y: Seq<JsonValue>, r1: Seq<u8>, r2: Seq<u8>)
    requires
        x.len() == y.len(),
        fits_list(x),
        fits_list(y),
        enc_list(x) + r1 == enc_list(y) + r2,
    ensures
        same_list(x, y),
        r1 == r2,
    decreases x,
{
    if x.len() > 0 {
        let t1 = enc_list(x.drop_first()) + r1;
        let t2 = enc_list(y.drop_first()) + r2;
        assert(enc_list(x) + r1 =~= enc(x[0]) + t1);
        assert(enc_list(y) + r2 =~= enc(y[0]) + t2);
        lemma_enc_prefix_free(x[0], y[0], t1, t2);
        lemma_enc_list_prefix_free(x.drop_first(), y.drop_first(), r1, r2);
    } else {
        assert(enc_list(x) + r1 =~= r1);
        assert(enc_list(y) + r2 =~= r2);
    }
}

pub proof fn lemma_enc_members_prefix_free(x: Seq<JsonMember>, y: Seq<JsonMember>, r1: Seq<u8>, r2: Seq<u8>)
    requires
        x.len() == y.len(),
        fits_members(x),
        fits_members(y),
        enc_members(x) + r1 == enc_members(y) + r2,
    ensures
        same_members(x, y),
        r1 == r2,
    decreases x,
{
    if x.len() > 0 {
        let k1 = sbytes(x[0].key@);
        let k2 = sbytes(y[0].key@);
        let t1 = enc(x[0].value) + (enc_members(x.drop_first()) + r1);
        let t2 = enc(y[0].value) + (enc_members(y.drop_first()) + r2);
        assert(enc_members(x) + r1 =~= le8(k1.len()) + k1 + t1);
        assert(enc_members(y) + r2 =~= le8(k2.len()) + k2 + t2);
        lemma_split_counted(k1.len(), k1, t1, k2.len(), k2, t2);
        lemma_split(k1, t1, k2, t2);
        assert(decode_utf8(k1) == x[0].key@);
        assert(decode_utf8(k2) == y[0].key@);
        lemma_enc_prefix_free(x[0].value, y[0].value, enc_members(x.drop_first()) + r1, enc_members(y.drop_first()) + r2);
        lemma_enc_members_prefix_free(x.drop_first(), y.drop_first(), r1, r2);
    } else {
        assert(enc_members(x) + r1 =~= r1);
        assert(enc_members(y) + r2 =~= r2);
    }
}

/// Canonical encodings are equal exactly when the values are the same.
pub proof fn lemma_enc_injective(a: JsonValue, b: JsonValue)
    requires
        fits(a),
        fits(b),
    ensures
        enc(a) == enc(b) <==> json_same(a, b),
{
    if enc(a) == enc(b) {
        assert(enc(a) + Seq::<u8>::empty() =~= enc(b) + Seq::<u8>::empty());
        lemma_enc_prefix_free(a, b, Seq::empty(), Seq::empty());
    }
    if json_same(a, b) {
        lemma_same_enc(a, b);
    }
}

pub proof fn lemma_same_enc(a: JsonValue, b: JsonValue)
    requires
        json_same(a, b),
    ensures
        enc(a) == enc(b),
    decreases a,
{
    match a {
        JsonValue::Array(x) => {
            if let JsonValue::Array(y) = b {
                lemma_same_list_enc(x@, y@);
            }
        },
        JsonValue::Object(x) => {
            if let JsonValue::Object(y) = b {
                lemma_same_members_enc(x@, y@);
            }
        },
        _ => {},
    }
}

pub proof fn lemma_same_list_enc(x: Seq<JsonValue>, y: Seq<JsonValue>)
    requires
        x.len() == y.len(),
        same_list(x, y),
    ensures
        enc_list(x) == enc_list(y),
    decreases x,
{
    if x.len() > 0 {
        lemma_same_enc(x[0], y[0]);
        lemma_same_list_enc(x.drop_first(), y.drop_first());
    }
}

pub proof fn lemma_same_members_enc(x: Seq<JsonMember>, y: Seq<JsonMember>)
    requires
        x.len() == y.len(),
        same_members(x, y),
    ensures
        enc_members(x) == enc_members(y),
    decreases x,
{
    if x.len() > 0 {
        lemma_same_enc(x[0].value, y[0].value);
        lemma_same_members_enc(x.drop_first(), y.drop_first());
    }
}

/// Two key-ordered member lists with the same key-to-value mapping agree
/// member by member.
pub proof fn lemma_sorted_members_determined(x: Seq<JsonMember>, y: Seq<JsonMember>)
    requires
        members_sorted(x),
        members_sorted(y),
        members_map(x) == members_map(y),
    ensures
        x.len() == y.len(),
        forall|i: int| 0 <= i < x.len() ==> x[i].key@ == y[i].key@ && x[i].value == y[i].value,
    decreases x.len() + y.len(),
{
    lemma_members_map_sorted(x);
    lemma_members_map_sorted(y);
    if x.len() == 0 || y.len() == 0 {
        if x.len() > 0 {
            assert(members_map(x).contains_key(x[0].key@));
        }
        if y.len() > 0 {
            assert(members_map(y).contains_key(y[0].key@));
        }
        return;
    }
    let kx = x.last().key@;
    let ky = y.last().key@;
    assert(members_map(x).contains_key(x[x.len() - 1].key@));
    assert(members_map(y).contains_key(y[y.len() - 1].key@));
    let jx = choose|j: int| 0 <= j < y.len() && y[j].key@ == kx;
    let jy = choose|j: int| 0 <= j < x.len() && x[j].key@ == ky;
    if kx != ky {
        if jx < y.len() - 1 {
            assert(chars_lt(y[jx].key@, y[y.len() - 1].key@));
        }
        if jy < x.len() - 1 {
            assert(chars_lt(x[jy].key@, x[x.len() - 1].key@));
        }
        lemma_chars_lt_asym(kx, ky);
        assert(false);
    }
    let xp = x.drop_last();
    let yp = y.drop_last();
    assert(members_sorted(xp));
    assert(members_sorted(yp));
    lemma_members_map_sorted(xp);
    lemma_members_map_sorted(yp);
    assert(!members_map(xp).contains_key(kx)) by {
        if members_map(xp).contains_key(kx) {
            let j = choose|j: int| 0 <= j < xp.len() && xp[j].key@ == kx;
            assert(chars_lt(x[j].key@, x[x.len() - 1].key@));
            lemma_chars_lt_irrefl(kx);
        }
    }
    assert(!members_map(yp).contains_key(kx)) by {
        if members_map(yp).contains_key(kx) {
            let j = choose|j: int| 0 <= j < yp.len() && yp[j].key@ == kx;
            assert(chars_lt(y[j].key@, y[y.len() - 1].key@));
            lemma_chars_lt_irrefl(kx);
        }
    }
    assert(members_map(xp) =~= members_map(x).remove(kx));
    assert(members_map(yp) =~= members_map(y).remove(kx));
    lemma_sorted_members_determined(xp, yp);
    assert(x.last().value == members_map(x)[kx]);
    assert(y.last().value == members_map(y)[kx]);
    assert forall|i: int| 0 <= i < x.len() implies x[i].key@ == y[i].key@ && x[i].value == y[i].value by {
        if i < x.len() - 1 {
            assert(x[i] == xp[i]);
            assert(y[i] == yp[i]);
        }
    }
}

proof fn lemma_pointwise_enc_members(x: Seq<JsonMember>, y: Seq<JsonMember>)
    requires
        x.len() == y.len(),
        forall|i: int| 0 <= i < x.len() ==> x[i].key@ == y[i].key@ && x[i].value == y[i].value,
    ensures
        enc_members(x) == enc_members(y),
    decreases x.len(),
{
    if x.len() > 0 {
        assert(x[0].key@ == y[0].key@);
        lemma_pointwise_enc_members(x.drop_first(), y.drop_first());
    }
}

/// The order in which an object's members arrive does not matter: members
/// kept in key order with the same key-to-value mapping encode the same.
pub proof fn lemma_member_order_irrelevant(x: Seq<JsonMember>, y: Seq<JsonMember>)
    requires
        members_sorted(x),
        members_sorted(y),
        members_map(x) == members_map(y),
    ensures
        x.len() == y.len(),
        enc_members(x) == enc_members(y),
{
    lemma_sorted_members_determined(x, y);
    lemma_pointwise_enc_members(x, y);
}

/// Appends the 8 little-endian bytes of `n`.
fn push_le8(out: &mut Vec<u8>, n: u64)
    ensures
        final(out)@ == old(out)@ + le8(n as nat),
{
    let ghost start = out@;
    let mut x: u64 = n;
    let mut i: usize = 0;
    assert(start + le_bytes(n as nat, 8) =~= out@ + le_bytes(x as nat, (8 - i) as nat));
    while i < 8
        invariant
            i <= 8,
            out@ + le_bytes(x as nat, (8 - i) as nat) == start + le8(n as nat),
        decreases 8 - i,
    {
        let b: u8 = (x % 256) as u8;
        let ghost rest = le_bytes(x as nat, (8 - i) as nat);
        assert(rest =~= seq![b] + le_bytes((x / 256) as nat, (8 - i - 1) as nat));
        out.push(b);
        x = x / 256;
        i = i + 1;
        assert(out@ + le_bytes(x as nat, (8 - i) as nat) =~= start + le8(n as nat));
    }
    assert(le_bytes(x as nat, 0) =~= Seq::<u8>::empty());
    assert(out@ =~= start + le8(n as nat));
}

/// Appends the UTF-8 bytes of `s`, preceded by their count.
fn push_counted_str(out: &mut Vec<u8>, s: &str)
    ensures
        final(out)@ == old(out)@ + le8(sbytes(s@).len()) + sbytes(s@),
{
    let b = s.as_bytes();
    let n = b.len();
    push_le8(out, n as u64);
    push_bytes(out, b);
}

pub fn push_bytes(out: &mut Vec<u8>, b: &[u8])
    ensures
        final(out)@ == old(out)@ + b@,
{
    let ghost start = out@;
    let n = b.len();
    for i in 0..n
        invariant
            n == b@.len(),
            out@ == start + b@.take(i as int),
    {
        out.push(b[i]);
        assert(out@ =~= start + b@.take(i + 1));
    }
    assert(b@.take(n as int) =~= b@);
}

proof fn lemma_enc_list_push(s: Seq<JsonValue>, i: int)
    requires
        0 <= i < s.len(),
    ensures
        enc_list(s.take(i + 1)) == enc_list(s.take(i)) + enc(s[i]),
    decreases i,
{
    let t = s.take(i + 1);
    if i == 0 {
        assert(t.drop_first() =~= Seq::<JsonValue>::empty());
        assert(enc_list(t.drop_first()) =~= Seq::<u8>::empty());
        assert(enc_list(t) =~= enc(s[0]) + Seq::<u8>::empty());
        assert(s.take(0) =~= Seq::<JsonValue>::empty());
        assert(enc_list(s.take(0)) + enc(s[0]) =~= enc(s[0]));
    } else {
        let d = s.drop_first();
        lemma_enc_list_push(d, i - 1);
        assert(t.drop_first() =~= d.take(i));
        assert(s.take(i).drop_first() =~= d.take(i - 1));
        assert(t[0] == s[0]);
        assert(s.take(i)[0] == s[0]);
        assert(enc_list(t) =~= enc(s[0]) + enc_list(d.take(i)));
        assert(enc_list(s.take(i)) =~= enc(s[0]) + enc_list(d.take(i - 1)));
        assert(enc_list(t) =~= enc_list(s.take(i)) + enc(s[i]));
    }
}

proof fn lemma_enc_members_push(s: Seq<JsonMember>, i: int)
    requires
        0 <= i < s.len(),
    ensures
        enc_members(s.take(i + 1)) == enc_members(s.take(i)) + (le8(sbytes(s[i].key@).len())
            + sbytes(s[i].key@) + enc(s[i].value)),
    decreases i,
{
    let t = s.take(i + 1);
    let m = le8(sbytes(s[i].key@).len()) + sbytes(s[i].key@) + enc(s[i].value);
    if i == 0 {
        assert(t.drop_first() =~= Seq::<JsonMember>::empty());
        assert(s.take(0) =~= Seq::<JsonMember>::empty());
        assert(enc_members(t.drop_first()) =~= Seq::<u8>::empty());
        assert(enc_members(t) =~= m);
        assert(enc_members(s.take(0)) + m =~= m);
    } else {
        let d = s.drop_first();
        lemma_enc_members_push(d, i - 1);
        assert(t.drop_first() =~= d.take(i));
        assert(s.take(i).drop_first() =~= d.take(i - 1));
        assert(t[0] == s[0]);
        assert(s.take(i)[0] == s[0]);
        let h = le8(sbytes(s[0].key@).len()) + sbytes(s[0].key@) + enc(s[0].value);
        assert(enc_members(t) =~= h + enc_members(d.take(i)));
        assert(enc_members(s.take(i)) =~= h + enc_members(d.take(i - 1)));
        assert(enc_members(t) =~= enc_members(s.take(i)) + m);
    }
}

/// Appends the canonical encoding of `v`.
pub fn encode_json(v: &JsonValue, out: &mut Vec<u8>)
    requires
        canonical(*v),
    ensures
        final(out)@ == old(out)@ + enc(*v),
    decreases v,
{
    let ghost start = out@;
    match v {
        JsonValue::Null => {
            out.push(110u8);
        },
        JsonValue::Bool(b) => {
            out.push(98u8);
            if *b {
                out.push(49u8);
            } else {
                out.push(48u8);
            }
            assert(out@ =~= start + enc(*v));
        },
        JsonValue::Number(n) => {
            out.push(100u8);
            push_counted_str(out, n.text.as_str());
            assert(out@ =~= start + enc(*v));
        },
        JsonValue::String(s) => {
            out.push(115u8);
            push_counted_str(out, s.as_str());
            assert(out@ =~= start + enc(*v));
        },
        JsonValue::Array(items) => {
            out.push(97u8);
            let n = items.len();
            push_le8(out, n as u64);
            let ghost head = out@;
            assert(items@.take(0) =~= Seq::<JsonValue>::empty());
            for i in 0..n
                invariant
                    n == items@.len(),
                    *v is Array,
                    (*v)->Array_0 == *items,
                    canonical(*v),
                    out@ == head + enc_list(items@.take(i as int)),
            {
                proof {
                    lemma_enc_list_push(items@, i as int);
                    assert(decreases_to!(*v => (*v)->Array_0));
                    assert(decreases_to!(*items => items@));
                    assert(decreases_to!(items@ => items@[i as int]));
                }
                encode_json(&items[i], out);
                assert(out@ =~= head + enc_list(items@.take(i + 1)));
            }
            assert(items@.take(n as int) =~= items@);
            assert(out@ =~= start + enc(*v));
        },
        JsonValue::Object(ms) => {
            out.push(111u8);
            let n = ms.len();
            push_le8(out, n as u64);
            let ghost head = out@;
            assert(ms@.take(0) =~= Seq::<JsonMember>::empty());
            for i in 0..n
                invariant
                    n == ms@.len(),
                    *v is Object,
                    (*v)->Object_0 == *ms,
                    canonical(*v),
                    out@ == head + enc_members(ms@.take(i as int)),
            {
                proof {
                    lemma_enc_members_push(ms@, i as int);
                    assert(decreases_to!(*v => (*v)->Object_0));
                    assert(decreases_to!(*ms => ms@));
                    assert(decreases_to!(ms@ => ms@[i as int]));
                    assert(decreases_to!(ms@[i as int] => ms@[i as int].value));
                }
                let ghost before = out@;
                push_counted_str(out, ms[i].key.as_str());
                encode_json(&ms[i].value, out);
                assert(out@ =~= before + (le8(sbytes(ms@[i as int].key@).len()) + sbytes(
                    ms@[i as int].key@,
                ) + enc(ms@[i as int].value)));
                assert(out@ =~= head + enc_members(ms@.take(i + 1)));
            }
            assert(ms@.take(n as int) =~= ms@);
            assert(out@ =~= start + enc(*v));
        },
    }
}

/// BLAKE3 (32-byte default output) of the given bytes.
pub uninterp spec fn blake3_digest(data: Seq<u8>) -> Seq<u8>;

/// Calls `blake3::hash`. Trusted: the result is the 32 bytes of the BLAKE3
/// digest of `data`, a function of `data` alone (the crate documents the
/// 32-byte default output); nothing else about the digest is claimed.
#[verifier::external_body]
fn blake3_hash(data: &[u8]) -> (r: Vec<u8>)
    ensures
        r@ == blake3_digest(data@),
        r@.len() == 32,
{
    blake3::hash(data).as_bytes().to_vec()
}

/// Lowercase hexadecimal digit of `d` (0..16).
pub open spec fn hex_digit(d: int) -> char {
    if d < 10 {
        (48 + d) as char
    } else {
        (87 + d) as char
    }
}

/// Lowercase hexadecimal rendering of bytes, high nibble first.
pub open spec fn hex_lower(b: Seq<u8>) -> Seq<char> {
    Seq::new(
        2 * b.len(),
        |i: int|
            if i % 2 == 0 {
                hex_digit(b[i / 2] as int / 16)
            } else {
                hex_digit(b[i / 2] as int % 16)
            },
    )
}

fn hex_char(d: u8) -> (c: char)
    requires
        d < 16,
    ensures
        c == hex_digit(d as int),
{
    if d < 10 {
        crate::text::char_from_ascii((48 + d) as u32)
    } else {
        crate::text::char_from_ascii((87 + d) as u32)
    }
}

/// Lowercase hex of `b`.
pub fn to_hex(b: &[u8]) -> (r: String)
    ensures
        r@ == hex_lower(b@),
{
    let mut out: Vec<char> = Vec::new();
    let n = b.len();
    for i in 0..n
        invariant
            n == b@.len(),
            out@ == hex_lower(b@).take(2 * i),
    {
        let x = b[i];
        out.push(hex_char(x / 16));
        out.push(hex_char(x % 16));
        assert(out@ =~= hex_lower(b@).take(2 * (i + 1))) by {
            assert forall|j: int| 2 * i <= j < 2 * i + 2 implies #[trigger] hex_lower(b@)[j] == out@[j] by {
                assert(j / 2 == i);
            }
        }
    }
    assert(hex_lower(b@).take(2 * n) =~= hex_lower(b@));
    crate::text::string_of(&out)
}

/// Inputs to fingerprint a cacheable request.
pub struct FingerprintInputs<'a> {
    /// URL namespace (the `{X}` segment in `/v1/{X}/...`); scopes the cache per
    /// public route alias.
    pub namespace: &'a str,
    pub endpoint: &'a str,
    pub body: &'a [u8],
    /// The request parsed as JSON, when it is JSON; otherwise the raw body
    /// is hashed verbatim.
    pub json_body: Option<&'a JsonValue>,
    /// Optional cache-key bumper supplied by the caller.
    pub cache_scope: Option<&'a str>,
}

/// The bytes that are hashed: namespace, `|`, endpoint, `|`, cache scope (or
/// nothing), `|`, then the canonical JSON encoding or the raw body.
pub open spec fn preimage(
    namespace: Seq<char>,
    endpoint: Seq<char>,
    scope: Option<Seq<char>>,
    json: Option<JsonValue>,
    body: Seq<u8>,
) -> Seq<u8> {
    sbytes(namespace) + seq![124u8] + sbytes(endpoint) + seq![124u8] + (match scope {
        Some(s) => sbytes(s),
        None => Seq::empty(),
    }) + seq![124u8] + (match json {
        Some(v) => enc(v),
        None => body,
    })
}

pub open spec fn inputs_preimage(inp: FingerprintInputs) -> Seq<u8> {
    preimage(
        inp.namespace@,
        inp.endpoint@,
        match inp.cache_scope {
            Some(s) => Some(s@),
            None => None,
        },
        match inp.json_body {
            Some(v) => Some(*v),
            None => None,
        },
        inp.body@,
    )
}

/// Deterministic lowercase-hex BLAKE3 digest identifying the request. A
/// JSON body is taken with its objects in key order, as a parsed map keeps
/// them.
pub fn fingerprint(inp: &FingerprintInputs) -> (r: String)
    requires
        inp.json_body matches Some(v) ==> canonical(*v),
    ensures
        r@ == hex_lower(blake3_digest(inputs_preimage(*inp))),
        r@.len() == 64,
{
    let mut data: Vec<u8> = Vec::new();
    push_bytes(&mut data, inp.namespace.as_bytes());
    data.push(124u8);
    push_bytes(&mut data, inp.endpoint.as_bytes());
    data.push(124u8);
    if let Some(s) = inp.cache_scope {
        push_bytes(&mut data, s.as_bytes());
    }
    data.push(124u8);
    let ghost mid = data@;
    match inp.json_body {
        Some(v) => encode_json(v, &mut data),
        None => push_bytes(&mut data, inp.body),
    }
    assert(data@ =~= inputs_preimage(*inp));
    let digest = blake3_hash(data.as_slice());
    to_hex(digest.as_slice())
}

/// With the same namespace, endpoint and scope, two JSON requests share a
/// hashed preimage only if they are the same JSON value: any change to a
/// request field changes what is hashed.
pub proof fn lemma_preimage_separates_requests(
    namespace: Seq<char>,
    endpoint: Seq<char>,
    scope: Option<Seq<char>>,
    a: JsonValue,
    b: JsonValue,
    body_a: Seq<u8>,
    body_b: Seq<u8>,
)
    requires
        fits(a),
        fits(b),
        preimage(namespace, endpoint, scope, Some(a), body_a) == preimage(
            namespace,
            endpoint,
            scope,
            Some(b),
            body_b,
        ),
    ensures
        json_same(a, b),
{
    let head = sbytes(namespace) + seq![124u8] + sbytes(endpoint) + seq![124u8] + (match scope {
        Some(s) => sbytes(s),
        None => Seq::empty(),
    }) + seq![124u8];
    lemma_split(head, enc(a), head, enc(b));
    lemma_enc_injective(a, b);
}

} // verus!
