//! A JSON document as the gateway reads it. Objects keep their members in key
//! order with each key once, as a JSON map does after parsing.
use vstd::prelude::*;
use crate::text::chars_of;

verus! {

/// A JSON number: its canonical text (as the parser renders it) and its value
/// when it is an integer that fits in `i64`.
#[derive(Debug)]
pub struct JsonNumber {
    pub text: String,
    pub int: Option<i64>,
}

#[derive(Debug)]
pub struct JsonMember {
    pub key: String,
    pub value: JsonValue,
}

#[derive(Debug)]
pub enum JsonValue {
    Null,
    Bool(bool),
    Number(JsonNumber),
    String(String),
    Array(Vec<JsonValue>),
    Object(Vec<JsonMember>),
}

/// Code-point lexicographic order (the order of `String` keys, since UTF-8
/// preserves code-point order).
pub open spec fn chars_lt(a: Seq<char>, b: Seq<char>) -> bool
    decreases a.len(),
{
    if a.len() == 0 {
        b.len() > 0
    } else if b.len() == 0 {
        false
    } else if a[0] != b[0] {
        a[0] < b[0]
    } else {
        chars_lt(a.drop_first(), b.drop_first())
    }
}

pub proof fn lemma_chars_lt_irrefl(a: Seq<char>)
    ensures
        !chars_lt(a, a),
    decreases a.len(),
{
    if a.len() > 0 {
        lemma_chars_lt_irrefl(a.drop_first());
    }
}

pub proof fn lemma_chars_lt_trans(a: Seq<char>, b: Seq<char>, c: Seq<char>)
    requires
        chars_lt(a, b),
        chars_lt(b, c),
    ensures
        chars_lt(a, c),
    decreases a.len(),
{
    if a.len() > 0 && b.len() > 0 && c.len() > 0 {
        if a[0] == b[0] && b[0] == c[0] {
            lemma_chars_lt_trans(a.drop_first(), b.drop_first(), c.drop_first());
        }
    }
}

pub proof fn lemma_chars_lt_total(a: Seq<char>, b: Seq<char>)
    requires
        a != b,
    ensures
        chars_lt(a, b) || chars_lt(b, a),
    decreases a.len(),
{
    if a.len() > 0 && b.len() > 0 && a[0] == b[0] {
        if a.drop_first() == b.drop_first() {
            assert(a =~= seq![a[0]] + a.drop_first());
            assert(b =~= seq![b[0]] + b.drop_first());
        }
        lemma_chars_lt_total(a.drop_first(), b.drop_first());
    } else if a.len() == 0 && b.len() == 0 {
        assert(a =~= b);
    }
}

pub proof fn lemma_chars_lt_asym(a: Seq<char>, b: Seq<char>)
    requires
        chars_lt(a, b),
    ensures
        !chars_lt(b, a),
{
    if chars_lt(b, a) {
        lemma_chars_lt_trans(a, b, a);
        lemma_chars_lt_irrefl(a);
    }
}

/// Three-way comparison of two keys: -1, 0 or 1.
pub fn compare_keys(a: &str, b: &str) -> (r: i8)
    ensures
        r == 0 <==> a@ == b@,
        r < 0 <==> chars_lt(a@, b@),
        r > 0 <==> chars_lt(b@, a@),
{
    let x = chars_of(a);
    let y = chars_of(b);
    let n = x.len();
    let m = y.len();
    let mut i: usize = 0;
    assert(a@.skip(0) =~= a@);
    assert(b@.skip(0) =~= b@);
    while i < n && i < m && x[i] == y[i]
        invariant
            i <= n,
            i <= m,
            n == a@.len(),
            m == b@.len(),
            x@ == a@,
            y@ == b@,
            a@.take(i as int) == b@.take(i as int),
            chars_lt(a@, b@) == chars_lt(a@.skip(i as int), b@.skip(i as int)),
            chars_lt(b@, a@) == chars_lt(b@.skip(i as int), a@.skip(i as int)),
        decreases n - i,
    {
        assert(a@.skip(i as int).drop_first() =~= a@.skip(i + 1));
        assert(b@.skip(i as int).drop_first() =~= b@.skip(i + 1));
        assert(a@.take(i + 1) =~= a@.take(i as int).push(a@[i as int]));
        assert(b@.take(i + 1) =~= b@.take(i as int).push(b@[i as int]));
        i = i + 1;
    }
    if i < n && i < m {
        let lt = x[i] < y[i];
        assert(a@[i as int] != b@[i as int]);
        if lt {
            proof {
                lemma_chars_lt_asym(a@, b@);
            }
            -1
        } else {
            proof {
                lemma_chars_lt_asym(b@, a@);
            }
            1
        }
    } else if i == n && i == m {
        assert(a@ =~= a@.take(i as int));
        assert(b@ =~= b@.take(i as int));
        proof {
            lemma_chars_lt_irrefl(a@);
        }
        0
    } else if i == n {
        assert(a@ != b@);
        -1
    } else {
        assert(a@ != b@);
        1
    }
}

/// Member keys strictly increasing (so sorted, each key once).
pub open spec fn members_sorted(ms: Seq<JsonMember>) -> bool {
    forall|i: int, j: int| 0 <= i < j < ms.len() ==> chars_lt(#[trigger] ms[i].key@, #[trigger] ms[j].key@)
}

/// What an object maps each key to (a later member with the same key wins).
pub open spec fn members_map(ms: Seq<JsonMember>) -> Map<Seq<char>, JsonValue>
    decreases ms.len(),
{
    if ms.len() == 0 {
        Map::empty()
    } else {
        members_map(ms.drop_last()).insert(ms.last().key@, ms.last().value)
    }
}

pub proof fn lemma_members_map_sorted(ms: Seq<JsonMember>)
    requires
        members_sorted(ms),
    ensures
        forall|i: int| 0 <= i < ms.len() ==> #[trigger] members_map(ms).contains_key(ms[i].key@)
            && members_map(ms)[ms[i].key@] == ms[i].value,
        forall|k: Seq<char>| #[trigger] members_map(ms).contains_key(k) ==> exists|i: int| 0 <= i < ms.len() && ms[i].key@ == k,
    decreases ms.len(),
{
    if ms.len() > 0 {
        let p = ms.drop_last();
        assert(members_sorted(p));
        lemma_members_map_sorted(p);
        assert forall|i: int| 0 <= i < ms.len() implies #[trigger] members_map(ms).contains_key(ms[i].key@)
            && members_map(ms)[ms[i].key@] == ms[i].value by {
            if i < ms.len() - 1 {
                assert(p[i] == ms[i]);
                assert(chars_lt(ms[i].key@, ms[ms.len() - 1].key@));
                lemma_chars_lt_irrefl(ms[i].key@);
            }
        }
        assert forall|k: Seq<char>| #[trigger] members_map(ms).contains_key(k) implies exists|i: int| 0 <= i < ms.len() && ms[i].key@ == k by {
            if k != ms.last().key@ {
                assert(members_map(p).contains_key(k));
                let i = choose|i: int| 0 <= i < p.len() && p[i].key@ == k;
                assert(ms[i] == p[i]);
            }
        }
    }
}

/// Inserts a member into a key-sorted member list; an equal key gets the new
/// value (as a JSON map does).
pub fn insert_member(ms: &mut Vec<JsonMember>, m: JsonMember)
    requires
        members_sorted(old(ms)@),
    ensures
        members_sorted(final(ms)@),
        members_map(final(ms)@) == members_map(old(ms)@).insert(m.key@, m.value),
{
    let ghost old_ms = ms@;
    let n = ms.len();
    let mut i: usize = 0;
    while i < n && compare_keys(ms[i].key.as_str(), m.key.as_str()) < 0
        invariant
            i <= n,
            n == ms@.len(),
            ms@ == old_ms,
            forall|j: int| 0 <= j < i ==> chars_lt(#[trigger] ms@[j].key@, m.key@),
        decreases n - i,
    {
        i = i + 1;
    }
    let c: i8 = if i < n {
        compare_keys(ms[i].key.as_str(), m.key.as_str())
    } else {
        1
    };
    proof {
        lemma_members_map_sorted(old_ms);
    }
    if i < n && c == 0 {
        // same key: replace the value
        let ghost k = m.key@;
        ms.set(i, m);
        assert(members_sorted(ms@)) by {
            assert forall|a: int, b: int| 0 <= a < b < ms@.len() implies chars_lt(#[trigger] ms@[a].key@, #[trigger] ms@[b].key@) by {
                assert(chars_lt(old_ms[a].key@, old_ms[b].key@));
            }
        }
        proof {
            lemma_members_map_sorted(ms@);
            assert forall|key: Seq<char>| #[trigger] members_map(ms@).contains_key(key) <==> members_map(old_ms).insert(k, ms@[i as int].value).contains_key(key) by {
                if members_map(ms@).contains_key(key) {
                    let j = choose|j: int| 0 <= j < ms@.len() && ms@[j].key@ == key;
                    if j != i {
                        assert(ms@[j] == old_ms[j]);
                    }
                }
                if members_map(old_ms).contains_key(key) {
                    let j = choose|j: int| 0 <= j < old_ms.len() && old_ms[j].key@ == key;
                    if j != i {
                        assert(ms@[j] == old_ms[j]);
                    }
                }
            }
            assert forall|key: Seq<char>| #[trigger] members_map(ms@).contains_key(key) implies members_map(ms@)[key] == members_map(old_ms).insert(k, ms@[i as int].value)[key] by {
                let j = choose|j: int| 0 <= j < ms@.len() && ms@[j].key@ == key;
                if j != i {
                    assert(ms@[j] == old_ms[j]);
                }
            }
            assert(members_map(ms@) =~= members_map(old_ms).insert(k, ms@[i as int].value));
        }
    } else {
        let ghost k = m.key@;
        let ghost v = m.value;
        proof {
            if i < n {
                assert(chars_lt(k, old_ms[i as int].key@));
            }
        }
        ms.insert(i, m);
        assert(members_sorted(ms@)) by {
            assert forall|a: int, b: int| 0 <= a < b < ms@.len() implies chars_lt(#[trigger] ms@[a].key@, #[trigger] ms@[b].key@) by {
                if a < i && b < i {
                    assert(chars_lt(old_ms[a].key@, old_ms[b].key@));
                } else if a < i && b == i {
                } else if a < i {
                    assert(chars_lt(old_ms[a].key@, old_ms[b - 1].key@));
                } else if a == i {
                    if b - 1 > i {
                        assert(chars_lt(old_ms[i as int].key@, old_ms[b - 1].key@));
                        lemma_chars_lt_trans(k, old_ms[i as int].key@, old_ms[b - 1].key@);
                    }
                } else {
                    assert(chars_lt(old_ms[a - 1].key@, old_ms[b - 1].key@));
                }
            }
        }
        proof {
            lemma_members_map_sorted(ms@);
            assert(!members_map(old_ms).contains_key(k)) by {
                if members_map(old_ms).contains_key(k) {
                    let j = choose|j: int| 0 <= j < old_ms.len() && old_ms[j].key@ == k;
                    if j < i {
                        lemma_chars_lt_irrefl(k);
                    } else {
                        assert(chars_lt(k, old_ms[i as int].key@) || k == old_ms[i as int].key@);
                        if j > i {
                            assert(chars_lt(old_ms[i as int].key@, old_ms[j].key@));
                            if chars_lt(k, old_ms[i as int].key@) {
                                lemma_chars_lt_trans(k, old_ms[i as int].key@, k);
                            }
                        }
                        lemma_chars_lt_irrefl(k);
                    }
                }
            }
            assert forall|key: Seq<char>| #[trigger] members_map(ms@).contains_key(key) <==> members_map(old_ms).insert(k, v).contains_key(key) by {
                if members_map(ms@).contains_key(key) {
                    let j = choose|j: int| 0 <= j < ms@.len() && ms@[j].key@ == key;
                    if j < i {
                        assert(ms@[j] == old_ms[j]);
                    } else if j > i {
                        assert(ms@[j] == old_ms[j - 1]);
                    }
                }
                if members_map(old_ms).contains_key(key) {
                    let j = choose|j: int| 0 <= j < old_ms.len() && old_ms[j].key@ == key;
                    if j < i {
                        assert(ms@[j] == old_ms[j]);
                    } else {
                        assert(ms@[j + 1] == old_ms[j]);
                    }
                }
            }
            assert forall|key: Seq<char>| #[trigger] members_map(ms@).contains_key(key) implies members_map(ms@)[key] == members_map(old_ms).insert(k, v)[key] by {
                let j = choose|j: int| 0 <= j < ms@.len() && ms@[j].key@ == key;
                if j < i {
                    assert(ms@[j] == old_ms[j]);
                } else if j > i {
                    assert(ms@[j] == old_ms[j - 1]);
                }
            }
            assert(members_map(ms@) =~= members_map(old_ms).insert(k, v));
        }
    }
}

/// Every object in the value, at any depth, keeps its members in strictly
/// increasing key order (so each key once), as a parsed JSON map does.
pub open spec fn canonical(v: JsonValue) -> bool
    decreases v,
{
    match v {
        JsonValue::Array(items) => forall|i: int| 0 <= i < items@.len() ==> canonical(#[trigger] items@[i]),
        JsonValue::Object(ms) => members_sorted(ms@) && forall|i: int|
            0 <= i < ms@.len() ==> canonical(#[trigger] ms@[i].value),
        _ => true,
    }
}

/// Checks `canonical`.
pub fn is_canonical(v: &JsonValue) -> (r: bool)
    ensures
        r == canonical(*v),
    decreases v,
{
    match v {
        JsonValue::Array(items) => {
            let n = items.len();
            for i in 0..n
                invariant
                    n == items@.len(),
                    *v is Array,
                    (*v)->Array_0 == *items,
                    forall|j: int| 0 <= j < i ==> canonical(#[trigger] items@[j]),
            {
                proof {
                    assert(decreases_to!(*v => (*v)->Array_0));
                    assert(decreases_to!(*items => items@));
                    assert(decreases_to!(items@ => items@[i as int]));
                }
                if !is_canonical(&items[i]) {
                    return false;
                }
            }
            true
        },
        JsonValue::Object(ms) => {
            let n = ms.len();
            let mut i: usize = 1;
            while i < n
                invariant
                    1 <= i,
                    n == ms@.len(),
                    *v is Object,
                    (*v)->Object_0 == *ms,
                    forall|a: int, b: int| 0 <= a < b < i && b < n ==> chars_lt(#[trigger] ms@[a].key@, #[trigger] ms@[b].key@),
                decreases n - i,
            {
                if compare_keys(ms[i - 1].key.as_str(), ms[i].key.as_str()) >= 0 {
                    assert(!chars_lt(ms@[i - 1].key@, ms@[i as int].key@));
                    assert(!members_sorted(ms@));
                    return false;
                }
                assert forall|a: int, b: int| 0 <= a < b < i + 1 && b < n implies chars_lt(
                    #[trigger] ms@[a].key@,
                    #[trigger] ms@[b].key@,
                ) by {
                    if b == i && a < i - 1 {
                        lemma_chars_lt_trans(ms@[a].key@, ms@[i - 1].key@, ms@[b].key@);
                    }
                }
                i = i + 1;
            }
            assert(members_sorted(ms@));
            for i in 0..n
                invariant
                    n == ms@.len(),
                    *v is Object,
                    (*v)->Object_0 == *ms,
                    members_sorted(ms@),
                    forall|j: int| 0 <= j < i ==> canonical(#[trigger] ms@[j].value),
            {
                proof {
                    assert(decreases_to!(*v => (*v)->Object_0));
                    assert(decreases_to!(*ms => ms@));
                    assert(decreases_to!(ms@ => ms@[i as int]));
                    assert(decreases_to!(ms@[i as int] => ms@[i as int].value));
                }
                if !is_canonical(&ms[i].value) {
                    return false;
                }
            }
            true
        },
        _ => true,
    }
}

impl JsonValue {
    /// An object from members in any order; a repeated key keeps its last
    /// value. Members end up in key order.
    pub fn object(members: Vec<JsonMember>) -> (r: JsonValue)
        ensures
            r matches JsonValue::Object(ms) && members_sorted(ms@) && members_map(ms@)
                == members_map(members@),
    {
        let mut out: Vec<JsonMember> = Vec::new();
        let mut rest = members;
        let total = rest.len();
        let ghost orig = rest@;
        assert(members_map(out@) =~= members_map(orig.take(0)));
        let mut i: usize = 0;
        let mut rev: Vec<JsonMember> = Vec::new();
        while rest.len() > 0
            invariant
                rev@.len() + rest@.len() == orig.len(),
                orig == rest@ + rev@.reverse(),
            decreases rest@.len(),
        {
            let m = rest.pop().unwrap();
            rev.push(m);
            assert(orig =~= rest@ + rev@.reverse());
        }
        assert(rev@.reverse() =~= orig);
        while rev.len() > 0
            invariant
                i + rev@.len() == orig.len(),
                orig.len() == total,
                rev@.reverse() == orig.skip(i as int),
                members_sorted(out@),
                members_map(out@) == members_map(orig.take(i as int)),
            decreases rev@.len(),
        {
            let ghost r0 = rev@;
            let m = rev.pop().unwrap();
            assert(m == r0.reverse()[0]);
            assert(m == orig[i as int]);
            assert(orig.take(i + 1).drop_last() =~= orig.take(i as int));
            insert_member(&mut out, m);
            assert(rev@.reverse() =~= r0.reverse().drop_first());
            assert(orig.skip(i as int).drop_first() =~= orig.skip(i + 1));
            i = i + 1;
        }
        assert(orig.take(i as int) =~= orig);
        JsonValue::Object(out)
    }
}

/// The value of the first member named `k`.
pub open spec fn member_value(ms: Seq<JsonMember>, k: Seq<char>) -> Option<JsonValue>
    decreases ms.len(),
{
    if ms.len() == 0 {
        None
    } else if ms[0].key@ == k {
        Some(ms[0].value)
    } else {
        member_value(ms.drop_first(), k)
    }
}

/// `Value::get` with a string key: the member of an object, `None` for any
/// other value.
pub open spec fn json_get(v: JsonValue, k: Seq<char>) -> Option<JsonValue> {
    match v {
        JsonValue::Object(ms) => member_value(ms@, k),
        _ => None,
    }
}

/// `Value::as_str`.
pub open spec fn json_str(v: JsonValue) -> Option<Seq<char>> {
    match v {
        JsonValue::String(s) => Some(s@),
        _ => None,
    }
}

/// `Value::as_i64`.
pub open spec fn json_i64(v: JsonValue) -> Option<i64> {
    match v {
        JsonValue::Number(n) => n.int,
        _ => None,
    }
}

/// `Option<&Value>` then `as_i64`.
pub open spec fn opt_i64(v: Option<JsonValue>) -> Option<i64> {
    match v {
        Some(x) => json_i64(x),
        None => None,
    }
}

/// `Option<&Value>` then `get(k)`.
pub open spec fn opt_get(v: Option<JsonValue>, k: Seq<char>) -> Option<JsonValue> {
    match v {
        Some(x) => json_get(x, k),
        None => None,
    }
}

impl JsonValue {
    /// The member named `key` of an object (the first one, should the key
    /// repeat); `None` for other values.
    pub fn get(&self, key: &str) -> (r: Option<&JsonValue>)
        ensures
            match r {
                Some(x) => json_get(*self, key@) == Some(*x),
                None => json_get(*self, key@) is None,
            },
    {
        match self {
            JsonValue::Object(ms) => {
                let n = ms.len();
                assert(ms@.skip(0) =~= ms@);
                for i in 0..n
                    invariant
                        n == ms@.len(),
                        *self is Object,
                        (*self)->Object_0 == *ms,
                        member_value(ms@, key@) == member_value(ms@.skip(i as int), key@),
                {
                    let ghost t = ms@.skip(i as int);
                    assert(t.drop_first() =~= ms@.skip(i + 1));
                    if crate::text::str_eq(ms[i].key.as_str(), key) {
                        return Some(&ms[i].value);
                    }
                }
                None
            },
            _ => None,
        }
    }

    pub fn as_str(&self) -> (r: Option<&str>)
        ensures
            match r {
                Some(s) => json_str(*self) == Some(s@),
                None => json_str(*self) is None,
            },
    {
        match self {
            JsonValue::String(s) => Some(s.as_str()),
            _ => None,
        }
    }

    pub fn as_i64(&self) -> (r: Option<i64>)
        ensures
            r == json_i64(*self),
    {
        match self {
            JsonValue::Number(n) => n.int,
            _ => None,
        }
    }

    pub fn as_array(&self) -> (r: Option<&Vec<JsonValue>>)
        ensures
            match r {
                Some(a) => *self == JsonValue::Array(*a),
                None => !(*self is Array),
            },
    {
        match self {
            JsonValue::Array(a) => Some(a),
            _ => None,
        }
    }

    pub fn is_object(&self) -> (r: bool)
        ensures
            r == (*self is Object),
    {
        match self {
            JsonValue::Object(_) => true,
            _ => false,
        }
    }
}

} // verus!
