//! Character-level helpers on `Seq<char>` views of strings: ASCII case folding,
//! Unicode whitespace, prefixes, trimming and whitespace squeezing.
use vstd::prelude::*;
use vstd::string::*;
use vstd::utf8::*;

verus! {

/// `char::is_whitespace`: the characters with the Unicode `White_Space` property.
pub open spec fn is_ws(c: char) -> bool {
    let u = c as u32;
    (9 <= u && u <= 13) || u == 32 || u == 0x85 || u == 0xA0 || u == 0x1680 || (0x2000 <= u
        && u <= 0x200A) || u == 0x2028 || u == 0x2029 || u == 0x202F || u == 0x205F || u
        == 0x3000
}

pub fn char_is_ws(c: char) -> (r: bool)
    ensures
        r == is_ws(c),
{
    let u = c as u32;
    (9 <= u && u <= 13) || u == 32 || u == 0x85 || u == 0xA0 || u == 0x1680 || (0x2000 <= u
        && u <= 0x200A) || u == 0x2028 || u == 0x2029 || u == 0x202F || u == 0x205F || u
        == 0x3000
}

/// `char::to_ascii_lowercase`.
pub open spec fn lower_char(c: char) -> char {
    if 'A' <= c && c <= 'Z' {
        ((c as u32) + 32) as char
    } else {
        c
    }
}

/// `str::to_ascii_lowercase`, on the characters.
pub open spec fn ascii_lower(s: Seq<char>) -> Seq<char> {
    Seq::new(s.len(), |i: int| lower_char(s[i]))
}

pub fn char_lower(c: char) -> (r: char)
    ensures
        r == lower_char(c),
{
    if 'A' <= c && c <= 'Z' {
        let u = (c as u32) + 32;
        assert(65 <= c as u32 <= 90);
        char_from_ascii(u)
    } else {
        c
    }
}

/// A code point below 128 as a `char`.
pub fn char_from_ascii(u: u32) -> (c: char)
    requires
        u < 128,
    ensures
        c == u as char,
{
    let b: u8 = u as u8;
    let c = b as char;
    assert(c == u as char);
    c
}

/// `s` with ASCII letters lowered (`str::to_ascii_lowercase`).
pub fn to_ascii_lower(s: &str) -> (r: String)
    ensures
        r@ == ascii_lower(s@),
{
    let v = chars_of(s);
    let mut out: Vec<char> = Vec::new();
    let n = v.len();
    for i in 0..n
        invariant
            n == v@.len(),
            v@ == s@,
            out@ == ascii_lower(s@).take(i as int),
    {
        out.push(char_lower(v[i]));
        assert(out@ =~= ascii_lower(s@).take(i + 1));
    }
    assert(out@ =~= ascii_lower(s@));
    string_of(&out)
}

/// The characters of `s`, in order.
pub fn chars_of(s: &str) -> (v: Vec<char>)
    ensures
        v@ == s@,
{
    let n = s.unicode_len();
    let mut v: Vec<char> = Vec::new();
    for i in 0..n
        invariant
            n == s@.len(),
            v@ == s@.take(i as int),
    {
        v.push(s.get_char(i));
        assert(v@ =~= s@.take(i + 1));
    }
    assert(v@ =~= s@);
    v
}

/// Appends one character (`String::push`).
#[verifier::external_body]
pub(crate) fn push_char(s: &mut String, c: char)
    ensures
        final(s)@ == old(s)@.push(c),
{
    s.push(c);
}

/// Calls `String::from_utf8`. Trusted: succeeds exactly on valid UTF-8, with
/// the decoded characters; the error's message is not described.
#[verifier::external_body]
pub(crate) fn utf8_string(v: Vec<u8>) -> (r: Result<String, String>)
    ensures
        r is Ok <==> valid_utf8(v@),
        r matches Ok(s) ==> s@ == decode_utf8(v@),
{
    String::from_utf8(v).map_err(|e| e.to_string())
}

/// The UTF-8 form of a concatenation is the concatenation of the forms.
pub proof fn lemma_encode_concat(a: Seq<char>, b: Seq<char>)
    ensures
        encode_utf8(a + b) == encode_utf8(a) + encode_utf8(b),
    decreases a.len(),
{
    if a.len() == 0 {
        assert(a + b =~= b);
        assert(encode_utf8(a) + encode_utf8(b) =~= encode_utf8(b));
    } else {
        lemma_encode_concat(a.drop_first(), b);
        assert((a + b).drop_first() =~= a.drop_first() + b);
        assert((a + b)[0] == a[0]);
        assert(encode_utf8(a + b) =~= encode_scalar(a[0] as u32) + encode_utf8(a.drop_first() + b));
    }
}

/// The string made of the characters `v`.
pub fn string_of(v: &[char]) -> (s: String)
    ensures
        s@ == v@,
{
    let mut s = String::new();
    let n = v.len();
    for i in 0..n
        invariant
            n == v@.len(),
            s@ == v@.take(i as int),
    {
        push_char(&mut s, v[i]);
        assert(s@ =~= v@.take(i + 1));
    }
    assert(s@ =~= v@);
    s
}

/// Appends the characters of `t` to `s`.
pub fn push_str(s: &mut String, t: &str)
    ensures
        final(s)@ == old(s)@ + t@,
{
    s.append(t);
}

/// `s` after ASCII lowering equals `lit`.
pub fn lower_eq(s: &str, lit: &str) -> (r: bool)
    ensures
        r == (ascii_lower(s@) == lit@),
{
    let a = chars_of(s);
    let b = chars_of(lit);
    if a.len() != b.len() {
        assert(ascii_lower(s@).len() != lit@.len());
        return false;
    }
    let n = a.len();
    for i in 0..n
        invariant
            n == a@.len(),
            a@.len() == b@.len(),
            a@ == s@,
            b@ == lit@,
            forall|j: int| 0 <= j < i ==> lower_char(a@[j]) == b@[j],
    {
        if char_lower(a[i]) != b[i] {
            assert(ascii_lower(s@)[i as int] != lit@[i as int]);
            return false;
        }
    }
    assert(ascii_lower(s@) =~= lit@);
    true
}

/// Equality of two strings.
pub fn str_eq(a: &str, b: &str) -> (r: bool)
    ensures
        r == (a@ == b@),
{
    let x = chars_of(a);
    let y = chars_of(b);
    seq_chars_eq(&x, &y)
}

pub fn seq_chars_eq(x: &[char], y: &[char]) -> (r: bool)
    ensures
        r == (x@ == y@),
{
    if x.len() != y.len() {
        return false;
    }
    let n = x.len();
    for i in 0..n
        invariant
            n == x@.len(),
            x@.len() == y@.len(),
            forall|j: int| 0 <= j < i ==> x@[j] == y@[j],
    {
        if x[i] != y[i] {
            return false;
        }
    }
    assert(x@ =~= y@);
    true
}

/// `p` is a prefix of `s`.
pub open spec fn has_prefix(s: Seq<char>, p: Seq<char>) -> bool {
    p.len() <= s.len() && s.take(p.len() as int) == p
}

pub fn starts_with(s: &str, p: &str) -> (r: bool)
    ensures
        r == has_prefix(s@, p@),
{
    let a = chars_of(s);
    let b = chars_of(p);
    if b.len() > a.len() {
        return false;
    }
    let n = b.len();
    for i in 0..n
        invariant
            n == b@.len(),
            b@.len() <= a@.len(),
            a@ == s@,
            b@ == p@,
            forall|j: int| 0 <= j < i ==> a@[j] == b@[j],
    {
        if a[i] != b[i] {
            assert(s@.take(p@.len() as int)[i as int] != p@[i as int]);
            return false;
        }
    }
    assert(s@.take(p@.len() as int) =~= p@);
    true
}

/// `p` occurs in `s`.
pub open spec fn occurs_in(s: Seq<char>, p: Seq<char>) -> bool {
    exists|i: int| 0 <= i && i + p.len() <= s.len() && #[trigger] s.subrange(i, i + p.len()) == p
}

/// `str::contains` with a string pattern.
pub fn contains(s: &str, p: &str) -> (r: bool)
    ensures
        r == occurs_in(s@, p@),
{
    let v = chars_of(s);
    let w = chars_of(p);
    if w.len() > v.len() {
        return false;
    }
    if w.len() == 0 {
        assert(s@.subrange(0, 0int + p@.len()) =~= p@);
        return true;
    }
    let last = v.len() - w.len();
    let mut i: usize = 0;
    while i <= last
        invariant
            v@ == s@,
            w@ == p@,
            last == v@.len() - w@.len(),
            1 <= w@.len() <= v@.len(),
            v@.len() <= usize::MAX,
            i <= last + 1,
            forall|j: int| 0 <= j < i ==> #[trigger] s@.subrange(j, j + p@.len()) != p@,
        decreases last + 1 - i,
    {
        let piece = sub_chars(&v, i, i + w.len());
        if seq_chars_eq(&piece, &w) {
            return true;
        }
        i = i + 1;
    }
    assert forall|j: int| 0 <= j && j + p@.len() <= s@.len() implies #[trigger] s@.subrange(j, j + p@.len()) != p@ by {
        assert(j < i);
    }
    false
}

/// `s` without the prefix `p`, when `p` is a prefix (`str::strip_prefix`).
pub fn strip_prefix(s: &str, p: &str) -> (r: Option<String>)
    ensures
        r is Some <==> has_prefix(s@, p@),
        r matches Some(t) ==> t@ == s@.skip(p@.len() as int),
{
    if starts_with(s, p) {
        let a = chars_of(s);
        let k = p.unicode_len();
        let mut out: Vec<char> = Vec::new();
        let n = a.len();
        for i in k..n
            invariant
                n == a@.len(),
                k <= n,
                a@ == s@,
                out@ == s@.subrange(k as int, i as int),
        {
            out.push(a[i]);
            assert(out@ =~= s@.subrange(k as int, i + 1));
        }
        assert(out@ =~= s@.skip(k as int));
        Some(string_of(&out))
    } else {
        None
    }
}

/// Every character of `s` is whitespace (so `s.trim()` is empty).
pub open spec fn all_ws(s: Seq<char>) -> bool {
    forall|i: int| 0 <= i < s.len() ==> is_ws(#[trigger] s[i])
}

pub fn is_blank(s: &str) -> (r: bool)
    ensures
        r == all_ws(s@),
{
    let v = chars_of(s);
    let n = v.len();
    for i in 0..n
        invariant
            n == v@.len(),
            v@ == s@,
            forall|j: int| 0 <= j < i ==> is_ws(#[trigger] s@[j]),
    {
        if !char_is_ws(v[i]) {
            return false;
        }
    }
    true
}

/// Number of leading whitespace characters.
pub open spec fn lead_ws(s: Seq<char>) -> nat
    decreases s.len(),
{
    if s.len() > 0 && is_ws(s[0]) {
        1 + lead_ws(s.drop_first())
    } else {
        0
    }
}

/// Number of trailing whitespace characters.
pub open spec fn trail_ws(s: Seq<char>) -> nat
    decreases s.len(),
{
    if s.len() > 0 && is_ws(s.last()) {
        1 + trail_ws(s.drop_last())
    } else {
        0
    }
}

/// `str::trim`: without leading and trailing whitespace.
pub open spec fn trimmed(s: Seq<char>) -> Seq<char> {
    let t = s.skip(lead_ws(s) as int);
    t.take(t.len() - trail_ws(t))
}

pub proof fn lemma_lead_ws(s: Seq<char>)
    ensures
        lead_ws(s) <= s.len(),
        forall|j: int| 0 <= j < lead_ws(s) ==> is_ws(#[trigger] s[j]),
        lead_ws(s) < s.len() ==> !is_ws(s[lead_ws(s) as int]),
    decreases s.len(),
{
    if s.len() > 0 && is_ws(s[0]) {
        lemma_lead_ws(s.drop_first());
        assert forall|j: int| 0 <= j < lead_ws(s) implies is_ws(#[trigger] s[j]) by {
            if j > 0 {
                assert(s[j] == s.drop_first()[j - 1]);
            }
        }
    }
}

pub proof fn lemma_trail_ws(s: Seq<char>)
    ensures
        trail_ws(s) <= s.len(),
        forall|j: int| s.len() - trail_ws(s) <= j < s.len() ==> is_ws(#[trigger] s[j]),
        trail_ws(s) < s.len() ==> !is_ws(s[s.len() - trail_ws(s) - 1]),
    decreases s.len(),
{
    if s.len() > 0 && is_ws(s.last()) {
        lemma_trail_ws(s.drop_last());
        assert forall|j: int| s.len() - trail_ws(s) <= j < s.len() implies is_ws(
            #[trigger] s[j],
        ) by {
            if j < s.len() - 1 {
                assert(s[j] == s.drop_last()[j]);
            }
        }
    }
}

/// Index of the first non-whitespace character (or the length).
fn first_non_ws(v: &[char]) -> (k: usize)
    ensures
        k == lead_ws(v@),
{
    let n = v.len();
    let mut k: usize = 0;
    proof {
        lemma_lead_ws(v@);
    }
    while k < n && char_is_ws(v[k])
        invariant
            k <= n,
            n == v@.len(),
            forall|j: int| 0 <= j < k ==> is_ws(#[trigger] v@[j]),
            lead_ws(v@) <= v@.len(),
            forall|j: int| 0 <= j < lead_ws(v@) ==> is_ws(#[trigger] v@[j]),
            lead_ws(v@) < v@.len() ==> !is_ws(v@[lead_ws(v@) as int]),
        decreases n - k,
    {
        k = k + 1;
    }
    k
}

/// Index just past the last non-whitespace character (or 0).
fn past_last_non_ws(v: &[char]) -> (k: usize)
    ensures
        k == v@.len() - trail_ws(v@),
{
    let n = v.len();
    let mut k: usize = n;
    proof {
        lemma_trail_ws(v@);
    }
    while k > 0 && char_is_ws(v[k - 1])
        invariant
            k <= n,
            n == v@.len(),
            forall|j: int| k <= j < n ==> is_ws(#[trigger] v@[j]),
            trail_ws(v@) <= v@.len(),
            forall|j: int| v@.len() - trail_ws(v@) <= j < v@.len() ==> is_ws(#[trigger] v@[j]),
            trail_ws(v@) < v@.len() ==> !is_ws(v@[v@.len() - trail_ws(v@) - 1]),
        decreases k,
    {
        k = k - 1;
    }
    k
}

/// Characters `v[a..b]`.
pub fn sub_chars(v: &[char], a: usize, b: usize) -> (r: Vec<char>)
    requires
        a <= b <= v@.len(),
    ensures
        r@ == v@.subrange(a as int, b as int),
{
    let mut out: Vec<char> = Vec::new();
    for i in a..b
        invariant
            a <= b <= v@.len(),
            out@ == v@.subrange(a as int, i as int),
    {
        out.push(v[i]);
        assert(out@ =~= v@.subrange(a as int, i + 1));
    }
    out
}

/// `str::trim`.
pub fn trim(s: &str) -> (r: String)
    ensures
        r@ == trimmed(s@),
{
    let v = chars_of(s);
    let a = first_non_ws(&v);
    proof {
        lemma_lead_ws(v@);
    }
    let t = sub_chars(&v, a, v.len());
    assert(t@ =~= s@.skip(lead_ws(s@) as int));
    let b = past_last_non_ws(&t);
    let u = sub_chars(&t, 0, b);
    assert(u@ =~= t@.take(b as int));
    string_of(&u)
}

/// `split_whitespace().join(" ")`: whitespace runs collapse to one space, and
/// leading/trailing whitespace goes. `pending` holds when a space is owed
/// before the next word; `started` when a word has been emitted.
pub open spec fn squeeze(s: Seq<char>, pending: bool, started: bool) -> Seq<char>
    decreases s.len(),
{
    if s.len() == 0 {
        Seq::empty()
    } else if is_ws(s[0]) {
        squeeze(s.drop_first(), started, started)
    } else {
        (if pending {
            seq![' ']
        } else {
            Seq::empty()
        }) + seq![s[0]] + squeeze(s.drop_first(), false, true)
    }
}

pub open spec fn normalized_ws(s: Seq<char>) -> Seq<char> {
    squeeze(s, false, false)
}

/// `s.split_whitespace().collect::<Vec<_>>().join(" ")`.
pub fn normalize_ws(s: &str) -> (r: String)
    ensures
        r@ == normalized_ws(s@),
{
    let v = chars_of(s);
    let n = v.len();
    let mut out: Vec<char> = Vec::new();
    let mut pending = false;
    let mut started = false;
    assert(s@.skip(0) =~= s@);
    for i in 0..n
        invariant
            n == v@.len(),
            v@ == s@,
            out@ + squeeze(s@.skip(i as int), pending, started) == normalized_ws(s@),
    {
        let ghost rest = s@.skip(i as int);
        assert(rest.drop_first() =~= s@.skip(i + 1));
        assert(rest[0] == v@[i as int]);
        let c = v[i];
        if char_is_ws(c) {
            pending = started;
        } else {
            let ghost before = out@;
            let ghost p0 = pending;
            if pending {
                out.push(' ');
            }
            out.push(c);
            assert(out@ =~= before + (if p0 {
                seq![' ']
            } else {
                Seq::<char>::empty()
            }) + seq![c]);
            pending = false;
            started = true;
        }
    }
    assert(s@.skip(n as int) =~= Seq::<char>::empty());
    assert(out@ =~= normalized_ws(s@));
    string_of(&out)
}

/// Decimal rendering of a natural number (`to_string` of an unsigned integer).
pub open spec fn decimal(n: nat) -> Seq<char>
    decreases n,
{
    if n < 10 {
        seq![(48 + n) as char]
    } else {
        decimal(n / 10) + seq![(48 + n % 10) as char]
    }
}

pub fn u64_to_decimal(n: u64) -> (r: String)
    ensures
        r@ == decimal(n as nat),
{
    // digits, least significant first
    let mut rev: Vec<char> = Vec::new();
    let mut x: u64 = n;
    loop
        invariant_except_break
            decimal(n as nat) == decimal(x as nat) + rev@.reverse(),
        ensures
            decimal(n as nat) == rev@.reverse(),
        decreases x,
    {
        if x < 10 {
            let ghost r0 = rev@;
            rev.push(char_from_ascii((48 + x) as u32));
            assert(rev@.reverse() =~= seq![(48 + x) as char] + r0.reverse());
            assert(decimal(x as nat) == seq![(48 + x) as char]);
            break;
        }
        let d = x % 10;
        let ghost r0 = rev@;
        rev.push(char_from_ascii((48 + d) as u32));
        assert(rev@.reverse() =~= seq![(48 + d) as char] + r0.reverse());
        assert(decimal(x as nat) == decimal((x / 10) as nat) + seq![(48 + x % 10) as char]);
        x = x / 10;
    }
    let mut out: Vec<char> = Vec::new();
    let k = rev.len();
    for i in 0..k
        invariant
            k == rev@.len(),
            out@ == rev@.reverse().take(i as int),
    {
        out.push(rev[k - 1 - i]);
        assert(out@ =~= rev@.reverse().take(i + 1));
    }
    assert(out@ =~= rev@.reverse());
    string_of(&out)
}

pub open spec fn is_digit(c: char) -> bool {
    '0' <= c && c <= '9'
}

/// Value of a string of decimal digits.
pub open spec fn digits_value(d: Seq<char>) -> nat
    decreases d.len(),
{
    if d.len() == 0 {
        0
    } else {
        digits_value(d.drop_last()) * 10 + ((d.last() as u32) - 48) as nat
    }
}

/// The text after an optional leading `+`.
pub open spec fn sign_stripped(s: Seq<char>) -> Seq<char> {
    if s.len() > 0 && s[0] == '+' {
        s.drop_first()
    } else {
        s
    }
}

/// Every character is a decimal digit.
pub open spec fn all_digits(d: Seq<char>) -> bool {
    forall|i: int| 0 <= i < d.len() ==> is_digit(#[trigger] d[i])
}

/// `str::parse::<u64>`: an optional `+`, then one or more decimal digits,
/// with a value that fits in `u64`.
pub open spec fn parsed_u64(s: Seq<char>) -> Option<u64> {
    let d = sign_stripped(s);
    if d.len() > 0 && all_digits(d) && digits_value(d) <= u64::MAX {
        Some(digits_value(d) as u64)
    } else {
        None
    }
}

pub fn parse_u64(s: &str) -> (r: Option<u64>)
    ensures
        r == parsed_u64(s@),
{
    let v = chars_of(s);
    let n = v.len();
    let start: usize = if n > 0 && v[0] == '+' {
        1
    } else {
        0
    };
    let ghost d = sign_stripped(s@);
    assert(d =~= s@.skip(start as int));
    if start == n {
        return None;
    }
    let mut acc: u64 = 0;
    let mut i: usize = start;
    while i < n
        invariant
            start <= i <= n,
            start < n,
            n == v@.len(),
            d == sign_stripped(s@),
            v@ == s@,
            d == s@.skip(start as int),
            forall|j: int| 0 <= j < i - start ==> is_digit(#[trigger] d[j]),
            acc == digits_value(d.take(i - start)),
        decreases n - i,
    {
        let c = v[i];
        assert(d[i - start] == c);
        if !('0' <= c && c <= '9') {
            proof {
                let k = i - start;
                assert(!is_digit(d[k]));
                assert(!all_digits(d));
            }
            return None;
        }
        let digit = (c as u32 - 48) as u64;
        assert(d.take(i - start + 1).drop_last() =~= d.take(i - start));
        assert(d.take(i - start + 1).last() == c);
        assert(digits_value(d.take(i - start + 1)) == acc * 10 + digit);
        let next = acc.checked_mul(10);
        let next = match next {
            None => None,
            Some(m) => m.checked_add(digit),
        };
        match next {
            None => {
                proof {
                    assert(acc * 10 + digit > u64::MAX);
                    if all_digits(d) {
                        lemma_digits_value_mono(d, i - start + 1);
                        assert(digits_value(d) > u64::MAX);
                    }
                    }
                return None;
            },
            Some(x) => {
                acc = x;
            },
        }
        i = i + 1;
    }
    assert(d.take(n - start) =~= d);
    Some(acc)
}

/// A longer run of digits is worth at least as much as its prefix.
proof fn lemma_digits_value_mono(d: Seq<char>, k: int)
    requires
        0 <= k <= d.len(),
        forall|j: int| 0 <= j < d.len() ==> is_digit(#[trigger] d[j]),
    ensures
        digits_value(d.take(k)) <= digits_value(d),
    decreases d.len() - k,
{
    if k < d.len() {
        lemma_digits_value_mono(d, k + 1);
        assert(d.take(k + 1).drop_last() =~= d.take(k));
        assert(d.take(k + 1).last() == d[k]);
    } else {
        assert(d.take(k) =~= d);
    }
}

} // verus!
