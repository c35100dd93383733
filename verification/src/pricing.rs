//! Price lookup. Prices themselves are floating-point numbers kept by the
//! application; the library keeps the (provider, model) keys of a catalog in
//! order and answers which entry prices a request.
use vstd::prelude::*;
use vstd::string::*;
use crate::text::{chars_of, str_eq, string_of, sub_chars};

verus! {

/// The (provider, model) keys of a price catalog, in file order. A key that
/// occurs twice is priced by its last entry.
pub struct PricingIndex {
    pub keys: Vec<(String, String)>,
}

pub open spec fn keys_view(ks: Seq<(String, String)>) -> Seq<(Seq<char>, Seq<char>)> {
    ks.map_values(|k: (String, String)| (k.0@, k.1@))
}

/// The last entry with exactly this key.
pub open spec fn last_match(ks: Seq<(Seq<char>, Seq<char>)>, provider: Seq<char>, model: Seq<char>) -> Option<int>
    decreases ks.len(),
{
    if ks.len() == 0 {
        None
    } else if ks.last() == (provider, model) {
        Some(ks.len() - 1)
    } else {
        last_match(ks.drop_last(), provider, model)
    }
}

/// Position of the last `-`.
pub open spec fn last_dash(s: Seq<char>) -> Option<int>
    decreases s.len(),
{
    if s.len() == 0 {
        None
    } else if s.last() == '-' {
        Some(s.len() - 1)
    } else {
        last_dash(s.drop_last())
    }
}

pub open spec fn ascii_digits(s: Seq<char>) -> bool {
    forall|i: int| 0 <= i < s.len() ==> '0' <= #[trigger] s[i] <= '9'
}

/// The model without a trailing date: the part before the last `-` when
/// everything after it is ASCII digits (`rsplit_once('-')`).
pub open spec fn date_stripped(model: Seq<char>) -> Option<Seq<char>> {
    match last_dash(model) {
        Some(i) => if ascii_digits(model.skip(i + 1)) {
            Some(model.take(i))
        } else {
            None
        },
        None => None,
    }
}

/// The entry pricing a model: an exact match, else the match of the model
/// without its date suffix.
pub open spec fn price_index(ks: Seq<(Seq<char>, Seq<char>)>, provider: Seq<char>, model: Seq<char>) -> Option<int> {
    match last_match(ks, provider, model) {
        Some(i) => Some(i),
        None => match date_stripped(model) {
            Some(m) => last_match(ks, provider, m),
            None => None,
        },
    }
}

fn find_last(keys: &Vec<(String, String)>, provider: &str, model: &str) -> (r: Option<usize>)
    ensures
        match last_match(keys_view(keys@), provider@, model@) {
            Some(i) => r == Some(i as usize),
            None => r is None,
        },
{
    let ghost kv = keys_view(keys@);
    let mut found: Option<usize> = None;
    let n = keys.len();
    for i in 0..n
        invariant
            n == keys@.len(),
            kv == keys_view(keys@),
            match last_match(kv.take(i as int), provider@, model@) {
                Some(j) => found == Some(j as usize),
                None => found is None,
            },
    {
        assert(kv.take(i + 1).drop_last() =~= kv.take(i as int));
        assert(kv.take(i + 1).last() == (keys@[i as int].0@, keys@[i as int].1@));
        if str_eq(keys[i].0.as_str(), provider) && str_eq(keys[i].1.as_str(), model) {
            found = Some(i);
        }
    }
    assert(kv.take(n as int) =~= kv);
    found
}

fn strip_date(model: &str) -> (r: Option<String>)
    ensures
        match date_stripped(model@) {
            Some(m) => r matches Some(s) && s@ == m,
            None => r is None,
        },
{
    let v = chars_of(model);
    let mut k = v.len();
    assert(model@.take(k as int) =~= model@);
    while k > 0 && v[k - 1] != '-'
        invariant
            k <= v@.len(),
            v@ == model@,
            last_dash(model@) == last_dash(model@.take(k as int)),
        decreases k,
    {
        assert(model@.take(k as int).drop_last() =~= model@.take(k - 1));
        k = k - 1;
    }
    if k == 0 {
        assert(model@.take(0) =~= Seq::<char>::empty());
        return None;
    }
    let dash = k - 1;
    assert(model@.take(k as int).last() == '-');
    let n = v.len();
    for j in k..n
        invariant
            k <= n,
            n == v@.len(),
            v@ == model@,
            dash + 1 == k,
            last_dash(model@) == Some(dash as int),
            forall|t: int| k <= t < j ==> '0' <= #[trigger] v@[t] <= '9',
    {
        if !('0' <= v[j] && v[j] <= '9') {
            assert(model@.skip(k as int)[j - k] == v@[j as int]);
            return None;
        }
    }
    assert forall|t: int| 0 <= t < model@.skip(k as int).len() implies '0' <= #[trigger] model@.skip(
        k as int,
    )[t] <= '9' by {
        assert(model@.skip(k as int)[t] == v@[t + k]);
    }
    let head = sub_chars(&v, 0, dash);
    assert(head@ =~= model@.take(dash as int));
    Some(string_of(&head))
}

impl PricingIndex {
    pub fn from_keys(keys: Vec<(String, String)>) -> (r: PricingIndex)
        ensures
            keys_view(r.keys@) == keys_view(keys@),
    {
        PricingIndex { keys }
    }

    /// The entry pricing `model` of `provider`.
    pub fn lookup(&self, provider: &str, model: &str) -> (r: Option<usize>)
        ensures
            match price_index(keys_view(self.keys@), provider@, model@) {
                Some(i) => r == Some(i as usize),
                None => r is None,
            },
    {
        match find_last(&self.keys, provider, model) {
            Some(i) => Some(i),
            None => match strip_date(model) {
                Some(m) => find_last(&self.keys, provider, m.as_str()),
                None => None,
            },
        }
    }
}

/// A model name with a date suffix is priced like the name without it.
pub proof fn lemma_dated_model_priced_as_base(base: Seq<char>, date: Seq<char>)
    requires
        ascii_digits(date),
    ensures
        date_stripped(base + "-"@ + date) == Some(base),
{
    reveal_strlit("-");
    let m = base + "-"@ + date;
    lemma_last_dash_digits(base + "-"@, date);
    assert((base + "-"@).last() == '-');
    assert(m.skip(base.len() + 1int) =~= date);
    assert(m.take(base.len() as int) =~= base);
}

proof fn lemma_last_dash_digits(a: Seq<char>, d: Seq<char>)
    requires
        ascii_digits(d),
        a.len() > 0,
        a.last() == '-',
    ensures
        last_dash(a + d) == Some(a.len() - 1),
    decreases d.len(),
{
    if d.len() == 0 {
        assert(a + d =~= a);
    } else {
        assert((a + d).drop_last() =~= a + d.drop_last());
        assert((a + d).last() == d.last());
        assert('0' <= d[d.len() - 1] <= '9');
        lemma_last_dash_digits(a, d.drop_last());
    }
}

/// The token counts a price applies to: prompt tokens not served from the
/// provider's prompt cache, cached prompt tokens, completion tokens, each at
/// least zero.
pub open spec fn billable(prompt: i64, completion: i64, cached: i64) -> (int, int, int) {
    let fresh = prompt - cached;
    (
        if fresh < 0 { 0 } else { fresh },
        if cached < 0 { 0 } else { cached as int },
        if completion < 0 { 0 } else { completion as int },
    )
}

/// Token counts of a request, as priced.
#[derive(Debug, Clone, Copy, Default)]
pub struct TokenUsage {
    pub prompt: i64,
    pub completion: i64,
    pub cached: i64,
}

pub fn billable_tokens(u: TokenUsage) -> (r: (u64, u64, u64))
    requires
        i64::MIN <= u.prompt - u.cached <= i64::MAX,
    ensures
        (r.0 as int, r.1 as int, r.2 as int) == billable(u.prompt, u.completion, u.cached),
{
    let prompt = u.prompt;
    let completion = u.completion;
    let cached = u.cached;
    let fresh = prompt - cached;
    let a: u64 = if fresh < 0 {
        0
    } else {
        fresh as u64
    };
    let b: u64 = if cached < 0 {
        0
    } else {
        cached as u64
    };
    let c: u64 = if completion < 0 {
        0
    } else {
        completion as u64
    };
    (a, b, c)
}

} // verus!
