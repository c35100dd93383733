//! HTTP headers as the gateway reads them: lowercase names with raw values,
//! in order.
use vstd::prelude::*;
use vstd::slice::slice_to_vec;
use crate::text::{ascii_lower, char_from_ascii, string_of, str_eq};

verus! {

pub struct Header {
    /// Lowercase header name.
    pub name: String,
    /// Raw value bytes.
    pub value: Vec<u8>,
}

pub struct HeaderList {
    pub entries: Vec<Header>,
}

/// `HeaderValue::to_str` accepts visible ASCII and tab.
pub open spec fn visible_ascii(b: u8) -> bool {
    (32 <= b && b < 127) || b == 9
}

/// The value as text, when every byte is visible ASCII or tab.
pub open spec fn value_text(v: Seq<u8>) -> Option<Seq<char>> {
    if forall|i: int| 0 <= i < v.len() ==> visible_ascii(#[trigger] v[i]) {
        Some(Seq::new(v.len(), |i: int| v[i] as char))
    } else {
        None
    }
}

/// Index of the first entry named `name`.
pub open spec fn first_named(hs: Seq<Header>, name: Seq<char>) -> Option<int>
    decreases hs.len(),
{
    if hs.len() == 0 {
        None
    } else if hs.last().name@ == name && first_named(hs.drop_last(), name) is None {
        Some(hs.len() - 1)
    } else {
        first_named(hs.drop_last(), name)
    }
}

/// `headers.get(name).and_then(|v| v.to_str().ok())`.
pub open spec fn header_text(hs: Seq<Header>, name: Seq<char>) -> Option<Seq<char>> {
    match first_named(hs, name) {
        Some(i) => value_text(hs[i].value@),
        None => None,
    }
}

pub fn ascii_value_text(v: &[u8]) -> (r: Option<String>)
    ensures
        match r {
            Some(s) => value_text(v@) == Some(s@),
            None => value_text(v@) is None,
        },
{
    let n = v.len();
    let mut out: Vec<char> = Vec::new();
    for i in 0..n
        invariant
            n == v@.len(),
            out@.len() == i,
            forall|j: int| 0 <= j < i ==> visible_ascii(#[trigger] v@[j]),
            forall|j: int| 0 <= j < i ==> #[trigger] out@[j] == v@[j] as char,
    {
        let b = v[i];
        if !((32 <= b && b < 127) || b == 9) {
            return None;
        }
        out.push(char_from_ascii(b as u32));
    }
    assert(out@ =~= Seq::new(v@.len(), |i: int| v@[i] as char));
    Some(string_of(&out))
}

impl HeaderList {
    /// The first value under `name` (a lowercase name), as text when it is
    /// visible ASCII.
    pub fn get_str(&self, name: &str) -> (r: Option<String>)
        ensures
            match r {
                Some(s) => header_text(self.entries@, name@) == Some(s@),
                None => header_text(self.entries@, name@) is None,
            },
    {
        let n = self.entries.len();
        for i in 0..n
            invariant
                n == self.entries@.len(),
                first_named(self.entries@.take(i as int), name@) is None,
        {
            assert(self.entries@.take(i + 1).drop_last() =~= self.entries@.take(i as int));
            if str_eq(self.entries[i].name.as_str(), name) {
                proof {
                    lemma_first_named_prefix(self.entries@, i as int + 1, name@);
                }
                return ascii_value_text(self.entries[i].value.as_slice());
            }
        }
        assert(self.entries@.take(n as int) =~= self.entries@);
        None
    }
}

/// Looking further than the first match changes nothing.
proof fn lemma_first_named_prefix(hs: Seq<Header>, k: int, name: Seq<char>)
    requires
        0 < k <= hs.len(),
        first_named(hs.take(k), name) is Some,
    ensures
        first_named(hs, name) == first_named(hs.take(k), name),
    decreases hs.len() - k,
{
    if k < hs.len() {
        assert(hs.take(k + 1).drop_last() =~= hs.take(k));
        assert(first_named(hs.take(k + 1), name) == first_named(hs.take(k), name));
        lemma_first_named_prefix(hs, k + 1, name);
    } else {
        assert(hs.take(k) =~= hs);
    }
}

/// The entries as (name, value bytes) pairs.
pub open spec fn hview(hs: Seq<Header>) -> Seq<(Seq<char>, Seq<u8>)> {
    hs.map_values(|h: Header| (h.name@, h.value@))
}

/// Some entry is named `name`.
pub open spec fn named_in(hv: Seq<(Seq<char>, Seq<u8>)>, name: Seq<char>) -> bool
    decreases hv.len(),
{
    hv.len() > 0 && (hv.last().0 == name || named_in(hv.drop_last(), name))
}

/// The entries without any named `name`.
pub open spec fn without(hv: Seq<(Seq<char>, Seq<u8>)>, name: Seq<char>) -> Seq<(Seq<char>, Seq<u8>)>
    decreases hv.len(),
{
    if hv.len() == 0 {
        hv
    } else if hv.last().0 == name {
        without(hv.drop_last(), name)
    } else {
        without(hv.drop_last(), name).push(hv.last())
    }
}

/// The first entry named `name` takes `value`; later ones go.
pub open spec fn replace_first(hv: Seq<(Seq<char>, Seq<u8>)>, name: Seq<char>, value: Seq<u8>) -> Seq<
    (Seq<char>, Seq<u8>),
>
    decreases hv.len(),
{
    if hv.len() == 0 {
        hv
    } else {
        let r = replace_first(hv.drop_last(), name, value);
        if hv.last().0 == name {
            if named_in(hv.drop_last(), name) {
                r
            } else {
                r.push((name, value))
            }
        } else {
            r.push(hv.last())
        }
    }
}

/// `HeaderMap::insert`: the value replaces every value under the name, in
/// the place of the first; a new name goes last.
pub open spec fn inserted(hv: Seq<(Seq<char>, Seq<u8>)>, name: Seq<char>, value: Seq<u8>) -> Seq<
    (Seq<char>, Seq<u8>),
> {
    if named_in(hv, name) {
        replace_first(hv, name, value)
    } else {
        hv.push((name, value))
    }
}

/// Every name is in lower case, as `HeaderMap` keeps its names.
pub open spec fn names_lower(hv: Seq<(Seq<char>, Seq<u8>)>) -> bool {
    forall|i: int| #![trigger hv[i]] 0 <= i < hv.len() ==> ascii_lower(hv[i].0) == hv[i].0
}

/// A name with no upper-case ASCII letter.
pub open spec fn is_lower(name: Seq<char>) -> bool {
    ascii_lower(name) == name
}

/// A name made of lower-case letters, digits and `-` is lower case.
pub proof fn lemma_plain_name_lower(name: Seq<char>)
    requires
        forall|i: int| 0 <= i < name.len() ==> ('a' <= #[trigger] name[i] <= 'z') || ('0' <= name[i] <= '9')
            || name[i] == '-',
    ensures
        is_lower(name),
{
    assert(ascii_lower(name) =~= name);
}

/// Lowering twice is lowering once.
pub proof fn lemma_lower_idempotent(name: Seq<char>)
    ensures
        is_lower(ascii_lower(name)),
{
    assert(ascii_lower(ascii_lower(name)) =~= ascii_lower(name));
}

proof fn lemma_replace_first_lower(hv: Seq<(Seq<char>, Seq<u8>)>, name: Seq<char>, value: Seq<u8>)
    requires
        names_lower(hv),
        is_lower(name),
    ensures
        names_lower(replace_first(hv, name, value)),
    decreases hv.len(),
{
    if hv.len() > 0 {
        lemma_replace_first_lower(hv.drop_last(), name, value);
        assert(hv.last() == hv[hv.len() - 1]);
    }
}

proof fn lemma_without_lower(hv: Seq<(Seq<char>, Seq<u8>)>, name: Seq<char>)
    requires
        names_lower(hv),
    ensures
        names_lower(without(hv, name)),
    decreases hv.len(),
{
    if hv.len() > 0 {
        lemma_without_lower(hv.drop_last(), name);
        assert(hv.last() == hv[hv.len() - 1]);
    }
}

/// Setting a lower-case name keeps every name lower case.
pub proof fn lemma_inserted_lower(hv: Seq<(Seq<char>, Seq<u8>)>, name: Seq<char>, value: Seq<u8>)
    requires
        names_lower(hv),
        is_lower(name),
    ensures
        names_lower(inserted(hv, name, value)),
{
    if named_in(hv, name) {
        lemma_replace_first_lower(hv, name, value);
    }
}

impl Header {
    pub fn copy(&self) -> (r: Header)
        ensures
            r.name@ == self.name@,
            r.value@ == self.value@,
    {
        Header { name: String::from_str(self.name.as_str()), value: slice_to_vec(self.value.as_slice()) }
    }
}

impl HeaderList {
    pub open spec fn pairs(&self) -> Seq<(Seq<char>, Seq<u8>)> {
        hview(self.entries@)
    }

    /// Well formed: every name is in lower case.
    pub open spec fn wf(&self) -> bool {
        names_lower(self.pairs())
    }

    pub fn new() -> (r: HeaderList)
        ensures
            r.pairs() == Seq::<(Seq<char>, Seq<u8>)>::empty(),
            r.wf(),
    {
        let r = HeaderList { entries: Vec::new() };
        assert(r.pairs() =~= Seq::<(Seq<char>, Seq<u8>)>::empty());
        r
    }

    /// `HeaderMap::append`: one more entry, last.
    pub fn append(&mut self, name: String, value: Vec<u8>)
        ensures
            final(self).pairs() == old(self).pairs().push((name@, value@)),
            old(self).wf() && is_lower(name@) ==> final(self).wf(),
    {
        self.entries.push(Header { name, value });
        assert(self.pairs() =~= old(self).pairs().push((name@, value@)));
    }

    /// `HeaderMap::contains_key`.
    pub fn contains(&self, name: &str) -> (r: bool)
        ensures
            r == named_in(self.pairs(), name@),
    {
        let n = self.entries.len();
        for i in 0..n
            invariant
                n == self.entries@.len(),
                !named_in(hview(self.entries@.take(i as int)), name@),
        {
            assert(hview(self.entries@.take(i + 1)).drop_last() =~= hview(self.entries@.take(i as int)));
            if str_eq(self.entries[i].name.as_str(), name) {
                proof {
                    lemma_named_in_extends(hview(self.entries@), i + 1, name@);
                }
                return true;
            }
        }
        assert(self.entries@.take(n as int) =~= self.entries@);
        false
    }

    /// `HeaderMap::remove`: every entry under the name goes.
    pub fn remove(&mut self, name: &str)
        ensures
            final(self).pairs() == without(old(self).pairs(), name@),
            old(self).wf() ==> final(self).wf(),
    {
        let mut out: Vec<Header> = Vec::new();
        let n = self.entries.len();
        for i in 0..n
            invariant
                n == self.entries@.len(),
                hview(out@) == without(hview(self.entries@.take(i as int)), name@),
        {
            assert(hview(self.entries@.take(i + 1)).drop_last() =~= hview(self.entries@.take(i as int)));
            if !str_eq(self.entries[i].name.as_str(), name) {
                let ghost before = out@;
                out.push(self.entries[i].copy());
                assert(hview(out@) =~= hview(before).push(hview(self.entries@)[i as int]));
            }
        }
        assert(self.entries@.take(n as int) =~= self.entries@);
        self.entries = out;
        proof {
            if old(self).wf() {
                lemma_without_lower(old(self).pairs(), name@);
            }
        }
    }

    /// `HeaderMap::insert`.
    pub fn insert(&mut self, name: &str, value: Vec<u8>)
        ensures
            final(self).pairs() == inserted(old(self).pairs(), name@, value@),
            old(self).wf() && is_lower(name@) ==> final(self).wf(),
    {
        let mut out: Vec<Header> = Vec::new();
        let mut placed = false;
        let n = self.entries.len();
        for i in 0..n
            invariant
                n == self.entries@.len(),
                hview(out@) == replace_first(hview(self.entries@.take(i as int)), name@, value@),
                placed == named_in(hview(self.entries@.take(i as int)), name@),
        {
            assert(hview(self.entries@.take(i + 1)).drop_last() =~= hview(self.entries@.take(i as int)));
            if str_eq(self.entries[i].name.as_str(), name) {
                if !placed {
                    let ghost before = out@;
                    out.push(Header { name: String::from_str(name), value: slice_to_vec(value.as_slice()) });
                    assert(hview(out@) =~= hview(before).push((name@, value@)));
                    placed = true;
                }
            } else {
                let ghost before = out@;
                out.push(self.entries[i].copy());
                assert(hview(out@) =~= hview(before).push(hview(self.entries@)[i as int]));
            }
        }
        assert(self.entries@.take(n as int) =~= self.entries@);
        if !placed {
            let ghost before = out@;
            proof {
                lemma_replace_first_absent(hview(self.entries@), name@, value@);
            }
            out.push(Header { name: String::from_str(name), value });
            assert(hview(out@) =~= hview(before).push((name@, value@)));
        }
        self.entries = out;
        proof {
            if old(self).wf() && is_lower(name@) {
                lemma_inserted_lower(old(self).pairs(), name@, value@);
            }
        }
    }
}

/// A name found in a prefix is found in the whole.
proof fn lemma_named_in_extends(hv: Seq<(Seq<char>, Seq<u8>)>, k: int, name: Seq<char>)
    requires
        0 < k <= hv.len(),
        hv[k - 1].0 == name,
    ensures
        named_in(hv, name),
    decreases hv.len() - k,
{
    if k < hv.len() {
        lemma_named_in_extends(hv.drop_last(), k, name);
    }
}

/// Where the name is absent, replacing changes nothing.
proof fn lemma_replace_first_absent(hv: Seq<(Seq<char>, Seq<u8>)>, name: Seq<char>, value: Seq<u8>)
    requires
        !named_in(hv, name),
    ensures
        replace_first(hv, name, value) == hv,
    decreases hv.len(),
{
    if hv.len() > 0 {
        lemma_replace_first_absent(hv.drop_last(), name, value);
        assert(hv.drop_last().push(hv.last()) =~= hv);
    }
}

} // verus!
