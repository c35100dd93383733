//! One-line samples of request bodies for the request log list: the head and
//! tail of each chat message, or of the raw body.
use vstd::prelude::*;
use vstd::string::*;
use crate::json::{JsonValue, json_get, json_str};
use crate::text::{chars_of, normalize_ws, normalized_ws, push_str, string_of, sub_chars};

verus! {

/// Characters kept from the head and from the tail of each message.
pub open spec fn head_chars() -> nat {
    24
}

/// Cap of the whole preview, in characters.
pub open spec fn max_preview_chars() -> nat {
    400
}

/// The first `head` and last `tail` characters joined by an ellipsis, or the
/// text itself when it is at most `head + tail + 1` characters long.
pub open spec fn clipped(s: Seq<char>, head: nat, tail: nat) -> Seq<char> {
    if s.len() <= head + tail + 1 {
        s
    } else {
        s.take(head as int) + seq!['\u{2026}'] + s.skip(s.len() - tail)
    }
}

/// Keep the first `head` and last `tail` chars, joined by an ellipsis.
pub fn clip_middle(s: &str, head: usize, tail: usize) -> (r: String)
    requires
        head + tail + 1 <= usize::MAX,
    ensures
        r@ == clipped(s@, head as nat, tail as nat),
{
    let chars = chars_of(s);
    let n = chars.len();
    if n <= head + tail + 1 {
        return string_of(&chars);
    }
    let h = sub_chars(&chars, 0, head);
    let t = sub_chars(&chars, n - tail, n);
    let mut out = string_of(&h);
    crate::text::push_char(&mut out, '\u{2026}');
    push_str(&mut out, string_of(&t).as_str());
    assert(out@ =~= clipped(s@, head as nat, tail as nat));
    out
}

/// Text of the parts of a block array: each part's `text` string, joined by
/// single spaces.
pub open spec fn parts_text(parts: Seq<JsonValue>) -> Seq<char>
    decreases parts.len(),
{
    if parts.len() == 0 {
        Seq::empty()
    } else {
        let acc = parts_text(parts.drop_last());
        match json_get(parts.last(), "text"@) {
            Some(t) => match json_str(t) {
                Some(x) => if acc.len() == 0 {
                    x
                } else {
                    acc + seq![' '] + x
                },
                None => acc,
            },
            None => acc,
        }
    }
}

/// Plain text of a message `content`: a string, or the text blocks of a
/// block array (when there is any text).
pub open spec fn content_of(v: JsonValue) -> Option<Seq<char>> {
    match v {
        JsonValue::String(s) => Some(s@),
        JsonValue::Array(parts) => if parts_text(parts@).len() > 0 {
            Some(parts_text(parts@))
        } else {
            None
        },
        _ => None,
    }
}

/// Pull plain text out of a message `content`.
pub fn content_text(v: &JsonValue) -> (r: Option<String>)
    ensures
        match r {
            Some(s) => content_of(*v) == Some(s@),
            None => content_of(*v) is None,
        },
{
    match v {
        JsonValue::String(s) => Some(s.clone()),
        JsonValue::Array(parts) => {
            let mut out = String::new();
            let n = parts.len();
            for i in 0..n
                invariant
                    n == parts@.len(),
                    out@ == parts_text(parts@.take(i as int)),
            {
                assert(parts@.take(i + 1).drop_last() =~= parts@.take(i as int));
                if let Some(t) = parts[i].get("text") {
                    if let Some(x) = t.as_str() {
                        if out.as_str().unicode_len() > 0 {
                            crate::text::push_char(&mut out, ' ');
                        }
                        push_str(&mut out, x);
                    }
                }
                assert(out@ =~= parts_text(parts@.take(i + 1)));
            }
            assert(parts@.take(n as int) =~= parts@);
            if out.as_str().unicode_len() > 0 {
                Some(out)
            } else {
                None
            }
        },
        _ => None,
    }
}

/// The role of a message, `?` when it has none.
pub open spec fn role_of(m: JsonValue) -> Seq<char> {
    match json_get(m, "role"@) {
        Some(r) => match json_str(r) {
            Some(s) => s,
            None => "?"@,
        },
        None => "?"@,
    }
}

/// The message part of a preview: for each message with text, `role: ` and
/// the clipped text, separated by ` | `; it stops once 400 characters are
/// reached.
pub open spec fn messages_preview(ms: Seq<JsonValue>, acc: Seq<char>) -> Seq<char>
    decreases ms.len(),
{
    if ms.len() == 0 {
        acc
    } else {
        match match json_get(ms[0], "content"@) {
            Some(c) => content_of(c),
            None => None,
        } {
            None => messages_preview(ms.drop_first(), acc),
            Some(text) => {
                let acc2 = (if acc.len() > 0 {
                    acc + " | "@
                } else {
                    acc
                }) + role_of(ms[0]) + ": "@ + clipped(normalized_ws(text), 24, 24);
                if acc2.len() >= max_preview_chars() {
                    acc2
                } else {
                    messages_preview(ms.drop_first(), acc2)
                }
            },
        }
    }
}

/// The messages of a chat request body, if it has a `messages` array.
pub open spec fn chat_messages(parsed: Option<JsonValue>) -> Option<Seq<JsonValue>> {
    match parsed {
        Some(v) => match json_get(v, "messages"@) {
            Some(JsonValue::Array(a)) => Some(a@),
            _ => None,
        },
        None => None,
    }
}

/// The preview before the overall cap.
pub open spec fn preview_uncapped(body: Seq<char>, parsed: Option<JsonValue>) -> Seq<char> {
    let from_msgs = match chat_messages(parsed) {
        Some(ms) => messages_preview(ms, Seq::empty()),
        None => Seq::empty(),
    };
    if from_msgs.len() == 0 {
        clipped(normalized_ws(body), 60, 60)
    } else {
        from_msgs
    }
}

/// The preview of a request body (`parsed` is the body parsed as JSON, when
/// it is JSON), capped at 400 characters plus an ellipsis; `None` when empty.
pub open spec fn preview_of(body: Seq<char>, parsed: Option<JsonValue>) -> Option<Seq<char>> {
    let p = preview_uncapped(body, parsed);
    let capped = if p.len() > max_preview_chars() {
        p.take(max_preview_chars() as int) + seq!['\u{2026}']
    } else {
        p
    };
    if capped.len() == 0 {
        None
    } else {
        Some(capped)
    }
}

fn message_text(m: &JsonValue) -> (r: Option<String>)
    ensures
        match r {
            Some(s) => (match json_get(*m, "content"@) {
                Some(c) => content_of(c),
                None => None,
            }) == Some(s@),
            None => (match json_get(*m, "content"@) {
                Some(c) => content_of(c),
                None => None,
            }) is None,
        },
{
    match m.get("content") {
        Some(c) => content_text(c),
        None => None,
    }
}

fn role_text(m: &JsonValue) -> (r: String)
    ensures
        r@ == role_of(*m),
{
    match m.get("role") {
        Some(r) => match r.as_str() {
            Some(s) => String::from_str(s),
            None => String::from_str("?"),
        },
        None => String::from_str("?"),
    }
}

/// Build a one-line sample of a chat request body for the list view: for
/// each entry in `messages`, keep the head and tail of its content joined with
/// an ellipsis. Non-chat bodies (or ones not valid JSON) fall back to a
/// head/tail sample of the raw body.
pub fn request_preview(body: &str, parsed: Option<&JsonValue>) -> (r: Option<String>)
    ensures
        match r {
            Some(s) => preview_of(body@, match parsed {
                Some(v) => Some(*v),
                None => None,
            }) == Some(s@),
            None => preview_of(body@, match parsed {
                Some(v) => Some(*v),
                None => None,
            }) is None,
        },
{
    let ghost pv = match parsed {
        Some(v) => Some(*v),
        None => None,
    };
    let mut out = String::new();
    let msgs: Option<&Vec<JsonValue>> = match parsed {
        Some(v) => match v.get("messages") {
            Some(m) => m.as_array(),
            None => None,
        },
        None => None,
    };
    let ghost from_msgs = match chat_messages(pv) {
        Some(ms) => messages_preview(ms, Seq::empty()),
        None => Seq::empty(),
    };
    if let Some(ms) = msgs {
        let n = ms.len();
        let mut i: usize = 0;
        assert(ms@.skip(0) =~= ms@);
        while i < n
            invariant_except_break
                i <= n,
                n == ms@.len(),
                messages_preview(ms@, Seq::empty()) == messages_preview(ms@.skip(i as int), out@),
            ensures
                messages_preview(ms@, Seq::empty()) == out@,
            decreases n - i,
        {
            let ghost rest = ms@.skip(i as int);
            assert(rest.drop_first() =~= ms@.skip(i + 1));
            assert(rest[0] == ms@[i as int]);
            match message_text(&ms[i]) {
                None => {},
                Some(text) => {
                    let role = role_text(&ms[i]);
                    if out.as_str().unicode_len() > 0 {
                        push_str(&mut out, " | ");
                    }
                    push_str(&mut out, role.as_str());
                    push_str(&mut out, ": ");
                    let norm = normalize_ws(text.as_str());
                    let clip = clip_middle(norm.as_str(), 24, 24);
                    push_str(&mut out, clip.as_str());
                    if out.as_str().unicode_len() >= 400 {
                        break;
                    }
                },
            }
            i = i + 1;
        }
        if i == n {
            assert(ms@.skip(n as int) =~= Seq::<JsonValue>::empty());
        }
    }
    assert(out@ == from_msgs);
    if out.as_str().unicode_len() == 0 {
        let norm = normalize_ws(body);
        out = clip_middle(norm.as_str(), 60, 60);
    }
    assert(out@ == preview_uncapped(body@, pv));
    let count = out.as_str().unicode_len();
    if count > 400 {
        let chars = chars_of(out.as_str());
        let head = sub_chars(&chars, 0, 400);
        let mut capped = string_of(&head);
        crate::text::push_char(&mut capped, '\u{2026}');
        out = capped;
    }
    if out.as_str().unicode_len() == 0 {
        None
    } else {
        Some(out)
    }
}

} // verus!
