//! What one exchange with a living service asks for.

use vstd::prelude::*;
use crate::iso::paths::{expand_known, known_from};
use crate::observations::Observations;
use crate::strmap::{StrMap, keys_of, lemma_map_of_ascending};
use crate::text::{begins, decimal};
use crate::value::{Value, json_text, to_json};

verus! {

/// What one step asked for, read out of its opaque `request:` block.
#[derive(Debug)]
pub struct Exchange {
    /// The HTTP method, uppercased. `GET` when the step does not say.
    pub method: String,
    /// The path, always starting with `/`.
    pub path: String,
    /// The request body, empty when there is none.
    pub body: String,
    /// Headers to send.
    pub headers: StrMap<String>,
}

/// `text` in upper case, as `str::to_uppercase` writes it.
pub uninterp spec fn uppercased(text: Seq<char>) -> Seq<char>;

/// `text` in upper case.
///
/// Calls `str::to_uppercase`, which maps each character by Unicode's uppercase mapping; the
/// result is named rather than spelled out.
#[verifier::external_body]
fn to_upper(text: &str) -> (out: String)
    ensures
        out@ == uppercased(text@),
{
    text.to_uppercase()
}

/// The text a block holds under `key`, when it holds a string there.
pub open spec fn string_spec(block: Map<Seq<char>, Value>, key: Seq<char>) -> Option<Seq<char>> {
    if block.contains_key(key) && block[key] is String {
        Some(block[key]->String_0@)
    } else {
        None
    }
}

/// A string value from the opaque block.
pub fn string(block: &StrMap<Value>, key: &str) -> (r: Option<String>)
    ensures
        match r {
            Some(s) => string_spec(block@, key@) == Some(s@),
            None => string_spec(block@, key@) is None,
        },
{
    match block.get(key) {
        Some(Value::String(s)) => Some(s.clone()),
        _ => None,
    }
}

/// The string members of `members`, later ones replacing earlier ones of the same key.
pub open spec fn string_members(members: Seq<(String, Value)>) -> Map<Seq<char>, String>
    decreases members.len(),
{
    if members.len() == 0 {
        Map::empty()
    } else {
        match members.last().1 {
            Value::String(s) => string_members(members.drop_last()).insert(members.last().0@, s),
            _ => string_members(members.drop_last()),
        }
    }
}

/// The string map a block holds under `key`: the string members of an object there, or nothing.
pub open spec fn map_spec(block: Map<Seq<char>, Value>, key: Seq<char>) -> Map<Seq<char>, String> {
    if block.contains_key(key) && block[key] is Object {
        string_members(block[key]->Object_0@)
    } else {
        Map::empty()
    }
}

/// A string map from the opaque block.
pub fn map(block: &StrMap<Value>, key: &str) -> (out: StrMap<String>)
    ensures
        out@ == map_spec(block@, key@),
{
    let mut out: StrMap<String> = StrMap::new();
    match block.get(key) {
        Some(Value::Object(members)) => {
            let mut i: usize = 0;
            while i < members.len()
                invariant
                    i <= members@.len(),
                    out@ == string_members(members@.take(i as int)),
                decreases members@.len() - i,
            {
                assert(members@.take(i + 1).drop_last() =~= members@.take(i as int));
                match &members[i].1 {
                    Value::String(s) => {
                        out.insert(members[i].0.clone(), s.clone());
                    },
                    _ => {},
                }
                i = i + 1;
            }
            assert(members@.take(members@.len() as int) =~= members@);
        },
        _ => {
            assert(out@ =~= map_spec(block@, key@));
        },
    }
    out
}

/// The body, whether the case wrote it as a string or as a JSON value.
pub open spec fn body_spec(block: Map<Seq<char>, Value>) -> Seq<char> {
    if !block.contains_key("body"@) {
        Seq::empty()
    } else {
        match block["body"@] {
            Value::String(text) => text@,
            other => json_text(other),
        }
    }
}

/// The body, whether the case wrote it as a string or as a JSON value. Written as a mapping, it is
/// sent as JSON.
pub fn body_of(block: &StrMap<Value>) -> (out: String)
    ensures
        out@ == body_spec(block@),
{
    match block.get("body") {
        None => String::new(),
        Some(Value::String(text)) => text.clone(),
        Some(other) => to_json(other),
    }
}

/// A path with its leading slash, added when the case left it out.
pub open spec fn normalised(path: Seq<char>) -> Seq<char> {
    if begins(path, "/"@) {
        path
    } else {
        "/"@ + path
    }
}

/// A leading slash, added when the case left it out.
pub fn normalise(path: &str) -> (out: String)
    ensures
        out@ == normalised(path@),
{
    if crate::text::starts_with(path, "/") {
        String::from_str(path)
    } else {
        crate::text::concat("/", path)
    }
}

/// Reads a step's `request:` block.
///
/// Everything is optional: a step that says nothing performs `GET /`.
pub fn read(block: &StrMap<Value>) -> (ex: Exchange)
    ensures
        ex.method@ == uppercased(
            match string_spec(block@, "method"@) {
                Some(m) => m,
                None => "GET"@,
            },
        ),
        ex.path@ == normalised(
            match string_spec(block@, "path"@) {
                Some(p) => p,
                None => "/"@,
            },
        ),
        ex.body@ == body_spec(block@),
        ex.headers@ == map_spec(block@, "headers"@),
{
    let method = match string(block, "method") {
        Some(m) => m,
        None => String::from_str("GET"),
    };
    let path = match string(block, "path") {
        Some(p) => p,
        None => String::from_str("/"),
    };
    Exchange {
        method: to_upper(method.as_str()),
        path: normalise(path.as_str()),
        body: body_of(block),
        headers: map(block, "headers"),
    }
}

/// The same exchange with `names` substituted into its path, body and headers.
///
/// Unknown names are left literal, so a capture that found nothing fails visibly.
pub fn substituted(exchange: Exchange, names: &StrMap<String>) -> (ex: Exchange)
    ensures
        ex.method@ == exchange.method@,
        ex.path@ == known_from(exchange.path@, 0, names@),
        ex.body@ == known_from(exchange.body@, 0, names@),
        ex.headers@.dom() == exchange.headers@.dom(),
        forall|k: Seq<char>|
            #[trigger] exchange.headers@.contains_key(k) ==> ex.headers@[k]@ == known_from(
                exchange.headers@[k]@,
                0,
                names@,
            ),
{
    let pairs = exchange.headers.pairs_vec();
    proof {
        exchange.headers.lemma_view();
        lemma_map_of_ascending(exchange.headers.pairs());
    }
    let ghost old_headers = exchange.headers@;
    let mut headers: StrMap<String> = StrMap::new();
    let mut i: usize = 0;
    while i < pairs.len()
        invariant
            i <= pairs@.len(),
            pairs@ == exchange.headers.pairs(),
            old_headers == exchange.headers@,
            forall|j: int|
                0 <= j < pairs@.len() ==> old_headers.contains_key(#[trigger] pairs@[j].0@)
                    && old_headers[pairs@[j].0@] == pairs@[j].1,
            forall|k: Seq<char>| old_headers.contains_key(k) <==> keys_of(exchange.headers.pairs()).contains(k),
            forall|k: Seq<char>|
                #[trigger] headers@.contains_key(k) <==> exists|j: int| 0 <= j < i && #[trigger] pairs@[j].0@ == k,
            forall|k: Seq<char>|
                #[trigger] headers@.contains_key(k) ==> headers@[k]@ == known_from(old_headers[k]@, 0, names@),
        decreases pairs@.len() - i,
    {
        let ghost key = pairs@[i as int].0@;
        let value = expand_known(pairs[i].1.as_str(), names);
        headers.insert(pairs[i].0.clone(), value);
        proof {
            assert forall|k: Seq<char>|
                #[trigger] headers@.contains_key(k) <==> exists|j: int| 0 <= j < i + 1 && #[trigger] pairs@[j].0@ == k by {
                if k == key {
                    assert(pairs@[i as int].0@ == k);
                }
            }
        }
        i = i + 1;
    }
    proof {
        assert forall|k: Seq<char>| #[trigger] headers@.contains_key(k) <==> old_headers.contains_key(k) by {
            if old_headers.contains_key(k) {
                let ks = keys_of(exchange.headers.pairs());
                let j = ks.index_of(k);
                assert(0 <= j < ks.len() && ks[j] == k);
                assert(pairs@[j].0@ == k);
            }
        }
        assert(headers@.dom() =~= old_headers.dom());
    }
    let path = expand_known(exchange.path.as_str(), names);
    let body = expand_known(exchange.body.as_str(), names);
    Exchange { method: exchange.method, path, body, headers }
}

/// The URL to call for an exchange on the service listening at `port`.
pub open spec fn url_spec(path: Seq<char>, port: u16) -> Seq<char> {
    "http://127.0.0.1:"@ + decimal(port as nat) + path
}

/// The URL to call for `exchange` on the service listening at `port`.
pub fn url_for(exchange: &Exchange, port: u16) -> (url: String)
    ensures
        url@ == url_spec(exchange.path@, port),
{
    let mut url = String::from_str("http://127.0.0.1:");
    url.append(crate::text::decimal_string(port as u64).as_str());
    url.append(exchange.path.as_str());
    url
}

/// The pairs of a response's headers as a map: a name given twice keeps its last value.
pub open spec fn header_map(headers: Seq<(String, String)>) -> Map<Seq<char>, String>
    decreases headers.len(),
{
    if headers.len() == 0 {
        Map::empty()
    } else {
        header_map(headers.drop_last()).insert(headers.last().0@, headers.last().1)
    }
}

/// What an exchange observed when the service answered: its status, its headers as received —
/// spelling included — and its body. An answer is an observation whatever its status.
pub fn answered_with(status: u16, headers: Vec<(String, String)>, body: String) -> (o: Observations)
    ensures
        o.status == Some(status),
        o.headers@ == header_map(headers@),
        o.body == body,
        o.exit == 0,
        o.stdout@.len() == 0,
        o.stderr@.len() == 0,
        o.calls@.len() == 0,
        o.steps@.len() == 0,
{
    let mut o = Observations::empty();
    let mut i: usize = 0;
    assert(headers@.take(0).len() == 0);
    while i < headers.len()
        invariant
            i <= headers@.len(),
            o.headers@ == header_map(headers@.take(i as int)),
            o.status is None,
            o.exit == 0,
            o.stdout@.len() == 0,
            o.stderr@.len() == 0,
            o.calls@.len() == 0,
            o.steps@.len() == 0,
        decreases headers@.len() - i,
    {
        assert(headers@.take(i + 1).drop_last() =~= headers@.take(i as int));
        o.headers.insert(headers[i].0.clone(), headers[i].1.clone());
        i = i + 1;
    }
    assert(headers@.take(headers@.len() as int) =~= headers@);
    o.status = Some(status);
    o.body = body;
    o
}

/// What an exchange observed when no answer came: nothing but the reason, on standard error —
/// `building` when the request could not even be put together, otherwise when sending it failed.
pub fn unanswered(url: &str, building: bool, reason: &str) -> (o: Observations)
    ensures
        o.stderr@ == (if building { "building the request for "@ } else { "requesting "@ }) + url@ + ": "@ + reason@,
        o.status is None,
        o.headers@.dom().len() == 0,
        o.body@.len() == 0,
        o.exit == 0,
        o.stdout@.len() == 0,
        o.calls@.len() == 0,
        o.steps@.len() == 0,
{
    let mut text = if building { String::from_str("building the request for ") } else { String::from_str("requesting ") };
    text.append(url);
    text.append(": ");
    text.append(reason);
    let mut o = Observations::empty();
    o.stderr = text;
    o
}

} // verus!
