//! What is sent to the Mihomo controller and how its replies are read:
//! endpoint URLs, request bodies, the authorization header and the error
//! messages that a failed exchange is reported with.

use vstd::prelude::*;
use vstd::string::StringSliceAdditionalSpecFns;
use vstd::utf8::encode_utf8;
use serde_json::Value;
use crate::json::{get_member, get_string, json_of, member, parse_json, string_text, JsonValue};
use crate::text::{joined, percent_encode, percent_encoded, text_of};

verus! {

/// The part of the controller's configuration that the interface shows.
pub struct Config {
    pub mode: String,
}

/// One entry of the controller's proxy table, holding as plain values the
/// members that the interface reads: `type` and `now` when they are strings,
/// and `all` when it is an array, each element kept when it is a string.
pub struct ProxyEntry {
    pub name: String,
    pub kind: Option<String>,
    pub all: Option<Vec<Option<String>>>,
    pub now: Option<String>,
}

/// How an exchange with the controller ended, each failure with the text
/// that its error displays as.
pub enum Fetched<T> {
    /// The request could not be sent or answered.
    RequestFailed(String),
    /// The controller answered with a status that is not a success.
    HttpStatus(String),
    /// The body of a successful answer could not be read.
    ReadFailed(String),
    /// The body was not the JSON expected.
    Malformed(String),
    /// The answer, read and decoded.
    Parsed(T),
}

/// Where to reach the controller and how to authenticate there.
pub struct MihomoController {
    pub api_url: String,
    /// Value of the `Authorization` header sent with every request, if any.
    pub authorization: Option<String>,
}

/// A byte that an HTTP header value may hold: visible ASCII, tab, or any
/// byte from 128 up.
pub open spec fn is_header_byte(b: u8) -> bool {
    (b >= 32 && b != 127) || b == 9
}

/// Whether text is accepted as an HTTP header value (judged on its UTF-8 bytes).
pub open spec fn header_value_allowed(text: Seq<char>) -> bool {
    forall|i: int| 0 <= i < encode_utf8(text).len() ==> is_header_byte(#[trigger] encode_utf8(text)[i])
}

/// The header that a secret becomes, when the header accepts it.
pub open spec fn authorization_for(secret: Option<Seq<char>>) -> Option<Seq<char>> {
    match secret {
        Some(token) => if header_value_allowed("Bearer "@ + token) {
            Some("Bearer "@ + token)
        } else {
            None
        },
        None => None,
    }
}

/// Lower-case hexadecimal digit for a value below sixteen.
pub open spec fn lower_hex(n: int) -> char {
    if n < 10 {
        (48 + n) as char
    } else {
        (87 + n) as char
    }
}

/// How one character stands inside a JSON string written by serde_json:
/// quote and backslash are backslash-escaped, backspace, tab, line feed,
/// form feed and carriage return get their short escapes, every other
/// control character below 0x20 becomes `\u00XX` (lower-case hex), and any
/// other character stands for itself.
pub open spec fn json_escaped_char(c: char) -> Seq<char> {
    let n = c as int;
    if c == '"' {
        seq!['\\', '"']
    } else if c == '\\' {
        seq!['\\', '\\']
    } else if n == 8 {
        seq!['\\', 'b']
    } else if n == 9 {
        seq!['\\', 't']
    } else if n == 10 {
        seq!['\\', 'n']
    } else if n == 12 {
        seq!['\\', 'f']
    } else if n == 13 {
        seq!['\\', 'r']
    } else if n < 32 {
        seq!['\\', 'u', '0', '0', lower_hex(n / 16), lower_hex(n % 16)]
    } else {
        seq![c]
    }
}

/// The characters of `s`, each escaped for a JSON string.
pub open spec fn json_escaped(s: Seq<char>) -> Seq<char>
    decreases s.len(),
{
    if s.len() == 0 {
        seq![]
    } else {
        json_escaped_char(s[0]) + json_escaped(s.drop_first())
    }
}

/// `s` as a JSON string literal.
pub open spec fn json_quoted(s: Seq<char>) -> Seq<char> {
    seq!['"'] + json_escaped(s) + seq!['"']
}

/// Compact text of a JSON object with one member `key` whose value is the
/// string `value`: `{"key":"value"}`.
pub open spec fn json_object_text(key: Seq<char>, value: Seq<char>) -> Seq<char> {
    seq!['{'] + json_quoted(key) + seq![':'] + json_quoted(value) + seq!['}']
}

/// An entry of the proxy table as plain text: name, `type`, `all`, `now`.
pub type ProxyEntryText = (Seq<char>, Option<Seq<char>>, Option<Seq<Option<Seq<char>>>>, Option<Seq<char>>);

/// The `all` members of an entry as text.
pub open spec fn members_text(all: Option<Vec<Option<String>>>) -> Option<Seq<Option<Seq<char>>>> {
    match all {
        Some(v) => Some(v@.map_values(|o: Option<String>| text_of(o))),
        None => None,
    }
}

/// An entry as plain text.
pub open spec fn entry_text(e: ProxyEntry) -> ProxyEntryText {
    (e.name@, text_of(e.kind), members_text(e.all), text_of(e.now))
}

/// The proxy table of a parsed answer, as plain text.
pub open spec fn entries_text(v: Vec<ProxyEntry>) -> Seq<ProxyEntryText> {
    v@.map_values(|e: ProxyEntry| entry_text(e))
}

/// An element of an `all` array: its text when it is a string.
pub open spec fn element_text(x: JsonValue) -> Option<Seq<char>> {
    match x {
        JsonValue::Str(s) => Some(s@),
        _ => None,
    }
}

/// The entry named `name` whose value is `v`: its `type` and `now` when they
/// are strings, and its `all` when it is an array, each element's text
/// kept where the element is a string.
pub open spec fn entry_from(name: String, v: JsonValue) -> ProxyEntryText {
    (
        name@,
        string_text(member(v, "type"@)),
        match member(v, "all"@) {
            Some(JsonValue::Array(items)) => Some(items@.map_values(|x: JsonValue| element_text(x))),
            _ => None,
        },
        string_text(member(v, "now"@)),
    )
}

/// The proxy table that a parsed answer holds: the entries of its
/// `proxies` member, in order, when that member is an object.
pub open spec fn proxy_table_spec(v: JsonValue) -> Option<Seq<ProxyEntryText>> {
    match member(v, "proxies"@) {
        Some(JsonValue::Object(entries)) => Some(
            entries@.map_values(|e: (String, JsonValue)| entry_from(e.0, e.1)),
        ),
        _ => None,
    }
}

/// The latency that a parsed delay-test answer holds: its `delay` member,
/// when that is an integer that fits in a `u64`.
pub open spec fn delay_member(v: JsonValue) -> Option<u64> {
    match member(v, "delay"@) {
        Some(JsonValue::Number(n)) => n,
        _ => None,
    }
}

/// Asks `http::HeaderValue::from_str` whether it accepts `s`. Its source
/// accepts exactly the strings whose every byte is a tab, or at least 32
/// and not 127.
#[verifier::external_body]
fn header_value_accepts(s: &str) -> (r: bool)
    ensures
        r == header_value_allowed(s@),
{
    reqwest::header::HeaderValue::from_str(s).is_ok()
}

/// Writes, with `serde_json`, the object `{key: value}` with `value` as a
/// JSON string. Its source writes objects compactly and escapes strings as
/// [`json_escaped_char`] says (`ESCAPE` and `write_char_escape` in `ser.rs`).
#[verifier::external_body]
fn json_object_with_string(key: &str, value: &str) -> (r: String)
    ensures
        r@ == json_object_text(key@, value@),
{
    let mut fields = serde_json::Map::new();
    fields.insert(key.to_string(), Value::String(value.to_string()));
    Value::Object(fields).to_string()
}

fn proxy_entry(name: &String, v: &JsonValue) -> (r: ProxyEntry)
    ensures
        entry_text(r) == entry_from(*name, *v),
{
    let kind = get_string(get_member(v, "type"));
    let now = get_string(get_member(v, "now"));
    let all = match get_member(v, "all") {
        Some(JsonValue::Array(items)) => {
            let mut out: Vec<Option<String>> = Vec::new();
            let mut i: usize = 0;
            while i < items.len()
                invariant
                    i <= items@.len(),
                    out@.len() == i,
                    forall|k: int|
                        0 <= k < i ==> text_of(#[trigger] out@[k]) == element_text(items@[k]),
                decreases items@.len() - i,
            {
                let x = match &items[i] {
                    JsonValue::Str(t) => Some(t.clone()),
                    _ => None,
                };
                out.push(x);
                i = i + 1;
            }
            assert(out@.map_values(|o: Option<String>| text_of(o)) =~= items@.map_values(
                |x: JsonValue| element_text(x),
            ));
            Some(out)
        },
        _ => None,
    };
    ProxyEntry { name: name.clone(), kind, all, now }
}

/// The proxy table that a parsed answer holds (see [`proxy_table_spec`]).
pub fn proxy_table(v: &JsonValue) -> (r: Option<Vec<ProxyEntry>>)
    ensures
        match r {
            Some(t) => proxy_table_spec(*v) == Some(entries_text(t)),
            None => proxy_table_spec(*v) is None,
        },
{
    match get_member(v, "proxies") {
        Some(JsonValue::Object(entries)) => {
            let mut out: Vec<ProxyEntry> = Vec::new();
            let mut i: usize = 0;
            while i < entries.len()
                invariant
                    i <= entries@.len(),
                    out@.len() == i,
                    forall|k: int|
                        0 <= k < i ==> entry_text(#[trigger] out@[k]) == entry_from(
                            entries@[k].0,
                            entries@[k].1,
                        ),
                decreases entries@.len() - i,
            {
                out.push(proxy_entry(&entries[i].0, &entries[i].1));
                i = i + 1;
            }
            assert(entries_text(out) =~= entries@.map_values(
                |e: (String, JsonValue)| entry_from(e.0, e.1),
            ));
            Some(out)
        },
        _ => None,
    }
}

/// The proxy table that a successful answer's body holds, or the JSON
/// error that reading it gave.
pub fn proxies_from_body(body: &str) -> (r: Fetched<Option<Vec<ProxyEntry>>>)
    ensures
        match json_of(body@) {
            Err(e) => r matches Fetched::Malformed(m) && m@ == e,
            Ok(v) => r matches Fetched::Parsed(p) && match p {
                Some(t) => proxy_table_spec(v) == Some(entries_text(t)),
                None => proxy_table_spec(v) is None,
            },
        },
{
    match parse_json(body) {
        Err(e) => Fetched::Malformed(e),
        Ok(v) => Fetched::Parsed(proxy_table(&v)),
    }
}

/// Body of the request that selects `proxy` in a group: `{"name": proxy}`.
pub fn select_proxy_body(proxy: &str) -> (r: String)
    ensures
        r@ == json_object_text("name"@, proxy@),
{
    json_object_with_string("name", proxy)
}

/// Body of the request that switches the routing mode: `{"mode": mode}`.
pub fn switch_mode_body(mode: &str) -> (r: String)
    ensures
        r@ == json_object_text("mode"@, mode@),
{
    json_object_with_string("mode", mode)
}

/// The latency that a successful delay test answered with: the member
/// `delay` of its JSON body, when that is a `u64`.
pub fn delay_from_body(body: &str) -> (r: Option<u64>)
    ensures
        r == match json_of(body@) {
            Ok(v) => delay_member(v),
            Err(_) => None,
        },
{
    match parse_json(body) {
        Ok(v) => match get_member(&v, "delay") {
            Some(JsonValue::Number(n)) => *n,
            _ => None,
        },
        Err(_) => None,
    }
}

/// The latency of one node from the outcome of its delay test: nothing
/// unless the controller answered with success and its body was read.
pub fn node_delay(body: Option<String>) -> (r: Option<u64>)
    ensures
        r == match body {
            Some(text) => match json_of(text@) {
                Ok(v) => delay_member(v),
                Err(_) => None,
            },
            None => None,
        },
{
    match body {
        Some(text) => delay_from_body(text.as_str()),
        None => None,
    }
}

/// URL of the delay test of `node`, through the controller at `api_url`.
pub fn delay_url(api_url: &str, node: &str) -> (r: String)
    ensures
        r@ == api_url@ + "/proxies/"@ + percent_encoded(node.spec_bytes())
            + "/delay?url=http://www.gstatic.com/generate_204&timeout=3000"@,
{
    let mut out = joined(api_url, "/proxies/");
    let encoded = percent_encode(node);
    out.append(encoded.as_str());
    out.append("/delay?url=http://www.gstatic.com/generate_204&timeout=3000");
    out
}

/// The error message of a failed exchange, by how it failed; `None` when
/// the answer was read and decoded.
pub open spec fn failure_message<T>(f: Fetched<T>) -> Option<Seq<char>> {
    match f {
        Fetched::RequestFailed(e) => Some("Request failed: "@ + e@),
        Fetched::HttpStatus(s) => Some("API error: "@ + s@),
        Fetched::ReadFailed(e) => Some("Read error: "@ + e@),
        Fetched::Malformed(e) => Some("JSON parse error: "@ + e@),
        Fetched::Parsed(_) => None,
    }
}

/// The result that an exchange is reported as: its decoded answer, or the
/// message that says how it failed.
pub fn fetch_result<T>(f: Fetched<T>) -> (r: Result<T, String>)
    ensures
        match f {
            Fetched::Parsed(v) => r == Ok::<T, String>(v),
            _ => r matches Err(m) && failure_message(f) == Some(m@),
        },
{
    match f {
        Fetched::RequestFailed(e) => Err(joined("Request failed: ", e.as_str())),
        Fetched::HttpStatus(s) => Err(joined("API error: ", s.as_str())),
        Fetched::ReadFailed(e) => Err(joined("Read error: ", e.as_str())),
        Fetched::Malformed(e) => Err(joined("JSON parse error: ", e.as_str())),
        Fetched::Parsed(v) => Ok(v),
    }
}

/// The proxy table from an exchange: the failure message, or
/// `Invalid response format` when the body held no `proxies` object.
pub fn proxies_result(f: Fetched<Option<Vec<ProxyEntry>>>) -> (r: Result<Vec<ProxyEntry>, String>)
    ensures
        match f {
            Fetched::Parsed(Some(v)) => r == Ok::<Vec<ProxyEntry>, String>(v),
            Fetched::Parsed(None) => r matches Err(m) && m@ == "Invalid response format"@,
            _ => r matches Err(m) && failure_message(f) == Some(m@),
        },
{
    match fetch_result(f) {
        Ok(Some(v)) => Ok(v),
        Ok(None) => Err(String::from_str("Invalid response format")),
        Err(m) => Err(m),
    }
}

impl MihomoController {
    /// Creates a controller pointing at `api_url` (e.g. `"http://127.0.0.1:9090"`),
    /// authenticating with `Bearer <secret>` when a secret is given and the
    /// header accepts it.
    pub fn new(api_url: &str, secret: Option<&str>) -> (r: Self)
        ensures
            r.api_url@ == api_url@,
            match secret {
                Some(token) => match authorization_for(Some(token@)) {
                    Some(value) => r.authorization matches Some(a) && a@ == value,
                    None => r.authorization is None,
                },
                None => r.authorization is None,
            },
    {
        let authorization = match secret {
            Some(token) => {
                let value = joined("Bearer ", token);
                if header_value_accepts(value.as_str()) {
                    Some(value)
                } else {
                    None
                }
            },
            None => None,
        };
        MihomoController { api_url: String::from_str(api_url), authorization }
    }

    /// URL of the proxy table.
    pub fn proxies_url(&self) -> (r: String)
        ensures
            r@ == self.api_url@ + "/proxies"@,
    {
        joined(self.api_url.as_str(), "/proxies")
    }

    /// URL of the group `group`, where a node is selected.
    pub fn select_proxy_url(&self, group: &str) -> (r: String)
        ensures
            r@ == self.api_url@ + "/proxies/"@ + percent_encoded(group.spec_bytes()),
    {
        let mut out = joined(self.api_url.as_str(), "/proxies/");
        let encoded = percent_encode(group);
        out.append(encoded.as_str());
        out
    }

    /// URL of the controller's configuration.
    pub fn configs_url(&self) -> (r: String)
        ensures
            r@ == self.api_url@ + "/configs"@,
    {
        joined(self.api_url.as_str(), "/configs")
    }

    /// URL of the delay test of `node`.
    pub fn delay_url(&self, node: &str) -> (r: String)
        ensures
            r@ == self.api_url@ + "/proxies/"@ + percent_encoded(node.spec_bytes())
                + "/delay?url=http://www.gstatic.com/generate_204&timeout=3000"@,
    {
        delay_url(self.api_url.as_str(), node)
    }
}

/// Each entry of a read proxy table takes, from the member of the same
/// place in the `proxies` object, its name, its `type` and `now` whenever
/// they are strings (whatever the type), and its `all` whenever it is an
/// array, element by element.
pub proof fn lemma_proxy_table_reads_members(
    v: JsonValue,
    es: Vec<(String, JsonValue)>,
    t: Vec<ProxyEntry>,
    i: int,
)
    requires
        member(v, "proxies"@) == Some(JsonValue::Object(es)),
        proxy_table_spec(v) == Some(entries_text(t)),
        0 <= i < es@.len(),
    ensures
        t@.len() == es@.len(),
        t@[i].name@ == es@[i].0@,
        text_of(t@[i].kind) == string_text(member(es@[i].1, "type"@)),
        text_of(t@[i].now) == string_text(member(es@[i].1, "now"@)),
        match member(es@[i].1, "all"@) {
            Some(JsonValue::Array(items)) => t@[i].all matches Some(xs) && xs@.len()
                == items@.len() && forall|k: int|
                0 <= k < xs@.len() ==> #[trigger] text_of(xs@[k]) == match items@[k] {
                    JsonValue::Str(s) => Some(s@),
                    _ => None,
                },
            _ => t@[i].all is None,
        },
{
    let tt = entries_text(t);
    assert(tt.len() == t@.len());
    assert(tt[i] == entry_text(t@[i]));
    let e = entry_from(es@[i].0, es@[i].1);
    assert(tt[i] == e);
    assert(members_text(t@[i].all) == e.2);
    match member(es@[i].1, "all"@) {
        Some(JsonValue::Array(items)) => {
            match t@[i].all {
                Some(xs) => {
                    assert(xs@.map_values(|o: Option<String>| text_of(o)) == items@.map_values(
                        |x: JsonValue| element_text(x),
                    ));
                    assert(xs@.map_values(|o: Option<String>| text_of(o)).len() == xs@.len());
                    assert forall|k: int| 0 <= k < xs@.len() implies #[trigger] text_of(xs@[k])
                        == match items@[k] {
                        JsonValue::Str(s) => Some(s@),
                        _ => None,
                    } by {
                        assert(xs@.map_values(|o: Option<String>| text_of(o))[k] == text_of(xs@[k]));
                        assert(items@.map_values(|x: JsonValue| element_text(x))[k] == element_text(
                            items@[k],
                        ));
                    }
                },
                None => {},
            }
        },
        _ => {},
    }
}

/// A body yields a proxy table exactly when its `proxies` member is an object.
pub proof fn lemma_proxy_table_needs_object(v: JsonValue)
    ensures
        proxy_table_spec(v) is Some <==> member(v, "proxies"@) matches Some(JsonValue::Object(_)),
{
}

/// A delay answer whose `delay` member is an integer that fits in a `u64`
/// reads as that latency, whatever its size.
pub proof fn lemma_delay_member_reads_integer(v: JsonValue, d: u64)
    requires
        member(v, "delay"@) == Some(JsonValue::Number(Some(d))),
    ensures
        delay_member(v) == Some(d),
{
}

/// A delay answer reads as a latency only when its `delay` member is that
/// integer.
pub proof fn lemma_delay_member_needs_integer(v: JsonValue, d: u64)
    requires
        delay_member(v) == Some(d),
    ensures
        member(v, "delay"@) == Some(JsonValue::Number(Some(d))),
{
}

} // verus!
