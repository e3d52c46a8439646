//! The calls into `serde_json` that the library makes, and the request
//! bodies framed around them.
use vstd::prelude::*;

use crate::digest::{hex_digit, lemma_hex_digit_injective};

verus! {

/// What `serde_json::from_str::<serde_json::Value>` makes of a text: the
/// compact JSON text of the parsed value (`Value`'s `Display`), or the
/// parser's error message.
pub uninterp spec fn json_canonical_text(text: Seq<char>) -> Result<Seq<char>, Seq<char>>;

/// How serde_json writes one character inside a JSON string: `"` and the
/// backslash behind a backslash; backspace, tab, line feed, form feed and
/// carriage return as a backslash and `b`, `t`, `n`, `f`, `r`; the other
/// characters below U+0020 as a backslash, `u00` and two lower-case hex
/// digits; every other character as it is.
pub open spec fn json_escaped_char(c: char) -> Seq<char> {
    if c == '"' {
        seq!['\\', '"']
    } else if c == '\\' {
        seq!['\\', '\\']
    } else if c == '\u{8}' {
        seq!['\\', 'b']
    } else if c == '\t' {
        seq!['\\', 't']
    } else if c == '\n' {
        seq!['\\', 'n']
    } else if c == '\u{c}' {
        seq!['\\', 'f']
    } else if c == '\r' {
        seq!['\\', 'r']
    } else if (c as int) < 0x20 {
        seq!['\\', 'u', '0', '0', hex_digit(c as int / 16), hex_digit(c as int % 16)]
    } else {
        seq![c]
    }
}

/// The characters of `s`, each escaped as serde_json writes it.
pub open spec fn json_escaped(s: Seq<char>) -> Seq<char>
    decreases s.len(),
{
    if s.len() == 0 {
        Seq::empty()
    } else {
        json_escaped(s.drop_last()) + json_escaped_char(s.last())
    }
}

/// What `serde_json::to_string` gives for a string: the string as a JSON
/// string literal, its characters escaped between double quotes.
pub open spec fn json_string_literal(s: Seq<char>) -> Seq<char> {
    seq!['"'] + json_escaped(s) + seq!['"']
}

/// What `serde_json::from_str::<Vec<String>>` makes of a text: the list of
/// strings when the text is a JSON array of strings.
pub uninterp spec fn json_string_list(text: Seq<char>) -> Option<Seq<Seq<char>>>;

/// Parses `text` with `serde_json::from_str::<serde_json::Value>` and gives
/// back the parsed value in compact form, or the parser's error message.
/// The contract names the outcome as a function of the text; what that
/// outcome is for a given text is left to serde_json.
#[verifier::external_body]
pub(crate) fn canonical_json(text: &str) -> (r: Result<String, String>)
    ensures
        match r {
            Ok(c) => json_canonical_text(text@) == Ok::<Seq<char>, Seq<char>>(c@),
            Err(e) => json_canonical_text(text@) == Err::<Seq<char>, Seq<char>>(e@),
        },
{
    match serde_json::from_str::<serde_json::Value>(text) {
        Ok(v) => Ok(v.to_string()),
        Err(e) => Err(e.to_string()),
    }
}

/// Serialises a string with `serde_json::to_string`: the string quoted, with
/// the escapes of serde_json's table for `str` (its `ESCAPE` table and
/// `write_char_escape`). Serialising a `str` cannot fail in serde_json (its
/// serializer writes into a `Vec`), so the error arm is never taken.
#[verifier::external_body]
pub(crate) fn json_quote(s: &str) -> (r: String)
    ensures
        r@ == json_string_literal(s@),
{
    serde_json::to_string(s).unwrap_or_default()
}

/// Parses `text` with `serde_json::from_str::<Vec<String>>`.
#[verifier::external_body]
pub(crate) fn parse_string_list(text: &str) -> (r: Option<Vec<String>>)
    ensures
        r.deep_view() == json_string_list(text@),
{
    serde_json::from_str::<Vec<String>>(text).ok()
}

/// `items` joined with `sep` between neighbours.
pub open spec fn join_with(items: Seq<Seq<char>>, sep: Seq<char>) -> Seq<char>
    decreases items.len(),
{
    if items.len() == 0 {
        Seq::empty()
    } else if items.len() == 1 {
        items[0]
    } else {
        join_with(items.drop_last(), sep) + sep + items.last()
    }
}

/// The body of an import request: `{"runs":[...]}` around the runs'
/// JSON texts, as serde_json writes such an object compactly.
pub open spec fn runs_body(runs: Seq<Seq<char>>) -> Seq<char> {
    "{\"runs\":["@ + join_with(runs, ","@) + "]}"@
}

/// The body of a pairing request: `{"code":..,"deviceName":..}` as serde_json
/// writes such an object compactly (its keys in sorted order).
pub open spec fn pair_body_text(code: Seq<char>, device_name: Seq<char>) -> Seq<char> {
    "{\"code\":"@ + json_string_literal(code) + ",\"deviceName\":"@ + json_string_literal(
        device_name,
    ) + "}"@
}

/// The pairing request object around the JSON forms of the code and the
/// device's name.
pub fn frame_pair_body(code_json: &str, device_name_json: &str) -> (r: String)
    ensures
        r@ == "{\"code\":"@ + code_json@ + ",\"deviceName\":"@ + device_name_json@ + "}"@,
{
    let mut body = String::from_str("{\"code\":");
    body.append(code_json);
    body.append(",\"deviceName\":");
    body.append(device_name_json);
    body.append("}");
    body
}

/// The pairing request body for `code` and the device's name.
pub fn pair_body(code: &str, device_name: &str) -> (r: String)
    ensures
        r@ == pair_body_text(code@, device_name@),
{
    let c = json_quote(code);
    let d = json_quote(device_name);
    frame_pair_body(c.as_str(), d.as_str())
}

/// The import request body for `runs[from..to]`.
pub fn runs_request_body(runs: &Vec<String>, from: usize, to: usize) -> (r: String)
    requires
        from < to <= runs.len(),
    ensures
        r@ == runs_body(runs.deep_view().subrange(from as int, to as int)),
{
    let ghost all = runs.deep_view();
    let mut joined = String::from_str(runs[from].as_str());
    let mut i: usize = from + 1;
    assert(all.subrange(from as int, from + 1) =~= seq![all[from as int]]);
    while i < to
        invariant
            from < i <= to <= runs.len(),
            all == runs.deep_view(),
            joined@ == join_with(all.subrange(from as int, i as int), ","@),
        decreases to - i,
    {
        joined.append(",");
        joined.append(runs[i].as_str());
        assert(all.subrange(from as int, i + 1).drop_last() =~= all.subrange(from as int, i as int));
        i = i + 1;
    }
    let mut body = String::from_str("{\"runs\":[");
    body.append(joined.as_str());
    body.append("]}");
    body
}

/// Escaping a string writes its first character's escape, then the rest.
proof fn lemma_escaped_first(s: Seq<char>)
    requires
        s.len() > 0,
    ensures
        json_escaped(s) == json_escaped_char(s[0]) + json_escaped(s.drop_first()),
    decreases s.len(),
{
    if s.len() == 1 {
        assert(s.drop_last() =~= Seq::<char>::empty());
        assert(s.drop_first() =~= Seq::<char>::empty());
        assert(json_escaped(s) =~= json_escaped_char(s[0]) + json_escaped(s.drop_first()));
    } else {
        let d = s.drop_last();
        lemma_escaped_first(d);
        assert(d.drop_first() =~= s.drop_first().drop_last());
        assert(s.drop_first().last() == s.last());
        assert(json_escaped(s) =~= json_escaped_char(s[0]) + json_escaped(s.drop_first()));
    }
}

/// A character's escape is never empty and never starts with a double
/// quote; one that does not start with a backslash is the character itself.
proof fn lemma_escaped_char_shape(c: char)
    ensures
        json_escaped_char(c).len() >= 1,
        json_escaped_char(c)[0] != '"',
        json_escaped_char(c)[0] != '\\' ==> json_escaped_char(c) == seq![c],
        json_escaped_char(c)[0] == '\\' ==> json_escaped_char(c).len() >= 2,
{
}

/// No character's escape is the start of another's: reading an escape from
/// the front gives back the character.
proof fn lemma_escaped_char_prefix_free(a: char, b: char, x: Seq<char>, y: Seq<char>)
    requires
        json_escaped_char(a) + x == json_escaped_char(b) + y,
    ensures
        a == b,
        x == y,
{
    let ea = json_escaped_char(a);
    let eb = json_escaped_char(b);
    let w = ea + x;
    lemma_escaped_char_shape(a);
    lemma_escaped_char_shape(b);
    assert(w[0] == ea[0]);
    assert(w[0] == eb[0]);
    if ea[0] == '\\' {
        assert(w[1] == ea[1]);
        assert(w[1] == eb[1]);
        if ea[1] == 'u' {
            assert(w[4] == ea[4] && w[4] == eb[4]);
            assert(w[5] == ea[5] && w[5] == eb[5]);
            lemma_hex_digit_injective(a as int / 16, b as int / 16);
            lemma_hex_digit_injective(a as int % 16, b as int % 16);
            assert(a as int == b as int);
        }
    }
    assert(a == b);
    assert(x =~= w.subrange(ea.len() as int, w.len() as int));
    assert(y =~= w.subrange(ea.len() as int, w.len() as int));
}

/// An escaped string followed by a double quote can be read back: the quote
/// ends it, so what comes before it and what follows it are determined.
proof fn lemma_escaped_then_quote(s: Seq<char>, t: Seq<char>, x: Seq<char>, y: Seq<char>)
    requires
        json_escaped(s) + seq!['"'] + x == json_escaped(t) + seq!['"'] + y,
    ensures
        s == t,
        x == y,
    decreases s.len(),
{
    let w = json_escaped(s) + seq!['"'] + x;
    if s.len() == 0 {
        assert(json_escaped(s) =~= Seq::<char>::empty());
        if t.len() > 0 {
            lemma_escaped_first(t);
            lemma_escaped_char_shape(t[0]);
            assert(w[0] == '"');
            assert(w[0] == json_escaped_char(t[0])[0]);
        }
        assert(json_escaped(t) =~= Seq::<char>::empty());
        assert(x =~= w.subrange(1, w.len() as int));
        assert(y =~= w.subrange(1, w.len() as int));
        assert(s =~= t);
    } else if t.len() == 0 {
        assert(json_escaped(t) =~= Seq::<char>::empty());
        lemma_escaped_first(s);
        lemma_escaped_char_shape(s[0]);
        assert(w[0] == json_escaped_char(s[0])[0]);
        assert(w[0] == '"');
    } else {
        lemma_escaped_first(s);
        lemma_escaped_first(t);
        let xs = json_escaped(s.drop_first()) + seq!['"'] + x;
        let yt = json_escaped(t.drop_first()) + seq!['"'] + y;
        assert(w =~= json_escaped_char(s[0]) + xs);
        assert(w =~= json_escaped_char(t[0]) + yt);
        lemma_escaped_char_prefix_free(s[0], t[0], xs, yt);
        lemma_escaped_then_quote(s.drop_first(), t.drop_first(), x, y);
        assert(s =~= seq![s[0]] + s.drop_first());
        assert(t =~= seq![t[0]] + t.drop_first());
    }
}

/// The pairing body carries the code and the device's name whole: two
/// bodies are the same only for the same code and the same name, so the
/// dashboard reads back exactly the code and the name given.
pub proof fn lemma_pair_body_keeps_code_and_name(
    code: Seq<char>,
    name: Seq<char>,
    other_code: Seq<char>,
    other_name: Seq<char>,
)
    ensures
        pair_body_text(code, name) == pair_body_text(other_code, other_name) ==> code == other_code
            && name == other_name,
{
    if pair_body_text(code, name) == pair_body_text(other_code, other_name) {
        let a = "{\"code\":"@;
        let b = ",\"deviceName\":"@;
        let c = "}"@;
        let q = seq!['"'];
        let w = pair_body_text(code, name);
        let rest1 = b + json_string_literal(name) + c;
        let rest2 = b + json_string_literal(other_name) + c;
        assert(w =~= (a + q) + (json_escaped(code) + q + rest1));
        assert(w =~= (a + q) + (json_escaped(other_code) + q + rest2));
        assert(json_escaped(code) + q + rest1 =~= w.subrange((a + q).len() as int, w.len() as int));
        assert(json_escaped(other_code) + q + rest2 =~= w.subrange(
            (a + q).len() as int,
            w.len() as int,
        ));
        lemma_escaped_then_quote(code, other_code, rest1, rest2);
        assert(rest1 =~= (b + q) + (json_escaped(name) + q + c));
        assert(rest2 =~= (b + q) + (json_escaped(other_name) + q + c));
        assert(json_escaped(name) + q + c =~= rest1.subrange((b + q).len() as int, rest1.len() as int));
        assert(json_escaped(other_name) + q + c =~= rest1.subrange(
            (b + q).len() as int,
            rest1.len() as int,
        ));
        lemma_escaped_then_quote(name, other_name, c, c);
    }
}

} // verus!
