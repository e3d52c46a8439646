//! Pairing links of the form `sts2sync://pair?code=..&url=..`: which pairing
//! code and dashboard address a link carries.
use vstd::prelude::*;
use crate::json::{json_string_list, parse_string_list};
use crate::text::{
    split_char, split_once, split_on, split_once_on, strip_prefix, strip_prefix_text, same_text,
    lemma_split_after_first, lemma_split_without_separator, lemma_split_once_at,
};

verus! {

/// What `urlencoding::decode` makes of a percent-encoded text: the decoded
/// text, or nothing when the decoded bytes are not UTF-8.
pub uninterp spec fn url_decoded(s: Seq<char>) -> Option<Seq<char>>;

/// Decodes a percent-encoded text with `urlencoding::decode`. Its source
/// hands a text without `%` back unchanged, which the contract states too.
#[verifier::external_body]
pub(crate) fn url_decode(s: &str) -> (r: Option<String>)
    ensures
        r.deep_view() == url_decoded(s@),
        !s@.contains('%') ==> r.deep_view() == Some(s@),
{
    match urlencoding::decode(s) {
        Ok(d) => Some(d.into_owned()),
        Err(_) => None,
    }
}

/// What a pairing link starts with.
pub open spec fn pair_link_prefix() -> Seq<char> {
    "sts2sync://pair?"@
}

/// One `key=value` piece of a query: the value is missing when the piece
/// has no `=`, or, once decoded, when it does not decode.
pub struct QueryPair {
    pub key: String,
    pub value: Option<String>,
}

impl View for QueryPair {
    type V = (Seq<char>, Option<Seq<char>>);

    open spec fn view(&self) -> (Seq<char>, Option<Seq<char>>) {
        (self.key@, self.value.deep_view())
    }
}

/// The `key=value` pieces of a query, cut at `&` and then at the first `=`.
pub open spec fn raw_query_pairs(query: Seq<char>) -> Seq<(Seq<char>, Option<Seq<char>>)> {
    split_char(query, '&').map_values(|p: Seq<char>| split_once(p, '='))
}

/// The pieces with their values percent-decoded.
pub open spec fn decoded_pairs(raw: Seq<(Seq<char>, Option<Seq<char>>)>) -> Seq<
    (Seq<char>, Option<Seq<char>>),
> {
    raw.map_values(
        |kv: (Seq<char>, Option<Seq<char>>)|
            (
                kv.0,
                match kv.1 {
                    Some(v) => url_decoded(v),
                    None => None,
                },
            ),
    )
}

/// The value the last piece with `key` and a value gives (later pieces win,
/// as when the pieces are collected into a map).
pub open spec fn last_value(entries: Seq<(Seq<char>, Option<Seq<char>>)>, key: Seq<char>) -> Option<
    Seq<char>,
>
    decreases entries.len(),
{
    if entries.len() == 0 {
        None
    } else if entries.last().0 == key && entries.last().1 is Some {
        entries.last().1
    } else {
        last_value(entries.drop_last(), key)
    }
}

/// The pairing code and dashboard address the pieces carry, when both do.
pub open spec fn pair_request_of(entries: Seq<(Seq<char>, Option<Seq<char>>)>) -> Option<
    (Seq<char>, Seq<char>),
> {
    match (last_value(entries, "code"@), last_value(entries, "url"@)) {
        (Some(code), Some(url)) => Some((code, url)),
        _ => None,
    }
}

/// The pairing code and dashboard address a link carries, when it is a
/// pairing link that carries both.
pub open spec fn pair_link_target(link: Seq<char>) -> Option<(Seq<char>, Seq<char>)> {
    match strip_prefix(link, pair_link_prefix()) {
        Some(query) => pair_request_of(decoded_pairs(raw_query_pairs(query))),
        None => None,
    }
}

pub open spec fn pairs_view(v: Seq<QueryPair>) -> Seq<(Seq<char>, Option<Seq<char>>)> {
    v.map_values(|p: QueryPair| p@)
}

/// The `key=value` pieces of a query, undecoded.
pub fn query_pairs(query: &str) -> (r: Vec<QueryPair>)
    ensures
        pairs_view(r@) == raw_query_pairs(query@),
{
    let pieces = split_on(query, '&');
    let ghost ps = split_char(query@, '&');
    let mut out: Vec<QueryPair> = Vec::new();
    let mut i: usize = 0;
    while i < pieces.len()
        invariant
            pieces.deep_view() == ps,
            ps == split_char(query@, '&'),
            i <= pieces.len(),
            pairs_view(out@) == ps.take(i as int).map_values(|p: Seq<char>| split_once(p, '=')),
        decreases pieces.len() - i,
    {
        let (key, value) = split_once_on(pieces[i].as_str(), '=');
        let ghost before = pairs_view(out@);
        out.push(QueryPair { key, value });
        assert(pairs_view(out@) =~= before.push(split_once(ps[i as int], '=')));
        assert(ps.take(i + 1).map_values(|p: Seq<char>| split_once(p, '=')) =~= ps.take(
            i as int,
        ).map_values(|p: Seq<char>| split_once(p, '=')).push(split_once(ps[i as int], '=')));
        i = i + 1;
    }
    assert(ps.take(pieces.len() as int) =~= ps);
    out
}

fn last_value_exec(entries: &Vec<QueryPair>, key: &str) -> (r: Option<String>)
    ensures
        r.deep_view() == last_value(pairs_view(entries@), key@),
{
    let ghost all = pairs_view(entries@);
    let mut i = entries.len();
    assert(all.take(i as int) =~= all);
    while i > 0
        invariant
            all == pairs_view(entries@),
            i <= entries.len(),
            last_value(all.take(i as int), key@) == last_value(all, key@),
        decreases i,
    {
        let e = &entries[i - 1];
        assert(all.take(i as int).last() == e@);
        assert(all.take(i as int).drop_last() =~= all.take(i - 1));
        if same_text(e.key.as_str(), key) {
            match &e.value {
                Some(v) => {
                    return Some(v.clone());
                },
                None => {},
            }
        }
        i = i - 1;
    }
    None
}

/// The pairing code and dashboard address decoded pieces carry: the values of
/// the last `code` and last `url` pieces that have one, when both exist.
pub fn pair_params(entries: &Vec<QueryPair>) -> (r: Option<(String, String)>)
    ensures
        r.deep_view() == pair_request_of(pairs_view(entries@)),
{
    let code = last_value_exec(entries, "code");
    let url = last_value_exec(entries, "url");
    match (code, url) {
        (Some(c), Some(u)) => Some((c, u)),
        _ => None,
    }
}

/// The pairing code and dashboard address a link carries, when it is a
/// pairing link (`sts2sync://pair?..`) whose query has a decodable `code`
/// and `url`.
pub fn parse_pair_link(link: &str) -> (r: Option<(String, String)>)
    ensures
        r.deep_view() == pair_link_target(link@),
{
    let query = match strip_prefix_text(link, "sts2sync://pair?") {
        Some(q) => q,
        None => {
            return None;
        },
    };
    let raw = query_pairs(query.as_str());
    let ghost rv = pairs_view(raw@);
    let mut decoded: Vec<QueryPair> = Vec::new();
    let mut i: usize = 0;
    while i < raw.len()
        invariant
            rv == pairs_view(raw@),
            i <= raw.len(),
            pairs_view(decoded@) == decoded_pairs(rv.take(i as int)),
        decreases raw.len() - i,
    {
        let value = match &raw[i].value {
            Some(v) => url_decode(v.as_str()),
            None => None,
        };
        let ghost before = pairs_view(decoded@);
        decoded.push(QueryPair { key: raw[i].key.clone(), value });
        assert(pairs_view(decoded@) =~= before.push(decoded_pairs(rv.take(i + 1))[i as int]));
        assert(decoded_pairs(rv.take(i + 1)) =~= decoded_pairs(rv.take(i as int)).push(
            decoded_pairs(rv.take(i + 1))[i as int],
        ));
        i = i + 1;
    }
    assert(rv.take(raw.len() as int) =~= rv);
    pair_params(&decoded)
}


/// A pairing link made of the prefix, `code=`, a code, `&url=` and an
/// address (neither holding `&`) pairs with the decoded code and address,
/// when both decode.
pub proof fn lemma_pair_link_carries_code_and_url(code: Seq<char>, url: Seq<char>)
    requires
        !code.contains('&'),
        !url.contains('&'),
    ensures
        pair_link_target(pair_link_prefix() + "code="@ + code + "&url="@ + url) == match (
            url_decoded(code),
            url_decoded(url),
        ) {
            (Some(c), Some(u)) => Some((c, u)),
            _ => None,
        },
{
    reveal_strlit("code=");
    reveal_strlit("&url=");
    reveal_strlit("code");
    reveal_strlit("url");
    reveal_strlit("url=");
    let prefix = pair_link_prefix();
    let link = prefix + "code="@ + code + "&url="@ + url;
    let query = "code="@ + code + "&url="@ + url;
    assert(link.take(prefix.len() as int) =~= prefix);
    assert(link.skip(prefix.len() as int) =~= query);
    assert(strip_prefix(link, prefix) == Some(query));
    let first = "code"@ + seq!['='] + code;
    let second = "url"@ + seq!['='] + url;
    assert(query =~= first + seq!['&'] + second);
    assert(!first.contains('&')) by {
        if first.contains('&') {
            let k = choose|k: int| 0 <= k < first.len() && first[k] == '&';
            if k >= 5 {
                assert(code[k - 5] == '&');
            }
        }
    }
    assert(!second.contains('&')) by {
        if second.contains('&') {
            let k = choose|k: int| 0 <= k < second.len() && second[k] == '&';
            if k >= 4 {
                assert(url[k - 4] == '&');
            }
        }
    }
    lemma_split_after_first(first, '&', second);
    lemma_split_without_separator(second, '&');
    assert(split_char(query, '&') =~= seq![first, second]);
    assert(!"code"@.contains('='));
    assert(!"url"@.contains('='));
    lemma_split_once_at("code"@, '=', code);
    lemma_split_once_at("url"@, '=', url);
    let raw = raw_query_pairs(query);
    assert(raw =~= seq![("code"@, Some(code)), ("url"@, Some(url))]);
    let d = decoded_pairs(raw);
    assert(d =~= seq![("code"@, url_decoded(code)), ("url"@, url_decoded(url))]);
    assert("url"@ != "code"@);
    assert(d.drop_last() =~= seq![("code"@, url_decoded(code))]);
    assert(d.drop_last().drop_last() =~= Seq::<(Seq<char>, Option<Seq<char>>)>::empty());
    assert(last_value(d.drop_last().drop_last(), "code"@) is None);
    assert(last_value(d.drop_last().drop_last(), "url"@) is None);
    assert(last_value(d.drop_last(), "code"@) == url_decoded(code));
    assert(last_value(d.drop_last(), "url"@) is None);
    assert(last_value(d, "code"@) == url_decoded(code));
    assert(last_value(d, "url"@) == url_decoded(url));
    assert(strip_prefix(link, prefix) == Some(query));
    assert(pair_link_target(link) == pair_request_of(d));
}

/// The list of links in a deep-link event payload: the payload read as a
/// JSON array of strings, or no links when it is not one.
pub fn deep_link_urls(payload: &str) -> (r: Vec<String>)
    ensures
        r.deep_view() == match json_string_list(payload@) {
            Some(l) => l,
            None => Seq::<Seq<char>>::empty(),
        },
{
    match parse_string_list(payload) {
        Some(v) => v,
        None => {
            let v: Vec<String> = Vec::new();
            assert(v.deep_view() =~= Seq::<Seq<char>>::empty());
            v
        },
    }
}

} // verus!
