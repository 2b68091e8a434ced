//! Requests that are sent to the target.

use vstd::prelude::*;

use crate::http_api::lower;
use crate::json::set_entry;
use crate::text_map::{lemma_map_texts_set, map_texts, TextMap};

verus! {

/// One request to the target.
#[derive(Debug)]
pub struct HttpReq {
    pub id: String,
    /// The name of the method, such as `GET`.
    pub method: String,
    pub url: String,
    pub body: Option<String>,
    pub headers: TextMap<String>,
}

/// A request of which only the parts are equal, text by text.
pub open spec fn req_same(a: HttpReq, b: HttpReq) -> bool {
    &&& a.id@ == b.id@
    &&& a.method@ == b.method@
    &&& a.url@ == b.url@
    &&& a.body == b.body
    &&& a.headers.entries() == b.headers.entries()
}

impl Clone for HttpReq {
    fn clone(&self) -> (r: HttpReq)
        ensures
            req_same(r, *self),
    {
        HttpReq {
            id: self.id.clone(),
            method: self.method.clone(),
            url: self.url.clone(),
            body: self.body.clone(),
            headers: self.headers.copied(),
        }
    }
}

/// No two requests have the same id.
pub open spec fn ids_distinct(list: Seq<HttpReq>) -> bool {
    forall|i: int, j: int|
        0 <= i < j < list.len() ==> (#[trigger] list[i]).id@ != (#[trigger] list[j]).id@
}

// ---------------------------------------------------------------------------------------------
// Methods and headers
// ---------------------------------------------------------------------------------------------

/// A character of a method.
pub open spec fn is_method_char(c: char) -> bool {
    ||| 'a' <= c <= 'z'
    ||| 'A' <= c <= 'Z'
    ||| '0' <= c <= '9'
    ||| c == '!' || c == '*' || c == '+' || c == '-' || c == '.' || c == '^' || c == '_' || c
        == '`' || c == '|' || c == '~'
}

/// The name of a method: one or more of its characters.
pub open spec fn is_method(s: Seq<char>) -> bool {
    s.len() > 0 && forall|i: int| 0 <= i < s.len() ==> is_method_char(#[trigger] s[i])
}

/// `http::Method::try_from`, written by its `Display`: the text where it is the name of a method,
/// none otherwise.
#[verifier::external_body]
pub(crate) fn parse_method(text: &str) -> (r: Option<String>)
    ensures
        match r {
            Some(method) => is_method(text@) && method@ == text@,
            None => !is_method(text@),
        },
{
    http::Method::try_from(text).ok().map(|m| m.to_string())
}

/// A character of the name of a header.
pub open spec fn is_header_char(c: char) -> bool {
    ||| is_method_char(c)
    ||| c == '"' || c == '#' || c == '$' || c == '%' || c == '&' || c == '\''
}

/// The name of a header, in any case.
pub open spec fn is_header_name(s: Seq<char>) -> bool {
    &&& 0 < s.len() <= 65535
    &&& forall|i: int| 0 <= i < s.len() ==> is_header_char(#[trigger] s[i])
}

/// A text with its ASCII letters in lower case.
pub open spec fn lower_text(s: Seq<char>) -> Seq<char> {
    Seq::new(s.len(), |i: int| lower(s[i]))
}

/// `http::header::HeaderName::from_str`: the name of a header in lower case, none of a text that
/// is no such name.
#[verifier::external_body]
fn parse_header_name(text: &str) -> (r: Option<String>)
    ensures
        match r {
            Some(name) => is_header_name(text@) && name@ == lower_text(text@),
            None => !is_header_name(text@),
        },
{
    text.parse::<http::header::HeaderName>().ok().map(|name| name.as_str().to_string())
}

/// The value of a header: no control characters but tabs.
pub open spec fn is_header_value(s: Seq<char>) -> bool {
    forall|i: int|
        0 <= i < s.len() ==> (#[trigger] s[i] == '\t' || (s[i] >= ' ' && s[i] != '\u{7f}'))
}

/// `http::header::HeaderValue::from_str`: whether a text is the value of a header.
#[verifier::external_body]
fn check_header_value(text: &str) -> (r: bool)
    ensures
        r == is_header_value(text@),
{
    http::header::HeaderValue::from_str(text).is_ok()
}

/// Adds a header, in place of one of the same name. Nothing is added where the name or the value
/// is malformed.
pub fn try_add_header(headers: &mut TextMap<String>, k: &str, v: &str) -> (r: Option<String>)
    ensures
        match r {
            Some(name) => {
                &&& is_header_name(k@) && is_header_value(v@)
                &&& name@ == lower_text(k@)
                &&& exists|value: String|
                    value@ == v@ && final(headers).entries() == #[trigger] set_entry(
                        old(headers).entries(),
                        lower_text(k@),
                        value,
                    )
            },
            None => {
                &&& !is_header_name(k@) || !is_header_value(v@)
                &&& *final(headers) == *old(headers)
            },
        },
        old(headers).wf() ==> final(headers).wf(),
{
    match parse_header_name(k) {
        Some(name) => if check_header_value(v) {
            let value = v.to_owned();
            headers.insert(name.clone(), value);
            Some(name)
        } else {
            None
        },
        None => None,
    }
}

/// The headers that are sent: those that are well formed, under their names in lower case. Of
/// several with the same name the last one counts.
pub open spec fn sent_texts(entries: Seq<(Seq<char>, Seq<char>)>) -> Seq<(Seq<char>, Seq<char>)>
    decreases entries.len(),
{
    if entries.len() == 0 {
        entries
    } else {
        let before = sent_texts(entries.drop_last());
        let (name, value) = entries.last();
        if is_header_name(name) && is_header_value(value) {
            set_entry(before, lower_text(name), value)
        } else {
            before
        }
    }
}

impl HttpReq {
    /// The headers that are sent with the request.
    pub fn sent_headers(&self) -> (r: TextMap<String>)
        ensures
            r.wf(),
            map_texts(r.entries()) == sent_texts(map_texts(self.headers.entries())),
    {
        let ghost all = map_texts(self.headers.entries());
        let mut r: TextMap<String> = TextMap::new();
        let mut i: usize = 0;
        assert(all.take(0) =~= Seq::empty());
        assert(map_texts(r.entries()) =~= Seq::empty());
        while i < self.headers.len()
            invariant
                i <= all.len(),
                all == map_texts(self.headers.entries()),
                r.wf(),
                map_texts(r.entries()) == sent_texts(all.take(i as int)),
            decreases all.len() - i,
        {
            let (k, v) = self.headers.entry(i);
            let ghost before = r.entries();
            let added = try_add_header(&mut r, k, v.as_str());
            proof {
                assert(all.take(i + 1).drop_last() =~= all.take(i as int));
                assert(all.take(i + 1).last() == all[i as int]);
                assert(all[i as int] == (k@, v@));
                if added is Some {
                    let value = choose|value: String|
                        value@ == v@ && r.entries() == #[trigger] set_entry(
                            before,
                            lower_text(k@),
                            value,
                        );
                    lemma_map_texts_set(before, lower_text(k@), value);
                }
            }
            i += 1;
        }
        assert(all.take(i as int) =~= all);
        r
    }
}

} // verus!
