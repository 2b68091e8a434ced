//! Parameters in a URL, such as `/{shop}/{item}`, and the data that takes their place.
//!
//! Positions are byte offsets into the UTF-8 encoding of the URL.

use vstd::prelude::*;
use vstd::utf8::{
    encode_utf8, is_char_boundary, is_continuation_byte, is_leading_byte_width_1, pop_first_scalar,
    valid_utf8,
};

use crate::json::{view_get, view_i64, view_str, Json, JsonView};
use crate::request_specs::RandomDataRequest;
use crate::text::{integer, integer_text, join3};

verus! {

/// A parameter in a URL: braces around letters, digits, `_` and `-`.
pub const URL_PARAM_PATTERN: &'static str = "\\{[a-zA-Z0-9_-]+}";

pub open spec fn is_name_byte(b: u8) -> bool {
    ||| 0x61 <= b <= 0x7a
    ||| 0x41 <= b <= 0x5a
    ||| 0x30 <= b <= 0x39
    ||| b == 0x5f
    ||| b == 0x2d
}

/// The bytes from `start` up to `end` are a parameter: `{`, a name that is not empty, `}`.
pub open spec fn is_param(bytes: Seq<u8>, start: int, end: int) -> bool {
    &&& 0 <= start
    &&& start + 2 < end <= bytes.len()
    &&& bytes[start] == 0x7b
    &&& bytes[end - 1] == 0x7d
    &&& forall|i: int| start < i < end - 1 ==> is_name_byte(#[trigger] bytes[i])
}

/// `found` lists all parameters, from left to right.
pub open spec fn all_params(bytes: Seq<u8>, found: Seq<(usize, usize)>) -> bool {
    &&& forall|k: int|
        0 <= k < found.len() ==> is_param(
            bytes,
            (#[trigger] found[k]).0 as int,
            found[k].1 as int,
        )
    &&& forall|j: int, k: int|
        0 <= j < k < found.len() ==> (#[trigger] found[j]).1 <= (#[trigger] found[k]).0
    &&& forall|start: int, end: int|
        is_param(bytes, start, end) ==> exists|k: int|
            0 <= k < found.len() && (#[trigger] found[k]).0 == start && found[k].1 == end
}

/// `regex::Regex::find_iter` on the pattern of a parameter: the byte ranges of all matches, from
/// left to right. A match holds no brace but its first and its last, so no two of them overlap
/// and none is passed over. `Regex::new` fails on some patterns, and not on this one.
#[verifier::external_body]
fn find_matches(pattern: &str, url: &str) -> (found: Vec<(usize, usize)>)
    requires
        pattern@ == URL_PARAM_PATTERN@,
    ensures
        all_params(encode_utf8(url@), found@),
{
    let re = regex::Regex::new(pattern).unwrap();
    re.find_iter(url).map(|m| (m.start(), m.end())).collect()
}

/// A parameter of a URL: its name, the offset of its `{` and the offset behind its `}`.
#[derive(Debug, Clone)]
pub struct UrlParam {
    pub name: String,
    pub start: usize,
    pub end: usize,
}

/// ASCII bytes as characters.
pub open spec fn ascii_text(bytes: Seq<u8>) -> Seq<char> {
    Seq::new(bytes.len(), |i: int| bytes[i] as char)
}

/// `p` describes the parameter between its offsets.
pub open spec fn describes(p: UrlParam, bytes: Seq<u8>) -> bool {
    &&& is_param(bytes, p.start as int, p.end as int)
    &&& p.name@ == ascii_text(bytes.subrange(p.start + 1, p.end - 1))
}

/// `params` describe parameters of a URL, from right to left.
pub open spec fn params_of(params: Seq<UrlParam>, bytes: Seq<u8>) -> bool {
    &&& forall|k: int| 0 <= k < params.len() ==> describes(#[trigger] params[k], bytes)
    &&& forall|j: int, k: int|
        0 <= j < k < params.len() ==> (#[trigger] params[k]).end <= (#[trigger] params[j]).start
}

/// `params` describe all parameters of a URL, from right to left.
pub open spec fn params_exactly(params: Seq<UrlParam>, bytes: Seq<u8>) -> bool {
    &&& params_of(params, bytes)
    &&& forall|start: int, end: int|
        #[trigger] is_param(bytes, start, end) ==> exists|k: int|
            0 <= k < params.len() && (#[trigger] params[k]).start == start && params[k].end == end
}

/// The text of the ASCII bytes from `from` up to `to`.
fn name_of(url: &str, from: usize, to: usize) -> (r: String)
    requires
        from <= to <= encode_utf8(url@).len(),
        forall|i: int| from <= i < to ==> is_name_byte(#[trigger] encode_utf8(url@)[i]),
    ensures
        r@ == ascii_text(encode_utf8(url@).subrange(from as int, to as int)),
{
    let bytes = url.as_bytes();
    let ghost all = encode_utf8(url@);
    assert(bytes@ == all);
    let mut r = String::new();
    let mut i: usize = from;
    assert(r@ =~= ascii_text(all.subrange(from as int, from as int)));
    while i < to
        invariant
            from <= i <= to <= bytes@.len(),
            bytes@ == all,
            r@ == ascii_text(all.subrange(from as int, i as int)),
        decreases to - i,
    {
        r.push(bytes[i] as char);
        i += 1;
        assert(ascii_text(all.subrange(from as int, i as int)) =~= ascii_text(
            all.subrange(from as int, i - 1),
        ).push(all[i - 1] as char));
    }
    r
}

impl RandomDataRequest {
    /// All parameters of a URL, from right to left.
    pub fn find_param_positions(url: &str) -> (params: Vec<UrlParam>)
        ensures
            params_exactly(params@, encode_utf8(url@)),
    {
        let found = find_matches(URL_PARAM_PATTERN, url);
        let ghost bytes = encode_utf8(url@);
        let mut params: Vec<UrlParam> = Vec::new();
        let mut n: usize = found.len();
        while n > 0
            invariant
                n <= found@.len(),
                bytes == encode_utf8(url@),
                all_params(bytes, found@),
                params@.len() == found@.len() - n,
                forall|k: int|
                    0 <= k < params@.len() ==> describes(#[trigger] params@[k], bytes)
                        && params@[k].start == found@[found@.len() - 1 - k].0 && params@[k].end
                        == found@[found@.len() - 1 - k].1,
            decreases n,
        {
            n -= 1;
            let (start, end) = found[n];
            assert(is_param(bytes, found@[n as int].0 as int, found@[n as int].1 as int));
            let name = name_of(url, start + 1, end - 1);
            params.push(UrlParam { name, start, end });
        }
        proof {
            assert forall|j: int, k: int|
                0 <= j < k < params@.len() implies (#[trigger] params@[k]).end <= (
            #[trigger] params@[j]).start by {
                assert(found@[found@.len() - 1 - k].1 <= found@[found@.len() - 1 - j].0);
            }
            assert forall|start: int, end: int| #[trigger] is_param(bytes, start, end) implies exists|
                k: int,
            |
                0 <= k < params@.len() && (#[trigger] params@[k]).start == start && params@[k].end
                    == end by {
                let m = choose|m: int|
                    0 <= m < found@.len() && (#[trigger] found@[m]).0 == start && found@[m].1 == end;
                let p = params@[found@.len() - 1 - m];
                assert(p.start == start);
            }
        }
        params
    }
}

/// The text that takes the place of a parameter: a string as it is, an integer in decimal.
pub open spec fn param_text(value: JsonView) -> Seq<char> {
    match view_str(value) {
        Some(s) => s,
        None => match view_i64(value) {
            Some(n) => integer_text(n as int),
            None => "unknown"@,
        },
    }
}

/// What stands for a parameter: the data under its name, and the parameter itself where there is
/// none.
pub open spec fn replacement(bytes: Seq<u8>, p: UrlParam, data: JsonView) -> Seq<u8> {
    match view_get(data, p.name@) {
        Some(value) => encode_utf8(param_text(value)),
        None => bytes.subrange(p.start as int, p.end as int),
    }
}

/// The bytes of a URL with data in place of its parameters, which are listed from right to left.
pub open spec fn filled(bytes: Seq<u8>, params: Seq<UrlParam>, data: JsonView) -> Seq<u8>
    decreases params.len(),
{
    if params.len() == 0 {
        bytes
    } else {
        let p = params[0];
        filled(bytes.take(p.start as int), params.skip(1), data) + replacement(bytes, p, data)
            + bytes.skip(p.end as int)
    }
}

pub proof fn lemma_encode_concat(a: Seq<char>, b: Seq<char>)
    ensures
        encode_utf8(a + b) == encode_utf8(a) + encode_utf8(b),
    decreases a.len(),
{
    if a.len() == 0 {
        assert(a + b =~= b);
        assert(encode_utf8(a) + encode_utf8(b) =~= encode_utf8(b));
    } else {
        lemma_encode_concat(a.drop_first(), b);
        assert((a + b).drop_first() =~= a.drop_first() + b);
        assert(encode_utf8(a + b) =~= encode_utf8(a) + encode_utf8(b));
    }
}

/// ASCII bytes at the start of a text end at a character boundary.
proof fn lemma_ascii_boundary(bytes: Seq<u8>, n: int)
    requires
        valid_utf8(bytes),
        0 <= n <= bytes.len(),
        forall|i: int| 0 <= i < n ==> is_leading_byte_width_1(#[trigger] bytes[i]),
    ensures
        is_char_boundary(bytes, n),
    decreases n,
{
    if n > 0 {
        assert(is_leading_byte_width_1(bytes[0]));
        let rest = pop_first_scalar(bytes);
        assert(rest =~= bytes.skip(1));
        assert forall|i: int| 0 <= i < n - 1 implies is_leading_byte_width_1(
            #[trigger] rest[i],
        ) by {
            assert(rest[i] == bytes[i + 1]);
        }
        lemma_ascii_boundary(rest, n - 1);
    }
}

/// Puts `with` in place of the bytes from `start` up to `end`, which are a parameter.
fn replace_param(url: &str, start: usize, end: usize, with: &str) -> (r: String)
    requires
        is_param(encode_utf8(url@), start as int, end as int),
    ensures
        encode_utf8(r@) == encode_utf8(url@).take(start as int) + encode_utf8(with@) + encode_utf8(
            url@,
        ).skip(end as int),
{
    let ghost all = encode_utf8(url@);
    proof {
        vstd::utf8::encode_utf8_valid_utf8(url@);
        vstd::utf8::is_char_boundary_iff_not_is_continuation_byte(all, start as int);
        assert(!is_continuation_byte(all[start as int]));
    }
    let (left, right) = url.split_at(start);
    proof {
        vstd::utf8::encode_utf8_valid_utf8(right@);
        let rest = encode_utf8(right@);
        assert(rest =~= all.skip(start as int));
        assert forall|i: int| 0 <= i < end - start implies is_leading_byte_width_1(
            #[trigger] rest[i],
        ) by {
            assert(rest[i] == all[start + i]);
        }
        lemma_ascii_boundary(rest, end - start);
    }
    let (_, right) = right.split_at(end - start);
    proof {
        lemma_encode_concat(left@, with@);
        lemma_encode_concat(left@ + with@, right@);
        assert(encode_utf8(right@) =~= all.skip(end as int));
        assert(encode_utf8(left@) =~= all.take(start as int));
    }
    join3(left, with, right)
}

impl RandomDataRequest {
    /// Puts data in place of the parameters of a URL. `positions` are the parameters to fill, from
    /// right to left, as [`RandomDataRequest::find_param_positions`] lists them.
    pub fn substitute_param_with_data(url: &mut String, positions: &Vec<UrlParam>, data: &Json)
        requires
            params_of(positions@, encode_utf8(old(url)@)),
        ensures
            encode_utf8(final(url)@) == filled(encode_utf8(old(url)@), positions@, data@),
    {
        let ghost bytes = encode_utf8(url@);
        let ghost mut bound: int = bytes.len() as int;
        let ghost mut tail: Seq<u8> = Seq::empty();
        let mut i: usize = 0;
        assert(bytes.take(bound) + tail =~= bytes);
        assert(positions@.skip(0) =~= positions@);
        assert(bytes.take(bound) =~= bytes);
        assert(filled(bytes, positions@, data@) + tail =~= filled(bytes, positions@, data@));
        while i < positions.len()
            invariant
                i <= positions@.len(),
                params_of(positions@, bytes),
                0 <= bound <= bytes.len(),
                i == 0 ==> bound == bytes.len(),
                i > 0 ==> bound == positions@[i - 1].start,
                encode_utf8(url@) == bytes.take(bound) + tail,
                filled(bytes, positions@, data@) == filled(
                    bytes.take(bound),
                    positions@.skip(i as int),
                    data@,
                ) + tail,
            decreases positions@.len() - i,
        {
            let p = &positions[i];
            let ghost before = encode_utf8(url@);
            let ghost prefix = bytes.take(bound);
            proof {
                let now = positions@[i as int];
                assert(describes(now, bytes));
                assert(is_param(bytes, now.start as int, now.end as int));
                assert(now.end <= bound);
                assert forall|k: int| now.start <= k < now.end implies before[k] == #[trigger] bytes[k] by {}
                assert(is_param(before, now.start as int, now.end as int));
                assert(positions@.skip(i as int)[0] == now);
                assert(positions@.skip(i as int).skip(1) =~= positions@.skip(i + 1));
                assert(prefix.take(now.start as int) =~= bytes.take(now.start as int));
                assert(prefix.subrange(now.start as int, now.end as int) =~= bytes.subrange(
                    now.start as int,
                    now.end as int,
                ));
                let rest = filled(bytes.take(now.start as int), positions@.skip(i + 1), data@);
                let value = replacement(prefix, now, data@);
                assert(filled(prefix, positions@.skip(i as int), data@) == rest + value + prefix.skip(
                    now.end as int,
                ));
                assert(rest + value + prefix.skip(now.end as int) + tail =~= rest + (value
                    + prefix.skip(now.end as int) + tail));
                tail = value + prefix.skip(now.end as int) + tail;
                bound = now.start as int;
            }
            if let Some(value) = data.get(p.name.as_str()) {
                let text: String = match value.as_str() {
                    Some(s) => s.to_owned(),
                    None => match value.as_i64() {
                        Some(n) => integer(n),
                        None => "unknown".to_owned(),
                    },
                };
                let replaced = replace_param(url.as_str(), p.start, p.end, text.as_str());
                *url = replaced;
                assert(encode_utf8(url@) =~= bytes.take(bound) + tail);
            } else {
                assert(encode_utf8(url@) =~= bytes.take(bound) + tail);
            }
            i += 1;
        }
        assert(positions@.skip(i as int) =~= Seq::empty());
    }
}

/// Where data is there for none of the parameters, the URL stays as it is.
pub proof fn lemma_filled_without_data(bytes: Seq<u8>, params: Seq<UrlParam>, data: JsonView)
    requires
        params_of(params, bytes),
        forall|k: int| 0 <= k < params.len() ==> view_get(data, (#[trigger] params[k]).name@) is None,
    ensures
        filled(bytes, params, data) == bytes,
    decreases params.len(),
{
    if params.len() > 0 {
        let p = params[0];
        assert(describes(p, bytes));
        let left = bytes.take(p.start as int);
        assert forall|k: int| 0 <= k < params.skip(1).len() implies describes(
            #[trigger] params.skip(1)[k],
            left,
        ) by {
            let q = params[k + 1];
            assert(describes(q, bytes) && q.end <= p.start);
            assert(left.subrange(q.start + 1, q.end - 1) =~= bytes.subrange(
                q.start + 1,
                q.end - 1,
            ));
            assert forall|i: int| q.start < i < q.end - 1 implies is_name_byte(#[trigger] left[i]) by {
                assert(left[i] == bytes[i]);
            }
        }
        assert forall|k: int| 0 <= k < params.skip(1).len() implies view_get(
            data,
            (#[trigger] params.skip(1)[k]).name@,
        ) is None by {
            assert(params.skip(1)[k] == params[k + 1]);
        }
        lemma_filled_without_data(left, params.skip(1), data);
        assert(left + bytes.subrange(p.start as int, p.end as int) + bytes.skip(p.end as int)
            =~= bytes);
    }
}

} // verus!
