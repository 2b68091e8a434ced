//! Laws of what the HTTP interface takes and answers, and of the headers that are sent.

use vstd::prelude::*;

use crate::http_api::{
    file_upload_success_response, has_host, lemma_job_id_round_trip, lemma_page_round_trip, lower,
    same_ignoring_case, validate_and_update_host_header, GenericError, GenericResponse,
    JobStatusQueryParams, Response, Target,
};
use crate::http_req::{
    is_header_name, is_header_value, lower_text, sent_texts, try_add_header, HttpReq,
};
use crate::jobs::JobStatus;
use crate::json::{
    has_key, key_index, lemma_key_index, lemma_set_entry, lemma_unique_index, lookup, set_entry,
    unique_keys,
};
use crate::text::{decimal, lemma_decimal_round_trip, natural_value};
use crate::text_map::{map_texts, without, TextMap};
use crate::upload_laws::says;

verus! {

// ---------------------------------------------------------------------------------------------
// Which jobs are asked for
// ---------------------------------------------------------------------------------------------

/// A name occurs among entries.
pub open spec fn occurs<T>(entries: Seq<(Seq<char>, T)>, name: Seq<char>) -> bool {
    exists|k: int| 0 <= k < entries.len() && (#[trigger] entries[k]).0 == name
}

/// The text under a name, or another one.
pub open spec fn text_under(
    entries: Seq<(Seq<char>, String)>,
    name: Seq<char>,
    default: Seq<char>,
) -> Seq<char> {
    if occurs(entries, name) {
        entries[choose|k: int| 0 <= k < entries.len() && (#[trigger] entries[k]).0 == name].1@
    } else {
        default
    }
}

/// The number fits a machine word.
pub open spec fn is_word(n: Option<nat>) -> bool {
    n matches Some(n) && n <= usize::MAX
}

proof fn lemma_without<T>(entries: Seq<(Seq<char>, T)>, key: Seq<char>)
    requires
        unique_keys(entries),
    ensures
        unique_keys(without(entries, key)),
        !occurs(without(entries, key), key),
        forall|other: Seq<char>|
            #![trigger lookup(without(entries, key), other)]
            other != key ==> lookup(without(entries, key), other) == lookup(entries, other),
        forall|other: Seq<char>|
            #![trigger occurs(without(entries, key), other)]
            other != key ==> (occurs(without(entries, key), other) <==> occurs(entries, other)),
{
    let after = without(entries, key);
    let at = key_index(entries, key);
    lemma_key_index(entries, key);
    assert forall|i: int| 0 <= i < after.len() implies (#[trigger] after[i]).0 != key by {
        if at >= 0 {
            let k = if i < at {
                i
            } else {
                i + 1
            };
            assert(after[i] == entries[k]);
            if k < at {
                assert(entries[k].0 != entries[at].0);
            }
        } else {
            assert(after[i] == entries[i]);
        }
    }
    assert forall|i: int, j: int| 0 <= i < j < after.len() implies (#[trigger] after[i]).0 != (
    #[trigger] after[j]).0 by {
        if at >= 0 {
            let k = if i < at {
                i
            } else {
                i + 1
            };
            let l = if j < at {
                j
            } else {
                j + 1
            };
            assert(after[i] == entries[k] && after[j] == entries[l]);
        }
    }
    assert forall|other: Seq<char>| other != key implies (#[trigger] occurs(after, other)
        <==> occurs(entries, other)) && lookup(after, other) == lookup(entries, other) by {
        lemma_key_index(entries, other);
        lemma_key_index(after, other);
        if occurs(after, other) {
            let i = choose|i: int| 0 <= i < after.len() && (#[trigger] after[i]).0 == other;
            let k = if at >= 0 && i >= at {
                i + 1
            } else {
                i
            };
            assert(after[i] == entries[k]);
            lemma_unique_index(entries, k);
            lemma_unique_index(after, i);
        } else if occurs(entries, other) {
            let k = choose|k: int| 0 <= k < entries.len() && (#[trigger] entries[k]).0 == other;
            let i = if at >= 0 && k > at {
                k - 1
            } else {
                k
            };
            assert(k != at);
            assert(after[i] == entries[k]);
        }
    }
    assert forall|other: Seq<char>| other != key implies #[trigger] lookup(after, other) == lookup(
        entries,
        other,
    ) by {
        assert(occurs(after, other) <==> occurs(entries, other));
    }
}

proof fn lemma_text_under(entries: Seq<(Seq<char>, String)>, name: Seq<char>, default: Seq<char>)
    requires
        unique_keys(entries),
    ensures
        text_under(entries, name, default) == crate::http_api::text_or(
            lookup(entries, name),
            default,
        ),
        occurs(entries, name) <==> lookup(entries, name) is Some,
{
    lemma_key_index(entries, name);
    if occurs(entries, name) {
        let k = choose|k: int| 0 <= k < entries.len() && (#[trigger] entries[k]).0 == name;
        lemma_unique_index(entries, k);
        assert(has_key(entries, name));
    }
}

/// A query names one job and nothing else, or a page by the two numbers that make one and nothing
/// else. A page begins at its first job and has twenty jobs where the query does not say so, and
/// never none. Whatever else is asked is a bad request, for the first thing that is wrong.
pub proof fn lemma_params(value: TextMap<String>, r: Result<JobStatusQueryParams, GenericError>)
    requires
        value.wf(),
        call_ensures(JobStatusQueryParams::try_from, (value,), r),
    ensures
        r matches Err(e) ==> e.error_code == 400 && e.data.entries().len() == 0,
        ({
            let all = value.entries();
            let named = occurs(all, "job_id"@);
            let offset = natural_value(text_under(all, "offset"@, "0"@));
            let limit = natural_value(text_under(all, "limit"@, "20"@));
            let known = forall|k: int|
                0 <= k < all.len() ==> (#[trigger] all[k]).0 == "offset"@ || all[k].0 == "limit"@;
            let page = is_word(offset) && is_word(limit) && limit != Some(0nat);
            &&& named ==> (r is Ok <==> all.len() == 1)
            &&& r matches Ok(JobStatusQueryParams::JobId { job_id }) ==> all.len() == 1
                && all[0].0 == "job_id"@ && job_id@ == all[0].1@
            &&& r matches Ok(JobStatusQueryParams::PagerOptions { offset: o, limit: l })
                ==> !named && offset == Some(o as nat) && limit == Some(l as nat)
            &&& !named ==> (r is Ok <==> page && known)
            &&& named && r is Err ==> r->Err_0.message@ == "Invalid or too many query params"@
            &&& !named && page && !known ==> r->Err_0.message@
                == "Invalid or too many query params"@
            &&& !named && is_word(offset) && limit == Some(0nat) ==> r->Err_0.message@
                == "limit can't be less than 1"@
        }),
{
    let all = value.entries();
    let rest = without(all, "offset"@);
    let last = without(rest, "limit"@);
    reveal_strlit("job_id");
    reveal_strlit("offset");
    reveal_strlit("limit");
    assert("job_id"@.len() == 6 && "offset"@.len() == 6 && "limit"@.len() == 5);
    assert("job_id"@[0] != "offset"@[0]);
    lemma_text_under(all, "job_id"@, "0"@);
    lemma_text_under(all, "offset"@, "0"@);
    lemma_text_under(all, "limit"@, "20"@);
    lemma_without(all, "job_id"@);
    lemma_without(all, "offset"@);
    lemma_without(rest, "limit"@);
    lemma_key_index(all, "job_id"@);
    assert(lookup(rest, "limit"@) == lookup(all, "limit"@));
    assert(last.len() == 0 <==> forall|k: int|
        0 <= k < all.len() ==> (#[trigger] all[k]).0 == "offset"@ || all[k].0 == "limit"@) by {
        if last.len() > 0 {
            let name = last[0].0;
            assert(last[0].0 == name);
            assert(occurs(last, name));
            assert(occurs(rest, name));
            assert(occurs(all, name));
            let k = choose|k: int| 0 <= k < all.len() && (#[trigger] all[k]).0 == name;
            assert(all[k].0 != "offset"@ && all[k].0 != "limit"@);
        } else {
            assert forall|k: int| 0 <= k < all.len() implies (#[trigger] all[k]).0 == "offset"@
                || all[k].0 == "limit"@ by {
                let name = all[k].0;
                assert(occurs(all, name));
                if name != "offset"@ && name != "limit"@ {
                    assert(occurs(rest, name));
                    assert(occurs(last, name));
                }
            }
        }
    }
    if occurs(all, "job_id"@) {
        let at = key_index(all, "job_id"@);
        assert(without(all, "job_id"@).len() == all.len() - 1);
    }
}

/// A query is written as its names and values, with numbers in digits.
pub proof fn lemma_query_written(params: JobStatusQueryParams, a: String, b: String, text: String)
    requires
        call_ensures(JobStatusQueryParams::to_query, (&params,), text),
        params matches JobStatusQueryParams::PagerOptions { offset, limit } ==> call_ensures(
            decimal,
            (offset as u64,),
            a,
        ) && call_ensures(decimal, (limit as u64,), b),
    ensures
        params matches JobStatusQueryParams::JobId { job_id } ==> text@ == "job_id="@ + job_id@,
        params is PagerOptions ==> text@ == "offset="@ + a@ + "&limit="@ + b@,
{
}

/// What a query was written from is read back from its names and values.
pub proof fn lemma_params_back(
    params: JobStatusQueryParams,
    value: TextMap<String>,
    a: String,
    b: String,
    r: Result<JobStatusQueryParams, GenericError>,
)
    requires
        call_ensures(JobStatusQueryParams::try_from, (value,), r),
        match params {
            JobStatusQueryParams::JobId { job_id } => value.entries() == seq![("job_id"@, job_id)],
            JobStatusQueryParams::PagerOptions { offset, limit } => {
                &&& limit >= 1
                &&& call_ensures(decimal, (offset as u64,), a)
                &&& call_ensures(decimal, (limit as u64,), b)
                &&& value.entries() == seq![("offset"@, a), ("limit"@, b)]
            },
        },
    ensures
        match params {
            JobStatusQueryParams::JobId { job_id } => r is Ok && r->Ok_0 is JobId
                && r->Ok_0->job_id@ == job_id@,
            JobStatusQueryParams::PagerOptions { offset, limit } => r is Ok
                && r->Ok_0 is PagerOptions && r->Ok_0->offset == offset && r->Ok_0->limit == limit,
        },
{
    match params {
        JobStatusQueryParams::JobId { job_id } => {
            lemma_job_id_round_trip(job_id);
        },
        JobStatusQueryParams::PagerOptions { offset, limit } => {
            lemma_page_round_trip(offset as nat, limit as nat, a, b);
        },
    }
}

// ---------------------------------------------------------------------------------------------
// Answers
// ---------------------------------------------------------------------------------------------

/// Errors say what they were made from.
pub proof fn lemma_errors(
    msg: &str,
    code: u16,
    internal: GenericError,
    unknown: GenericError,
    plain: GenericError,
    other: GenericError,
)
    requires
        call_ensures(GenericError::internal_500, (msg,), internal),
        call_ensures(GenericError::error_unknown, (), unknown),
        call_ensures(GenericError::new, (msg, code), plain),
        call_ensures(GenericError::from_error, (code, msg), other),
    ensures
        internal.error_code == 500 && internal.message@ == msg@,
        unknown.error_code == 500 && unknown.message@ == "Unknown error"@,
        plain.error_code == code && plain.message@ == msg@,
        other.error_code == code && other.message@ == msg@,
{
}

/// An error as text names its code, its message and how many further values it has, in this order.
pub proof fn lemma_error_shown(e: GenericError, code: String, further: String, r: String)
    requires
        call_ensures(GenericError::display, (&e,), r),
        call_ensures(decimal, (e.error_code as u64,), code),
        e.data.entries().len() <= u64::MAX,
        call_ensures(decimal, (e.data.entries().len() as u64,), further),
    ensures
        r@ == "("@ + code@ + ", "@ + e.message@ + ", "@ + further@ + ")"@,
{
}

/// An address is the host, a colon and the port in digits.
pub proof fn lemma_host_port(target: Target, r: String)
    requires
        call_ensures(Target::host_port, (&target,), r),
    ensures
        r@.len() > target.host@.len() + 1,
        r@.take(target.host@.len() as int) == target.host@,
        r@[target.host@.len() as int] == ':',
        natural_value(r@.skip(target.host@.len() as int + 1)) == Some(target.port as nat),
{
    reveal_strlit(":");
    lemma_decimal_round_trip(target.port as nat);
    assert(r@.take(target.host@.len() as int) =~= target.host@);
    assert(r@.skip(target.host@.len() as int + 1) =~= crate::text::decimal_text(
        target.port as nat,
    ));
}

/// The answer to an upload says the name of the file and the count.
pub proof fn lemma_upload_success(file: String, n: usize, r: GenericResponse<String>)
    requires
        call_ensures(file_upload_success_response, (file, n), r),
    ensures
        r.data.entries().len() == 2,
        says(r.data.entries(), "file"@, file@),
        exists|text: Seq<char>| #[trigger]
            says(r.data.entries(), "valid_count"@, text) && natural_value(text) == Some(n as nat),
{
    lemma_decimal_round_trip(n as nat);
    assert(r.data.entries()[0].0 == "file"@);
    assert(r.data.entries()[1].0 == "valid_count"@);
    assert(says(r.data.entries(), "valid_count"@, r.data.entries()[1].1@));
}

// ---------------------------------------------------------------------------------------------
// Headers
// ---------------------------------------------------------------------------------------------

/// The name of the host header, in any case.
pub open spec fn host_name(name: Seq<char>) -> bool {
    &&& name.len() == 4
    &&& name[0] == 'h' || name[0] == 'H'
    &&& name[1] == 'o' || name[1] == 'O'
    &&& name[2] == 's' || name[2] == 'S'
    &&& name[3] == 't' || name[3] == 'T'
}

/// One of the headers is the host header.
pub open spec fn hosted(entries: Seq<(Seq<char>, String)>) -> bool {
    exists|k: int| 0 <= k < entries.len() && host_name((#[trigger] entries[k]).0)
}

proof fn lemma_lower(c: char, small: char, large: char)
    requires
        'a' <= small && small <= 'z',
        large as u32 + 32 == small as u32,
    ensures
        lower(c) == lower(small) <==> c == small || c == large,
{
    if 'A' <= c && c <= 'Z' {
        let n = (c as u32 + 32) as u32;
        assert(97 <= n <= 122);
        assert(lower(c) as u32 == n);
    }
}

pub proof fn lemma_host_name(name: Seq<char>)
    ensures
        host_name(name) <==> same_ignoring_case(name, "host"@),
{
    reveal_strlit("host");
    let h = "host"@;
    assert(h.len() == 4 && h[0] == 'h' && h[1] == 'o' && h[2] == 's' && h[3] == 't');
    if name.len() == 4 {
        lemma_lower(name[0], 'h', 'H');
        lemma_lower(name[1], 'o', 'O');
        lemma_lower(name[2], 's', 'S');
        lemma_lower(name[3], 't', 'T');
        if same_ignoring_case(name, h) {
            assert(lower(name[0]) == lower(h[0]));
            assert(lower(name[1]) == lower(h[1]));
            assert(lower(name[2]) == lower(h[2]));
            assert(lower(name[3]) == lower(h[3]));
        }
        if host_name(name) {
            assert forall|i: int| 0 <= i < 4 implies lower(#[trigger] name[i]) == lower(h[i]) by {
                assert(i == 0 || i == 1 || i == 2 || i == 3);
            }
        }
    }
}

/// Headers with a host header, under its name in any case, stay as they are. To others the host
/// of the target is added, and nothing else changes. Afterwards there always is a host header.
pub proof fn lemma_host_added(headers: &mut TextMap<String>, target: Target)
    requires
        old(headers).wf(),
        call_ensures(validate_and_update_host_header, (headers, &target), ()),
    ensures
        hosted(final(headers).entries()),
        hosted(old(headers).entries()) ==> final(headers).entries() == old(headers).entries(),
        !hosted(old(headers).entries()) ==> {
            &&& final(headers).entries().len() == old(headers).entries().len() + 1
            &&& final(headers).entries().drop_last() == old(headers).entries()
            &&& final(headers).entries().last().0 == "host"@
            &&& final(headers).entries().last().1@ == target.host@
        },
{
    let before = old(headers).entries();
    assert(hosted(before) <==> has_host(before)) by {
        assert forall|k: int| 0 <= k < before.len() implies host_name((#[trigger] before[k]).0)
            == same_ignoring_case(before[k].0, "host"@) by {
            lemma_host_name(before[k].0);
        }
    }
    if !hosted(before) {
        let host = choose|host: String|
            host@ == target.host@ && final(headers).entries() == #[trigger] set_entry(
                before,
                "host"@,
                host,
            );
        lemma_key_index(before, "host"@);
        lemma_host_name("host"@);
        let after = final(headers).entries();
        assert(key_index(before, "host"@) < 0) by {
            if key_index(before, "host"@) >= 0 {
                assert(before[key_index(before, "host"@)].0 == "host"@);
                assert(host_name(before[key_index(before, "host"@)].0));
            }
        }
        assert(after == before.push(("host"@, host)));
        assert(after.drop_last() =~= before);
        assert(after[before.len() as int].0 == "host"@);
    }
}

/// A header is added exactly where its name and value are well formed, under its name in lower
/// case and in place of an earlier one of that name; no other header changes.
pub proof fn lemma_header_added(
    headers: &mut TextMap<String>,
    k: &str,
    v: &str,
    other: Seq<char>,
    value: Seq<char>,
    r: Option<String>,
)
    requires
        old(headers).wf(),
        call_ensures(try_add_header, (headers, k, v), r),
    ensures
        r is Some <==> is_header_name(k@) && is_header_value(v@),
        r is None ==> *final(headers) == *old(headers),
        r matches Some(name) ==> {
            &&& name@ == lower_text(k@)
            &&& says(final(headers).entries(), name@, v@)
            &&& says(final(headers).entries(), name@, value) ==> value == v@
            &&& other != name@ ==> (says(final(headers).entries(), other, value) <==> says(
                old(headers).entries(),
                other,
                value,
            ))
        },
{
    if let Some(name) = r {
        let x = choose|x: String|
            x@ == v@ && final(headers).entries() == #[trigger] set_entry(
                old(headers).entries(),
                lower_text(k@),
                x,
            );
        let before = old(headers).entries();
        let after = final(headers).entries();
        lemma_set_entry(before, name@, x);
        lemma_says(after, name@, v@);
        lemma_says(after, name@, value);
        lemma_says(after, other, value);
        lemma_says(before, other, value);
    }
}

proof fn lemma_says(entries: Seq<(Seq<char>, String)>, name: Seq<char>, value: Seq<char>)
    requires
        unique_keys(entries),
    ensures
        says(entries, name, value) <==> (lookup(entries, name) matches Some(x) && x@ == value),
{
    lemma_key_index(entries, name);
    if says(entries, name, value) {
        let k = choose|k: int|
            0 <= k < entries.len() && (#[trigger] entries[k]).0 == name && entries[k].1@ == value;
        lemma_unique_index(entries, k);
    }
}

/// A header that can be sent.
pub open spec fn sendable(e: (Seq<char>, Seq<char>)) -> bool {
    is_header_name(e.0) && is_header_value(e.1)
}

/// The header at `i` is sent: it is well formed, and no later one that is has its name.
pub open spec fn is_sent(e: Seq<(Seq<char>, Seq<char>)>, i: int) -> bool {
    &&& 0 <= i < e.len() && sendable(e[i])
    &&& forall|j: int|
        i < j < e.len() && sendable(#[trigger] e[j]) ==> lower_text(e[j].0) != lower_text(e[i].0)
}

proof fn lemma_sent(e: Seq<(Seq<char>, Seq<char>)>)
    ensures
        unique_keys(sent_texts(e)),
        forall|i: int|
            #[trigger] is_sent(e, i) ==> lookup(sent_texts(e), lower_text(e[i].0)) == Some(e[i].1),
        forall|name: Seq<char>|
            #[trigger] lookup(sent_texts(e), name) is Some ==> exists|i: int|
                #[trigger] is_sent(e, i) && lower_text(e[i].0) == name,
    decreases e.len(),
{
    if e.len() > 0 {
        let front = e.drop_last();
        let last = e.last();
        lemma_sent(front);
        lemma_set_entry(sent_texts(front), lower_text(last.0), last.1);
        assert forall|i: int| #[trigger] is_sent(e, i) implies lookup(
            sent_texts(e),
            lower_text(e[i].0),
        ) == Some(e[i].1) by {
            if i < front.len() {
                assert forall|j: int|
                    i < j < front.len() && sendable(#[trigger] front[j]) implies lower_text(
                    front[j].0,
                ) != lower_text(front[i].0) by {
                    assert(sendable(e[j]));
                }
                assert(is_sent(front, i));
                assert(sendable(e[e.len() - 1]) ==> lower_text(last.0) != lower_text(e[i].0));
            }
        }
        assert forall|name: Seq<char>| #[trigger]
            lookup(sent_texts(e), name) is Some implies exists|i: int| #[trigger]
            is_sent(e, i) && lower_text(e[i].0) == name by {
            if sendable(last) && name == lower_text(last.0) {
                assert(is_sent(e, e.len() - 1));
            } else {
                assert(lookup(sent_texts(front), name) is Some);
                let i = choose|i: int| #[trigger]
                    is_sent(front, i) && lower_text(front[i].0) == name;
                assert forall|j: int|
                    i < j < e.len() && sendable(#[trigger] e[j]) implies lower_text(e[j].0)
                    != lower_text(e[i].0) by {
                    if j < front.len() {
                        assert(sendable(front[j]));
                    }
                }
                assert(is_sent(e, i));
            }
        }
    }
}

/// Of the headers of a request the well-formed ones are sent, under their names in lower case and
/// the last of each name alone. Nothing else is sent.
pub proof fn lemma_headers_sent(req: HttpReq, r: TextMap<String>)
    requires
        call_ensures(HttpReq::sent_headers, (&req,), r),
    ensures
        ({
            let e = Seq::new(
                req.headers.entries().len(),
                |i: int| (req.headers.entries()[i].0, req.headers.entries()[i].1@),
            );
            &&& forall|i: int|
                #[trigger] is_sent(e, i) ==> says(r.entries(), lower_text(e[i].0), e[i].1)
            &&& forall|k: int|
                0 <= k < r.entries().len() ==> exists|i: int| #[trigger]
                    is_sent(e, i) && (#[trigger] r.entries()[k]).0 == lower_text(e[i].0)
                        && r.entries()[k].1@ == e[i].1
            &&& forall|k: int, l: int|
                0 <= k < l < r.entries().len() ==> r.entries()[k].0 != r.entries()[l].0
        }),
{
    let e = map_texts(req.headers.entries());
    assert(e =~= Seq::new(
        req.headers.entries().len(),
        |i: int| (req.headers.entries()[i].0, req.headers.entries()[i].1@),
    ));
    lemma_sent(e);
    let texts = map_texts(r.entries());
    assert(texts == sent_texts(e));
    assert forall|i: int| #[trigger] is_sent(e, i) implies says(
        r.entries(),
        lower_text(e[i].0),
        e[i].1,
    ) by {
        lemma_key_index(texts, lower_text(e[i].0));
        let k = key_index(texts, lower_text(e[i].0));
        assert(r.entries()[k].0 == texts[k].0);
    }
    assert forall|k: int| 0 <= k < r.entries().len() implies exists|i: int| #[trigger]
        is_sent(e, i) && (#[trigger] r.entries()[k]).0 == lower_text(e[i].0) && r.entries()[k].1@
            == e[i].1 by {
        let name = r.entries()[k].0;
        assert(texts[k].0 == name);
        lemma_unique_index(texts, k);
        assert(lookup(texts, name) == Some(texts[k].1));
        let i = choose|i: int| #[trigger] is_sent(e, i) && lower_text(e[i].0) == name;
        assert(lookup(texts, lower_text(e[i].0)) == Some(e[i].1));
    }
    assert forall|k: int, l: int| 0 <= k < l < r.entries().len() implies r.entries()[k].0
        != r.entries()[l].0 by {
        assert(texts[k].0 != texts[l].0);
    }
}

/// A copy of a request says what the request says.
pub proof fn lemma_request_copied(req: HttpReq, r: HttpReq, target: Target, copy: Target)
    requires
        call_ensures(HttpReq::clone, (&req,), r),
        call_ensures(Target::copied, (&target,), copy),
    ensures
        r.id@ == req.id@ && r.method@ == req.method@ && r.url@ == req.url@,
        r.body == req.body && r.headers.entries() == req.headers.entries(),
        copy.host@ == target.host@ && copy.port == target.port && copy.protocol == target.protocol,
{
}

/// An answer says what it was made from; one without values has none.
pub proof fn lemma_answers(
    job_id: String,
    status: JobStatus,
    r: Response,
    got: JobStatus,
    none: GenericResponse<String>,
    unknown: GenericError,
)
    requires
        call_ensures(Response::new, (job_id, status), r),
        call_ensures(Response::get_status, (&r,), got),
        call_ensures(GenericResponse::<String>::empty, (), none),
        call_ensures(GenericError::default, (), unknown),
    ensures
        r.job_id@ == job_id@ && r.status == status && got == status,
        none.data.entries().len() == 0,
        unknown.error_code == 65535 && unknown.message@.len() == 0
            && unknown.data.entries().len() == 0,
{
}

} // verus!
