//! Laws of tests as they are submitted: what becomes of their headers, their files and their data
//! from outside.

use vstd::prelude::*;

use crate::external_data::{
    external_view, externals_view, first_mention, lemma_first_mention, rows, same_external, tally,
    ExternalData, ExternalTally, ExternalView, Mention,
};
use crate::file_path::{
    full_path, joined_path, lemma_full_path_stays, part_end, part_start, stem_end,
};
use crate::generator::{
    default_concurrent_connection, ConcurrentConnectionRateSpec, RequestGenerator,
};
use crate::http_api::{
    default_generation_mode, has_host, same_ignoring_case, ConnectionKeepAlive, LoadGenerationMode,
    Target,
};
use crate::http_laws::{host_name, hosted, lemma_host_name};
use crate::http_req::HttpReq;
use crate::json::{key_index, lemma_key_index};
use crate::request::{data_file_path, with_host, Request, RequestShadow};
use crate::request_specs::{
    RandomDataRequest, RequestFile, RequestList, RequestSpecEnum,
};
use crate::response_assert::ResponseAssertion;

verus! {

// ---------------------------------------------------------------------------------------------
// Headers
// ---------------------------------------------------------------------------------------------

/// Headers with the host added at their end, where none of them was the host header.
pub open spec fn hosted_from(
    before: Seq<(Seq<char>, String)>,
    after: Seq<(Seq<char>, String)>,
    host: Seq<char>,
) -> bool {
    if hosted(before) {
        after == before
    } else {
        &&& after.len() == before.len() + 1
        &&& after.drop_last() == before
        &&& after.last().0 == "host"@
        &&& after.last().1@ == host
    }
}

proof fn lemma_with_host(
    before: Seq<(Seq<char>, String)>,
    after: Seq<(Seq<char>, String)>,
    host: Seq<char>,
)
    requires
        with_host(before, after, host),
    ensures
        hosted_from(before, after, host),
{
    assert(hosted(before) <==> has_host(before)) by {
        assert forall|k: int| 0 <= k < before.len() implies host_name((#[trigger] before[k]).0)
            == same_ignoring_case(before[k].0, "host"@) by {
            lemma_host_name(before[k].0);
        }
    }
    if !hosted(before) {
        let value = choose|value: String|
            value@ == host && after == #[trigger] crate::json::set_entry(before, "host"@, value);
        lemma_key_index(before, "host"@);
        lemma_host_name("host"@);
        let at = key_index(before, "host"@);
        if at >= 0 {
            assert(host_name(before[at].0));
        }
        assert(after == before.push(("host"@, value)));
        assert(after.drop_last() =~= before);
    }
}

/// A test is what was written. Headers that are written once for all requests get the host of
/// the target where they name none; nothing else changes.
pub proof fn lemma_submitted(value: RequestShadow, r: Request)
    requires
        call_ensures(Request::from, (value,), r),
    ensures
        r.name == value.name && r.duration == value.duration && r.target == value.target,
        r.qps == value.qps && r.concurrent_connection == value.concurrent_connection,
        r.connection_keep_alive == value.connection_keep_alive,
        r.response_assertion == value.response_assertion,
        r.generation_mode == value.generation_mode,
        value.req is RequestList || value.req is RequestFile || value.req is SplitRequestFile
            ==> r.req == value.req,
        value.req matches RequestSpecEnum::JsonTemplateRequest(b) ==> r.req is JsonTemplateRequest
            && ({
            let a = r.req->JsonTemplateRequest_0;
            &&& hosted_from(b.headers.entries(), a.headers.entries(), value.target.host@)
            &&& a.init == b.init && a.method == b.method && a.url == b.url && a.body == b.body
        }),
        value.req matches RequestSpecEnum::RandomDataRequest(b) ==> r.req is RandomDataRequest && ({
            let a = r.req->RandomDataRequest_0;
            &&& hosted_from(b.headers.entries(), a.headers.entries(), value.target.host@)
            &&& a.init == b.init && a.method == b.method && a.url == b.url
            &&& a.url_param_pos == b.url_param_pos && a.body_schema == b.body_schema
            &&& a.uri_param_schema == b.uri_param_schema
        }),
{
    match (value.req, r.req) {
        (RequestSpecEnum::JsonTemplateRequest(b), RequestSpecEnum::JsonTemplateRequest(a)) => {
            lemma_with_host(b.headers.entries(), a.headers.entries(), value.target.host@);
        },
        (RequestSpecEnum::RandomDataRequest(b), RequestSpecEnum::RandomDataRequest(a)) => {
            lemma_with_host(b.headers.entries(), a.headers.entries(), value.target.host@);
        },
        _ => {},
    }
}

/// What a test has that says nothing of it.
pub proof fn lemma_defaults(
    mode: LoadGenerationMode,
    keep: ConnectionKeepAlive,
    connections: ConcurrentConnectionRateSpec,
)
    requires
        call_ensures(default_generation_mode, (), mode),
        call_ensures(ConnectionKeepAlive::default, (), keep),
        call_ensures(default_concurrent_connection, (), connections),
    ensures
        mode == LoadGenerationMode::Immediate,
        keep.ttl == 0xffff_ffff && keep.max_request_per_connection == 0xffff_ffff,
        connections is Elastic && connections->Elastic_0.max == 65535,
{
}

// ---------------------------------------------------------------------------------------------
// Files
// ---------------------------------------------------------------------------------------------

/// An upload is kept in the directory, under its name and as a database.
pub proof fn lemma_kept_at(data_dir: &str, name: &str, r: String)
    requires
        call_ensures(data_file_path, (data_dir, name), r),
    ensures
        r@ == data_dir@ + "/"@ + name@ + ".sqlite"@,
{
    reveal_strlit("/");
    assert("/"@ =~= seq!['/']);
}

proof fn lemma_stem(head: Seq<char>, stem: Seq<char>, extension: Seq<char>)
    requires
        head.len() > 0,
        head.last() == '/',
        stem.len() > 0,
        !stem.contains('/'),
        !extension.contains('/'),
        !extension.contains('.'),
        extension.len() > 0,
    ensures
        crate::file_path::with_ending(head + stem + seq!['.'] + extension, ".sqlite"@) == head + stem
            + ".sqlite"@,
{
    let path = head + stem + seq!['.'] + extension;
    let n = path.len() as int;
    let start = head.len() as int;
    let dot = start + stem.len();
    assert(path[dot] == '.');
    assert forall|i: int| start <= i < n implies path[i] != '/' by {
        if i < dot {
            assert(stem.contains(stem[i - start]));
        } else if i > dot {
            assert(extension.contains(extension[i - dot - 1]));
        }
    }
    assert forall|i: int| dot < i < n implies path[i] != '.' by {
        assert(extension.contains(extension[i - dot - 1]));
    }
    assert(part_end(path, n) == n);
    lemma_start(path, start, n);
    let part = path.subrange(start, n);
    assert(part.len() >= 3);
    lemma_dot(path, start, n, n, dot);
    assert(path.take(dot) =~= head + stem);
}

proof fn lemma_start(path: Seq<char>, start: int, n: int)
    requires
        0 < start <= n <= path.len(),
        path[start - 1] == '/',
        forall|i: int| start <= i < n ==> path[i] != '/',
    ensures
        part_start(path, n) == start,
    decreases n,
{
    if n > start {
        assert(path[n - 1] != '/');
        lemma_start(path, start, n - 1);
    }
}

proof fn lemma_dot(path: Seq<char>, start: int, end: int, n: int, dot: int)
    requires
        0 <= start < dot < n <= end <= path.len(),
        path[dot] == '.',
        forall|i: int| dot < i < n ==> path[i] != '.',
    ensures
        stem_end(path, start, end, n) == dot,
    decreases n,
{
    if n - 1 != dot {
        assert(path[n - 1] != '.');
        lemma_dot(path, start, end, n - 1, dot);
    }
}

/// A request file is looked for in the directory, as a database, in place of the extension that
/// its name may have.
pub proof fn lemma_looked_for(
    data_dir: &str,
    name: &str,
    stem: Seq<char>,
    extension: Seq<char>,
    r: String,
)
    requires
        call_ensures(full_path, (data_dir, name), r),
        data_dir@.len() > 0,
        stem.len() > 0,
        !stem.contains('/'),
        !extension.contains('/'),
        !extension.contains('.'),
        name@ == stem && !stem.contains('.') || name@ == stem + seq!['.'] + extension
            && extension.len() > 0,
    ensures
        data_dir@.last() != '/' ==> r@ == data_dir@ + "/"@ + stem + ".sqlite"@,
        data_dir@.last() == '/' ==> r@ == data_dir@ + stem + ".sqlite"@,
{
    reveal_strlit("/");
    assert("/"@ =~= seq!['/']);
    assert(name@[0] == stem[0]);
    assert(stem.contains(stem[0]));
    let head = if data_dir@.last() != '/' {
        data_dir@ + seq!['/']
    } else {
        data_dir@
    };
    let joined = joined_path(data_dir@, name@);
    assert(joined =~= head + name@);
    if name@ == stem && !stem.contains('.') {
        lemma_plain(head, stem);
    } else {
        assert(joined =~= head + stem + seq!['.'] + extension);
        lemma_stem(head, stem, extension);
    }
}

proof fn lemma_plain(head: Seq<char>, stem: Seq<char>)
    requires
        head.len() > 0,
        head.last() == '/',
        stem.len() > 0,
        !stem.contains('/'),
        !stem.contains('.'),
    ensures
        crate::file_path::with_ending(head + stem, ".sqlite"@) == head + stem + ".sqlite"@,
{
    let path = head + stem;
    let n = path.len() as int;
    let start = head.len() as int;
    assert forall|i: int| start <= i < n implies path[i] != '/' && path[i] != '.' by {
        assert(stem.contains(stem[i - start]));
    }
    assert(part_end(path, n) == n);
    lemma_start(path, start, n);
    let part = path.subrange(start, n);
    assert(part[0] != '.');
    lemma_dotless(path, start, n, n);
    assert(path.take(n) =~= path);
}

proof fn lemma_dotless(path: Seq<char>, start: int, end: int, n: int)
    requires
        0 <= start < n <= end <= path.len(),
        forall|i: int| start <= i < n ==> path[i] != '.',
    ensures
        stem_end(path, start, end, n) == end,
    decreases n,
{
    if n > start + 1 {
        assert(path[n - 1] != '.');
        lemma_dotless(path, start, end, n - 1);
    }
}

/// A name that begins at the root does not need the directory, and a file that was found is found
/// again from any directory.
pub proof fn lemma_found_again(
    data_dir: &str,
    other_dir: &str,
    name: &str,
    first: String,
    same: &str,
    again: String,
)
    requires
        call_ensures(full_path, (data_dir, name), first),
        same@ == first@,
        call_ensures(full_path, (other_dir, same), again),
        data_dir@.len() > 0,
        data_dir@[0] == '/',
    ensures
        again@ == first@,
{
    lemma_full_path_stays(data_dir@, other_dir@, name@);
}

/// A request file is looked for where an upload of its name is kept, and is described to other
/// nodes by that name.
pub proof fn lemma_upload_found(
    data_dir: &str,
    name: &str,
    found: String,
    kept: String,
    file: RequestFile,
    described: Option<RequestFile>,
)
    requires
        data_dir@.len() > 0,
        data_dir@.last() != '/',
        name@.len() > 0,
        !name@.contains('/'),
        !name@.contains('.'),
        call_ensures(full_path, (data_dir, name), found),
        call_ensures(data_file_path, (data_dir, name), kept),
        file.file_name@ == kept@,
        call_ensures(RequestFile::described, (&file,), described),
    ensures
        found@ == kept@,
        described is Some && described->0.file_name@ == name@ && !described->0.open,
{
    crate::request::lemma_upload_is_found(data_dir@, name@);
    crate::request::lemma_given_name(data_dir@, name@);
}

/// The database of a file is opened under its path.
pub proof fn lemma_database(file: RequestFile, r: String)
    requires
        call_ensures(RequestFile::database_url, (&file,), r),
    ensures
        r@ == "sqlite://"@ + file.file_name@,
{
}

/// A source that has a file gets the full path of that file, and nothing else changes.
pub proof fn lemma_located(
    source: RequestSpecEnum,
    data_dir: &str,
    name: &str,
    path: String,
    r: RequestSpecEnum,
)
    requires
        call_ensures(RequestSpecEnum::located, (source, data_dir), r),
        call_ensures(full_path, (data_dir, name), path),
        source matches RequestSpecEnum::RequestFile(f) ==> f.file_name@ == name@,
        source matches RequestSpecEnum::SplitRequestFile(f) ==> f.file_name@ == name@,
    ensures
        source matches RequestSpecEnum::RequestFile(b) ==> r is RequestFile && ({
            let a = r->RequestFile_0;
            a.file_name@ == path@ && a.open == b.open && a.size == b.size
        }),
        source matches RequestSpecEnum::SplitRequestFile(b) ==> r is SplitRequestFile
            && r->SplitRequestFile_0.file_name@ == path@ && b == (
        crate::request_specs::SplitRequestFile { file_name: b.file_name, ..r->SplitRequestFile_0 }),
        !(source is RequestFile) && !(source is SplitRequestFile) ==> r == source,
{
}

/// A test becomes a plan where its source gives requests on demand. The plan is for the same
/// target and checks, and is shared where every node can make the requests itself.
pub proof fn lemma_planned(
    request: Request,
    data_dir: &str,
    source: RequestSpecEnum,
    r: Option<(RequestGenerator, RequestSpecEnum)>,
    made: RequestGenerator,
    target: &Target,
    checks: Option<&ResponseAssertion>,
    shared: bool,
    scale: u8,
    hint: (usize, Option<usize>),
    next: Option<u32>,
)
    requires
        call_ensures(Request::into_generator, (request, data_dir), r),
        r matches Some((plan, _)) ==> plan == made,
        call_ensures(RequestGenerator::target, (&made,), target),
        call_ensures(RequestGenerator::response_assertion, (&made,), checks),
        call_ensures(RequestGenerator::shared_provider, (&made,), shared),
        call_ensures(RequestGenerator::time_scale, (&made,), scale),
        call_ensures(RequestGenerator::size_hint, (&made,), hint),
        call_ensures(RequestGenerator::next_second, (&made,), next),
    ensures
        r is Some <==> request.req is RequestList || request.req is RequestFile
            || request.req is RandomDataRequest,
        r is Some ==> *target == request.target,
        r is Some ==> (checks is Some <==> request.response_assertion is Some),
        r is Some && checks is Some ==> request.response_assertion == Some(*checks->0),
        r is Some ==> (shared <==> !(request.req is RequestList)),
        r is Some ==> scale == 1,
        r is Some ==> hint.0 == 0 && hint.1 == Some(request.duration as usize),
        r is Some ==> (next is Some <==> request.duration > 0),
        r is Some && next is Some ==> next == Some(0u32),
{
}

/// Sources say how many requests they have, and whether nodes can share them.
pub proof fn lemma_sources(
    list: RequestList,
    file: RequestFile,
    random: RandomDataRequest,
    listed: usize,
    filed: usize,
    drawn: usize,
    list_shared: bool,
    file_shared: bool,
    random_shared: bool,
)
    requires
        call_ensures(RequestList::size_hint, (&list,), listed),
        call_ensures(RequestFile::size_hint, (&file,), filed),
        call_ensures(RandomDataRequest::size_hint, (&random,), drawn),
        call_ensures(RequestList::shared, (&list,), list_shared),
        call_ensures(RequestFile::shared, (&file,), file_shared),
        call_ensures(RandomDataRequest::shared, (&random,), random_shared),
    ensures
        listed == list.data@.len(),
        filed == file.size,
        drawn == usize::MAX,
        !list_shared && file_shared && random_shared,
{
}

/// A list of requests is a source of just these.
pub proof fn lemma_listed(requests: Vec<HttpReq>, r: RequestSpecEnum)
    requires
        call_ensures(RequestSpecEnum::from, (requests,), r),
    ensures
        r is RequestList && r->RequestList_0.data == requests,
{
}

// ---------------------------------------------------------------------------------------------
// Data from outside
// ---------------------------------------------------------------------------------------------

/// How many rows the first `k` mentions ask of a place.
pub open spec fn asked(given: Seq<(ExternalData, usize)>, path: Seq<char>, k: nat) -> nat
    decreases k,
{
    if k == 0 {
        0
    } else {
        let before = asked(given, path, (k - 1) as nat);
        match given[k - 1].0 {
            ExternalData::Object { path: p, count: _ } => if p@ == path {
                before + given[k - 1].1 as nat
            } else {
                before
            },
            _ => before,
        }
    }
}

/// A place is among the first `k` mentions.
pub open spec fn met(given: Seq<(ExternalData, usize)>, path: Seq<char>, k: nat) -> bool {
    exists|i: int|
        0 <= i < k && ((#[trigger] given[i]).0 matches ExternalData::Object { path: p, count: _ }
            && p@ == path)
}

/// The mentions of the first `k` calls.
spec fn noted(given: Seq<(ExternalData, usize)>, k: nat) -> Seq<Mention> {
    Seq::new(k, |i: int| (given[i].0@, given[i].1 as nat))
}

proof fn lemma_same_place(a: ExternalView, path: Seq<char>, n: nat)
    ensures
        same_external(a, ExternalView::Object { path, count: n }) <==> (a is Object && a->path
            == path),
{
    reveal(same_external);
}

proof fn lemma_asked(given: Seq<(ExternalData, usize)>, path: Seq<char>, n: nat, k: nat)
    requires
        k <= given.len(),
    ensures
        rows(noted(given, k), ExternalView::Object { path, count: n }) == asked(given, path, k),
    decreases k,
{
    if k > 0 {
        lemma_asked(given, path, n, (k - 1) as nat);
        let now = noted(given, k);
        assert(now.drop_last() =~= noted(given, (k - 1) as nat));
        let e = given[k - 1].0;
        assert(now.last() == (e@, given[k - 1].1 as nat));
        lemma_same_place(e@, path, n);
        match e {
            ExternalData::Object { path: p, count: c } => {
                assert(e@ == (ExternalView::Object { path: p@, count: c as nat }));
            },
            ExternalData::Array(key, items) => {
                assert(!(e@ is Object));
            },
        }
    }
}

proof fn lemma_noted(
    made: ExternalTally,
    given: Seq<(ExternalData, usize)>,
    calls: Seq<&mut ExternalTally>,
    k: nat,
)
    requires
        call_ensures(ExternalTally::new, (), made),
        given.len() == calls.len(),
        k < calls.len(),
        *calls[0] == made,
        forall|i: int, j: int|
            #![trigger calls[i], calls[j]]
            0 <= i && j == i + 1 && j < calls.len() ==> *calls[j] == *final(calls[i]),
        forall|i: int|
            #![trigger calls[i]]
            0 <= i < calls.len() ==> call_ensures(
                ExternalTally::mention,
                (calls[i], given[i].0, given[i].1),
                (),
            ),
    ensures
        final(calls[k as int]).wf(),
        final(calls[k as int]).mentions() == noted(given, k + 1),
    decreases k,
{
    assert(call_ensures(
        ExternalTally::mention,
        (calls[k as int], given[k as int].0, given[k as int].1),
        (),
    ));
    if k > 0 {
        lemma_noted(made, given, calls, (k - 1) as nat);
        assert(*calls[k as int] == *final(calls[k - 1]));
        assert(noted(given, k + 1) =~= noted(given, k).push(
            (given[k as int].0@, given[k as int].1 as nat),
        ));
    } else {
        assert(noted(given, 1) =~= Seq::<Mention>::empty().push((given[0].0@, given[0].1 as nat)));
    }
}

/// Of all that was mentioned every place is listed once, with all the rows that were asked of it,
/// and no place is listed that was not mentioned.
pub proof fn lemma_tallied(
    made: ExternalTally,
    given: Seq<(ExternalData, usize)>,
    calls: Seq<&mut ExternalTally>,
    r: Option<Vec<ExternalData>>,
    path: Seq<char>,
)
    requires
        call_ensures(ExternalTally::new, (), made),
        given.len() == calls.len() > 0,
        *calls[0] == made,
        forall|i: int, j: int|
            #![trigger calls[i], calls[j]]
            0 <= i && j == i + 1 && j < calls.len() ==> *calls[j] == *final(calls[i]),
        forall|i: int|
            #![trigger calls[i]]
            0 <= i < calls.len() ==> call_ensures(
                ExternalTally::mention,
                (calls[i], given[i].0, given[i].1),
                (),
            ),
        call_ensures(ExternalTally::into_list, (*final(calls[calls.len() - 1]),), r),
    ensures
        r is Some,
        forall|i: int|
            0 <= i < r->0@.len() && ((#[trigger] r->0@[i]) matches ExternalData::Object {
                path: p,
                count: _,
            } && p@ == path) ==> r->0@[i]->count == asked(given, path, given.len())
                && met(given, path, given.len()),
        met(given, path, given.len()) ==> exists|i: int|
            0 <= i < r->0@.len() && ((#[trigger] r->0@[i]) matches ExternalData::Object {
                path: p,
                count: _,
            } && p@ == path),
        forall|i: int, j: int|
            0 <= i < j < r->0@.len() && r->0@[i] is Object && r->0@[j] is Object
                ==> r->0@[i]->path@ != r->0@[j]->path@,
{
    let n = given.len();
    lemma_noted(made, given, calls, (n - 1) as nat);
    let mentions = noted(given, n);
    let list = r->0@;
    let views = externals_view(list);
    assert(tally(mentions, views));
    assert forall|i: int|
        0 <= i < list.len() && ((#[trigger] list[i]) matches ExternalData::Object {
            path: p,
            count: _,
        } && p@ == path) implies list[i]->count == asked(given, path, n) && met(
        given,
        path,
        n,
    ) by {
        let count = list[i]->count as nat;
        assert(views[i] == (ExternalView::Object { path, count }));
        lemma_asked(given, path, count, n);
        lemma_first_mention(mentions, views[i]);
        let m = first_mention(mentions, views[i]);
        assert(views[i] == crate::external_data::with_count(
            mentions[m].0,
            rows(mentions, views[i]),
        ));
        lemma_same_place(mentions[m].0, path, count);
        assert(mentions[m].0 == external_view(given[m].0));
        assert(given[m].0 is Object);
    }
    if met(given, path, n) {
        let m = choose|i: int|
            0 <= i < n && ((#[trigger] given[i]).0 matches ExternalData::Object {
                path: p,
                count: _,
            } && p@ == path);
        assert(mentions[m].0 == external_view(given[m].0));
        let i = choose|i: int|
            0 <= i < views.len() && same_external(mentions[m].0, #[trigger] views[i]);
        reveal(same_external);
        assert(views[i] == external_view(list[i]));
        assert(list[i] is Object);
    }
    assert forall|i: int, j: int|
        0 <= i < j < list.len() && list[i] is Object && list[j] is Object implies list[i]->path@
        != list[j]->path@ by {
        assert(views[i] == external_view(list[i]));
        assert(views[j] == external_view(list[j]));
        assert(!same_external(views[i], views[j]));
        lemma_same_place(views[i], list[j]->path@, list[j]->count as nat);
    }
}

/// Two references are the same where they name the same places in the same order. Counts do not
/// matter.
pub proof fn lemma_same_reference(a: ExternalData, b: ExternalData, r: bool)
    requires
        call_ensures(ExternalData::same, (&a, &b), r),
    ensures
        a is Object && b is Object ==> (r <==> a->path@ == b->path@),
        a is Object != b is Object ==> !r,
        r && a is Array ==> a->Array_0@ == b->Array_0@ && a->Array_1@.len() == b->Array_1@.len(),
        a@ == b@ ==> r,
{
    reveal(same_external);
    broadcast use crate::external_data::lemma_external_array_view;

    if a@ == b@ {
        crate::external_data::lemma_same_external_reflexive(a@);
    }
}

/// A count is set on a reference to a place, and nothing else changes.
pub proof fn lemma_count_set(e: &mut ExternalData, count: usize)
    requires
        call_ensures(ExternalData::set_object_count, (e, count), ()),
    ensures
        *old(e) matches ExternalData::Object { path, count: _ } ==> final(e)@ == (
        ExternalView::Object { path: path@, count: count as nat }),
        *old(e) is Array ==> final(e)@ == old(e)@,
{
}

/// A tally is empty until something is mentioned, and then not.
pub proof fn lemma_tally_empty(
    made: ExternalTally,
    tally: &mut ExternalTally,
    e: ExternalData,
    more: usize,
    before: bool,
    after: bool,
    list: Option<Vec<ExternalData>>,
)
    requires
        call_ensures(ExternalTally::new, (), made),
        call_ensures(ExternalTally::is_empty, (&made,), before),
        call_ensures(ExternalTally::into_list, (made,), list),
        *old(tally) == made,
        call_ensures(ExternalTally::mention, (tally, e, more), ()),
        call_ensures(ExternalTally::is_empty, (&*final(tally),), after),
    ensures
        before && !after,
        list is None,
{
}

} // verus!
