//! The ids of jobs.

use vstd::prelude::*;
use vstd::string::StringExecFns;

use crate::random::{is_uuid, random_uuid};
use crate::text::{all_digits, chars_of, decimal, decimal_text, lemma_decimal_round_trip, text_of};

verus! {

/// A name that ends with a unique id, and perhaps the number of a test among several.
pub const JOB_ID_PATTERN: &'static str =
    "[0-9a-f]{8}-[0-9a-f]{4}-[0-9a-f]{4}-[0-9a-f]{4}-[0-9a-f]{12}(_[0-9]+)?$";

/// A unique id from `i` on, and behind it the end of the text or the number of a test.
pub open spec fn id_from(s: Seq<char>, i: int) -> bool {
    &&& 0 <= i
    &&& i + 36 <= s.len()
    &&& is_uuid(s.subrange(i, i + 36))
    &&& (s.len() == i + 36 || (s[i + 36] == '_' && s.len() > i + 37 && all_digits(s.skip(i + 37))))
}

/// The name of a job that was made already.
pub open spec fn is_job_id(s: Seq<char>) -> bool {
    exists|i: int| id_from(s, i)
}

/// `regex::Regex::is_match` on the pattern of a job id: whether the text ends as the pattern says.
/// `Regex::new` fails on some patterns, and not on this one.
#[verifier::external_body]
fn matches_pattern(pattern: &str, text: &str) -> (r: bool)
    requires
        pattern@ == JOB_ID_PATTERN@,
    ensures
        r == is_job_id(text@),
{
    regex::Regex::new(pattern).unwrap().is_match(text)
}

/// A character with the Unicode property `White_Space`.
pub open spec fn is_white_space(c: char) -> bool {
    ||| '\u{9}' <= c <= '\u{d}'
    ||| c == '\u{20}'
    ||| c == '\u{85}'
    ||| c == '\u{a0}'
    ||| c == '\u{1680}'
    ||| '\u{2000}' <= c <= '\u{200a}'
    ||| c == '\u{2028}'
    ||| c == '\u{2029}'
    ||| c == '\u{202f}'
    ||| c == '\u{205f}'
    ||| c == '\u{3000}'
}

fn white_space(c: char) -> (r: bool)
    ensures
        r == is_white_space(c),
{
    ('\u{9}' <= c && c <= '\u{d}') || c == '\u{20}' || c == '\u{85}' || c == '\u{a0}' || c
        == '\u{1680}' || ('\u{2000}' <= c && c <= '\u{200a}') || c == '\u{2028}' || c == '\u{2029}'
        || c == '\u{202f}' || c == '\u{205f}' || c == '\u{3000}'
}

/// A text without white space at its start.
pub open spec fn trimmed_start(s: Seq<char>) -> Seq<char>
    decreases s.len(),
{
    if s.len() > 0 && is_white_space(s[0]) {
        trimmed_start(s.skip(1))
    } else {
        s
    }
}

/// A text without white space at its end.
pub open spec fn trimmed_end(s: Seq<char>) -> Seq<char>
    decreases s.len(),
{
    if s.len() > 0 && is_white_space(s.last()) {
        trimmed_end(s.drop_last())
    } else {
        s
    }
}

/// A text without white space at its ends.
pub open spec fn trimmed(s: Seq<char>) -> Seq<char> {
    trimmed_end(trimmed_start(s))
}

/// Takes white space from the ends of a text.
pub fn trim(text: &str) -> (r: String)
    ensures
        r@ == trimmed(text@),
{
    let chars = chars_of(text);
    let mut from: usize = 0;
    assert(chars@.skip(0) =~= chars@);
    while from < chars.len() && white_space(chars[from])
        invariant
            from <= chars@.len(),
            trimmed_start(chars@) == trimmed_start(chars@.skip(from as int)),
        decreases chars@.len() - from,
    {
        assert(chars@.skip(from as int).skip(1) =~= chars@.skip(from + 1));
        from += 1;
    }
    let ghost rest = chars@.skip(from as int);
    assert(trimmed_start(chars@) == rest);
    let mut to: usize = chars.len();
    assert(chars@.subrange(from as int, to as int) =~= rest);
    while to > from && white_space(chars[to - 1])
        invariant
            from <= to <= chars@.len(),
            trimmed_end(rest) == trimmed_end(chars@.subrange(from as int, to as int)),
        decreases to,
    {
        assert(chars@.subrange(from as int, to as int).drop_last() =~= chars@.subrange(
            from as int,
            to - 1,
        ));
        to -= 1;
    }
    let ghost last = chars@.subrange(from as int, to as int);
    assert(trimmed_end(last) == last);
    text_of(&chars, from, to)
}

/// The id of a job with the given name, where `fresh` is an id that was not used yet.
pub open spec fn job_id_text(name: Option<Seq<char>>, fresh: Seq<char>) -> Seq<char> {
    match name {
        None => fresh,
        Some(name) => if is_job_id(name) {
            name
        } else {
            trimmed(name) + seq!['-'] + fresh
        },
    }
}

pub open spec fn name_text(name: Option<String>) -> Option<Seq<char>> {
    match name {
        Some(name) => Some(name@),
        None => None,
    }
}

/// The id of a job with the given name, where `fresh` is an id that was not used yet.
pub fn job_id_with(request_name: &Option<String>, fresh: &str) -> (r: String)
    ensures
        r@ == job_id_text(name_text(*request_name), fresh@),
{
    match request_name {
        None => fresh.to_owned(),
        Some(name) => if matches_pattern(JOB_ID_PATTERN, name.as_str()) {
            name.clone()
        } else {
            let mut r = trim(name.as_str());
            r.push('-');
            r.append(fresh);
            r
        },
    }
}

/// The id of a job with the given name: the name itself where it is the id of a job, otherwise
/// the name and a fresh id.
pub fn job_id(request_name: &Option<String>) -> (r: String)
    ensures
        exists|fresh: Seq<char>| #[trigger]
            is_uuid(fresh) && r@ == job_id_text(name_text(*request_name), fresh),
        is_job_id(r@),
{
    let fresh = random_uuid();
    proof {
        lemma_job_id(name_text(*request_name), fresh@);
    }
    job_id_with(request_name, fresh.as_str())
}

/// The id of the test at position `index` among several.
pub open spec fn sub_id_text(id: Seq<char>, index: nat) -> Seq<char> {
    id + seq!['_'] + decimal_text(index)
}

/// The id of the test at position `index` among several.
pub fn sub_job_id(id: &str, index: usize) -> (r: String)
    ensures
        r@ == sub_id_text(id@, index as nat),
{
    let mut r = id.to_owned();
    r.push('_');
    r.append(decimal(index as u64).as_str());
    r
}

/// The id of a job is the id of a job: another node that is given it keeps it.
pub proof fn lemma_job_id(name: Option<Seq<char>>, fresh: Seq<char>)
    requires
        is_uuid(fresh),
    ensures
        is_job_id(job_id_text(name, fresh)),
        forall|other: Seq<char>|
            #![trigger job_id_text(Some(job_id_text(name, fresh)), other)]
            job_id_text(Some(job_id_text(name, fresh)), other) == job_id_text(name, fresh),
{
    let id = job_id_text(name, fresh);
    if !(name is Some && is_job_id(name->0)) {
        let i = id.len() - 36;
        assert(id.subrange(i, i + 36) =~= fresh);
        assert(id_from(id, i));
    }
}

/// The id of a test among several is kept too, where the id that they have in common ends with a
/// unique id.
pub proof fn lemma_sub_job_id(id: Seq<char>, i: int, index: nat)
    requires
        id_from(id, i),
        id.len() == i + 36,
    ensures
        is_job_id(sub_id_text(id, index)),
        forall|other: Seq<char>|
            #![trigger job_id_text(Some(sub_id_text(id, index)), other)]
            job_id_text(Some(sub_id_text(id, index)), other) == sub_id_text(id, index),
{
    let sub = sub_id_text(id, index);
    lemma_decimal_round_trip(index);
    assert(sub.subrange(i, i + 36) =~= id.subrange(i, i + 36));
    assert(sub.skip(i + 37) =~= decimal_text(index));
    assert(id_from(sub, i));
}

} // verus!
