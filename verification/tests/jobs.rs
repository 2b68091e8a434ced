//! Jobs: their ids, their state, and what is asked of them.

use overload::http_api::{
    file_upload_success_response, GenericError, GenericResponse, JobStatusQueryParams, Response,
};
use overload::job_ids::{job_id, job_id_with, sub_job_id, trim};
use overload::jobs::{stop_message, ErrorCode, JobStatus, JobTable};
use overload::text_map::TextMap;
use regex::Regex;

fn query(pairs: &[(&str, &str)]) -> TextMap<String> {
    let mut map = TextMap::new();
    for (k, v) in pairs {
        map.insert(k.to_string(), v.to_string());
    }
    map
}

fn check_query_params() {
    let result =
        JobStatusQueryParams::try_from(query(&[("offset", "0"), ("limit", "20")])).unwrap();
    assert!(matches!(&result, JobStatusQueryParams::PagerOptions { offset: 0, limit: 20 }));
    assert_eq!("offset=0&limit=20", result.to_query());

    let result = JobStatusQueryParams::try_from(query(&[("job_id", "some-job-id")])).unwrap();
    println!("{:?}", &result);
    assert!(matches!(result, JobStatusQueryParams::JobId { job_id: _ }));
    assert_eq!("job_id=some-job-id", result.to_query());

    let result = JobStatusQueryParams::try_from(query(&[
        ("offset", "0"),
        ("limit", "20"),
        ("job_id", "some-uuid"),
    ]));
    println!("{:?}", &result);
    assert!(result.is_err());
}

#[test]
fn lib_job_status_query_param() {
    check_query_params();
}

#[test]
fn request_job_status_query_param() {
    check_query_params();
}

#[test]
fn what_is_wrong_with_a_query() {
    let error = |pairs: &[(&str, &str)]| -> (u16, String) {
        let e: GenericError = JobStatusQueryParams::try_from(query(pairs)).unwrap_err();
        (e.error_code, e.message)
    };
    let no_number = "x".parse::<usize>().unwrap_err();
    assert_eq!(error(&[("offset", "x")]), (400, format!("Invalid offset x, {}", no_number)));
    assert_eq!(
        error(&[("offset", "3"), ("limit", "x")]),
        (400, format!("Invalid limit 3, {}", no_number))
    );
    assert_eq!(error(&[("limit", "0")]), (400, "limit can't be less than 1".to_string()));
    assert_eq!(
        error(&[("other", "1")]),
        (400, "Invalid or too many query params".to_string())
    );
    assert!(matches!(
        JobStatusQueryParams::try_from(query(&[])).unwrap(),
        JobStatusQueryParams::PagerOptions { offset: 0, limit: 20 }
    ));
}

#[test]
fn errors_as_text() {
    let mut e = GenericError::new("no", 404);
    assert_eq!(e.display(), "(404, no, 0)");
    e.data.insert("a".to_string(), "b".to_string());
    assert_eq!(e.display(), "(404, no, 1)");
    assert_eq!(GenericError::error_unknown().display(), "(500, Unknown error, 0)");
    assert_eq!(GenericError::internal_500("x").error_code, 500);
    assert_eq!(GenericError::from_error(400, "bad").message, "bad");
    assert_eq!(GenericError::default().error_code, u16::MAX);
}

#[test]
fn an_answer_to_an_upload() {
    let response: GenericResponse<String> = file_upload_success_response("f".to_string(), 3);
    assert_eq!(response.data.get("file"), Some(&"f".to_string()));
    assert_eq!(response.data.get("valid_count"), Some(&"3".to_string()));
}

#[test]
fn test_job_id() {
    for name in [
        "multi-req-7e19ae6b-59af-4916-8cc0-a04cc48a739b",
        "multi-req-7e19ae6b-59af-4916-8cc0-a04cc48a739b_0",
    ] {
        let option = Some(name.to_string());
        assert_eq!(job_id(&option), name.to_string());
    }
}

#[test]
fn new_job_ids() {
    let uuid = "[0-9a-f]{8}-[0-9a-f]{4}-[0-9a-f]{4}-[0-9a-f]{4}-[0-9a-f]{12}";
    assert!(Regex::new(&format!("^{}$", uuid)).unwrap().is_match(&job_id(&None)));
    let named = job_id(&Some("  demo test ".to_string()));
    assert!(Regex::new(&format!("^demo test-{}$", uuid)).unwrap().is_match(&named));
    // an id that was given once is kept
    assert_eq!(job_id(&Some(named.clone())), named);
    let sub = sub_job_id(&named, 12);
    assert_eq!(sub, format!("{}_12", named));
    assert_eq!(job_id(&Some(sub.clone())), sub);
}

#[test]
fn job_ids_with_a_given_part() {
    let fresh = "7e19ae6b-59af-4916-8cc0-a04cc48a739b";
    assert_eq!(job_id_with(&None, fresh), fresh);
    assert_eq!(job_id_with(&Some("a".to_string()), fresh), format!("a-{}", fresh));
    let almost = format!("{}_", fresh);
    assert_eq!(job_id_with(&Some(almost.clone()), fresh), format!("{}-{}", almost, fresh));
    let upper = fresh.to_uppercase();
    assert_eq!(job_id_with(&Some(upper.clone()), fresh), format!("{}-{}", upper, fresh));
}

#[test]
fn trimming() {
    for text in ["", " ", "a", " a b\t", "\u{3000}x\u{a0}", "\u{2003}\n", "\u{200b}x"] {
        assert_eq!(trim(text), text.trim());
    }
    for n in 0..0x3100u32 {
        if let Some(c) = char::from_u32(n) {
            let text = format!("{}x{}", c, c);
            assert_eq!(trim(&text), text.trim());
        }
    }
}

fn table(entries: &[(&str, JobStatus)]) -> JobTable {
    let mut jobs = JobTable::new();
    for (id, status) in entries {
        jobs.insert(id.to_string(), *status);
    }
    jobs
}

#[test]
fn stopping_jobs_by_the_start_of_their_name() {
    let mut jobs = table(&[
        ("b_1", JobStatus::InProgress),
        ("a", JobStatus::Completed),
        ("b_0", JobStatus::Starting),
    ]);
    let answer = jobs.stop("b_");
    assert_eq!(answer.len(), 2);
    assert_eq!(answer.get("b_0"), Some(&"Job stopped".to_string()));
    assert_eq!(answer.get("b_1"), Some(&"Job stopped".to_string()));
    assert_eq!(jobs.get("b_0"), Some(JobStatus::Stopped));
    assert_eq!(jobs.get("a"), Some(JobStatus::Completed));
    assert_eq!(jobs.stop("b_0").get("b_0"), Some(&"Job already stopped".to_string()));
    assert!(jobs.should_stop("b_0"));
    assert!(!jobs.should_stop("a"));
    let before = jobs.stop_request_by_job_id("a");
    assert_eq!(before, vec![("a".to_string(), Some(JobStatus::Completed))]);
}

#[test]
fn messages_for_a_stop() {
    assert_eq!(stop_message(None), "Job Not Found");
    assert_eq!(stop_message(Some(JobStatus::Completed)), "Job already completed");
    assert_eq!(stop_message(Some(JobStatus::Failed)), "Job failed");
    assert_eq!(stop_message(Some(JobStatus::Error(ErrorCode::Others))), "Invalid job status");
}

#[test]
fn pages_of_jobs() {
    let jobs = table(&[
        ("c", JobStatus::Starting),
        ("a", JobStatus::Starting),
        ("d", JobStatus::Starting),
        ("b", JobStatus::Starting),
    ]);
    let page = jobs.get_job_status(None, 1, 2);
    assert_eq!(page.len(), 2);
    assert_eq!((page.entry(0).0, page.entry(1).0), ("b", "c"));
    assert_eq!(jobs.get_job_status(None, 4, 2).len(), 0);
    assert_eq!(jobs.get_job_status(Some("d"), 0, 0).len(), 1);
    assert_eq!(jobs.get_status_all().len(), 4);
    assert_eq!(jobs.get_status_by_job_id("x").len(), 0);
}

#[test]
fn finished_jobs_are_forgotten() {
    let mut jobs = table(&[
        ("a", JobStatus::Completed),
        ("b", JobStatus::InProgress),
        ("c", JobStatus::Failed),
        ("d", JobStatus::Stopped),
        ("e", JobStatus::Error(ErrorCode::NoSecondary)),
    ]);
    jobs.forget_finished();
    assert_eq!(jobs.get_status_all().len(), 2);
    assert_eq!(jobs.get("b"), Some(JobStatus::InProgress));
    assert!(jobs.get("e").is_some());
}

#[test]
fn jobs_are_forgotten_by_their_status() {
    let mut jobs = table(&[
        ("a", JobStatus::Completed),
        ("b", JobStatus::InProgress),
        ("c", JobStatus::Starting),
        ("d", JobStatus::InProgress),
    ]);
    jobs.cleanup_job(|status| matches!(status, JobStatus::InProgress));
    assert_eq!(jobs.get_status_all().len(), 2);
    assert_eq!(jobs.get("a"), Some(JobStatus::Completed));
    assert_eq!(jobs.get("b"), None);
    assert_eq!(jobs.get("c"), Some(JobStatus::Starting));
    assert_eq!(jobs.get("d"), None);
    jobs.cleanup_job(|_| true);
    assert!(jobs.get_status_all().is_empty());
}

#[test]
fn a_finished_job_keeps_its_state() {
    let mut jobs = table(&[("a", JobStatus::Stopped), ("b", JobStatus::InProgress)]);
    jobs.set_job_status("a", JobStatus::Completed);
    jobs.set_job_status("b", JobStatus::Completed);
    jobs.set_job_status("c", JobStatus::Completed);
    assert_eq!(jobs.get("a"), Some(JobStatus::Stopped));
    assert_eq!(jobs.get("b"), Some(JobStatus::Completed));
    assert_eq!(jobs.get("c"), None);
    let response = Response::new("a".to_string(), JobStatus::Stopped);
    assert_eq!(response.get_status(), JobStatus::Stopped);
}
