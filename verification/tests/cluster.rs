//! What the nodes of a cluster decide.

use overload::config;
use overload::executor::{
    node_source, to_test_request, ClusterExecution, Dispatch, Execution, Fetched, NextSecond,
    SecondStep,
};
use overload::generator::{
    default_concurrent_connection, ConcurrentConnectionRateSpec, RateSpecEnum,
};
use overload::http_api::{
    ConnectionKeepAlive, JobStatusQueryParams, LoadGenerationMode, Response, Scheme, Target,
};
use overload::http_req::HttpReq;
use overload::jobs::{run_step, ErrorCode, JobStatus, JobTable, RunAction};
use overload::rate_spec::ConstantRate;
use overload::request::{MultiRequest, Request};
use overload::request_specs::{RandomDataRequest, RequestFile, RequestList, RequestSpecEnum};
use overload::response_assert::ResponseAssertion;
use overload::routing;
use overload::routing::{ClusterView, Handover, MultiStep, NodePort, Route, TestStep};
use overload::schema::DataSchema;
use overload::session::{
    check_for_metadata_msg, delivery_result, introduction, rate_messages, unknown_nodes, IntroStep,
    MessageFromPrimary, Metadata, PoolDisposal, PrimaryLoop, RateMessage, Reception, RequestWait,
    RequestWaitStep, Session, SessionStep, StandaloneLoop,
};
use overload::text_map::TextMap;

fn request(name: Option<&str>, req: RequestSpecEnum) -> Request {
    Request {
        name: name.map(|n| n.to_string()),
        duration: 3,
        target: Target { host: "example.com".to_string(), port: 80, protocol: Scheme::HTTP },
        req,
        qps: RateSpecEnum::ConstantRate(ConstantRate { count_per_sec: 1 }),
        concurrent_connection: default_concurrent_connection(),
        connection_keep_alive: ConnectionKeepAlive::default(),
        response_assertion: None,
        generation_mode: LoadGenerationMode::Immediate,
    }
}

fn list() -> RequestSpecEnum {
    RequestSpecEnum::RequestList(RequestList { data: vec![] })
}

fn random(body: Option<DataSchema>, uri: Option<DataSchema>) -> RequestSpecEnum {
    RequestSpecEnum::RandomDataRequest(RandomDataRequest {
        init: false,
        method: "GET".to_string(),
        url: "/".to_string(),
        url_param_pos: None,
        headers: TextMap::new(),
        body_schema: body,
        uri_param_schema: uri,
    })
}

fn no_data() -> Option<DataSchema> {
    Some(DataSchema::Object(Some("named".to_string()), vec![]))
}

fn some_data() -> Option<DataSchema> {
    Some(DataSchema::Object(None, vec![]))
}

#[test]
fn faults_that_are_found_before_a_test() {
    let check = |req: RequestSpecEnum, exists: bool| {
        routing::pre_check(&request(None, req), exists)
    };
    let file = || RequestSpecEnum::RequestFile(RequestFile::new("a".to_string()));
    assert_eq!(check(list(), false), Ok(()));
    assert_eq!(check(file(), false), Err(ErrorCode::RequestFileNotFound));
    assert_eq!(check(file(), true), Ok(()));
    assert_eq!(check(random(no_data(), no_data()), false), Err(ErrorCode::BodyGenerationFailure));
    assert_eq!(
        check(random(some_data(), no_data()), false),
        Err(ErrorCode::UriParamGenerationFailure)
    );
    assert_eq!(check(random(some_data(), some_data()), false), Ok(()));
}

#[test]
fn lua_functions_are_looked_at_before_a_test() {
    let check = |lines: &[&str]| {
        let mut test = request(None, list());
        test.response_assertion = Some(ResponseAssertion {
            assertions: vec![],
            lua_assertion: Some(lines.iter().map(|l| l.to_string()).collect()),
        });
        routing::pre_check(&test, true)
    };
    assert_eq!(check(&["function(a)", "return {}", "end"]), Ok(()));
    assert_eq!(check(&["function(a)", "return {}"]), Err(ErrorCode::LuaParseFailure));
    assert_eq!(check(&[]), Err(ErrorCode::LuaParseFailure));
    assert_eq!(routing::join_lines(&vec!["a".to_string(), "b".to_string()]), "a\nb");
    assert_eq!(
        routing::conclude(Some(ErrorCode::Others), Some(Err("x".to_string()))),
        Err(ErrorCode::Others)
    );
}

#[test]
fn a_lua_function_is_not_looked_at_behind_a_fault() {
    let endless = |mut test: Request| {
        test.response_assertion = Some(ResponseAssertion {
            assertions: vec![],
            lua_assertion: Some(vec!["while true do end".to_string()]),
        });
        test
    };
    let faulty = || request(None, random(no_data(), None));
    let fault = ErrorCode::BodyGenerationFailure;
    assert_eq!(routing::pre_check(&endless(faulty()), true), Err(fault));
    let tests = MultiRequest {
        name: Some(ID.to_string()),
        requests: vec![request(None, list()), faulty(), endless(request(None, list()))],
    };
    let (started, answer) = routing::handle_multi_request(tests, &vec![true; 3]);
    assert_eq!(started.len(), 1);
    assert_eq!(answer.status, JobStatus::Error(fault));
}

const ID: &str = "7e19ae6b-59af-4916-8cc0-a04cc48a739b";

#[test]
fn a_node_that_works_alone() {
    match routing::handle_request(request(Some(ID), list()), false) {
        TestStep::Start(test, answer) => {
            assert_eq!(test.name.as_deref(), Some(ID));
            assert_eq!(answer.job_id, ID);
            assert_eq!(answer.status, JobStatus::Starting);
        }
        other => panic!("unexpected step: {:?}", other),
    }
    match routing::handle_request(request(Some(ID), random(no_data(), None)), false) {
        TestStep::Respond(answer) => {
            assert_eq!(answer.status, JobStatus::Error(ErrorCode::BodyGenerationFailure))
        }
        other => panic!("unexpected step: {:?}", other),
    }
}

#[test]
fn several_tests_are_started_up_to_the_first_fault() {
    let tests = MultiRequest {
        name: Some(ID.to_string()),
        requests: vec![
            request(None, list()),
            request(None, list()),
            request(None, random(None, no_data())),
            request(None, list()),
        ],
    };
    let (started, answer) = routing::handle_multi_request(tests, &vec![true; 4]);
    let names: Vec<String> = started.iter().map(|t| t.name.clone().unwrap()).collect();
    assert_eq!(names, vec![format!("{}_0", ID), format!("{}_1", ID)]);
    assert_eq!(answer.job_id, ID);
    assert_eq!(answer.status, JobStatus::Error(ErrorCode::UriParamGenerationFailure));

    let tests = MultiRequest {
        name: Some(ID.to_string()),
        requests: vec![request(None, list()), request(None, list())],
    };
    let (started, answer) = routing::handle_multi_request(tests, &vec![true; 2]);
    assert_eq!(started.len(), 2);
    assert_eq!(answer.status, JobStatus::Starting);
}

fn view(active: bool, primary: bool, secondaries: Option<usize>) -> ClusterView {
    ClusterView { active, primary, secondaries }
}

#[test]
fn tests_in_a_cluster() {
    let step = |cluster: ClusterView, checked: Result<(), ErrorCode>| {
        routing::route(request(None, list()), "id".to_string(), cluster, checked)
    };
    let status = |step: TestStep| match step {
        TestStep::Respond(answer) => {
            assert_eq!(answer.job_id, "id");
            answer.status
        }
        other => panic!("unexpected step: {:?}", other),
    };
    assert_eq!(
        status(step(view(false, true, Some(1)), Ok(()))),
        JobStatus::Error(ErrorCode::InactiveCluster)
    );
    assert_eq!(
        status(step(view(true, true, Some(0)), Ok(()))),
        JobStatus::Error(ErrorCode::NoSecondary)
    );
    assert_eq!(
        status(step(view(true, true, None), Ok(()))),
        JobStatus::Error(ErrorCode::NoSecondary)
    );
    assert_eq!(
        status(step(view(true, true, Some(2)), Err(ErrorCode::LuaParseFailure))),
        JobStatus::Error(ErrorCode::LuaParseFailure)
    );
    assert!(matches!(step(view(true, true, Some(2)), Ok(())), TestStep::Start(_, _)));
    match step(view(true, false, None), Ok(())) {
        TestStep::Forward(test) => assert_eq!(test.name.as_deref(), Some("id")),
        other => panic!("unexpected step: {:?}", other),
    }
    let answer = routing::forwarded("id".to_string(), None);
    assert_eq!(answer.status, JobStatus::Error(ErrorCode::Others));
    let answer = routing::forwarded(
        "id".to_string(),
        Some(Response::new("x".to_string(), JobStatus::Starting)),
    );
    assert_eq!(answer.job_id, "x");
}

#[test]
fn several_tests_in_a_cluster() {
    let step = |active: bool, primary: bool| {
        let tests = MultiRequest { name: None, requests: vec![request(None, list())] };
        routing::route_multi(tests, "id".to_string(), active, primary)
    };
    assert!(matches!(step(false, true), MultiStep::Respond(_)));
    match step(true, true) {
        MultiStep::Start(tests, answer) => {
            assert_eq!(tests[0].name.as_deref(), Some("id_0"));
            assert_eq!(answer.status, JobStatus::Starting);
        }
        other => panic!("unexpected step: {:?}", other),
    }
    match step(true, false) {
        MultiStep::Forward(tests) => assert_eq!(tests.name.as_deref(), Some("id")),
        other => panic!("unexpected step: {:?}", other),
    }
}

#[test]
fn other_requests_in_a_cluster() {
    match routing::route_other(false, true) {
        Route::Refuse(e) => {
            assert_eq!(e.error_code, 404);
            assert_eq!(e.message, "{\"Error\":\"InactiveCluster\"}");
        }
        other => panic!("unexpected route: {:?}", other),
    }
    assert!(matches!(routing::route_other(true, true), Route::Local));
    assert!(matches!(routing::route_other(true, false), Route::Forward));
}

#[test]
fn addresses_of_the_primary_node() {
    let primaries = Some(vec![Some("http://p".to_string()), None]);
    assert_eq!(routing::primary_uri(&primaries).unwrap(), "http://p");
    for missing in [None, Some(vec![]), Some(vec![None])] {
        let e = routing::primary_uri(&missing).unwrap_err();
        assert_eq!(e.message, "No primary or invalid ServiceInstance URI");
        assert_eq!(e.error_code, 500);
    }
    match routing::handover(&primaries, "tests") {
        Handover::To(uri) => assert_eq!(uri, "http://p/tests"),
        other => panic!("unexpected: {:?}", other),
    }
    match routing::handover(&None, "test") {
        Handover::Failed(e) => assert_eq!(e, "Primary returns None"),
        other => panic!("unexpected: {:?}", other),
    }
    match routing::handover(&Some(vec![None]), "test") {
        Handover::Failed(e) => assert_eq!(e, "Invalid ServiceInstance URI"),
        other => panic!("unexpected: {:?}", other),
    }
    assert!(matches!(routing::handover(&Some(vec![]), "test"), Handover::Nobody(_)));
    assert_eq!(routing::stop_uri("http://p", "j"), "http://p/test/stop/j");
    let params = JobStatusQueryParams::PagerOptions { offset: 1, limit: 2 };
    assert_eq!(routing::status_uri("http://p", &params), "http://p/test/status?offset=1&limit=2");
    assert_eq!(
        routing::data_file_uri("http://p", "f.sqlite"),
        "http://p/cluster/data-file/f.sqlite"
    );
    assert_eq!(
        routing::download_uri("host", 3030, "f.sqlite").unwrap(),
        "http://host:3030/cluster/data-file/f.sqlite"
    );
    assert_eq!(
        routing::upload_uri("http://p:80/other").unwrap(),
        "http://p/test/requests-bin"
    );
    assert!(routing::upload_uri("no url").is_none());
}

#[test]
fn a_node_is_told_who_plans_a_test_before_the_test() {
    assert!(matches!(introduction(None), IntroStep::SendMetadata));
    assert!(matches!(introduction(Some(Ok(()))), IntroStep::SendRequest));
    match introduction(Some(Err("gone".to_string()))) {
        IntroStep::GiveUp(e) => assert_eq!(e, "gone"),
        other => panic!("unexpected step: {:?}", other),
    }
}

#[test]
fn files_that_a_node_needs() {
    let file = RequestSpecEnum::RequestFile(RequestFile::new("/tmp/a.sqlite".to_string()));
    assert_eq!(routing::needed_file(&file), Some("/tmp/a.sqlite"));
    assert_eq!(routing::needed_file(&list()), None);
}

#[test]
fn ports_by_name() {
    let port = |name: Option<&str>, port: u32| NodePort { name: name.map(|n| n.to_string()), port };
    let ports = vec![port(None, 1), port(Some("a"), 2), port(Some("b"), 65536 + 3), port(Some("b"), 4)];
    assert_eq!(routing::find_port(&ports, "b"), Some(3));
    assert_eq!(routing::find_port(&ports, "a"), Some(2));
    assert_eq!(routing::find_port(&ports, "c"), None);
}

#[test]
fn settings() {
    assert_eq!(config::http_port(None), 3030);
    assert_eq!(config::http_port(Some("8080")), 8080);
    assert_eq!(config::http_port(Some("70000")), 3030);
    assert_eq!(config::remoc_port(Some("x")), 3031);
    assert_eq!(config::remoc_port_name(None), "tcp-remoc");
    assert_eq!(config::remoc_port_name(Some("p")), "p");
    assert_eq!(config::request_bundle_size(None), 50);
    assert_eq!(config::wait_on_no_connection(Some("7")), 7);
    assert_eq!(config::pool_connection_timeout(None), 1000);
    assert_eq!(config::pool_connection_timeout(Some("70000")), 70000);
    assert_eq!(config::pool_connection_timeout(Some("-1")), 1000);
    assert_eq!(config::data_dir(None), "/tmp");
    assert_eq!(config::data_dir_path(Some("data")), "/data");
    assert_eq!(config::data_dir_path(Some("/data")), "/data");
    let defaults = config::ClusterSettings {
        update_interval: 1,
        election_timeout: 2,
        max_node: 3,
        min_node: 4,
    };
    let settings =
        config::cluster_config(defaults, Some("11"), Some("10"), Some("5"), Some("4"));
    assert_eq!(
        settings,
        config::ClusterSettings {
            update_interval: 11000,
            election_timeout: 2,
            max_node: 5,
            min_node: 4,
        }
    );
}

// ---------------------------------------------------------------------------------------------
// Conversations
// ---------------------------------------------------------------------------------------------

#[test]
fn the_first_message_says_who_plans() {
    let metadata = || Metadata { primary_host: "p".to_string() };
    let received: Reception<u8> = Reception::Message(MessageFromPrimary::Metadata(metadata()));
    assert_eq!(check_for_metadata_msg(received).unwrap().primary_host, "p");
    assert_eq!(
        check_for_metadata_msg(Reception::Message(MessageFromPrimary::Request(1u8))).unwrap_err(),
        "Expected MessageFromPrimary::Metadata, but didn't receive"
    );
    assert_eq!(check_for_metadata_msg::<u8>(Reception::Closed).unwrap_err(), "No message received");
    assert_eq!(
        check_for_metadata_msg::<u8>(Reception::Failed("x".to_string())).unwrap_err(),
        "x"
    );
}

#[test]
fn a_test_may_come_after_a_reset() {
    let mut wait = RequestWait::new();
    let reset = || Reception::Message(MessageFromPrimary::<u8>::Reset);
    assert!(matches!(wait.check_for_request_msg(reset()), RequestWaitStep::Again));
    let request = Reception::Message(MessageFromPrimary::Request(9u8));
    assert!(matches!(wait.check_for_request_msg(request), RequestWaitStep::Received(9)));
    let mut wait = RequestWait::new();
    wait.check_for_request_msg(reset());
    match wait.check_for_request_msg(reset()) {
        RequestWaitStep::Failed(e) => assert_eq!(e, "No message received"),
        other => panic!("unexpected: {:?}", other),
    }
}

#[test]
fn a_conversation_and_its_end() {
    let mut session = Session::new();
    let rates = RateMessage { qps: 3, connections: 2 };
    match session.on_reception(Reception::Message(MessageFromPrimary::<u8>::Rates(rates))) {
        SessionStep::Run(r) => assert_eq!((r.qps, r.connections), (3, 2)),
        other => panic!("unexpected: {:?}", other),
    }
    assert_eq!(session.disposal(), PoolDisposal::Forget);
    let step = session.on_reception(Reception::Message(MessageFromPrimary::<u8>::Finished));
    assert!(matches!(step, SessionStep::Leave));
    assert_eq!(session.disposal(), PoolDisposal::Discard);

    let mut broken = Session::new();
    broken.on_reception(Reception::<u8>::Failed("x".to_string()));
    assert_eq!(broken.disposal(), PoolDisposal::Keep);
}

#[test]
fn the_rhythm_of_the_planning_node() {
    let mut primary = PrimaryLoop::new();
    let ticks: Vec<(bool, bool)> = (0..12)
        .map(|_| {
            let t = primary.tick();
            (t.check_stop, t.refresh)
        })
        .collect();
    let checks: Vec<usize> =
        ticks.iter().enumerate().filter(|(_, t)| t.0).map(|(i, _)| i).collect();
    assert_eq!(checks, vec![0, 5, 10, 11]);
    assert!(ticks[10].1);
    assert_eq!(ticks.iter().filter(|t| t.1).count(), 1);
    let mut alone = StandaloneLoop::new();
    let checks = (0..10).filter(|_| alone.tick()).count();
    assert_eq!(checks, 2);
}

#[test]
fn rates_for_nodes() {
    let messages = rate_messages(10, 4, 3);
    let all: Vec<(u32, u32)> = messages.iter().map(|m| (m.qps, m.connections)).collect();
    assert_eq!(all, vec![(4, 2), (3, 1), (3, 1)]);
    assert!(delivery_result(vec![]).is_ok());
    assert_eq!(delivery_result(vec!["n".to_string()]).unwrap_err(), vec!["n".to_string()]);
    let names = |list: &[&str]| list.iter().map(|n| n.to_string()).collect::<Vec<_>>();
    assert_eq!(unknown_nodes(&names(&["b"]), &names(&["a", "b", "c"])), vec![0, 2]);
}

#[test]
fn a_test_on_one_node() {
    let mut jobs = JobTable::new();
    let run = Execution::start("j".to_string(), Ok(()), &mut jobs).unwrap();
    assert_eq!(jobs.get("j"), Some(JobStatus::InProgress));
    assert_eq!(run.on_second(Fetched::Requests, &mut jobs), SecondStep::Send);
    assert_eq!(run.on_second(Fetched::OtherError, &mut jobs), SecondStep::Skip);
    assert_eq!(run.on_second(Fetched::DatabaseError, &mut jobs), SecondStep::End);
    assert_eq!(jobs.get("j"), Some(JobStatus::Error(ErrorCode::SqliteOpenFailed)));
    run.finish(&mut jobs);
    assert_eq!(jobs.get("j"), Some(JobStatus::Error(ErrorCode::SqliteOpenFailed)));

    let run = Execution::start("k".to_string(), Ok(()), &mut jobs).unwrap();
    run.finish(&mut jobs);
    assert_eq!(jobs.get("k"), Some(JobStatus::Completed));
    let run = Execution::start("l".to_string(), Ok(()), &mut jobs).unwrap();
    jobs.stop("l");
    assert_eq!(run.on_second(Fetched::Requests, &mut jobs), SecondStep::End);

    assert!(Execution::start("m".to_string(), Err("no file".to_string()), &mut jobs).is_none());
    assert_eq!(jobs.get("m"), None);
}

#[test]
fn a_run_goes_from_one_status_to_the_next() {
    let failed = || Err("no file".to_string());
    assert_eq!(run_step(None, Ok(())), (JobStatus::Starting, RunAction::Prepare));
    let starting = Some(JobStatus::Starting);
    assert_eq!(run_step(starting, Ok(())), (JobStatus::InProgress, RunAction::Send));
    assert_eq!(run_step(starting, failed()), (JobStatus::Failed, RunAction::Leave));
    let running = Some(JobStatus::InProgress);
    assert_eq!(run_step(running, Ok(())), (JobStatus::Completed, RunAction::Leave));
    let stopped = Some(JobStatus::Stopped);
    assert_eq!(run_step(stopped, failed()), (JobStatus::Stopped, RunAction::Leave));
}

fn shared_request(id: &str) -> HttpReq {
    HttpReq {
        id: id.to_string(),
        method: "GET".to_string(),
        url: "/".to_string(),
        body: None,
        headers: TextMap::new(),
    }
}

#[test]
fn bundles_of_seconds() {
    let mut jobs = JobTable::new();
    assert!(ClusterExecution::start("s".to_string(), 1, false, &mut jobs).is_none());
    assert_eq!(jobs.get("s"), Some(JobStatus::Error(ErrorCode::SecondaryClusterNode)));

    let mut run = ClusterExecution::start("j".to_string(), 1, true, &mut jobs).unwrap();
    assert_eq!(jobs.get("j"), Some(JobStatus::InProgress));
    assert!(run.begin(&jobs));
    assert!(run.on_second(NextSecond::OtherError, &mut jobs));
    for i in 0..10 {
        let requests = vec![shared_request("a"), shared_request(if i == 0 { "b" } else { "a" })];
        assert_eq!(run.on_second(NextSecond::Requests((i, requests, 4)), &mut jobs), i < 9);
    }
    match run.dispatch(Some(3), &mut jobs) {
        Dispatch::Send { shares, requests, last } => {
            assert!(!last);
            assert_eq!(shares.len(), 3);
            // the first node gets the last share
            assert_eq!(shares[0].0, vec![0, 0, 0, 1, 1, 1, 2, 2, 2, 3]);
            assert_eq!(shares[1].0, vec![0, 0, 1, 1, 1, 2, 2, 2, 3, 3]);
            assert_eq!(shares[2].0, vec![0, 1, 1, 1, 2, 2, 2, 3, 3, 3]);
            assert_eq!(shares[0].1, vec![1; 10]);
            assert_eq!(shares[2].1, vec![2; 10]);
            for p in 0..10 {
                assert_eq!(shares.iter().map(|s| s.0[p]).sum::<u32>(), p as u32);
            }
            let ids: Vec<&str> = requests.iter().map(|r| r.id.as_str()).collect();
            assert_eq!(ids, vec!["a", "b"]);
        }
        other => panic!("{:?}", other),
    }
    assert!(matches!(run.dispatch(None, &mut jobs), Dispatch::Skip { last: false }));

    assert!(run.begin(&jobs));
    assert!(run.on_second(NextSecond::Requests((1, vec![], 1)), &mut jobs));
    assert!(!run.on_second(NextSecond::Over, &mut jobs));
    assert!(matches!(run.dispatch(Some(1), &mut jobs), Dispatch::Send { last: true, .. }));
    assert!(run.begin(&jobs));
    assert!(!run.on_second(NextSecond::Over, &mut jobs));
    assert!(matches!(run.dispatch(Some(1), &mut jobs), Dispatch::End));
    run.finish(&mut jobs);
    assert_eq!(jobs.get("j"), Some(JobStatus::Completed));
}

#[test]
fn bundles_without_nodes_or_database() {
    let mut jobs = JobTable::new();
    let mut run = ClusterExecution::start("j".to_string(), 1, true, &mut jobs).unwrap();
    assert!(run.begin(&jobs));
    assert!(run.on_second(NextSecond::Requests((1, vec![], 1)), &mut jobs));
    assert!(matches!(run.dispatch(Some(0), &mut jobs), Dispatch::Stopped));
    assert_eq!(jobs.get("j"), Some(JobStatus::Stopped));
    assert!(!run.begin(&jobs));
    run.finish(&mut jobs);
    assert_eq!(jobs.get("j"), Some(JobStatus::Stopped));

    let mut run = ClusterExecution::start("k".to_string(), 2, true, &mut jobs).unwrap();
    assert!(run.begin(&jobs));
    assert!(!run.on_second(NextSecond::DatabaseError, &mut jobs));
    assert_eq!(jobs.get("k"), Some(JobStatus::Error(ErrorCode::SqliteOpenFailed)));
    assert!(matches!(run.dispatch(Some(2), &mut jobs), Dispatch::End));
}

#[test]
fn tests_for_nodes() {
    let target = Target { host: "example.com".to_string(), port: 8080, protocol: Scheme::HTTP };
    let file = RequestSpecEnum::RequestFile(RequestFile::new("f".to_string()));
    let source = node_source(true, Some(file.clone()), vec![shared_request("a")]);
    assert!(matches!(source, RequestSpecEnum::RequestFile(_)));
    assert!(matches!(
        node_source(false, Some(file), vec![shared_request("a")]),
        RequestSpecEnum::RequestList(list) if list.data.len() == 1
    ));
    assert!(matches!(node_source(true, None, vec![]), RequestSpecEnum::RequestList(_)));
    let plan = to_test_request(vec![1, 2], source, vec![3, 4], &target, "job".to_string());
    assert_eq!(plan.name.as_deref(), Some("job"));
    assert_eq!(plan.duration, 2);
    assert_eq!(plan.target.host, "example.com");
    assert_eq!(plan.target.port, 8080);
    assert!(matches!(plan.qps, RateSpecEnum::ArraySpec(a) if a.count_per_sec == vec![1, 2]));
    assert!(matches!(
        plan.concurrent_connection,
        ConcurrentConnectionRateSpec::ArraySpec(a) if a.count_per_sec == vec![3, 4]
    ));
}
