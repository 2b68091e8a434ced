//! Rate schedules, and the plan of a test.

use overload::generator::{
    default_concurrent_connection, ConcurrentConnectionRateSpec, RateSpecEnum, RequestGenerator,
};
use overload::http_api::{Scheme, Target};
use overload::http_req::HttpReq;
use overload::rate_spec::{
    ArraySpec, Bounded, ConstantRate, Elastic, Linear, RateScheme, Step, StepShadowType, Steps,
    StepsShadowType,
};
use overload::request_specs::RequestList;
use overload::text_map::TextMap;
use serde_json::Value;

/// Reads steps as they are written in a test.
fn steps_from_str(text: &str) -> Result<Steps, String> {
    let value: Value = serde_json::from_str(text).unwrap();
    let mut steps = vec![];
    for step in value.get("steps").unwrap().as_array().unwrap() {
        let number = |name: &str| step.get(name).unwrap().as_u64().unwrap() as u32;
        let shadow =
            StepShadowType { start: number("start"), end: number("end"), rate: number("rate") };
        steps.push(Step::try_from(shadow)?);
    }
    let shadow = StepsShadowType { steps };
    assert!(shadow.is_checkable());
    Steps::try_from(shadow)
}

#[test]
fn serialize_steps_qps() {
    let json_str = r#"
        {
            "steps": [
              {
                "start": 0,
                "end": 5,
                "rate": 1
              },
              {
                "start": 9,
                "end": 10,
                "rate": 3
              },
              {
                "start": 6,
                "end": 8,
                "rate": 2
              }
            ]
          }
        "#;
    let mut steps: Steps = steps_from_str(json_str).unwrap();
    println!("{:?}", steps);
    assert_eq!(steps.next(0, None), 1);
    assert_eq!(steps.next(3, None), 1);
    assert_eq!(steps.next(5, None), 1);
    assert_eq!(steps.next(6, None), 2);
    assert_eq!(steps.next(7, None), 2);
    assert_eq!(steps.next(8, None), 2);
    assert_eq!(steps.next(9, None), 3);
    assert_eq!(steps.next(10, None), 3);
    assert_eq!(steps.next(11, None), 3);
    assert_eq!(steps.next(12, None), 3);
}

#[test]
fn serialize_steps_qps_not_start_from_zero() {
    let json_str = r#"
        {
            "steps": [
              {
                "start": 1,
                "end": 5,
                "rate": 1
              },
              {
                "start": 9,
                "end": 10,
                "rate": 3
              },
              {
                "start": 6,
                "end": 8,
                "rate": 2
              }
            ]
          }
        "#;
    let steps = steps_from_str(json_str);
    assert!(steps.is_err());
    assert_eq!(
        steps.err().unwrap().to_string(),
        "Steps should start from 0, but starts from 1 instead."
    );
}

#[test]
fn serialize_steps_qps_start_ge_end() {
    let json_str = r#"
        {
            "steps": [
              {
                "start": 0,
                "end": 5,
                "rate": 1
              },
              {
                "start": 9,
                "end": 9,
                "rate": 3
              },
              {
                "start": 6,
                "end": 8,
                "rate": 2
              }
            ]
          }
        "#;
    let steps = steps_from_str(json_str);
    assert!(steps.is_err());
    assert!(steps
        .err()
        .unwrap()
        .to_string()
        .starts_with("start(9) can not be greater than or equal to end(9)"));
}

#[test]
fn steps_with_a_gap_are_refused() {
    let text = r#"{"steps":[{"start":0,"end":5,"rate":1},{"start":8,"end":9,"rate":2}]}"#;
    assert_eq!(
        steps_from_str(text).unwrap_err(),
        "Steps are not continuous. An step ends at 5 but next step should start at 6, but starts at 8"
    );
    assert_eq!(steps_from_str(r#"{"steps":[]}"#).unwrap_err(), "No steps found.");
    assert_eq!(
        steps_from_str(r#"{"steps":[{"start":0,"end":5,"rate":1}]}"#).unwrap_err(),
        "Need more than one step. Use ConstantQPS for single step."
    );
}

fn target() -> Target {
    Target { host: "example.com".into(), port: 8080, protocol: Scheme::HTTP }
}

fn req_list_with_n_req(n: usize) -> RequestList {
    let data = (0..n)
        .map(|_| {
            let r = rand::random::<u8>();
            HttpReq {
                id: uuid::Uuid::new_v4().to_string(),
                body: None,
                url: format!("https://httpbin.org/anything/{}", r),
                method: "GET".to_string(),
                headers: TextMap::new(),
            }
        })
        .collect::<Vec<_>>();
    RequestList { data }
}

fn constant(count_per_sec: u32) -> RateSpecEnum {
    RateSpecEnum::ConstantRate(ConstantRate { count_per_sec })
}

/// A plan that gives the rates of each second.
fn plan(
    duration: u32,
    requests: RequestList,
    qps: u32,
    connections: Option<ConcurrentConnectionRateSpec>,
) -> RequestGenerator {
    RequestGenerator::new(duration, requests.shared(), constant(qps), target(), connections, None)
}

#[test]
fn request_providers_test_request_generator_empty_req() {
    let mut generator = plan(3, req_list_with_n_req(0), 3, None);
    let ret = generator.poll_next(0, 0);
    if let Some(arg) = ret {
        assert_eq!(arg.0, 3);
        assert_eq!(arg.1, 0);
    } else {
        panic!("fails");
    }
    //should generate 3 value
    assert!(generator.poll_next(0, 0).is_some());
    assert!(generator.poll_next(0, 0).is_some());
    assert!(generator.poll_next(0, 0).is_none());
}

#[test]
fn request_providers_test_request_generator_req_lt_qps() {
    let mut generator = plan(3, req_list_with_n_req(1), 3, None);
    let arg = generator.poll_next(0, 0).unwrap();
    assert_eq!(arg.0, 3);
    assert_eq!(arg.1, 0);
}

#[test]
fn request_providers_test_request_generator_req_eq_qps() {
    let mut generator = plan(3, req_list_with_n_req(4), 3, None);
    let arg = generator.poll_next(0, 0).unwrap();
    assert_eq!(arg.0, 3);
    assert_eq!(arg.1, 0);
}

#[test]
fn request_providers_test_request_generator_req_gt_max() {
    let mut generator = plan(3, req_list_with_n_req(12), 15, None);
    let arg = generator.poll_next(0, 0).unwrap();
    assert_eq!(arg.0, 15);
    assert_eq!(arg.1, 0);
}

#[test]
fn request_providers_test_request_generator_concurrent_con_default() {
    let mut generator = plan(3, req_list_with_n_req(12), 3, None);
    for _ in 0..3 {
        let arg = generator.poll_next(0, 0).unwrap();
        assert_eq!(arg.0, 3);
        assert_eq!(arg.1, 0);
    }
    assert!(generator.poll_next(0, 0).is_none())
}

/// What a linear schedule with the given slope has grown by.
fn increase(a: f32, nth: u32) -> u32 {
    (a * nth as f32).ceil() as u32
}

#[test]
fn a_linear_rate_is_capped_however_steep_it_is() {
    let linear = Linear { b: 1, max: 10 };
    assert_eq!(linear.rate(increase(1e10, 1)), 10);
    assert_eq!(linear.rate(u32::MAX), 10);
    assert_eq!(linear.rate(9), 10);
    assert_eq!(linear.rate(8), 9);
    assert_eq!(Linear { b: u32::MAX, max: u32::MAX }.rate(u32::MAX), u32::MAX);
}

#[test]
fn request_providers_test_request_generator_concurrent_con_linear() {
    let linear = ConcurrentConnectionRateSpec::Linear(Linear { b: 1, max: 10 });
    let mut generator = plan(30, req_list_with_n_req(12), 3, Some(linear));
    let next = |generator: &mut RequestGenerator| {
        let grown = generator.next_second().map_or(0, |n| increase(0.5, n));
        generator.poll_next(0, grown)
    };
    let arg = next(&mut generator).unwrap();
    //assert first element
    assert_eq!(arg.0, 3);
    assert_eq!(arg.1, 1);

    let _arg = next(&mut generator).unwrap();

    let arg = next(&mut generator).unwrap();
    // assert third element
    assert_eq!(arg.0, 3);
    assert_eq!(arg.1, 2);

    for _ in 0..26 {
        assert!(next(&mut generator).is_some());
    }
    let arg = next(&mut generator).unwrap();
    assert_eq!(arg.0, 3);
    assert_eq!(arg.1, 10);
    assert!(next(&mut generator).is_none());
}

/// One second of a plan that fetches requests: the rate, the requests, the connections.
fn batch(
    generator: &mut RequestGenerator,
    requests: &RequestList,
    slope: f32,
) -> Option<(u32, Vec<HttpReq>, u32)> {
    let n = generator.next_second();
    let size = generator.begin_batch(requests.size_hint(), 0)?;
    let list = if size == 0 { vec![] } else { requests.get_n(size).unwrap() };
    let (qps, connections) = generator.complete_batch(increase(slope, n.unwrap() + 1));
    Some((qps, list, connections))
}

fn bounded() -> Option<ConcurrentConnectionRateSpec> {
    Some(ConcurrentConnectionRateSpec::Bounded(Bounded::default()))
}

#[test]
fn generator_test_request_generator_empty_req() {
    let requests = req_list_with_n_req(0);
    let mut generator = plan(3, requests.clone(), 3, bounded());
    let ret = batch(&mut generator, &requests, 0.0);
    if let Some(arg) = ret {
        assert_eq!(arg.0, 3);
        assert_eq!(arg.1.len(), 0);
    } else {
        panic!("fails");
    }
    //should generate 3 value
    assert!(batch(&mut generator, &requests, 0.0).is_some());
    assert!(batch(&mut generator, &requests, 0.0).is_some());
    assert!(batch(&mut generator, &requests, 0.0).is_none());
}

#[test]
fn generator_test_request_generator_req_lt_qps() {
    let requests = req_list_with_n_req(1);
    let mut generator = plan(3, requests.clone(), 3, bounded());
    let arg = batch(&mut generator, &requests, 0.0).unwrap();
    assert_eq!(arg.0, 3);
    assert_eq!(arg.1.len(), 1);
    assert_eq!(arg.1[0].method, "GET");
}

#[test]
fn generator_test_request_generator_req_eq_qps() {
    let requests = req_list_with_n_req(4);
    let mut generator = plan(3, requests.clone(), 3, bounded());
    let arg = batch(&mut generator, &requests, 0.0).unwrap();
    assert_eq!(arg.0, 3);
    assert_eq!(arg.1.len(), 3);
}

#[test]
fn generator_test_request_generator_req_gt_max() {
    let requests = req_list_with_n_req(12);
    let mut generator = plan(3, requests.clone(), 15, bounded());
    let arg = batch(&mut generator, &requests, 0.0).unwrap();
    assert_eq!(arg.0, 15);
    assert_eq!(arg.1.len(), overload::generator::MAX_REQ_RET_SIZE);
}

#[test]
fn generator_test_request_generator_concurrent_con_default() {
    let requests = req_list_with_n_req(12);
    let mut generator = plan(3, requests.clone(), 3, bounded());
    for _ in 0..3 {
        let arg = batch(&mut generator, &requests, 0.0).unwrap();
        assert_eq!(arg.0, 3);
        assert_eq!(arg.1.len(), 3);
        assert_eq!(arg.2, 500);
    }
    assert!(batch(&mut generator, &requests, 0.0).is_none());
}

#[test]
fn generator_test_request_generator_concurrent_con_linear() {
    let linear = ConcurrentConnectionRateSpec::Linear(Linear { b: 1, max: 10 });
    let requests = req_list_with_n_req(12);
    let mut generator = plan(30, requests.clone(), 3, Some(linear));
    let arg = batch(&mut generator, &requests, 0.5).unwrap();
    //assert first element
    assert_eq!(arg.0, 3);
    assert_eq!(arg.1.len(), 3);
    assert_eq!(arg.2, 2);

    let _arg = batch(&mut generator, &requests, 0.5).unwrap();

    let arg = batch(&mut generator, &requests, 0.5).unwrap();
    // assert third element
    assert_eq!(arg.0, 3);
    assert_eq!(arg.1.len(), 3);
    assert_eq!(arg.2, 3);

    for _ in 0..26 {
        assert!(batch(&mut generator, &requests, 0.5).is_some());
    }
    let arg = batch(&mut generator, &requests, 0.5).unwrap();
    assert_eq!(arg.0, 3);
    assert_eq!(arg.1.len(), 3);
    assert_eq!(arg.2, 10);
    assert!(batch(&mut generator, &requests, 0.5).is_none());
}

#[test]
fn a_plan_keeps_its_target() {
    let generator = plan(3, req_list_with_n_req(1), 3, None);
    assert_eq!(generator.target().host_port(), "example.com:8080");
    assert!(generator.response_assertion().is_none());
    assert_eq!(generator.time_scale(), 1);
    assert!(!generator.shared_provider());
    assert_eq!(generator.size_hint(), (0, Some(3)));
}

#[test]
fn rates_of_the_other_schedules() {
    let mut array = ArraySpec::new(vec![5, 7]);
    assert_eq!(array.next(0, None), 5);
    assert_eq!(array.next(1, None), 7);
    assert_eq!(array.next(2, None), 5);
    assert_eq!(ArraySpec::new(vec![]).next(9, None), 0);
    assert_eq!(Bounded::default().next(1, None), 500);
    assert_eq!(Elastic::default().next(1, None), 0);
    assert_eq!(Elastic::default().max, 65535);
    assert_eq!(Linear { b: 1, max: 10 }.rate(4), 5);
    assert_eq!(Linear { b: 1, max: 10 }.rate(40), 10);
    assert!(matches!(
        default_concurrent_connection(),
        ConcurrentConnectionRateSpec::Elastic(Elastic { max: 65535 })
    ));
}

/// The rates of a test, until it is over. `increase` is that of a linear schedule.
fn all_rates(duration: u32, qps: RateSpecEnum, increase: fn(u32) -> u32) -> Vec<u32> {
    let mut generator = RequestGenerator::new(duration, false, qps, target(), None, None);
    let mut list = vec![];
    while let Some(nth) = generator.next_second() {
        list.push(generator.poll_next(increase(nth), 0).unwrap().0);
    }
    assert!(generator.poll_next(0, 0).is_none());
    list
}

#[test]
fn rates_of_a_whole_test() {
    let list = all_rates(120, constant(2), |_| 0);
    assert_eq!(list.len(), 120);
    assert_eq!(list.iter().sum::<u32>(), 240);

    let list = all_rates(7, RateSpecEnum::ArraySpec(ArraySpec::new(vec![4, 1, 9])), |_| 0);
    assert_eq!(list, vec![4, 1, 9, 4, 1, 9, 4]);
    let list = all_rates(3, RateSpecEnum::ArraySpec(ArraySpec::new(vec![])), |_| 0);
    assert_eq!(list, vec![0, 0, 0]);

    let list = all_rates(5, RateSpecEnum::Linear(Linear { b: 1, max: 6 }), |nth| 2 * nth);
    assert_eq!(list, vec![1, 3, 5, 6, 6]);

    assert!(all_rates(0, constant(2), |_| 0).is_empty());
}
