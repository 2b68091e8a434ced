//! Dividing work over the nodes of a cluster.

use overload::cycle::fill_req_if_less_than_connections;
use overload::distribution::{
    calculate_rates_per_secondary, calculate_req_per_secondary, split_ranges,
};
use overload::http_req::HttpReq;
use overload::request_specs::{RequestList, RequestSpecEnum, SplitRequestFile};
use overload::split_request::process_request;
use overload::text_map::TextMap;
use std::collections::VecDeque;

fn http_req(id: &str, url: &str) -> HttpReq {
    HttpReq {
        id: id.to_string(),
        method: "GET".to_string(),
        url: url.to_string(),
        body: None,
        headers: TextMap::new(),
    }
}

#[test]
fn test_split_ranges() {
    let verify = |splits: VecDeque<(usize, usize)>, end: usize, size: usize| {
        println!("{:?}", splits);
        assert_eq!(splits.len(), size);
        let (_, e) = splits.back().unwrap();
        assert_eq!(*e, end);
        let (s, last_e) = splits.get(0).unwrap();
        assert!(s <= last_e);
        let mut last_e = *last_e;
        for i in 1..splits.len() {
            let (s, e) = splits.get(i).unwrap();
            assert!(s <= e);
            if end > size * 2 {
                assert_eq!(s - last_e, 1);
            }
            last_e = *e;
        }
    };
    verify(split_ranges(10, 4), 10, 4);
    verify(split_ranges(10, 3), 10, 3);
    verify(split_ranges(11, 4), 11, 4);
    verify(split_ranges(11, 3), 11, 3);
    verify(split_ranges(1, 4), 1, 4);
    verify(split_ranges(4, 4), 4, 4);
    verify(split_ranges(7, 4), 7, 4);
    verify(split_ranges(8, 4), 8, 4);
    verify(split_ranges(9, 4), 9, 4);
}

#[test]
fn test_calculate_req_per_secondary() {
    let mut requests = vec![];
    for _ in 0..3 {
        let r = rand::random::<u8>();
        let uri = format!("http://httpbin.org/anything/{}", r);
        requests.push(http_req(&uri, &uri));
    }
    let qps_req = vec![
        (0, requests.clone(), 2),
        (2, requests.clone(), 0),
        (5, requests.clone(), 6),
        (6, requests.clone(), 7),
        (7, requests.clone(), 8),
        (8, requests.clone(), 5),
    ];

    let result = calculate_req_per_secondary(&qps_req, 6, 4);
    assert_eq!(result.0.get(0), Some(&vec![0, 1, 2, 2, 2, 2]));
    assert_eq!(result.0.get(1), Some(&vec![0, 1, 1, 2, 2, 2]));
    assert_eq!(result.0.get(2), Some(&vec![0, 0, 1, 1, 2, 2]));
    assert_eq!(result.0.get(3), Some(&vec![0, 0, 1, 1, 1, 2]));
    assert_eq!(result.0.get(4), None);

    assert_eq!(result.2.get(0), Some(&vec![1, 0, 2, 2, 2, 2]));
    assert_eq!(result.2.get(1), Some(&vec![1, 0, 2, 2, 2, 1]));
    assert_eq!(result.2.get(2), Some(&vec![0, 0, 1, 2, 2, 1]));
    assert_eq!(result.2.get(3), Some(&vec![0, 0, 1, 1, 2, 1]));
    assert_eq!(result.2.get(4), None);
}

#[test]
fn test_fill_req_if_less_than_connections() {
    let req = http_req("", "http://example.com/anything/abcdef/1000001");
    let mut req = vec![req];
    fill_req_if_less_than_connections(7, 1, &mut req);
    assert_eq!(req.len(), 7);
}

#[test]
fn requests_are_repeated_in_order() {
    let mut req = vec![http_req("a", "/a"), http_req("b", "/b")];
    fill_req_if_less_than_connections(5, 2, &mut req);
    let ids: Vec<&str> = req.iter().map(|r| r.id.as_str()).collect();
    assert_eq!(ids, vec!["a", "b", "a", "b", "a"]);
}

#[test]
fn ranges_of_a_split() {
    let splits = split_ranges(10, 4);
    assert_eq!(splits, VecDeque::from(vec![(1, 3), (4, 6), (7, 8), (9, 10)]));
}

#[test]
fn rates_of_one_second() {
    let (qps, connections) = calculate_rates_per_secondary(10, 7, 3);
    assert_eq!(qps, vec![4, 3, 3]);
    assert_eq!(connections, vec![3, 2, 2]);
    assert_eq!(qps.iter().sum::<u32>(), 10);
}

#[test]
fn requests_of_a_bundle_are_listed_once() {
    let seconds = vec![
        (1, vec![http_req("a", "/a"), http_req("b", "/b")], 1),
        (1, vec![http_req("b", "/b"), http_req("c", "/c")], 1),
    ];
    let (_, requests, _) = calculate_req_per_secondary(&seconds, 2, 1);
    let ids: Vec<&str> = requests.iter().map(|r| r.id.as_str()).collect();
    assert_eq!(ids, vec!["a", "b", "c"]);
}

#[test]
fn every_node_reads_its_part_of_a_file() {
    let file = SplitRequestFile {
        file_name: "/tmp/a.sqlite".to_string(),
        open: true,
        size: 0,
        range_start_inclusive: 0,
        range_end_inclusive: 0,
        next_read_cursor: 0,
    };
    let nodes = vec!["n1".to_string(), "n2".to_string(), "n3".to_string()];
    let plan = process_request(&RequestSpecEnum::SplitRequestFile(file.clone()), Some(8), &nodes);
    let ranges: Vec<(usize, usize, usize)> = plan
        .sends
        .iter()
        .map(|s| (s.range_start_inclusive, s.range_end_inclusive, s.next_read_cursor))
        .collect();
    assert_eq!(ranges, vec![(1, 3, 1), (4, 6, 4), (7, 8, 7)]);
    assert!(plan.sends.iter().all(|s| s.size == 8 && !s.open && s.file_name == "/tmp/a.sqlite"));
    assert_eq!(plan.reported, nodes);

    let plan = process_request(&RequestSpecEnum::SplitRequestFile(file), None, &nodes);
    assert!(plan.sends.is_empty() && plan.reported.is_empty());
    let list = RequestSpecEnum::RequestList(RequestList { data: vec![] });
    let plan = process_request(&list, Some(8), &nodes);
    assert!(plan.sends.is_empty() && plan.reported.is_empty());
}
