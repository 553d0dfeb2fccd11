use api_ws_demo::compressed_assets::{lookup_by_topic, AssetKind};
use api_ws_demo::cpu::{breaker_trips, cpu_threshold, read_cgroup_cpu_usec, usage_gauge};
use api_ws_demo::mock::{build_mock_response, mock_get, mock_post, MockBody, MockQuery};
use api_ws_demo::response::{ApiResponse, AppError};
use api_ws_demo::stats::{
    disk_usage, read_cgroup_memory, read_memory, read_meminfo, read_process_rss_kb,
};
use api_ws_demo::stomp::broker::{AckMode, Broker};

#[test]
fn mock_defaults() {
    let plan = build_mock_response::<String>(None, None, None, None, None);
    assert_eq!(plan.delay_ms, 0);
    let (status, body) = plan.outcome.unwrap();
    assert_eq!(status, 200);
    assert_eq!(body.code, 0);
    assert_eq!(body.data, None);
    assert_eq!(body.message, "mock response");
}

#[test]
fn mock_delay_is_capped_at_ten_seconds() {
    assert_eq!(build_mock_response::<String>(Some(500), None, None, None, None).delay_ms, 500);
    assert_eq!(build_mock_response::<String>(Some(10_000), None, None, None, None).delay_ms, 10_000);
    assert_eq!(build_mock_response::<String>(Some(99_999), None, None, None, None).delay_ms, 10_000);
}

#[test]
fn mock_echoes_status_code_message_and_data() {
    let q = MockQuery {
        delay_ms: Some(500),
        status: Some(201),
        code: Some(7),
        message: Some("hello".to_string()),
        data: Some("x".to_string()),
    };
    let plan = mock_get(q);
    let (status, body) = plan.outcome.unwrap();
    assert_eq!((status, body.code, body.message.as_str()), (201, 7, "hello"));
    assert_eq!(body.data, Some("x".to_string()));
    let b = MockBody { delay_ms: None, status: None, code: Some(42), message: None, data: Some(vec![1, 2]) };
    let (status, body) = mock_post(b).outcome.unwrap();
    assert_eq!((status, body.code, body.data), (200, 42, Some(vec![1, 2])));
}

#[test]
fn mock_rejects_invalid_status_codes() {
    let plan = build_mock_response::<String>(Some(20), Some(9999), None, None, None);
    assert_eq!(plan.delay_ms, 20);
    let e = plan.outcome.unwrap_err();
    assert_eq!((e.status, e.code, e.message.as_str()), (400, 400, "invalid status code: 9999"));
    assert!(build_mock_response::<String>(None, Some(99), None, None, None).outcome.is_err());
    assert!(build_mock_response::<String>(None, Some(600), None, None, None).outcome.is_err());
    assert!(build_mock_response::<String>(None, Some(100), None, None, None).outcome.is_ok());
    assert!(build_mock_response::<String>(None, Some(599), None, None, None).outcome.is_ok());
}

#[test]
fn response_envelopes() {
    let r = ApiResponse::ok(5);
    assert_eq!((r.code, r.data, r.message.as_str()), (0, 5, "ok"));
    let e = AppError::new(418, 9, "teapot");
    assert_eq!((e.status, e.code, e.message.as_str()), (418, 9, "teapot"));
    assert_eq!(AppError::unauthorized("u").status, 401);
    assert_eq!(AppError::bad_request("b").code, 400);
    assert_eq!(AppError::conflict("c").status, 409);
    let e = AppError::service_unavailable();
    assert_eq!((e.status, e.code, e.message.as_str()), (503, 503, "server under high load, please retry"));
}

#[test]
fn cgroup_v2_memory() {
    let m = read_cgroup_memory(Some("1048576\n"), Some(" 524288 "), None, None).unwrap();
    assert_eq!((m.source, m.total_kb, m.used_kb, m.available_kb), ("cgroup_v2", 1024, 512, 512));
    let m = read_cgroup_memory(Some("1024"), Some("4096"), None, None).unwrap();
    assert_eq!((m.total_kb, m.used_kb, m.available_kb), (1, 4, 0));
}

#[test]
fn unlimited_cgroup_v2_falls_back_to_v1() {
    let m = read_cgroup_memory(Some("max\n"), None, Some("2097152"), Some("1048576")).unwrap();
    assert_eq!((m.source, m.total_kb, m.used_kb, m.available_kb), ("cgroup_v1", 2048, 1024, 1024));
    assert!(read_cgroup_memory(Some("max"), None, Some("9223372036854771712"), Some("1")).is_none());
    assert!(read_cgroup_memory(None, None, None, None).is_none());
}

#[test]
fn unreadable_cgroup_numbers_give_nothing() {
    assert!(read_cgroup_memory(Some("lots"), Some("1"), Some("2048"), Some("1024")).is_none());
    assert!(read_cgroup_memory(Some("2048"), None, Some("2048"), Some("1024")).is_none());
    assert!(read_cgroup_memory(None, None, Some("2048"), None).is_none());
}

const MEMINFO: &str = "MemTotal:       16384 kB\nMemFree:         1000 kB\nMemAvailable:    4096 kB\n";

#[test]
fn meminfo_memory() {
    let m = read_meminfo(Some(MEMINFO)).unwrap();
    assert_eq!((m.source, m.total_kb, m.available_kb, m.used_kb), ("system", 16384, 4096, 12288));
    assert!(read_meminfo(Some("MemTotal: 5 kB\n")).is_none());
    assert!(read_meminfo(None).is_none());
    let m = read_meminfo(Some("MemTotal: 5 kB\r\nMemAvailable: 9 kB\r\nMemTotal: 20 kB")).unwrap();
    assert_eq!((m.total_kb, m.available_kb, m.used_kb), (20, 9, 11));
}

#[test]
fn memory_prefers_the_cgroup_limit() {
    let m = read_memory(Some("2048"), Some("1024"), None, None, Some(MEMINFO)).unwrap();
    assert_eq!(m.source, "cgroup_v2");
    let m = read_memory(Some("max"), None, None, None, Some(MEMINFO)).unwrap();
    assert_eq!(m.source, "system");
}

#[test]
fn process_rss_from_status() {
    let status = "Name:\tdemo\nVmRSS:\t  2345 kB\nVmRSS:\t 1 kB\n";
    assert_eq!(read_process_rss_kb(Some(status)), Some(2345));
    assert_eq!(read_process_rss_kb(Some("VmRSS: lots kB\nVmRSS: 3 kB")), None);
    assert_eq!(read_process_rss_kb(Some("Name: x")), None);
    assert_eq!(read_process_rss_kb(None), None);
}

#[test]
fn disk_usage_in_bytes() {
    let d = disk_usage(1000, 250, 4096);
    assert_eq!((d.total_bytes, d.available_bytes, d.used_bytes), (4_096_000, 1_024_000, 3_072_000));
    let d = disk_usage(1, 2, 10);
    assert_eq!(d.used_bytes, 0);
}

#[test]
fn cgroup_cpu_usage() {
    let stat = "usage_usec 123456\nuser_usec 100\nsystem_usec 23\n";
    assert_eq!(read_cgroup_cpu_usec(Some(stat)), Some(123456));
    assert_eq!(read_cgroup_cpu_usec(Some("user_usec 1\n")), None);
    assert_eq!(read_cgroup_cpu_usec(Some("usage_usec x\nusage_usec 5")), None);
    assert_eq!(read_cgroup_cpu_usec(None), None);
}

#[test]
fn breaker_threshold_and_gauge() {
    assert_eq!(cpu_threshold(None), 90);
    assert_eq!(cpu_threshold(Some("75")), 75);
    assert_eq!(cpu_threshold(Some("+80")), 80);
    assert_eq!(cpu_threshold(Some("300")), 90);
    assert_eq!(cpu_threshold(Some("abc")), 90);
    assert_eq!(usage_gauge(42), 42);
    assert_eq!(usage_gauge(250), 100);
    assert!(breaker_trips(90, 90));
    assert!(!breaker_trips(89, 90));
}

#[test]
fn static_topics_are_labelled() {
    let a = lookup_by_topic("/topic/compressed-zstd").unwrap();
    assert_eq!(a.kind, AssetKind::JsonZstd);
    assert_eq!((a.content_type, a.content_encoding), ("application/json", Some("zstd")));
    let a = lookup_by_topic("/topic/compressed-mp").unwrap();
    assert_eq!((a.content_type, a.content_encoding), ("application/msgpack", None));
    assert!(lookup_by_topic("/topic/other").is_none());
}

#[test]
fn broker_routes_by_destination_in_subscription_order() {
    let mut b = Broker::new();
    b.subscribe("/d", 1, "a", AckMode::Auto);
    b.subscribe("/d", 2, "b", AckMode::ClientIndividual);
    b.subscribe("/e", 3, "c", AckMode::Auto);
    let ds = b.publish("/d", Some("text/plain"), b"hi", &[("x-k", "v")]);
    assert_eq!(ds.len(), 2);
    assert_eq!((ds[0].conn_id, ds[1].conn_id), (1, 2));
    assert_eq!(ds[0].frame.get("subscription"), Some("a"));
    assert_eq!(ds[0].frame.get("content-length"), Some("2"));
    assert_eq!(ds[0].frame.get("content-type"), Some("text/plain"));
    assert_eq!(ds[0].frame.get("x-k"), Some("v"));
    assert_eq!(ds[0].frame.get("ack"), None);
    assert!(ds[1].frame.get("ack").is_some());
    assert_ne!(ds[0].frame.get("message-id"), ds[1].frame.get("message-id"));
    b.unsubscribe(1, "a");
    assert_eq!(b.publish("/d", None, b"", &[]).len(), 1);
    b.disconnect(2);
    assert!(b.publish("/d", None, b"", &[]).is_empty());
    assert_eq!(b.publish("/e", None, b"", &[]).len(), 1);
    assert_eq!(AckMode::parse(Some("client")), AckMode::Client);
    assert_eq!(AckMode::parse(Some("weird")), AckMode::Auto);
    assert_eq!(b.last_message("/d"), None);
    b.record_last_message("/d", b"1");
    b.record_last_message("/d", b"2");
    assert_eq!(b.last_message("/d"), Some(b"2".to_vec()));
}

#[test]
fn removing_one_connection_keeps_the_others_in_order() {
    let mut b = Broker::new();
    b.subscribe("/d", 1, "s1", AckMode::Auto);
    b.subscribe("/d", 2, "s2", AckMode::Auto);
    b.subscribe("/d", 1, "s3", AckMode::Auto);
    b.subscribe("/d", 2, "s4", AckMode::Auto);
    b.unsubscribe(1, "s1");
    let ds = b.publish("/d", None, b"x", &[]);
    let subs: Vec<&str> = ds.iter().map(|d| d.frame.get("subscription").unwrap()).collect();
    assert_eq!(subs, vec!["s2", "s3", "s4"]);
    b.disconnect(1);
    let ds = b.publish("/d", None, b"x", &[]);
    let subs: Vec<&str> = ds.iter().map(|d| d.frame.get("subscription").unwrap()).collect();
    assert_eq!(subs, vec!["s2", "s4"]);
}
