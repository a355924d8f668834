use local_llm::json::{parse_bytes, parse_text, Json};
use local_llm::monitor::{
    extract_running, find_number, fraction_texts, http_request, log_sample_error, normalize_addr,
    parse_nvidia, parse_rocm, query_running, response_body, sample_gpus, sample_nvidia, sample_ram,
    sample_rocm, wants_rocm, FloatReading, ProgramOutput,
};
use local_llm::runtime::{GpuStatus, MemStatus};

fn output(success: bool, stdout: &[u8]) -> ProgramOutput {
    ProgramOutput { success, stdout: stdout.to_vec() }
}

fn row(g: &GpuStatus) -> (u32, &str, &str, u64, u64, Option<u32>) {
    (
        g.index,
        g.name.as_str(),
        g.vendor.as_str(),
        g.memory_total_mb,
        g.memory_used_mb,
        g.utilization_pct,
    )
}

#[test]
fn nvidia_rows_are_read() {
    let gpus = parse_nvidia("0, RTX 4090, 24564, 1024, 37\nshort, row\n1, A, [N/A], x, [N/A]\n");
    assert_eq!(gpus.len(), 2);
    assert_eq!(row(&gpus[0]), (0, "RTX 4090", "nvidia", 24564, 1024, Some(37)));
    assert_eq!(row(&gpus[1]), (1, "A", "nvidia", 0, 0, None));
}

#[test]
fn nvidia_needs_success() {
    let text = b"0, A, 2, 1, 3\n";
    assert!(sample_nvidia(None).is_none());
    assert!(sample_nvidia(Some(&output(false, text))).is_none());
    assert_eq!(sample_nvidia(Some(&output(true, text))).unwrap().len(), 1);
    assert_eq!(sample_nvidia(Some(&output(true, b""))).unwrap().len(), 0);
}

#[test]
fn invalid_bytes_are_replaced() {
    let gpus = sample_nvidia(Some(&output(true, b"0, A\xffB, 2, 1, 3\n"))).unwrap();
    assert_eq!(gpus[0].name, "A\u{fffd}B");
}

const ROCM: &str = r#"{
  "card1": {"Card model": "MI", "VRAM Total Memory (B)": 2097152, "VRAM Total Used Memory (B)": "1048576.0", "GPU use (%)": " 12 "},
  "card0": {"Card series": "RX", "VRAM Total Memory": "3145728", "GPU use (%)": "n/a"},
  "cardX": {},
  "system": {"Driver version": "6"}
}"#;

fn readings(texts: &[String]) -> Vec<FloatReading> {
    texts
        .iter()
        .map(|t| FloatReading { text: t.clone(), value: t.parse::<f64>().ok().map(|f| f as u64) })
        .collect()
}

#[test]
fn rocm_cards_are_read() {
    let out = output(true, ROCM.as_bytes());
    let asked = fraction_texts(Some(&out));
    assert!(asked.contains(&"1048576.0".to_string()));
    assert!(asked.contains(&"n/a".to_string()));
    let gpus = sample_rocm(Some(&out), &readings(&asked)).unwrap();
    let rows: Vec<_> = gpus.iter().map(row).collect();
    assert_eq!(
        rows,
        vec![
            (0, "RX", "amd", 3, 0, None),
            (1, "MI", "amd", 2, 1, Some(12)),
            (0, "AMD GPU", "amd", 0, 0, None),
        ]
    );
    assert!(sample_rocm(Some(&output(false, ROCM.as_bytes())), &Vec::new()).is_none());
    assert!(sample_rocm(Some(&output(true, b"{")), &Vec::new()).is_none());
    assert!(sample_rocm(Some(&output(true, b"[]")), &Vec::new()).is_none());
    assert!(sample_rocm(None, &Vec::new()).is_none());
    assert!(fraction_texts(None).is_empty());
    let parsed = parse_bytes(ROCM.as_bytes()).unwrap();
    assert_eq!(parse_rocm(&parsed, &Vec::new()).unwrap().len(), 3);
}

#[test]
fn card_numbers_are_stripped_of_every_prefix() {
    let out = output(true, br#"{"cardcard7": {}}"#);
    let gpus = sample_rocm(Some(&out), &Vec::new()).unwrap();
    assert_eq!(gpus[0].index, 7);
}

#[test]
fn numbers_are_found_under_the_first_key_that_holds_one() {
    let card = parse_text(r#"{"a": "x", "b": "2.9", "c": 5, "d": -1, "e": 1.5}"#).unwrap();
    let known = vec![FloatReading { text: "2.9".to_string(), value: Some(2) }];
    assert_eq!(find_number(&card, &vec!["a", "b", "c"], &known), Some(2));
    assert_eq!(find_number(&card, &vec!["a", "c"], &known), Some(5));
    assert_eq!(find_number(&card, &vec!["d", "e", "z"], &known), None);
}

#[test]
fn first_vendor_with_gpus_wins() {
    let nv = parse_nvidia("0, N, 2, 1, 3\n");
    let amd = parse_rocm(&parse_text(r#"{"card0": {}}"#).unwrap(), &Vec::new());
    assert!(!wants_rocm(&Some(nv.clone())));
    assert!(wants_rocm(&Some(Vec::new())));
    assert!(wants_rocm(&None));
    assert_eq!(sample_gpus(Some(nv), None)[0].vendor, "nvidia");
    assert_eq!(sample_gpus(Some(Vec::new()), amd)[0].vendor, "amd");
    assert!(sample_gpus(None, Some(Vec::new())).is_empty());
    assert!(sample_gpus(None, None).is_empty());
}

#[test]
fn memory_is_in_megabytes() {
    let text = "MemTotal:       16384 kB\nMemFree: 1 kB\nMemAvailable:    4096 kB\n";
    assert_eq!(sample_ram(Some(text)), Some(MemStatus { total_mb: 16, used_mb: 12 }));
    assert_eq!(
        sample_ram(Some("MemTotal: 2048 kB\nMemAvailable: 4096 kB\n")),
        Some(MemStatus { total_mb: 2, used_mb: 0 })
    );
    assert_eq!(sample_ram(Some("MemAvailable: 4096 kB\n")), None);
    assert_eq!(sample_ram(Some("MemTotal: x kB\n")), None);
    assert_eq!(sample_ram(None), None);
}

#[test]
fn addresses_become_local() {
    assert_eq!(normalize_addr(":8080"), "127.0.0.1:8080");
    assert_eq!(normalize_addr("0.0.0.0:8080"), "127.0.0.1:8080");
    assert_eq!(normalize_addr("10.0.0.1:8080"), "10.0.0.1:8080");
    assert_eq!(normalize_addr(&normalize_addr(":1")), normalize_addr(":1"));
}

#[test]
fn requests_are_http() {
    assert_eq!(
        http_request("127.0.0.1:1", "/running"),
        "GET /running HTTP/1.0\r\nHost: 127.0.0.1:1\r\nAccept: application/json\r\nConnection: close\r\n\r\n"
    );
}

#[test]
fn bodies_follow_the_first_blank_line() {
    assert_eq!(response_body("HTTP/1.0 200 OK\r\nA: b\r\n\r\n{}"), Some("{}".to_string()));
    assert_eq!(response_body("a\r\n\r\nb\r\n\r\nc"), Some("b\r\n\r\nc".to_string()));
    assert_eq!(
        response_body("HTTP/1.0 200 OK\r\n\r\n[\r\n\r\n]"),
        Some("[\r\n\r\n]".to_string())
    );
    assert_eq!(response_body("a\r\n\r\n"), Some(String::new()));
    assert_eq!(response_body("a\r\nb"), None);
}

#[test]
fn running_models_are_listed() {
    let names = |text: &str| extract_running(&parse_text(text).unwrap());
    assert_eq!(
        names(r#"{"running": [{"model": "a"}, {"name": "b"}, {"model": 1, "name": "c"}, {}]}"#),
        vec!["a".to_string(), "b".to_string()]
    );
    assert_eq!(names(r#"[{"name": "x"}]"#), vec!["x".to_string()]);
    assert!(names(r#"{"running": 3}"#).is_empty());
    assert!(names("null").is_empty());

    let response = b"HTTP/1.0 200 OK\r\n\r\n  {\"running\": [{\"model\": \"a\"}]} \r\n".to_vec();
    assert_eq!(query_running(Some(&response)), vec!["a".to_string()]);
    let spaced = b"HTTP/1.0 200 OK\r\n\r\n[\r\n\r\n{\"name\": \"b\"}]".to_vec();
    assert_eq!(query_running(Some(&spaced)), vec!["b".to_string()]);
    assert!(query_running(Some(&b"HTTP/1.0 200 OK\r\n\r\nnope".to_vec())).is_empty());
    assert!(query_running(Some(&b"nope".to_vec())).is_empty());
    assert!(query_running(None).is_empty());
}

#[test]
fn documents_are_read_to_the_leaves() {
    let v = parse_text(r#"{"b": [true, null, 3, -1, 1.5], "a": "x\ny"}"#).unwrap();
    let Some(Json::Array(items)) = v.get("b") else {
        panic!("no list");
    };
    assert!(matches!(items[0], Json::Bool(true)));
    assert!(matches!(items[1], Json::Null));
    assert!(matches!(items[2], Json::Number(Some(3))));
    assert!(matches!(items[3], Json::Number(None)));
    assert!(matches!(items[4], Json::Number(None)));
    assert_eq!(v.get("a").unwrap().as_str().unwrap(), "x\ny");
    assert!(v.get("c").is_none());
    assert!(items[0].get("a").is_none());
    assert!(parse_text("{").is_none());
    assert!(parse_bytes(b"\xff").is_none());
    assert!(parse_bytes(b"1").is_some());
}

#[test]
fn sampling_errors_are_logged() {
    assert_eq!(log_sample_error("gpu", "gone"), "[resourced] sample gpu: gone");
}
