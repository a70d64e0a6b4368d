use sitemap_indexnow::indexnow::generator::{batch_file_name, RequestGenerator};
use sitemap_indexnow::indexnow::model::{frame_request, BatchError, Request};
use sitemap_indexnow::output::FileOp;

fn store(name: &str, text: &str) -> FileOp {
    FileOp::Store { name: name.to_string(), text: text.to_string() }
}

fn accumulator(max: u32) -> RequestGenerator {
    RequestGenerator::new(max, "example.org", "abc123", "https://example.org/abc123.txt")
}

/// The document as `serde_json` writes an object with the same members.
fn reference_document(host: &str, key: &str, key_location: &str, urls: &[&str]) -> String {
    let mut object = serde_json::Map::new();
    object.insert("host".to_string(), serde_json::Value::String(host.to_string()));
    object.insert("key".to_string(), serde_json::Value::String(key.to_string()));
    object.insert("keyLocation".to_string(), serde_json::Value::String(key_location.to_string()));
    object.insert(
        "urlList".to_string(),
        serde_json::Value::Array(
            urls.iter().map(|url| serde_json::Value::String(url.to_string())).collect(),
        ),
    );
    serde_json::to_string(&serde_json::Value::Object(object)).unwrap()
}

#[test]
fn new_accumulator_is_empty() {
    let batches = accumulator(1000);
    assert_eq!(batches.batch_index(), 0);
    assert_eq!(batches.buffered(), 0);
    assert_eq!(batches.max_entries(), 1000);
}

#[test]
fn push_up_to_the_threshold_writes_nothing() {
    let mut batches = accumulator(2);
    assert_eq!(batches.push("http://x/a"), Ok(vec![]));
    assert_eq!(batches.push("http://x/b"), Ok(vec![]));
    assert_eq!(batches.buffered(), 2);
    assert_eq!(batches.batch_index(), 0);
}

#[test]
fn push_over_the_threshold_writes_one_batch() {
    let mut batches = accumulator(2);
    batches.push("http://x/a").unwrap();
    batches.push("http://x/b").unwrap();
    let ops = batches.push("http://x/c").unwrap();
    assert_eq!(
        ops,
        vec![store(
            "indexnow0.json",
            "{\"host\":\"example.org\",\"key\":\"abc123\",\"keyLocation\":\"https://example.org/abc123.txt\",\"urlList\":[\"http://x/a\",\"http://x/b\",\"http://x/c\"]}"
        )]
    );
    assert_eq!(batches.buffered(), 0);
    assert_eq!(batches.batch_index(), 1);
}

#[test]
fn threshold_of_zero_writes_every_url_alone() {
    let mut batches = accumulator(0);
    let first = batches.push("http://x/a").unwrap();
    let second = batches.push("http://x/b").unwrap();
    assert_eq!(first.len(), 1);
    assert_eq!(second.len(), 1);
    match (&first[0], &second[0]) {
        (FileOp::Store { name: a, text: ta }, FileOp::Store { name: b, text: tb }) => {
            assert_eq!(a, "indexnow0.json");
            assert_eq!(b, "indexnow1.json");
            assert!(ta.ends_with("\"urlList\":[\"http://x/a\"]}"));
            assert!(tb.ends_with("\"urlList\":[\"http://x/b\"]}"));
        }
        other => panic!("unexpected instructions {:?}", other),
    }
}

#[test]
fn finish_writes_what_remains() {
    let mut batches = accumulator(5);
    batches.push("http://x/a").unwrap();
    let ops = batches.finish().unwrap();
    assert_eq!(
        ops,
        vec![store(
            "indexnow0.json",
            &reference_document(
                "example.org",
                "abc123",
                "https://example.org/abc123.txt",
                &["http://x/a"]
            )
        )]
    );
    assert_eq!(batches.buffered(), 0);
    assert_eq!(batches.batch_index(), 0);
}

#[test]
fn finish_with_an_empty_buffer_writes_an_empty_batch() {
    let mut batches = accumulator(1);
    batches.push("http://x/a").unwrap();
    batches.push("http://x/b").unwrap();
    assert_eq!(batches.buffered(), 0);
    let ops = batches.finish().unwrap();
    assert_eq!(
        ops,
        vec![store(
            "indexnow1.json",
            "{\"host\":\"example.org\",\"key\":\"abc123\",\"keyLocation\":\"https://example.org/abc123.txt\",\"urlList\":[]}"
        )]
    );
}

#[test]
fn batches_hold_one_more_than_the_threshold() {
    let mut batches = accumulator(3);
    let mut sizes = Vec::new();
    let mut names = Vec::new();
    for i in 0..10 {
        for op in batches.push(&format!("http://x/{}", i)).unwrap() {
            match op {
                FileOp::Store { name, text } => {
                    let parsed: serde_json::Value = serde_json::from_str(&text).unwrap();
                    sizes.push(parsed["urlList"].as_array().unwrap().len());
                    names.push(name);
                }
                other => panic!("unexpected instruction {:?}", other),
            }
        }
    }
    for op in batches.finish().unwrap() {
        match op {
            FileOp::Store { name, text } => {
                let parsed: serde_json::Value = serde_json::from_str(&text).unwrap();
                sizes.push(parsed["urlList"].as_array().unwrap().len());
                names.push(name);
            }
            other => panic!("unexpected instruction {:?}", other),
        }
    }
    assert_eq!(sizes, vec![4, 4, 2]);
    assert_eq!(names, vec!["indexnow0.json", "indexnow1.json", "indexnow2.json"]);
}

#[test]
fn document_is_what_the_json_encoder_writes() {
    let request = Request {
        host: "ex\"ample.org".to_string(),
        key: "k\\ey".to_string(),
        key_location: "line\nbreak\ttab".to_string(),
        url_list: vec![
            "http://x/?q=\"quoted\"".to_string(),
            "http://x/caf\u{e9}".to_string(),
            "http://x/\u{1}".to_string(),
        ],
    };
    let document = request.to_json().unwrap();
    assert_eq!(
        document,
        reference_document(
            "ex\"ample.org",
            "k\\ey",
            "line\nbreak\ttab",
            &["http://x/?q=\"quoted\"", "http://x/caf\u{e9}", "http://x/\u{1}"]
        )
    );
    assert!(document.starts_with("{\"host\":\"ex\\\"ample.org\",\"key\":\"k\\\\ey\","));
    assert!(document.contains("\"keyLocation\":\"line\\nbreak\\ttab\""));
    assert!(document.contains("\\u0001"));
}

#[test]
fn document_reads_back_to_the_request() {
    let request = Request {
        host: "example.org".to_string(),
        key: "abc\"123".to_string(),
        key_location: "https://example.org/abc123.txt".to_string(),
        url_list: vec!["http://x/a?b=1&c=2".to_string(), "http://x/\u{3042}".to_string()],
    };
    let parsed: serde_json::Value = serde_json::from_str(&request.to_json().unwrap()).unwrap();
    assert_eq!(parsed["host"], "example.org");
    assert_eq!(parsed["key"], "abc\"123");
    assert_eq!(parsed["keyLocation"], "https://example.org/abc123.txt");
    let urls: Vec<&str> =
        parsed["urlList"].as_array().unwrap().iter().map(|url| url.as_str().unwrap()).collect();
    assert_eq!(urls, vec!["http://x/a?b=1&c=2", "http://x/\u{3042}"]);
    assert_eq!(parsed.as_object().unwrap().len(), 4);
}

#[test]
fn frame_copies_its_arguments() {
    let urls = vec!["\"a\"".to_string(), "\"b\"".to_string()];
    assert_eq!(
        frame_request("\"h\"", "\"k\"", "\"l\"", &urls),
        "{\"host\":\"h\",\"key\":\"k\",\"keyLocation\":\"l\",\"urlList\":[\"a\",\"b\"]}"
    );
    assert_eq!(
        frame_request("1", "2", "3", &Vec::new()),
        "{\"host\":1,\"key\":2,\"keyLocation\":3,\"urlList\":[]}"
    );
    assert_eq!(
        frame_request("1", "2", "3", &vec!["x".to_string()]),
        "{\"host\":1,\"key\":2,\"keyLocation\":3,\"urlList\":[x]}"
    );
}

#[test]
fn batch_names_follow_the_index() {
    assert_eq!(batch_file_name(0), "indexnow0.json");
    assert_eq!(batch_file_name(42), "indexnow42.json");
    assert_eq!(batch_file_name(100), "indexnow100.json");
}

#[test]
fn serialize_error_hands_out_its_detail() {
    let error = BatchError::Serialize { detail: "key must be a string".to_string() };
    assert_eq!(error.message(), "key must be a string");
}
