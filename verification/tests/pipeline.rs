use sitemap_indexnow::indexnow::generator::RequestGenerator;
use sitemap_indexnow::output::FileOp;
use sitemap_indexnow::pipeline::dedup::DedupSet;
use sitemap_indexnow::pipeline::fanout::{Pipeline, Record, LISTED_ITEM_TYPE};
use sitemap_indexnow::pipeline::query::{page_url, search_url};
use sitemap_indexnow::sitemap::generator::Generator;
use std::collections::BTreeMap;

/// Carries the instructions out on files held in memory.
fn carry_out(files: &mut BTreeMap<String, String>, ops: &[FileOp]) {
    for op in ops {
        match op {
            FileOp::Create { name } => {
                files.entry(name.clone()).or_insert_with(String::new);
            }
            FileOp::Append { name, text } => {
                files.get_mut(name).expect("append to a file that was not created").push_str(text);
            }
            FileOp::Flush { name } | FileOp::Close { name } => {
                assert!(files.contains_key(name));
            }
            FileOp::Store { name, text } => {
                files.insert(name.clone(), text.clone());
            }
        }
    }
}

fn start(
    sitemap_max: u32,
    batch_max: u32,
    files: &mut BTreeMap<String, String>,
) -> (Pipeline, DedupSet) {
    let (sitemap, ops) = Generator::new(sitemap_max, "2024-05-06", "http://x/maps");
    carry_out(files, &ops);
    let batches = RequestGenerator::new(batch_max, "x", "key", "http://x/key.txt");
    (Pipeline::new(sitemap, batches, "http://x/search"), DedupSet::new())
}

fn locations(text: &str) -> Vec<String> {
    text.split("<loc>")
        .skip(1)
        .map(|rest| rest.split("</loc>").next().unwrap().to_string())
        .collect()
}

fn batch_urls(text: &str) -> Vec<String> {
    let parsed: serde_json::Value = serde_json::from_str(text).unwrap();
    parsed["urlList"]
        .as_array()
        .unwrap()
        .iter()
        .map(|url| url.as_str().unwrap().to_string())
        .collect()
}

#[test]
fn search_url_of_a_plain_keyword() {
    assert_eq!(
        search_url("http://x/search", "Sword", false),
        "http://x/search?keyword=Sword&item-type=all"
    );
}

#[test]
fn search_url_encodes_the_keyword() {
    assert_eq!(
        search_url("http://x/search", "Iron Sword & Shield", false),
        "http://x/search?keyword=Iron+Sword+%26+Shield&item-type=all"
    );
    assert_eq!(
        search_url("http://x/search", "a=b?c/d", false),
        "http://x/search?keyword=a%3Db%3Fc%2Fd&item-type=all"
    );
}

#[test]
fn search_url_of_a_japanese_keyword() {
    assert_eq!(
        search_url("http://x/search", "\u{5263}", true),
        "http://x/search?keyword=%E5%89%A3&item-type=all&lang=ja"
    );
}

#[test]
fn page_url_joins_with_a_question_mark() {
    assert_eq!(page_url("http://x", "a=1&b=2"), "http://x?a=1&b=2");
    assert_eq!(page_url("", ""), "?");
}

#[test]
fn dedup_set_remembers_keys() {
    let mut seen = DedupSet::new();
    assert_eq!(seen.len(), 0);
    assert!(!seen.contains("A"));
    assert!(seen.insert("A"));
    assert!(seen.contains("A"));
    assert!(!seen.insert("A"));
    assert!(seen.insert("B"));
    assert_eq!(seen.len(), 2);
    assert!(!seen.contains("a"));
}

#[test]
fn forward_skips_a_key_that_was_seen() {
    let mut files = BTreeMap::new();
    let (mut pipeline, mut seen) = start(10, 10, &mut files);
    let first = pipeline.forward(&mut seen, "A", "http://x/a").unwrap();
    assert_eq!(first.len(), 1);
    let again = pipeline.forward(&mut seen, "A", "http://x/a-dup").unwrap();
    assert_eq!(again, vec![]);
    assert_eq!(pipeline.sitemap().entries_in_partition(), 1);
    assert_eq!(pipeline.batches().buffered(), 1);
    assert_eq!(seen.len(), 1);
}

#[test]
fn forward_writes_to_the_sitemap_then_to_the_batches() {
    let mut files = BTreeMap::new();
    let (mut pipeline, mut seen) = start(1, 0, &mut files);
    let ops = pipeline.forward(&mut seen, "A", "http://x/a").unwrap();
    assert_eq!(ops.len(), 8);
    assert!(matches!(&ops[0], FileOp::Append { name, .. } if name == "sitemap0.xml"));
    assert!(matches!(&ops[6], FileOp::Append { name, .. } if name == "index.xml"));
    assert!(matches!(&ops[7], FileOp::Store { name, .. } if name == "indexnow0.json"));
}

#[test]
fn duplicate_key_is_written_once_to_each_sink() {
    let mut files = BTreeMap::new();
    let (mut pipeline, mut seen) = start(2, 1000, &mut files);
    let input =
        [("A", "http://x/a"), ("B", "http://x/b"), ("A", "http://x/a-dup")];
    for (key, url) in input {
        let ops = pipeline.forward(&mut seen, key, url).unwrap();
        carry_out(&mut files, &ops);
    }
    let ops = pipeline.finish().unwrap();
    carry_out(&mut files, &ops);

    assert_eq!(locations(&files["sitemap0.xml"]), vec!["http://x/a", "http://x/b"]);
    assert!(files["sitemap0.xml"].ends_with("\n</urlset>\n"));
    // The second entry filled partition 0, so partition 1 was opened at once
    // and stays empty.
    assert_eq!(locations(&files["sitemap1.xml"]), Vec::<String>::new());
    assert_eq!(
        locations(&files["index.xml"]),
        vec!["http://x/maps/sitemap0.xml", "http://x/maps/sitemap1.xml"]
    );
    let batches: Vec<&String> = files.keys().filter(|name| name.starts_with("indexnow")).collect();
    assert_eq!(batches, vec!["indexnow0.json"]);
    assert_eq!(batch_urls(&files["indexnow0.json"]), vec!["http://x/a", "http://x/b"]);
    assert_eq!(seen.len(), 2);
}

#[test]
fn duplicate_key_with_room_in_the_partition() {
    let mut files = BTreeMap::new();
    let (mut pipeline, mut seen) = start(3, 1000, &mut files);
    for (key, url) in [("A", "http://x/a"), ("B", "http://x/b"), ("A", "http://x/a-dup")] {
        let ops = pipeline.forward(&mut seen, key, url).unwrap();
        carry_out(&mut files, &ops);
    }
    let ops = pipeline.finish().unwrap();
    carry_out(&mut files, &ops);
    assert_eq!(locations(&files["sitemap0.xml"]), vec!["http://x/a", "http://x/b"]);
    assert_eq!(locations(&files["index.xml"]), vec!["http://x/maps/sitemap0.xml"]);
    assert!(!files.contains_key("sitemap1.xml"));
    assert_eq!(batch_urls(&files["indexnow0.json"]), vec!["http://x/a", "http://x/b"]);
}

#[test]
fn every_distinct_key_is_written_exactly_once() {
    let mut files = BTreeMap::new();
    let (mut pipeline, mut seen) = start(4, 2, &mut files);
    let keys = ["a", "b", "a", "c", "b", "a", "d", "e", "e", "f", "a", "g"];
    let mut batched = Vec::new();
    for key in keys {
        let ops = pipeline.forward(&mut seen, key, &format!("http://x/{}", key)).unwrap();
        for op in &ops {
            if let FileOp::Store { text, .. } = op {
                batched.extend(batch_urls(text));
            }
        }
        carry_out(&mut files, &ops);
    }
    let ops = pipeline.finish().unwrap();
    for op in &ops {
        if let FileOp::Store { text, .. } = op {
            batched.extend(batch_urls(text));
        }
    }
    carry_out(&mut files, &ops);
    let expected: Vec<String> =
        ["a", "b", "c", "d", "e", "f", "g"].iter().map(|key| format!("http://x/{}", key)).collect();
    let mut written = locations(&files["sitemap0.xml"]);
    written.extend(locations(&files["sitemap1.xml"]));
    assert_eq!(written, expected);
    assert_eq!(batched, expected);
    assert_eq!(seen.len(), 7);
}

#[test]
fn record_of_another_item_type_is_passed_over() {
    let mut files = BTreeMap::new();
    let (mut pipeline, mut seen) = start(10, 10, &mut files);
    let record = Record {
        item_type: LISTED_ITEM_TYPE + 1,
        name: Some("Sword".to_string()),
        name_japanese: Some("\u{5263}".to_string()),
    };
    assert_eq!(pipeline.process(&mut seen, &record), Ok(vec![]));
    assert_eq!(seen.len(), 0);
    assert_eq!(pipeline.sitemap().entries_in_partition(), 0);
}

#[test]
fn record_with_both_names_gives_two_pages() {
    let mut files = BTreeMap::new();
    let (mut pipeline, mut seen) = start(10, 10, &mut files);
    let record = Record {
        item_type: 1,
        name: Some("Iron Sword".to_string()),
        name_japanese: Some("\u{5263}".to_string()),
    };
    let ops = pipeline.process(&mut seen, &record).unwrap();
    carry_out(&mut files, &ops);
    assert_eq!(
        locations(&files["sitemap0.xml"]),
        vec![
            "http://x/search?keyword=Iron+Sword&amp;item-type=all",
            "http://x/search?keyword=%E5%89%A3&amp;item-type=all&amp;lang=ja",
        ]
    );
    assert!(seen.contains("Iron Sword"));
    assert!(seen.contains("\u{5263}"));
    let ops = pipeline.finish().unwrap();
    carry_out(&mut files, &ops);
    assert_eq!(
        batch_urls(&files["indexnow0.json"]),
        vec![
            "http://x/search?keyword=Iron+Sword&item-type=all",
            "http://x/search?keyword=%E5%89%A3&item-type=all&lang=ja",
        ]
    );
}

#[test]
fn record_whose_names_are_equal_gives_one_page() {
    let mut files = BTreeMap::new();
    let (mut pipeline, mut seen) = start(10, 10, &mut files);
    let record = Record {
        item_type: 1,
        name: Some("Potion".to_string()),
        name_japanese: Some("Potion".to_string()),
    };
    let ops = pipeline.process(&mut seen, &record).unwrap();
    assert_eq!(ops.len(), 1);
    let missing = Record { item_type: 1, name: None, name_japanese: None };
    assert_eq!(pipeline.process(&mut seen, &missing), Ok(vec![]));
    let repeated =
        Record { item_type: 1, name: Some("Potion".to_string()), name_japanese: None };
    assert_eq!(pipeline.process(&mut seen, &repeated), Ok(vec![]));
    assert_eq!(seen.len(), 1);
}

#[test]
fn finish_ends_the_sitemap_and_writes_the_last_batch() {
    let mut files = BTreeMap::new();
    let (mut pipeline, _) = start(10, 10, &mut files);
    let ops = pipeline.finish().unwrap();
    assert_eq!(ops.len(), 5);
    assert!(matches!(&ops[0], FileOp::Append { name, text } if name == "sitemap0.xml" && text == "\n</urlset>\n"));
    assert!(matches!(&ops[1], FileOp::Append { name, text } if name == "index.xml" && text == "\n</sitemapindex>\n"));
    assert!(matches!(&ops[2], FileOp::Flush { name } if name == "sitemap0.xml"));
    assert!(matches!(&ops[3], FileOp::Flush { name } if name == "index.xml"));
    assert!(matches!(&ops[4], FileOp::Store { name, .. } if name == "indexnow0.json"));
}
