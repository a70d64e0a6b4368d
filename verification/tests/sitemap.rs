use sitemap_indexnow::output::FileOp;
use sitemap_indexnow::sitemap::generator::{partition_file_name, Generator};
use sitemap_indexnow::sitemap::indexer::Indexer;
use std::collections::BTreeMap;

const URLSET_HEAD: &str = "<?xml version=\"1.0\" encoding=\"UTF-8\"?>\n<urlset xmlns=\"http://www.sitemaps.org/schemas/sitemap/0.9\">";
const URLSET_FOOT: &str = "\n</urlset>\n";
const INDEX_HEAD: &str = "<?xml version=\"1.0\" encoding=\"UTF-8\"?>\n<sitemapindex xmlns=\"http://www.sitemaps.org/schemas/sitemap/0.9\">";
const INDEX_FOOT: &str = "\n</sitemapindex>\n";

fn create(name: &str) -> FileOp {
    FileOp::Create { name: name.to_string() }
}

fn append(name: &str, text: &str) -> FileOp {
    FileOp::Append { name: name.to_string(), text: text.to_string() }
}

fn flush(name: &str) -> FileOp {
    FileOp::Flush { name: name.to_string() }
}

fn close(name: &str) -> FileOp {
    FileOp::Close { name: name.to_string() }
}

fn entry(url: &str, lastmod: &str) -> String {
    format!("\n    <url>\n        <loc>{}</loc>\n        <lastmod>{}</lastmod>\n    </url>", url, lastmod)
}

fn record(location: &str, lastmod: &str) -> String {
    format!(
        "\n    <sitemap>\n        <loc>{}</loc>\n        <lastmod>{}</lastmod>\n    </sitemap>",
        location, lastmod
    )
}

/// Carries the instructions out on files held in memory.
fn perform(files: &mut BTreeMap<String, String>, order: &mut Vec<String>, ops: &[FileOp]) {
    for op in ops {
        match op {
            FileOp::Create { name } => {
                if !files.contains_key(name) {
                    files.insert(name.clone(), String::new());
                    order.push(name.clone());
                }
            }
            FileOp::Append { name, text } => {
                files.get_mut(name).expect("append to a file that was not created").push_str(text);
            }
            FileOp::Flush { name } | FileOp::Close { name } => {
                assert!(files.contains_key(name));
            }
            FileOp::Store { name, text } => {
                if !files.contains_key(name) {
                    order.push(name.clone());
                }
                files.insert(name.clone(), text.clone());
            }
        }
    }
}

fn count_entries(text: &str) -> usize {
    text.matches("<url>").count()
}

/// Runs a writer over `urls` and returns the files and their order of creation.
fn run(max: u32, urls: &[String]) -> (BTreeMap<String, String>, Vec<String>, Generator) {
    let mut files = BTreeMap::new();
    let mut order = Vec::new();
    let (mut generator, ops) = Generator::new(max, "2024-05-06", "https://example.org/maps");
    perform(&mut files, &mut order, &ops);
    for url in urls {
        let ops = generator.write(url.clone());
        perform(&mut files, &mut order, &ops);
    }
    let ops = generator.finish();
    perform(&mut files, &mut order, &ops);
    let ops = generator.flush();
    perform(&mut files, &mut order, &ops);
    (files, order, generator)
}

fn numbered(count: usize) -> Vec<String> {
    (0..count).map(|i| format!("http://x/{}", i)).collect()
}

#[test]
fn new_opens_index_then_partition_zero() {
    let (generator, ops) = Generator::new(2, "2024-01-01", "http://x");
    assert_eq!(generator.partition_index(), 0);
    assert_eq!(generator.entries_in_partition(), 0);
    assert_eq!(generator.max_entries(), 2);
    assert_eq!(
        ops,
        vec![
            create("index.xml"),
            append("index.xml", INDEX_HEAD),
            create("sitemap0.xml"),
            append("sitemap0.xml", URLSET_HEAD),
            append("index.xml", &record("http://x/sitemap0.xml", "2024-01-01")),
        ]
    );
}

#[test]
fn write_below_the_maximum_only_appends() {
    let (mut generator, _) = Generator::new(3, "2024-01-01", "http://x");
    let ops = generator.write("http://x/a".to_string());
    assert_eq!(ops, vec![append("sitemap0.xml", &entry("http://x/a", "2024-01-01"))]);
    assert_eq!(generator.partition_index(), 0);
    assert_eq!(generator.entries_in_partition(), 1);
}

#[test]
fn write_that_fills_the_partition_rotates() {
    let (mut generator, _) = Generator::new(2, "2024-01-01", "http://x");
    generator.write("http://x/a".to_string());
    let ops = generator.write("http://x/b".to_string());
    assert_eq!(
        ops,
        vec![
            append("sitemap0.xml", &entry("http://x/b", "2024-01-01")),
            append("sitemap0.xml", URLSET_FOOT),
            flush("sitemap0.xml"),
            close("sitemap0.xml"),
            create("sitemap1.xml"),
            append("sitemap1.xml", URLSET_HEAD),
            append("index.xml", &record("http://x/sitemap1.xml", "2024-01-01")),
        ]
    );
    assert_eq!(generator.partition_index(), 1);
    assert_eq!(generator.entries_in_partition(), 0);
}

#[test]
fn finish_ends_partition_and_index_without_rotating() {
    let (mut generator, _) = Generator::new(5, "2024-01-01", "http://x");
    generator.write("http://x/a".to_string());
    let ops = generator.finish();
    assert_eq!(ops, vec![append("sitemap0.xml", URLSET_FOOT), append("index.xml", INDEX_FOOT)]);
    assert_eq!(generator.partition_index(), 0);
    assert_eq!(generator.entries_in_partition(), 1);
}

#[test]
fn flush_names_the_open_partition_and_the_index() {
    let (mut generator, _) = Generator::new(1, "2024-01-01", "http://x");
    generator.write("http://x/a".to_string());
    let ops = generator.flush();
    assert_eq!(ops, vec![flush("sitemap1.xml"), flush("index.xml")]);
    assert_eq!(generator.flush(), ops);
}

#[test]
fn entry_escapes_every_ampersand() {
    let (mut generator, _) = Generator::new(10, "2024-01-01", "http://x");
    let ops = generator.write("http://x/?a=1&b=2&amp;c".to_string());
    assert_eq!(
        ops,
        vec![append("sitemap0.xml", &entry("http://x/?a=1&amp;b=2&amp;amp;c", "2024-01-01"))]
    );
}

#[test]
fn escaped_location_reads_back() {
    let url = "http://x/?q=a&&b&amp;&";
    let (mut generator, _) = Generator::new(10, "t", "http://x");
    let ops = generator.write(url.to_string());
    let text = match &ops[0] {
        FileOp::Append { text, .. } => text.clone(),
        other => panic!("unexpected instruction {:?}", other),
    };
    let start = text.find("<loc>").unwrap() + "<loc>".len();
    let end = text.find("</loc>").unwrap();
    let location = &text[start..end];
    assert!(!location.replace("&amp;", "").contains('&'));
    assert_eq!(location.replace("&amp;", "&"), url);
}

#[test]
fn same_entry_twice_gives_the_same_text() {
    let (mut generator, _) = Generator::new(2, "2024-01-01", "http://x");
    let first = generator.write("http://x/a&b".to_string());
    let second = generator.write("http://x/a&b".to_string());
    let third = generator.write("http://x/a&b".to_string());
    let text = |ops: &Vec<FileOp>| match &ops[0] {
        FileOp::Append { text, .. } => text.clone(),
        other => panic!("unexpected instruction {:?}", other),
    };
    assert_eq!(text(&first), text(&second));
    assert_eq!(text(&second), text(&third));
    assert_eq!(text(&first), entry("http://x/a&amp;b", "2024-01-01"));
}

#[test]
fn partition_names_follow_the_index() {
    assert_eq!(partition_file_name(0), "sitemap0.xml");
    assert_eq!(partition_file_name(9), "sitemap9.xml");
    assert_eq!(partition_file_name(10), "sitemap10.xml");
    assert_eq!(partition_file_name(1205), "sitemap1205.xml");
    assert_eq!(partition_file_name(u32::MAX), "sitemap4294967295.xml");
}

#[test]
fn indexer_writes_head_records_and_foot() {
    let (indexer, ops) = Indexer::new("2024-01-01", "https://example.org/maps");
    assert_eq!(ops, vec![create("index.xml"), append("index.xml", INDEX_HEAD)]);
    assert_eq!(
        indexer.write("sitemap7.xml"),
        vec![append("index.xml", &record("https://example.org/maps/sitemap7.xml", "2024-01-01"))]
    );
    assert_eq!(indexer.finish(), vec![append("index.xml", INDEX_FOOT)]);
    assert_eq!(indexer.flush(), vec![flush("index.xml")]);
}

#[test]
fn run_without_entries_leaves_one_empty_partition() {
    let (files, order, generator) = run(1000, &[]);
    assert_eq!(order, vec!["index.xml".to_string(), "sitemap0.xml".to_string()]);
    assert_eq!(files["sitemap0.xml"], format!("{}{}", URLSET_HEAD, URLSET_FOOT));
    assert_eq!(
        files["index.xml"],
        format!(
            "{}{}{}",
            INDEX_HEAD,
            record("https://example.org/maps/sitemap0.xml", "2024-05-06"),
            INDEX_FOOT
        )
    );
    assert_eq!(generator.partition_index(), 0);
}

#[test]
fn maximum_of_one_gives_one_entry_per_partition() {
    let urls = numbered(4);
    let (files, order, generator) = run(1, &urls);
    assert_eq!(order.len(), 6);
    for (k, url) in urls.iter().enumerate() {
        let name = format!("sitemap{}.xml", k);
        assert_eq!(order[k + 1], name);
        assert_eq!(files[&name], format!("{}{}{}", URLSET_HEAD, entry(url, "2024-05-06"), URLSET_FOOT));
    }
    assert_eq!(files["sitemap4.xml"], format!("{}{}", URLSET_HEAD, URLSET_FOOT));
    assert_eq!(generator.partition_index(), 4);
    assert_eq!(generator.entries_in_partition(), 0);
}

#[test]
fn maximum_of_zero_rotates_after_every_entry() {
    let urls = numbered(3);
    let (files, order, generator) = run(0, &urls);
    assert_eq!(order.len(), 5);
    for k in 0..3 {
        assert_eq!(count_entries(&files[&format!("sitemap{}.xml", k)]), 1);
    }
    assert_eq!(count_entries(&files["sitemap3.xml"]), 0);
    assert_eq!(generator.partition_index(), 3);
}

#[test]
fn two_thousand_five_hundred_entries_in_three_partitions() {
    let urls = numbered(2500);
    let (files, order, generator) = run(1000, &urls);
    assert_eq!(
        order,
        vec![
            "index.xml".to_string(),
            "sitemap0.xml".to_string(),
            "sitemap1.xml".to_string(),
            "sitemap2.xml".to_string(),
        ]
    );
    assert_eq!(count_entries(&files["sitemap0.xml"]), 1000);
    assert_eq!(count_entries(&files["sitemap1.xml"]), 1000);
    assert_eq!(count_entries(&files["sitemap2.xml"]), 500);
    assert_eq!(files["index.xml"].matches("<sitemap>").count(), 3);
    let first = files["index.xml"].find("/sitemap0.xml").unwrap();
    let second = files["index.xml"].find("/sitemap1.xml").unwrap();
    let third = files["index.xml"].find("/sitemap2.xml").unwrap();
    assert!(first < second && second < third);
    for name in ["sitemap0.xml", "sitemap1.xml", "sitemap2.xml"] {
        assert!(files[name].starts_with(URLSET_HEAD));
        assert!(files[name].ends_with(URLSET_FOOT));
    }
    assert!(files["sitemap1.xml"].contains(&entry("http://x/1000", "2024-05-06")));
    assert!(files["sitemap1.xml"].contains(&entry("http://x/1999", "2024-05-06")));
    assert!(files["sitemap2.xml"].contains(&entry("http://x/2000", "2024-05-06")));
    assert_eq!(generator.partition_index(), 2);
    assert_eq!(generator.entries_in_partition(), 500);
}

#[test]
fn full_last_partition_is_followed_by_an_empty_one() {
    let urls = numbered(4);
    let (files, order, generator) = run(2, &urls);
    assert_eq!(order.len(), 4);
    assert_eq!(count_entries(&files["sitemap0.xml"]), 2);
    assert_eq!(count_entries(&files["sitemap1.xml"]), 2);
    assert_eq!(files["sitemap2.xml"], format!("{}{}", URLSET_HEAD, URLSET_FOOT));
    assert_eq!(files["index.xml"].matches("<sitemap>").count(), 3);
    assert_eq!(generator.partition_index(), 2);
    assert_eq!(generator.entries_in_partition(), 0);
}

#[test]
fn rotation_points_follow_the_quotient() {
    let (mut generator, _) = Generator::new(3, "t", "http://x");
    for n in 1..=10u32 {
        generator.write(format!("http://x/{}", n));
        assert_eq!(generator.partition_index(), n / 3);
        assert_eq!(generator.entries_in_partition(), n % 3);
    }
}

#[test]
fn nothing_names_a_partition_after_its_close() {
    let (mut generator, mut log) = Generator::new(3, "t", "http://x");
    for url in numbered(10) {
        log.extend(generator.write(url));
    }
    log.extend(generator.finish());
    log.extend(generator.flush());
    let name = |op: &FileOp| match op {
        FileOp::Create { name }
        | FileOp::Append { name, .. }
        | FileOp::Flush { name }
        | FileOp::Close { name }
        | FileOp::Store { name, .. } => name.clone(),
    };
    let mut closed = Vec::new();
    for op in &log {
        assert!(!closed.contains(&name(op)));
        if let FileOp::Close { name } = op {
            closed.push(name.clone());
        }
    }
    assert_eq!(closed, vec!["sitemap0.xml", "sitemap1.xml", "sitemap2.xml"]);
}
