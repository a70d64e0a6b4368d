//! The sitemap index: one file, opened once, that receives one record for
//! each partition in the order in which the partitions are opened.

use crate::output::{views, FileOp, FileOpView};
use vstd::prelude::*;
use vstd::string::StringExecFns;

verus! {

/// Name of the index file.
pub const INDEX_NAME: &'static str = "index.xml";

/// What the index file starts with.
pub const INDEX_HEAD: &'static str =
    "<?xml version=\"1.0\" encoding=\"UTF-8\"?>\n<sitemapindex xmlns=\"http://www.sitemaps.org/schemas/sitemap/0.9\">";

/// What the index file ends with.
pub const INDEX_FOOT: &'static str = "\n</sitemapindex>\n";

/// A record up to the location.
pub const RECORD_OPEN: &'static str = "\n    <sitemap>\n        <loc>";

/// A record between the location and the modification time.
pub const RECORD_MID: &'static str = "</loc>\n        <lastmod>";

/// A record after the modification time.
pub const RECORD_CLOSE: &'static str = "</lastmod>\n    </sitemap>";

/// Where the partition `name` is published: below `base_url`.
pub open spec fn partition_location(base_url: Seq<char>, name: Seq<char>) -> Seq<char> {
    base_url + "/"@ + name
}

/// The record that the index holds for the partition `name`.
pub open spec fn index_record(base_url: Seq<char>, lastmod: Seq<char>, name: Seq<char>) -> Seq<
    char,
> {
    RECORD_OPEN@ + partition_location(base_url, name) + RECORD_MID@ + lastmod + RECORD_CLOSE@
}

/// Writer of the index file.
pub struct Indexer {
    lastmod: String,
    base_url: String,
}

/// What an [`Indexer`] was configured with.
pub struct IndexerView {
    /// The run's modification time, copied into every record.
    pub lastmod: Seq<char>,
    /// The location below which the partitions are published.
    pub base_url: Seq<char>,
}

impl IndexerView {
    /// Instructions that open the index and write its head.
    pub open spec fn opening_ops() -> Seq<FileOpView> {
        seq![
            FileOpView::Create { name: INDEX_NAME@ },
            FileOpView::Append { name: INDEX_NAME@, text: INDEX_HEAD@ },
        ]
    }

    /// Instructions that record the partition `name`.
    pub open spec fn record_ops(self, name: Seq<char>) -> Seq<FileOpView> {
        seq![
            FileOpView::Append {
                name: INDEX_NAME@,
                text: index_record(self.base_url, self.lastmod, name),
            },
        ]
    }

    /// Instructions that write the foot of the index.
    pub open spec fn finish_ops() -> Seq<FileOpView> {
        seq![FileOpView::Append { name: INDEX_NAME@, text: INDEX_FOOT@ }]
    }

    /// Instructions that force the index to durable storage.
    pub open spec fn flush_ops() -> Seq<FileOpView> {
        seq![FileOpView::Flush { name: INDEX_NAME@ }]
    }
}

impl View for Indexer {
    type V = IndexerView;

    closed spec fn view(&self) -> IndexerView {
        IndexerView { lastmod: self.lastmod@, base_url: self.base_url@ }
    }
}

impl Indexer {
    /// Starts the index of a run whose entries all carry `lastmod` and whose
    /// partitions are published below `base_url`. The instructions open the
    /// index file and write its head.
    pub fn new(lastmod: &str, base_url: &str) -> (r: (Indexer, Vec<FileOp>))
        ensures
            r.0@ == (IndexerView { lastmod: lastmod@, base_url: base_url@ }),
            views(r.1@) == IndexerView::opening_ops(),
    {
        let indexer = Indexer {
            lastmod: String::from_str(lastmod),
            base_url: String::from_str(base_url),
        };
        let mut ops: Vec<FileOp> = Vec::new();
        ops.push(FileOp::Create { name: String::from_str(INDEX_NAME) });
        ops.push(
            FileOp::Append {
                name: String::from_str(INDEX_NAME),
                text: String::from_str(INDEX_HEAD),
            },
        );
        assert(views(ops@) =~= IndexerView::opening_ops());
        (indexer, ops)
    }

    /// Records the partition `name`: one record with the partition's
    /// location and the run's modification time, appended to the index.
    pub fn write(&self, name: &str) -> (ops: Vec<FileOp>)
        ensures
            views(ops@) == self@.record_ops(name@),
    {
        let mut text = String::from_str(RECORD_OPEN);
        text.append(self.base_url.as_str());
        text.append("/");
        text.append(name);
        text.append(RECORD_MID);
        text.append(self.lastmod.as_str());
        text.append(RECORD_CLOSE);
        assert(text@ =~= index_record(self@.base_url, self@.lastmod, name@));
        let mut ops: Vec<FileOp> = Vec::new();
        ops.push(FileOp::Append { name: String::from_str(INDEX_NAME), text });
        assert(views(ops@) =~= self@.record_ops(name@));
        ops
    }

    /// Ends the index: its foot is appended.
    pub fn finish(&self) -> (ops: Vec<FileOp>)
        ensures
            views(ops@) == IndexerView::finish_ops(),
    {
        let mut ops: Vec<FileOp> = Vec::new();
        ops.push(
            FileOp::Append {
                name: String::from_str(INDEX_NAME),
                text: String::from_str(INDEX_FOOT),
            },
        );
        assert(views(ops@) =~= IndexerView::finish_ops());
        ops
    }

    /// Forces what was appended to the index to durable storage.
    pub fn flush(&self) -> (ops: Vec<FileOp>)
        ensures
            views(ops@) == IndexerView::flush_ops(),
    {
        let mut ops: Vec<FileOp> = Vec::new();
        ops.push(FileOp::Flush { name: String::from_str(INDEX_NAME) });
        assert(views(ops@) =~= IndexerView::flush_ops());
        ops
    }
}

} // verus!
