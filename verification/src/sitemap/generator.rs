//! The partitioned sitemap writer: URL entries go to numbered partitions of
//! bounded size, and every partition that is opened is recorded in the index.

use crate::output::{lemma_views_concat, views, FileOp, FileOpView};
use crate::sitemap::indexer::{Indexer, IndexerView, INDEX_NAME};
use crate::text::{
    decimal, escape, escape_amp, law_escape_round_trip, law_no_ampersand_stands_alone,
    lemma_numbered_names_distinct, render_decimal, unescape_amp,
};
use vstd::prelude::*;
use vstd::string::StringExecFns;

verus! {

/// What a partition starts with.
pub const URLSET_HEAD: &'static str =
    "<?xml version=\"1.0\" encoding=\"UTF-8\"?>\n<urlset xmlns=\"http://www.sitemaps.org/schemas/sitemap/0.9\">";

/// What a partition ends with.
pub const URLSET_FOOT: &'static str = "\n</urlset>\n";

/// An entry up to the location.
pub const ENTRY_OPEN: &'static str = "\n    <url>\n        <loc>";

/// An entry between the location and the modification time.
pub const ENTRY_MID: &'static str = "</loc>\n        <lastmod>";

/// An entry after the modification time.
pub const ENTRY_CLOSE: &'static str = "</lastmod>\n    </url>";

/// What every partition's name starts with.
pub const PARTITION_PREFIX: &'static str = "sitemap";

/// What every partition's name ends with.
pub const PARTITION_SUFFIX: &'static str = ".xml";

/// The name of the partition with the given index: a function of the index
/// and of nothing else.
pub open spec fn partition_name(index: nat) -> Seq<char> {
    PARTITION_PREFIX@ + decimal(index) + PARTITION_SUFFIX@
}

/// The entry written for `url` in a run whose modification time is
/// `lastmod`: the location with its ampersands escaped, then the time.
pub open spec fn url_entry(lastmod: Seq<char>, url: Seq<char>) -> Seq<char> {
    ENTRY_OPEN@ + escape_amp(url) + ENTRY_MID@ + lastmod + ENTRY_CLOSE@
}

/// The number of entries after which a partition is full. A writer made
/// with `max == 0` rotates after every entry, as one made with `max == 1`.
pub open spec fn capacity(max: nat) -> nat {
    if max == 0 {
        1
    } else {
        max
    }
}

/// Partitions with different indexes have different names.
pub proof fn lemma_partition_names_distinct(a: nat, b: nat)
    requires
        partition_name(a) == partition_name(b),
    ensures
        a == b,
{
    lemma_numbered_names_distinct(PARTITION_PREFIX@, PARTITION_SUFFIX@, a, b);
}

/// No partition has the name of the index.
pub proof fn lemma_partition_is_not_index(index: nat)
    ensures
        partition_name(index) != INDEX_NAME@,
{
    reveal_strlit("sitemap");
    reveal_strlit("index.xml");
    assert(partition_name(index)[0] == 's');
    assert(INDEX_NAME@[0] == 'i');
}

/// The state of a [`Generator`].
pub struct GeneratorView {
    /// The index that records the partitions.
    pub index: IndexerView,
    /// The run's modification time, copied into every entry.
    pub lastmod: Seq<char>,
    /// The configured maximum of entries per partition.
    pub max: nat,
    /// Index of the partition that is open.
    pub partition: nat,
    /// Number of entries written to the open partition.
    pub count: nat,
}

impl GeneratorView {
    /// The open partition is never full: a full one is rotated away at once.
    pub open spec fn wf(self) -> bool {
        self.count < capacity(self.max)
    }

    /// The state in which a writer starts.
    pub open spec fn initial(max: nat, lastmod: Seq<char>, base_url: Seq<char>) -> GeneratorView {
        GeneratorView {
            index: IndexerView { lastmod, base_url },
            lastmod,
            max,
            partition: 0,
            count: 0,
        }
    }

    /// Instructions that open the partition `index` and write its head.
    pub open spec fn partition_opening_ops(index: nat) -> Seq<FileOpView> {
        seq![
            FileOpView::Create { name: partition_name(index) },
            FileOpView::Append { name: partition_name(index), text: URLSET_HEAD@ },
        ]
    }

    /// Instructions with which a run starts: the index is opened, then
    /// partition 0, then partition 0 is recorded in the index.
    pub open spec fn opening_ops(self) -> Seq<FileOpView> {
        IndexerView::opening_ops() + Self::partition_opening_ops(self.partition)
            + self.index.record_ops(partition_name(self.partition))
    }

    /// Whether the next entry fills the open partition.
    pub open spec fn fills(self) -> bool {
        self.count + 1 >= self.max
    }

    /// Instructions that append the entry for `url` to the open partition.
    pub open spec fn entry_ops(self, url: Seq<char>) -> Seq<FileOpView> {
        seq![
            FileOpView::Append {
                name: partition_name(self.partition),
                text: url_entry(self.lastmod, url),
            },
        ]
    }

    /// Instructions of a rotation: the open partition gets its foot, is
    /// flushed and closed; the next one is opened, gets its head and is
    /// recorded in the index.
    pub open spec fn rotation_ops(self) -> Seq<FileOpView> {
        seq![
            FileOpView::Append { name: partition_name(self.partition), text: URLSET_FOOT@ },
            FileOpView::Flush { name: partition_name(self.partition) },
            FileOpView::Close { name: partition_name(self.partition) },
        ] + Self::partition_opening_ops(self.partition + 1) + self.index.record_ops(
            partition_name(self.partition + 1),
        )
    }

    /// Instructions of one `write`.
    pub open spec fn write_ops(self, url: Seq<char>) -> Seq<FileOpView> {
        if self.fills() {
            self.entry_ops(url) + self.rotation_ops()
        } else {
            self.entry_ops(url)
        }
    }

    /// The state after one `write`.
    pub open spec fn after_write(self) -> GeneratorView {
        if self.fills() {
            GeneratorView { partition: self.partition + 1, count: 0, ..self }
        } else {
            GeneratorView { count: self.count + 1, ..self }
        }
    }

    /// Instructions that end the run: the open partition and the index get
    /// their feet.
    pub open spec fn finish_ops(self) -> Seq<FileOpView> {
        seq![FileOpView::Append { name: partition_name(self.partition), text: URLSET_FOOT@ }]
            + IndexerView::finish_ops()
    }

    /// Instructions that force the open partition and the index to durable
    /// storage.
    pub open spec fn flush_ops(self) -> Seq<FileOpView> {
        seq![FileOpView::Flush { name: partition_name(self.partition) }] + IndexerView::flush_ops()
    }
}

/// The entry of a URL depends on the URL and on the run's modification
/// time alone: whatever the writer has written before, and whichever
/// partition is open, the first instruction of a `write` appends the same
/// text.
pub proof fn law_entry_is_the_same_everywhere(a: GeneratorView, b: GeneratorView, url: Seq<char>)
    requires
        a.lastmod == b.lastmod,
    ensures
        a.write_ops(url)[0] == (FileOpView::Append {
            name: partition_name(a.partition),
            text: url_entry(a.lastmod, url),
        }),
        b.write_ops(url)[0] == (FileOpView::Append {
            name: partition_name(b.partition),
            text: url_entry(a.lastmod, url),
        }),
{
}

/// The location of an entry is the URL with its ampersands escaped, and
/// reading it back gives the URL: it stands in the entry after the opening
/// text, and unescaping it recovers `url`.
pub proof fn law_entry_location_reads_back(lastmod: Seq<char>, url: Seq<char>)
    ensures
        ({
            let from = ENTRY_OPEN@.len() as int;
            let to = from + escape_amp(url).len();
            let location = url_entry(lastmod, url).subrange(from, to);
            &&& location == escape_amp(url)
            &&& unescape_amp(location) == url
        }),
{
    let from = ENTRY_OPEN@.len() as int;
    let to = from + escape_amp(url).len();
    let location = url_entry(lastmod, url).subrange(from, to);
    assert(location =~= escape_amp(url));
    law_escape_round_trip(url);
}

/// No `&` in the location of an entry stands alone: wherever the text
/// between the opening text and the end of the location holds an `&`, it
/// holds `&amp;` from there on.
pub proof fn law_entry_location_has_no_lone_ampersand(lastmod: Seq<char>, url: Seq<char>, i: int)
    requires
        0 <= i < escape_amp(url).len(),
        url_entry(lastmod, url)[ENTRY_OPEN@.len() + i] == '&',
    ensures
        i + 5 <= escape_amp(url).len(),
        url_entry(lastmod, url).subrange(ENTRY_OPEN@.len() + i, ENTRY_OPEN@.len() + i + 5)
            == "&amp;"@,
{
    let from = ENTRY_OPEN@.len() as int;
    let entry = url_entry(lastmod, url);
    assert(entry[from + i] == escape_amp(url)[i]);
    law_no_ampersand_stands_alone(url, i);
    assert(entry.subrange(from + i, from + i + 5) =~= escape_amp(url).subrange(i, i + 5));
}

/// The partitioned sitemap writer.
pub struct Generator {
    indexer: Indexer,
    file_idx: u32,
    idx: u32,
    max: u32,
    lastmod: String,
}

impl View for Generator {
    type V = GeneratorView;

    closed spec fn view(&self) -> GeneratorView {
        GeneratorView {
            index: self.indexer@,
            lastmod: self.lastmod@,
            max: self.max as nat,
            partition: self.file_idx as nat,
            count: self.idx as nat,
        }
    }
}

/// The name of the partition `index`.
pub fn partition_file_name(index: u32) -> (name: String)
    ensures
        name@ == partition_name(index as nat),
{
    let mut name = String::from_str(PARTITION_PREFIX);
    let digits = render_decimal(index);
    name.append(digits.as_str());
    name.append(PARTITION_SUFFIX);
    name
}

/// Instructions that open the partition `index` and write its head.
fn new_file(index: u32) -> (ops: Vec<FileOp>)
    ensures
        views(ops@) == GeneratorView::partition_opening_ops(index as nat),
{
    let mut ops: Vec<FileOp> = Vec::new();
    ops.push(FileOp::Create { name: partition_file_name(index) });
    ops.push(
        FileOp::Append { name: partition_file_name(index), text: String::from_str(URLSET_HEAD) },
    );
    assert(views(ops@) =~= GeneratorView::partition_opening_ops(index as nat));
    ops
}

impl Generator {
    /// Starts a run: at most `max` entries per partition, `lastmod` as the
    /// modification time of every entry and record, partitions published
    /// below `base_url`. Partition 0 is opened at once and recorded in the
    /// index, so a run without entries still leaves one partition.
    pub fn new(max: u32, lastmod: &str, base_url: &str) -> (r: (Generator, Vec<FileOp>))
        ensures
            r.0@ == GeneratorView::initial(max as nat, lastmod@, base_url@),
            r.0@.wf(),
            views(r.1@) == r.0@.opening_ops(),
    {
        let (indexer, mut ops) = Indexer::new(lastmod, base_url);
        let name = partition_file_name(0);
        let mut head = new_file(0);
        let mut record = indexer.write(name.as_str());
        proof {
            lemma_views_concat(ops@, head@);
            lemma_views_concat(ops@ + head@, record@);
        }
        ops.append(&mut head);
        ops.append(&mut record);
        let generator = Generator {
            indexer,
            file_idx: 0,
            idx: 0,
            max,
            lastmod: String::from_str(lastmod),
        };
        (generator, ops)
    }

    /// Writes the entry for `src` to the open partition. If that fills the
    /// partition, it is ended and closed, and the next one is opened and
    /// recorded in the index before anything else is written.
    pub fn write(&mut self, src: String) -> (ops: Vec<FileOp>)
        requires
            old(self)@.wf(),
            old(self)@.fills() ==> old(self)@.partition < u32::MAX,
        ensures
            final(self)@ == old(self)@.after_write(),
            final(self)@.wf(),
            views(ops@) == old(self)@.write_ops(src@),
    {
        let name = partition_file_name(self.file_idx);
        let mut text = String::from_str(ENTRY_OPEN);
        let location = escape(src.as_str());
        text.append(location.as_str());
        text.append(ENTRY_MID);
        text.append(self.lastmod.as_str());
        text.append(ENTRY_CLOSE);
        assert(text@ =~= url_entry(self@.lastmod, src@));
        let mut ops: Vec<FileOp> = Vec::new();
        ops.push(FileOp::Append { name, text });
        assert(views(ops@) =~= self@.entry_ops(src@));
        if self.idx + 1 >= self.max {
            let ghost before = self@;
            let mut closing: Vec<FileOp> = Vec::new();
            closing.push(
                FileOp::Append {
                    name: partition_file_name(self.file_idx),
                    text: String::from_str(URLSET_FOOT),
                },
            );
            closing.push(FileOp::Flush { name: partition_file_name(self.file_idx) });
            closing.push(FileOp::Close { name: partition_file_name(self.file_idx) });
            let next = self.file_idx + 1;
            let next_name = partition_file_name(next);
            let mut head = new_file(next);
            let mut record = self.indexer.write(next_name.as_str());
            proof {
                lemma_views_concat(closing@, head@);
                lemma_views_concat(closing@ + head@, record@);
                assert(views(closing@ + head@ + record@) =~= before.rotation_ops());
                lemma_views_concat(ops@, closing@ + head@ + record@);
            }
            closing.append(&mut head);
            closing.append(&mut record);
            ops.append(&mut closing);
            self.file_idx = next;
            self.idx = 0;
        } else {
            self.idx = self.idx + 1;
        }
        ops
    }

    /// Ends the run: the open partition gets its foot, then the index gets
    /// its own. No partition is opened.
    pub fn finish(&self) -> (ops: Vec<FileOp>)
        ensures
            views(ops@) == self@.finish_ops(),
    {
        let mut ops: Vec<FileOp> = Vec::new();
        ops.push(
            FileOp::Append {
                name: partition_file_name(self.file_idx),
                text: String::from_str(URLSET_FOOT),
            },
        );
        let mut foot = self.indexer.finish();
        proof {
            lemma_views_concat(ops@, foot@);
            assert(views(ops@) =~= seq![
                FileOpView::Append { name: partition_name(self@.partition), text: URLSET_FOOT@ },
            ]);
        }
        ops.append(&mut foot);
        ops
    }

    /// Forces what was written to the open partition and to the index to
    /// durable storage. Nothing is closed.
    pub fn flush(&self) -> (ops: Vec<FileOp>)
        ensures
            views(ops@) == self@.flush_ops(),
    {
        let mut ops: Vec<FileOp> = Vec::new();
        ops.push(FileOp::Flush { name: partition_file_name(self.file_idx) });
        let mut index = self.indexer.flush();
        proof {
            lemma_views_concat(ops@, index@);
            assert(views(ops@) =~= seq![
                FileOpView::Flush { name: partition_name(self@.partition) },
            ]);
        }
        ops.append(&mut index);
        ops
    }

    /// Index of the partition that is open.
    pub fn partition_index(&self) -> (index: u32)
        ensures
            index == self@.partition,
    {
        self.file_idx
    }

    /// Number of entries written to the open partition.
    pub fn entries_in_partition(&self) -> (count: u32)
        ensures
            count == self@.count,
    {
        self.idx
    }

    /// The configured maximum of entries per partition.
    pub fn max_entries(&self) -> (max: u32)
        ensures
            max == self@.max,
    {
        self.max
    }
}

} // verus!
