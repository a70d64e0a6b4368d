//! The driver of a run: keys that were seen are skipped, the URL of a new
//! key goes to both sinks.

use crate::indexnow::generator::{RequestGenerator, RequestGeneratorView};
use crate::indexnow::model::BatchError;
use crate::output::{lemma_views_concat, views, FileOp, FileOpView};
use crate::pipeline::dedup::DedupSet;
use crate::pipeline::query::{page_location, search_query, search_url};
use crate::sitemap::generator::{Generator, GeneratorView};
use vstd::prelude::*;
use vstd::string::StringExecFns;

verus! {

/// The item type of the catalog records that get search pages.
pub const LISTED_ITEM_TYPE: i32 = 1;

/// One catalog record, as far as the pipeline reads it.
#[derive(Debug, Clone, PartialEq, Eq)]
pub struct Record {
    pub item_type: i32,
    pub name: Option<String>,
    pub name_japanese: Option<String>,
}

/// A [`Record`] with its strings as character sequences.
pub struct RecordView {
    pub item_type: int,
    pub name: Option<Seq<char>>,
    pub name_japanese: Option<Seq<char>>,
}

impl View for Record {
    type V = RecordView;

    open spec fn view(&self) -> RecordView {
        RecordView {
            item_type: self.item_type as int,
            name: option_text(self.name),
            name_japanese: option_text(self.name_japanese),
        }
    }
}

/// The state of a [`Pipeline`].
pub struct PipelineView {
    /// The sitemap writer.
    pub sitemap: GeneratorView,
    /// The batch accumulator.
    pub batches: RequestGeneratorView,
    /// The location of the search page, without a query.
    pub base_url: Seq<char>,
}

impl PipelineView {
    /// Both sinks are well formed.
    pub open spec fn wf(self) -> bool {
        self.sitemap.wf() && self.batches.wf()
    }

    /// Neither sink runs out of file numbers with the next URL.
    pub open spec fn has_room(self) -> bool {
        &&& self.sitemap.fills() ==> self.sitemap.partition < u32::MAX
        &&& self.batches.overflows() ==> self.batches.batch < u32::MAX
    }

    /// Instructions of forwarding `url` under `key`, if every batch is
    /// written: none for a key that was seen, else those of the sitemap
    /// writer followed by those of the batch accumulator.
    pub open spec fn forward_ops(self, seen: Set<Seq<char>>, key: Seq<char>, url: Seq<char>) -> Seq<
        FileOpView,
    > {
        if seen.contains(key) {
            Seq::empty()
        } else {
            self.sitemap.write_ops(url) + self.batches.push_ops(url)
        }
    }

    /// The state after forwarding `url` under `key`, if every batch is
    /// written.
    pub open spec fn after_forward(self, seen: Set<Seq<char>>, key: Seq<char>, url: Seq<char>)
        -> PipelineView {
        if seen.contains(key) {
            self
        } else {
            PipelineView {
                sitemap: self.sitemap.after_write(),
                batches: self.batches.after_push(url),
                ..self
            }
        }
    }

    /// The URL of the search page for `keyword`.
    pub open spec fn search_page(self, keyword: Seq<char>, japanese: bool) -> Seq<char> {
        page_location(self.base_url, search_query(keyword, japanese))
    }

    /// Whether the name of a record, if it has one and it is new, can be
    /// forwarded without a sink running out of file numbers.
    pub open spec fn name_has_room(self, seen: Set<Seq<char>>, name: Option<Seq<char>>) -> bool {
        name matches Some(keyword) ==> seen.contains(keyword) || self.has_room()
    }

    /// Instructions for one name of a record: those of forwarding its search
    /// page under the name itself, none where the record lacks the name.
    pub open spec fn name_ops(self, seen: Set<Seq<char>>, name: Option<Seq<char>>, japanese: bool)
        -> Seq<FileOpView> {
        match name {
            Some(keyword) => self.forward_ops(seen, keyword, self.search_page(keyword, japanese)),
            None => Seq::empty(),
        }
    }

    /// The state after one name of a record.
    pub open spec fn after_name(self, seen: Set<Seq<char>>, name: Option<Seq<char>>, japanese: bool)
        -> PipelineView {
        match name {
            Some(keyword) => self.after_forward(seen, keyword, self.search_page(keyword, japanese)),
            None => self,
        }
    }

    /// Whether `record` can be processed without a sink running out of file
    /// numbers.
    pub open spec fn record_has_room(self, seen: Set<Seq<char>>, record: RecordView) -> bool {
        record.item_type == LISTED_ITEM_TYPE ==> {
            &&& self.name_has_room(seen, record.name)
            &&& self.after_name(seen, record.name, false).name_has_room(
                seen_after_name(seen, record.name),
                record.name_japanese,
            )
        }
    }

    /// Instructions of processing `record`, if every batch is written: none
    /// for a record of another item type, else those for its name followed
    /// by those for its Japanese name.
    pub open spec fn record_ops(self, seen: Set<Seq<char>>, record: RecordView) -> Seq<FileOpView> {
        if record.item_type == LISTED_ITEM_TYPE {
            self.name_ops(seen, record.name, false) + self.after_name(
                seen,
                record.name,
                false,
            ).name_ops(seen_after_name(seen, record.name), record.name_japanese, true)
        } else {
            Seq::empty()
        }
    }

    /// The state after processing `record`, if every batch is written.
    pub open spec fn after_record(self, seen: Set<Seq<char>>, record: RecordView) -> PipelineView {
        if record.item_type == LISTED_ITEM_TYPE {
            self.after_name(seen, record.name, false).after_name(
                seen_after_name(seen, record.name),
                record.name_japanese,
                true,
            )
        } else {
            self
        }
    }

    /// Whether forwarding `url` under `key` succeeds: it does for a key
    /// that was seen, and for a new key exactly if the push of `url` to the
    /// batches does.
    pub open spec fn forward_succeeds(self, seen: Set<Seq<char>>, key: Seq<char>, url: Seq<char>)
        -> bool {
        seen.contains(key) || self.batches.push_succeeds(url)
    }

    /// Whether one name of a record goes through: it does where the record
    /// lacks the name, else exactly if the forwarding of its search page
    /// under the name does.
    pub open spec fn name_succeeds(self, seen: Set<Seq<char>>, name: Option<Seq<char>>, japanese: bool)
        -> bool {
        match name {
            Some(keyword) => self.forward_succeeds(
                seen,
                keyword,
                self.search_page(keyword, japanese),
            ),
            None => true,
        }
    }

    /// Whether the processing of `record` succeeds: it does for a record of
    /// another item type, else exactly if its name goes through and then
    /// its Japanese name does.
    pub open spec fn record_succeeds(self, seen: Set<Seq<char>>, record: RecordView) -> bool {
        record.item_type == LISTED_ITEM_TYPE ==> {
            &&& self.name_succeeds(seen, record.name, false)
            &&& self.after_name(seen, record.name, false).name_succeeds(
                seen_after_name(seen, record.name),
                record.name_japanese,
                true,
            )
        }
    }

    /// The state after a batch could not be written: the sitemap writer has
    /// written its entry, the accumulator has lost what it held.
    pub open spec fn after_interruption(self) -> PipelineView {
        PipelineView {
            sitemap: self.sitemap.after_write(),
            batches: self.batches.drained(),
            ..self
        }
    }

    /// The instructions that stand before the batch whose writing failed
    /// while `name` was forwarded: those of the sitemap writer for the
    /// name's search page.
    pub open spec fn interrupted_name_ops(self, name: Option<Seq<char>>, japanese: bool) -> Seq<
        FileOpView,
    > {
        match name {
            Some(keyword) => self.sitemap.write_ops(self.search_page(keyword, japanese)),
            None => Seq::empty(),
        }
    }

    /// Instructions that end a run: the sitemap is ended and flushed, then
    /// what is buffered is written as the last batch.
    pub open spec fn finish_ops(self) -> Seq<FileOpView> {
        self.sitemap.finish_ops() + self.sitemap.flush_ops() + self.batches.finish_ops()
    }
}

/// The keys seen after one name of a record came by.
pub open spec fn seen_after_name(seen: Set<Seq<char>>, name: Option<Seq<char>>) -> Set<Seq<char>> {
    match name {
        Some(keyword) => seen_after(seen, keyword),
        None => seen,
    }
}

/// The keys seen after `record` was processed.
pub open spec fn seen_after_record(seen: Set<Seq<char>>, record: RecordView) -> Set<Seq<char>> {
    if record.item_type == LISTED_ITEM_TYPE {
        seen_after_name(seen_after_name(seen, record.name), record.name_japanese)
    } else {
        seen
    }
}

/// The keys seen after `key` came by.
pub open spec fn seen_after(seen: Set<Seq<char>>, key: Seq<char>) -> Set<Seq<char>> {
    seen.insert(key)
}

/// A run that stopped because a batch could not be written.
#[derive(Debug, Clone, PartialEq, Eq)]
pub struct Interrupted {
    /// The instructions that stand before the batch that failed. They are
    /// still to be carried out: they tell what the sitemap writer did.
    pub ops: Vec<FileOp>,
    /// Why the batch could not be written.
    pub cause: BatchError,
}

/// The two sinks of a run and what the search pages' URLs start with.
pub struct Pipeline {
    sitemap: Generator,
    batches: RequestGenerator,
    base_url: String,
}

impl View for Pipeline {
    type V = PipelineView;

    closed spec fn view(&self) -> PipelineView {
        PipelineView { sitemap: self.sitemap@, batches: self.batches@, base_url: self.base_url@ }
    }
}

impl Pipeline {
    /// A pipeline over two sinks that were started by the caller.
    pub fn new(sitemap: Generator, batches: RequestGenerator, base_url: &str) -> (pipeline: Pipeline)
        ensures
            pipeline@ == (PipelineView {
                sitemap: sitemap@,
                batches: batches@,
                base_url: base_url@,
            }),
    {
        Pipeline { sitemap, batches, base_url: String::from_str(base_url) }
    }

    /// The sitemap writer.
    pub fn sitemap(&self) -> (sitemap: &Generator)
        ensures
            sitemap@ == self@.sitemap,
    {
        &self.sitemap
    }

    /// The batch accumulator.
    pub fn batches(&self) -> (batches: &RequestGenerator)
        ensures
            batches@ == self@.batches,
    {
        &self.batches
    }

    /// Forwards `url` under `key`. A key that was seen changes nothing and
    /// writes nothing. A new key has its URL written to the sitemap, then
    /// pushed to the batches, and is then marked as seen. Only the writing
    /// of a batch can fail, exactly if the JSON encoder refuses a string of
    /// the submission: the key then stays unseen, and the error hands out
    /// what the sitemap writer had done.
    pub fn forward(&mut self, seen: &mut DedupSet, key: &str, url: &str) -> (r: Result<
        Vec<FileOp>,
        Interrupted,
    >)
        requires
            old(self)@.wf(),
            old(seen)@.contains(key@) || old(self)@.has_room(),
        ensures
            final(self)@.wf(),
            r is Ok <==> old(self)@.forward_succeeds(old(seen)@, key@, url@),
            match r {
                Ok(ops) => {
                    &&& final(self)@ == old(self)@.after_forward(old(seen)@, key@, url@)
                    &&& final(seen)@ == seen_after(old(seen)@, key@)
                    &&& views(ops@) == old(self)@.forward_ops(old(seen)@, key@, url@)
                },
                Err(stop) => {
                    &&& final(seen)@ == old(seen)@
                    &&& final(self)@ == old(self)@.after_interruption()
                    &&& views(stop.ops@) == old(self)@.sitemap.write_ops(url@)
                },
            },
    {
        if seen.contains(key) {
            let ops: Vec<FileOp> = Vec::new();
            assert(views(ops@) =~= Seq::<FileOpView>::empty());
            assert(seen@.insert(key@) =~= seen@);
            return Ok(ops);
        }
        let mut ops = self.sitemap.write(String::from_str(url));
        match self.batches.push(url) {
            Ok(batch) => {
                let mut batch = batch;
                proof {
                    lemma_views_concat(ops@, batch@);
                }
                ops.append(&mut batch);
                seen.insert(key);
                Ok(ops)
            },
            Err(cause) => Err(Interrupted { ops, cause }),
        }
    }

    /// One name of a record: if the record has it and it is new, its search
    /// page is forwarded under the name itself.
    fn submit(&mut self, seen: &mut DedupSet, name: &Option<String>, japanese: bool) -> (r: Result<
        Vec<FileOp>,
        Interrupted,
    >)
        requires
            old(self)@.wf(),
            old(self)@.name_has_room(old(seen)@, option_text(*name)),
        ensures
            final(self)@.wf(),
            r is Ok <==> old(self)@.name_succeeds(old(seen)@, option_text(*name), japanese),
            match r {
                Ok(ops) => {
                    &&& final(self)@ == old(self)@.after_name(
                        old(seen)@,
                        option_text(*name),
                        japanese,
                    )
                    &&& final(seen)@ == seen_after_name(old(seen)@, option_text(*name))
                    &&& views(ops@) == old(self)@.name_ops(old(seen)@, option_text(*name), japanese)
                },
                Err(stop) => {
                    &&& final(seen)@ == old(seen)@
                    &&& final(self)@ == old(self)@.after_interruption()
                    &&& views(stop.ops@) == old(self)@.interrupted_name_ops(
                        option_text(*name),
                        japanese,
                    )
                },
            },
    {
        match name {
            Some(keyword) => {
                if seen.contains(keyword.as_str()) {
                    let ops: Vec<FileOp> = Vec::new();
                    assert(views(ops@) =~= Seq::<FileOpView>::empty());
                    assert(seen@.insert(keyword@) =~= seen@);
                    Ok(ops)
                } else {
                    let url = search_url(self.base_url.as_str(), keyword.as_str(), japanese);
                    self.forward(seen, keyword.as_str(), url.as_str())
                }
            },
            None => {
                let ops: Vec<FileOp> = Vec::new();
                assert(views(ops@) =~= Seq::<FileOpView>::empty());
                Ok(ops)
            },
        }
    }

    /// Processes one catalog record. A record of another item type than
    /// [`LISTED_ITEM_TYPE`] is passed over. Else its name, then its Japanese
    /// name, each if present and new, has its search page forwarded; the
    /// Japanese page says so in its query. Only the writing of a batch can
    /// fail, exactly if the JSON encoder refuses a string of the submission:
    /// the record is then abandoned at the name where it failed, and the
    /// error hands out the instructions up to there.
    pub fn process(&mut self, seen: &mut DedupSet, record: &Record) -> (r: Result<
        Vec<FileOp>,
        Interrupted,
    >)
        requires
            old(self)@.wf(),
            old(self)@.record_has_room(old(seen)@, record@),
        ensures
            final(self)@.wf(),
            r is Ok <==> old(self)@.record_succeeds(old(seen)@, record@),
            match r {
                Ok(ops) => {
                    &&& final(self)@ == old(self)@.after_record(old(seen)@, record@)
                    &&& final(seen)@ == seen_after_record(old(seen)@, record@)
                    &&& views(ops@) == old(self)@.record_ops(old(seen)@, record@)
                },
                Err(stop) => if !old(self)@.name_succeeds(old(seen)@, record@.name, false) {
                    &&& final(seen)@ == old(seen)@
                    &&& final(self)@ == old(self)@.after_interruption()
                    &&& views(stop.ops@) == old(self)@.interrupted_name_ops(record@.name, false)
                } else {
                    let between = old(self)@.after_name(old(seen)@, record@.name, false);
                    &&& final(seen)@ == seen_after_name(old(seen)@, record@.name)
                    &&& final(self)@ == between.after_interruption()
                    &&& views(stop.ops@) == old(self)@.name_ops(old(seen)@, record@.name, false)
                        + between.interrupted_name_ops(record@.name_japanese, true)
                },
            },
    {
        if record.item_type != LISTED_ITEM_TYPE {
            let ops: Vec<FileOp> = Vec::new();
            assert(views(ops@) =~= Seq::<FileOpView>::empty());
            return Ok(ops);
        }
        let mut ops = match self.submit(seen, &record.name, false) {
            Ok(ops) => ops,
            Err(stop) => {
                return Err(stop);
            },
        };
        match self.submit(seen, &record.name_japanese, true) {
            Ok(more) => {
                let mut more = more;
                proof {
                    lemma_views_concat(ops@, more@);
                }
                ops.append(&mut more);
                Ok(ops)
            },
            Err(stop) => {
                let mut rest = stop.ops;
                proof {
                    lemma_views_concat(ops@, rest@);
                }
                ops.append(&mut rest);
                Err(Interrupted { ops, cause: stop.cause })
            },
        }
    }

    /// Ends the run: the sitemap is ended and flushed, then what the batch
    /// accumulator holds is written as the last batch. That batch cannot be
    /// written exactly if the JSON encoder refuses a string of it, and the
    /// error then hands out the instructions for the sitemap.
    pub fn finish(&mut self) -> (r: Result<Vec<FileOp>, Interrupted>)
        ensures
            final(self)@ == (PipelineView { batches: old(self)@.batches.drained(), ..old(self)@ }),
            r is Ok <==> old(self)@.batches.finish_succeeds(),
            match r {
                Ok(ops) => views(ops@) == old(self)@.finish_ops(),
                Err(stop) => views(stop.ops@) == old(self)@.sitemap.finish_ops() + old(
                    self,
                )@.sitemap.flush_ops(),
            },
    {
        let mut ops = self.sitemap.finish();
        let mut flush = self.sitemap.flush();
        proof {
            lemma_views_concat(ops@, flush@);
        }
        ops.append(&mut flush);
        match self.batches.finish() {
            Ok(batch) => {
                let mut batch = batch;
                proof {
                    lemma_views_concat(ops@, batch@);
                }
                ops.append(&mut batch);
                Ok(ops)
            },
            Err(cause) => Err(Interrupted { ops, cause }),
        }
    }
}

/// The text of an optional string.
pub open spec fn option_text(text: Option<String>) -> Option<Seq<char>> {
    match text {
        Some(text) => Some(text@),
        None => None,
    }
}

} // verus!
