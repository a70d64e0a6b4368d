//! The batch accumulator: URLs are buffered in memory, and a full buffer is
//! written out as one submission document in a numbered file.

use crate::indexnow::model::{BatchError, Request, RequestView};
use crate::output::{views, FileOp, FileOpView};
use crate::text::{decimal, render_decimal, texts};
use vstd::prelude::*;
use vstd::string::StringExecFns;

verus! {

/// What every batch file's name starts with.
pub const BATCH_PREFIX: &'static str = "indexnow";

/// What every batch file's name ends with.
pub const BATCH_SUFFIX: &'static str = ".json";

/// The name of the batch file with the given index.
pub open spec fn batch_name(index: nat) -> Seq<char> {
    BATCH_PREFIX@ + decimal(index) + BATCH_SUFFIX@
}

/// The state of a [`RequestGenerator`].
pub struct RequestGeneratorView {
    /// Who submits.
    pub host: Seq<char>,
    /// The key that proves it.
    pub key: Seq<char>,
    /// Where the key can be fetched.
    pub key_location: Seq<char>,
    /// The threshold: a buffer that holds more than `max` URLs is written out.
    pub max: nat,
    /// Index of the batch file that is written next.
    pub batch: nat,
    /// The URLs that wait for the next batch, oldest first.
    pub buffer: Seq<Seq<char>>,
}

impl RequestGeneratorView {
    /// The buffer never holds more than `max` URLs between two calls.
    pub open spec fn wf(self) -> bool {
        self.buffer.len() <= self.max
    }

    /// The state in which an accumulator starts.
    pub open spec fn initial(
        max: nat,
        host: Seq<char>,
        key: Seq<char>,
        key_location: Seq<char>,
    ) -> RequestGeneratorView {
        RequestGeneratorView { host, key, key_location, max, batch: 0, buffer: Seq::empty() }
    }

    /// Whether one more URL brings the buffer over the threshold.
    pub open spec fn overflows(self) -> bool {
        self.buffer.len() + 1 > self.max
    }

    /// The submission that holds `urls`.
    pub open spec fn request(self, urls: Seq<Seq<char>>) -> RequestView {
        RequestView {
            host: self.host,
            key: self.key,
            key_location: self.key_location,
            url_list: urls,
        }
    }

    /// The instruction that writes `urls` out as the next batch file.
    pub open spec fn store_ops(self, urls: Seq<Seq<char>>) -> Seq<FileOpView> {
        seq![FileOpView::Store { name: batch_name(self.batch), text: self.request(urls).json() }]
    }

    /// Whether a `push` of `url` succeeds: it does where no batch is due,
    /// and where one is due, exactly if the JSON encoder accepts every
    /// string of the submission that holds the buffer and `url`.
    pub open spec fn push_succeeds(self, url: Seq<char>) -> bool {
        !self.overflows() || self.request(self.buffer.push(url)).encodable()
    }

    /// Whether `finish` succeeds: exactly if the JSON encoder accepts every
    /// string of the submission that holds the buffer.
    pub open spec fn finish_succeeds(self) -> bool {
        self.request(self.buffer).encodable()
    }

    /// Instructions of one `push` that succeeds.
    pub open spec fn push_ops(self, url: Seq<char>) -> Seq<FileOpView> {
        if self.overflows() {
            self.store_ops(self.buffer.push(url))
        } else {
            Seq::empty()
        }
    }

    /// The state after one `push` that succeeds.
    pub open spec fn after_push(self, url: Seq<char>) -> RequestGeneratorView {
        if self.overflows() {
            RequestGeneratorView { batch: self.batch + 1, buffer: Seq::empty(), ..self }
        } else {
            RequestGeneratorView { buffer: self.buffer.push(url), ..self }
        }
    }

    /// The state once the buffer was taken to be written out, whether or not
    /// the writing succeeded: the buffer is empty, the rest is as it was.
    pub open spec fn drained(self) -> RequestGeneratorView {
        RequestGeneratorView { buffer: Seq::empty(), ..self }
    }

    /// Instructions of a `finish` that succeeds: what is buffered becomes
    /// one last batch, also when nothing is buffered.
    pub open spec fn finish_ops(self) -> Seq<FileOpView> {
        self.store_ops(self.buffer)
    }
}

/// The batch accumulator.
pub struct RequestGenerator {
    file_idx: u32,
    max: u32,
    host: String,
    key: String,
    key_location: String,
    buffer: Vec<String>,
}

impl View for RequestGenerator {
    type V = RequestGeneratorView;

    closed spec fn view(&self) -> RequestGeneratorView {
        RequestGeneratorView {
            host: self.host@,
            key: self.key@,
            key_location: self.key_location@,
            max: self.max as nat,
            batch: self.file_idx as nat,
            buffer: texts(self.buffer@),
        }
    }
}

/// The name of the batch file `index`.
pub fn batch_file_name(index: u32) -> (name: String)
    ensures
        name@ == batch_name(index as nat),
{
    let mut name = String::from_str(BATCH_PREFIX);
    let digits = render_decimal(index);
    name.append(digits.as_str());
    name.append(BATCH_SUFFIX);
    name
}

impl RequestGenerator {
    /// Starts an accumulator with an empty buffer and batch index 0. A buffer
    /// is written out when it holds more than `max` URLs, so a batch written
    /// by `push` holds `max + 1` of them.
    pub fn new(max: u32, host: &str, key: &str, key_location: &str) -> (r: Self)
        ensures
            r@ == RequestGeneratorView::initial(max as nat, host@, key@, key_location@),
            r@.wf(),
    {
        let r = RequestGenerator {
            file_idx: 0,
            max,
            host: String::from_str(host),
            key: String::from_str(key),
            key_location: String::from_str(key_location),
            buffer: Vec::new(),
        };
        assert(texts(r.buffer@) =~= Seq::<Seq<char>>::empty());
        r
    }

    /// Takes the buffer and writes it out as the batch file of the current
    /// index. The buffer is empty afterwards, whatever the outcome. It fails
    /// exactly if the JSON encoder refuses a string of the submission.
    fn write(&mut self) -> (r: Result<Vec<FileOp>, BatchError>)
        ensures
            final(self)@ == old(self)@.drained(),
            r is Ok <==> old(self)@.request(old(self)@.buffer).encodable(),
            r matches Ok(ops) ==> views(ops@) == old(self)@.store_ops(old(self)@.buffer),
    {
        let mut taken: Vec<String> = Vec::new();
        core::mem::swap(&mut self.buffer, &mut taken);
        assert(texts(self.buffer@) =~= Seq::<Seq<char>>::empty());
        let request = Request {
            host: self.host.clone(),
            key: self.key.clone(),
            key_location: self.key_location.clone(),
            url_list: taken,
        };
        assert(request@.url_list =~= old(self)@.buffer);
        assert(request@ == old(self)@.request(old(self)@.buffer));
        let name = batch_file_name(self.file_idx);
        match request.to_json() {
            Ok(text) => {
                let mut ops: Vec<FileOp> = Vec::new();
                ops.push(FileOp::Store { name, text });
                assert(views(ops@) =~= old(self)@.store_ops(old(self)@.buffer));
                Ok(ops)
            },
            Err(error) => Err(error),
        }
    }

    /// Buffers `src`. If the buffer then holds more than `max` URLs, it is
    /// written out as one batch, the buffer starts anew and the batch index
    /// advances. Only the writing of a batch can fail, and it fails exactly
    /// if the JSON encoder refuses a string of the submission; the buffered
    /// URLs are then dropped and the batch index stays.
    pub fn push(&mut self, src: &str) -> (r: Result<Vec<FileOp>, BatchError>)
        requires
            old(self)@.wf(),
            old(self)@.overflows() ==> old(self)@.batch < u32::MAX,
        ensures
            final(self)@.wf(),
            r is Ok <==> old(self)@.push_succeeds(src@),
            match r {
                Ok(ops) => final(self)@ == old(self)@.after_push(src@) && views(ops@) == old(
                    self,
                )@.push_ops(src@),
                Err(_) => final(self)@ == old(self)@.drained(),
            },
    {
        let ghost before = self@;
        self.buffer.push(String::from_str(src));
        assert(texts(self.buffer@) =~= before.buffer.push(src@));
        if self.buffer.len() > self.max as usize {
            match self.write() {
                Ok(ops) => {
                    self.file_idx = self.file_idx + 1;
                    Ok(ops)
                },
                Err(error) => Err(error),
            }
        } else {
            let ops: Vec<FileOp> = Vec::new();
            assert(views(ops@) =~= Seq::<FileOpView>::empty());
            Ok(ops)
        }
    }

    /// Writes out what is buffered as one last batch, also when nothing is
    /// buffered. The batch index stays. It fails exactly if the JSON encoder
    /// refuses a string of the submission.
    pub fn finish(&mut self) -> (r: Result<Vec<FileOp>, BatchError>)
        ensures
            final(self)@ == old(self)@.drained(),
            r is Ok <==> old(self)@.finish_succeeds(),
            r matches Ok(ops) ==> views(ops@) == old(self)@.finish_ops(),
    {
        self.write()
    }

    /// Index of the batch file that is written next.
    pub fn batch_index(&self) -> (index: u32)
        ensures
            index == self@.batch,
    {
        self.file_idx
    }

    /// Number of URLs that wait for the next batch.
    pub fn buffered(&self) -> (count: usize)
        ensures
            count == self@.buffer.len(),
    {
        self.buffer.len()
    }

    /// The configured threshold.
    pub fn max_entries(&self) -> (max: u32)
        ensures
            max == self@.max,
    {
        self.max
    }
}

} // verus!
