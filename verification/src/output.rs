//! The instructions that the library hands to whoever owns the file system.
//!
//! A writer never touches a file. Each of its operations returns the
//! instructions to perform, in order; the caller performs them and aborts the
//! run at the first one that fails.

use vstd::prelude::*;

verus! {

/// One instruction on a named file.
#[derive(Debug, Clone, PartialEq, Eq)]
pub enum FileOp {
    /// Opens `name` for appending and creates it if it does not exist.
    Create { name: String },
    /// Appends `text` to the end of `name`.
    Append { name: String, text: String },
    /// Forces what was appended to `name` so far to durable storage.
    Flush { name: String },
    /// Closes `name`; nothing is appended to it afterwards.
    Close { name: String },
    /// Writes `name` in one piece: afterwards it holds `text` and nothing else.
    Store { name: String, text: String },
}

/// What a [`FileOp`] says, with its strings as character sequences.
pub enum FileOpView {
    Create { name: Seq<char> },
    Append { name: Seq<char>, text: Seq<char> },
    Flush { name: Seq<char> },
    Close { name: Seq<char> },
    Store { name: Seq<char>, text: Seq<char> },
}

impl View for FileOp {
    type V = FileOpView;

    open spec fn view(&self) -> FileOpView {
        match *self {
            FileOp::Create { name } => FileOpView::Create { name: name@ },
            FileOp::Append { name, text } => FileOpView::Append { name: name@, text: text@ },
            FileOp::Flush { name } => FileOpView::Flush { name: name@ },
            FileOp::Close { name } => FileOpView::Close { name: name@ },
            FileOp::Store { name, text } => FileOpView::Store { name: name@, text: text@ },
        }
    }
}

impl FileOpView {
    /// The file that the instruction names.
    pub open spec fn name(self) -> Seq<char> {
        match self {
            FileOpView::Create { name } => name,
            FileOpView::Append { name, .. } => name,
            FileOpView::Flush { name } => name,
            FileOpView::Close { name } => name,
            FileOpView::Store { name, .. } => name,
        }
    }
}

/// Whether `ops` leaves every file alone that it has closed: no instruction
/// names a file that an earlier instruction closed.
pub open spec fn closed_files_rest(ops: Seq<FileOpView>) -> bool {
    forall|i: int, j: int|
        0 <= i < j < ops.len() && (#[trigger] ops[i]) is Close ==> (#[trigger] ops[j]).name()
            != ops[i].name()
}

/// The instructions of a list, each by its view, in the list's order.
pub open spec fn views(ops: Seq<FileOp>) -> Seq<FileOpView> {
    ops.map_values(|op: FileOp| op@)
}

/// `views` of two lists, one after the other.
pub proof fn lemma_views_concat(a: Seq<FileOp>, b: Seq<FileOp>)
    ensures
        views(a + b) == views(a) + views(b),
{
    assert(views(a + b) =~= views(a) + views(b));
}

/// The names of the files that `ops` creates, in the order of their creation.
pub open spec fn created(ops: Seq<FileOpView>) -> Seq<Seq<char>>
    decreases ops.len(),
{
    if ops.len() == 0 {
        Seq::empty()
    } else {
        match ops.last() {
            FileOpView::Create { name } => created(ops.drop_last()).push(name),
            _ => created(ops.drop_last()),
        }
    }
}

/// The texts that `ops` appends to `file`, in the order of their appending.
pub open spec fn appended(ops: Seq<FileOpView>, file: Seq<char>) -> Seq<Seq<char>>
    decreases ops.len(),
{
    if ops.len() == 0 {
        Seq::empty()
    } else {
        match ops.last() {
            FileOpView::Append { name, text } if name == file => appended(
                ops.drop_last(),
                file,
            ).push(text),
            _ => appended(ops.drop_last(), file),
        }
    }
}

/// The files that `ops` writes in one piece, each with its text, in the
/// order of their writing.
pub open spec fn stored(ops: Seq<FileOpView>) -> Seq<(Seq<char>, Seq<char>)>
    decreases ops.len(),
{
    if ops.len() == 0 {
        Seq::empty()
    } else {
        match ops.last() {
            FileOpView::Store { name, text } => stored(ops.drop_last()).push((name, text)),
            _ => stored(ops.drop_last()),
        }
    }
}

/// What a list creates once one more instruction stands at its end.
pub proof fn lemma_created_push(ops: Seq<FileOpView>, op: FileOpView)
    ensures
        created(ops.push(op)) == match op {
            FileOpView::Create { name } => created(ops).push(name),
            _ => created(ops),
        },
{
    assert(ops.push(op).drop_last() =~= ops);
}

/// What a list appends to a file once one more instruction stands at its
/// end.
pub proof fn lemma_appended_push(ops: Seq<FileOpView>, op: FileOpView, file: Seq<char>)
    ensures
        appended(ops.push(op), file) == match op {
            FileOpView::Append { name, text } if name == file => appended(ops, file).push(text),
            _ => appended(ops, file),
        },
{
    assert(ops.push(op).drop_last() =~= ops);
}

/// What a list stores once one more instruction stands at its end.
pub proof fn lemma_stored_push(ops: Seq<FileOpView>, op: FileOpView)
    ensures
        stored(ops.push(op)) == match op {
            FileOpView::Store { name, text } => stored(ops).push((name, text)),
            _ => stored(ops),
        },
{
    assert(ops.push(op).drop_last() =~= ops);
}

/// What two lists create is what the first creates, then what the second
/// creates.
pub proof fn lemma_created_concat(a: Seq<FileOpView>, b: Seq<FileOpView>)
    ensures
        created(a + b) == created(a) + created(b),
    decreases b.len(),
{
    if b.len() == 0 {
        assert(a + b =~= a);
        assert(created(a) + created(b) =~= created(a));
    } else {
        assert((a + b).drop_last() =~= a + b.drop_last());
        lemma_created_concat(a, b.drop_last());
        assert(created(a + b) =~= created(a) + created(b));
    }
}

/// What two lists append to a file is what the first appends, then what the
/// second appends.
pub proof fn lemma_appended_concat(a: Seq<FileOpView>, b: Seq<FileOpView>, file: Seq<char>)
    ensures
        appended(a + b, file) == appended(a, file) + appended(b, file),
    decreases b.len(),
{
    if b.len() == 0 {
        assert(a + b =~= a);
        assert(appended(a, file) + appended(b, file) =~= appended(a, file));
    } else {
        assert((a + b).drop_last() =~= a + b.drop_last());
        lemma_appended_concat(a, b.drop_last(), file);
        assert(appended(a + b, file) =~= appended(a, file) + appended(b, file));
    }
}

/// What two lists store is what the first stores, then what the second
/// stores.
pub proof fn lemma_stored_concat(a: Seq<FileOpView>, b: Seq<FileOpView>)
    ensures
        stored(a + b) == stored(a) + stored(b),
    decreases b.len(),
{
    if b.len() == 0 {
        assert(a + b =~= a);
        assert(stored(a) + stored(b) =~= stored(a));
    } else {
        assert((a + b).drop_last() =~= a + b.drop_last());
        lemma_stored_concat(a, b.drop_last());
        assert(stored(a + b) =~= stored(a) + stored(b));
    }
}

/// A list without a `Store` stores nothing.
pub proof fn lemma_stored_none(ops: Seq<FileOpView>)
    requires
        forall|i: int| 0 <= i < ops.len() ==> !((#[trigger] ops[i]) is Store),
    ensures
        stored(ops) == Seq::<(Seq<char>, Seq<char>)>::empty(),
    decreases ops.len(),
{
    if ops.len() > 0 {
        assert(!(ops[ops.len() - 1] is Store));
        assert forall|i: int| 0 <= i < ops.drop_last().len() implies !((
        #[trigger] ops.drop_last()[i]) is Store) by {
            assert(ops.drop_last()[i] == ops[i]);
        }
        lemma_stored_none(ops.drop_last());
    }
}

/// A list of nothing but `Store` creates no file and appends to none.
pub proof fn lemma_only_stores(ops: Seq<FileOpView>, file: Seq<char>)
    requires
        forall|i: int| 0 <= i < ops.len() ==> (#[trigger] ops[i]) is Store,
    ensures
        created(ops) == Seq::<Seq<char>>::empty(),
        appended(ops, file) == Seq::<Seq<char>>::empty(),
    decreases ops.len(),
{
    if ops.len() > 0 {
        assert(ops[ops.len() - 1] is Store);
        assert forall|i: int| 0 <= i < ops.drop_last().len() implies (
        #[trigger] ops.drop_last()[i]) is Store by {
            assert(ops.drop_last()[i] == ops[i]);
        }
        lemma_only_stores(ops.drop_last(), file);
    }
}

/// Two lists that each leave their closed files alone do so one after the
/// other, if the second names no file that the first closed.
pub proof fn lemma_closed_files_rest_concat(a: Seq<FileOpView>, b: Seq<FileOpView>)
    requires
        closed_files_rest(a),
        closed_files_rest(b),
        forall|i: int, j: int|
            0 <= i < a.len() && 0 <= j < b.len() && (#[trigger] a[i]) is Close ==> (
            #[trigger] b[j]).name() != a[i].name(),
    ensures
        closed_files_rest(a + b),
{
    let ops = a + b;
    assert forall|i: int, j: int|
        0 <= i < j < ops.len() && (#[trigger] ops[i]) is Close implies (#[trigger] ops[j]).name()
        != ops[i].name() by {
        if j < a.len() {
            assert(ops[i] == a[i] && ops[j] == a[j]);
        } else if i < a.len() {
            assert(ops[i] == a[i] && ops[j] == b[j - a.len()]);
        } else {
            assert(ops[i] == b[i - a.len()] && ops[j] == b[j - a.len()]);
        }
    }
}

} // verus!
