//! The streaming archiver: entries are opened and filled one after another,
//! as the bodies arrive, and the sealed archive is handed out as one byte
//! sequence.

use crate::error::ErrorKind;
use vstd::prelude::*;

verus! {

/// The permissions with which every entry is written.
pub const ENTRY_MODE: u32 = 0o755;

/// The longest name of an entry, in bytes: the ZIP format holds the length
/// of a name in sixteen bits.
pub const MAX_NAME_BYTES: usize = 65_535;

/// The name is one that the ZIP format can hold.
pub open spec fn name_fits(name: Seq<char>) -> bool {
    vstd::utf8::encode_utf8(name).len() <= MAX_NAME_BYTES
}

/// An in-memory ZIP writer: a `zip::ZipWriter` over a `std::io::Cursor`.
/// The writer's type is bounded by `std::io::Write` and `std::io::Seek`,
/// which Verus does not know, so it cannot be declared to Verus and is held
/// in this struct instead. What it holds is opaque; contracts speak of it
/// through [`writer_entries`]. Its destructor seals the archive where that
/// was not done, so it is left to run only on a writer that is whole or
/// was sealed.
#[verifier::external_body]
pub struct ZipSink {
    inner: zip::ZipWriter<std::io::Cursor<Vec<u8>>>,
}

/// `zip::result::ZipError`, the error of every call to the writer. Nothing
/// is read from it.
#[verifier::external_type_specification]
#[verifier::external_body]
pub struct ExZipError(zip::result::ZipError);

/// The entries that a writer holds: for each entry its name and the bytes
/// written into it so far, in the order in which the entries were started.
pub uninterp spec fn writer_entries(w: ZipSink) -> Seq<(Seq<char>, Seq<u8>)>;

/// Whether the writer is whole: no call on it has failed. A call that
/// fails may leave the writer half-way through closing an entry, and
/// closing that entry once more, which every further call and the
/// writer's destructor do, can then overflow. So a writer is only called
/// while it is whole, and one that is not is given up by
/// [`writer_discard`].
pub uninterp spec fn writer_whole(w: ZipSink) -> bool;

/// `zip::ZipWriter::new` over an empty in-memory cursor: the new writer
/// is whole and holds no entry.
#[verifier::external_body]
fn writer_new() -> (w: ZipSink)
    ensures
        writer_whole(w),
        writer_entries(w) == Seq::<(Seq<char>, Seq<u8>)>::empty(),
{
    ZipSink { inner: zip::ZipWriter::new(std::io::Cursor::new(Vec::new())) }
}

/// Whether a writer takes a new entry of this name: whether `start_file`
/// succeeds on it. That depends on the writer and the name alone: it
/// fails, among others, where the writer is closed or where the entry that
/// is thereby closed has grown beyond what an entry may hold. Neither the
/// permissions nor the clock, which only stamps the entry, decide anything
/// of it.
pub uninterp spec fn writer_takes_entry(w: ZipSink, name: Seq<char>) -> bool;

/// Whether a writer takes these bytes: whether `write_all` succeeds on it.
/// That depends on the writer and the bytes alone: it fails, among others,
/// where bytes come before any entry was started, where the entry would
/// grow beyond what an entry may hold, or where the writer is closed.
pub uninterp spec fn writer_takes_bytes(w: ZipSink, bytes: Seq<u8>) -> bool;

/// `zip::ZipWriter::start_file` with the crate's default options and the
/// permissions `mode`, on a writer that is whole. It succeeds exactly
/// where the writer takes the entry, and then the writer is whole and
/// holds one more entry, named `name` and empty; the earlier entries are
/// as they were. Nothing is claimed of the writer after a failure.
#[verifier::external_body]
fn writer_start_file(w: &mut ZipSink, name: &str, mode: u32) -> (res: Result<
    (),
    zip::result::ZipError,
>)
    requires
        writer_whole(*old(w)),
    ensures
        res is Ok <==> writer_takes_entry(*old(w), name@),
        res is Ok ==> writer_whole(*final(w)),
        res is Ok ==> writer_entries(*final(w)) == writer_entries(*old(w)).push(
            (name@, Seq::<u8>::empty()),
        ),
{
    let options = zip::write::FileOptions::default().unix_permissions(mode);
    w.inner.start_file(name, options)
}

/// `std::io::Write::write_all` on a writer that is whole. It succeeds
/// exactly where the writer takes the bytes, and the writer is whole
/// then. Bytes are taken only after an entry was started, and then the
/// last entry has grown by `bytes`; the earlier entries are as they were.
/// Writing no bytes at all always succeeds, without an entry too, and
/// changes nothing. Nothing is claimed of the writer after a failure.
#[verifier::external_body]
fn writer_write_all(w: &mut ZipSink, bytes: &[u8]) -> (res: Result<(), zip::result::ZipError>)
    requires
        writer_whole(*old(w)),
    ensures
        res is Ok <==> writer_takes_bytes(*old(w), bytes@),
        res is Ok ==> writer_whole(*final(w)),
        bytes@.len() == 0 ==> res is Ok,
        res is Ok ==> writer_entries(*final(w)) == with_chunk(writer_entries(*old(w)), bytes@),
        res is Ok && bytes@.len() > 0 ==> writer_entries(*old(w)).len() > 0,
{
    std::io::Write::write_all(&mut w.inner, bytes).map_err(zip::result::ZipError::Io)
}

/// What sealing a writer hands out: the bytes of the archive that the
/// writer has come to, or nothing where the writer cannot be sealed. It
/// is a function of the writer alone. The clock is read when an entry is
/// started, and what was read then is part of the writer; sealing reads
/// nothing but the writer. How the bytes encode the entries is the ZIP
/// format, which is not stated here.
pub uninterp spec fn writer_archive(w: ZipSink) -> Option<Seq<u8>>;

/// `zip::ZipWriter::finish` on a writer that is whole: closes the last
/// entry, writes the directory and hands out the bytes of the archive,
/// which are [`writer_archive`]. The writer is closed by it and takes
/// nothing more. Nothing is claimed of the writer after a failure.
#[verifier::external_body]
fn writer_finish(w: &mut ZipSink) -> (res: Result<Vec<u8>, zip::result::ZipError>)
    requires
        writer_whole(*old(w)),
    ensures
        res matches Ok(bytes) ==> writer_archive(*old(w)) == Some(bytes@),
        res is Err ==> writer_archive(*old(w)) is None,
{
    w.inner.finish().map(std::io::Cursor::into_inner)
}

/// `std::mem::forget` on a writer on which a call has failed. The writer
/// is given up without its destructor, which would close its last entry
/// once more. What the writer holds in memory is not handed back.
#[verifier::external_body]
fn writer_discard(w: ZipSink) {
    std::mem::forget(w)
}

/// The entries after `chunk` was written: the last entry has grown by it.
/// Where there is no entry, there is nothing to grow.
pub open spec fn with_chunk(entries: Seq<(Seq<char>, Seq<u8>)>, chunk: Seq<u8>) -> Seq<
    (Seq<char>, Seq<u8>),
> {
    if entries.len() > 0 {
        entries.update(entries.len() - 1, (entries.last().0, entries.last().1 + chunk))
    } else {
        entries
    }
}

/// The entries after every one of `chunks` was written, in their order.
pub open spec fn with_chunks(entries: Seq<(Seq<char>, Seq<u8>)>, chunks: Seq<Seq<u8>>) -> Seq<
    (Seq<char>, Seq<u8>),
>
    decreases chunks.len(),
{
    if chunks.len() == 0 {
        entries
    } else {
        with_chunk(with_chunks(entries, chunks.drop_last()), chunks.last())
    }
}

/// The names of the entries, in their order.
pub open spec fn entry_names(entries: Seq<(Seq<char>, Seq<u8>)>) -> Seq<Seq<char>> {
    entries.map_values(|e: (Seq<char>, Seq<u8>)| e.0)
}

/// A body as one byte sequence: its chunks, one after the other.
pub open spec fn body_of(chunks: Seq<Seq<u8>>) -> Seq<u8>
    decreases chunks.len(),
{
    if chunks.len() == 0 {
        Seq::empty()
    } else {
        body_of(chunks.drop_last()) + chunks.last()
    }
}

/// An entry that is opened for a key and then fed the chunks of a body
/// holds, under that key, the bytes of the body in the order in which they
/// arrived. The entries before it are untouched.
pub proof fn lemma_entry_holds_body(
    entries: Seq<(Seq<char>, Seq<u8>)>,
    key: Seq<char>,
    chunks: Seq<Seq<u8>>,
)
    ensures
        with_chunks(entries.push((key, Seq::empty())), chunks) == entries.push(
            (key, body_of(chunks)),
        ),
    decreases chunks.len(),
{
    let opened = entries.push((key, Seq::<u8>::empty()));
    if chunks.len() == 0 {
        assert(body_of(chunks) =~= Seq::<u8>::empty());
    } else {
        lemma_entry_holds_body(entries, key, chunks.drop_last());
        let before = entries.push((key, body_of(chunks.drop_last())));
        assert(with_chunk(before, chunks.last()) =~= entries.push((key, body_of(chunks))));
    }
}

/// A ZIP archive under construction. Once a call on it has failed, the
/// archive holds nothing and takes nothing more.
pub struct Archiver {
    writer: Option<ZipSink>,
}

impl Archiver {
    /// The writer, while there is one, is whole.
    #[verifier::type_invariant]
    spec fn whole(self) -> bool {
        self.writer matches Some(w) ==> writer_whole(w)
    }

    /// A call on the archive has failed.
    pub closed spec fn failed(&self) -> bool {
        self.writer is None
    }

    /// The entries written so far: names and bytes, in the order in which
    /// the entries were opened.
    pub closed spec fn entries(&self) -> Seq<(Seq<char>, Seq<u8>)> {
        match self.writer {
            Some(w) => writer_entries(w),
            None => Seq::empty(),
        }
    }

    /// Whether the archive takes a new entry named by `key`.
    pub closed spec fn takes_entry(&self, key: Seq<char>) -> bool {
        self.writer matches Some(w) && writer_takes_entry(w, key)
    }

    /// Whether the archive takes `chunk` into the entry that was opened
    /// last.
    pub closed spec fn takes_bytes(&self, chunk: Seq<u8>) -> bool {
        self.writer matches Some(w) && writer_takes_bytes(w, chunk)
    }

    /// The bytes that sealing hands out, or nothing where the archive
    /// cannot be sealed.
    pub closed spec fn sealed(&self) -> Option<Seq<u8>> {
        match self.writer {
            Some(w) => writer_archive(w),
            None => None,
        }
    }

    /// An archive on which a call has failed holds nothing, takes
    /// nothing and cannot be sealed.
    pub proof fn lemma_failed(&self)
        requires
            self.failed(),
        ensures
            self.entries() == Seq::<(Seq<char>, Seq<u8>)>::empty(),
            forall|key: Seq<char>| !#[trigger] self.takes_entry(key),
            forall|chunk: Seq<u8>| !#[trigger] self.takes_bytes(chunk),
            self.sealed() is None,
    {
    }

    /// An archive without entries.
    pub fn new() -> (archiver: Archiver)
        ensures
            !archiver.failed(),
            archiver.entries() == Seq::<(Seq<char>, Seq<u8>)>::empty(),
    {
        Archiver { writer: Some(writer_new()) }
    }

    /// Whether a call on the archive has failed.
    pub fn has_failed(&self) -> (failed: bool)
        ensures
            failed == self.failed(),
    {
        self.writer.is_none()
    }

    /// Opens an entry named by `key`; what is written next goes into it.
    /// The entry before it, if there is one, is thereby closed. A name
    /// that the format cannot hold is refused, and nothing changes. Where
    /// the archive does not take the entry, the archive has failed.
    pub fn begin_entry(&mut self, key: &str) -> (res: Result<(), ErrorKind>)
        ensures
            res is Ok <==> name_fits(key@) && old(self).takes_entry(key@),
            res is Ok ==> !final(self).failed() && final(self).entries() == old(
                self,
            ).entries().push((key@, Seq::<u8>::empty())),
            !name_fits(key@) ==> *final(self) == *old(self),
            res is Err && name_fits(key@) ==> final(self).failed(),
            res matches Err(kind) ==> kind == ErrorKind::InternalError,
    {
        proof {
            use_type_invariant(&*self);
        }
        if key.as_bytes().len() > MAX_NAME_BYTES {
            return Err(ErrorKind::InternalError);
        }
        let mut held: Option<ZipSink> = None;
        std::mem::swap(&mut held, &mut self.writer);
        match held {
            Some(writer) => {
                let mut writer = writer;
                let res = archive_result(writer_start_file(&mut writer, key, ENTRY_MODE));
                self.keep_if_ok(writer, &res);
                res
            },
            None => Err(ErrorKind::InternalError),
        }
    }

    /// Writes one chunk of a body into the entry that was opened last.
    /// Bytes for which no entry was opened are refused; a chunk without
    /// bytes is taken by every archive that has not failed. Where the
    /// archive does not take the chunk, the archive has failed.
    pub fn write(&mut self, chunk: &[u8]) -> (res: Result<(), ErrorKind>)
        ensures
            res is Ok <==> old(self).takes_bytes(chunk@),
            !old(self).failed() && chunk@.len() == 0 ==> res is Ok,
            res is Ok ==> !final(self).failed() && final(self).entries() == with_chunk(
                old(self).entries(),
                chunk@,
            ),
            res is Ok && chunk@.len() > 0 ==> old(self).entries().len() > 0,
            res is Err ==> final(self).failed(),
            res matches Err(kind) ==> kind == ErrorKind::InternalError,
    {
        proof {
            use_type_invariant(&*self);
        }
        let mut held: Option<ZipSink> = None;
        std::mem::swap(&mut held, &mut self.writer);
        match held {
            Some(writer) => {
                let mut writer = writer;
                let res = archive_result(writer_write_all(&mut writer, chunk));
                self.keep_if_ok(writer, &res);
                res
            },
            None => Err(ErrorKind::InternalError),
        }
    }

    /// Takes the writer back after a call that went well, and gives it up
    /// after one that failed.
    fn keep_if_ok(&mut self, writer: ZipSink, res: &Result<(), ErrorKind>)
        requires
            old(self).writer is None,
            res is Ok ==> writer_whole(writer),
        ensures
            res is Ok ==> final(self).writer == Some(writer),
            res is Err ==> final(self).writer is None,
    {
        match res {
            Ok(_) => {
                self.writer = Some(writer);
            },
            Err(_) => {
                writer_discard(writer);
            },
        }
    }

    /// Seals the archive and hands out its bytes: the last entry is
    /// closed and the directory of the entries is written behind them.
    /// What comes out is the archive that the writer has come to, and an
    /// archive that cannot be sealed is an internal error.
    pub fn seal(self) -> (res: Result<Vec<u8>, ErrorKind>)
        ensures
            res matches Ok(bytes) ==> self.sealed() == Some(bytes@),
            res is Err ==> self.sealed() is None,
            res matches Err(kind) ==> kind == ErrorKind::InternalError,
    {
        proof {
            use_type_invariant(&self);
        }
        match self.writer {
            Some(writer) => {
                let mut writer = writer;
                let res = archive_result(writer_finish(&mut writer));
                if res.is_err() {
                    writer_discard(writer);
                }
                res
            },
            None => Err(ErrorKind::InternalError),
        }
    }
}

/// The failure of an archive call is an internal error, whatever the
/// writer said of it; its success is passed on.
pub fn archive_result<T>(res: Result<T, zip::result::ZipError>) -> (out: Result<T, ErrorKind>)
    ensures
        res is Ok <==> out is Ok,
        res matches Ok(v) ==> out == Ok::<T, ErrorKind>(v),
        res is Err ==> out == Err::<T, ErrorKind>(ErrorKind::InternalError),
{
    match res {
        Ok(v) => Ok(v),
        Err(_) => Err(ErrorKind::InternalError),
    }
}

} // verus!
