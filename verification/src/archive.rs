//! The archive writer: it serializes the planned entries into a single
//! zip container held in memory — one stored (uncompressed) entry per file
//! with its exact bytes, one record per empty directory — and finalizes the
//! container before handing the bytes back. Any write failure aborts the
//! whole build; no partial container is ever returned as success.

use vstd::prelude::*;

use vstd::utf8::encode_utf8;

verus! {

/// The engine's failure kinds. None is surfaced to the host's UI layer as a
/// structured value; callers log and move on.
#[derive(Clone, Copy, PartialEq, Eq, Structural, Debug)]
pub enum BackupError {
    /// An entry vanished or was unreadable during the walk.
    SourceUnreadable,
    /// The archive file could not be created in the destination folder.
    DestinationUnwritable,
    /// An I/O error interrupted archive construction.
    ArchiveWriteFailure,
    /// A prune candidate could not be removed.
    DeletionFailure,
}

/// One record to be written into the archive: a file with its full byte
/// content, or (`content == None`) an explicit empty-directory record. The
/// path is relative to the source root, forward-slash separated.
pub struct ArchiveItem {
    pub path: String,
    pub content: Option<Vec<u8>>,
}

/// The mathematical shape of an archive record.
pub ghost struct ArchiveItemModel {
    pub path: Seq<char>,
    pub content: Option<Seq<u8>>,
}

impl View for ArchiveItem {
    type V = ArchiveItemModel;

    open spec fn view(&self) -> ArchiveItemModel {
        ArchiveItemModel {
            path: self.path@,
            content: match self.content {
                Some(data) => Some(data@),
                None => None,
            },
        }
    }
}

impl DeepView for ArchiveItem {
    type V = ArchiveItemModel;

    open spec fn deep_view(&self) -> ArchiveItemModel {
        self@
    }
}

/// An in-progress archive: a `zip::ZipWriter` over an in-memory buffer,
/// held opaquely because its type's bounds cannot be declared here.
#[verifier::external_body]
pub struct ArchiveBuilder {
    inner: zip::ZipWriter<std::io::Cursor<Vec<u8>>>,
}

/// The entries the builder holds so far, in writing order: a name together
/// with the entry's bytes, or `None` for a directory record.
pub uninterp spec fn zip_entries(w: ArchiveBuilder) -> Seq<(Seq<char>, Option<Seq<u8>>)>;

/// The builder has seen only successful operations: fresh, or mutated by
/// writes that returned `Ok`. A failed write may leave the underlying
/// container in a state the contracts no longer describe.
pub uninterp spec fn zip_clean(w: ArchiveBuilder) -> bool;

/// The name a record is stored under: a directory record gains a trailing
/// `/` unless its name already ends in a separator.
pub open spec fn dir_stored_name(n: Seq<char>) -> Seq<char> {
    if n.len() > 0 && (n.last() == '/' || n.last() == '\\') {
        n
    } else {
        n.push('/')
    }
}

/// The name an entry occupies in the container.
pub open spec fn container_name(e: (Seq<char>, Option<Seq<u8>>)) -> Seq<char> {
    match e.1 {
        Some(_) => e.0,
        None => dir_stored_name(e.0),
    }
}

/// Some existing entry already occupies this container name.
pub open spec fn has_container_name(entries: Seq<(Seq<char>, Option<Seq<u8>>)>, n: Seq<char>) -> bool {
    exists|i: int| 0 <= i < entries.len() && container_name(#[trigger] entries[i]) == n
}

/// The zip format accepts the entry: its stored name fits the format's
/// 16-bit name-length field, and a file's content stays below the plain
/// format's 32-bit size limit.
pub open spec fn entry_writable(e: (Seq<char>, Option<Seq<u8>>)) -> bool {
    &&& encode_utf8(container_name(e)).len() <= 0xFFFF
    &&& (e.1 matches Some(c) ==> c.len() <= 0xFFFFFFFF)
}

/// Every entry is acceptable and no two occupy the same container name —
/// the conditions under which building an archive is guaranteed to succeed.
pub open spec fn entries_writable(es: Seq<(Seq<char>, Option<Seq<u8>>)>) -> bool {
    &&& forall|i: int| 0 <= i < es.len() ==> entry_writable(#[trigger] es[i])
    &&& forall|i: int, j: int|
        0 <= i < j < es.len() ==> container_name(#[trigger] es[i]) != container_name(
            #[trigger] es[j],
        )
}

/// The bytes of the finished container holding exactly these entries, all
/// written with the same fixed options (stored compression, the format's
/// default timestamp, a fixed host-system tag), so that equal entries give
/// equal bytes.
pub uninterp spec fn zip_bytes_of(entries: Seq<(Seq<char>, Option<Seq<u8>>)>) -> Seq<u8>;

/// Relies on `zip::ZipWriter::new`: a writer over a fresh in-memory buffer
/// holds no entries yet and has seen no failure.
#[verifier::external_body]
fn zip_writer_new() -> (w: ArchiveBuilder)
    ensures
        zip_entries(w) == Seq::<(Seq<char>, Option<Seq<u8>>)>::empty(),
        zip_clean(w),
{
    ArchiveBuilder { inner: zip::ZipWriter::new(std::io::Cursor::new(Vec::new())) }
}

/// Relies on `zip::ZipWriter::start_file` and `std::io::Write::write_all`:
/// on success the archive holds one more file entry, with the given name and
/// exactly the given bytes, stored uncompressed. On a clean in-memory writer
/// the only failures are a duplicate stored name, a name over the format's
/// 16-bit length field, and content over the plain format's 32-bit size
/// limit, so outside those the call succeeds.
#[verifier::external_body]
fn zip_add_file(w: &mut ArchiveBuilder, name: &String, data: &Vec<u8>) -> (r: Result<
    (),
    BackupError,
>)
    ensures
        r is Ok ==> zip_entries(*final(w)) == zip_entries(*old(w)).push((name@, Some(data@))),
        r is Ok && zip_clean(*old(w)) ==> zip_clean(*final(w)),
        zip_clean(*old(w)) && !has_container_name(zip_entries(*old(w)), name@) && entry_writable(
            (name@, Some(data@)),
        ) ==> r is Ok,
        r matches Err(e) ==> e == BackupError::ArchiveWriteFailure,
{
    let options = zip::write::SimpleFileOptions::default().compression_method(
        zip::CompressionMethod::Stored,
    ).system(zip::System::Unix);
    if w.inner.start_file(name.as_str(), options).is_err() {
        return Err(BackupError::ArchiveWriteFailure);
    }
    match std::io::Write::write_all(&mut w.inner, data.as_slice()) {
        Ok(()) => Ok(()),
        Err(_) => Err(BackupError::ArchiveWriteFailure),
    }
}

/// Relies on `zip::ZipWriter::add_directory`: on success the archive holds
/// one more empty-directory record under the given name, stored with a
/// trailing `/`. On a clean in-memory writer the only failures are a
/// duplicate stored name and a name over the format's 16-bit length field,
/// so outside those the call succeeds.
#[verifier::external_body]
fn zip_add_dir(w: &mut ArchiveBuilder, name: &String) -> (r: Result<(), BackupError>)
    ensures
        r is Ok ==> zip_entries(*final(w)) == zip_entries(*old(w)).push((name@, None)),
        r is Ok && zip_clean(*old(w)) ==> zip_clean(*final(w)),
        zip_clean(*old(w)) && !has_container_name(zip_entries(*old(w)), dir_stored_name(name@))
            && entry_writable((name@, None)) ==> r is Ok,
        r matches Err(e) ==> e == BackupError::ArchiveWriteFailure,
{
    let options = zip::write::SimpleFileOptions::default().compression_method(
        zip::CompressionMethod::Stored,
    ).system(zip::System::Unix);
    match w.inner.add_directory(name.as_str(), options) {
        Ok(()) => Ok(()),
        Err(_) => Err(BackupError::ArchiveWriteFailure),
    }
}

/// Relies on `zip::ZipWriter::finish`: it writes the archive's central
/// directory and returns the underlying buffer; before `finish` returns `Ok`
/// no valid container exists, and afterwards the bytes are determined by the
/// entries written. On a clean in-memory writer — every entry already within
/// the format's limits, and buffer writes infallible — finishing succeeds.
#[verifier::external_body]
fn zip_finish(w: ArchiveBuilder) -> (r: Result<Vec<u8>, BackupError>)
    ensures
        r matches Ok(bytes) ==> bytes@ == zip_bytes_of(zip_entries(w)),
        zip_clean(w) ==> r is Ok,
        r matches Err(e) ==> e == BackupError::ArchiveWriteFailure,
{
    match w.inner.finish() {
        Ok(c) => Ok(c.into_inner()),
        Err(_) => Err(BackupError::ArchiveWriteFailure),
    }
}

/// The zip entries a sequence of archive records maps to, in order.
pub open spec fn entries_of(items: Seq<ArchiveItemModel>) -> Seq<(Seq<char>, Option<Seq<u8>>)> {
    items.map_values(|it: ArchiveItemModel| (it.path, it.content))
}

/// Serialize the records into a finished zip container, in order. On success
/// the bytes are the container holding exactly the given records — every
/// file's content round-trips byte for byte; on failure the whole build is
/// abandoned and no bytes are returned. Success is owed whenever the records
/// occupy pairwise-distinct container names and stay within the format's
/// name and size limits.
pub fn build_archive(items: &Vec<ArchiveItem>) -> (r: Result<Vec<u8>, BackupError>)
    ensures
        r matches Ok(bytes) ==> bytes@ == zip_bytes_of(entries_of(items.deep_view())),
        entries_writable(entries_of(items.deep_view())) ==> r is Ok,
        r matches Err(e) ==> e == BackupError::ArchiveWriteFailure,
{
    let ghost all = items.deep_view();
    let ghost goal = entries_of(all);
    let mut w = zip_writer_new();
    let mut i: usize = 0;
    proof {
        assert(entries_of(all.take(0)) =~= Seq::<(Seq<char>, Option<Seq<u8>>)>::empty());
    }
    while i < items.len()
        invariant
            all == items.deep_view(),
            goal == entries_of(all),
            all.len() == items@.len(),
            i <= items@.len(),
            zip_entries(w) == entries_of(all.take(i as int)),
            zip_clean(w),
        decreases items@.len() - i,
    {
        let it = &items[i];
        assert(it@ == all[i as int]);
        proof {
            assert(goal[i as int] == (all[i as int].path, all[i as int].content));
            assert(forall|k: int|
                0 <= k < i ==> entries_of(all.take(i as int))[k] == #[trigger] goal[k]);
        }
        let res = match &it.content {
            Some(data) => zip_add_file(&mut w, &it.path, data),
            None => zip_add_dir(&mut w, &it.path),
        };
        match res {
            Ok(()) => {},
            Err(e) => {
                proof {
                    // under the success conditions the write could not have
                    // failed, so an error here refutes them
                    if entries_writable(goal) {
                        let sofar = entries_of(all.take(i as int));
                        assert(sofar.len() == i as int);
                        if has_container_name(sofar, container_name(goal[i as int])) {
                            let j = choose|j: int|
                                0 <= j < sofar.len() && container_name(#[trigger] sofar[j])
                                    == container_name(goal[i as int]);
                            assert(sofar[j] == goal[j]);
                            assert(container_name(goal[j]) != container_name(goal[i as int]));
                        }
                        assert(entry_writable(goal[i as int]));
                        assert(false);
                    }
                }
                return Err(e);
            },
        }
        proof {
            assert(entries_of(all.take(i + 1)) =~= entries_of(all.take(i as int)).push(
                (all[i as int].path, all[i as int].content),
            ));
        }
        i = i + 1;
    }
    proof {
        assert(all.take(all.len() as int) =~= all);
    }
    zip_finish(w)
}

} // verus!
