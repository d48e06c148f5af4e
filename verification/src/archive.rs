//! Assembling an archive from what a walk over the file system reports.
//!
//! The library never reads the file system. A session says which file or
//! directory it needs next; the caller reads it and hands the bytes or the
//! listing back. Every decision of the walk is taken here: which entry gets
//! which name, which directories are still to be visited, and when the
//! archive is complete.

use crate::paths::{
    copy_path, entry_name, joined_names, make_relative_path, make_relative_path_with_base,
    is_anchored, path_model, rebased_model, relative_model, text_parts, PartModel, PathPart,
};
use crate::text::optional_text;
use crate::zip_writer::{
    accepts_entry, add_directory, archive_bytes, archive_records, deflated_defaults,
    directory_name, directory_record, file_record, finish, leaves_open, new_writer, start_file,
    stored_executable, with_data, write_all, ArchiveOptions, ArchiveRecord, ArchiveWriter,
    Compression, MAX_ENTRY_BYTES,
};
use std::collections::VecDeque;
use vstd::prelude::*;

verus! {

/// Why an archive could not be built.
#[derive(Debug)]
pub enum ArchiveError {
    /// The archive writer reported a failure.
    Writer(zip::result::ZipError),
    /// A reply was supplied that the session had not asked for.
    OutOfTurn,
}

/// What a directory listing says an entry is.
#[derive(Debug)]
pub enum EntryContent {
    /// A regular file, with its bytes.
    File(Vec<u8>),
    /// A directory, possibly empty.
    Directory,
    /// Anything else; it is left out of the archive.
    Other,
}

/// One entry of a directory listing.
#[derive(Debug)]
pub struct WalkEntry {
    /// Full path of the entry, as the walk reached it.
    pub path: Vec<PathPart>,
    /// What was found there.
    pub content: EntryContent,
}

/// The name an entry at `path` gets in the archive when the walk started at
/// `root` and, with `base`, is placed under that directory.
pub open spec fn archive_name(
    base: Option<Seq<char>>,
    root: Seq<PartModel>,
    path: Seq<PartModel>,
) -> Seq<char> {
    match base {
        Some(dir) => joined_names(rebased_model(dir, root, path)),
        None => joined_names(relative_model(root, path)),
    }
}

/// The records that one listed entry adds to the archive: one for a file,
/// one for a directory, none for anything else.
pub open spec fn entry_records(
    base: Option<Seq<char>>,
    root: Seq<PartModel>,
    entry: WalkEntry,
    options: ArchiveOptions,
) -> Seq<ArchiveRecord> {
    let name = archive_name(base, root, path_model(entry.path@));
    match entry.content {
        EntryContent::File(bytes) => seq![file_record(name, bytes@, options)],
        EntryContent::Directory => seq![directory_record(name, options)],
        EntryContent::Other => Seq::empty(),
    }
}

/// The records that a whole listing adds, in listing order.
pub open spec fn listing_records(
    base: Option<Seq<char>>,
    root: Seq<PartModel>,
    listing: Seq<WalkEntry>,
    options: ArchiveOptions,
) -> Seq<ArchiveRecord>
    decreases listing.len(),
{
    if listing.len() == 0 {
        Seq::empty()
    } else {
        listing_records(base, root, listing.drop_last(), options) + entry_records(
            base,
            root,
            listing.last(),
            options,
        )
    }
}

/// The directories that a listing reports, in listing order.
pub open spec fn listed_directories(listing: Seq<WalkEntry>) -> Seq<Seq<PartModel>>
    decreases listing.len(),
{
    if listing.len() == 0 {
        Seq::empty()
    } else {
        let head = listed_directories(listing.drop_last());
        match listing.last().content {
            EntryContent::Directory => head.push(path_model(listing.last().path@)),
            _ => head,
        }
    }
}

/// The values of a queue of paths.
pub open spec fn queue_model(queue: Seq<Vec<PathPart>>) -> Seq<Seq<PartModel>> {
    Seq::new(queue.len(), |i: int| path_model(queue[i]@))
}

/// Computes the archive name of the entry at `path`.
fn name_in_archive(base: &Option<String>, root: &Vec<PathPart>, path: &Vec<PathPart>) -> (name:
    String)
    ensures
        name@ == archive_name(optional_text(*base), path_model(root@), path_model(path@)),
{
    match base {
        Some(dir) => {
            let placed = make_relative_path_with_base(dir.as_str(), root, path);
            entry_name(&placed)
        },
        None => {
            let relative = make_relative_path(root, path);
            entry_name(&relative)
        },
    }
}

/// Writes every file and directory of `listing` to `writer`, in order, and
/// queues each directory once it is written; the first failure ends it.
pub(crate) fn record_listing(
    writer: &mut ArchiveWriter,
    pending: &mut VecDeque<Vec<PathPart>>,
    base: &Option<String>,
    root: &Vec<PathPart>,
    listing: &Vec<WalkEntry>,
    options: ArchiveOptions,
) -> (done: Result<(), zip::result::ZipError>)
    ensures
        done is Ok ==> archive_records(*final(writer)) == archive_records(*old(writer))
            + listing_records(optional_text(*base), path_model(root@), listing@, options),
        done is Ok ==> queue_model(final(pending)@) == queue_model(old(pending)@)
            + listed_directories(listing@),
        done is Ok <==> listing_outcome(listing@, options, accepts_entry(*old(writer))) is Some,
        done is Ok ==> accepts_entry(*final(writer)) == listing_outcome(
            listing@,
            options,
            accepts_entry(*old(writer)),
        )->0,
        holds_nothing_to_write(listing@) ==> done is Ok && *final(writer) == *old(writer),
        accepts_entry(*old(writer)) && is_sure(listing@, options) ==> done is Ok && accepts_entry(
            *final(writer),
        ),
        !holds_nothing_to_write(listing@) && !accepts_entry(*old(writer)) ==> done is Err,
        done is Err ==> exists|stopped: int|
            #[trigger] is_written(listing@, stopped) && queue_model(final(pending)@)
                == queue_model(old(pending)@) + listed_directories(listing@.take(stopped)),
{
    let ghost before = archive_records(*writer);
    let ghost queued = queue_model(pending@);
    let ghost b = optional_text(*base);
    let ghost r = path_model(root@);
    let mut i: usize = 0;
    proof {
        assert(listing@.take(0) =~= Seq::<WalkEntry>::empty());
        assert(before + Seq::<ArchiveRecord>::empty() =~= before);
        assert(queued + Seq::<Seq<PartModel>>::empty() =~= queued);
    }
    while i < listing.len()
        invariant
            i <= listing.len(),
            b == optional_text(*base),
            r == path_model(root@),
            queued == queue_model(old(pending)@),
            (forall|j: int| 0 <= j < i ==> !is_written(listing@, j)) ==> *writer == *old(writer),
            !accepts_entry(*old(writer)) ==> forall|j: int| 0 <= j < i ==> !is_written(listing@, j),
            accepts_entry(*old(writer)) && is_sure(listing@, options) ==> accepts_entry(*writer),
            listing_outcome(listing@.take(i as int), options, accepts_entry(*old(writer))) == Some(
                accepts_entry(*writer),
            ),
            archive_records(*writer) == before + listing_records(b, r, listing@.take(i as int), options),
            queue_model(pending@) == queued + listed_directories(listing@.take(i as int)),
        decreases listing.len() - i,
    {
        let entry = &listing[i];
        let ghost records = archive_records(*writer);
        let ghost queue = queue_model(pending@);
        proof {
            assert(listing@.take(i + 1).drop_last() =~= listing@.take(i as int));
            assert(listing@.take(i + 1).last() == listing@[i as int]);
        }
        match &entry.content {
            EntryContent::File(bytes) => {
                let name = name_in_archive(base, root, &entry.path);
                match start_file(writer, name.as_str(), options.compression, options.file_mode()) {
                    Ok(()) => {},
                    Err(e) => {
                        proof {
                            assert(is_written(listing@, i as int));
                            lemma_failure_stands(
                                listing@,
                                options,
                                accepts_entry(*old(writer)),
                                i + 1,
                            );
                        }
                        return Err(e);
                    },
                }
                proof {
                    if is_sure(listing@, options) {
                        assert(is_sure_at(listing@, options, i as int));
                    }
                    assert(archive_records(*writer).last().compression == options.compression);
                }
                match write_all(writer, bytes.as_slice()) {
                    Ok(()) => {},
                    Err(e) => {
                        proof {
                            assert(is_written(listing@, i as int));
                            lemma_failure_stands(
                                listing@,
                                options,
                                accepts_entry(*old(writer)),
                                i + 1,
                            );
                        }
                        return Err(e);
                    },
                }
                proof {
                    let started = records.push(file_record(name@, Seq::empty(), options));
                    assert(Seq::<u8>::empty() + bytes@ =~= bytes@);
                    assert(with_data(started, bytes@) =~= records + entry_records(
                        b,
                        r,
                        *entry,
                        options,
                    ));
                }
            },
            EntryContent::Directory => {
                let name = name_in_archive(base, root, &entry.path);
                match add_directory(writer, name.as_str(), options.directory_mode()) {
                    Ok(()) => {},
                    Err(e) => {
                        proof {
                            assert(is_written(listing@, i as int));
                            lemma_failure_stands(
                                listing@,
                                options,
                                accepts_entry(*old(writer)),
                                i + 1,
                            );
                        }
                        return Err(e);
                    },
                }
                pending.push_back(copy_path(&entry.path));
                proof {
                    assert(archive_records(*writer) =~= records + entry_records(
                        b,
                        r,
                        *entry,
                        options,
                    ));
                    assert(queue_model(pending@) =~= queue.push(path_model(entry.path@)));
                }
            },
            EntryContent::Other => {
                proof {
                    assert(records + entry_records(b, r, *entry, options) =~= records);
                }
            },
        }
        proof {
            if !(entry.content is Other) {
                assert(is_written(listing@, i as int));
            }
        }
        i += 1;
        proof {
            let head = listing_records(b, r, listing@.take(i - 1), options);
            assert(before + (head + entry_records(b, r, *entry, options)) =~= (before + head)
                + entry_records(b, r, *entry, options));
            let dirs = listed_directories(listing@.take(i - 1));
            assert(queued + dirs.push(path_model(entry.path@)) =~= (queued + dirs).push(
                path_model(entry.path@),
            ));
        }
    }
    proof {
        assert(listing@.take(i as int) =~= listing@);
    }
    Ok(())
}

/// Whether the entry at `index` of `listing` is one that is written to the
/// archive: a file or a directory.
pub open spec fn is_written(listing: Seq<WalkEntry>, index: int) -> bool {
    0 <= index < listing.len() && !(listing[index].content is Other)
}

/// What taking in one entry does to a writer that does or does not accept
/// a further entry: `None` where the entry is refused, else whether the
/// writer accepts a further entry afterwards. What is not written changes
/// nothing; a directory needs a writer that accepts, and leaves it so; a
/// file needs one too, and must fit an entry.
pub open spec fn entry_outcome(entry: WalkEntry, options: ArchiveOptions, accepts: bool) -> Option<
    bool,
> {
    match entry.content {
        EntryContent::Other => Some(accepts),
        EntryContent::Directory => if accepts {
            Some(true)
        } else {
            None
        },
        EntryContent::File(bytes) => if accepts && bytes@.len() <= MAX_ENTRY_BYTES {
            Some(leaves_open(bytes@, options.compression))
        } else {
            None
        },
    }
}

/// What taking in a whole listing does to a writer: `None` where one of
/// its entries is refused, else whether the writer accepts a further entry
/// afterwards.
pub open spec fn listing_outcome(
    listing: Seq<WalkEntry>,
    options: ArchiveOptions,
    accepts: bool,
) -> Option<bool>
    decreases listing.len(),
{
    if listing.len() == 0 {
        Some(accepts)
    } else {
        match listing_outcome(listing.drop_last(), options, accepts) {
            Some(open) => entry_outcome(listing.last(), options, open),
            None => None,
        }
    }
}

/// A listing of which a front part is refused is refused.
pub proof fn lemma_failure_stands(
    listing: Seq<WalkEntry>,
    options: ArchiveOptions,
    accepts: bool,
    upto: int,
)
    requires
        0 <= upto <= listing.len(),
        listing_outcome(listing.take(upto), options, accepts) is None,
    ensures
        listing_outcome(listing, options, accepts) is None,
    decreases listing.len() - upto,
{
    if upto < listing.len() {
        assert(listing.take(upto + 1).drop_last() =~= listing.take(upto));
        lemma_failure_stands(listing, options, accepts, upto + 1);
    } else {
        assert(listing.take(upto) =~= listing);
    }
}

/// Whether the file at `index` of `listing`, if there is one, is sure to
/// be taken in by a writer that takes a further entry, and to leave it so:
/// the file fits an entry, and it is stored verbatim or empty.
pub open spec fn is_sure_at(listing: Seq<WalkEntry>, options: ArchiveOptions, index: int) -> bool {
    listing[index].content matches EntryContent::File(bytes) ==> bytes@.len() <= MAX_ENTRY_BYTES
        && (options.compression == Compression::Stored || bytes@.len() == 0)
}

/// Whether every file of `listing` is sure to be taken in. What is
/// compressed is not: that it still fits is known only afterwards.
pub open spec fn is_sure(listing: Seq<WalkEntry>, options: ArchiveOptions) -> bool {
    forall|index: int| 0 <= index < listing.len() ==> #[trigger] is_sure_at(listing, options, index)
}

/// Whether `listing` holds no entry that is written to the archive. Such a
/// listing is taken in without a call of the writer, so nothing can fail.
pub open spec fn holds_nothing_to_write(listing: Seq<WalkEntry>) -> bool {
    forall|index: int| !is_written(listing, index)
}

/// One source of a composite archive: a file or a directory on disk, and
/// where its content goes inside the archive.
#[derive(Debug)]
pub struct ZipStruct {
    /// Whether `path` is a directory to be walked.
    pub is_dir: bool,
    /// Directory inside the archive that receives the content.
    pub target_dir: String,
    /// Name inside `target_dir` that a file source gets.
    pub target_name: String,
    /// Where the source lies on disk.
    pub path: Vec<PathPart>,
}

impl Clone for ZipStruct {
    fn clone(&self) -> (copy: Self)
        ensures
            copy.is_dir == self.is_dir,
            copy.target_dir@ == self.target_dir@,
            copy.target_name@ == self.target_name@,
            path_model(copy.path@) == path_model(self.path@),
    {
        ZipStruct {
            is_dir: self.is_dir,
            target_dir: self.target_dir.clone(),
            target_name: self.target_name.clone(),
            path: copy_path(&self.path),
        }
    }
}

/// What a session draws from: a single file, or a directory tree.
pub enum Source {
    /// The file at `path`, stored under `name`.
    File { path: Vec<PathPart>, name: String },
    /// The tree below `root`, stored relative to it, under `base` if given.
    Tree { root: Vec<PathPart>, base: Option<String> },
}

/// The mathematical value of a [`Source`].
pub ghost enum SourceModel {
    File { path: Seq<PartModel>, name: Seq<char> },
    Tree { root: Seq<PartModel>, base: Option<Seq<char>> },
}

impl View for Source {
    type V = SourceModel;

    open spec fn view(&self) -> SourceModel {
        match *self {
            Source::File { path, name } => SourceModel::File { path: path_model(path@), name: name@ },
            Source::Tree { root, base } => SourceModel::Tree {
                root: path_model(root@),
                base: optional_text(base),
            },
        }
    }
}

/// The values of a list of sources.
pub open spec fn source_models(sources: Seq<Source>) -> Seq<SourceModel> {
    Seq::new(sources.len(), |i: int| sources[i]@)
}

/// What a session needs from the file system next.
#[derive(Debug)]
pub enum FsRequest {
    /// The bytes of the file at this path.
    ReadFile(Vec<PathPart>),
    /// The listing of the directory at this path.
    ReadDirectory(Vec<PathPart>),
    /// Nothing: every source has been taken in.
    Done,
}

/// The mathematical value of an [`FsRequest`].
pub ghost enum RequestModel {
    ReadFile(Seq<PartModel>),
    ReadDirectory(Seq<PartModel>),
    Done,
}

impl View for FsRequest {
    type V = RequestModel;

    open spec fn view(&self) -> RequestModel {
        match *self {
            FsRequest::ReadFile(path) => RequestModel::ReadFile(path_model(path@)),
            FsRequest::ReadDirectory(path) => RequestModel::ReadDirectory(path_model(path@)),
            FsRequest::Done => RequestModel::Done,
        }
    }
}

/// The directories waiting to be read when a session turns to the source at
/// `position`: the root of a tree, nothing otherwise.
pub open spec fn first_pending(sources: Seq<SourceModel>, position: nat) -> Seq<Seq<PartModel>> {
    if position < sources.len() {
        match sources[position as int] {
            SourceModel::Tree { root, .. } => seq![root],
            SourceModel::File { .. } => Seq::empty(),
        }
    } else {
        Seq::empty()
    }
}

/// The state of a session, as a mathematical value.
pub ghost struct SessionModel {
    /// Entries written so far.
    pub records: Seq<ArchiveRecord>,
    /// Everything the archive is built from, in the order it is taken in.
    pub sources: Seq<SourceModel>,
    /// Index of the source being taken in.
    pub position: nat,
    /// Directories of the current tree that are still to be read, next first.
    pub pending: Seq<Seq<PartModel>>,
    /// Settings for the entries drawn from the sources.
    pub options: ArchiveOptions,
}

impl SessionModel {
    /// Whether the session is at a tree source.
    pub open spec fn at_tree(self) -> bool {
        self.position < self.sources.len() && self.sources[self.position as int] is Tree
    }

    /// Whether the session is at a file source.
    pub open spec fn at_file(self) -> bool {
        self.position < self.sources.len() && self.sources[self.position as int] is File
    }

    /// A session is well formed when it has directories waiting exactly
    /// while it is at a tree.
    pub open spec fn wf(self) -> bool {
        &&& self.position <= self.sources.len()
        &&& self.at_tree() <==> self.pending.len() > 0
    }

    /// What the session needs next.
    pub open spec fn request(self) -> RequestModel {
        if self.at_file() {
            RequestModel::ReadFile(self.sources[self.position as int]->File_path)
        } else if self.at_tree() && self.pending.len() > 0 {
            RequestModel::ReadDirectory(self.pending[0])
        } else {
            RequestModel::Done
        }
    }

    /// The session turned to the next source.
    pub open spec fn advanced(self) -> SessionModel {
        SessionModel {
            position: self.position + 1,
            pending: first_pending(self.sources, self.position + 1),
            ..self
        }
    }

    /// The session after the bytes of the requested file have arrived: the
    /// file is one more record, and the next source is up.
    pub open spec fn after_file(self, bytes: Seq<u8>) -> SessionModel {
        SessionModel {
            records: self.records.push(
                file_record(self.sources[self.position as int]->File_name, bytes, self.options),
            ),
            ..self
        }.advanced()
    }

    /// The session after the listing of the requested directory has arrived:
    /// its files and directories are recorded, its directories wait behind
    /// those already waiting, and the next source is up once none waits.
    pub open spec fn after_listing(self, listing: Seq<WalkEntry>) -> SessionModel {
        let tree = self.sources[self.position as int];
        let rest = self.pending.drop_first() + listed_directories(listing);
        let taken = SessionModel {
            records: self.records + listing_records(
                tree->Tree_base,
                tree->Tree_root,
                listing,
                self.options,
            ),
            pending: rest,
            ..self
        };
        if rest.len() == 0 {
            taken.advanced()
        } else {
            taken
        }
    }
}

/// An archive being assembled from one or more sources.
pub struct ArchiveSession {
    writer: ArchiveWriter,
    sources: Vec<Source>,
    position: usize,
    pending: VecDeque<Vec<PathPart>>,
    options: ArchiveOptions,
}

impl View for ArchiveSession {
    type V = SessionModel;

    closed spec fn view(&self) -> SessionModel {
        SessionModel {
            records: archive_records(self.writer),
            sources: source_models(self.sources@),
            position: self.position as nat,
            pending: queue_model(self.pending@),
            options: self.options,
        }
    }
}

impl ArchiveSession {
    /// Whether the writer of the session takes a further entry, or the end
    /// of the archive. It does from the start, and as long as every file
    /// that was supplied has left room: the one thing that ends it is an
    /// entry that has outgrown [`MAX_ENTRY_BYTES`] once it is compressed.
    pub closed spec fn accepts(&self) -> bool {
        accepts_entry(self.writer)
    }

    /// Opens a session on `sources` over a writer that already holds `writer`'s records.
    fn open(writer: ArchiveWriter, sources: Vec<Source>, options: ArchiveOptions) -> (session: Self)
        ensures
            session@.wf(),
            session.accepts() == accepts_entry(writer),
            session@ == (SessionModel {
                records: archive_records(writer),
                sources: source_models(sources@),
                position: 0,
                pending: first_pending(source_models(sources@), 0),
                options,
            }),
    {
        let mut pending: VecDeque<Vec<PathPart>> = VecDeque::new();
        if sources.len() > 0 {
            match &sources[0] {
                Source::Tree { root, .. } => {
                    pending.push_back(copy_path(root));
                },
                Source::File { .. } => {},
            }
        }
        proof {
            assert(queue_model(pending@) =~= first_pending(source_models(sources@), 0));
        }
        ArchiveSession { writer, sources, position: 0, pending, options }
    }

    /// Turns to the next source.
    fn advance(&mut self)
        requires
            old(self).position < old(self).sources.len(),
            old(self).pending@.len() == 0,
        ensures
            final(self)@ == old(self)@.advanced(),
            final(self).accepts() == old(self).accepts(),
    {
        self.position = self.position + 1;
        if self.position < self.sources.len() {
            match &self.sources[self.position] {
                Source::Tree { root, .. } => {
                    let first = copy_path(root);
                    self.pending.push_back(first);
                },
                Source::File { .. } => {},
            }
        }
        proof {
            assert(queue_model(self.pending@) =~= first_pending(
                source_models(self.sources@),
                self.position as nat,
            ));
        }
    }

    /// Whether the session is well formed. Every session that this library
    /// hands out is, and stays so.
    pub fn is_well_formed(&self) -> (ok: bool)
        ensures
            ok == self@.wf(),
    {
        if self.position > self.sources.len() {
            return false;
        }
        let at_tree = if self.position < self.sources.len() {
            match &self.sources[self.position] {
                Source::Tree { .. } => true,
                Source::File { .. } => false,
            }
        } else {
            false
        };
        at_tree == (self.pending.len() > 0)
    }

    /// What the session needs next.
    pub fn request(&self) -> (request: FsRequest)
        requires
            self@.wf(),
        ensures
            request@ == self@.request(),
    {
        if self.position >= self.sources.len() {
            return FsRequest::Done;
        }
        match &self.sources[self.position] {
            Source::File { path, .. } => FsRequest::ReadFile(copy_path(path)),
            Source::Tree { .. } => {
                assert(self@.at_tree());
                assert(self.pending@.len() > 0);
                FsRequest::ReadDirectory(copy_path(&self.pending[0]))
            },
        }
    }

    /// Takes in the bytes of the file that the session asked for. This
    /// succeeds exactly where the file was asked for, the writer takes a
    /// further entry, and the file is no longer than [`MAX_ENTRY_BYTES`].
    ///
    /// Out of turn, the session is left as it was. After a failure of the
    /// writer the session stands where it stood, but its records are
    /// unknown.
    pub fn supply_file(&mut self, bytes: &Vec<u8>) -> (done: Result<(), ArchiveError>)
        requires
            old(self)@.wf(),
        ensures
            final(self)@.wf(),
            done is Ok <==> old(self)@.request() is ReadFile && old(self).accepts() && bytes@.len()
                <= MAX_ENTRY_BYTES,
            done is Ok ==> final(self)@ == old(self)@.after_file(bytes@),
            done is Ok ==> final(self).accepts() == leaves_open(
                bytes@,
                old(self)@.options.compression,
            ),
            done matches Err(ArchiveError::OutOfTurn) ==> final(self)@ == old(self)@,
            done matches Err(ArchiveError::OutOfTurn) <==> !(old(self)@.request() is ReadFile),
            done matches Err(ArchiveError::Writer(_)) ==> final(self)@ == (SessionModel {
                records: final(self)@.records,
                ..old(self)@
            }),
    {
        if self.position >= self.sources.len() {
            return Err(ArchiveError::OutOfTurn);
        }
        let ghost records = archive_records(self.writer);
        match &self.sources[self.position] {
            Source::Tree { .. } => {
                return Err(ArchiveError::OutOfTurn);
            },
            Source::File { name, .. } => {
                match start_file(
                    &mut self.writer,
                    name.as_str(),
                    self.options.compression,
                    self.options.file_mode(),
                ) {
                    Ok(()) => {},
                    Err(e) => {
                        return Err(ArchiveError::Writer(e));
                    },
                }
                match write_all(&mut self.writer, bytes.as_slice()) {
                    Ok(()) => {},
                    Err(e) => {
                        return Err(ArchiveError::Writer(e));
                    },
                }
                proof {
                    assert(Seq::<u8>::empty() + bytes@ =~= bytes@);
                    assert(archive_records(self.writer) =~= records.push(
                        file_record(name@, bytes@, self.options),
                    ));
                }
            },
        }
        self.advance();
        Ok(())
    }

    /// Takes in the listing of the directory that the session asked for.
    /// This succeeds exactly where the listing was asked for and the writer
    /// takes its entries one after the other ([`listing_outcome`]). So a
    /// listing that holds no file and no directory is always taken in, and
    /// leaves the writer as it is; any other needs a writer that takes a
    /// further entry; with such a writer, a listing whose files are sure is
    /// taken in, and leaves the writer so.
    ///
    /// Out of turn, the session is left as it was. After a failure of the
    /// writer the session stands at the source where it stood, but its
    /// records and the directories still waiting are unknown.
    pub fn supply_listing(&mut self, listing: &Vec<WalkEntry>) -> (done: Result<(), ArchiveError>)
        requires
            old(self)@.wf(),
        ensures
            final(self)@.wf(),
            done is Ok ==> final(self)@ == old(self)@.after_listing(listing@),
            done is Ok <==> old(self)@.request() is ReadDirectory && listing_outcome(
                listing@,
                old(self)@.options,
                old(self).accepts(),
            ) is Some,
            done is Ok ==> final(self).accepts() == listing_outcome(
                listing@,
                old(self)@.options,
                old(self).accepts(),
            )->0,
            old(self)@.request() is ReadDirectory && holds_nothing_to_write(listing@) ==> done is Ok
                && final(self).accepts() == old(self).accepts(),
            old(self)@.request() is ReadDirectory && old(self).accepts() && is_sure(
                listing@,
                old(self)@.options,
            ) ==> done is Ok && final(self).accepts(),
            !holds_nothing_to_write(listing@) && !old(self).accepts() ==> done is Err,
            done matches Err(ArchiveError::OutOfTurn) ==> final(self)@ == old(self)@,
            done matches Err(ArchiveError::OutOfTurn) <==> !(old(self)@.request() is ReadDirectory),
            done matches Err(ArchiveError::Writer(_)) ==> final(self)@ == (SessionModel {
                records: final(self)@.records,
                pending: final(self)@.pending,
                ..old(self)@
            }),
    {
        if self.position >= self.sources.len() {
            return Err(ArchiveError::OutOfTurn);
        }
        match &self.sources[self.position] {
            Source::File { .. } => {
                return Err(ArchiveError::OutOfTurn);
            },
            Source::Tree { root, base } => {
                let ghost waiting = queue_model(self.pending@);
                let visited = self.pending.pop_front();
                proof {
                    assert(queue_model(self.pending@) =~= waiting.drop_first());
                }
                match record_listing(
                    &mut self.writer,
                    &mut self.pending,
                    base,
                    root,
                    listing,
                    self.options,
                ) {
                    Ok(()) => {},
                    Err(e) => {
                        match visited {
                            Some(directory) => {
                                self.pending.push_back(directory);
                            },
                            None => {},
                        }
                        return Err(ArchiveError::Writer(e));
                    },
                }
            },
        }
        if self.pending.len() == 0 {
            self.advance();
        }
        Ok(())
    }

    /// Completes the archive and hands out its bytes. This succeeds exactly
    /// where the session asks for nothing more and its writer takes the end
    /// of the archive.
    ///
    /// A session that still waits for a file or a listing cannot be finished.
    pub fn finish(self) -> (done: Result<Vec<u8>, ArchiveError>)
        requires
            self@.wf(),
        ensures
            done is Ok <==> self@.request() is Done && self.accepts(),
            done matches Ok(bytes) ==> bytes@ == archive_bytes(self@.records),
            done matches Err(ArchiveError::OutOfTurn) <==> !(self@.request() is Done),
    {
        if self.position < self.sources.len() {
            return Err(ArchiveError::OutOfTurn);
        }
        match finish(self.writer) {
            Ok(bytes) => Ok(bytes),
            Err(e) => Err(ArchiveError::Writer(e)),
        }
    }
}

/// The destination directories of `entries`, one per entry.
pub open spec fn target_dirs(entries: Seq<ZipStruct>) -> Seq<Seq<char>> {
    Seq::new(entries.len(), |i: int| entries[i].target_dir@)
}

/// `names` without repetitions: each name stands where it first occurred.
pub open spec fn distinct(names: Seq<Seq<char>>) -> Seq<Seq<char>>
    decreases names.len(),
{
    if names.len() == 0 {
        Seq::empty()
    } else {
        let head = distinct(names.drop_last());
        if head.contains(names.last()) {
            head
        } else {
            head.push(names.last())
        }
    }
}

/// The directory records that open a composite archive.
pub open spec fn skeleton(dirs: Seq<Seq<char>>) -> Seq<ArchiveRecord> {
    Seq::new(dirs.len(), |i: int| directory_record(dirs[i], deflated_defaults()))
}

/// What a composite archive draws from for one entry: a directory is walked
/// and stored under the entry's destination directory; a file is stored
/// under `{target_dir}/{target_name}`.
pub open spec fn source_of(entry: ZipStruct) -> SourceModel {
    if entry.is_dir {
        SourceModel::Tree { root: path_model(entry.path@), base: Some(entry.target_dir@) }
    } else {
        SourceModel::File {
            path: path_model(entry.path@),
            name: entry.target_dir@ + seq!['/'] + entry.target_name@,
        }
    }
}

/// The sources of a composite archive, in the order of its entries.
pub open spec fn package_sources(entries: Seq<ZipStruct>) -> Seq<SourceModel> {
    Seq::new(entries.len(), |i: int| source_of(entries[i]))
}

/// A session on one directory tree, before anything has been read.
pub open spec fn directory_start(root: Seq<PartModel>, options: ArchiveOptions) -> SessionModel {
    SessionModel {
        records: Seq::empty(),
        sources: seq![SourceModel::Tree { root, base: None }],
        position: 0,
        pending: seq![root],
        options,
    }
}

/// A session on a composite archive, before anything has been read: the
/// distinct destination directories are already recorded.
pub open spec fn package_start(entries: Seq<ZipStruct>) -> SessionModel {
    SessionModel {
        records: skeleton(distinct(target_dirs(entries))),
        sources: package_sources(entries),
        position: 0,
        pending: first_pending(package_sources(entries), 0),
        options: stored_executable(),
    }
}

/// `distinct` holds no name twice, and holds exactly the names it was given.
pub proof fn lemma_distinct(names: Seq<Seq<char>>)
    ensures
        forall|i: int, j: int|
            0 <= i < j < distinct(names).len() ==> distinct(names)[i] != distinct(names)[j],
        forall|name: Seq<char>| names.contains(name) <==> distinct(names).contains(name),
    decreases names.len(),
{
    if names.len() > 0 {
        let front = names.drop_last();
        lemma_distinct(front);
        let head = distinct(front);
        assert forall|name: Seq<char>| names.contains(name) <==> distinct(names).contains(
            name,
        ) by {
            if names.contains(name) {
                let k = choose|k: int| 0 <= k < names.len() && names[k] == name;
                if k < names.len() - 1 {
                    assert(front[k] == name);
                    assert(front.contains(name));
                    let m = choose|m: int| 0 <= m < head.len() && head[m] == name;
                    assert(distinct(names)[m] == name);
                } else if !head.contains(names.last()) {
                    assert(distinct(names)[head.len() as int] == name);
                }
            }
            if distinct(names).contains(name) {
                let m = choose|m: int| 0 <= m < distinct(names).len() && distinct(names)[m] == name;
                if m < head.len() {
                    assert(head[m] == name);
                    assert(head.contains(name));
                    assert(front.contains(name));
                    let k = choose|k: int| 0 <= k < front.len() && front[k] == name;
                    assert(names[k] == name);
                } else {
                    assert(names[names.len() - 1] == name);
                }
            }
        }
    }
}

/// Collects the destination directories of `entries`, each once, in the
/// order of first appearance.
pub fn distinct_target_dirs(entries: &Vec<ZipStruct>) -> (dirs: Vec<String>)
    ensures
        dirs@.len() == distinct(target_dirs(entries@)).len(),
        forall|i: int| 0 <= i < dirs@.len() ==> dirs@[i]@ == distinct(target_dirs(entries@))[i],
{
    let mut dirs: Vec<String> = Vec::new();
    let ghost names = target_dirs(entries@);
    let mut i: usize = 0;
    proof {
        assert(names.take(0) =~= Seq::<Seq<char>>::empty());
    }
    while i < entries.len()
        invariant
            i <= entries.len(),
            names == target_dirs(entries@),
            dirs@.len() == distinct(names.take(i as int)).len(),
            forall|k: int| 0 <= k < dirs@.len() ==> dirs@[k]@ == distinct(names.take(i as int))[k],
        decreases entries.len() - i,
    {
        let ghost seen = distinct(names.take(i as int));
        proof {
            assert(names.take(i + 1).drop_last() =~= names.take(i as int));
            assert(names.take(i + 1).last() == entries@[i as int].target_dir@);
        }
        let mut known = false;
        let mut j: usize = 0;
        while j < dirs.len()
            invariant
                j <= dirs.len(),
                i < entries.len(),
                dirs@.len() == seen.len(),
                forall|k: int| 0 <= k < dirs@.len() ==> dirs@[k]@ == seen[k],
                known <==> exists|k: int| 0 <= k < j && seen[k] == entries@[i as int].target_dir@,
            decreases dirs.len() - j,
        {
            if dirs[j] == entries[i].target_dir {
                known = true;
                proof {
                    assert(seen[j as int] == entries@[i as int].target_dir@);
                }
            }
            j += 1;
        }
        if !known {
            dirs.push(entries[i].target_dir.clone());
        }
        i += 1;
    }
    proof {
        assert(names.take(i as int) =~= names);
    }
    dirs
}

/// Starts the archive of one directory tree, compressed with deflate.
pub fn zip_directory(directory: &Vec<PathPart>) -> (session: ArchiveSession)
    ensures
        session@.wf(),
        session.accepts(),
        session@ == directory_start(path_model(directory@), deflated_defaults()),
{
    zip_directory_with_options(directory, ArchiveOptions::deflated())
}

/// Starts the archive of one directory tree. Every regular file below
/// `directory` will be stored under its path relative to `directory`, and
/// every directory below it gets an entry of its own, so that empty ones
/// survive.
pub fn zip_directory_with_options(directory: &Vec<PathPart>, options: ArchiveOptions) -> (session:
    ArchiveSession)
    ensures
        session@.wf(),
        session.accepts(),
        session@ == directory_start(path_model(directory@), options),
{
    let writer = new_writer();
    let mut sources: Vec<Source> = Vec::new();
    sources.push(Source::Tree { root: copy_path(directory), base: None });
    proof {
        assert(source_models(sources@) =~= seq![
            SourceModel::Tree { root: path_model(directory@), base: None },
        ]);
    }
    ArchiveSession::open(writer, sources, options)
}

/// Starts a composite archive: one archive built from unrelated sources,
/// each placed under a destination directory of its own choosing.
///
/// The distinct destination directories are recorded at once, so that the
/// archive shows its whole directory skeleton whatever the sources hold.
/// On a fresh writer this cannot fail.
/// The sources are then taken in, in the order given, stored verbatim and
/// marked executable.
pub fn create_zip_package(zip_structs: &Vec<ZipStruct>) -> (started: Result<
    ArchiveSession,
    ArchiveError,
>)
    ensures
        started matches Ok(session) && session@.wf() && session.accepts() && session@
            == package_start(zip_structs@),
{
    let mut writer = new_writer();
    let dirs = distinct_target_dirs(zip_structs);
    let ghost names = distinct(target_dirs(zip_structs@));
    let mut i: usize = 0;
    while i < dirs.len()
        invariant
            i <= dirs.len(),
            dirs@.len() == names.len(),
            forall|k: int| 0 <= k < dirs@.len() ==> dirs@[k]@ == names[k],
            archive_records(writer) == skeleton(names.take(i as int)),
            accepts_entry(writer),
        decreases dirs.len() - i,
    {
        let plain = ArchiveOptions::deflated();
        match add_directory(&mut writer, dirs[i].as_str(), plain.directory_mode()) {
            Ok(()) => {},
            Err(e) => {
                return Err(ArchiveError::Writer(e));
            },
        }
        i += 1;
        proof {
            assert(archive_records(writer) =~= skeleton(names.take(i as int)));
        }
    }
    proof {
        assert(names.take(i as int) =~= names);
    }
    let mut sources: Vec<Source> = Vec::new();
    let mut k: usize = 0;
    while k < zip_structs.len()
        invariant
            k <= zip_structs.len(),
            sources@.len() == k,
            forall|n: int| 0 <= n < k ==> sources@[n]@ == source_of(zip_structs@[n]),
        decreases zip_structs.len() - k,
    {
        let entry = &zip_structs[k];
        if entry.is_dir {
            sources.push(
                Source::Tree { root: copy_path(&entry.path), base: Some(entry.target_dir.clone()) },
            );
        } else {
            let mut name = entry.target_dir.clone();
            name.append("/");
            name.append(entry.target_name.as_str());
            proof {
                reveal_strlit("/");
                assert("/"@ =~= seq!['/']);
            }
            sources.push(Source::File { path: copy_path(&entry.path), name });
        }
        k += 1;
    }
    proof {
        assert(source_models(sources@) =~= package_sources(zip_structs@));
    }
    Ok(ArchiveSession::open(writer, sources, ArchiveOptions::executable()))
}

/// Whether `name` is the directory `dir` itself or lies below it.
pub open spec fn under(dir: Seq<char>, name: Seq<char>) -> bool {
    name == dir || (dir + seq!['/']).is_prefix_of(name)
}

/// The name of the directory that `base` spells, as the archive writes it.
pub open spec fn base_name(base: Seq<char>) -> Seq<char> {
    joined_names(text_parts(base))
}

/// A path that continues a directory gets a name under that directory.
pub proof fn lemma_name_under_front(front: Seq<PartModel>, rest: Seq<PartModel>)
    requires
        joined_names(front).len() > 0,
    ensures
        under(joined_names(front), joined_names(front + rest)),
    decreases rest.len(),
{
    let dir = joined_names(front);
    let whole = front + rest;
    if rest.len() == 0 {
        assert(whole =~= front);
    } else {
        assert(whole.drop_last() =~= front + rest.drop_last());
        lemma_name_under_front(front, rest.drop_last());
        let head = joined_names(whole.drop_last());
        assert(head.len() > 0);
        match whole.last() {
            PartModel::Normal(name) => {
                assert((dir + seq!['/']).is_prefix_of(head + seq!['/'] + name)) by {
                    assert((head + seq!['/'] + name).subrange(0, dir.len() as int + 1) =~= dir + seq![
                        '/',
                    ]);
                }
            },
            _ => {},
        }
    }
}

/// Every record that a listing adds, when its tree is placed under a
/// directory, is named under that directory: sources do not spill into
/// each other's destinations. This holds where the directory has a name,
/// and of entries whose relative path is not anchored.
pub proof fn lemma_listing_stays_under_base(
    base: Seq<char>,
    root: Seq<PartModel>,
    listing: Seq<WalkEntry>,
    options: ArchiveOptions,
)
    requires
        base_name(base).len() > 0,
        forall|k: int|
            0 <= k < listing.len() ==> !is_anchored(
                relative_model(root, path_model((#[trigger] listing[k]).path@)),
            ),
    ensures
        forall|i: int|
            0 <= i < listing_records(Some(base), root, listing, options).len() ==> under(
                base_name(base),
                #[trigger] listing_records(Some(base), root, listing, options)[i].name,
            ),
    decreases listing.len(),
{
    if listing.len() > 0 {
        let front = listing.drop_last();
        assert forall|k: int| 0 <= k < front.len() implies !is_anchored(
            relative_model(root, path_model((#[trigger] front[k]).path@)),
        ) by {
            assert(front[k] == listing[k]);
        }
        lemma_listing_stays_under_base(base, root, front, options);
        let entry = listing.last();
        assert(entry == listing[listing.len() - 1]);
        let dir = base_name(base);
        let name = archive_name(Some(base), root, path_model(entry.path@));
        lemma_name_under_front(text_parts(base), relative_model(root, path_model(entry.path@)));
        assert(under(dir, name));
        assert(under(dir, directory_name(name))) by {
            if name == dir {
                assert((dir + seq!['/']).is_prefix_of(dir + seq!['/']));
            } else {
                assert((name + seq!['/']).subrange(0, dir.len() as int + 1) =~= name.subrange(
                    0,
                    dir.len() as int + 1,
                ));
            }
        }
    }
}

/// A name that lies under two different directories shows that one of the
/// two lies under the other. Unrelated destinations share no entry.
pub proof fn lemma_unrelated_directories_share_no_name(
    first: Seq<char>,
    second: Seq<char>,
    name: Seq<char>,
)
    requires
        under(first, name),
        under(second, name),
        first != second,
    ensures
        under(first, second) || under(second, first),
{
    let a = first + seq!['/'];
    let b = second + seq!['/'];
    if name == first {
        assert(b.is_prefix_of(first));
    } else if name == second {
        assert(a.is_prefix_of(second));
    } else if first.len() < second.len() {
        assert(a.is_prefix_of(second)) by {
            assert forall|i: int| 0 <= i < a.len() implies a[i] == second[i] by {
                assert(a[i] == name[i]);
                assert(b[i] == name[i]);
            }
            assert(second.subrange(0, a.len() as int) =~= a);
        }
    } else if second.len() < first.len() {
        assert(b.is_prefix_of(first)) by {
            assert forall|i: int| 0 <= i < b.len() implies b[i] == first[i] by {
                assert(a[i] == name[i]);
                assert(b[i] == name[i]);
            }
            assert(first.subrange(0, b.len() as int) =~= b);
        }
    } else {
        assert(first =~= second) by {
            assert forall|i: int| 0 <= i < first.len() implies first[i] == second[i] by {
                assert(a[i] == name[i]);
                assert(b[i] == name[i]);
            }
        }
    }
}

} // verus!
