//! The archive writer of the `zip` crate, over an in-memory buffer, and what
//! is assumed of it.

use vstd::prelude::*;

verus! {

/// How the bytes of a file entry are stored.
#[derive(Clone, Copy, Debug, PartialEq, Eq)]
pub enum Compression {
    /// Bytes are stored verbatim.
    Stored,
    /// Bytes are compressed with deflate.
    Deflated,
}

/// Caller-supplied settings for the entries of an archive.
#[derive(Clone, Copy, Debug, PartialEq, Eq)]
pub struct ArchiveOptions {
    /// Storage method of file entries.
    pub compression: Compression,
    /// Unix permission bits, of which the lowest nine count; `None` stands
    /// for `rw-r--r--` on files and `rwxr-xr-x` on directories.
    pub unix_mode: Option<u32>,
}

/// The bits of a mode that say who may read, write and execute.
pub const PERMISSION_BITS: u32 = 0o777;

/// The most bytes that one file entry can hold.
pub const MAX_ENTRY_BYTES: u32 = 0xFFFF_FFFF;

/// Permission bits of files where none are asked for: `rw-r--r--`.
pub const DEFAULT_FILE_MODE: u32 = 0o644;

/// Permission bits of directories where none are asked for: `rwxr-xr-x`.
pub const DEFAULT_DIRECTORY_MODE: u32 = 0o755;

/// Settings of a plain directory archive: deflate, and the writer's default
/// permissions.
pub open spec fn deflated_defaults() -> ArchiveOptions {
    ArchiveOptions { compression: Compression::Deflated, unix_mode: None }
}

/// Settings of a composite archive: stored verbatim, and marked executable
/// (`rwxr-xr-x`).
pub open spec fn stored_executable() -> ArchiveOptions {
    ArchiveOptions { compression: Compression::Stored, unix_mode: Some(0o755u32) }
}

impl ArchiveOptions {
    /// The permission bits that file entries get.
    pub open spec fn file_mode_model(self) -> u32 {
        match self.unix_mode {
            Some(mode) => mode & PERMISSION_BITS,
            None => DEFAULT_FILE_MODE,
        }
    }

    /// The permission bits that directory entries get.
    pub open spec fn directory_mode_model(self) -> u32 {
        match self.unix_mode {
            Some(mode) => mode & PERMISSION_BITS,
            None => DEFAULT_DIRECTORY_MODE,
        }
    }

    /// The permission bits that file entries get.
    pub fn file_mode(&self) -> (mode: u32)
        ensures
            mode == self.file_mode_model(),
            mode <= PERMISSION_BITS,
    {
        match self.unix_mode {
            Some(mode) => {
                assert(mode & 0o777 <= 0o777) by (bit_vector);
                mode & PERMISSION_BITS
            },
            None => DEFAULT_FILE_MODE,
        }
    }

    /// The permission bits that directory entries get.
    pub fn directory_mode(&self) -> (mode: u32)
        ensures
            mode == self.directory_mode_model(),
            mode <= PERMISSION_BITS,
    {
        match self.unix_mode {
            Some(mode) => {
                assert(mode & 0o777 <= 0o777) by (bit_vector);
                mode & PERMISSION_BITS
            },
            None => DEFAULT_DIRECTORY_MODE,
        }
    }

    /// The settings of a plain directory archive.
    pub fn deflated() -> (options: ArchiveOptions)
        ensures
            options == deflated_defaults(),
    {
        ArchiveOptions { compression: Compression::Deflated, unix_mode: None }
    }

    /// The settings of a composite archive.
    pub fn executable() -> (options: ArchiveOptions)
        ensures
            options == stored_executable(),
    {
        ArchiveOptions { compression: Compression::Stored, unix_mode: Some(0o755u32) }
    }
}

/// One entry of an archive under construction.
pub ghost struct ArchiveRecord {
    /// Name of the entry inside the archive.
    pub name: Seq<char>,
    /// Whether the entry is a directory.
    pub is_dir: bool,
    /// Bytes written to the entry so far (always empty for a directory).
    pub data: Seq<u8>,
    /// Storage method of the entry; a directory is always stored.
    pub compression: Compression,
    /// Permission bits of the entry.
    pub mode: u32,
}

/// The record of a file named `name` that holds `data`.
pub open spec fn file_record(name: Seq<char>, data: Seq<u8>, options: ArchiveOptions) -> ArchiveRecord {
    ArchiveRecord {
        name,
        is_dir: false,
        data,
        compression: options.compression,
        mode: options.file_mode_model(),
    }
}

/// The record of a directory added under `name`.
pub open spec fn directory_record(name: Seq<char>, options: ArchiveOptions) -> ArchiveRecord {
    ArchiveRecord {
        name: directory_name(name),
        is_dir: true,
        data: Seq::empty(),
        compression: Compression::Stored,
        mode: options.directory_mode_model(),
    }
}

/// An archive under construction, held in memory.
///
/// The writer itself belongs to the `zip` crate; this library sees it only
/// through [`archive_records`].
#[verifier::external_body]
pub struct ArchiveWriter {
    inner: zip::ZipWriter<std::io::Cursor<Vec<u8>>>,
}

/// `zip::result::ZipError`: what the writer reports when it fails. It is
/// carried through as it is.
#[verifier::external_type_specification]
#[verifier::external_body]
pub struct ExZipError(zip::result::ZipError);

/// The entries that a writer has recorded, oldest first.
pub uninterp spec fn archive_records(writer: ArchiveWriter) -> Seq<ArchiveRecord>;

/// Whether the writer takes a further entry, or the end of the archive: it
/// has not been closed, and its newest entry can be completed.
pub uninterp spec fn accepts_entry(writer: ArchiveWriter) -> bool;

/// How many more bytes the writer takes for its newest entry: none unless
/// that entry is a file that is still open.
pub uninterp spec fn data_room(writer: ArchiveWriter) -> nat;

/// Whether `data`, once it is deflated, still fits one entry.
pub uninterp spec fn deflated_fits(data: Seq<u8>) -> bool;

/// Whether a file entry that has taken `data` in one piece can be
/// completed: what is stored verbatim has to fit, and did; what is deflated
/// has to fit afterwards. An entry without data always can.
pub open spec fn leaves_open(data: Seq<u8>, compression: Compression) -> bool {
    data.len() == 0 || compression == Compression::Stored || deflated_fits(data)
}

/// The bytes of the finished archive that holds exactly `records`.
pub uninterp spec fn archive_bytes(records: Seq<ArchiveRecord>) -> Seq<u8>;

/// The name under which the writer records a directory: `name` itself when it
/// already ends in a slash or a backslash, otherwise `name` followed by `/`.
pub open spec fn directory_name(name: Seq<char>) -> Seq<char> {
    if name.len() > 0 && (name.last() == '/' || name.last() == '\\') {
        name
    } else {
        name + seq!['/']
    }
}

/// `records` after `data` has been written: the newest entry has grown by
/// `data`. Writing nothing changes nothing.
pub open spec fn with_data(records: Seq<ArchiveRecord>, data: Seq<u8>) -> Seq<ArchiveRecord> {
    if data.len() == 0 || records.len() == 0 {
        records
    } else {
        records.update(
            records.len() - 1,
            ArchiveRecord { data: records.last().data + data, ..records.last() },
        )
    }
}

/// `zip::ZipWriter::new` over an empty in-memory buffer: the writer starts
/// without entries, takes a first entry, and has no file open.
#[verifier::external_body]
pub(crate) fn new_writer() -> (writer: ArchiveWriter)
    ensures
        archive_records(writer) == Seq::<ArchiveRecord>::empty(),
        accepts_entry(writer),
        data_room(writer) == 0,
{
    ArchiveWriter { inner: zip::ZipWriter::new(std::io::Cursor::new(Vec::new())) }
}

/// `zip::ZipWriter::add_directory`, with `mode` as the entry's permission
/// bits: it succeeds exactly where the writer takes a further entry. The
/// writer has then recorded one more entry, a stored directory without
/// data, under [`directory_name`] of `name`; no file is open, and a further
/// entry is taken. Nothing is claimed of the writer after a failure.
#[verifier::external_body]
pub(crate) fn add_directory(writer: &mut ArchiveWriter, name: &str, mode: u32) -> (done: Result<
    (),
    zip::result::ZipError,
>)
    requires
        mode <= PERMISSION_BITS,
    ensures
        done is Ok <==> accepts_entry(*old(writer)),
        done is Ok ==> archive_records(*final(writer)) == archive_records(*old(writer)).push(
            ArchiveRecord {
                name: directory_name(name@),
                is_dir: true,
                data: Seq::empty(),
                compression: Compression::Stored,
                mode,
            },
        ),
        done is Ok ==> accepts_entry(*final(writer)) && data_room(*final(writer)) == 0,
{
    let options = zip::write::FileOptions::default().unix_permissions(mode);
    writer.inner.add_directory(name, options)
}

/// `zip::ZipWriter::start_file`, with `compression` and `mode` as the
/// entry's options: it succeeds exactly where the writer takes a further
/// entry. The writer has then recorded one more entry, a file named `name`
/// that holds no data yet and has room for [`MAX_ENTRY_BYTES`]; a further
/// entry is taken. Nothing is claimed of the writer after a failure.
#[verifier::external_body]
pub(crate) fn start_file(
    writer: &mut ArchiveWriter,
    name: &str,
    compression: Compression,
    mode: u32,
) -> (done: Result<(), zip::result::ZipError>)
    requires
        mode <= PERMISSION_BITS,
    ensures
        done is Ok <==> accepts_entry(*old(writer)),
        done is Ok ==> archive_records(*final(writer)) == archive_records(*old(writer)).push(
            ArchiveRecord { name: name@, is_dir: false, data: Seq::empty(), compression, mode },
        ),
        done is Ok ==> accepts_entry(*final(writer)) && data_room(*final(writer))
            == MAX_ENTRY_BYTES,
{
    let method = match compression {
        Compression::Stored => zip::CompressionMethod::Stored,
        Compression::Deflated => zip::CompressionMethod::Deflated,
    };
    let options = zip::write::FileOptions::default().compression_method(method);
    writer.inner.start_file(name, options.unix_permissions(mode))
}

/// `std::io::Write::write_all` on the writer: it succeeds exactly where
/// the newest entry has room for `data`. That entry has then grown by
/// `data`. Where the entry was new and is stored verbatim, a further entry
/// is taken; where it was new and is deflated, a further entry is taken
/// exactly if `data`, deflated, still fits. Writing nothing leaves the
/// writer as it is. Nothing is claimed of the writer after a failure.
#[verifier::external_body]
pub(crate) fn write_all(writer: &mut ArchiveWriter, data: &[u8]) -> (done: Result<
    (),
    zip::result::ZipError,
>)
    ensures
        done is Ok <==> data@.len() <= data_room(*old(writer)),
        done is Ok ==> archive_records(*final(writer)) == with_data(
            archive_records(*old(writer)),
            data@,
        ),
        data@.len() == 0 ==> *final(writer) == *old(writer),
        done is Ok && data@.len() > 0 && data_room(*old(writer)) == MAX_ENTRY_BYTES
            ==> accepts_entry(*final(writer)) == (archive_records(
            *old(writer),
        ).last().compression == Compression::Stored || deflated_fits(data@)),
{
    std::io::Write::write_all(&mut writer.inner, data).map_err(zip::result::ZipError::Io)
}

/// `zip::ZipWriter::finish`: it succeeds exactly where the writer takes the
/// end of the archive, and the result is then the finished archive of the
/// recorded entries.
#[verifier::external_body]
pub(crate) fn finish(writer: ArchiveWriter) -> (done: Result<Vec<u8>, zip::result::ZipError>)
    ensures
        done is Ok <==> accepts_entry(writer),
        done matches Ok(bytes) ==> bytes@ == archive_bytes(archive_records(writer)),
{
    let mut writer = writer;
    let buffer = writer.inner.finish()?;
    Ok(buffer.into_inner())
}

} // verus!
