//! What a whole session achieves.
//!
//! A session sees the file system one reply at a time. Here the file system
//! is a mathematical value, the session is served from it until it asks for
//! nothing more, and the archive is held against what lies on disk: every
//! source has been taken in completely, and nothing else has.

use crate::archive::{
    base_name, directory_start, entry_records, first_pending, lemma_listing_stays_under_base,
    lemma_unrelated_directories_share_no_name, listed_directories, listing_records,
    package_start, under, RequestModel, SessionModel, SourceModel, WalkEntry, ZipStruct,
};
use crate::paths::{is_anchored, path_model, relative_model, PartModel};
use crate::zip_writer::{file_record, ArchiveOptions, ArchiveRecord};
use vstd::prelude::*;

verus! {

/// A file system, as far as a session reads it.
pub ghost struct DiskModel {
    /// What each directory lists.
    pub listing: spec_fn(Seq<PartModel>) -> Seq<WalkEntry>,
    /// What each file holds.
    pub content: spec_fn(Seq<PartModel>) -> Seq<u8>,
}

/// The session after its request has been answered from `disk`. A session
/// that asks for nothing stays as it is.
pub open spec fn served(disk: DiskModel, session: SessionModel) -> SessionModel {
    match session.request() {
        RequestModel::ReadFile(path) => session.after_file((disk.content)(path)),
        RequestModel::ReadDirectory(path) => session.after_listing((disk.listing)(path)),
        RequestModel::Done => session,
    }
}

/// The session after `steps` of its requests have been answered from `disk`.
pub open spec fn served_times(disk: DiskModel, session: SessionModel, steps: nat) -> SessionModel
    decreases steps,
{
    if steps == 0 {
        session
    } else {
        served_times(disk, served(disk, session), (steps - 1) as nat)
    }
}

/// Whether a session stands at its first source and has read nothing of it.
pub open spec fn fresh(session: SessionModel) -> bool {
    session.position == 0 && session.pending == first_pending(session.sources, 0)
}

/// Whether `directory` lies `depth` levels below `root` on `disk`: the root
/// itself at depth zero, every directory that it lists at depth one, and
/// so on.
pub open spec fn below(
    disk: DiskModel,
    root: Seq<PartModel>,
    directory: Seq<PartModel>,
    depth: nat,
) -> bool
    decreases depth,
{
    if depth == 0 {
        directory == root
    } else {
        exists|parent: Seq<PartModel>|
            below(disk, root, parent, (depth - 1) as nat) && #[trigger] listed_directories(
                (disk.listing)(parent),
            ).contains(directory)
    }
}

/// Whether `records` hold all of `source`: the file with its bytes under
/// its name; of a tree, the record of every entry of the root and of every
/// directory below it, at any depth.
pub open spec fn taken_in(
    disk: DiskModel,
    source: SourceModel,
    options: ArchiveOptions,
    records: Seq<ArchiveRecord>,
) -> bool {
    match source {
        SourceModel::File { path, name } => records.contains(
            file_record(name, (disk.content)(path), options),
        ),
        SourceModel::Tree { root, base } => forall|
            directory: Seq<PartModel>,
            depth: nat,
            index: int,
            record: ArchiveRecord,
        |
            #![trigger
                below(disk, root, directory, depth),
                entry_records(base, root, (disk.listing)(directory)[index], options).contains(record)
            ]
            below(disk, root, directory, depth) && 0 <= index < (disk.listing)(directory).len()
                && entry_records(base, root, (disk.listing)(directory)[index], options).contains(
                record,
            ) ==> records.contains(record),
    }
}

/// Whether `record` stems from `source`: it is the record of the file, or
/// of an entry of the tree's root or of a directory below it.
pub open spec fn stems_from(
    disk: DiskModel,
    source: SourceModel,
    options: ArchiveOptions,
    record: ArchiveRecord,
) -> bool {
    match source {
        SourceModel::File { path, name } => record == file_record(
            name,
            (disk.content)(path),
            options,
        ),
        SourceModel::Tree { root, base } => exists|
            directory: Seq<PartModel>,
            depth: nat,
            index: int,
        |
            #![trigger below(disk, root, directory, depth), (disk.listing)(directory)[index]]
            below(disk, root, directory, depth) && 0 <= index < (disk.listing)(directory).len()
                && entry_records(base, root, (disk.listing)(directory)[index], options).contains(
                record,
            ),
    }
}

/// Whether `record` stems from one of `sources`.
pub open spec fn stems_from_any(
    disk: DiskModel,
    sources: Seq<SourceModel>,
    options: ArchiveOptions,
    record: ArchiveRecord,
) -> bool {
    exists|position: int|
        0 <= position < sources.len() && stems_from(disk, #[trigger] sources[position], options, record)
}

/// What holds of the tree that a session is reading, with `visited` the
/// directories of it that have been read: the root has been read or waits;
/// what a read directory lists has been read or waits; what a read
/// directory holds is recorded.
spec fn tree_on_course(
    disk: DiskModel,
    session: SessionModel,
    visited: Seq<Seq<PartModel>>,
) -> bool {
    let root = session.sources[session.position as int]->Tree_root;
    let base = session.sources[session.position as int]->Tree_base;
    &&& visited.contains(root) || session.pending.contains(root)
    &&& forall|v: Seq<PartModel>, d: Seq<PartModel>|
        visited.contains(v) && #[trigger] listed_directories((disk.listing)(v)).contains(d)
            ==> visited.contains(d) || session.pending.contains(d)
    &&& forall|v: Seq<PartModel>, r: ArchiveRecord|
        visited.contains(v) && #[trigger] listing_records(
            base,
            root,
            (disk.listing)(v),
            session.options,
        ).contains(r) ==> session.records.contains(r)
}

/// What holds of a session at every step: the sources that lie behind it
/// have been taken in, and the tree that it reads is on course.
spec fn on_course(disk: DiskModel, session: SessionModel, visited: Seq<Seq<PartModel>>) -> bool {
    &&& session.wf()
    &&& forall|q: int|
        0 <= q < session.position ==> taken_in(
            disk,
            #[trigger] session.sources[q],
            session.options,
            session.records,
        )
    &&& session.at_tree() ==> tree_on_course(disk, session, visited)
}

/// Records that are added take nothing away.
proof fn lemma_taken_in_stays(
    disk: DiskModel,
    source: SourceModel,
    options: ArchiveOptions,
    records: Seq<ArchiveRecord>,
    more: Seq<ArchiveRecord>,
)
    requires
        taken_in(disk, source, options, records),
    ensures
        taken_in(disk, source, options, records + more),
{
    assert forall|r: ArchiveRecord| records.contains(r) implies (records + more).contains(r) by {
        let i = choose|i: int| 0 <= i < records.len() && records[i] == r;
        assert((records + more)[i] == r);
    }
}

/// Every record of an entry is among the records of the listing that holds it.
proof fn lemma_listing_holds_entry(
    base: Option<Seq<char>>,
    root: Seq<PartModel>,
    listing: Seq<WalkEntry>,
    options: ArchiveOptions,
    index: int,
    record: ArchiveRecord,
)
    requires
        0 <= index < listing.len(),
        entry_records(base, root, listing[index], options).contains(record),
    ensures
        listing_records(base, root, listing, options).contains(record),
    decreases listing.len(),
{
    let head = listing_records(base, root, listing.drop_last(), options);
    let last = entry_records(base, root, listing.last(), options);
    let all = listing_records(base, root, listing, options);
    assert(all == head + last);
    if index == listing.len() - 1 {
        let i = choose|i: int| 0 <= i < last.len() && last[i] == record;
        assert(all[head.len() + i] == record);
    } else {
        assert(listing.drop_last()[index] == listing[index]);
        lemma_listing_holds_entry(base, root, listing.drop_last(), options, index, record);
        let i = choose|i: int| 0 <= i < head.len() && head[i] == record;
        assert(all[i] == record);
    }
}

/// Every record of a listing is the record of one of its entries.
proof fn lemma_record_has_entry(
    base: Option<Seq<char>>,
    root: Seq<PartModel>,
    listing: Seq<WalkEntry>,
    options: ArchiveOptions,
    at: int,
) -> (index: int)
    requires
        0 <= at < listing_records(base, root, listing, options).len(),
    ensures
        0 <= index < listing.len(),
        entry_records(base, root, listing[index], options).contains(
            listing_records(base, root, listing, options)[at],
        ),
    decreases listing.len(),
{
    let head = listing_records(base, root, listing.drop_last(), options);
    let last = entry_records(base, root, listing.last(), options);
    if at < head.len() {
        let index = lemma_record_has_entry(base, root, listing.drop_last(), options, at);
        assert(listing.drop_last()[index] == listing[index]);
        index
    } else {
        assert(last[at - head.len()] == listing_records(base, root, listing, options)[at]);
        listing.len() - 1
    }
}

/// When no directory of a tree waits any more, every directory below its
/// root has been read.
proof fn lemma_everything_below_is_visited(
    disk: DiskModel,
    root: Seq<PartModel>,
    visited: Seq<Seq<PartModel>>,
    directory: Seq<PartModel>,
    depth: nat,
)
    requires
        visited.contains(root),
        forall|v: Seq<PartModel>, d: Seq<PartModel>|
            visited.contains(v) && #[trigger] listed_directories((disk.listing)(v)).contains(d)
                ==> visited.contains(d),
        below(disk, root, directory, depth),
    ensures
        visited.contains(directory),
    decreases depth,
{
    if depth > 0 {
        let parent = choose|parent: Seq<PartModel>|
            below(disk, root, parent, (depth - 1) as nat) && #[trigger] listed_directories(
                (disk.listing)(parent),
            ).contains(directory);
        lemma_everything_below_is_visited(disk, root, visited, parent, (depth - 1) as nat);
    }
}

/// What was recorded or waiting stays so, or has been read, when a listing
/// has been taken in.
proof fn lemma_listing_on_course(
    disk: DiskModel,
    session: SessionModel,
    visited: Seq<Seq<PartModel>>,
)
    requires
        on_course(disk, session, visited),
        session.request() is ReadDirectory,
    ensures
        ({
            let d = session.pending[0];
            let seen = visited.push(d);
            let root = session.sources[session.position as int]->Tree_root;
            let base = session.sources[session.position as int]->Tree_base;
            let rest = session.pending.drop_first() + listed_directories((disk.listing)(d));
            let records = session.records + listing_records(
                base,
                root,
                (disk.listing)(d),
                session.options,
            );
            &&& seen.contains(root) || rest.contains(root)
            &&& forall|v: Seq<PartModel>, x: Seq<PartModel>|
                seen.contains(v) && #[trigger] listed_directories((disk.listing)(v)).contains(x)
                    ==> seen.contains(x) || rest.contains(x)
            &&& forall|v: Seq<PartModel>, r: ArchiveRecord|
                seen.contains(v) && #[trigger] listing_records(
                    base,
                    root,
                    (disk.listing)(v),
                    session.options,
                ).contains(r) ==> records.contains(r)
        }),
{
    let d = session.pending[0];
    let seen = visited.push(d);
    let root = session.sources[session.position as int]->Tree_root;
    let base = session.sources[session.position as int]->Tree_base;
    let found = listed_directories((disk.listing)(d));
    let rest = session.pending.drop_first() + found;
    let added = listing_records(base, root, (disk.listing)(d), session.options);
    let records = session.records + added;
    assert(session.at_tree());
    assert(seen[visited.len() as int] == d);
    assert forall|x: Seq<PartModel>| visited.contains(x) implies seen.contains(x) by {
        let i = choose|i: int| 0 <= i < visited.len() && visited[i] == x;
        assert(seen[i] == x);
    }
    assert forall|x: Seq<PartModel>| session.pending.contains(x) implies seen.contains(x)
        || rest.contains(x) by {
        let i = choose|i: int| 0 <= i < session.pending.len() && session.pending[i] == x;
        if i > 0 {
            assert(rest[i - 1] == x);
        }
    }
    assert forall|x: Seq<PartModel>| found.contains(x) implies rest.contains(x) by {
        let i = choose|i: int| 0 <= i < found.len() && found[i] == x;
        assert(rest[session.pending.len() - 1 + i] == x);
    }
    assert forall|r: ArchiveRecord| session.records.contains(r) implies records.contains(r) by {
        let i = choose|i: int| 0 <= i < session.records.len() && session.records[i] == r;
        assert(records[i] == r);
    }
    assert forall|r: ArchiveRecord| added.contains(r) implies records.contains(r) by {
        let i = choose|i: int| 0 <= i < added.len() && added[i] == r;
        assert(records[session.records.len() + i] == r);
    }
    assert forall|v: Seq<PartModel>, x: Seq<PartModel>|
        seen.contains(v) && #[trigger] listed_directories((disk.listing)(v)).contains(
            x,
        ) implies seen.contains(x) || rest.contains(x) by {
        let i = choose|i: int| 0 <= i < seen.len() && seen[i] == v;
        if i < visited.len() {
            assert(visited[i] == v);
            assert(visited.contains(v));
        }
    }
    assert forall|v: Seq<PartModel>, r: ArchiveRecord|
        seen.contains(v) && #[trigger] listing_records(
            base,
            root,
            (disk.listing)(v),
            session.options,
        ).contains(r) implies records.contains(r) by {
        let i = choose|i: int| 0 <= i < seen.len() && seen[i] == v;
        if i < visited.len() {
            assert(visited[i] == v);
            assert(visited.contains(v));
        }
    }
}

/// A session that turns to its next source has that source on course.
proof fn lemma_next_source_on_course(disk: DiskModel, session: SessionModel)
    requires
        session.position < session.sources.len(),
        forall|q: int|
            0 <= q <= session.position ==> taken_in(
                disk,
                #[trigger] session.sources[q],
                session.options,
                session.records,
            ),
    ensures
        on_course(disk, session.advanced(), Seq::empty()),
{
    let next = session.advanced();
    if next.at_tree() {
        let root = next.sources[next.position as int]->Tree_root;
        assert(next.pending[0] == root);
    }
}

/// One answered request keeps a session on course.
proof fn lemma_step_on_course(
    disk: DiskModel,
    session: SessionModel,
    visited: Seq<Seq<PartModel>>,
) -> (seen: Seq<Seq<PartModel>>)
    requires
        on_course(disk, session, visited),
    ensures
        on_course(disk, served(disk, session), seen),
{
    let next = served(disk, session);
    let p = session.position as int;
    match session.request() {
        RequestModel::Done => visited,
        RequestModel::ReadFile(path) => {
            let name = session.sources[p]->File_name;
            let record = file_record(name, (disk.content)(path), session.options);
            let grown = SessionModel { records: session.records.push(record), ..session };
            assert(grown.records =~= session.records + seq![record]);
            assert(grown.records[session.records.len() as int] == record);
            assert forall|q: int| 0 <= q <= p implies taken_in(
                disk,
                #[trigger] grown.sources[q],
                grown.options,
                grown.records,
            ) by {
                if q < p {
                    lemma_taken_in_stays(
                        disk,
                        session.sources[q],
                        session.options,
                        session.records,
                        seq![record],
                    );
                }
            }
            lemma_next_source_on_course(disk, grown);
            Seq::empty()
        },
        RequestModel::ReadDirectory(d) => {
            let root = session.sources[p]->Tree_root;
            let base = session.sources[p]->Tree_base;
            let found = listed_directories((disk.listing)(d));
            let rest = session.pending.drop_first() + found;
            let added = listing_records(base, root, (disk.listing)(d), session.options);
            let seen = visited.push(d);
            lemma_listing_on_course(disk, session, visited);
            let grown = SessionModel { records: session.records + added, pending: rest, ..session };
            assert forall|q: int| 0 <= q < p implies taken_in(
                disk,
                #[trigger] grown.sources[q],
                grown.options,
                grown.records,
            ) by {
                lemma_taken_in_stays(
                    disk,
                    session.sources[q],
                    session.options,
                    session.records,
                    added,
                );
            }
            if rest.len() == 0 {
                assert(seen.contains(root));
                assert forall|
                    directory: Seq<PartModel>,
                    depth: nat,
                    index: int,
                    record: ArchiveRecord,
                |
                    #![trigger
                        below(disk, root, directory, depth),
                        entry_records(base, root, (disk.listing)(directory)[index], session.options).contains(record)
                    ]
                    below(disk, root, directory, depth) && 0 <= index < (disk.listing)(
                        directory,
                    ).len() && entry_records(
                        base,
                        root,
                        (disk.listing)(directory)[index],
                        session.options,
                    ).contains(record) implies grown.records.contains(record) by {
                    lemma_everything_below_is_visited(disk, root, seen, directory, depth);
                    lemma_listing_holds_entry(
                        base,
                        root,
                        (disk.listing)(directory),
                        session.options,
                        index,
                        record,
                    );
                }
                assert(taken_in(disk, grown.sources[p], grown.options, grown.records));
                lemma_next_source_on_course(disk, grown);
                Seq::empty()
            } else {
                assert(next == grown);
                seen
            }
        },
    }
}

/// A session that is on course stays on course, whatever number of
/// requests is answered.
proof fn lemma_stays_on_course(
    disk: DiskModel,
    session: SessionModel,
    visited: Seq<Seq<PartModel>>,
    steps: nat,
) -> (seen: Seq<Seq<PartModel>>)
    requires
        on_course(disk, session, visited),
    ensures
        on_course(disk, served_times(disk, session, steps), seen),
    decreases steps,
{
    if steps == 0 {
        visited
    } else {
        let seen = lemma_step_on_course(disk, session, visited);
        lemma_stays_on_course(disk, served(disk, session), seen, (steps - 1) as nat)
    }
}

/// Serving a session changes neither its sources nor its settings.
pub proof fn lemma_serving_keeps_sources(disk: DiskModel, session: SessionModel, steps: nat)
    ensures
        served_times(disk, session, steps).sources == session.sources,
        served_times(disk, session, steps).options == session.options,
    decreases steps,
{
    if steps > 0 {
        lemma_serving_keeps_sources(disk, served(disk, session), (steps - 1) as nat);
    }
}

/// The archive is complete. When a fresh session is served from `disk`
/// until it asks for nothing more, each of its sources has been taken in:
/// a file with its bytes, under its name; of a directory, every entry of
/// the directory itself and of every directory below it, at any depth:
/// each regular file with its bytes, each directory, empty or not, with an
/// entry of its own.
pub proof fn lemma_archive_is_complete(
    disk: DiskModel,
    start: SessionModel,
    steps: nat,
    position: int,
)
    requires
        start.wf(),
        fresh(start),
        served_times(disk, start, steps).request() is Done,
        0 <= position < start.sources.len(),
    ensures
        taken_in(
            disk,
            start.sources[position],
            start.options,
            served_times(disk, start, steps).records,
        ),
{
    if start.at_tree() {
        assert(start.pending[0] == start.sources[0]->Tree_root);
    }
    let seen = lemma_stays_on_course(disk, start, Seq::empty(), steps);
    lemma_serving_keeps_sources(disk, start, steps);
    let end = served_times(disk, start, steps);
    assert(end.position >= end.sources.len());
    assert(end.sources[position] == start.sources[position]);
}

/// Whether `directory` lies below `root` at some depth.
spec fn reachable(disk: DiskModel, root: Seq<PartModel>, directory: Seq<PartModel>) -> bool {
    exists|depth: nat| below(disk, root, directory, depth)
}

/// What holds of the records of a session at every step: the first
/// `given` were there at the start; every other stems from a source; and
/// what waits lies below the root of the tree at hand.
spec fn accounted(disk: DiskModel, session: SessionModel, given: nat) -> bool {
    &&& forall|i: int|
        given <= i < session.records.len() ==> stems_from_any(
            disk,
            session.sources,
            session.options,
            #[trigger] session.records[i],
        )
    &&& session.at_tree() ==> forall|i: int|
        0 <= i < session.pending.len() ==> reachable(
            disk,
            session.sources[session.position as int]->Tree_root,
            #[trigger] session.pending[i],
        )
}

/// A session that turns to its next source has nothing unaccounted for.
proof fn lemma_next_source_accounted(disk: DiskModel, session: SessionModel, given: nat)
    requires
        forall|i: int|
            given <= i < session.records.len() ==> stems_from_any(
                disk,
                session.sources,
                session.options,
                #[trigger] session.records[i],
            ),
    ensures
        accounted(disk, session.advanced(), given),
{
    let next = session.advanced();
    if next.at_tree() {
        let root = next.sources[next.position as int]->Tree_root;
        assert(below(disk, root, root, 0));
        assert(next.pending =~= seq![root]);
        assert forall|i: int| 0 <= i < next.pending.len() implies reachable(
            disk,
            root,
            #[trigger] next.pending[i],
        ) by {
            assert(next.pending[i] == root);
        }
    }
}

/// One answered request leaves nothing unaccounted for.
proof fn lemma_step_accounted(disk: DiskModel, session: SessionModel, given: nat)
    requires
        accounted(disk, session, given),
    ensures
        accounted(disk, served(disk, session), given),
{
    let p = session.position as int;
    match session.request() {
        RequestModel::Done => {},
        RequestModel::ReadFile(path) => {
            let name = session.sources[p]->File_name;
            let record = file_record(name, (disk.content)(path), session.options);
            let grown = SessionModel { records: session.records.push(record), ..session };
            assert(stems_from(disk, session.sources[p], session.options, record));
            assert forall|i: int| given <= i < grown.records.len() implies stems_from_any(
                disk,
                grown.sources,
                grown.options,
                #[trigger] grown.records[i],
            ) by {
                if i < session.records.len() {
                    assert(grown.records[i] == session.records[i]);
                } else {
                    assert(grown.records[i] == record);
                }
            }
            lemma_next_source_accounted(disk, grown, given);
            assert(served(disk, session) == grown.advanced());
        },
        RequestModel::ReadDirectory(d) => {
            let root = session.sources[p]->Tree_root;
            let base = session.sources[p]->Tree_base;
            let listing = (disk.listing)(d);
            let found = listed_directories(listing);
            let rest = session.pending.drop_first() + found;
            let added = listing_records(base, root, listing, session.options);
            let grown = SessionModel { records: session.records + added, pending: rest, ..session };
            assert(d == session.pending[0]);
            assert(reachable(disk, root, d));
            let depth = choose|depth: nat| below(disk, root, d, depth);
            assert forall|i: int| given <= i < grown.records.len() implies stems_from_any(
                disk,
                grown.sources,
                grown.options,
                #[trigger] grown.records[i],
            ) by {
                if i < session.records.len() {
                    assert(grown.records[i] == session.records[i]);
                } else {
                    let at = i - session.records.len();
                    assert(grown.records[i] == added[at]);
                    let index = lemma_record_has_entry(base, root, listing, session.options, at);
                    assert(entry_records(base, root, (disk.listing)(d)[index], session.options).contains(
                        added[at],
                    ));
                    assert(stems_from(disk, session.sources[p], session.options, added[at]));
                }
            }
            if rest.len() == 0 {
                lemma_next_source_accounted(disk, grown, given);
                assert(served(disk, session) == grown.advanced());
            } else {
                assert(served(disk, session) == grown);
                assert forall|i: int| 0 <= i < rest.len() implies reachable(
                    disk,
                    root,
                    #[trigger] rest[i],
                ) by {
                    if i < session.pending.len() - 1 {
                        assert(rest[i] == session.pending[i + 1]);
                    } else {
                        let k = i - (session.pending.len() - 1);
                        assert(rest[i] == found[k]);
                        assert(found.contains(found[k]));
                        assert(below(disk, root, d, ((depth + 1) - 1) as nat));
                        assert(below(disk, root, rest[i], depth + 1));
                    }
                }
            }
        },
    }
}

/// Any number of answered requests leaves nothing unaccounted for.
proof fn lemma_stays_accounted(disk: DiskModel, session: SessionModel, given: nat, steps: nat)
    requires
        accounted(disk, session, given),
    ensures
        accounted(disk, served_times(disk, session, steps), given),
    decreases steps,
{
    if steps > 0 {
        lemma_step_accounted(disk, session, given);
        lemma_stays_accounted(disk, served(disk, session), given, (steps - 1) as nat);
    }
}

/// The archive holds nothing foreign. However far a fresh session has been
/// served from `disk`, each record that it has added to those it started
/// with stems from one of its sources: it is the record of a source file,
/// or of an entry of a source directory or of a directory below it.
pub proof fn lemma_archive_is_sound(disk: DiskModel, start: SessionModel, steps: nat, index: int)
    requires
        fresh(start),
        start.records.len() <= index < served_times(disk, start, steps).records.len(),
    ensures
        stems_from_any(
            disk,
            start.sources,
            start.options,
            served_times(disk, start, steps).records[index],
        ),
{
    if start.at_tree() {
        let root = start.sources[0]->Tree_root;
        assert(below(disk, root, root, 0));
        assert forall|i: int| 0 <= i < start.pending.len() implies reachable(
            disk,
            root,
            #[trigger] start.pending[i],
        ) by {
            assert(start.pending[i] == root);
        }
    }
    lemma_stays_accounted(disk, start, start.records.len(), steps);
    lemma_serving_keeps_sources(disk, start, steps);
}

/// The session that starts on a directory is well formed and fresh.
pub proof fn lemma_directory_start_is_fresh(root: Seq<PartModel>, options: ArchiveOptions)
    ensures
        directory_start(root, options).wf(),
        fresh(directory_start(root, options)),
{
}

/// The session that starts on a composite archive is well formed and fresh.
pub proof fn lemma_package_start_is_fresh(entries: Seq<ZipStruct>)
    ensures
        package_start(entries).wf(),
        fresh(package_start(entries)),
{
}

/// Whether every entry that `disk` lists has a path that is not anchored
/// once it is taken relative to `root`, as every path below `root` is.
pub open spec fn entries_lie_inside(disk: DiskModel, root: Seq<PartModel>) -> bool {
    forall|directory: Seq<PartModel>, index: int|
        0 <= index < (disk.listing)(directory).len() ==> !is_anchored(
            relative_model(root, path_model((#[trigger] (disk.listing)(directory)[index]).path@)),
        )
}

/// A source directory does not spill over. Every record that stems from a
/// tree placed under the destination `base` is named under `base`.
pub proof fn lemma_tree_stays_under_base(
    disk: DiskModel,
    root: Seq<PartModel>,
    base: Seq<char>,
    options: ArchiveOptions,
    record: ArchiveRecord,
)
    requires
        base_name(base).len() > 0,
        entries_lie_inside(disk, root),
        stems_from(disk, SourceModel::Tree { root, base: Some(base) }, options, record),
    ensures
        under(base_name(base), record.name),
{
    let (directory, depth, index) = choose|directory: Seq<PartModel>, depth: nat, index: int|
        #![trigger below(disk, root, directory, depth), (disk.listing)(directory)[index]]
        below(disk, root, directory, depth) && 0 <= index < (disk.listing)(directory).len()
            && entry_records(Some(base), root, (disk.listing)(directory)[index], options).contains(
            record,
        );
    let entry = (disk.listing)(directory)[index];
    let alone = seq![entry];
    assert(alone.drop_last() =~= Seq::<WalkEntry>::empty());
    assert(listing_records(Some(base), root, alone.drop_last(), options) =~= Seq::empty());
    assert(listing_records(Some(base), root, alone, options) =~= entry_records(
        Some(base),
        root,
        entry,
        options,
    ));
    assert forall|k: int| 0 <= k < alone.len() implies !is_anchored(
        relative_model(root, path_model((#[trigger] alone[k]).path@)),
    ) by {
        assert(alone[k] == (disk.listing)(directory)[index]);
    }
    lemma_listing_stays_under_base(base, root, alone, options);
    let records = entry_records(Some(base), root, entry, options);
    let i = choose|i: int| 0 <= i < records.len() && records[i] == record;
    assert(listing_records(Some(base), root, alone, options)[i] == record);
}

/// Unrelated sources stay apart. Where two trees are placed under
/// destinations of which neither lies under the other, no record of the
/// one has the name of a record of the other.
pub proof fn lemma_unrelated_sources_stay_apart(
    disk: DiskModel,
    options: ArchiveOptions,
    first_root: Seq<PartModel>,
    first_base: Seq<char>,
    first: ArchiveRecord,
    second_root: Seq<PartModel>,
    second_base: Seq<char>,
    second: ArchiveRecord,
)
    requires
        base_name(first_base).len() > 0,
        base_name(second_base).len() > 0,
        !under(base_name(first_base), base_name(second_base)),
        !under(base_name(second_base), base_name(first_base)),
        entries_lie_inside(disk, first_root),
        entries_lie_inside(disk, second_root),
        stems_from(
            disk,
            SourceModel::Tree { root: first_root, base: Some(first_base) },
            options,
            first,
        ),
        stems_from(
            disk,
            SourceModel::Tree { root: second_root, base: Some(second_base) },
            options,
            second,
        ),
    ensures
        first.name != second.name,
{
    lemma_tree_stays_under_base(disk, first_root, first_base, options, first);
    lemma_tree_stays_under_base(disk, second_root, second_base, options, second);
    if first.name == second.name {
        lemma_unrelated_directories_share_no_name(
            base_name(first_base),
            base_name(second_base),
            first.name,
        );
    }
}

} // verus!
