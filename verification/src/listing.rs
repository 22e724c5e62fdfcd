//! The listing of the stored images.
//!
//! A listing is made from the entries of the images directory as they were
//! enumerated. It holds one record for each regular file and puts the newest
//! image first; images of one time keep the order of the enumeration.

use crate::image::{
    created_at_of, file_name_of, lemma_file_name_records_time, ImageInfo, ImageRecord,
};
use vstd::prelude::*;

verus! {

/// What the file system says of a directory entry.
#[derive(Clone, Copy, Debug, PartialEq, Eq, Structural)]
pub struct EntryMetadata {
    /// Whether the entry is a regular file.
    pub is_file: bool,
    /// The size of the entry in bytes.
    pub len: u64,
}

/// One entry of the images directory, as enumerated.
#[derive(Clone, Debug, PartialEq, Eq)]
pub struct DirectoryEntry {
    /// The entry's name within the directory.
    pub file_name: String,
    /// The entry's absolute path.
    pub path: String,
    /// The entry's metadata, or `None` if it could not be read.
    pub metadata: Option<EntryMetadata>,
}

/// The mathematical content of a [`DirectoryEntry`].
pub struct DirectoryEntryView {
    pub file_name: Seq<char>,
    pub path: Seq<char>,
    pub metadata: Option<EntryMetadata>,
}

impl View for DirectoryEntry {
    type V = DirectoryEntryView;

    open spec fn view(&self) -> DirectoryEntryView {
        DirectoryEntryView { file_name: self.file_name@, path: self.path@, metadata: self.metadata }
    }
}

/// The records of `images`, in order.
pub open spec fn records(images: Seq<ImageInfo>) -> Seq<ImageRecord> {
    images.map_values(|image: ImageInfo| image@)
}

/// The contents of `entries`, in order.
pub open spec fn entry_views(entries: Seq<DirectoryEntry>) -> Seq<DirectoryEntryView> {
    entries.map_values(|entry: DirectoryEntry| entry@)
}

/// Whether a listing shows the entry: its metadata could be read and says
/// that it is a regular file.
pub open spec fn is_listed(entry: DirectoryEntryView) -> bool {
    entry.metadata matches Some(metadata) && metadata.is_file
}

/// The test [`is_listed`] as a function value.
pub open spec fn listed() -> spec_fn(DirectoryEntryView) -> bool {
    |entry: DirectoryEntryView| is_listed(entry)
}

/// The record that a listing shows for a listed entry.
pub open spec fn record_of(entry: DirectoryEntryView) -> ImageRecord {
    ImageRecord {
        filename: entry.file_name,
        path: entry.path,
        size: entry.metadata.unwrap().len as nat,
        created_at: created_at_of(entry.file_name) as nat,
    }
}

/// The function [`record_of`] as a function value.
pub open spec fn to_record() -> spec_fn(DirectoryEntryView) -> ImageRecord {
    |entry: DirectoryEntryView| record_of(entry)
}

/// The records of the listed entries among `entries`, in the order in which
/// the entries were enumerated.
pub open spec fn records_of(entries: Seq<DirectoryEntryView>) -> Seq<ImageRecord> {
    entries.filter(listed()).map_values(to_record())
}

/// The test whether a record's time is `time`.
pub open spec fn saved_at(time: nat) -> spec_fn(ImageRecord) -> bool {
    |record: ImageRecord| record.created_at == time
}

/// The records of `images` whose time is `time`, in order.
pub open spec fn with_time(images: Seq<ImageRecord>, time: nat) -> Seq<ImageRecord> {
    images.filter(saved_at(time))
}

/// Whether no record of `images` comes before a newer one.
pub open spec fn newest_first(images: Seq<ImageRecord>) -> bool {
    forall|i: int, j: int| 0 <= i <= j < images.len() ==> images[i].created_at >= images[j].created_at
}

/// Whether `listing` holds the records of `images` with the newest first
/// and those of one time in the order that they have in `images`.
pub open spec fn is_listing_of(listing: Seq<ImageRecord>, images: Seq<ImageRecord>) -> bool {
    &&& newest_first(listing)
    &&& forall|time: nat| #[trigger] with_time(listing, time) == with_time(images, time)
}

/// Where a record of the given time goes into a listing: behind every
/// record that is at least as new.
pub open spec fn insertion_point(listing: Seq<ImageRecord>, time: nat) -> int
    decreases listing.len(),
{
    if listing.len() == 0 || listing[0].created_at < time {
        0
    } else {
        1 + insertion_point(listing.drop_first(), time)
    }
}

/// The listing of `images`, built up one record after the other.
pub open spec fn listing_of(images: Seq<ImageRecord>) -> Seq<ImageRecord>
    decreases images.len(),
{
    if images.len() == 0 {
        images
    } else {
        let listing = listing_of(images.drop_last());
        listing.insert(insertion_point(listing, images.last().created_at), images.last())
    }
}

/// Where a record of the given time goes into a listing when `earlier`
/// records of that time come before it: behind every newer record and
/// behind the first `earlier` records of its own time.
pub open spec fn slot(listing: Seq<ImageRecord>, time: nat, earlier: nat) -> int
    decreases listing.len(),
{
    if listing.len() == 0 {
        0
    } else if listing[0].created_at > time {
        1 + slot(listing.drop_first(), time, earlier)
    } else if listing[0].created_at == time && earlier > 0 {
        1 + slot(listing.drop_first(), time, (earlier - 1) as nat)
    } else {
        0
    }
}

/// The entry of a regular file with the given name and path that holds
/// `bytes`.
pub open spec fn entry_of_file(filename: Seq<char>, path: Seq<char>, bytes: Seq<u8>)
    -> DirectoryEntryView {
    DirectoryEntryView {
        file_name: filename,
        path,
        metadata: Some(EntryMetadata { is_file: true, len: bytes.len() as u64 }),
    }
}

/// Lists the images among the entries of the images directory: one record
/// for each entry whose metadata could be read and is that of a regular
/// file, the newest first, and those of one time in the order in which they
/// were enumerated.
pub fn list_images(entries: &[DirectoryEntry]) -> (images: Vec<ImageInfo>)
    ensures
        is_listing_of(records(images@), records_of(entry_views(entries@))),
        images@.len() == records_of(entry_views(entries@)).len(),
{
    let mut images: Vec<ImageInfo> = Vec::new();
    let ghost all = entry_views(entries@);
    let mut next: usize = 0;
    assert(all.take(0) =~= Seq::<DirectoryEntryView>::empty());
    assert(records(images@) =~= records_of(all.take(0)));
    while next < entries.len()
        invariant
            next <= entries.len(),
            all == entry_views(entries@),
            is_listing_of(records(images@), records_of(all.take(next as int))),
        decreases entries.len() - next,
    {
        let entry = &entries[next];
        let ghost seen = all.take(next as int);
        let ghost listing = records(images@);
        proof {
            assert(all.take(next + 1) =~= seen.push(entry@));
            lemma_records_of_push(seen, entry@);
        }
        match entry.metadata {
            Some(metadata) => {
                if metadata.is_file {
                    let image = ImageInfo::new(
                        entry.file_name.clone(),
                        entry.path.clone(),
                        metadata.len,
                    );
                    assert(image@ == record_of(entry@));
                    insert_newest_first(&mut images, image);
                    proof {
                        let added = record_of(entry@);
                        assert forall|time: nat| #[trigger]
                            with_time(records(images@), time) == with_time(
                                records_of(seen).push(added),
                                time,
                            ) by {
                            lemma_with_time_push(listing, added, time);
                            lemma_with_time_push(records_of(seen), added, time);
                            assert(with_time(listing, time) == with_time(records_of(seen), time));
                        }
                    }
                }
            },
            None => {},
        }
        next = next + 1;
    }
    proof {
        assert(all.take(next as int) =~= all);
        lemma_listing_keeps_every_record(records(images@), records_of(all));
    }
    images
}

/// Puts `image` into a listing that has the newest first: after every record
/// that is at least as new, before every older one.
fn insert_newest_first(images: &mut Vec<ImageInfo>, image: ImageInfo)
    requires
        newest_first(records(old(images)@)),
    ensures
        is_listing_of(records(final(images)@), records(old(images)@).push(image@)),
{
    let ghost before = records(images@);
    let mut at: usize = 0;
    while at < images.len() && images[at].created_at >= image.created_at
        invariant
            at <= images.len(),
            before == records(images@),
            forall|i: int| 0 <= i < at ==> before[i].created_at >= image@.created_at,
        decreases images.len() - at,
    {
        at = at + 1;
    }
    proof {
        assert forall|i: int| at <= i < before.len() implies before[i].created_at
            < image@.created_at by {
            assert(before[at as int].created_at >= before[i].created_at);
        }
        lemma_insert_keeps_listing(before, at as int, image@);
    }
    let ghost added = image@;
    images.insert(at, image);
    assert(records(images@) =~= before.insert(at as int, added));
}

/// The records of the entries enumerated so far and one more entry: one more
/// record if the entry is listed, else the same.
pub proof fn lemma_records_of_push(entries: Seq<DirectoryEntryView>, entry: DirectoryEntryView)
    ensures
        records_of(entries.push(entry)) == if is_listed(entry) {
            records_of(entries).push(record_of(entry))
        } else {
            records_of(entries)
        },
{
    reveal(Seq::filter);
    assert(entries.push(entry).drop_last() =~= entries);
    if is_listed(entry) {
        assert(entries.filter(listed()).push(entry).map_values(to_record()) =~= records_of(
            entries,
        ).push(record_of(entry)));
    }
}

/// The records of one time among `images` followed by `image`: one more if
/// `image` is of that time, else the same.
pub proof fn lemma_with_time_push(images: Seq<ImageRecord>, image: ImageRecord, time: nat)
    ensures
        with_time(images.push(image), time) == if image.created_at == time {
            with_time(images, time).push(image)
        } else {
            with_time(images, time)
        },
{
    reveal(Seq::filter);
    assert(images.push(image).drop_last() =~= images);
}

/// The records of one time in a listing that is not empty: the first record
/// if it is of that time, then those of the rest.
pub proof fn lemma_with_time_first(images: Seq<ImageRecord>, time: nat)
    requires
        images.len() > 0,
    ensures
        with_time(images, time) == if images[0].created_at == time {
            seq![images[0]] + with_time(images.drop_first(), time)
        } else {
            with_time(images.drop_first(), time)
        },
{
    let one = seq![images[0]];
    let test = saved_at(time);
    assert(images =~= one + images.drop_first());
    Seq::filter_distributes_over_add(one, images.drop_first(), test);
    reveal(Seq::filter);
    assert(one.drop_last() =~= Seq::<ImageRecord>::empty());
    assert(one.drop_last().filter(test) =~= Seq::<ImageRecord>::empty());
    if images[0].created_at == time {
        assert(one.filter(test) =~= one);
    } else {
        assert(one.filter(test) =~= Seq::<ImageRecord>::empty());
        assert(one.filter(test) + images.drop_first().filter(test) =~= images.drop_first().filter(
            test,
        ));
    }
}

/// Putting `image` into a listing after every record that is at least as new
/// keeps the newest first, and puts `image` last among those of its time.
pub proof fn lemma_insert_keeps_listing(listing: Seq<ImageRecord>, at: int, image: ImageRecord)
    requires
        newest_first(listing),
        0 <= at <= listing.len(),
        forall|i: int| 0 <= i < at ==> listing[i].created_at >= image.created_at,
        forall|i: int| at <= i < listing.len() ==> listing[i].created_at < image.created_at,
    ensures
        newest_first(listing.insert(at, image)),
        forall|time: nat| #[trigger]
            with_time(listing.insert(at, image), time) == with_time(listing.push(image), time),
{
    let after = listing.insert(at, image);
    assert forall|i: int, j: int| 0 <= i <= j < after.len() implies after[i].created_at
        >= after[j].created_at by {
        if i < at && j > at {
            assert(after[i] == listing[i] && after[j] == listing[j - 1]);
        } else if i > at {
            assert(after[i] == listing[i - 1] && after[j] == listing[j - 1]);
        }
    }
    assert forall|time: nat| #[trigger]
        with_time(after, time) == with_time(listing.push(image), time) by {
        let head = listing.take(at);
        let tail = listing.skip(at);
        let one = seq![image];
        let test = saved_at(time);
        assert(after =~= head + one + tail);
        assert(listing.push(image) =~= head + tail + one);
        Seq::filter_distributes_over_add(head + one, tail, test);
        Seq::filter_distributes_over_add(head, one, test);
        Seq::filter_distributes_over_add(head + tail, one, test);
        Seq::filter_distributes_over_add(head, tail, test);
        if image.created_at == time {
            assert forall|i: int| 0 <= i < tail.len() implies !test(#[trigger] tail[i]) by {
                assert(tail[i] == listing[at + i]);
            }
            tail.lemma_all_neg_filter_empty(test);
            assert(tail.filter(test) =~= Seq::<ImageRecord>::empty());
            assert(head.filter(test) + one.filter(test) + tail.filter(test) =~= head.filter(test)
                + tail.filter(test) + one.filter(test));
        } else {
            assert forall|i: int| 0 <= i < one.len() implies !test(#[trigger] one[i]) by {}
            one.lemma_all_neg_filter_empty(test);
            assert(one.filter(test) =~= Seq::<ImageRecord>::empty());
            assert(head.filter(test) + one.filter(test) + tail.filter(test) =~= head.filter(test)
                + tail.filter(test) + one.filter(test));
        }
    }
}

/// The insertion point parts a listing that has the newest first into the
/// records that are at least as new as `time` and the older ones.
pub proof fn lemma_insertion_point(listing: Seq<ImageRecord>, time: nat)
    requires
        newest_first(listing),
    ensures
        0 <= insertion_point(listing, time) <= listing.len(),
        forall|i: int|
            0 <= i < insertion_point(listing, time) ==> listing[i].created_at >= time,
        forall|i: int|
            insertion_point(listing, time) <= i < listing.len() ==> listing[i].created_at < time,
    decreases listing.len(),
{
    if listing.len() == 0 {
    } else if listing[0].created_at < time {
        assert forall|i: int| 0 <= i < listing.len() implies listing[i].created_at < time by {
            assert(listing[0].created_at >= listing[i].created_at);
        }
    } else {
        let rest = listing.drop_first();
        assert forall|i: int, j: int| 0 <= i <= j < rest.len() implies rest[i].created_at
            >= rest[j].created_at by {
            assert(rest[i] == listing[i + 1] && rest[j] == listing[j + 1]);
        }
        lemma_insertion_point(rest, time);
        let at = insertion_point(listing, time);
        assert forall|i: int| 0 <= i < at implies listing[i].created_at >= time by {
            if i > 0 {
                assert(listing[i] == rest[i - 1]);
            }
        }
        assert forall|i: int| at <= i < listing.len() implies listing[i].created_at < time by {
            assert(listing[i] == rest[i - 1]);
        }
    }
}

/// Every sequence of images has a listing, with as many records.
pub proof fn lemma_listing_exists(images: Seq<ImageRecord>)
    ensures
        is_listing_of(listing_of(images), images),
        listing_of(images).len() == images.len(),
    decreases images.len(),
{
    if images.len() == 0 {
    } else {
        let before = images.drop_last();
        let image = images.last();
        let listing = listing_of(before);
        lemma_listing_exists(before);
        lemma_insertion_point(listing, image.created_at);
        let at = insertion_point(listing, image.created_at);
        lemma_insert_keeps_listing(listing, at, image);
        assert(images =~= before.push(image));
        assert forall|time: nat| #[trigger]
            with_time(listing_of(images), time) == with_time(images, time) by {
            lemma_with_time_push(listing, image, time);
            lemma_with_time_push(before, image, time);
            assert(with_time(listing, time) == with_time(before, time));
        }
    }
}

/// No record of a listing that has the newest first is newer than the first
/// one.
proof fn lemma_first_is_newest(images: Seq<ImageRecord>, time: nat)
    requires
        newest_first(images),
        with_time(images, time).len() > 0,
    ensures
        images.len() > 0,
        images[0].created_at >= time,
{
    let found = with_time(images, time)[0];
    images.lemma_filter_pred(saved_at(time), 0);
    assert(with_time(images, time).contains(found));
    images.lemma_filter_contains_rev(saved_at(time), found);
    let at = choose|at: int| 0 <= at < images.len() && images[at] == found;
    assert(images[0].created_at >= images[at].created_at);
}

/// The order of a listing is fixed by what it lists: two listings with the
/// newest first that hold the same records of each time, in the same order,
/// are the same listing.
pub proof fn lemma_newest_first_is_unique(one: Seq<ImageRecord>, other: Seq<ImageRecord>)
    requires
        newest_first(one),
        newest_first(other),
        forall|time: nat| #[trigger] with_time(one, time) == with_time(other, time),
    ensures
        one == other,
    decreases one.len(),
{
    if one.len() == 0 {
        if other.len() > 0 {
            lemma_with_time_first(other, other[0].created_at);
            assert(with_time(one, other[0].created_at).len() == 0);
            assert(with_time(other, other[0].created_at).len() > 0);
        }
        assert(one =~= other);
    } else {
        let time = one[0].created_at;
        lemma_with_time_first(one, time);
        assert(with_time(other, time).len() > 0);
        lemma_first_is_newest(other, time);
        let other_time = other[0].created_at;
        lemma_with_time_first(other, other_time);
        assert(with_time(one, other_time).len() > 0);
        lemma_first_is_newest(one, other_time);
        assert(time == other_time);
        let rest = one.drop_first();
        let other_rest = other.drop_first();
        let both = with_time(one, time);
        assert(both[0] == one[0] && both[0] == other[0]);
        assert(with_time(rest, time) =~= both.drop_first());
        assert(with_time(other_rest, time) =~= both.drop_first());
        assert forall|t: nat| #[trigger] with_time(rest, t) == with_time(other_rest, t) by {
            lemma_with_time_first(one, t);
            lemma_with_time_first(other, t);
            assert(with_time(one, t) == with_time(other, t));
        }
        assert forall|i: int, j: int| 0 <= i <= j < rest.len() implies rest[i].created_at
            >= rest[j].created_at by {
            assert(rest[i] == one[i + 1] && rest[j] == one[j + 1]);
        }
        assert forall|i: int, j: int| 0 <= i <= j < other_rest.len() implies other_rest[i].created_at
            >= other_rest[j].created_at by {
            assert(other_rest[i] == other[i + 1] && other_rest[j] == other[j + 1]);
        }
        lemma_newest_first_is_unique(rest, other_rest);
        assert(one =~= seq![one[0]] + rest);
        assert(other =~= seq![other[0]] + other_rest);
    }
}

/// There is one listing of given images: any two are the same.
pub proof fn lemma_listing_is_unique(
    one: Seq<ImageRecord>,
    other: Seq<ImageRecord>,
    images: Seq<ImageRecord>,
)
    requires
        is_listing_of(one, images),
        is_listing_of(other, images),
    ensures
        one == other,
{
    assert forall|time: nat| #[trigger] with_time(one, time) == with_time(other, time) by {
        assert(with_time(one, time) == with_time(images, time));
        assert(with_time(other, time) == with_time(images, time));
    }
    lemma_newest_first_is_unique(one, other);
}

/// A listing holds as many records as there are images: none is lost and
/// none is added.
pub proof fn lemma_listing_keeps_every_record(listing: Seq<ImageRecord>, images: Seq<ImageRecord>)
    requires
        is_listing_of(listing, images),
    ensures
        listing == listing_of(images),
        listing.len() == images.len(),
{
    lemma_listing_exists(images);
    lemma_listing_is_unique(listing, listing_of(images), images);
}

/// A listing of images that already have the newest first is those images,
/// unchanged.
pub proof fn lemma_listing_of_newest_first(listing: Seq<ImageRecord>, images: Seq<ImageRecord>)
    requires
        is_listing_of(listing, images),
        newest_first(images),
    ensures
        listing == images,
{
    lemma_listing_is_unique(listing, images, images);
}

/// The records of one time in a sequence with one more record put in at
/// `at`: those before `at`, the new record if it is of that time, and those
/// from `at` on.
pub proof fn lemma_with_time_insert(
    images: Seq<ImageRecord>,
    at: int,
    image: ImageRecord,
    time: nat,
)
    requires
        0 <= at <= images.len(),
    ensures
        with_time(images, time) == with_time(images.take(at), time) + with_time(
            images.skip(at),
            time,
        ),
        with_time(images.insert(at, image), time) == with_time(images.take(at), time) + (if image.created_at
            == time {
            seq![image]
        } else {
            Seq::empty()
        }) + with_time(images.skip(at), time),
{
    let head = images.take(at);
    let tail = images.skip(at);
    let one = seq![image];
    let test = saved_at(time);
    assert(images =~= head + tail);
    assert(images.insert(at, image) =~= head + one + tail);
    Seq::filter_distributes_over_add(head, tail, test);
    Seq::filter_distributes_over_add(head + one, tail, test);
    Seq::filter_distributes_over_add(head, one, test);
    assert(one =~= Seq::<ImageRecord>::empty().push(image));
    lemma_with_time_push(Seq::<ImageRecord>::empty(), image, time);
    assert(with_time(Seq::<ImageRecord>::empty(), time) =~= Seq::<ImageRecord>::empty()) by {
        reveal(Seq::filter);
    }
    if image.created_at == time {
        assert(one.filter(test) =~= seq![image]);
    } else {
        assert(one.filter(test) =~= Seq::<ImageRecord>::empty());
    }
}

/// The slot parts a listing that has the newest first: before it stand the
/// records that are newer and the first `earlier` records of the given
/// time, behind it no newer record.
pub proof fn lemma_slot(listing: Seq<ImageRecord>, time: nat, earlier: nat)
    requires
        newest_first(listing),
        earlier <= with_time(listing, time).len(),
    ensures
        0 <= slot(listing, time, earlier) <= listing.len(),
        forall|i: int| 0 <= i < slot(listing, time, earlier) ==> listing[i].created_at >= time,
        forall|i: int|
            slot(listing, time, earlier) <= i < listing.len() ==> listing[i].created_at <= time,
        with_time(listing.take(slot(listing, time, earlier)), time).len() == earlier,
    decreases listing.len(),
{
    let at = slot(listing, time, earlier);
    if listing.len() == 0 {
        assert(listing.take(0) =~= listing);
    } else {
        let rest = listing.drop_first();
        lemma_with_time_first(listing, time);
        assert forall|i: int, j: int| 0 <= i <= j < rest.len() implies rest[i].created_at
            >= rest[j].created_at by {
            assert(rest[i] == listing[i + 1] && rest[j] == listing[j + 1]);
        }
        if listing[0].created_at > time || (listing[0].created_at == time && earlier > 0) {
            let fewer: nat = if listing[0].created_at > time {
                earlier
            } else {
                (earlier - 1) as nat
            };
            lemma_slot(rest, time, fewer);
            let inner = slot(rest, time, fewer);
            assert(at == 1 + inner);
            assert forall|i: int| 0 <= i < at implies listing[i].created_at >= time by {
                if i > 0 {
                    assert(listing[i] == rest[i - 1]);
                }
            }
            assert forall|i: int| at <= i < listing.len() implies listing[i].created_at
                <= time by {
                assert(listing[i] == rest[i - 1]);
            }
            assert(listing.take(at).drop_first() =~= rest.take(inner));
            lemma_with_time_first(listing.take(at), time);
        } else {
            assert(at == 0);
            assert forall|i: int| 0 <= i < listing.len() implies listing[i].created_at
                <= time by {
                assert(listing[0].created_at >= listing[i].created_at);
            }
            assert(listing.take(0) =~= Seq::<ImageRecord>::empty());
            assert(with_time(Seq::<ImageRecord>::empty(), time) =~= Seq::<ImageRecord>::empty())
                by {
                reveal(Seq::filter);
            }
            if listing[0].created_at < time {
                assert forall|i: int| 0 <= i < listing.len() implies !saved_at(time)(
                    #[trigger] listing[i],
                ) by {
                    assert(listing[0].created_at >= listing[i].created_at);
                }
                listing.lemma_all_neg_filter_empty(saved_at(time));
            }
        }
    }
}

/// One more image changes a listing by one record: the listing of `images`
/// with `image` put in at `at` is the listing of `images` with `image` put
/// into its slot, and every other record stays where it was.
pub proof fn lemma_listing_with_one_more(
    images: Seq<ImageRecord>,
    at: int,
    image: ImageRecord,
    before: Seq<ImageRecord>,
    after: Seq<ImageRecord>,
)
    requires
        0 <= at <= images.len(),
        is_listing_of(before, images),
        is_listing_of(after, images.insert(at, image)),
    ensures
        0 <= slot(before, image.created_at, with_time(images.take(at), image.created_at).len())
            <= before.len(),
        after == before.insert(
            slot(before, image.created_at, with_time(images.take(at), image.created_at).len()),
            image,
        ),
        after.len() == before.len() + 1,
{
    let time = image.created_at;
    let ahead = with_time(images.take(at), time);
    let behind = with_time(images.skip(at), time);
    lemma_with_time_insert(images, at, image, time);
    assert(with_time(before, time) == with_time(images, time));
    assert(with_time(images, time).len() == ahead.len() + behind.len());
    lemma_slot(before, time, ahead.len());
    let place = slot(before, time, ahead.len());
    let put = before.insert(place, image);
    assert forall|i: int, j: int| 0 <= i <= j < put.len() implies put[i].created_at
        >= put[j].created_at by {
        if i < place && j > place {
            assert(put[i] == before[i] && put[j] == before[j - 1]);
        } else if i > place {
            assert(put[i] == before[i - 1] && put[j] == before[j - 1]);
        } else if i < place && j < place {
            assert(put[i] == before[i] && put[j] == before[j]);
        } else if i < place && j == place {
            assert(put[i] == before[i]);
        } else if i == place && j > place {
            assert(put[j] == before[j - 1]);
        }
    }
    assert forall|other: nat| #[trigger]
        with_time(put, other) == with_time(images.insert(at, image), other) by {
        lemma_with_time_insert(before, place, image, other);
        lemma_with_time_insert(images, at, image, other);
        assert(with_time(before, other) == with_time(images, other));
        if other == time {
            let left = with_time(before.take(place), time);
            let right = with_time(before.skip(place), time);
            assert(left.len() == ahead.len());
            assert(left + right == ahead + behind);
            assert(left =~= ahead) by {
                assert forall|i: int| 0 <= i < left.len() implies left[i] == ahead[i] by {
                    assert((left + right)[i] == (ahead + behind)[i]);
                }
            }
            assert(right =~= behind) by {
                assert(right.len() == behind.len()) by {
                    assert((left + right).len() == (ahead + behind).len());
                }
                assert forall|i: int| 0 <= i < right.len() implies right[i] == behind[i] by {
                    assert((left + right)[left.len() + i] == (ahead + behind)[ahead.len() + i]);
                }
            }
        }
    }
    lemma_listing_is_unique(after, put, images.insert(at, image));
}

/// The records of entries with one more listed entry put in at `at`: those
/// of before with the record of the new entry put in behind the records of
/// the entries before `at`.
pub proof fn lemma_records_of_insert(
    entries: Seq<DirectoryEntryView>,
    at: int,
    entry: DirectoryEntryView,
)
    requires
        0 <= at <= entries.len(),
        is_listed(entry),
    ensures
        records_of(entries.insert(at, entry)) == records_of(entries).insert(
            records_of(entries.take(at)).len() as int,
            record_of(entry),
        ),
        records_of(entries.take(at)).len() <= records_of(entries).len(),
{
    let before = entries.take(at);
    let after = entries.skip(at);
    let one = seq![entry];
    assert(entries =~= before + after);
    assert(entries.insert(at, entry) =~= before + one + after);
    Seq::filter_distributes_over_add(before + one, after, listed());
    Seq::filter_distributes_over_add(before, one, listed());
    Seq::filter_distributes_over_add(before, after, listed());
    assert(one =~= Seq::<DirectoryEntryView>::empty().push(entry));
    lemma_records_of_push(Seq::<DirectoryEntryView>::empty(), entry);
    assert(Seq::<DirectoryEntryView>::empty().filter(listed()) =~= Seq::<
        DirectoryEntryView,
    >::empty()) by {
        reveal(Seq::filter);
    }
    assert(records_of(one) =~= seq![record_of(entry)]);
    let kept = before.filter(listed());
    let added = one.filter(listed());
    let rest = after.filter(listed());
    assert(added.map_values(to_record()) =~= seq![record_of(entry)]);
    assert(records_of(entries) =~= kept.map_values(to_record()) + rest.map_values(to_record()));
    assert(records_of(entries.insert(at, entry)) =~= kept.map_values(to_record())
        + added.map_values(to_record()) + rest.map_values(to_record()));
    assert(records_of(entries).insert(kept.map_values(to_record()).len() as int, record_of(entry))
        =~= kept.map_values(to_record()) + seq![record_of(entry)] + rest.map_values(to_record()));
}

/// Every record of a listing is the record of a listed entry.
pub proof fn lemma_listed_record_has_entry(
    entries: Seq<DirectoryEntryView>,
    listing: Seq<ImageRecord>,
    at: int,
)
    requires
        is_listing_of(listing, records_of(entries)),
        0 <= at < listing.len(),
    ensures
        exists|from: int|
            0 <= from < entries.len() && is_listed(#[trigger] entries[from]) && listing[at]
                == record_of(entries[from]),
{
    let record = listing[at];
    let time = record.created_at;
    let all = records_of(entries);
    let shown = entries.filter(listed());
    assert(saved_at(time)(record));
    listing.lemma_filter_contains(saved_at(time), at);
    assert(with_time(listing, time) == with_time(all, time));
    all.lemma_filter_contains_rev(saved_at(time), record);
    let index = choose|index: int| 0 <= index < all.len() && all[index] == record;
    let entry = shown[index];
    entries.lemma_filter_pred(listed(), index);
    assert(shown.contains(entry));
    entries.lemma_filter_contains_rev(listed(), entry);
    let from = choose|from: int| 0 <= from < entries.len() && entries[from] == entry;
    assert(is_listed(entries[from]) && listing[at] == record_of(entries[from]));
}

/// Saving an image adds exactly one record to the listing. Wherever the
/// enumeration shows the new file, a regular file named for the time of
/// saving that holds the decoded bytes, the new listing is the old one with
/// one record put in: its size is the number of those bytes and its time is
/// the time of saving. If no other entry has the file's path, no other
/// record has it.
pub proof fn lemma_saved_image_is_listed_once(
    entries: Seq<DirectoryEntryView>,
    at: int,
    time: nat,
    extension: Seq<char>,
    path: Seq<char>,
    bytes: Seq<u8>,
    before: Seq<ImageRecord>,
    after: Seq<ImageRecord>,
)
    requires
        0 <= at <= entries.len(),
        time <= u64::MAX,
        bytes.len() <= u64::MAX,
        is_listing_of(before, records_of(entries)),
        is_listing_of(
            after,
            records_of(entries.insert(at, entry_of_file(file_name_of(time, extension), path, bytes))),
        ),
    ensures
        after.len() == before.len() + 1,
        exists|place: int|
            {
                &&& 0 <= place <= before.len()
                &&& after == #[trigger] before.insert(
                    place,
                    ImageRecord {
                        filename: file_name_of(time, extension),
                        path,
                        size: bytes.len(),
                        created_at: time,
                    },
                )
                &&& (forall|i: int| 0 <= i < entries.len() ==> (#[trigger] entries[i]).path != path)
                    ==> (forall|i: int|
                    0 <= i < after.len() ==> ((#[trigger] after[i]).path == path <==> i == place))
            },
{
    let name = file_name_of(time, extension);
    let entry = entry_of_file(name, path, bytes);
    let record = ImageRecord { filename: name, path, size: bytes.len(), created_at: time };
    lemma_file_name_records_time(time, extension);
    assert(record_of(entry) == record);
    lemma_records_of_insert(entries, at, entry);
    let images = records_of(entries);
    let index = records_of(entries.take(at)).len() as int;
    lemma_listing_with_one_more(images, index, record, before, after);
    let place = slot(before, time, with_time(images.take(index), time).len());
    assert(after == before.insert(place, record));
    if forall|i: int| 0 <= i < entries.len() ==> (#[trigger] entries[i]).path != path {
        assert forall|i: int| 0 <= i < after.len() implies ((#[trigger] after[i]).path == path
            <==> i == place) by {
            if i != place {
                let old_index = if i < place {
                    i
                } else {
                    i - 1
                };
                assert(after[i] == before[old_index]);
                lemma_listed_record_has_entry(entries, before, old_index);
            }
        }
    }
}

/// Deleting an image takes exactly its record out of the listing. Once a
/// listed entry is gone from the enumeration, the old listing is the new one
/// with the record of that entry put in; every other record is kept, in the
/// same order. If no other entry had the entry's path, no record of the new
/// listing has it.
pub proof fn lemma_deleted_image_leaves_listing(
    entries: Seq<DirectoryEntryView>,
    at: int,
    before: Seq<ImageRecord>,
    after: Seq<ImageRecord>,
)
    requires
        0 <= at < entries.len(),
        is_listed(entries[at]),
        is_listing_of(before, records_of(entries)),
        is_listing_of(after, records_of(entries.remove(at))),
    ensures
        before.len() == after.len() + 1,
        exists|place: int|
            0 <= place < before.len() && before[place] == record_of(entries[at]) && after
                == #[trigger] before.remove(place),
        (forall|i: int| 0 <= i < entries.len() && i != at ==> (#[trigger] entries[i]).path
            != entries[at].path) ==> forall|i: int|
            0 <= i < after.len() ==> (#[trigger] after[i]).path != entries[at].path,
{
    let left = entries.remove(at);
    let entry = entries[at];
    let record = record_of(entry);
    assert(left.insert(at, entry) =~= entries);
    lemma_records_of_insert(left, at, entry);
    let images = records_of(left);
    let index = records_of(left.take(at)).len() as int;
    lemma_listing_with_one_more(images, index, record, after, before);
    let place = slot(after, record.created_at, with_time(images.take(index), record.created_at).len());
    assert(before == after.insert(place, record));
    assert(before.remove(place) =~= after);
    if forall|i: int| 0 <= i < entries.len() && i != at ==> (#[trigger] entries[i]).path
        != entry.path {
        assert forall|i: int| 0 <= i < after.len() implies (#[trigger] after[i]).path
            != entry.path by {
            lemma_listed_record_has_entry(left, after, i);
            let from = choose|from: int|
                0 <= from < left.len() && is_listed(#[trigger] left[from]) && after[i]
                    == record_of(left[from]);
            let origin = if from < at {
                from
            } else {
                from + 1
            };
            assert(left[from] == entries[origin]);
        }
    }
}

} // verus!
