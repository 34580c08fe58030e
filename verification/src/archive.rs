//! The archive: an index of sites, sounding types, locations and files, and
//! the store of compressed blobs that the files name.

use vstd::prelude::*;
use crate::blobs::{
    blob_data, blob_names, blob_names_differ, blob_position, blobs_with, blobs_without, has_blob,
    is_unpacked, lemma_blob_position, lemma_blobs_after_storing, lemma_blobs_left,
    lemma_blobs_with, texts,
    BlobStore, BlobView,
};
use crate::errors::BufkitDataErr;
use crate::files::{
    file_position, files_not_naming, files_with, files_without, has_file,
    has_file_from, has_files, insert_ascending, is_file, is_time_line, keys_differ,
    lemma_file_position, lemma_files_left, lemma_files_with, lemma_name_position,
    lemma_names_left, lemma_names_with, lemma_rows_left, lemma_time_line, name_position,
    names_blob, names_differ, time_line, without_conflicts, FileRow,
};
use crate::inventory::{ascending, Inventory};
use crate::naming::{
    blob_name, blob_name_is_one_to_one, file_name_from_token, init_time_token, time_token,
};
use crate::location::{
    all_locations, coordinates_in_range, find_location, insert_location, location_fits,
    location_rows, locations_full, locations_updated, locations_wf, locations_with,
    restore_location, retrieve_location, retrieve_or_add_location, update_location,
    validated_location, Location, LocationView,
};
use crate::site::{
    all_sites, ascii_uppercase, find_site, insert_site, restore_site, retrieve_site, site_fits,
    site_named, site_rows, sites_full, sites_updated, sites_wf, sites_with, update_site,
    validated_site, Site, SiteView,
};
use crate::sounding_type::{
    all_sounding_types, find_type, insert_sounding_type, restore_sounding_type,
    retrieve_sounding_type, type_fits, type_rows, types_full, types_updated, types_wf,
    types_with, update_sounding_type, validated_type, FileType, SoundingType, SoundingTypeView,
};
use crate::trusted::{gunzipped, gzipped, text_from_utf8};
use vstd::string::StringExecFns;
use vstd::utf8::{decode_utf8, valid_utf8};

verus! {

/// A row of the table of files: what was stored, for which site, of which
/// type, from where and for which time, and the name of the blob.
pub struct FileRecord {
    type_id: i64,
    site_id: i64,
    location_id: i64,
    init_time: i64,
    file_name: String,
}

impl View for FileRecord {
    type V = FileRow;

    closed spec fn view(&self) -> FileRow {
        FileRow {
            type_id: self.type_id,
            site_id: self.site_id,
            location_id: self.location_id,
            init_time: self.init_time,
            file_name: self.file_name@,
        }
    }
}

/// The rows of a table of files, as mathematical values.
pub open spec fn file_rows(files: Seq<FileRecord>) -> Seq<FileRow> {
    Seq::new(files.len(), |i: int| files[i]@)
}

/// The text of a stored file, and the name of its blob, which says where
/// the soundings in the text come from: what a decoder of Bufkit files
/// takes.
#[derive(Debug, Clone, PartialEq, Eq)]
pub struct StoredText {
    /// The name of the blob that held the text.
    pub description: String,
    /// The text of the file.
    pub text: String,
}

/// Whether `r` is what reading the bytes of a file of the given encoding
/// gives: for a Bufkit file, which is text, the text that the bytes stand
/// for, and the error that says so where they stand for none; for any
/// other encoding, for which there is no decoder, the error that says so.
pub open spec fn is_decoded(
    bytes: Seq<u8>,
    file_type: FileType,
    r: Result<String, BufkitDataErr>,
) -> bool {
    match file_type {
        FileType::BUFR => r matches Err(BufkitDataErr::UnknownFileType),
        FileType::BUFKIT => if valid_utf8(bytes) {
            match r {
                Ok(text) => text@ == decode_utf8(bytes),
                Err(_) => false,
            }
        } else {
            r matches Err(BufkitDataErr::Utf8(_))
        },
    }
}

/// Reads the bytes of a sounding file of the given encoding as what a
/// decoder of that encoding takes: for a Bufkit file its text. Fails for an
/// encoding without a decoder, and for bytes that are no text.
pub fn decode_data(bytes: &[u8], file_type: FileType) -> (r: Result<String, BufkitDataErr>)
    ensures
        is_decoded(bytes@, file_type, r),
{
    match file_type {
        FileType::BUFKIT => match text_from_utf8(bytes) {
            Ok(text) => Ok(text.to_owned()),
            Err(e) => Err(BufkitDataErr::Utf8(e)),
        },
        FileType::BUFR => Err(BufkitDataErr::UnknownFileType),
    }
}

/// What an archive holds, as mathematical values: the four tables of the
/// index, each a sequence of rows, and the blobs of the store.
pub struct ArchiveView {
    pub sites: Seq<SiteView>,
    pub types: Seq<SoundingTypeView>,
    pub locations: Seq<LocationView>,
    pub files: Seq<FileRow>,
    pub blobs: Seq<BlobView>,
}

impl ArchiveView {
    /// Whether `site` carries the identifier of a row with its short name.
    pub open spec fn resolves_site(self, site: SiteView) -> bool {
        1 <= site.id <= self.sites.len() && self.sites[site.id - 1].short_name == site.short_name
    }

    /// Whether `sounding_type` carries the identifier of a row with its
    /// source.
    pub open spec fn resolves_type(self, sounding_type: SoundingTypeView) -> bool {
        1 <= sounding_type.id <= self.types.len() && self.types[sounding_type.id - 1].source
            == sounding_type.source
    }

    /// Whether `location` carries the identifier of a row at its place.
    pub open spec fn resolves_location(self, location: LocationView) -> bool {
        1 <= location.id <= self.locations.len() && self.locations[location.id - 1].same_place(
            location,
        )
    }

    /// Whether the row refers to rows that exist, for a time that has a
    /// token, and names the blob that its site, type and time give.
    pub open spec fn row_wf(self, row: FileRow) -> bool {
        &&& 1 <= row.site_id <= self.sites.len()
        &&& 1 <= row.type_id <= self.types.len()
        &&& 1 <= row.location_id <= self.locations.len()
        &&& init_time_token(row.init_time) is Some
        &&& row.file_name == blob_name(
            init_time_token(row.init_time)->0,
            self.types[row.type_id - 1].source,
            self.sites[row.site_id - 1].short_name,
        )
    }

    /// What holds of the table of files: each row is well formed, and no
    /// two rows conflict.
    pub open spec fn files_wf(self) -> bool {
        &&& self.files.len() < i64::MAX
        &&& forall|k: int| 0 <= k < self.files.len() ==> self.row_wf(#[trigger] self.files[k])
        &&& keys_differ(self.files)
        &&& names_differ(self.files)
    }

    /// What holds of the store: no two blobs share a name.
    pub open spec fn blobs_wf(self) -> bool {
        blob_names_differ(self.blobs)
    }

    /// What holds of every archive.
    pub open spec fn wf(self) -> bool {
        &&& sites_wf(self.sites)
        &&& types_wf(self.types)
        &&& locations_wf(self.locations)
        &&& self.files_wf()
        &&& self.blobs_wf()
    }

    /// Whether `row` can stand in the table of files as its next row: it is
    /// well formed, no row is for its site, type and time, none names its
    /// blob, and the table has room.
    pub open spec fn row_fits(self, row: FileRow) -> bool {
        &&& self.row_wf(row)
        &&& !has_file(self.files, row.site_id, row.type_id, row.init_time)
        &&& !names_blob(self.files, row.file_name)
        &&& !self.files_full()
    }

    /// The name of the blob of the file of this site and type for this
    /// time, if the index has that file.
    pub open spec fn file_name_for(self, site_id: i64, type_id: i64, init_time: i64) -> Option<
        Seq<char>,
    > {
        if has_file(self.files, site_id, type_id, init_time) {
            Some(self.files[file_position(self.files, site_id, type_id, init_time)].file_name)
        } else {
            None
        }
    }

    /// The compressed bytes under this name, if the store has them.
    pub open spec fn blob_data(self, name: Seq<char>) -> Option<Seq<u8>> {
        blob_data(self.blobs, name)
    }

    /// Whether `init_time` is the latest time for which the index has a
    /// file of this site and type.
    pub open spec fn is_latest(self, site_id: i64, type_id: i64, init_time: i64) -> bool {
        &&& has_file(self.files, site_id, type_id, init_time)
        &&& forall|k: int|
            0 <= k < self.files.len() && (#[trigger] self.files[k]).site_id == site_id
                && self.files[k].type_id == type_id ==> self.files[k].init_time <= init_time
    }

    /// Whether the three records carry identifiers of rows with their
    /// natural keys.
    pub open spec fn resolves(
        self,
        site: SiteView,
        sounding_type: SoundingTypeView,
        location: LocationView,
    ) -> bool {
        self.resolves_site(site) && self.resolves_type(sounding_type) && self.resolves_location(
            location,
        )
    }

    /// Whether the table of files has no room for one more row.
    pub open spec fn files_full(self) -> bool {
        self.files.len() + 1 >= i64::MAX
    }

    /// The row for a file of `site` and `sounding_type`, from `location`,
    /// for `init_time`.
    pub open spec fn new_row(
        self,
        site: SiteView,
        sounding_type: SoundingTypeView,
        location: LocationView,
        init_time: i64,
    ) -> FileRow {
        FileRow {
            type_id: sounding_type.id,
            site_id: site.id,
            location_id: location.id,
            init_time,
            file_name: blob_name(
                init_time_token(init_time)->0,
                sounding_type.source,
                site.short_name,
            ),
        }
    }

    /// Whether the archive takes a file of these three records for this
    /// time: they resolve, a calendar date stands for the time, and the
    /// table of files has room.
    pub open spec fn accepts(
        self,
        site: SiteView,
        sounding_type: SoundingTypeView,
        location: LocationView,
        init_time: i64,
    ) -> bool {
        &&& self.resolves(site, sounding_type, location)
        &&& init_time_token(init_time) is Some
        &&& !self.files_full()
    }

    /// Whether `e` is the error for the first thing that keeps the archive
    /// from taking a file of these three records for this time: a record
    /// that does not resolve, the site before the type before the location;
    /// a time without a calendar date; a table of files that is full.
    pub open spec fn is_refusal(
        self,
        site: SiteView,
        sounding_type: SoundingTypeView,
        location: LocationView,
        init_time: i64,
        e: BufkitDataErr,
    ) -> bool {
        if !self.resolves_site(site) {
            e.is_invalid_site(site)
        } else if !self.resolves_type(sounding_type) {
            e.is_invalid_type(sounding_type)
        } else if !self.resolves_location(location) {
            e.is_invalid_location(location)
        } else if init_time_token(init_time) is None {
            e == BufkitDataErr::InvalidInitTime(init_time)
        } else {
            self.files_full() && e is IndexFull
        }
    }

    /// The archive once the blob `packed` is in the store under the name
    /// that `row` gives, and `row` is in the index, each in place of what
    /// was in its way.
    pub open spec fn stored(self, row: FileRow, packed: Seq<u8>) -> ArchiveView {
        ArchiveView {
            files: files_with(self.files, row),
            blobs: blobs_with(self.blobs, BlobView { name: row.file_name, data: packed }),
            ..self
        }
    }

    /// The archive once the file of this site and type for this time has
    /// left the index, and its blob the store.
    pub open spec fn removed(self, site_id: i64, type_id: i64, init_time: i64) -> ArchiveView {
        match self.file_name_for(site_id, type_id, init_time) {
            Some(name) => ArchiveView {
                files: files_without(self.files, site_id, type_id, init_time),
                blobs: blobs_without(self.blobs, name),
                ..self
            },
            None => self,
        }
    }

    /// Whether `r` is what exporting the file of this site and type for
    /// this time gives: what reading its blob gives, or the error that says
    /// that the index has no such file.
    pub open spec fn is_export(
        self,
        site_id: i64,
        type_id: i64,
        init_time: i64,
        r: Result<Vec<u8>, BufkitDataErr>,
    ) -> bool {
        match self.file_name_for(site_id, type_id, init_time) {
            None => r matches Err(BufkitDataErr::NotFound),
            Some(name) => is_unpacked(self.blob_data(name), name, r),
        }
    }

    /// Whether `r` is what retrieving the file of this site and type for
    /// this time gives: its text under the name of its blob; the error of
    /// reading its bytes as text; the error of reading its blob; or the
    /// error that says that the index has no such file.
    pub open spec fn is_retrieved(
        self,
        site_id: i64,
        sounding_type: SoundingTypeView,
        init_time: i64,
        r: Result<StoredText, BufkitDataErr>,
    ) -> bool {
        match self.file_name_for(site_id, sounding_type.id, init_time) {
            None => r matches Err(BufkitDataErr::NotFound),
            Some(name) => match self.blob_data(name) {
                None => match r {
                    Err(e) => e.is_missing_blob(name),
                    Ok(_) => false,
                },
                Some(packed) => match gunzipped(packed) {
                    None => r matches Err(BufkitDataErr::Io(_)),
                    Some(bytes) => match sounding_type.file_type {
                        FileType::BUFR => r matches Err(BufkitDataErr::UnknownFileType),
                        FileType::BUFKIT => if valid_utf8(bytes) {
                            match r {
                                Ok(stored) => stored.description@ == name && stored.text@
                                    == decode_utf8(bytes),
                                Err(_) => false,
                            }
                        } else {
                            r matches Err(BufkitDataErr::Utf8(_))
                        },
                    },
                },
            },
        }
    }

    /// Whether index and store agree: every file names a blob that is
    /// there, and every blob is named by a file.
    pub open spec fn consistent(self) -> bool {
        forall|name: Seq<char>| #[trigger]
            names_blob(self.files, name) <==> has_blob(self.blobs, name)
    }
}

/// The sounding types of which the table has a file for this site, in the
/// order of their identifiers.
pub open spec fn types_with_files(
    types: Seq<SoundingTypeView>,
    files: Seq<FileRow>,
    site_id: i64,
) -> Seq<SoundingTypeView>
    decreases types.len(),
{
    if types.len() == 0 {
        types
    } else if has_files(files, site_id, types.last().id) {
        types_with_files(types.drop_last(), files, site_id).push(types.last())
    } else {
        types_with_files(types.drop_last(), files, site_id)
    }
}

/// The locations from which the table has a file of this site and type, in
/// the order of their identifiers.
pub open spec fn locations_with_files(
    locations: Seq<LocationView>,
    files: Seq<FileRow>,
    site_id: i64,
    type_id: i64,
) -> Seq<LocationView>
    decreases locations.len(),
{
    if locations.len() == 0 {
        locations
    } else if has_file_from(files, site_id, type_id, locations.last().id) {
        locations_with_files(locations.drop_last(), files, site_id, type_id).push(
            locations.last(),
        )
    } else {
        locations_with_files(locations.drop_last(), files, site_id, type_id)
    }
}

/// `locations_with_files` as a filter: it holds a location exactly when the
/// table of locations holds it and the table of files has a file of the
/// site and type from it; and it holds them in the order of the table.
pub proof fn lemma_locations_with_files(
    locations: Seq<LocationView>,
    files: Seq<FileRow>,
    site_id: i64,
    type_id: i64,
)
    ensures
        forall|location: LocationView| #[trigger]
            locations_with_files(locations, files, site_id, type_id).contains(location)
                <==> locations.contains(location) && has_file_from(
                files,
                site_id,
                type_id,
                location.id,
            ),
        locations_with_files(locations, files, site_id, type_id).len() <= locations.len(),
        (forall|i: int| 0 <= i < locations.len() ==> (#[trigger] locations[i]).id == i + 1)
            ==> forall|j: int, k: int|
            0 <= j < k < locations_with_files(locations, files, site_id, type_id).len() ==> (
            #[trigger] locations_with_files(locations, files, site_id, type_id)[j]).id < (
            #[trigger] locations_with_files(locations, files, site_id, type_id)[k]).id,
    decreases locations.len(),
{
    let all = locations_with_files(locations, files, site_id, type_id);
    if locations.len() == 0 {
        assert forall|location: LocationView| #[trigger]
            all.contains(location) <==> locations.contains(location) && has_file_from(
                files,
                site_id,
                type_id,
                location.id,
            ) by {}
    } else {
        let rest = locations.drop_last();
        let last = locations[locations.len() - 1];
        let found = locations_with_files(rest, files, site_id, type_id);
        lemma_locations_with_files(rest, files, site_id, type_id);
        assert(locations =~= rest.push(last));
        assert forall|location: LocationView| #[trigger]
            all.contains(location) <==> locations.contains(location) && has_file_from(
                files,
                site_id,
                type_id,
                location.id,
            ) by {
            assert(found.contains(location) <==> rest.contains(location) && has_file_from(
                files,
                site_id,
                type_id,
                location.id,
            ));
            if rest.contains(location) {
                let i = choose|i: int| 0 <= i < rest.len() && rest[i] == location;
                assert(locations[i] == location);
            }
            if locations.contains(location) {
                let i = choose|i: int| 0 <= i < locations.len() && locations[i] == location;
                if i < rest.len() {
                    assert(rest[i] == location);
                }
            }
            if location == last {
                assert(locations[locations.len() - 1] == location);
            }
            if has_file_from(files, site_id, type_id, last.id) {
                assert(all == found.push(last));
                if all.contains(location) {
                    let i = choose|i: int| 0 <= i < all.len() && all[i] == location;
                    if i < found.len() {
                        assert(found[i] == location);
                    }
                }
                if found.contains(location) {
                    let i = choose|i: int| 0 <= i < found.len() && found[i] == location;
                    assert(all[i] == location);
                }
                if location == last {
                    assert(all[found.len() as int] == location);
                }
            } else {
                assert(all == found);
            }
        }
        if forall|i: int| 0 <= i < locations.len() ==> (#[trigger] locations[i]).id == i + 1 {
            assert forall|i: int| 0 <= i < rest.len() implies (#[trigger] rest[i]).id == i + 1 by {
                assert(rest[i] == locations[i]);
            }
            assert forall|j: int, k: int| 0 <= j < k < all.len() implies (#[trigger] all[j]).id < (
            #[trigger] all[k]).id by {
                if k < found.len() {
                    assert(found[j].id < found[k].id);
                } else {
                    assert(all[j] == found[j]);
                    assert(found.contains(found[j]));
                    assert(rest.contains(found[j]));
                    let i = choose|i: int| 0 <= i < rest.len() && rest[i] == found[j];
                    assert(rest[i].id == i + 1);
                }
            }
        }
    }
}

/// What `types_with_files` holds, for a table of types that is well
/// formed: rows of the table, each with a file for the site, in ascending
/// order of their identifiers, and every row that has a file for the site.
pub proof fn lemma_types_with_files(
    types: Seq<SoundingTypeView>,
    files: Seq<FileRow>,
    site_id: i64,
)
    requires
        forall|i: int| 0 <= i < types.len() ==> (#[trigger] types[i]).id == i + 1,
    ensures
        forall|j: int|
            0 <= j < types_with_files(types, files, site_id).len() ==> {
                let found = #[trigger] types_with_files(types, files, site_id)[j];
                &&& 1 <= found.id <= types.len()
                &&& found == types[found.id - 1]
                &&& has_files(files, site_id, found.id)
            },
        forall|j: int, k: int|
            0 <= j < k < types_with_files(types, files, site_id).len() ==> (
            #[trigger] types_with_files(types, files, site_id)[j]).id < (#[trigger] types_with_files(
                types,
                files,
                site_id,
            )[k]).id,
        forall|i: int|
            0 <= i < types.len() && has_files(files, site_id, (#[trigger] types[i]).id)
                ==> types_with_files(types, files, site_id).contains(types[i]),
    decreases types.len(),
{
    let all = types_with_files(types, files, site_id);
    if types.len() > 0 {
        let rest = types.drop_last();
        let last = types[types.len() - 1];
        let found = types_with_files(rest, files, site_id);
        assert forall|i: int| 0 <= i < rest.len() implies (#[trigger] rest[i]).id == i + 1 by {
            assert(rest[i] == types[i]);
        }
        lemma_types_with_files(rest, files, site_id);
        assert forall|j: int| 0 <= j < all.len() implies {
            let row = #[trigger] all[j];
            &&& 1 <= row.id <= types.len()
            &&& row == types[row.id - 1]
            &&& has_files(files, site_id, row.id)
        } by {
            if j < found.len() {
                let row = found[j];
                assert(all[j] == row);
                assert(row == rest[row.id - 1]);
            }
        }
        assert forall|j: int, k: int| 0 <= j < k < all.len() implies (#[trigger] all[j]).id < (
        #[trigger] all[k]).id by {
            if k < found.len() {
                assert(found[j].id < found[k].id);
            } else {
                assert(all[j] == found[j]);
                assert(found[j].id <= rest.len());
            }
        }
        assert forall|i: int|
            0 <= i < types.len() && has_files(
                files,
                site_id,
                (#[trigger] types[i]).id,
            ) implies all.contains(types[i]) by {
            if i < rest.len() {
                assert(rest[i] == types[i]);
                assert(found.contains(rest[i]));
                let j = choose|j: int| 0 <= j < found.len() && found[j] == rest[i];
                assert(all[j] == types[i]);
            } else {
                assert(all[all.len() - 1] == types[i]);
            }
        }
    }
}

/// The names of the blobs that the rows name and the store does not have,
/// in the order of the rows.
pub open spec fn files_missing_blobs(files: Seq<FileRow>, blobs: Seq<BlobView>) -> Seq<Seq<char>>
    decreases files.len(),
{
    if files.len() == 0 {
        Seq::empty()
    } else if has_blob(blobs, files.last().file_name) {
        files_missing_blobs(files.drop_last(), blobs)
    } else {
        files_missing_blobs(files.drop_last(), blobs).push(files.last().file_name)
    }
}

/// The names of the blobs that the store has and no row names, in the
/// order of the blobs.
pub open spec fn blobs_missing_files(blobs: Seq<BlobView>, files: Seq<FileRow>) -> Seq<Seq<char>>
    decreases blobs.len(),
{
    if blobs.len() == 0 {
        Seq::empty()
    } else if names_blob(files, blobs.last().name) {
        blobs_missing_files(blobs.drop_last(), files)
    } else {
        blobs_missing_files(blobs.drop_last(), files).push(blobs.last().name)
    }
}

/// The first list of the report as a set: it holds a name exactly when a
/// row names a blob of that name and the store has none; and no name
/// twice, where no two rows name the same blob.
pub proof fn lemma_files_missing_blobs(files: Seq<FileRow>, blobs: Seq<BlobView>)
    ensures
        forall|name: Seq<char>| #[trigger]
            files_missing_blobs(files, blobs).contains(name) <==> names_blob(files, name)
                && !has_blob(blobs, name),
        names_differ(files) ==> files_missing_blobs(files, blobs).no_duplicates(),
    decreases files.len(),
{
    let all = files_missing_blobs(files, blobs);
    if files.len() == 0 {
        assert forall|name: Seq<char>| #[trigger]
            all.contains(name) <==> names_blob(files, name) && !has_blob(blobs, name) by {}
    } else {
        let rest = files.drop_last();
        let last = files[files.len() - 1];
        let found = files_missing_blobs(rest, blobs);
        lemma_files_missing_blobs(rest, blobs);
        assert(files =~= rest.push(last));
        assert forall|name: Seq<char>| #[trigger]
            all.contains(name) <==> names_blob(files, name) && !has_blob(blobs, name) by {
            lemma_names_with(rest, last, name);
            assert(found.contains(name) <==> names_blob(rest, name) && !has_blob(blobs, name));
            if has_blob(blobs, last.file_name) {
                assert(all == found);
            } else {
                assert(all == found.push(last.file_name));
                if all.contains(name) {
                    let i = choose|i: int| 0 <= i < all.len() && all[i] == name;
                    if i < found.len() {
                        assert(found[i] == name);
                    }
                }
                if found.contains(name) {
                    let i = choose|i: int| 0 <= i < found.len() && found[i] == name;
                    assert(all[i] == name);
                }
                if name == last.file_name {
                    assert(all[found.len() as int] == name);
                }
            }
        }
        if names_differ(files) {
            assert(names_differ(rest)) by {
                assert forall|a: int, b: int|
                    0 <= a < b < rest.len() implies (#[trigger] rest[a]).file_name
                    != (#[trigger] rest[b]).file_name by {
                    assert(files[a].file_name != files[b].file_name);
                }
            }
            if !has_blob(blobs, last.file_name) {
                assert(!names_blob(rest, last.file_name)) by {
                    if names_blob(rest, last.file_name) {
                        let i = choose|i: int|
                            0 <= i < rest.len() && (#[trigger] rest[i]).file_name == last.file_name;
                        assert(files[i].file_name != files[files.len() - 1].file_name);
                    }
                }
                assert(!found.contains(last.file_name));
                assert forall|i: int, j: int|
                    0 <= i < all.len() && 0 <= j < all.len() && i != j implies all[i] != all[j] by {
                    if i < found.len() && j < found.len() {
                        assert(found[i] != found[j]);
                    } else if i < found.len() {
                        assert(found.contains(found[i]));
                    } else {
                        assert(found.contains(found[j]));
                    }
                }
            }
        }
    }
}

/// The second list of the report as a set: it holds a name exactly when
/// the store has a blob of that name and no row names it; and no name
/// twice, where no two blobs share a name.
pub proof fn lemma_blobs_missing_files(blobs: Seq<BlobView>, files: Seq<FileRow>)
    ensures
        forall|name: Seq<char>| #[trigger]
            blobs_missing_files(blobs, files).contains(name) <==> has_blob(blobs, name)
                && !names_blob(files, name),
        blob_names_differ(blobs) ==> blobs_missing_files(blobs, files).no_duplicates(),
    decreases blobs.len(),
{
    let all = blobs_missing_files(blobs, files);
    if blobs.len() == 0 {
        assert forall|name: Seq<char>| #[trigger]
            all.contains(name) <==> has_blob(blobs, name) && !names_blob(files, name) by {}
    } else {
        let rest = blobs.drop_last();
        let last = blobs[blobs.len() - 1];
        let found = blobs_missing_files(rest, files);
        lemma_blobs_missing_files(rest, files);
        assert(blobs =~= rest.push(last));
        assert forall|name: Seq<char>| #[trigger]
            all.contains(name) <==> has_blob(blobs, name) && !names_blob(files, name) by {
            lemma_blobs_with(rest, last, name);
            assert(found.contains(name) <==> has_blob(rest, name) && !names_blob(files, name));
            if names_blob(files, last.name) {
                assert(all == found);
            } else {
                assert(all == found.push(last.name));
                if all.contains(name) {
                    let i = choose|i: int| 0 <= i < all.len() && all[i] == name;
                    if i < found.len() {
                        assert(found[i] == name);
                    }
                }
                if found.contains(name) {
                    let i = choose|i: int| 0 <= i < found.len() && found[i] == name;
                    assert(all[i] == name);
                }
                if name == last.name {
                    assert(all[found.len() as int] == name);
                }
            }
        }
        if blob_names_differ(blobs) {
            assert(blob_names_differ(rest)) by {
                assert forall|a: int, b: int|
                    0 <= a < b < rest.len() implies (#[trigger] rest[a]).name
                    != (#[trigger] rest[b]).name by {
                    assert(blobs[a].name != blobs[b].name);
                }
            }
            if !names_blob(files, last.name) {
                assert(!has_blob(rest, last.name)) by {
                    if has_blob(rest, last.name) {
                        let i = choose|i: int|
                            0 <= i < rest.len() && (#[trigger] rest[i]).name == last.name;
                        assert(blobs[i].name != blobs[blobs.len() - 1].name);
                    }
                }
                assert(!found.contains(last.name));
                assert forall|i: int, j: int|
                    0 <= i < all.len() && 0 <= j < all.len() && i != j implies all[i] != all[j] by {
                    if i < found.len() && j < found.len() {
                        assert(found[i] != found[j]);
                    } else if i < found.len() {
                        assert(found.contains(found[i]));
                    } else {
                        assert(found.contains(found[j]));
                    }
                }
            }
        }
    }
}

/// Where the store has every blob that the rows name, none is missing.
pub proof fn lemma_no_blob_missing(files: Seq<FileRow>, blobs: Seq<BlobView>)
    requires
        forall|k: int| 0 <= k < files.len() ==> has_blob(blobs, (#[trigger] files[k]).file_name),
    ensures
        files_missing_blobs(files, blobs) == Seq::<Seq<char>>::empty(),
    decreases files.len(),
{
    if files.len() > 0 {
        let rest = files.drop_last();
        assert(has_blob(blobs, files[files.len() - 1].file_name));
        assert forall|k: int| 0 <= k < rest.len() implies has_blob(
            blobs,
            (#[trigger] rest[k]).file_name,
        ) by {
            assert(rest[k] == files[k]);
        }
        lemma_no_blob_missing(rest, blobs);
    }
}

/// Where the rows name every blob that the store has, none is left over.
pub proof fn lemma_no_file_missing(blobs: Seq<BlobView>, files: Seq<FileRow>)
    requires
        forall|k: int| 0 <= k < blobs.len() ==> names_blob(files, (#[trigger] blobs[k]).name),
    ensures
        blobs_missing_files(blobs, files) == Seq::<Seq<char>>::empty(),
    decreases blobs.len(),
{
    if blobs.len() > 0 {
        let rest = blobs.drop_last();
        assert(names_blob(files, blobs[blobs.len() - 1].name));
        assert forall|k: int| 0 <= k < rest.len() implies names_blob(
            files,
            (#[trigger] rest[k]).name,
        ) by {
            assert(rest[k] == blobs[k]);
        }
        lemma_no_file_missing(rest, files);
    }
}

/// An archive whose index and store agree has nothing to report: no blob
/// is missing from the store, and none is missing from the index.
pub proof fn nothing_to_report_when_consistent(archive: ArchiveView)
    requires
        archive.consistent(),
    ensures
        files_missing_blobs(archive.files, archive.blobs) == Seq::<Seq<char>>::empty(),
        blobs_missing_files(archive.blobs, archive.files) == Seq::<Seq<char>>::empty(),
{
    assert forall|k: int| 0 <= k < archive.files.len() implies has_blob(
        archive.blobs,
        (#[trigger] archive.files[k]).file_name,
    ) by {
        assert(names_blob(archive.files, archive.files[k].file_name));
    }
    assert forall|k: int| 0 <= k < archive.blobs.len() implies names_blob(
        archive.files,
        (#[trigger] archive.blobs[k]).name,
    ) by {
        assert(has_blob(archive.blobs, archive.blobs[k].name));
    }
    lemma_no_blob_missing(archive.files, archive.blobs);
    lemma_no_file_missing(archive.blobs, archive.files);
}

/// Among rows of which none names a blob twice, and of which only the rows
/// that name `gone` lack their blob: the one name `gone` is missing if a
/// row names it, and nothing is missing if none does.
proof fn lemma_one_blob_missing(files: Seq<FileRow>, blobs: Seq<BlobView>, gone: Seq<char>)
    requires
        names_differ(files),
        !has_blob(blobs, gone),
        forall|k: int|
            0 <= k < files.len() && (#[trigger] files[k]).file_name != gone ==> has_blob(
                blobs,
                files[k].file_name,
            ),
    ensures
        files_missing_blobs(files, blobs) == if names_blob(files, gone) {
            seq![gone]
        } else {
            Seq::<Seq<char>>::empty()
        },
    decreases files.len(),
{
    if files.len() > 0 {
        let rest = files.drop_last();
        let last = files[files.len() - 1];
        assert forall|k: int| 0 <= k < rest.len() implies rest[k] == files[k] by {}
        assert(names_differ(rest)) by {
            assert forall|a: int, b: int|
                0 <= a < b < rest.len() implies (#[trigger] rest[a]).file_name
                != (#[trigger] rest[b]).file_name by {
                assert(files[a].file_name != files[b].file_name);
            }
        }
        assert forall|k: int|
            0 <= k < rest.len() && (#[trigger] rest[k]).file_name != gone implies has_blob(
            blobs,
            rest[k].file_name,
        ) by {
            assert(files[k].file_name != gone);
        }
        lemma_one_blob_missing(rest, blobs, gone);
        assert(files =~= rest.push(last));
        lemma_names_with(rest, last, gone);
        if last.file_name == gone {
            assert(!names_blob(rest, gone)) by {
                if names_blob(rest, gone) {
                    let i = choose|i: int| 0 <= i < rest.len() && (#[trigger] rest[i]).file_name
                        == gone;
                    assert(files[i].file_name != files[files.len() - 1].file_name);
                }
            }
            assert(Seq::<Seq<char>>::empty().push(gone) =~= seq![gone]);
        } else {
            assert(has_blob(blobs, files[files.len() - 1].file_name));
        }
    }
}

/// After one blob has left the store of an archive whose index and store
/// agreed, behind the back of the index, the report names exactly that
/// blob as missing from the store, and none as missing from the index.
pub proof fn deleted_blob_is_reported(archive: ArchiveView, gone: Seq<char>)
    requires
        archive.wf(),
        archive.consistent(),
        has_blob(archive.blobs, gone),
    ensures
        files_missing_blobs(archive.files, blobs_without(archive.blobs, gone)) == seq![gone],
        blobs_missing_files(blobs_without(archive.blobs, gone), archive.files) == Seq::<
            Seq<char>,
        >::empty(),
{
    let k = blob_position(archive.blobs, gone);
    let left = blobs_without(archive.blobs, gone);
    lemma_blobs_left(archive.blobs, k, gone);
    assert(names_blob(archive.files, gone));
    assert forall|i: int|
        0 <= i < archive.files.len() && (#[trigger] archive.files[i]).file_name
            != gone implies has_blob(left, archive.files[i].file_name) by {
        let name = archive.files[i].file_name;
        assert(names_blob(archive.files, name));
        assert(has_blob(archive.blobs, name));
        lemma_blobs_left(archive.blobs, k, name);
    }
    lemma_one_blob_missing(archive.files, left, gone);
    assert forall|i: int| 0 <= i < left.len() implies names_blob(
        archive.files,
        (#[trigger] left[i]).name,
    ) by {
        let name = left[i].name;
        assert(has_blob(left, name));
        lemma_blobs_left(archive.blobs, k, name);
    }
    lemma_no_file_missing(left, archive.files);
}

/// Which blobs the index names once a row has been put in: the one that
/// the row names, and those that it named before.
pub proof fn lemma_names_after_storing(archive: ArchiveView, row: FileRow, name: Seq<char>)
    requires
        archive.wf(),
        archive.row_wf(row),
    ensures
        names_blob(files_with(archive.files, row), name) <==> row.file_name == name || names_blob(
            archive.files,
            name,
        ),
{
    let files = archive.files;
    let first = files_without(files, row.site_id, row.type_id, row.init_time);
    let second = files_not_naming(first, row.file_name);
    lemma_names_with(second, row, name);
    if has_file(files, row.site_id, row.type_id, row.init_time) {
        let k = file_position(files, row.site_id, row.type_id, row.init_time);
        // The row in the way is for the same site, type and time, so it
        // names the same blob.
        assert(archive.row_wf(files[k]));
        assert(files[k].file_name == row.file_name);
        lemma_names_left(files, k, name);
    }
    if names_blob(first, row.file_name) {
        lemma_names_left(first, name_position(first, row.file_name), name);
    }
}

/// Storing a file keeps index and store in agreement.
pub proof fn lemma_stored_consistent(archive: ArchiveView, row: FileRow, packed: Seq<u8>)
    requires
        archive.wf(),
        archive.row_wf(row),
        archive.consistent(),
    ensures
        archive.stored(row, packed).consistent(),
{
    let after = archive.stored(row, packed);
    assert forall|name: Seq<char>| #[trigger]
        names_blob(after.files, name) <==> has_blob(after.blobs, name) by {
        lemma_names_after_storing(archive, row, name);
        lemma_blobs_after_storing(
            archive.blobs,
            BlobView { name: row.file_name, data: packed },
            name,
        );
        assert(names_blob(archive.files, name) <==> has_blob(archive.blobs, name));
    }
}

/// Removing a file with its blob keeps index and store in agreement.
pub proof fn lemma_removed_consistent(
    archive: ArchiveView,
    site_id: i64,
    type_id: i64,
    init_time: i64,
)
    requires
        archive.wf(),
        archive.consistent(),
    ensures
        archive.removed(site_id, type_id, init_time).consistent(),
{
    let after = archive.removed(site_id, type_id, init_time);
    if has_file(archive.files, site_id, type_id, init_time) {
        let k = file_position(archive.files, site_id, type_id, init_time);
        let gone = archive.files[k].file_name;
        assert(names_blob(archive.files, gone));
        assert(has_blob(archive.blobs, gone));
        assert forall|name: Seq<char>| #[trigger]
            names_blob(after.files, name) <==> has_blob(after.blobs, name) by {
            lemma_names_left(archive.files, k, name);
            lemma_blobs_left(archive.blobs, blob_position(archive.blobs, gone), name);
            assert(names_blob(archive.files, name) <==> has_blob(archive.blobs, name));
        }
    }
}

/// The table without what conflicts with `row`: its rows are rows of the
/// table, none of them conflicts with another or with `row`.
pub proof fn lemma_without_conflicts(archive: ArchiveView, row: FileRow)
    requires
        archive.wf(),
    ensures
        keys_differ(without_conflicts(archive.files, row)),
        names_differ(without_conflicts(archive.files, row)),
        without_conflicts(archive.files, row).len() <= archive.files.len(),
        !has_file(without_conflicts(archive.files, row), row.site_id, row.type_id, row.init_time),
        !names_blob(without_conflicts(archive.files, row), row.file_name),
        forall|i: int|
            0 <= i < without_conflicts(archive.files, row).len() ==> archive.row_wf(
                #[trigger] without_conflicts(archive.files, row)[i],
            ),
        forall|site_id: i64, type_id: i64, init_time: i64| #[trigger]
            has_file(without_conflicts(archive.files, row), site_id, type_id, init_time)
                ==> has_file(archive.files, site_id, type_id, init_time),
{
    let files = archive.files;
    let first = files_without(files, row.site_id, row.type_id, row.init_time);
    let second = files_not_naming(first, row.file_name);
    assert(second == without_conflicts(files, row));
    if has_file(files, row.site_id, row.type_id, row.init_time) {
        let k = file_position(files, row.site_id, row.type_id, row.init_time);
        lemma_rows_left(files, k);
        lemma_files_left(files, k, row.site_id, row.type_id, row.init_time);
        assert forall|i: int| 0 <= i < first.len() implies archive.row_wf(#[trigger] first[i]) by {
            let i0 = if i < k { i } else { i + 1 };
            assert(archive.row_wf(files[i0]));
        }
        assert forall|site_id: i64, type_id: i64, init_time: i64| #[trigger]
            has_file(first, site_id, type_id, init_time) implies has_file(
            files,
            site_id,
            type_id,
            init_time,
        ) by {
            lemma_files_left(files, k, site_id, type_id, init_time);
        }
    }
    if names_blob(first, row.file_name) {
        let k = name_position(first, row.file_name);
        lemma_rows_left(first, k);
        lemma_names_left(first, k, row.file_name);
        lemma_files_left(first, k, row.site_id, row.type_id, row.init_time);
        assert forall|i: int|
            0 <= i < second.len() implies archive.row_wf(#[trigger] second[i]) by {
            let i0 = if i < k { i } else { i + 1 };
            assert(archive.row_wf(first[i0]));
        }
        assert forall|site_id: i64, type_id: i64, init_time: i64| #[trigger]
            has_file(second, site_id, type_id, init_time) implies has_file(
            files,
            site_id,
            type_id,
            init_time,
        ) by {
            lemma_files_left(first, k, site_id, type_id, init_time);
        }
    }
}

/// Storing a file in a well formed archive that has room gives a well
/// formed archive, in which the row stored is the last of the table and
/// the blob stored the last of the store.
pub proof fn lemma_stored_wf(archive: ArchiveView, row: FileRow, packed: Seq<u8>)
    requires
        archive.wf(),
        archive.row_wf(row),
        !archive.files_full(),
    ensures
        archive.stored(row, packed).wf(),
        archive.stored(row, packed).files.last() == row,
        archive.stored(row, packed).blobs.last() == (BlobView {
            name: row.file_name,
            data: packed,
        }),
{
    let after = archive.stored(row, packed);
    let kept = without_conflicts(archive.files, row);
    lemma_without_conflicts(archive, row);
    assert forall|i: int| 0 <= i < after.files.len() implies after.row_wf(
        #[trigger] after.files[i],
    ) by {
        if i < kept.len() {
            assert(archive.row_wf(kept[i]));
        }
    }
    assert forall|a: int, b: int| 0 <= a < b < after.files.len() implies !is_file(
        #[trigger] after.files[a],
        (#[trigger] after.files[b]).site_id,
        after.files[b].type_id,
        after.files[b].init_time,
    ) by {
        if b == kept.len() {
            assert(!is_file(kept[a], row.site_id, row.type_id, row.init_time));
        } else {
            assert(!is_file(kept[a], kept[b].site_id, kept[b].type_id, kept[b].init_time));
        }
    }
    assert forall|a: int, b: int| 0 <= a < b < after.files.len() implies (
    #[trigger] after.files[a]).file_name != (#[trigger] after.files[b]).file_name by {
        if b == kept.len() {
            assert(kept[a].file_name != row.file_name);
        } else {
            assert(kept[a].file_name != kept[b].file_name);
        }
    }
    let blobs = blobs_without(archive.blobs, row.file_name);
    if has_blob(archive.blobs, row.file_name) {
        lemma_blobs_left(archive.blobs, blob_position(archive.blobs, row.file_name), row.file_name);
    }
    assert forall|a: int, b: int| 0 <= a < b < after.blobs.len() implies (
    #[trigger] after.blobs[a]).name != (#[trigger] after.blobs[b]).name by {
        if b == blobs.len() {
            assert(blobs[a].name != row.file_name);
        } else {
            assert(blobs[a].name != blobs[b].name);
        }
    }
}

/// Two rows that name the same blob are for the same site, the same
/// sounding type and the same minute: names collide only where the keys do.
pub proof fn rows_of_one_name_are_of_one_key(archive: ArchiveView, a: FileRow, b: FileRow)
    requires
        archive.wf(),
        archive.row_wf(a),
        archive.row_wf(b),
        a.file_name == b.file_name,
    ensures
        a.site_id == b.site_id,
        a.type_id == b.type_id,
        init_time_token(a.init_time) == init_time_token(b.init_time),
{
    let site_a = archive.sites[a.site_id - 1];
    let site_b = archive.sites[b.site_id - 1];
    let type_a = archive.types[a.type_id - 1];
    let type_b = archive.types[b.type_id - 1];
    blob_name_is_one_to_one(
        init_time_token(a.init_time)->0,
        type_a.source,
        site_a.short_name,
        init_time_token(b.init_time)->0,
        type_b.source,
        site_b.short_name,
    );
    if a.site_id < b.site_id {
        assert(site_a.short_name != site_b.short_name);
    }
    if b.site_id < a.site_id {
        assert(site_b.short_name != site_a.short_name);
    }
    if a.type_id < b.type_id {
        assert(type_a.source != type_b.source);
    }
    if b.type_id < a.type_id {
        assert(type_b.source != type_a.source);
    }
}

/// What was stored is there: the index has the file, under the name that
/// the row gives, and the store has the blob under that name.
pub proof fn stored_file_is_there(archive: ArchiveView, row: FileRow, packed: Seq<u8>)
    requires
        archive.wf(),
        archive.row_wf(row),
        !archive.files_full(),
    ensures
        has_file(archive.stored(row, packed).files, row.site_id, row.type_id, row.init_time),
        archive.stored(row, packed).file_name_for(row.site_id, row.type_id, row.init_time)
            == Some(row.file_name),
        archive.stored(row, packed).blob_data(row.file_name) == Some(packed),
{
    let after = archive.stored(row, packed);
    lemma_stored_wf(archive, row, packed);
    let last = after.files.len() - 1;
    assert(is_file(after.files[last], row.site_id, row.type_id, row.init_time));
    lemma_file_position(after.files, row.site_id, row.type_id, row.init_time, last);
    let at = after.blobs.len() - 1;
    assert(after.blobs[at].name == row.file_name);
    lemma_blob_position(after.blobs, row.file_name, at);
}

/// What was added comes back: once a file is stored, exporting it gives
/// the bytes that its blob decompresses to. With `add_file`, whose blob
/// decompresses to the source, those are the bytes of the source.
pub proof fn export_gives_back_what_was_added(
    archive: ArchiveView,
    row: FileRow,
    packed: Seq<u8>,
    source: Seq<u8>,
    r: Result<Vec<u8>, BufkitDataErr>,
)
    requires
        archive.wf(),
        archive.row_wf(row),
        !archive.files_full(),
        gunzipped(packed) == Some(source),
        archive.stored(row, packed).is_export(row.site_id, row.type_id, row.init_time, r),
    ensures
        r is Ok,
        r->Ok_0@ == source,
{
    stored_file_is_there(archive, row, packed);
}

/// Once a file has been removed, the index has no file of its site and
/// type for its time.
pub proof fn removed_file_is_gone(archive: ArchiveView, site_id: i64, type_id: i64, init_time: i64)
    requires
        archive.wf(),
    ensures
        !has_file(archive.removed(site_id, type_id, init_time).files, site_id, type_id, init_time),
{
    if has_file(archive.files, site_id, type_id, init_time) {
        lemma_files_left(
            archive.files,
            file_position(archive.files, site_id, type_id, init_time),
            site_id,
            type_id,
            init_time,
        );
    }
}

/// Adding a file adds no other: a file that the index does not have, and
/// that is not the one added, it does not have afterwards either. So a
/// file that was never added is never there.
pub proof fn adding_a_file_adds_no_other(
    archive: ArchiveView,
    row: FileRow,
    packed: Seq<u8>,
    site_id: i64,
    type_id: i64,
    init_time: i64,
)
    requires
        archive.wf(),
        !is_file(row, site_id, type_id, init_time),
        !has_file(archive.files, site_id, type_id, init_time),
    ensures
        !has_file(archive.stored(row, packed).files, site_id, type_id, init_time),
{
    lemma_without_conflicts(archive, row);
    lemma_files_with(without_conflicts(archive.files, row), row, site_id, type_id, init_time);
    assert(!has_file(without_conflicts(archive.files, row), site_id, type_id, init_time));
}

/// An archive of soundings.
pub struct Archive {
    /// The table of sites.
    sites: Vec<Site>,
    /// The table of sounding types.
    types: Vec<SoundingType>,
    /// The table of locations.
    locations: Vec<Location>,
    /// The table of files.
    files: Vec<FileRecord>,
    /// The store of compressed blobs.
    blobs: BlobStore,
}

impl View for Archive {
    type V = ArchiveView;

    closed spec fn view(&self) -> ArchiveView {
        ArchiveView {
            sites: site_rows(self.sites@),
            types: type_rows(self.types@),
            locations: location_rows(self.locations@),
            files: file_rows(self.files@),
            blobs: self.blobs@,
        }
    }
}

impl Archive {
    /// Whether the archive is well formed. Every archive that this library
    /// hands out is.
    pub open spec fn wf(&self) -> bool {
        self@.wf()
    }

    // ---------------------------------------------------------------------
    // Creating an archive
    // ---------------------------------------------------------------------
    /// A new archive: an index without rows and a store without blobs.
    pub fn create() -> (r: Self)
        ensures
            r.wf(),
            r@.consistent(),
            r@.sites.len() == 0,
            r@.types.len() == 0,
            r@.locations.len() == 0,
            r@.files.len() == 0,
            r@.blobs.len() == 0,
    {
        let r = Archive {
            sites: Vec::new(),
            types: Vec::new(),
            locations: Vec::new(),
            files: Vec::new(),
            blobs: BlobStore::new(),
        };
        assert forall|name: Seq<char>| #[trigger]
            names_blob(r@.files, name) <==> has_blob(r@.blobs, name) by {}
        r
    }

    // ---------------------------------------------------------------------
    // Sites
    // ---------------------------------------------------------------------
    /// All the sites in the index, in the order of their identifiers.
    pub fn sites(&self) -> (r: Vec<Site>)
        ensures
            site_rows(r@) == self@.sites,
    {
        all_sites(&self.sites)
    }

    /// The site for this short name, or `None` if the index has none. The
    /// short name is looked for in upper case, as sites keep it.
    pub fn site_info(&self, short_name: &str) -> (r: Option<Site>)
        requires
            self.wf(),
        ensures
            r matches Some(site) ==> find_site(self@.sites, ascii_uppercase(short_name@))
                == Some(site@),
            r is None ==> find_site(self@.sites, ascii_uppercase(short_name@)) is None,
    {
        retrieve_site(&self.sites, short_name)
    }

    /// Gives the site in the index that has the short name of `site` the
    /// descriptive fields of `site`, and returns it as it then stands: the
    /// short name and the identifier stay. The site handed in need not be
    /// validated. Fails if the index has no site of that short name.
    pub fn set_site_info(&mut self, site: Site) -> (r: Result<Site, BufkitDataErr>)
        requires
            old(self).wf(),
        ensures
            final(self).wf(),
            final(self)@ == (ArchiveView {
                sites: sites_updated(old(self)@.sites, site@),
                ..old(self)@
            }),
            old(self)@.consistent() ==> final(self)@.consistent(),
            match r {
                Ok(updated) => find_site(old(self)@.sites, site@.short_name) is Some && Some(
                    updated@,
                ) == find_site(final(self)@.sites, site@.short_name),
                Err(e) => find_site(old(self)@.sites, site@.short_name) is None
                    && e.is_invalid_site(site@),
            },
    {
        let ghost before = self@;
        match update_site(&mut self.sites, &site) {
            Some(updated) => {
                proof {
                    crate::site::update_keeps_identity(before.sites, site@);
                    self.lemma_rows_stay(before);
                }
                Ok(updated)
            },
            None => Err(BufkitDataErr::InvalidSite(site)),
        }
    }

    /// The site that stands for `site` in the index: `site` itself if it
    /// carries an identifier, else the site of the index with its short
    /// name. Fails if there is none.
    pub fn validate_site(&self, site: Site) -> (r: Result<Site, BufkitDataErr>)
        requires
            self.wf(),
        ensures
            match r {
                Ok(valid) => validated_site(self@.sites, site@) == Some(valid@),
                Err(e) => validated_site(self@.sites, site@) is None && e.is_invalid_site(site@),
            },
    {
        if site.is_known() {
            Ok(site)
        } else {
            match site_named(&self.sites, site.short_name()) {
                Some(retrieved) => Ok(retrieved),
                None => Err(BufkitDataErr::InvalidSite(site)),
            }
        }
    }

    /// The site that stands for `site` in the index, which gets a new row
    /// for it if it has none: `site` itself if it carries an identifier,
    /// else the site of the index with its short name, else `site` under
    /// the next identifier. Fails, and changes nothing, if a row is needed
    /// and the table is full.
    pub fn validate_or_add_site(&mut self, site: Site) -> (r: Result<Site, BufkitDataErr>)
        requires
            old(self).wf(),
        ensures
            final(self).wf(),
            old(self)@.consistent() ==> final(self)@.consistent(),
            match r {
                Ok(valid) => final(self)@ == (ArchiveView {
                    sites: sites_with(old(self)@.sites, site@),
                    ..old(self)@
                }) && validated_site(final(self)@.sites, site@) == Some(valid@) && (
                validated_site(old(self)@.sites, site@) is Some || !sites_full(old(self)@.sites)),
                Err(e) => final(self)@ == old(self)@ && validated_site(old(self)@.sites, site@)
                    is None && sites_full(old(self)@.sites) && e is IndexFull,
            },
    {
        let ghost before = self@;
        if site.is_known() {
            Ok(site)
        } else {
            match site_named(&self.sites, site.short_name()) {
                Some(retrieved) => Ok(retrieved),
                None => {
                    let ghost unknown = site@;
                    match insert_site(&mut self.sites, site) {
                        Some(added) => {
                            proof {
                                let after = self@;
                                assert(after.sites[before.sites.len() as int] == added@);
                                crate::site::lemma_site_position(
                                    after.sites,
                                    unknown.short_name,
                                    before.sites.len() as int,
                                );
                                self.lemma_rows_stay(before);
                            }
                            Ok(added)
                        },
                        None => Err(BufkitDataErr::IndexFull),
                    }
                },
            }
        }
    }

    // ---------------------------------------------------------------------
    // Sounding types
    // ---------------------------------------------------------------------
    /// All the sounding types in the index, in the order of their
    /// identifiers.
    pub fn sounding_types(&self) -> (r: Vec<SoundingType>)
        ensures
            type_rows(r@) == self@.types,
    {
        all_sounding_types(&self.types)
    }

    /// The sounding type with this source, or `None` if the index has
    /// none. The source is looked for as it is written here.
    pub fn sounding_type_info(&self, source: &str) -> (r: Option<SoundingType>)
        requires
            self.wf(),
        ensures
            r matches Some(sounding_type) ==> find_type(self@.types, source@) == Some(
                sounding_type@,
            ),
            r is None ==> find_type(self@.types, source@) is None,
    {
        retrieve_sounding_type(&self.types, source)
    }

    /// Gives the sounding type in the index that has the source of
    /// `sounding_type` the cadence and the observed flag of
    /// `sounding_type`, and returns it as it then stands: the source, the
    /// encoding and the identifier stay. The sounding type handed in need
    /// not be validated. Fails if the index has no sounding type of that
    /// source.
    pub fn set_sounding_type_info(&mut self, sounding_type: SoundingType) -> (r: Result<
        SoundingType,
        BufkitDataErr,
    >)
        requires
            old(self).wf(),
        ensures
            final(self).wf(),
            final(self)@ == (ArchiveView {
                types: types_updated(old(self)@.types, sounding_type@),
                ..old(self)@
            }),
            old(self)@.consistent() ==> final(self)@.consistent(),
            match r {
                Ok(updated) => find_type(old(self)@.types, sounding_type@.source) is Some && Some(
                    updated@,
                ) == find_type(final(self)@.types, sounding_type@.source),
                Err(e) => find_type(old(self)@.types, sounding_type@.source) is None
                    && e.is_invalid_type(sounding_type@),
            },
    {
        let ghost before = self@;
        match update_sounding_type(&mut self.types, &sounding_type) {
            Some(updated) => {
                proof {
                    crate::sounding_type::type_update_keeps_identity(
                        before.types,
                        sounding_type@,
                    );
                    self.lemma_rows_stay(before);
                }
                Ok(updated)
            },
            None => Err(BufkitDataErr::InvalidSoundingType(sounding_type)),
        }
    }

    /// The sounding type that stands for `sounding_type` in the index:
    /// `sounding_type` itself if it carries an identifier, else the
    /// sounding type of the index with its source. Fails if there is none.
    pub fn validate_sounding_type(&self, sounding_type: SoundingType) -> (r: Result<
        SoundingType,
        BufkitDataErr,
    >)
        requires
            self.wf(),
        ensures
            match r {
                Ok(valid) => validated_type(self@.types, sounding_type@) == Some(valid@),
                Err(e) => validated_type(self@.types, sounding_type@) is None && e.is_invalid_type(
                    sounding_type@,
                ),
            },
    {
        if sounding_type.is_valid() {
            Ok(sounding_type)
        } else {
            match retrieve_sounding_type(&self.types, sounding_type.source()) {
                Some(retrieved) => Ok(retrieved),
                None => Err(BufkitDataErr::InvalidSoundingType(sounding_type)),
            }
        }
    }

    /// The sounding type that stands for `sounding_type` in the index,
    /// which gets a new row for it if it has none: `sounding_type` itself
    /// if it carries an identifier, else the sounding type of the index
    /// with its source, else `sounding_type` under the next identifier.
    /// Fails, and changes nothing, if a row is needed and the table is
    /// full.
    pub fn validate_or_add_sounding_type(&mut self, sounding_type: SoundingType) -> (r: Result<
        SoundingType,
        BufkitDataErr,
    >)
        requires
            old(self).wf(),
        ensures
            final(self).wf(),
            old(self)@.consistent() ==> final(self)@.consistent(),
            match r {
                Ok(valid) => final(self)@ == (ArchiveView {
                    types: types_with(old(self)@.types, sounding_type@),
                    ..old(self)@
                }) && validated_type(final(self)@.types, sounding_type@) == Some(valid@) && (
                validated_type(old(self)@.types, sounding_type@) is Some || !types_full(
                    old(self)@.types,
                )),
                Err(e) => final(self)@ == old(self)@ && validated_type(
                    old(self)@.types,
                    sounding_type@,
                ) is None && types_full(old(self)@.types) && e is IndexFull,
            },
    {
        let ghost before = self@;
        if sounding_type.is_valid() {
            Ok(sounding_type)
        } else {
            match retrieve_sounding_type(&self.types, sounding_type.source()) {
                Some(retrieved) => Ok(retrieved),
                None => {
                    let ghost unknown = sounding_type@;
                    match insert_sounding_type(&mut self.types, sounding_type) {
                        Some(added) => {
                            proof {
                                let after = self@;
                                assert(after.types[before.types.len() as int] == added@);
                                crate::sounding_type::lemma_type_position(
                                    after.types,
                                    unknown.source,
                                    before.types.len() as int,
                                );
                                self.lemma_rows_stay(before);
                            }
                            Ok(added)
                        },
                        None => Err(BufkitDataErr::IndexFull),
                    }
                },
            }
        }
    }

    // ---------------------------------------------------------------------
    // Locations
    // ---------------------------------------------------------------------
    /// All the locations in the index, in the order of their identifiers.
    pub fn all_locations(&self) -> (r: Vec<Location>)
        ensures
            location_rows(r@) == self@.locations,
    {
        all_locations(&self.locations)
    }

    /// The row with these coordinates, in microdegrees, and this elevation,
    /// or `None` if the index has none.
    pub fn location_info(&self, latitude: i64, longitude: i64, elevation_m: i32) -> (r: Option<
        Location,
    >)
        requires
            self.wf(),
        ensures
            r matches Some(location) ==> Some(location@) == find_location(
                self@.locations,
                latitude,
                longitude,
                elevation_m,
            ),
            r is None ==> find_location(self@.locations, latitude, longitude, elevation_m) is None,
    {
        retrieve_location(&self.locations, latitude, longitude, elevation_m)
    }

    /// The location with these coordinates, in microdegrees, and this
    /// elevation, for which the index gets a new row, without a time zone
    /// offset, if it has none. The coordinates must lie in the canonical
    /// ranges. Fails, and changes nothing, if a row is needed and the table
    /// is full.
    pub fn retrieve_or_add_location(&mut self, latitude: i64, longitude: i64, elevation_m: i32) -> (r:
        Result<Location, BufkitDataErr>)
        requires
            old(self).wf(),
            coordinates_in_range(latitude, longitude),
        ensures
            final(self).wf(),
            old(self)@.consistent() ==> final(self)@.consistent(),
            ({
                let place = LocationView {
                    latitude,
                    longitude,
                    elevation_m,
                    tz_offset: None,
                    id: -1i64,
                };
                match r {
                    Ok(valid) => final(self)@ == (ArchiveView {
                        locations: locations_with(old(self)@.locations, place),
                        ..old(self)@
                    }) && validated_location(final(self)@.locations, place) == Some(valid@),
                    Err(e) => final(self)@ == old(self)@ && validated_location(
                        old(self)@.locations,
                        place,
                    ) is None && locations_full(old(self)@.locations) && e is IndexFull,
                }
            }),
    {
        let ghost before = self@;
        match retrieve_or_add_location(&mut self.locations, latitude, longitude, elevation_m) {
            Some(location) => {
                proof {
                    self.lemma_rows_stay(before);
                }
                Ok(location)
            },
            None => Err(BufkitDataErr::IndexFull),
        }
    }

    /// Gives the location in the index that is at the place of `location` the
    /// time zone offset of `location`, and returns it as it then stands:
    /// nothing else of it changes. The location handed in need not be
    /// validated. Fails if the index has no location at that place.
    pub fn set_location_info(&mut self, location: Location) -> (r: Result<Location, BufkitDataErr>)
        requires
            old(self).wf(),
        ensures
            final(self).wf(),
            final(self)@ == (ArchiveView {
                locations: locations_updated(old(self)@.locations, location@),
                ..old(self)@
            }),
            old(self)@.consistent() ==> final(self)@.consistent(),
            match r {
                Ok(updated) => find_location(
                    old(self)@.locations,
                    location@.latitude,
                    location@.longitude,
                    location@.elevation_m,
                ) is Some && Some(
                    updated@,
                ) == find_location(
                    final(self)@.locations,
                    location@.latitude,
                    location@.longitude,
                    location@.elevation_m,
                ),
                Err(e) => find_location(
                    old(self)@.locations,
                    location@.latitude,
                    location@.longitude,
                    location@.elevation_m,
                ) is None
                    && e.is_invalid_location(location@),
            },
    {
        let ghost before = self@;
        match update_location(&mut self.locations, location) {
            Some(updated) => {
                proof {
                    self.lemma_rows_stay(before);
                }
                Ok(updated)
            },
            None => Err(BufkitDataErr::InvalidLocation(location)),
        }
    }

    /// The location that stands for `location` in the index: `location`
    /// itself if it carries an identifier, else the location of the index
    /// at the same place. Fails if there is none.
    pub fn validate_location(&self, location: Location) -> (r: Result<Location, BufkitDataErr>)
        requires
            self.wf(),
        ensures
            match r {
                Ok(valid) => validated_location(self@.locations, location@) == Some(valid@),
                Err(e) => validated_location(self@.locations, location@) is None
                    && e.is_invalid_location(location@),
            },
    {
        if location.is_valid() {
            Ok(location)
        } else {
            match retrieve_location(
                &self.locations,
                location.latitude(),
                location.longitude(),
                location.elevation(),
            ) {
                Some(retrieved) => Ok(retrieved),
                None => Err(BufkitDataErr::InvalidLocation(location)),
            }
        }
    }

    /// The location that stands for `location` in the index, which gets a
    /// new row for it if it has none: `location` itself if it carries an
    /// identifier, else the location of the index at the same place, else
    /// `location` under the next identifier. Fails, and changes nothing, if
    /// a row is needed and the table is full.
    pub fn validate_or_add_location(&mut self, location: Location) -> (r: Result<
        Location,
        BufkitDataErr,
    >)
        requires
            old(self).wf(),
        ensures
            final(self).wf(),
            old(self)@.consistent() ==> final(self)@.consistent(),
            match r {
                Ok(valid) => final(self)@ == (ArchiveView {
                    locations: locations_with(old(self)@.locations, location@),
                    ..old(self)@
                }) && validated_location(final(self)@.locations, location@) == Some(valid@) && (
                validated_location(old(self)@.locations, location@) is Some || !locations_full(
                    old(self)@.locations,
                )),
                Err(e) => final(self)@ == old(self)@ && validated_location(
                    old(self)@.locations,
                    location@,
                ) is None && locations_full(old(self)@.locations) && e is IndexFull,
            },
    {
        let ghost before = self@;
        if location.is_valid() {
            Ok(location)
        } else {
            match retrieve_location(
                &self.locations,
                location.latitude(),
                location.longitude(),
                location.elevation(),
            ) {
                Some(retrieved) => Ok(retrieved),
                None => {
                    match insert_location(&mut self.locations, location) {
                        Some(added) => {
                            proof {
                                let after = self@;
                                assert(after.locations[before.locations.len() as int] == added@);
                                crate::location::lemma_location_position(
                                    after.locations,
                                    location@.latitude,
                                    location@.longitude,
                                    location@.elevation_m,
                                    before.locations.len() as int,
                                );
                                self.lemma_rows_stay(before);
                            }
                            Ok(added)
                        },
                        None => Err(BufkitDataErr::IndexFull),
                    }
                },
            }
        }
    }

    // ---------------------------------------------------------------------
    // Files
    // ---------------------------------------------------------------------
    /// The place of the file of this site and type for this time.
    fn locate_file(&self, site_id: i64, type_id: i64, init_time: i64) -> (r: Option<usize>)
        requires
            self.wf(),
        ensures
            match r {
                Some(k) => has_file(self@.files, site_id, type_id, init_time) && k
                    == file_position(self@.files, site_id, type_id, init_time),
                None => !has_file(self@.files, site_id, type_id, init_time),
            },
    {
        let ghost rows = self@.files;
        let mut k: usize = 0;
        while k < self.files.len()
            invariant
                0 <= k <= self.files.len(),
                rows == self@.files,
                keys_differ(rows),
                forall|l: int|
                    0 <= l < k ==> !is_file(#[trigger] rows[l], site_id, type_id, init_time),
            decreases self.files.len() - k,
        {
            let row = &self.files[k];
            if row.site_id == site_id && row.type_id == type_id && row.init_time == init_time {
                proof {
                    assert(is_file(rows[k as int], site_id, type_id, init_time));
                    lemma_file_position(rows, site_id, type_id, init_time, k as int);
                }
                return Some(k);
            }
            k = k + 1;
        }
        None
    }

    /// The place of the row that names this blob.
    fn locate_named(&self, name: &String) -> (r: Option<usize>)
        requires
            self.wf(),
        ensures
            match r {
                Some(k) => names_blob(self@.files, name@) && k == name_position(
                    self@.files,
                    name@,
                ),
                None => !names_blob(self@.files, name@),
            },
    {
        let ghost rows = self@.files;
        let mut k: usize = 0;
        while k < self.files.len()
            invariant
                0 <= k <= self.files.len(),
                rows == self@.files,
                names_differ(rows),
                forall|l: int| 0 <= l < k ==> (#[trigger] rows[l]).file_name != name@,
            decreases self.files.len() - k,
        {
            if self.files[k].file_name == *name {
                proof {
                    assert(rows[k as int].file_name == name@);
                    lemma_name_position(rows, name@, k as int);
                }
                return Some(k);
            }
            k = k + 1;
        }
        None
    }

    /// The latest initialization time, in seconds, for which the index has
    /// a file of this site and type. Fails if it has none.
    pub fn most_recent_valid_time(&self, site: &Site, sounding_type: &SoundingType) -> (r: Result<
        i64,
        BufkitDataErr,
    >)
        requires
            self.wf(),
        ensures
            match r {
                Ok(init_time) => self@.is_latest(site@.id, sounding_type@.id, init_time),
                Err(e) => !has_files(self@.files, site@.id, sounding_type@.id) && e is NotFound,
            },
    {
        let site_id = site.id();
        let type_id = sounding_type.id();
        let ghost rows = self@.files;
        let mut latest: Option<i64> = None;
        let mut k: usize = 0;
        while k < self.files.len()
            invariant
                0 <= k <= self.files.len(),
                rows == self@.files,
                latest matches Some(t) ==> exists|l: int|
                    0 <= l < k && is_file(#[trigger] rows[l], site_id, type_id, t),
                forall|l: int|
                    0 <= l < k && (#[trigger] rows[l]).site_id == site_id && rows[l].type_id
                        == type_id ==> latest is Some && rows[l].init_time <= latest->0,
            decreases self.files.len() - k,
        {
            let row = &self.files[k];
            if row.site_id == site_id && row.type_id == type_id {
                let later = match latest {
                    Some(t) => t < row.init_time,
                    None => true,
                };
                if later {
                    latest = Some(row.init_time);
                    assert(is_file(rows[k as int], site_id, type_id, row.init_time));
                }
            }
            k = k + 1;
        }
        match latest {
            Some(init_time) => Ok(init_time),
            None => Err(BufkitDataErr::NotFound),
        }
    }

    /// Whether the index has a file of this site and type for this time,
    /// which is in seconds.
    pub fn file_exists(&self, site: &Site, sounding_type: &SoundingType, init_time: i64) -> (r:
        bool)
        requires
            self.wf(),
        ensures
            r == has_file(self@.files, site@.id, sounding_type@.id, init_time),
    {
        self.locate_file(site.id(), sounding_type.id(), init_time).is_some()
    }

    /// The number of files in the index.
    pub fn count(&self) -> (r: i64)
        requires
            self.wf(),
        ensures
            r == self@.files.len(),
    {
        self.files.len() as i64
    }

    /// The name of the blob of the file of this site and type for this
    /// time. Fails if the index has no such file.
    pub fn get_file_name_for(&self, site: &Site, sounding_type: &SoundingType, init_time: i64) -> (r:
        Result<String, BufkitDataErr>)
        requires
            self.wf(),
        ensures
            match r {
                Ok(name) => self@.file_name_for(site@.id, sounding_type@.id, init_time) == Some(
                    name@,
                ),
                Err(e) => self@.file_name_for(site@.id, sounding_type@.id, init_time) is None
                    && e is NotFound,
            },
    {
        match self.locate_file(site.id(), sounding_type.id(), init_time) {
            Some(k) => Ok(self.files[k].file_name.clone()),
            None => Err(BufkitDataErr::NotFound),
        }
    }

    /// The bytes of the file of this site and type for this time, as they
    /// were before they were compressed.
    pub fn export(&self, site: &Site, sounding_type: &SoundingType, init_time: i64) -> (r: Result<
        Vec<u8>,
        BufkitDataErr,
    >)
        requires
            self.wf(),
        ensures
            self@.is_export(site@.id, sounding_type@.id, init_time, r),
    {
        match self.get_file_name_for(site, sounding_type, init_time) {
            Ok(file_name) => self.blobs.load(file_name.as_str()),
            Err(e) => Err(e),
        }
    }

    /// The name of the blob for a file of `site` and `sounding_type` for
    /// `init_time`, which is in seconds. `None` if no calendar date stands
    /// for the time.
    pub fn compressed_file_name(site: &Site, sounding_type: &SoundingType, init_time: i64) -> (r:
        Option<String>)
        ensures
            match r {
                Some(name) => init_time_token(init_time) is Some && name@ == blob_name(
                    init_time_token(init_time)->0,
                    sounding_type@.source,
                    site@.short_name,
                ),
                None => init_time_token(init_time) is None,
            },
    {
        match time_token(init_time) {
            Some(token) => Some(
                file_name_from_token(token.as_str(), sounding_type.source(), site.short_name()),
            ),
            None => None,
        }
    }

    /// Whether `site` carries the identifier of a row with its short name.
    fn resolves_site(&self, site: &Site) -> (r: bool)
        ensures
            r == self@.resolves_site(site@),
    {
        let id = site.id();
        if id < 1 || id as u64 > self.sites.len() as u64 {
            false
        } else {
            self.sites[(id - 1) as usize].same_short_name(site)
        }
    }

    /// Whether `sounding_type` carries the identifier of a row with its
    /// source.
    fn resolves_type(&self, sounding_type: &SoundingType) -> (r: bool)
        ensures
            r == self@.resolves_type(sounding_type@),
    {
        let id = sounding_type.id();
        if id < 1 || id as u64 > self.types.len() as u64 {
            false
        } else {
            self.types[(id - 1) as usize].same_source(sounding_type)
        }
    }

    /// Whether `location` carries the identifier of a row at its place.
    fn resolves_location(&self, location: &Location) -> (r: bool)
        ensures
            r == self@.resolves_location(location@),
    {
        let id = location.id();
        if id < 1 || id as u64 > self.locations.len() as u64 {
            false
        } else {
            self.locations[(id - 1) as usize].same_place(location)
        }
    }

    /// Takes the row at place `k` out of the table of files.
    fn drop_row(&mut self, k: usize)
        requires
            old(self).wf(),
            k < old(self)@.files.len(),
        ensures
            final(self).wf(),
            final(self)@ == (ArchiveView { files: old(self)@.files.remove(k as int), ..old(self)@ }),
    {
        let ghost before = self@;
        self.files.remove(k);
        proof {
            assert(self@.files =~= before.files.remove(k as int));
            lemma_rows_left(before.files, k as int);
            assert forall|i: int| 0 <= i < self@.files.len() implies self@.row_wf(
                #[trigger] self@.files[i],
            ) by {
                let i0 = if i < k { i } else { i + 1 };
                assert(before.row_wf(before.files[i0]));
            }
        }
    }

    /// Puts a row at the end of the table of files.
    fn push_row(&mut self, record: FileRecord)
        requires
            old(self).wf(),
            old(self)@.row_wf(record@),
            !old(self)@.files_full(),
            !has_file(old(self)@.files, record@.site_id, record@.type_id, record@.init_time),
            !names_blob(old(self)@.files, record@.file_name),
        ensures
            final(self).wf(),
            final(self)@ == (ArchiveView { files: old(self)@.files.push(record@), ..old(self)@ }),
    {
        let ghost before = self@;
        let ghost row = record@;
        self.files.push(record);
        proof {
            let after = self@.files;
            assert(after =~= before.files.push(row));
            assert forall|i: int|
                0 <= i < after.len() implies self@.row_wf(#[trigger] after[i]) by {
                if i < before.files.len() {
                    assert(before.row_wf(before.files[i]));
                }
            }
            assert forall|a: int, b: int| 0 <= a < b < after.len() implies !is_file(
                #[trigger] after[a],
                (#[trigger] after[b]).site_id,
                after[b].type_id,
                after[b].init_time,
            ) by {
                if b == before.files.len() {
                    assert(!is_file(before.files[a], row.site_id, row.type_id, row.init_time));
                } else {
                    assert(!is_file(
                        before.files[a],
                        before.files[b].site_id,
                        before.files[b].type_id,
                        before.files[b].init_time,
                    ));
                }
            }
            assert forall|a: int, b: int|
                0 <= a < b < after.len() implies (#[trigger] after[a]).file_name
                != (#[trigger] after[b]).file_name by {
                if b == before.files.len() {
                    assert(before.files[a].file_name != row.file_name);
                } else {
                    assert(before.files[a].file_name != before.files[b].file_name);
                }
            }
        }
    }

    /// The name of the blob for a new file of these three records for this
    /// time, if the archive takes the file; the error that says why not, if
    /// it does not.
    fn name_for_new_file(
        &self,
        site: &Site,
        sounding_type: &SoundingType,
        location: &Location,
        init_time: i64,
    ) -> (r: Result<String, BufkitDataErr>)
        ensures
            match r {
                Ok(name) => self@.accepts(site@, sounding_type@, location@, init_time) && name@
                    == self@.new_row(site@, sounding_type@, location@, init_time).file_name,
                Err(e) => !self@.accepts(site@, sounding_type@, location@, init_time)
                    && self@.is_refusal(site@, sounding_type@, location@, init_time, e),
            },
    {
        if !self.resolves_site(site) {
            return Err(BufkitDataErr::InvalidSite(site.clone()));
        }
        if !self.resolves_type(sounding_type) {
            return Err(BufkitDataErr::InvalidSoundingType(sounding_type.clone()));
        }
        if !self.resolves_location(location) {
            return Err(BufkitDataErr::InvalidLocation(*location));
        }
        let file_name = match Self::compressed_file_name(site, sounding_type, init_time) {
            Some(name) => name,
            None => {
                return Err(BufkitDataErr::InvalidInitTime(init_time));
            },
        };
        if self.files.len() as u64 >= 0x7fff_ffff_ffff_fffe {
            return Err(BufkitDataErr::IndexFull);
        }
        Ok(file_name)
    }

    /// Puts the row for a new file into the index, in place of what was in
    /// its way. The store is left as it is.
    fn index_file(
        &mut self,
        site: &Site,
        sounding_type: &SoundingType,
        location: &Location,
        init_time: i64,
        file_name: String,
    )
        requires
            old(self).wf(),
            old(self)@.accepts(site@, sounding_type@, location@, init_time),
            file_name@ == old(self)@.new_row(
                site@,
                sounding_type@,
                location@,
                init_time,
            ).file_name,
        ensures
            final(self).wf(),
            final(self)@ == (ArchiveView {
                files: files_with(
                    old(self)@.files,
                    old(self)@.new_row(site@, sounding_type@, location@, init_time),
                ),
                ..old(self)@
            }),
    {
        let ghost before = self@;
        let ghost row = before.new_row(site@, sounding_type@, location@, init_time);
        let in_the_way = self.locate_file(site.id(), sounding_type.id(), init_time);
        if let Some(k) = in_the_way {
            self.drop_row(k);
        }
        let ghost first = self@.files;
        let same_name = self.locate_named(&file_name);
        if let Some(k) = same_name {
            self.drop_row(k);
        }
        proof {
            assert(first == files_without(before.files, row.site_id, row.type_id, row.init_time));
            assert(self@.files == files_not_naming(first, row.file_name));
            if has_file(before.files, row.site_id, row.type_id, row.init_time) {
                let k = file_position(before.files, row.site_id, row.type_id, row.init_time);
                lemma_files_left(before.files, k, row.site_id, row.type_id, row.init_time);
            }
            if names_blob(first, row.file_name) {
                let k = name_position(first, row.file_name);
                lemma_names_left(first, k, row.file_name);
                lemma_files_left(first, k, row.site_id, row.type_id, row.init_time);
            }
        }
        self.push_row(
            FileRecord {
                type_id: sounding_type.id(),
                site_id: site.id(),
                location_id: location.id(),
                init_time,
                file_name,
            },
        );
    }

    /// Puts a file into the archive, given its bytes as they are once
    /// compressed: the blob goes into the store under the name that site,
    /// type and time give, and then the row into the index, each in place
    /// of what was in its way.
    ///
    /// The three records must be validated. Nothing changes on an error:
    /// where one of them carries an identifier that the index does not
    /// have for its natural key, where no calendar date stands for the
    /// time, or where the table of files is full.
    pub fn add_compressed(
        &mut self,
        site: &Site,
        sounding_type: &SoundingType,
        location: &Location,
        init_time: i64,
        packed: Vec<u8>,
    ) -> (r: Result<(), BufkitDataErr>)
        requires
            old(self).wf(),
            site@.is_known(),
            sounding_type@.is_valid(),
            location@.is_valid(),
        ensures
            final(self).wf(),
            old(self)@.consistent() ==> final(self)@.consistent(),
            match r {
                Ok(_) => old(self)@.accepts(site@, sounding_type@, location@, init_time)
                    && final(self)@ == old(self)@.stored(
                    old(self)@.new_row(site@, sounding_type@, location@, init_time),
                    packed@,
                ),
                Err(e) => !old(self)@.accepts(site@, sounding_type@, location@, init_time)
                    && old(self)@.is_refusal(site@, sounding_type@, location@, init_time, e)
                    && final(self)@ == old(self)@,
            },
    {
        let ghost before = self@;
        match self.name_for_new_file(site, sounding_type, location, init_time) {
            Ok(file_name) => {
                proof {
                    if before.consistent() {
                        lemma_stored_consistent(
                            before,
                            before.new_row(site@, sounding_type@, location@, init_time),
                            packed@,
                        );
                    }
                }
                // The blob first, then the row that names it.
                self.blobs.put(file_name.clone(), packed);
                self.index_file(site, sounding_type, location, init_time, file_name);
                Ok(())
            },
            Err(e) => Err(e),
        }
    }

    /// Adds a file to the archive: `source` holds its bytes. They are
    /// compressed into a blob under the name that site, type and time give,
    /// and then the index gets its row for the file. A file that is there
    /// for the same site, type and time is replaced. Afterwards the blob of
    /// the file decompresses to `source`.
    ///
    /// The three records must be validated. Nothing changes on an error:
    /// where the archive does not take the file, as with `add_compressed`,
    /// and where it would but the compressor reports an error.
    pub fn add_file(
        &mut self,
        site: &Site,
        sounding_type: &SoundingType,
        location: &Location,
        init_time: i64,
        source: &[u8],
    ) -> (r: Result<(), BufkitDataErr>)
        requires
            old(self).wf(),
            site@.is_known(),
            sounding_type@.is_valid(),
            location@.is_valid(),
        ensures
            final(self).wf(),
            old(self)@.consistent() ==> final(self)@.consistent(),
            if !old(self)@.accepts(site@, sounding_type@, location@, init_time) {
                final(self)@ == old(self)@ && match r {
                    Err(e) => old(self)@.is_refusal(site@, sounding_type@, location@, init_time, e),
                    Ok(_) => false,
                }
            } else {
                match gzipped(source@) {
                    Some(packed) => r is Ok && gunzipped(packed) == Some(source@) && final(self)@
                        == old(self)@.stored(
                        old(self)@.new_row(site@, sounding_type@, location@, init_time),
                        packed,
                    ),
                    None => r matches Err(BufkitDataErr::Io(_)) && final(self)@ == old(self)@,
                }
            },
    {
        let ghost before = self@;
        let ghost row = before.new_row(site@, sounding_type@, location@, init_time);
        let file_name = match self.name_for_new_file(site, sounding_type, location, init_time) {
            Ok(name) => name,
            Err(e) => {
                return Err(e);
            },
        };
        // The blob first, then the row that names it.
        match self.blobs.store(source, file_name.as_str()) {
            Ok(_) => {
                self.index_file(site, sounding_type, location, init_time, file_name);
                proof {
                    let packed = gzipped(source@)->0;
                    assert(self@ == before.stored(row, packed));
                    if before.consistent() {
                        lemma_stored_consistent(before, row, packed);
                    }
                }
                Ok(())
            },
            Err(e) => Err(e),
        }
    }

    /// Removes a file from the archive: first its blob from the store, then
    /// its row from the index. Nothing changes on an error: where the index
    /// has no file of this site and type for this time, or where the store
    /// has no blob of the name that the row gives.
    pub fn remove(&mut self, site: &Site, sounding_type: &SoundingType, init_time: i64) -> (r:
        Result<(), BufkitDataErr>)
        requires
            old(self).wf(),
        ensures
            final(self).wf(),
            old(self)@.consistent() ==> final(self)@.consistent(),
            match old(self)@.file_name_for(site@.id, sounding_type@.id, init_time) {
                None => r matches Err(BufkitDataErr::NotFound) && final(self)@ == old(self)@,
                Some(name) => if has_blob(old(self)@.blobs, name) {
                    r is Ok && final(self)@ == old(self)@.removed(
                        site@.id,
                        sounding_type@.id,
                        init_time,
                    )
                } else {
                    final(self)@ == old(self)@ && match r {
                        Err(e) => e.is_missing_blob(name),
                        Ok(_) => false,
                    }
                },
            },
    {
        let ghost before = self@;
        let k = match self.locate_file(site.id(), sounding_type.id(), init_time) {
            Some(k) => k,
            None => {
                return Err(BufkitDataErr::NotFound);
            },
        };
        let file_name = self.files[k].file_name.clone();
        if !self.blobs.delete(file_name.as_str()) {
            return Err(BufkitDataErr::MissingBlob(file_name));
        }
        self.drop_row(k);
        proof {
            if before.consistent() {
                lemma_removed_consistent(before, site@.id, sounding_type@.id, init_time);
            }
        }
        Ok(())
    }

    /// Puts a blob into the store without a word to the index, in place of
    /// the one of its name: what copying a file into the managed directory
    /// does.
    pub fn put_blob(&mut self, name: &str, packed: Vec<u8>)
        requires
            old(self).wf(),
        ensures
            final(self).wf(),
            final(self)@ == (ArchiveView {
                blobs: blobs_with(old(self)@.blobs, BlobView { name: name@, data: packed@ }),
                ..old(self)@
            }),
    {
        self.blobs.put(name.to_owned(), packed)
    }

    /// The compressed bytes that the store holds under this name, if it
    /// holds any.
    pub fn blob(&self, name: &str) -> (r: Option<&[u8]>)
        requires
            self.wf(),
        ensures
            match r {
                Some(packed) => self@.blob_data(name@) == Some(packed@),
                None => self@.blob_data(name@) is None,
            },
    {
        self.blobs.get(name)
    }

    /// Takes a blob out of the store without a word to the index, and says
    /// whether it was there: what deleting a file from the managed
    /// directory does.
    pub fn discard_blob(&mut self, name: &str) -> (r: bool)
        requires
            old(self).wf(),
        ensures
            final(self).wf(),
            r == has_blob(old(self)@.blobs, name@),
            final(self)@ == (ArchiveView {
                blobs: blobs_without(old(self)@.blobs, name@),
                ..old(self)@
            }),
    {
        self.blobs.delete(name)
    }

    /// Holds the index against the store, and repairs nothing.
    ///
    /// The first list names the blobs that the index names and the store
    /// does not have, in the order of the rows; the second the blobs that
    /// the store has and the index does not name, in the order of the
    /// store. Both are empty where index and store agree.
    pub fn check(&self) -> (r: (Vec<String>, Vec<String>))
        requires
            self.wf(),
        ensures
            texts(r.0@) == files_missing_blobs(self@.files, self@.blobs),
            texts(r.1@) == blobs_missing_files(self@.blobs, self@.files),
            self@.consistent() ==> r.0@.len() == 0 && r.1@.len() == 0,
    {
        let ghost files = self@.files;
        let ghost blobs = self@.blobs;
        let mut missing_on_disk: Vec<String> = Vec::new();
        let mut k: usize = 0;
        assert(files.take(0) =~= Seq::<FileRow>::empty());
        while k < self.files.len()
            invariant
                0 <= k <= self.files.len(),
                self.wf(),
                files == self@.files,
                blobs == self@.blobs,
                texts(missing_on_disk@) =~= files_missing_blobs(files.take(k as int), blobs),
            decreases self.files.len() - k,
        {
            proof {
                let upto = files.take(k + 1);
                assert(upto.drop_last() =~= files.take(k as int));
                assert(upto.last() == files[k as int]);
            }
            let name = &self.files[k].file_name;
            if !self.blobs.contains(name.as_str()) {
                missing_on_disk.push(name.clone());
            }
            k = k + 1;
        }
        let mut missing_from_index: Vec<String> = Vec::new();
        let mut k: usize = 0;
        assert(blobs.take(0) =~= Seq::<BlobView>::empty());
        assert(files.take(files.len() as int) =~= files);
        let names = self.blobs.names();
        assert(names.len() == blobs.len()) by {
            assert(texts(names@).len() == blob_names(blobs).len());
        }
        while k < names.len()
            invariant
                0 <= k <= names.len(),
                names.len() == blobs.len(),
                self.wf(),
                files == self@.files,
                blobs == self@.blobs,
                texts(names@) == blob_names(blobs),
                texts(missing_from_index@) =~= blobs_missing_files(blobs.take(k as int), files),
            decreases names.len() - k,
        {
            proof {
                let upto = blobs.take(k + 1);
                assert(upto.drop_last() =~= blobs.take(k as int));
                assert(upto.last() == blobs[k as int]);
                assert(texts(names@)[k as int] == blob_names(blobs)[k as int]);
            }
            let name = &names[k];
            if self.locate_named(name).is_none() {
                missing_from_index.push(name.clone());
            }
            k = k + 1;
        }
        proof {
            assert(blobs.take(blobs.len() as int) =~= blobs);
            if self@.consistent() {
                nothing_to_report_when_consistent(self@);
            }
        }
        (missing_on_disk, missing_from_index)
    }

    // ---------------------------------------------------------------------
    // What the index holds for a site
    // ---------------------------------------------------------------------
    /// Whether the index has a file of this site and type, for any time.
    fn has_files_for(&self, site_id: i64, type_id: i64) -> (r: bool)
        ensures
            r == has_files(self@.files, site_id, type_id),
    {
        let ghost rows = self@.files;
        let mut k: usize = 0;
        while k < self.files.len()
            invariant
                0 <= k <= self.files.len(),
                rows == self@.files,
                forall|l: int|
                    0 <= l < k ==> !((#[trigger] rows[l]).site_id == site_id && rows[l].type_id
                        == type_id),
            decreases self.files.len() - k,
        {
            let row = &self.files[k];
            if row.site_id == site_id && row.type_id == type_id {
                assert(rows[k as int].site_id == site_id && rows[k as int].type_id == type_id);
                return true;
            }
            k = k + 1;
        }
        false
    }

    /// Whether the index has a file of this site and type from this
    /// location.
    fn has_file_from(&self, site_id: i64, type_id: i64, location_id: i64) -> (r: bool)
        ensures
            r == has_file_from(self@.files, site_id, type_id, location_id),
    {
        let ghost rows = self@.files;
        let mut k: usize = 0;
        while k < self.files.len()
            invariant
                0 <= k <= self.files.len(),
                rows == self@.files,
                forall|l: int|
                    0 <= l < k ==> !((#[trigger] rows[l]).site_id == site_id && rows[l].type_id
                        == type_id && rows[l].location_id == location_id),
            decreases self.files.len() - k,
        {
            let row = &self.files[k];
            if row.site_id == site_id && row.type_id == type_id && row.location_id == location_id {
                assert(rows[k as int].site_id == site_id && rows[k as int].type_id == type_id
                    && rows[k as int].location_id == location_id);
                return true;
            }
            k = k + 1;
        }
        false
    }

    /// The sounding types of which the index has a file for this site, in
    /// the order of their identifiers.
    pub fn sounding_types_for_site(&self, site: &Site) -> (r: Vec<SoundingType>)
        ensures
            type_rows(r@) == types_with_files(self@.types, self@.files, site@.id),
    {
        let ghost types = self@.types;
        let ghost files = self@.files;
        let mut r: Vec<SoundingType> = Vec::new();
        let mut i: usize = 0;
        assert(types.take(0) =~= Seq::<SoundingTypeView>::empty());
        while i < self.types.len()
            invariant
                0 <= i <= self.types.len(),
                types == self@.types,
                files == self@.files,
                type_rows(r@) =~= types_with_files(types.take(i as int), files, site@.id),
            decreases self.types.len() - i,
        {
            proof {
                let upto = types.take(i + 1);
                assert(upto.drop_last() =~= types.take(i as int));
                assert(upto.last() == types[i as int]);
            }
            if self.has_files_for(site.id(), self.types[i].id()) {
                r.push(self.types[i].clone());
            }
            i = i + 1;
        }
        assert(types.take(types.len() as int) =~= types);
        r
    }

    /// The locations from which the index has a file of this site and
    /// type, in the order of their identifiers.
    pub fn locations_for_site_and_type(&self, site: &Site, sounding_type: &SoundingType) -> (r:
        Vec<Location>)
        ensures
            location_rows(r@) == locations_with_files(
                self@.locations,
                self@.files,
                site@.id,
                sounding_type@.id,
            ),
    {
        let ghost locations = self@.locations;
        let ghost files = self@.files;
        let mut r: Vec<Location> = Vec::new();
        let mut i: usize = 0;
        assert(locations.take(0) =~= Seq::<LocationView>::empty());
        while i < self.locations.len()
            invariant
                0 <= i <= self.locations.len(),
                locations == self@.locations,
                files == self@.files,
                location_rows(r@) =~= locations_with_files(
                    locations.take(i as int),
                    files,
                    site@.id,
                    sounding_type@.id,
                ),
            decreases self.locations.len() - i,
        {
            proof {
                let upto = locations.take(i + 1);
                assert(upto.drop_last() =~= locations.take(i as int));
                assert(upto.last() == locations[i as int]);
            }
            if self.has_file_from(site.id(), sounding_type.id(), self.locations[i].id()) {
                r.push(self.locations[i]);
            }
            i = i + 1;
        }
        assert(locations.take(locations.len() as int) =~= locations);
        r
    }

    /// The times, in seconds, for which the index has a file of this site
    /// and type, in ascending order.
    pub fn init_times(&self, site: &Site, sounding_type: &SoundingType) -> (r: Vec<i64>)
        requires
            self.wf(),
        ensures
            r@ == time_line(self@.files, site@.id, sounding_type@.id),
            is_time_line(r@, self@.files, site@.id, sounding_type@.id),
    {
        let site_id = site.id();
        let type_id = sounding_type.id();
        let ghost rows = self@.files;
        let mut r: Vec<i64> = Vec::new();
        let mut k: usize = 0;
        while k < self.files.len()
            invariant
                0 <= k <= self.files.len(),
                rows == self@.files,
                keys_differ(rows),
                ascending(r@),
                forall|time: i64| #[trigger]
                    r@.contains(time) <==> has_file(rows.take(k as int), site_id, type_id, time),
            decreases self.files.len() - k,
        {
            let row = &self.files[k];
            let ghost upto = rows.take(k as int);
            let ghost next = rows.take(k + 1);
            proof {
                assert(next =~= upto.push(rows[k as int]));
                assert forall|time: i64| #[trigger]
                    has_file(next, site_id, type_id, time) <==> is_file(
                        rows[k as int],
                        site_id,
                        type_id,
                        time,
                    ) || has_file(upto, site_id, type_id, time) by {
                    lemma_files_with(upto, rows[k as int], site_id, type_id, time);
                }
            }
            if row.site_id == site_id && row.type_id == type_id {
                proof {
                    let time = row.init_time;
                    if has_file(upto, site_id, type_id, time) {
                        let l = choose|l: int|
                            0 <= l < upto.len() && is_file(#[trigger] upto[l], site_id, type_id, time);
                        assert(!is_file(
                            rows[l],
                            rows[k as int].site_id,
                            rows[k as int].type_id,
                            rows[k as int].init_time,
                        ));
                    }
                }
                insert_ascending(&mut r, row.init_time);
            }
            k = k + 1;
        }
        proof {
            assert(rows.take(rows.len() as int) =~= rows);
            lemma_time_line(r@, rows, site_id, type_id);
        }
        r
    }

    /// The file of this site and type for this time, ready for the decoder:
    /// its blob decompressed and read as the text of a Bufkit file, under
    /// the name of the blob. Decoding the text is left to the caller. Fails
    /// where the index has no such file, where its blob cannot be read,
    /// where the type is of an encoding without a decoder, and where the
    /// bytes are no text.
    pub fn retrieve(&self, site: &Site, sounding_type: &SoundingType, init_time: i64) -> (r:
        Result<StoredText, BufkitDataErr>)
        requires
            self.wf(),
        ensures
            self@.is_retrieved(site@.id, sounding_type@, init_time, r),
    {
        let file_name = match self.get_file_name_for(site, sounding_type, init_time) {
            Ok(name) => name,
            Err(e) => {
                return Err(e);
            },
        };
        let data = match self.blobs.load(file_name.as_str()) {
            Ok(data) => data,
            Err(e) => {
                return Err(e);
            },
        };
        match decode_data(data.as_slice(), sounding_type.file_type()) {
            Ok(text) => Ok(StoredText { description: file_name, text }),
            Err(e) => Err(e),
        }
    }

    /// The latest file of this site and type, ready for the decoder.
    pub fn most_recent_analysis(&self, site: &Site, sounding_type: &SoundingType) -> (r: Result<
        StoredText,
        BufkitDataErr,
    >)
        requires
            self.wf(),
        ensures
            !has_files(self@.files, site@.id, sounding_type@.id) ==> r matches Err(
                BufkitDataErr::NotFound,
            ),
            has_files(self@.files, site@.id, sounding_type@.id) ==> exists|init_time: i64|
                self@.is_latest(site@.id, sounding_type@.id, init_time) && #[trigger] self@.is_retrieved(
                    site@.id,
                    sounding_type@,
                    init_time,
                    r,
                ),
    {
        match self.most_recent_valid_time(site, sounding_type) {
            Ok(init_time) => {
                let r = self.retrieve(site, sounding_type, init_time);
                proof {
                    assert(has_file(self@.files, site@.id, sounding_type@.id, init_time));
                    let k = file_position(self@.files, site@.id, sounding_type@.id, init_time);
                    assert(self@.files[k].site_id == site@.id && self@.files[k].type_id
                        == sounding_type@.id);
                }
                r
            },
            Err(e) => Err(e),
        }
    }

    /// The inventory of a site: what the archive holds for it, by sounding
    /// type. The site must be validated.
    pub fn inventory(&self, site: &Site) -> (r: Inventory)
        requires
            self.wf(),
            site@.is_known(),
        ensures
            r@.describes(self@, site@),
    {
        crate::inventory::inventory(self, site.clone())
    }

    // ---------------------------------------------------------------------
    // Reading a stored index back
    // ---------------------------------------------------------------------
    /// Puts a site that was read from a stored index back as the next row
    /// of the table of sites. Fails, and changes nothing, if it does not
    /// fit there.
    pub fn restore_site(&mut self, site: Site) -> (r: Result<(), BufkitDataErr>)
        requires
            old(self).wf(),
        ensures
            final(self).wf(),
            old(self)@.consistent() ==> final(self)@.consistent(),
            match r {
                Ok(_) => site_fits(old(self)@.sites, site@) && final(self)@ == (ArchiveView {
                    sites: old(self)@.sites.push(site@),
                    ..old(self)@
                }),
                Err(e) => !site_fits(old(self)@.sites, site@) && final(self)@ == old(self)@
                    && e.is_invalid_site(site@),
            },
    {
        let ghost before = self@;
        let copy = site.clone();
        if restore_site(&mut self.sites, site) {
            proof {
                self.lemma_rows_stay(before);
            }
            Ok(())
        } else {
            Err(BufkitDataErr::InvalidSite(copy))
        }
    }

    /// Puts a sounding type that was read from a stored index back as the
    /// next row of the table of sounding types. Fails, and changes nothing,
    /// if it does not fit there.
    pub fn restore_sounding_type(&mut self, sounding_type: SoundingType) -> (r: Result<
        (),
        BufkitDataErr,
    >)
        requires
            old(self).wf(),
        ensures
            final(self).wf(),
            old(self)@.consistent() ==> final(self)@.consistent(),
            match r {
                Ok(_) => type_fits(old(self)@.types, sounding_type@) && final(self)@
                    == (ArchiveView {
                    types: old(self)@.types.push(sounding_type@),
                    ..old(self)@
                }),
                Err(e) => !type_fits(old(self)@.types, sounding_type@) && final(self)@ == old(
                    self,
                )@ && e.is_invalid_type(sounding_type@),
            },
    {
        let ghost before = self@;
        let copy = sounding_type.clone();
        if restore_sounding_type(&mut self.types, sounding_type) {
            proof {
                self.lemma_rows_stay(before);
            }
            Ok(())
        } else {
            Err(BufkitDataErr::InvalidSoundingType(copy))
        }
    }

    /// Puts a location that was read from a stored index back as the next
    /// row of the table of locations. Fails, and changes nothing, if it
    /// does not fit there.
    pub fn restore_location(&mut self, location: Location) -> (r: Result<(), BufkitDataErr>)
        requires
            old(self).wf(),
        ensures
            final(self).wf(),
            old(self)@.consistent() ==> final(self)@.consistent(),
            match r {
                Ok(_) => location_fits(old(self)@.locations, location@) && final(self)@
                    == (ArchiveView {
                    locations: old(self)@.locations.push(location@),
                    ..old(self)@
                }),
                Err(e) => !location_fits(old(self)@.locations, location@) && final(self)@ == old(
                    self,
                )@ && e.is_invalid_location(location@),
            },
    {
        let ghost before = self@;
        if restore_location(&mut self.locations, location) {
            proof {
                self.lemma_rows_stay(before);
            }
            Ok(())
        } else {
            Err(BufkitDataErr::InvalidLocation(location))
        }
    }

    /// Puts a row that was read from a stored index back as the next row
    /// of the table of files. The store is left as it is. Fails, and
    /// changes nothing, if the row does not fit: where it refers to a row
    /// that is not there, where its name is not the one that its site, type
    /// and time give, or where a row of the table is in its way.
    pub fn restore_file(
        &mut self,
        type_id: i64,
        site_id: i64,
        location_id: i64,
        init_time: i64,
        file_name: String,
    ) -> (r: Result<(), BufkitDataErr>)
        requires
            old(self).wf(),
        ensures
            final(self).wf(),
            ({
                let row = FileRow { type_id, site_id, location_id, init_time, file_name: file_name@ };
                match r {
                    Ok(_) => old(self)@.row_fits(row) && final(self)@ == (ArchiveView {
                        files: old(self)@.files.push(row),
                        ..old(self)@
                    }),
                    Err(e) => !old(self)@.row_fits(row) && final(self)@ == old(self)@
                        && e.is_invalid_file(file_name@),
                }
            }),
    {
        let room = (self.files.len() as u64) < 0x7fff_ffff_ffff_fffe;
        let fits = room && self.row_is_well_formed(
            type_id,
            site_id,
            location_id,
            init_time,
            &file_name,
        ) && self.locate_file(site_id, type_id, init_time).is_none() && self.locate_named(
            &file_name,
        ).is_none();
        if fits {
            self.push_row(FileRecord { type_id, site_id, location_id, init_time, file_name });
            Ok(())
        } else {
            Err(BufkitDataErr::InvalidFile(file_name))
        }
    }

    /// Whether a row refers to rows that exist, for a time that has a
    /// token, and names the blob that its site, type and time give.
    fn row_is_well_formed(
        &self,
        type_id: i64,
        site_id: i64,
        location_id: i64,
        init_time: i64,
        file_name: &String,
    ) -> (r: bool)
        ensures
            r == self@.row_wf(
                FileRow { type_id, site_id, location_id, init_time, file_name: file_name@ },
            ),
    {
        if site_id < 1 || site_id as u64 > self.sites.len() as u64 {
            return false;
        }
        if type_id < 1 || type_id as u64 > self.types.len() as u64 {
            return false;
        }
        if location_id < 1 || location_id as u64 > self.locations.len() as u64 {
            return false;
        }
        let site = &self.sites[(site_id - 1) as usize];
        let sounding_type = &self.types[(type_id - 1) as usize];
        match Self::compressed_file_name(site, sounding_type, init_time) {
            Some(name) => name == *file_name,
            None => false,
        }
    }

    /// The names of the blobs in the store, in the order of the store.
    pub fn blob_names(&self) -> (r: Vec<String>)
        ensures
            texts(r@) == blob_names(self@.blobs),
    {
        self.blobs.names()
    }

    /// Rows of the table of files stay well formed while the tables of
    /// sites and types keep their rows' keys and no table loses a row.
    proof fn lemma_rows_stay(&self, before: ArchiveView)
        requires
            before.files_wf(),
            self@.files == before.files,
            self@.sites.len() >= before.sites.len(),
            self@.types.len() >= before.types.len(),
            self@.locations.len() >= before.locations.len(),
            forall|i: int|
                0 <= i < before.sites.len() ==> (#[trigger] self@.sites[i]).short_name
                    == before.sites[i].short_name,
            forall|i: int|
                0 <= i < before.types.len() ==> (#[trigger] self@.types[i]).source
                    == before.types[i].source,
        ensures
            self@.files_wf(),
    {
        let after = self@;
        assert forall|k: int| 0 <= k < after.files.len() implies after.row_wf(
            #[trigger] after.files[k],
        ) by {
            let row = before.files[k];
            assert(before.row_wf(row));
            assert(after.sites[row.site_id - 1].short_name == before.sites[row.site_id
                - 1].short_name);
            assert(after.types[row.type_id - 1].source == before.types[row.type_id - 1].source);
        }
    }
}

} // verus!
