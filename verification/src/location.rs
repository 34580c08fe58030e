//! Geographic locations, kept in whole microdegrees so that two of them are
//! equal exactly when their coordinates are.

use vstd::prelude::*;
use crate::optional::IntoOption;

verus! {

/// The smallest latitude, in microdegrees.
pub const MIN_LATITUDE: i64 = -90_000_000;

/// The largest latitude, in microdegrees.
pub const MAX_LATITUDE: i64 = 90_000_000;

/// The smallest longitude, in microdegrees.
pub const MIN_LONGITUDE: i64 = -180_000_000;

/// The largest longitude, in microdegrees.
pub const MAX_LONGITUDE: i64 = 180_000_000;

/// Whether a latitude and a longitude, in microdegrees, lie in the
/// canonical ranges of 90 degrees either side of the equator and 180 degrees
/// either side of the prime meridian.
pub open spec fn coordinates_in_range(latitude: i64, longitude: i64) -> bool {
    MIN_LATITUDE <= latitude <= MAX_LATITUDE && MIN_LONGITUDE <= longitude <= MAX_LONGITUDE
}

/// A geographic location: coordinates and elevation, which are its natural
/// key, and the offset of its time zone.
#[derive(Clone, Copy, Debug, PartialEq, Eq)]
pub struct Location {
    /// Latitude in microdegrees.
    latitude: i64,
    /// Longitude in microdegrees.
    longitude: i64,
    /// Elevation in meters.
    elevation_m: i32,
    /// Offset of the time zone from UTC in seconds.
    tz_offset: Option<i32>,
    /// The row in the index, positive once the index knows the location.
    id: i64,
}

/// What a `Location` holds, as mathematical values.
pub struct LocationView {
    pub latitude: i64,
    pub longitude: i64,
    pub elevation_m: i32,
    pub tz_offset: Option<i32>,
    pub id: i64,
}

impl LocationView {
    /// Whether the index has given the location an identifier.
    pub open spec fn is_valid(self) -> bool {
        self.id > 0
    }

    /// Whether the location has these coordinates and this elevation.
    pub open spec fn is_at(self, latitude: i64, longitude: i64, elevation_m: i32) -> bool {
        self.latitude == latitude && self.longitude == longitude && self.elevation_m == elevation_m
    }

    /// Whether two locations have the same natural key.
    pub open spec fn same_place(self, other: LocationView) -> bool {
        self.is_at(other.latitude, other.longitude, other.elevation_m)
    }

    /// The same location with the time zone offset of `other`.
    pub open spec fn described_as(self, other: LocationView) -> LocationView {
        LocationView { tz_offset: other.tz_offset, ..self }
    }
}

impl View for Location {
    type V = LocationView;

    closed spec fn view(&self) -> LocationView {
        LocationView {
            latitude: self.latitude,
            longitude: self.longitude,
            elevation_m: self.elevation_m,
            tz_offset: self.tz_offset,
            id: self.id,
        }
    }
}

impl Location {
    /// Every location has its coordinates in the canonical ranges.
    #[verifier::type_invariant]
    spec fn well_formed(self) -> bool {
        coordinates_in_range(self.latitude, self.longitude)
    }

    /// A location that is in no index yet. The coordinates are in
    /// microdegrees and must lie in the canonical ranges.
    pub fn new<T: IntoOption<i32>>(lat: i64, lon: i64, elev: i32, tz_offset: T) -> (r: Self)
        requires
            coordinates_in_range(lat, lon),
        ensures
            r@ == (LocationView {
                latitude: lat,
                longitude: lon,
                elevation_m: elev,
                tz_offset: tz_offset.as_option(),
                id: -1i64,
            }),
    {
        Location {
            latitude: lat,
            longitude: lon,
            elevation_m: elev,
            tz_offset: tz_offset.into_option(),
            id: -1,
        }
    }

    /// A location that is in no index yet, or `None` if the coordinates, in
    /// microdegrees, lie outside the canonical ranges.
    pub fn checked_new<T: IntoOption<i32>>(lat: i64, lon: i64, elev: i32, tz_offset: T) -> (r:
        Option<Self>)
        ensures
            r is Some <==> coordinates_in_range(lat, lon),
            r matches Some(loc) ==> loc@ == (LocationView {
                latitude: lat,
                longitude: lon,
                elevation_m: elev,
                tz_offset: tz_offset.as_option(),
                id: -1i64,
            }),
    {
        if lat < MIN_LATITUDE || lat > MAX_LATITUDE || lon < MIN_LONGITUDE || lon > MAX_LONGITUDE {
            None
        } else {
            Some(
                Location {
                    latitude: lat,
                    longitude: lon,
                    elevation_m: elev,
                    tz_offset: tz_offset.into_option(),
                    id: -1,
                },
            )
        }
    }

    /// The location that a row of the index stands for, or `None` if the
    /// coordinates of the row, in microdegrees, lie outside the canonical
    /// ranges.
    pub fn parse_row_to_location(
        id: i64,
        latitude: i64,
        longitude: i64,
        elevation_m: i32,
        tz_offset: Option<i32>,
    ) -> (r: Option<Self>)
        ensures
            r is Some <==> coordinates_in_range(latitude, longitude),
            r matches Some(location) ==> location@ == (LocationView {
                latitude,
                longitude,
                elevation_m,
                tz_offset,
                id,
            }),
    {
        if latitude < MIN_LATITUDE || latitude > MAX_LATITUDE || longitude < MIN_LONGITUDE
            || longitude > MAX_LONGITUDE {
            None
        } else {
            Some(Location { latitude, longitude, elevation_m, tz_offset, id })
        }
    }

    /// The same location at another elevation, in meters.
    pub fn with_elevation(self, elev: i32) -> (r: Self)
        ensures
            r@ == (LocationView { elevation_m: elev, ..self@ }),
    {
        proof {
            use_type_invariant(&self);
        }
        Location { elevation_m: elev, ..self }
    }

    /// The same location with another offset from UTC, in seconds.
    pub fn with_tz_offset<T: IntoOption<i32>>(self, tz_offset: T) -> (r: Self)
        ensures
            r@ == (LocationView { tz_offset: tz_offset.as_option(), ..self@ }),
    {
        proof {
            use_type_invariant(&self);
        }
        Location { tz_offset: tz_offset.into_option(), ..self }
    }

    /// The latitude in microdegrees.
    pub fn latitude(&self) -> (r: i64)
        ensures
            r == self@.latitude,
            MIN_LATITUDE <= r <= MAX_LATITUDE,
    {
        proof {
            use_type_invariant(self);
        }
        self.latitude
    }

    /// The longitude in microdegrees.
    pub fn longitude(&self) -> (r: i64)
        ensures
            r == self@.longitude,
            MIN_LONGITUDE <= r <= MAX_LONGITUDE,
    {
        proof {
            use_type_invariant(self);
        }
        self.longitude
    }

    /// The elevation in meters.
    pub fn elevation(&self) -> (r: i32)
        ensures
            r == self@.elevation_m,
    {
        self.elevation_m
    }

    /// The offset of the time zone from UTC in seconds, if it is known.
    pub fn tz_offset(&self) -> (r: Option<i32>)
        ensures
            r == self@.tz_offset,
    {
        self.tz_offset
    }

    /// Whether an index has given the location an identifier.
    pub fn is_valid(&self) -> (r: bool)
        ensures
            r == self@.is_valid(),
    {
        self.id > 0
    }

    /// The identifier, or -1 while the location is in no index.
    pub fn id(&self) -> (r: i64)
        ensures
            r == self@.id,
    {
        self.id
    }

    /// The same location under the identifier `id`.
    pub(crate) fn with_id(self, id: i64) -> (r: Self)
        ensures
            r@ == (LocationView { id, ..self@ }),
    {
        proof {
            use_type_invariant(&self);
        }
        Location { id, ..self }
    }

    /// Whether two locations have the same coordinates and elevation.
    pub fn same_place(&self, other: &Location) -> (r: bool)
        ensures
            r == self@.same_place(other@),
    {
        self.latitude == other.latitude && self.longitude == other.longitude && self.elevation_m
            == other.elevation_m
    }
}

/// The rows of a table of locations, as mathematical values.
pub open spec fn location_rows(locations: Seq<Location>) -> Seq<LocationView> {
    Seq::new(locations.len(), |i: int| locations[i]@)
}

/// What holds of the table of locations: the row at place `i` has the
/// identifier `i + 1`, and no two rows share coordinates and elevation.
pub open spec fn locations_wf(rows: Seq<LocationView>) -> bool {
    &&& rows.len() < i64::MAX
    &&& forall|i: int| 0 <= i < rows.len() ==> (#[trigger] rows[i]).id == i + 1
    &&& forall|i: int, j: int|
        0 <= i < j < rows.len() ==> !(#[trigger] rows[i]).same_place(#[trigger] rows[j])
}

/// Whether a row has these coordinates and this elevation.
pub open spec fn has_location(
    rows: Seq<LocationView>,
    latitude: i64,
    longitude: i64,
    elevation_m: i32,
) -> bool {
    exists|i: int|
        0 <= i < rows.len() && (#[trigger] rows[i]).is_at(latitude, longitude, elevation_m)
}

/// The place of the row with these coordinates and this elevation.
pub open spec fn location_position(
    rows: Seq<LocationView>,
    latitude: i64,
    longitude: i64,
    elevation_m: i32,
) -> int {
    choose|i: int|
        0 <= i < rows.len() && (#[trigger] rows[i]).is_at(latitude, longitude, elevation_m)
}

/// The row with these coordinates and this elevation, if there is one.
pub open spec fn find_location(
    rows: Seq<LocationView>,
    latitude: i64,
    longitude: i64,
    elevation_m: i32,
) -> Option<LocationView> {
    if has_location(rows, latitude, longitude, elevation_m) {
        Some(rows[location_position(rows, latitude, longitude, elevation_m)])
    } else {
        None
    }
}

/// The location that stands for `location` in the table: `location` itself
/// if it carries an identifier, else the row at the same place.
pub open spec fn validated_location(rows: Seq<LocationView>, location: LocationView) -> Option<
    LocationView,
> {
    if location.is_valid() {
        Some(location)
    } else {
        find_location(rows, location.latitude, location.longitude, location.elevation_m)
    }
}

/// The table once `location` stands in it: unchanged where `location`
/// carries an identifier or a row is at the same place, else with `location`
/// as a new last row under the next identifier.
pub open spec fn locations_with(rows: Seq<LocationView>, location: LocationView) -> Seq<
    LocationView,
> {
    if validated_location(rows, location) is Some {
        rows
    } else {
        rows.push(LocationView { id: (rows.len() + 1) as i64, ..location })
    }
}

/// The table once the row at the place of `location` has taken the time
/// zone offset of `location`.
pub open spec fn locations_updated(rows: Seq<LocationView>, location: LocationView) -> Seq<
    LocationView,
> {
    if has_location(rows, location.latitude, location.longitude, location.elevation_m) {
        let i = location_position(
            rows,
            location.latitude,
            location.longitude,
            location.elevation_m,
        );
        rows.update(i, rows[i].described_as(location))
    } else {
        rows
    }
}

/// Whether the table has no room for one more row.
pub open spec fn locations_full(rows: Seq<LocationView>) -> bool {
    rows.len() + 1 >= i64::MAX
}

/// In a table that is well formed, a row at the place is the row at
/// `location_position`.
pub proof fn lemma_location_position(
    rows: Seq<LocationView>,
    latitude: i64,
    longitude: i64,
    elevation_m: i32,
    i: int,
)
    requires
        locations_wf(rows),
        0 <= i < rows.len(),
        rows[i].is_at(latitude, longitude, elevation_m),
    ensures
        has_location(rows, latitude, longitude, elevation_m),
        location_position(rows, latitude, longitude, elevation_m) == i,
{
    let j = location_position(rows, latitude, longitude, elevation_m);
    if i < j {
        assert(!rows[i].same_place(rows[j]));
    }
    if j < i {
        assert(!rows[j].same_place(rows[i]));
    }
}

/// The place in the table of the row with these coordinates and this
/// elevation, if there is one.
pub fn locate_location(
    locations: &Vec<Location>,
    latitude: i64,
    longitude: i64,
    elevation_m: i32,
) -> (r: Option<usize>)
    requires
        locations_wf(location_rows(locations@)),
    ensures
        match r {
            Some(i) => has_location(location_rows(locations@), latitude, longitude, elevation_m)
                && i == location_position(
                location_rows(locations@),
                latitude,
                longitude,
                elevation_m,
            ),
            None => !has_location(location_rows(locations@), latitude, longitude, elevation_m),
        },
{
    let ghost rows = location_rows(locations@);
    let mut i: usize = 0;
    while i < locations.len()
        invariant
            0 <= i <= locations.len(),
            rows == location_rows(locations@),
            locations_wf(rows),
            forall|j: int|
                0 <= j < i ==> !(#[trigger] rows[j]).is_at(latitude, longitude, elevation_m),
        decreases locations.len() - i,
    {
        let row = &locations[i];
        if row.latitude == latitude && row.longitude == longitude && row.elevation_m
            == elevation_m {
            proof {
                assert(rows[i as int].is_at(latitude, longitude, elevation_m));
                lemma_location_position(rows, latitude, longitude, elevation_m, i as int);
            }
            return Some(i);
        }
        i = i + 1;
    }
    None
}

/// The row with these coordinates and this elevation, if there is one.
pub fn retrieve_location(
    locations: &Vec<Location>,
    latitude: i64,
    longitude: i64,
    elevation_m: i32,
) -> (r: Option<Location>)
    requires
        locations_wf(location_rows(locations@)),
    ensures
        r matches Some(location) ==> Some(location@) == find_location(
            location_rows(locations@),
            latitude,
            longitude,
            elevation_m,
        ),
        r is None ==> find_location(location_rows(locations@), latitude, longitude, elevation_m)
            is None,
{
    match locate_location(locations, latitude, longitude, elevation_m) {
        Some(i) => Some(locations[i]),
        None => None,
    }
}

/// Adds `location` as a new last row under the next identifier, and returns
/// it as it stands in the table. `None`, and no change, if a row is at the
/// place of `location` already, or if the table is full.
pub fn insert_location(locations: &mut Vec<Location>, location: Location) -> (r: Option<
    Location,
>)
    requires
        locations_wf(location_rows(old(locations)@)),
    ensures
        locations_wf(location_rows(final(locations)@)),
        match r {
            Some(added) => {
                &&& !has_location(
                    location_rows(old(locations)@),
                    location@.latitude,
                    location@.longitude,
                    location@.elevation_m,
                )
                &&& !locations_full(location_rows(old(locations)@))
                &&& added@ == (LocationView {
                    id: (location_rows(old(locations)@).len() + 1) as i64,
                    ..location@
                })
                &&& location_rows(final(locations)@) == location_rows(old(locations)@).push(
                    added@,
                )
            },
            None => (has_location(
                location_rows(old(locations)@),
                location@.latitude,
                location@.longitude,
                location@.elevation_m,
            ) || locations_full(location_rows(old(locations)@))) && location_rows(
                final(locations)@,
            ) == location_rows(old(locations)@),
        },
{
    if locations.len() as u64 >= 0x7fff_ffff_ffff_fffe {
        return None;
    }
    if locate_location(
        locations,
        location.latitude,
        location.longitude,
        location.elevation_m,
    ).is_some() {
        return None;
    }
    let id = (locations.len() as u64 + 1) as i64;
    let added = location.with_id(id);
    let ghost before = location_rows(locations@);
    locations.push(added);
    proof {
        let after = location_rows(locations@);
        assert(after =~= before.push(added@));
        assert forall|i: int, j: int|
            0 <= i < j < after.len() implies !(#[trigger] after[i]).same_place(
            #[trigger] after[j],
        ) by {
            if j == before.len() {
                assert(!before[i].is_at(
                    location@.latitude,
                    location@.longitude,
                    location@.elevation_m,
                ));
            } else {
                assert(!before[i].same_place(before[j]));
            }
        }
    }
    Some(added)
}

/// Whether `location` can stand in the table as its next row: it carries
/// the next identifier, no row is at its place, and the table has room.
pub open spec fn location_fits(rows: Seq<LocationView>, location: LocationView) -> bool {
    location.id == rows.len() + 1 && !has_location(
        rows,
        location.latitude,
        location.longitude,
        location.elevation_m,
    ) && !locations_full(rows)
}

/// Puts a location that was read from a stored index back as the next row
/// of the table, if it fits there, and says whether it did. No change if
/// it does not.
pub fn restore_location(locations: &mut Vec<Location>, location: Location) -> (r: bool)
    requires
        locations_wf(location_rows(old(locations)@)),
    ensures
        locations_wf(location_rows(final(locations)@)),
        r == location_fits(location_rows(old(locations)@), location@),
        location_rows(final(locations)@) == if r {
            location_rows(old(locations)@).push(location@)
        } else {
            location_rows(old(locations)@)
        },
{
    if locations.len() as u64 >= 0x7fff_ffff_ffff_fffe {
        return false;
    }
    if location.id != (locations.len() as u64 + 1) as i64 {
        return false;
    }
    if locate_location(
        locations,
        location.latitude,
        location.longitude,
        location.elevation_m,
    ).is_some() {
        return false;
    }
    let ghost before = location_rows(locations@);
    locations.push(location);
    proof {
        let after = location_rows(locations@);
        assert(after =~= before.push(location@));
        assert forall|i: int, j: int|
            0 <= i < j < after.len() implies !(#[trigger] after[i]).same_place(
            #[trigger] after[j],
        ) by {
            if j == before.len() {
                assert(!before[i].is_at(
                    location@.latitude,
                    location@.longitude,
                    location@.elevation_m,
                ));
            } else {
                assert(!before[i].same_place(before[j]));
            }
        }
    }
    true
}

/// The row with these coordinates and this elevation; if there is none, a
/// new row for them, with no time zone offset. `None`, and no change, if a
/// new row was needed and the table is full.
pub fn retrieve_or_add_location(
    locations: &mut Vec<Location>,
    latitude: i64,
    longitude: i64,
    elevation_m: i32,
) -> (r: Option<Location>)
    requires
        locations_wf(location_rows(old(locations)@)),
        coordinates_in_range(latitude, longitude),
    ensures
        locations_wf(location_rows(final(locations)@)),
        ({
            let place = LocationView {
                latitude,
                longitude,
                elevation_m,
                tz_offset: None,
                id: -1i64,
            };
            let before = location_rows(old(locations)@);
            let after = location_rows(final(locations)@);
            match r {
                Some(location) => after == locations_with(before, place) && Some(location@)
                    == validated_location(after, place),
                None => after == before && locations_full(before) && validated_location(
                    before,
                    place,
                ) is None,
            }
        }),
{
    match locate_location(locations, latitude, longitude, elevation_m) {
        Some(i) => Some(locations[i]),
        None => {
            let ghost before = location_rows(locations@);
            let none: Option<i32> = None;
            let r = insert_location(locations, Location::new(latitude, longitude, elevation_m, none));
            proof {
                if r is Some {
                    lemma_location_position(
                        location_rows(locations@),
                        latitude,
                        longitude,
                        elevation_m,
                        before.len() as int,
                    );
                }
            }
            r
        },
    }
}

/// Gives the row at the place of `location` the time zone offset of
/// `location`, and returns the row as it then stands. `None`, and no
/// change, if no row is at that place.
pub fn update_location(locations: &mut Vec<Location>, location: Location) -> (r: Option<
    Location,
>)
    requires
        locations_wf(location_rows(old(locations)@)),
    ensures
        locations_wf(location_rows(final(locations)@)),
        location_rows(final(locations)@) == locations_updated(
            location_rows(old(locations)@),
            location@,
        ),
        match r {
            Some(updated) => find_location(
                location_rows(final(locations)@),
                location@.latitude,
                location@.longitude,
                location@.elevation_m,
            ) == Some(updated@) && has_location(
                location_rows(old(locations)@),
                location@.latitude,
                location@.longitude,
                location@.elevation_m,
            ),
            None => !has_location(
                location_rows(old(locations)@),
                location@.latitude,
                location@.longitude,
                location@.elevation_m,
            ),
        },
{
    let ghost before = location_rows(locations@);
    match locate_location(locations, location.latitude, location.longitude, location.elevation_m) {
        Some(i) => {
            let updated = locations[i].with_tz_offset(location.tz_offset);
            locations.set(i, updated);
            proof {
                let after = location_rows(locations@);
                assert(after =~= before.update(i as int, before[i as int].described_as(location@)));
                assert forall|a: int, b: int| 0 <= a < b < after.len() implies !(
                #[trigger] after[a]).same_place(#[trigger] after[b]) by {
                    assert(!before[a].same_place(before[b]));
                }
                lemma_location_position(
                    after,
                    location@.latitude,
                    location@.longitude,
                    location@.elevation_m,
                    i as int,
                );
            }
            Some(updated)
        },
        None => None,
    }
}

/// A copy of every row, in the order of the identifiers.
pub fn all_locations(locations: &Vec<Location>) -> (r: Vec<Location>)
    ensures
        location_rows(r@) == location_rows(locations@),
{
    let mut r: Vec<Location> = Vec::new();
    let mut i: usize = 0;
    while i < locations.len()
        invariant
            0 <= i <= locations.len(),
            r.len() == i,
            forall|j: int| 0 <= j < i ==> (#[trigger] r@[j])@ == locations@[j]@,
        decreases locations.len() - i,
    {
        r.push(locations[i]);
        i = i + 1;
    }
    assert(location_rows(r@) =~= location_rows(locations@));
    r
}

/// Asking twice for a place to stand in the table gives the same location,
/// under the same identifier, both times, and the second time changes
/// nothing: at most one row is added.
pub proof fn location_added_once(rows: Seq<LocationView>, first: LocationView, second: LocationView)
    requires
        locations_wf(rows),
        !locations_full(rows),
        !first.is_valid(),
        !second.is_valid(),
        first.same_place(second),
    ensures
        locations_wf(locations_with(rows, first)),
        locations_with(locations_with(rows, first), second) == locations_with(rows, first),
        validated_location(locations_with(rows, first), first) is Some,
        validated_location(locations_with(rows, first), second) == validated_location(
            locations_with(rows, first),
            first,
        ),
        locations_with(rows, first).len() <= rows.len() + 1,
{
    let after = locations_with(rows, first);
    if !has_location(rows, first.latitude, first.longitude, first.elevation_m) {
        let added = LocationView { id: (rows.len() + 1) as i64, ..first };
        assert(after == rows.push(added));
        assert(after[rows.len() as int] == added);
        assert forall|i: int, j: int|
            0 <= i < j < after.len() implies !(#[trigger] after[i]).same_place(
            #[trigger] after[j],
        ) by {
            if j == rows.len() {
                assert(!rows[i].is_at(first.latitude, first.longitude, first.elevation_m));
            } else {
                assert(!rows[i].same_place(rows[j]));
            }
        }
        lemma_location_position(
            after,
            first.latitude,
            first.longitude,
            first.elevation_m,
            rows.len() as int,
        );
    }
}

} // verus!
