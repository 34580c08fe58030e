//! Sounding types: where a sounding comes from and how it is encoded.

use vstd::prelude::*;
use crate::errors::BufkitDataErr;
use crate::optional::IntoOption;
use crate::trusted::{to_uppercase, uppercase, variant_not_found};

verus! {

/// How the sounding data is encoded in a file.
#[derive(Debug, Clone, Copy, PartialEq, Eq, Hash, Structural)]
pub enum FileType {
    /// A Bufkit encoded file, which is text.
    BUFKIT,
    /// A BUFR encoded file, which is binary.
    BUFR,
}

impl FileType {
    /// The name of the encoding.
    pub open spec fn name(self) -> Seq<char> {
        match self {
            FileType::BUFKIT => "BUFKIT"@,
            FileType::BUFR => "BUFR"@,
        }
    }

    /// The name of the encoding as text.
    pub fn as_static(&self) -> (s: &'static str)
        ensures
            s@ == self.name(),
    {
        match self {
            FileType::BUFKIT => "BUFKIT",
            FileType::BUFR => "BUFR",
        }
    }

    /// The encoding that `text` is the name of, if it is the name of one.
    pub open spec fn named(text: Seq<char>) -> Option<FileType> {
        if text == FileType::BUFKIT.name() {
            Some(FileType::BUFKIT)
        } else if text == FileType::BUFR.name() {
            Some(FileType::BUFR)
        } else {
            None
        }
    }

    /// Reads the name of an encoding. The match is exact.
    pub fn from_str(s: &str) -> (r: Result<FileType, strum::ParseError>)
        ensures
            match r {
                Ok(file_type) => file_type.name() == s@ && Self::named(s@) == Some(file_type),
                Err(_) => Self::named(s@) is None && forall|file_type: FileType|
                    file_type.name() != s@,
            },
    {
        proof {
            reveal_strlit("BUFKIT");
            reveal_strlit("BUFR");
            assert("BUFKIT"@.len() == 6 && "BUFR"@.len() == 4);
        }
        let text = s.to_owned();
        if text == "BUFKIT".to_owned() {
            Ok(FileType::BUFKIT)
        } else if text == "BUFR".to_owned() {
            Ok(FileType::BUFR)
        } else {
            Err(variant_not_found())
        }
    }
}

/// The two encodings have different names, so reading back what `as_static`
/// gives returns the encoding one started from.
pub proof fn file_type_name_is_one_to_one(a: FileType, b: FileType)
    requires
        a.name() == b.name(),
    ensures
        a == b,
{
    reveal_strlit("BUFKIT");
    reveal_strlit("BUFR");
    assert("BUFKIT"@.len() == 6 && "BUFR"@.len() == 4);
}

/// A source of soundings, such as a model or a network of stations, under a
/// name that is unique in the index.
#[derive(Debug, PartialEq, Eq, Hash)]
pub struct SoundingType {
    /// Whether the soundings are observed. If not, a model made them.
    observed: bool,
    /// How the files of this type are encoded.
    file_type: FileType,
    /// The name of the source, in upper case. The natural key.
    source: String,
    /// Hours between two initializations or launches.
    hours_between: Option<u16>,
    /// The row in the index, positive once the index knows the type.
    id: i64,
}

/// What a `SoundingType` holds, as mathematical values.
pub struct SoundingTypeView {
    pub observed: bool,
    pub file_type: FileType,
    pub source: Seq<char>,
    pub hours_between: Option<u16>,
    pub id: i64,
}

impl SoundingTypeView {
    /// Whether the index has given the type an identifier.
    pub open spec fn is_valid(self) -> bool {
        self.id > 0
    }

    /// The same type with the cadence and the observed flag of `other`.
    pub open spec fn described_as(self, other: SoundingTypeView) -> SoundingTypeView {
        SoundingTypeView { observed: other.observed, hours_between: other.hours_between, ..self }
    }
}

impl View for SoundingType {
    type V = SoundingTypeView;

    closed spec fn view(&self) -> SoundingTypeView {
        SoundingTypeView {
            observed: self.observed,
            file_type: self.file_type,
            source: self.source@,
            hours_between: self.hours_between,
            id: self.id,
        }
    }
}

impl Clone for SoundingType {
    fn clone(&self) -> (r: Self)
        ensures
            r@ == self@,
    {
        SoundingType {
            observed: self.observed,
            file_type: self.file_type,
            source: self.source.clone(),
            hours_between: self.hours_between,
            id: self.id,
        }
    }
}

impl SoundingType {
    /// A sounding type that is in no index yet. The name of the source is
    /// kept in upper case.
    pub fn new<T: IntoOption<u16>>(
        src: &str,
        observed: bool,
        file_type: FileType,
        hours_between: T,
    ) -> (r: Self)
        ensures
            r@ == (SoundingTypeView {
                observed,
                file_type,
                source: uppercase(src@),
                hours_between: hours_between.as_option(),
                id: -1i64,
            }),
    {
        SoundingType {
            observed,
            file_type,
            source: to_uppercase(src),
            hours_between: hours_between.into_option(),
            id: -1,
        }
    }

    /// A sounding type that a model makes.
    pub fn new_model<T: IntoOption<u16>>(src: &str, file_type: FileType, hours_between: T) -> (r:
        Self)
        ensures
            r@ == (SoundingTypeView {
                observed: false,
                file_type,
                source: uppercase(src@),
                hours_between: hours_between.as_option(),
                id: -1i64,
            }),
    {
        Self::new(src, false, file_type, hours_between)
    }

    /// A sounding type that is observed.
    pub fn new_observed<T: IntoOption<u16>>(
        src: &str,
        file_type: FileType,
        hours_between: T,
    ) -> (r: Self)
        ensures
            r@ == (SoundingTypeView {
                observed: true,
                file_type,
                source: uppercase(src@),
                hours_between: hours_between.as_option(),
                id: -1i64,
            }),
    {
        Self::new(src, true, file_type, hours_between)
    }

    /// Whether a model makes the soundings.
    pub fn is_modeled(&self) -> (r: bool)
        ensures
            r == !self@.observed,
    {
        !self.observed
    }

    /// Whether the soundings are observed.
    pub fn is_observed(&self) -> (r: bool)
        ensures
            r == self@.observed,
    {
        self.observed
    }

    /// Whether an index has given the type an identifier.
    pub fn is_valid(&self) -> (r: bool)
        ensures
            r == self@.is_valid(),
    {
        self.id > 0
    }

    /// The name of the source, such as "GFS" or "NAM".
    pub fn source(&self) -> (r: &str)
        ensures
            r@ == self@.source,
    {
        self.source.as_str()
    }

    /// Hours between two model initializations, or between two launches.
    pub fn hours_between_initializations(&self) -> (r: Option<u16>)
        ensures
            r == self@.hours_between,
    {
        self.hours_between
    }

    /// How the files of this type are encoded once decompressed.
    pub fn file_type(&self) -> (r: FileType)
        ensures
            r == self@.file_type,
    {
        self.file_type
    }

    /// The identifier, or -1 while the type is in no index.
    pub fn id(&self) -> (r: i64)
        ensures
            r == self@.id,
    {
        self.id
    }

    /// The same type under the identifier `id`.
    pub(crate) fn with_id(self, id: i64) -> (r: Self)
        ensures
            r@ == (SoundingTypeView { id, ..self@ }),
    {
        Self { id, ..self }
    }

    /// The same type with the cadence and the observed flag of `other`.
    pub(crate) fn described_as(self, other: &SoundingType) -> (r: Self)
        ensures
            r@ == self@.described_as(other@),
    {
        Self { observed: other.observed, hours_between: other.hours_between, ..self }
    }

    /// The sounding type that a row of the index stands for. Fails if the
    /// text for the encoding is not the name of one.
    pub fn parse_row_to_sounding_type(
        id: i64,
        source: String,
        file_type: &str,
        hours_between: Option<u16>,
        observed: bool,
    ) -> (r: Result<Self, BufkitDataErr>)
        ensures
            match FileType::named(file_type@) {
                Some(encoding) => match r {
                    Ok(sounding_type) => sounding_type@ == (SoundingTypeView {
                        observed,
                        file_type: encoding,
                        source: source@,
                        hours_between,
                        id,
                    }),
                    Err(_) => false,
                },
                None => r matches Err(BufkitDataErr::StrumError(_)),
            },
    {
        match FileType::from_str(file_type) {
            Ok(file_type) => Ok(SoundingType { observed, file_type, source, hours_between, id }),
            Err(e) => Err(BufkitDataErr::StrumError(e)),
        }
    }

    /// Whether two sounding types have the same source.
    pub fn same_source(&self, other: &SoundingType) -> (r: bool)
        ensures
            r == (self@.source == other@.source),
    {
        self.source == other.source
    }

    /// Whether two sounding types hold the same values, field by field.
    pub fn same_as(&self, other: &SoundingType) -> (r: bool)
        ensures
            r == (self@ == other@),
    {
        self.observed == other.observed && self.file_type == other.file_type && self.source
            == other.source && self.hours_between == other.hours_between && self.id == other.id
    }
}

/// The rows of a table of sounding types, as mathematical values.
pub open spec fn type_rows(types: Seq<SoundingType>) -> Seq<SoundingTypeView> {
    Seq::new(types.len(), |i: int| types[i]@)
}

/// What holds of the table of sounding types: the row at place `i` has the
/// identifier `i + 1`, and no two rows share a source.
pub open spec fn types_wf(rows: Seq<SoundingTypeView>) -> bool {
    &&& rows.len() < i64::MAX
    &&& forall|i: int| 0 <= i < rows.len() ==> (#[trigger] rows[i]).id == i + 1
    &&& forall|i: int, j: int|
        0 <= i < j < rows.len() ==> (#[trigger] rows[i]).source
            != (#[trigger] rows[j]).source
}

/// Whether a row has this source.
pub open spec fn has_type(rows: Seq<SoundingTypeView>, source: Seq<char>) -> bool {
    exists|i: int| 0 <= i < rows.len() && (#[trigger] rows[i]).source == source
}

/// The place of the row with this source.
pub open spec fn type_position(rows: Seq<SoundingTypeView>, source: Seq<char>) -> int {
    choose|i: int| 0 <= i < rows.len() && (#[trigger] rows[i]).source == source
}

/// The row with this source, if there is one.
pub open spec fn find_type(rows: Seq<SoundingTypeView>, source: Seq<char>) -> Option<
    SoundingTypeView,
> {
    if has_type(rows, source) {
        Some(rows[type_position(rows, source)])
    } else {
        None
    }
}

/// The sounding type that stands for `sounding_type` in the table:
/// `sounding_type` itself if it carries an identifier, else the row with its
/// source.
pub open spec fn validated_type(
    rows: Seq<SoundingTypeView>,
    sounding_type: SoundingTypeView,
) -> Option<SoundingTypeView> {
    if sounding_type.is_valid() {
        Some(sounding_type)
    } else {
        find_type(rows, sounding_type.source)
    }
}

/// The table once `sounding_type` stands in it: unchanged where
/// `sounding_type` carries an identifier or a row has its source, else with
/// `sounding_type` as a new last row under the next identifier.
pub open spec fn types_with(rows: Seq<SoundingTypeView>, sounding_type: SoundingTypeView) -> Seq<
    SoundingTypeView,
> {
    if validated_type(rows, sounding_type) is Some {
        rows
    } else {
        rows.push(SoundingTypeView { id: (rows.len() + 1) as i64, ..sounding_type })
    }
}

/// The table once the row with the source of `sounding_type` has taken the
/// cadence and the observed flag of `sounding_type`.
pub open spec fn types_updated(
    rows: Seq<SoundingTypeView>,
    sounding_type: SoundingTypeView,
) -> Seq<SoundingTypeView> {
    if has_type(rows, sounding_type.source) {
        let i = type_position(rows, sounding_type.source);
        rows.update(i, rows[i].described_as(sounding_type))
    } else {
        rows
    }
}

/// Whether the table has no room for one more row.
pub open spec fn types_full(rows: Seq<SoundingTypeView>) -> bool {
    rows.len() + 1 >= i64::MAX
}

/// In a table that is well formed, a row with the source is the row at
/// `type_position`.
pub proof fn lemma_type_position(rows: Seq<SoundingTypeView>, source: Seq<char>, i: int)
    requires
        types_wf(rows),
        0 <= i < rows.len(),
        rows[i].source == source,
    ensures
        has_type(rows, source),
        type_position(rows, source) == i,
{
    let j = type_position(rows, source);
    if i < j {
        assert(rows[i].source != rows[j].source);
    }
    if j < i {
        assert(rows[j].source != rows[i].source);
    }
}

/// The place of the row with this source, if there is one.
pub fn locate_sounding_type(types: &Vec<SoundingType>, source: &str) -> (r: Option<usize>)
    requires
        types_wf(type_rows(types@)),
    ensures
        match r {
            Some(i) => has_type(type_rows(types@), source@) && i == type_position(
                type_rows(types@),
                source@,
            ),
            None => !has_type(type_rows(types@), source@),
        },
{
    let key = source.to_owned();
    let ghost rows = type_rows(types@);
    let mut i: usize = 0;
    while i < types.len()
        invariant
            0 <= i <= types.len(),
            rows == type_rows(types@),
            types_wf(rows),
            key@ == source@,
            forall|j: int| 0 <= j < i ==> (#[trigger] rows[j]).source != source@,
        decreases types.len() - i,
    {
        if types[i].source == key {
            proof {
                assert(rows[i as int].source == source@);
                lemma_type_position(rows, source@, i as int);
            }
            return Some(i);
        }
        i = i + 1;
    }
    None
}

/// The row with this source, if there is one.
pub fn retrieve_sounding_type(types: &Vec<SoundingType>, source: &str) -> (r: Option<SoundingType>)
    requires
        types_wf(type_rows(types@)),
    ensures
        match r {
            Some(sounding_type) => find_type(type_rows(types@), source@) == Some(sounding_type@),
            None => find_type(type_rows(types@), source@) is None,
        },
{
    match locate_sounding_type(types, source) {
        Some(i) => Some(types[i].clone()),
        None => None,
    }
}

/// Adds `sounding_type` as a new last row under the next identifier, and
/// returns it as it stands in the table. `None`, and no change, if a row has
/// the source of `sounding_type` already, or if the table is full.
pub fn insert_sounding_type(types: &mut Vec<SoundingType>, sounding_type: SoundingType) -> (r:
    Option<SoundingType>)
    requires
        types_wf(type_rows(old(types)@)),
    ensures
        types_wf(type_rows(final(types)@)),
        match r {
            Some(added) => {
                &&& !has_type(type_rows(old(types)@), sounding_type@.source)
                &&& !types_full(type_rows(old(types)@))
                &&& added@ == (SoundingTypeView {
                    id: (type_rows(old(types)@).len() + 1) as i64,
                    ..sounding_type@
                })
                &&& type_rows(final(types)@) == type_rows(old(types)@).push(added@)
            },
            None => (has_type(type_rows(old(types)@), sounding_type@.source) || types_full(
                type_rows(old(types)@),
            )) && type_rows(final(types)@) == type_rows(old(types)@),
        },
{
    if types.len() as u64 >= 0x7fff_ffff_ffff_fffe {
        return None;
    }
    if locate_sounding_type(types, sounding_type.source()).is_some() {
        return None;
    }
    let id = (types.len() as u64 + 1) as i64;
    let added = sounding_type.with_id(id);
    let r = added.clone();
    let ghost before = type_rows(types@);
    types.push(added);
    proof {
        let after = type_rows(types@);
        assert(after =~= before.push(r@));
        assert forall|i: int, j: int| 0 <= i < j < after.len() implies (#[trigger] after[i]).source
            != (#[trigger] after[j]).source by {
            if j == before.len() {
                assert(before[i].source != sounding_type@.source);
            } else {
                assert(before[i].source != before[j].source);
            }
        }
    }
    Some(r)
}

/// Gives the row with the source of `sounding_type` the cadence and the
/// observed flag of `sounding_type`, and returns the row as it then stands.
/// `None`, and no change, if no row has that source.
pub fn update_sounding_type(types: &mut Vec<SoundingType>, sounding_type: &SoundingType) -> (r:
    Option<SoundingType>)
    requires
        types_wf(type_rows(old(types)@)),
    ensures
        types_wf(type_rows(final(types)@)),
        type_rows(final(types)@) == types_updated(type_rows(old(types)@), sounding_type@),
        match r {
            Some(updated) => find_type(type_rows(final(types)@), sounding_type@.source) == Some(
                updated@,
            ) && has_type(type_rows(old(types)@), sounding_type@.source),
            None => !has_type(type_rows(old(types)@), sounding_type@.source),
        },
{
    let ghost before = type_rows(types@);
    match locate_sounding_type(types, sounding_type.source()) {
        Some(i) => {
            let updated = types[i].clone().described_as(sounding_type);
            let r = updated.clone();
            types.set(i, updated);
            proof {
                let after = type_rows(types@);
                assert(after =~= before.update(
                    i as int,
                    before[i as int].described_as(sounding_type@),
                ));
                assert forall|a: int, b: int| 0 <= a < b < after.len() implies (
                #[trigger] after[a]).source != (#[trigger] after[b]).source by {
                    assert(before[a].source != before[b].source);
                }
                lemma_type_position(after, sounding_type@.source, i as int);
            }
            Some(r)
        },
        None => None,
    }
}

/// Whether `sounding_type` can stand in the table as its next row: it
/// carries the next identifier, no row has its source, and the table has
/// room.
pub open spec fn type_fits(rows: Seq<SoundingTypeView>, sounding_type: SoundingTypeView) -> bool {
    sounding_type.id == rows.len() + 1 && !has_type(rows, sounding_type.source) && !types_full(
        rows,
    )
}

/// Puts a sounding type that was read from a stored index back as the next
/// row of the table, if it fits there, and says whether it did. No change
/// if it does not.
pub fn restore_sounding_type(types: &mut Vec<SoundingType>, sounding_type: SoundingType) -> (r:
    bool)
    requires
        types_wf(type_rows(old(types)@)),
    ensures
        types_wf(type_rows(final(types)@)),
        r == type_fits(type_rows(old(types)@), sounding_type@),
        type_rows(final(types)@) == if r {
            type_rows(old(types)@).push(sounding_type@)
        } else {
            type_rows(old(types)@)
        },
{
    if types.len() as u64 >= 0x7fff_ffff_ffff_fffe {
        return false;
    }
    if sounding_type.id != (types.len() as u64 + 1) as i64 {
        return false;
    }
    if locate_sounding_type(types, sounding_type.source()).is_some() {
        return false;
    }
    let ghost before = type_rows(types@);
    let ghost row = sounding_type@;
    types.push(sounding_type);
    proof {
        let after = type_rows(types@);
        assert(after =~= before.push(row));
        assert forall|i: int, j: int| 0 <= i < j < after.len() implies (#[trigger] after[i]).source
            != (#[trigger] after[j]).source by {
            if j == before.len() {
                assert(before[i].source != row.source);
            } else {
                assert(before[i].source != before[j].source);
            }
        }
    }
    true
}

/// A copy of every row, in the order of the identifiers.
pub fn all_sounding_types(types: &Vec<SoundingType>) -> (r: Vec<SoundingType>)
    ensures
        type_rows(r@) == type_rows(types@),
{
    let mut r: Vec<SoundingType> = Vec::new();
    let mut i: usize = 0;
    while i < types.len()
        invariant
            0 <= i <= types.len(),
            r.len() == i,
            forall|j: int| 0 <= j < i ==> (#[trigger] r@[j])@ == types@[j]@,
        decreases types.len() - i,
    {
        r.push(types[i].clone());
        i = i + 1;
    }
    assert(type_rows(r@) =~= type_rows(types@));
    r
}

/// Asking twice for a sounding type to stand in the table gives the same
/// sounding type both times, and the second time changes nothing: at most
/// one row is added.
pub proof fn sounding_type_added_once(
    rows: Seq<SoundingTypeView>,
    first: SoundingTypeView,
    second: SoundingTypeView,
)
    requires
        types_wf(rows),
        !types_full(rows),
        !first.is_valid(),
        !second.is_valid(),
        first.source == second.source,
    ensures
        types_wf(types_with(rows, first)),
        types_with(types_with(rows, first), second) == types_with(rows, first),
        validated_type(types_with(rows, first), first) is Some,
        validated_type(types_with(rows, first), second) == validated_type(
            types_with(rows, first),
            first,
        ),
        types_with(rows, first).len() <= rows.len() + 1,
{
    let after = types_with(rows, first);
    if !has_type(rows, first.source) {
        let added = SoundingTypeView { id: (rows.len() + 1) as i64, ..first };
        assert(after == rows.push(added));
        assert(after[rows.len() as int] == added);
        assert forall|i: int, j: int| 0 <= i < j < after.len() implies (#[trigger] after[i]).source
            != (#[trigger] after[j]).source by {
            if j == rows.len() {
                assert(rows[i].source != first.source);
            } else {
                assert(rows[i].source != rows[j].source);
            }
        }
        lemma_type_position(after, first.source, rows.len() as int);
    }
}

/// Updating a sounding type that stands in the table changes the cadence
/// and the observed flag of its row and nothing else: the row keeps its
/// source, its encoding and its identifier, every other row stays as it
/// was, and no row comes or goes.
pub proof fn type_update_keeps_identity(
    rows: Seq<SoundingTypeView>,
    sounding_type: SoundingTypeView,
)
    requires
        types_wf(rows),
        has_type(rows, sounding_type.source),
    ensures
        types_wf(types_updated(rows, sounding_type)),
        types_updated(rows, sounding_type).len() == rows.len(),
        forall|i: int|
            0 <= i < rows.len() ==> (#[trigger] types_updated(rows, sounding_type)[i]).id == rows[i].id
                && types_updated(rows, sounding_type)[i].source == rows[i].source,
        forall|i: int|
            0 <= i < rows.len() && rows[i].source != sounding_type.source ==> #[trigger] types_updated(
                rows,
                sounding_type,
            )[i] == rows[i],
        find_type(types_updated(rows, sounding_type), sounding_type.source) == Some(
            find_type(rows, sounding_type.source)->0.described_as(sounding_type),
        ),
{
    let i = type_position(rows, sounding_type.source);
    let after = types_updated(rows, sounding_type);
    assert forall|a: int, b: int| 0 <= a < b < after.len() implies (#[trigger] after[a]).source
        != (#[trigger] after[b]).source by {
        assert(rows[a].source != rows[b].source);
    }
    lemma_type_position(after, sounding_type.source, i);
}

} // verus!
