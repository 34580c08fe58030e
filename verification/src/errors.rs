//! What can go wrong in the archive.

use vstd::prelude::*;
use vstd::std_specs::convert::FromSpecImpl;
use vstd::string::StringExecFns;
use crate::location::{Location, LocationView};
use crate::site::{Site, SiteView};
use crate::sounding_type::{SoundingType, SoundingTypeView};

verus! {

/// An error from the archive.
#[derive(Debug)]
pub enum BufkitDataErr {
    /// Compressing or decompressing a blob failed.
    Io(std::io::Error),
    /// The bytes of a text file are no UTF-8.
    Utf8(std::str::Utf8Error),
    /// A text names no variant of an enumeration.
    StrumError(strum::ParseError),
    /// An error whose cause is known by its words alone, such as the one of
    /// a decoder that refuses a file.
    GeneralError(String),
    /// Not enough data to complete the task.
    NotEnoughData,
    /// The index has no file for this site, sounding type and time.
    NotFound,
    /// The index names a blob that the store does not hold.
    MissingBlob(String),
    /// No such site in the index.
    InvalidSite(Site),
    /// No such sounding type in the index.
    InvalidSoundingType(SoundingType),
    /// No such location in the index.
    InvalidLocation(Location),
    /// A row of a stored index, for the file of this name, that cannot
    /// stand in the index.
    InvalidFile(String),
    /// An initialization time, in seconds, that no calendar date stands for.
    InvalidInitTime(i64),
    /// A table of the index has no room for another row.
    IndexFull,
    /// No decoder is there for files of this encoding.
    UnknownFileType,
}

impl BufkitDataErr {
    /// Whether the error says that the index has no such site as `site`.
    pub open spec fn is_invalid_site(self, site: SiteView) -> bool {
        self matches BufkitDataErr::InvalidSite(s) && s@ == site
    }

    /// Whether the error says that the index has no such sounding type as
    /// `sounding_type`.
    pub open spec fn is_invalid_type(self, sounding_type: SoundingTypeView) -> bool {
        self matches BufkitDataErr::InvalidSoundingType(s) && s@ == sounding_type
    }

    /// Whether the error says that the index has no such location as
    /// `location`.
    pub open spec fn is_invalid_location(self, location: LocationView) -> bool {
        self matches BufkitDataErr::InvalidLocation(l) && l@ == location
    }

    /// Whether the error says that the store has no blob of this name.
    pub open spec fn is_missing_blob(self, name: Seq<char>) -> bool {
        self matches BufkitDataErr::MissingBlob(n) && n@ == name
    }

    /// Whether the error says that the row for the file of this name cannot
    /// stand in the index.
    pub open spec fn is_invalid_file(self, name: Seq<char>) -> bool {
        self matches BufkitDataErr::InvalidFile(n) && n@ == name
    }

    /// What every message for this error starts with.
    pub open spec fn heading(self) -> Seq<char> {
        match self {
            BufkitDataErr::Io(_) => "std lib io error: "@,
            BufkitDataErr::Utf8(_) => "error converting bytes to utf8: "@,
            BufkitDataErr::StrumError(_) => "error forwarded from strum crate: "@,
            BufkitDataErr::GeneralError(_) => "general error forwarded: "@,
            BufkitDataErr::NotEnoughData => "not enough data to complete task"@,
            BufkitDataErr::NotFound => "no such file in the index"@,
            BufkitDataErr::MissingBlob(_) => "no such blob in the store: "@,
            BufkitDataErr::InvalidSite(_) => "no such site in the index: "@,
            BufkitDataErr::InvalidSoundingType(_) => "no such sounding type in the index: "@,
            BufkitDataErr::InvalidLocation(_) => "no such location in the index: "@,
            BufkitDataErr::InvalidFile(_) => "no place in the index for the file: "@,
            BufkitDataErr::InvalidInitTime(_) => "no calendar date for the time: "@,
            BufkitDataErr::IndexFull => "no room left in the index"@,
            BufkitDataErr::UnknownFileType => "unknown file type"@,
        }
    }

    /// Whether `text` is a message for this error: its heading, and then
    /// what the error is about. For an error that carries a text, a site or
    /// a sounding type that is the text, the short name or the source; for
    /// an error without anything, nothing; for the others, words and
    /// numbers as the standard library writes them.
    pub open spec fn is_message(self, text: Seq<char>) -> bool {
        match self {
            BufkitDataErr::GeneralError(words) => text == self.heading() + words@,
            BufkitDataErr::MissingBlob(name) => text == self.heading() + name@,
            BufkitDataErr::InvalidFile(name) => text == self.heading() + name@,
            BufkitDataErr::InvalidSite(site) => text == self.heading() + site@.short_name,
            BufkitDataErr::InvalidSoundingType(sounding_type) => text == self.heading()
                + sounding_type@.source,
            BufkitDataErr::InvalidLocation(_) => exists|
                latitude: Seq<char>,
                longitude: Seq<char>,
                elevation: Seq<char>,
            | #[trigger]
                is_place(text, self.heading(), latitude, longitude, elevation),
            BufkitDataErr::NotEnoughData
            | BufkitDataErr::NotFound
            | BufkitDataErr::IndexFull
            | BufkitDataErr::UnknownFileType => text == self.heading(),
            _ => exists|detail: Seq<char>| text == self.heading() + detail,
        }
    }

    /// The error in words.
    pub fn message(&self) -> (r: String)
        ensures
            self.is_message(r@),
    {
        match self {
            BufkitDataErr::Io(err) => {
                let detail = err.to_string();
                let r = String::from_str("std lib io error: ").concat(detail.as_str());
                assert(r@ == self.heading() + detail@);
                r
            },
            BufkitDataErr::Utf8(err) => {
                let detail = err.to_string();
                let r = String::from_str("error converting bytes to utf8: ").concat(
                    detail.as_str(),
                );
                assert(r@ == self.heading() + detail@);
                r
            },
            BufkitDataErr::StrumError(err) => {
                let detail = err.to_string();
                let r = String::from_str("error forwarded from strum crate: ").concat(
                    detail.as_str(),
                );
                assert(r@ == self.heading() + detail@);
                r
            },
            BufkitDataErr::GeneralError(words) => String::from_str(
                "general error forwarded: ",
            ).concat(words.as_str()),
            BufkitDataErr::NotEnoughData => String::from_str("not enough data to complete task"),
            BufkitDataErr::NotFound => String::from_str("no such file in the index"),
            BufkitDataErr::MissingBlob(name) => String::from_str(
                "no such blob in the store: ",
            ).concat(name.as_str()),
            BufkitDataErr::InvalidFile(name) => String::from_str(
                "no place in the index for the file: ",
            ).concat(name.as_str()),
            BufkitDataErr::InvalidSite(site) => String::from_str(
                "no such site in the index: ",
            ).concat(site.short_name()),
            BufkitDataErr::InvalidSoundingType(sounding_type) => String::from_str(
                "no such sounding type in the index: ",
            ).concat(sounding_type.source()),
            BufkitDataErr::InvalidLocation(location) => {
                let latitude = location.latitude().to_string();
                let longitude = location.longitude().to_string();
                let elevation = location.elevation().to_string();
                let r = String::from_str("no such location in the index: ").concat(
                    "lat: ",
                ).concat(latitude.as_str()).concat(", lon: ").concat(longitude.as_str()).concat(
                    ", elev: ",
                ).concat(elevation.as_str());
                assert(is_place(r@, self.heading(), latitude@, longitude@, elevation@));
                r
            },
            BufkitDataErr::InvalidInitTime(seconds) => {
                let detail = seconds.to_string();
                let r = String::from_str("no calendar date for the time: ").concat(
                    detail.as_str(),
                );
                assert(r@ == self.heading() + detail@);
                r
            },
            BufkitDataErr::IndexFull => String::from_str("no room left in the index"),
            BufkitDataErr::UnknownFileType => String::from_str("unknown file type"),
        }
    }
}

/// Whether `text` is the heading and then a place in words: latitude and
/// longitude in microdegrees and elevation in meters.
pub open spec fn is_place(
    text: Seq<char>,
    heading: Seq<char>,
    latitude: Seq<char>,
    longitude: Seq<char>,
    elevation: Seq<char>,
) -> bool {
    text == heading + "lat: "@ + latitude + ", lon: "@ + longitude + ", elev: "@ + elevation
}

impl From<std::io::Error> for BufkitDataErr {
    fn from(err: std::io::Error) -> (r: BufkitDataErr) {
        BufkitDataErr::Io(err)
    }
}

impl FromSpecImpl<std::io::Error> for BufkitDataErr {
    open spec fn obeys_from_spec() -> bool {
        true
    }

    open spec fn from_spec(err: std::io::Error) -> BufkitDataErr {
        BufkitDataErr::Io(err)
    }
}

impl From<std::str::Utf8Error> for BufkitDataErr {
    fn from(err: std::str::Utf8Error) -> (r: BufkitDataErr) {
        BufkitDataErr::Utf8(err)
    }
}

impl FromSpecImpl<std::str::Utf8Error> for BufkitDataErr {
    open spec fn obeys_from_spec() -> bool {
        true
    }

    open spec fn from_spec(err: std::str::Utf8Error) -> BufkitDataErr {
        BufkitDataErr::Utf8(err)
    }
}

impl From<strum::ParseError> for BufkitDataErr {
    fn from(err: strum::ParseError) -> (r: BufkitDataErr) {
        BufkitDataErr::StrumError(err)
    }
}

impl FromSpecImpl<strum::ParseError> for BufkitDataErr {
    open spec fn obeys_from_spec() -> bool {
        true
    }

    open spec fn from_spec(err: strum::ParseError) -> BufkitDataErr {
        BufkitDataErr::StrumError(err)
    }
}

} // verus!
