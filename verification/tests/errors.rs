use bufkit_data::{BufkitDataErr, FileType, Location, Site, SoundingType, StateProv};

#[test]
fn test_messages_of_errors() {
    assert_eq!(
        BufkitDataErr::NotEnoughData.message(),
        "not enough data to complete task"
    );
    assert_eq!(
        BufkitDataErr::InvalidSite(Site::new("KXYZ")).message(),
        "no such site in the index: KXYZ"
    );
    assert_eq!(
        BufkitDataErr::InvalidSite(Site::new("kxyz")).message(),
        "no such site in the index: KXYZ"
    );
    assert_eq!(
        BufkitDataErr::InvalidSoundingType(SoundingType::new("gfs", false, FileType::BUFKIT, 6))
            .message(),
        "no such sounding type in the index: GFS"
    );
    assert_eq!(
        BufkitDataErr::InvalidLocation(Location::new(46_920_000, -114_080_000, 972, None))
            .message(),
        "no such location in the index: lat: 46920000, lon: -114080000, elev: 972"
    );
    assert_eq!(
        BufkitDataErr::InvalidInitTime(-5).message(),
        "no calendar date for the time: -5"
    );
    assert_eq!(
        BufkitDataErr::MissingBlob("a.gz".to_owned()).message(),
        "no such blob in the store: a.gz"
    );
    assert_eq!(
        BufkitDataErr::GeneralError("words".to_owned()).message(),
        "general error forwarded: words"
    );
    assert_eq!(BufkitDataErr::NotFound.message(), "no such file in the index");
    assert_eq!(BufkitDataErr::IndexFull.message(), "no room left in the index");
    assert_eq!(BufkitDataErr::UnknownFileType.message(), "unknown file type");
}

#[test]
fn test_messages_of_forwarded_errors() {
    let err = BufkitDataErr::from(StateProv::from_str("??").unwrap_err());
    assert!(matches!(err, BufkitDataErr::StrumError(_)));
    assert_eq!(
        err.message(),
        "error forwarded from strum crate: Matching variant not found"
    );

    let err = BufkitDataErr::from(std::io::Error::other("broken"));
    assert!(matches!(err, BufkitDataErr::Io(_)));
    assert_eq!(err.message(), "std lib io error: broken");

    let bytes = vec![0xffu8];
    let err = BufkitDataErr::from(std::str::from_utf8(&bytes).unwrap_err());
    assert!(matches!(err, BufkitDataErr::Utf8(_)));
    assert!(err
        .message()
        .starts_with("error converting bytes to utf8: "));
}

#[test]
fn test_message_of_a_row_that_does_not_fit() {
    assert_eq!(
        BufkitDataErr::InvalidFile("a.gz".to_owned()).message(),
        "no place in the index for the file: a.gz"
    );
}
