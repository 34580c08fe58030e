use bufkit_data::sounding_type::{
    all_sounding_types, insert_sounding_type, retrieve_sounding_type, update_sounding_type,
};
use bufkit_data::{FileType, SoundingType};

#[test]
fn test_insert_retrieve_sounding_type() {
    let mut types = vec![];

    insert_sounding_type(
        &mut types,
        SoundingType::new_model("GFS3", FileType::BUFKIT, 6),
    )
    .unwrap();
    let snd_tp = retrieve_sounding_type(&types, "GFS3").expect("No such sounding type.");

    assert_eq!(snd_tp.source(), "GFS3");
    assert_eq!(snd_tp.id(), 1);
    assert!(retrieve_sounding_type(&types, "gfs3").is_none());
}

#[test]
fn test_update_sounding_type_in_a_table() {
    let mut types = vec![];
    insert_sounding_type(&mut types, SoundingType::new_model("GFS", FileType::BUFKIT, 6)).unwrap();
    insert_sounding_type(&mut types, SoundingType::new_model("NAM", FileType::BUFKIT, 6)).unwrap();

    let updated =
        update_sounding_type(&mut types, &SoundingType::new_observed("NAM", FileType::BUFR, None))
            .unwrap();
    assert_eq!(updated.id(), 2);
    assert!(updated.is_observed());
    assert_eq!(updated.hours_between_initializations(), None);
    assert_eq!(updated.file_type(), FileType::BUFKIT);
    assert!(
        update_sounding_type(&mut types, &SoundingType::new_model("SREF", FileType::BUFKIT, 6))
            .is_none()
    );

    let all = all_sounding_types(&types);
    assert_eq!(all.len(), 2);
    assert_eq!(all[0].source(), "GFS");
    assert_eq!(all[1], updated);
}

#[test]
fn test_new_sounding_type() {
    let st = SoundingType::new("NamNest", false, FileType::BUFKIT, 6);
    assert_eq!(st.source(), "NAMNEST");
    assert!(st.is_modeled());
    assert!(!st.is_observed());
    assert!(!st.is_valid());
    assert_eq!(st.id(), -1);
    assert_eq!(st.hours_between_initializations(), Some(6));
    assert_eq!(st.file_type(), FileType::BUFKIT);

    let st = SoundingType::new("Incident", true, FileType::BUFR, None);
    assert_eq!(st.source(), "INCIDENT");
    assert!(!st.is_modeled());
    assert!(st.is_observed());
    assert_eq!(st.hours_between_initializations(), None);
    assert_eq!(st.file_type(), FileType::BUFR);

    assert_eq!(
        SoundingType::new_model("gfs", FileType::BUFKIT, 6),
        SoundingType::new("GFS", false, FileType::BUFKIT, Some(6))
    );
    assert_eq!(
        SoundingType::new_observed("raob", FileType::BUFR, 12),
        SoundingType::new("RAOB", true, FileType::BUFR, 12)
    );
    assert!(st.same_as(&st.clone()));
    assert!(!st.same_as(&SoundingType::new("Incident", true, FileType::BUFR, 1)));
    assert!(st.same_source(&SoundingType::new("incident", false, FileType::BUFKIT, 1)));
}

#[test]
fn test_file_type_names() {
    assert_eq!(FileType::BUFKIT.as_static(), "BUFKIT");
    assert_eq!(FileType::BUFR.as_static(), "BUFR");
    assert_eq!(FileType::from_str("BUFKIT").unwrap(), FileType::BUFKIT);
    assert_eq!(FileType::from_str("BUFR").unwrap(), FileType::BUFR);
    assert_eq!(
        FileType::from_str("bufr"),
        Err(strum::ParseError::VariantNotFound)
    );
    assert!(FileType::from_str("").is_err());
}

#[test]
fn test_parse_row_to_sounding_type() {
    let st = SoundingType::parse_row_to_sounding_type(3, "Gfs".to_owned(), "BUFR", Some(6), true)
        .unwrap();
    assert_eq!(st.id(), 3);
    assert!(st.is_valid());
    // The source is taken as the row has it.
    assert_eq!(st.source(), "Gfs");
    assert_eq!(st.file_type(), FileType::BUFR);
    assert_eq!(st.hours_between_initializations(), Some(6));
    assert!(st.is_observed());

    assert!(matches!(
        SoundingType::parse_row_to_sounding_type(3, "GFS".to_owned(), "GRIB", None, false),
        Err(bufkit_data::BufkitDataErr::StrumError(_))
    ));
}

#[test]
fn test_restore_sounding_type_in_a_table() {
    let mut types = vec![];
    let gfs =
        SoundingType::parse_row_to_sounding_type(1, "GFS".to_owned(), "BUFKIT", Some(6), false)
            .unwrap();
    assert!(bufkit_data::sounding_type::restore_sounding_type(&mut types, gfs.clone()));
    assert!(!bufkit_data::sounding_type::restore_sounding_type(&mut types, gfs.clone()));
    assert!(!bufkit_data::sounding_type::restore_sounding_type(
        &mut types,
        SoundingType::new("NAM", false, FileType::BUFKIT, 6)
    ));
    assert_eq!(types, vec![gfs]);
    assert_eq!(
        bufkit_data::sounding_type::locate_sounding_type(&types, "GFS"),
        Some(0)
    );
}

#[test]
fn test_insert_sounding_type_twice() {
    let mut types = vec![];
    let first =
        insert_sounding_type(&mut types, SoundingType::new_model("GFS", FileType::BUFKIT, 6))
            .unwrap();
    assert_eq!(first.id(), 1);
    assert_eq!(
        insert_sounding_type(&mut types, SoundingType::new_observed("gfs", FileType::BUFR, None)),
        None
    );
    assert_eq!(types, vec![first]);
}
