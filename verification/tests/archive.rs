use bufkit_data::archive::{decode_data, StoredText};
use bufkit_data::naming::{escape, file_name_from_token};
use bufkit_data::{Archive, BufkitDataErr, FileType, Location, Site, SoundingType, StateProv};
use chrono::NaiveDate;
use sounding_analysis::Sounding;
use sounding_bufkit::BufkitData;

// The time of day `hour`:00 on the given date, in seconds since the start of 1970.
fn seconds(year: i32, month: u32, day: u32, hour: u32) -> i64 {
    NaiveDate::from_ymd_opt(year, month, day)
        .unwrap()
        .and_hms_opt(hour, 0, 0)
        .unwrap()
        .and_utc()
        .timestamp()
}

// The text of a Bufkit file with one sounding, valid on 2017-04-01 at `hour`:00.
fn bufkit_text(hour: u32, lat: &str, lon: &str, elev: &str) -> String {
    format!(
        "SNPARM = PRES;TMPC;TMWC;DWPC;THTE;DRCT;SKNT;OMEG;HGHT
STNPRM = SHOW;LIFT;SWET;KINX;LCLP;PWAT;TOTL;CAPE;LCLT;CINS;EQLV;LFCT;BRCH

STID = STNM = 727730 TIME = 170401/{hour:02}00
SLAT = {lat} SLON = {lon} SELV = {elev}
STIM = 0

SHOW = 8.73 LIFT = 8.75 SWET = 35.35 KINX = 10.91
LCLP = 790.16 PWAT = 9.96 TOTL = 38.90 CAPE = 6.66
LCLT = 272.76 CINS = 0.00 EQLV = 768.94 LFCT = 789.03
BRCH = 0.34

PRES TMPC TMWC DWPC THTE DRCT SKNT OMEG
HGHT
906.70 10.54 6.12 1.52 305.69 270.00 2.14 -2.00
994.01
901.50 10.04 5.79 1.32 305.54 274.76 2.33 -2.00
1041.87
895.70 9.54 5.49 1.20 305.53 274.76 2.33 -2.00
1095.48

STN YYMMDD/HHMM PMSL PRES SKTC STC1 EVAP P03M
C03M SWEM LCLD MCLD HCLD UWND
VWND T2MS Q2MS WXTS WXTP WXTZ
WXTR S03M TD2M
727730 170401/{hour:02}00 1020.40 909.10 10.54 278.70 -9999.00 0.00
0.00 0.00 100.00 0.00 58.00 0.90
-0.10 10.34 4.59 0.00 0.00 0.00
0.00 -9999.00 1.13
"
    )
}

// The soundings that the decoder reads out of a stored text.
fn decode(stored: &StoredText) -> Vec<Sounding> {
    let data = BufkitData::init(&stored.text, &stored.description).expect("Failure to decode.");
    data.into_iter().map(|(sounding, _)| sounding).collect()
}

// The files that the tests fill an archive with: for the site kmso, GFS files every six hours
// of 2017-04-01, three of them twice, and NAM files at 00Z, 12Z and 18Z.
fn get_test_data() -> Vec<(Site, SoundingType, i64, Location, Vec<u8>)> {
    let mut to_return = vec![];
    for hour in [0u32, 6, 12, 18, 0, 6, 12] {
        to_return.push((
            Site::new("kmso"),
            SoundingType::new("GFS", false, FileType::BUFKIT, 6),
            seconds(2017, 4, 1, hour),
            Location::new(46_920_000, -114_080_000, 972, None),
            bufkit_text(hour, "46.92", "-114.08", "972.0").into_bytes(),
        ));
    }
    for hour in [0u32, 12, 18] {
        to_return.push((
            Site::new("kmso"),
            SoundingType::new("NAM", false, FileType::BUFKIT, 6),
            seconds(2017, 4, 1, hour),
            Location::new(46_870_000, -114_160_000, 1335, None),
            bufkit_text(hour, "46.87", "-114.16", "1335.0").into_bytes(),
        ));
    }
    to_return
}

// Fills the archive with the test data.
fn fill_test_archive(arch: &mut Archive) -> Result<(), BufkitDataErr> {
    for (site, sounding_type, init_time, loc, source) in get_test_data() {
        let site = arch.validate_or_add_site(site)?;
        let sounding_type = arch.validate_or_add_sounding_type(sounding_type)?;
        let loc = arch.validate_or_add_location(loc)?;
        arch.add_file(&site, &sounding_type, &loc, init_time, &source)?;
    }
    Ok(())
}

fn three_sites() -> [Site; 3] {
    [
        Site::new("kord")
            .with_long_name("Chicago/O'Hare".to_owned())
            .with_notes("Major air travel hub.".to_owned())
            .with_state_prov(StateProv::IL)
            .set_mobile(false),
        Site::new("ksea")
            .with_long_name("Seattle".to_owned())
            .with_notes("A coastal city with coffe and rain".to_owned())
            .with_state_prov(StateProv::WA)
            .set_mobile(false),
        Site::new("kmso")
            .with_long_name("Missoula".to_owned())
            .with_notes("In a valley.".to_owned())
            .with_state_prov(None)
            .set_mobile(false),
    ]
}

fn five_sounding_types() -> [SoundingType; 5] {
    [
        SoundingType::new("GFS", false, FileType::BUFKIT, 6),
        SoundingType::new("NAM", false, FileType::BUFKIT, 6),
        SoundingType::new("NamNest", false, FileType::BUFKIT, 6),
        SoundingType::new("Incident", true, FileType::BUFR, None),
        SoundingType::new("SREF", false, FileType::BUFKIT, 6),
    ]
}

// ---------------------------------------------------------------------------------------------
// Creating and maintaining the archive.
// ---------------------------------------------------------------------------------------------
#[test]
fn test_archive_create_new() {
    let arch = Archive::create();
    assert_eq!(arch.count(), 0);
    assert!(arch.sites().is_empty());
    assert!(arch.sounding_types().is_empty());
    assert!(arch.all_locations().is_empty());
}

#[test]
fn test_check() {
    let mut arch = Archive::create();
    fill_test_archive(&mut arch).expect("Error filling test archive.");

    // Rename all blobs with "NAM" in them
    let kmso = arch.site_info("kmso").unwrap();
    let nam = arch.sounding_type_info("NAM").unwrap();
    for hour in [0u32, 12, 18] {
        let fname =
            Archive::compressed_file_name(&kmso, &nam, seconds(2017, 4, 1, hour)).unwrap();
        let packed = arch.blob(&fname).unwrap().to_vec();
        let start = fname.find("NAM").unwrap();
        let end = start + 3;
        let mut renamed = fname.clone();
        renamed.replace_range(start..end, "NAMM");
        assert!(arch.discard_blob(&fname));
        arch.put_blob(&renamed, packed);
    }

    let (missing_files, extra_files) = arch.check();

    assert_eq!(missing_files.len(), 3);
    assert_eq!(missing_files.len(), extra_files.len());

    for fname in missing_files {
        assert!(fname.contains("_NAM_"));
        assert!(!fname.contains("_NAMM_"));
        assert!(!fname.contains("_GFS_"));
    }

    for fname in extra_files {
        assert!(fname.contains("_NAMM_"));
        assert!(!fname.contains("_NAM_"));
        assert!(!fname.contains("_GFS_"));
    }
}

#[test]
fn test_check_on_untouched_archive() {
    let mut arch = Archive::create();
    assert_eq!(arch.check(), (vec![], vec![]));
    fill_test_archive(&mut arch).expect("Error filling test archive.");
    assert_eq!(arch.check(), (vec![], vec![]));
}

#[test]
fn test_check_after_one_blob_was_deleted() {
    let mut arch = Archive::create();
    fill_test_archive(&mut arch).expect("Error filling test archive.");

    assert!(arch.discard_blob("2017-04-01T0600Z_GFS_KMSO.gz"));
    assert!(!arch.discard_blob("2017-04-01T0600Z_GFS_KMSO.gz"));

    let (missing_files, extra_files) = arch.check();
    assert_eq!(missing_files, vec!["2017-04-01T0600Z_GFS_KMSO.gz".to_owned()]);
    assert!(extra_files.is_empty());
}

#[test]
fn test_check_reports_a_blob_without_a_file() {
    let mut arch = Archive::create();
    fill_test_archive(&mut arch).expect("Error filling test archive.");

    arch.put_blob("stray.gz", vec![1, 2, 3]);

    let (missing_files, extra_files) = arch.check();
    assert!(missing_files.is_empty());
    assert_eq!(extra_files, vec!["stray.gz".to_owned()]);
}

// ---------------------------------------------------------------------------------------------
// Query or modify site metadata
// ---------------------------------------------------------------------------------------------
#[test]
fn test_sites() {
    let mut arch = Archive::create();
    let mut test_sites = three_sites();

    for site in test_sites.iter_mut() {
        *site = arch
            .validate_or_add_site(site.clone())
            .expect("Error adding site.");
    }

    let sites = arch.sites();
    let sites: Vec<_> = sites.iter().map(|s| s.short_name()).collect();

    assert_eq!(sites.len(), 3);
    assert!(sites.contains(&"KMSO"));
    assert!(sites.contains(&"KSEA"));
    assert!(sites.contains(&"KORD"));
    assert!(!sites.contains(&"XYZ"));
}

#[test]
fn test_site_info() {
    let mut arch = Archive::create();
    let mut test_sites = three_sites();

    for site in test_sites.iter_mut() {
        assert!(!site.is_valid());

        *site = arch
            .validate_or_add_site(site.clone())
            .expect("Error adding site.");

        assert!(site.is_valid());
    }

    for site in test_sites.iter() {
        let retr_site = arch.site_info(site.short_name()).unwrap();

        assert!(retr_site.is_valid());
        assert_eq!(site.short_name(), retr_site.short_name());
        assert_eq!(site.long_name(), retr_site.long_name());
        assert_eq!(site.state_prov(), retr_site.state_prov());
        assert_eq!(site.notes(), retr_site.notes());
    }
}

#[test]
fn test_set_site_info() {
    let mut arch = Archive::create();
    let mut test_sites = three_sites();

    for site in test_sites.iter_mut() {
        *site = arch
            .validate_or_add_site(site.clone())
            .expect("Error adding site.");
    }

    let retr_site = arch.site_info("kmso").unwrap();
    assert_eq!(retr_site.short_name(), test_sites[2].short_name());
    assert_eq!(retr_site.long_name(), test_sites[2].long_name());
    assert_eq!(retr_site.notes(), test_sites[2].notes());
    assert_eq!(retr_site.state_prov(), test_sites[2].state_prov());

    let zootown = Site::new("kmso")
        .with_long_name("Zootown".to_owned())
        .with_notes("Mountains, not coast.".to_owned())
        .with_state_prov(None)
        .set_mobile(false);

    arch.set_site_info(zootown.clone())
        .expect("Error updating site.");

    let retr_site = arch.site_info("kmso").unwrap();
    assert!(retr_site.is_valid());
    assert_eq!(retr_site.short_name(), test_sites[2].short_name());
    assert_ne!(retr_site.long_name(), test_sites[2].long_name());
    assert_ne!(retr_site.notes(), test_sites[2].notes());
    assert_eq!(retr_site.state_prov(), test_sites[2].state_prov());

    assert_eq!(retr_site.short_name(), zootown.short_name());
    assert_eq!(retr_site.long_name(), zootown.long_name());
    assert_eq!(retr_site.notes(), zootown.notes());
    assert_eq!(retr_site.state_prov(), zootown.state_prov());
}

#[test]
fn test_set_site_info_keeps_name_and_identifier() {
    let mut arch = Archive::create();
    let kord = arch.validate_or_add_site(Site::new("kord")).unwrap();
    let kmso = arch
        .validate_or_add_site(Site::new("kmso").with_long_name("Missoula".to_owned()))
        .unwrap();
    assert_eq!(kord.id(), 1);
    assert_eq!(kmso.id(), 2);

    let updated = arch
        .set_site_info(
            Site::new("kmso")
                .with_state_prov(StateProv::MT)
                .set_mobile(true),
        )
        .unwrap();

    assert_eq!(updated.id(), 2);
    assert_eq!(updated.short_name(), "KMSO");
    assert_eq!(updated.long_name(), None);
    assert_eq!(updated.state_prov(), Some(StateProv::MT));
    assert!(updated.is_mobile());
    assert_eq!(arch.sites().len(), 2);
    assert_eq!(arch.site_info("kord"), Some(kord));
    assert_eq!(arch.site_info("kmso"), Some(updated));
}

#[test]
fn test_set_site_info_of_a_site_that_is_not_there() {
    let mut arch = Archive::create();
    let missing = Site::new("kxyz").with_long_name("not real".to_owned());
    match arch.set_site_info(missing.clone()) {
        Err(BufkitDataErr::InvalidSite(site)) => assert_eq!(site, missing),
        other => panic!("unexpected: {:?}", other),
    }
    assert!(arch.sites().is_empty());
}

#[test]
fn test_validate_site() {
    let mut arch = Archive::create();
    let test_sites = three_sites();

    for site in test_sites.iter() {
        arch.validate_or_add_site(site.clone()).unwrap();
    }

    for site in test_sites.iter() {
        let valid_site = arch.validate_site(site.clone()).unwrap();

        assert!(valid_site.is_valid());
        assert_eq!(valid_site.short_name(), site.short_name());
    }

    let bad_site = Site::new("kxyz")
        .with_long_name("not real".to_owned())
        .with_notes("I made this up, it may be real anyway.".to_owned())
        .with_state_prov(None)
        .set_mobile(false);

    assert!(arch.validate_site(bad_site).is_err());
}

#[test]
fn test_validate_or_add_site() {
    let mut arch = Archive::create();
    let mut test_sites = three_sites();

    for site in test_sites.iter_mut() {
        *site = arch.validate_or_add_site(site.clone()).unwrap();

        assert!(site.is_valid());
    }
}

#[test]
fn test_validate_or_add_site_twice() {
    let mut arch = Archive::create();
    let first = arch
        .validate_or_add_site(Site::new("kmso").with_long_name("Missoula".to_owned()))
        .unwrap();
    // What the index has wins over what is handed in.
    let second = arch
        .validate_or_add_site(Site::new("kmso").with_long_name("Zootown".to_owned()))
        .unwrap();
    assert_eq!(first.id(), 1);
    assert_eq!(second, first);
    assert_eq!(arch.sites().len(), 1);
    // A validated site comes back as it is.
    let third = arch.validate_or_add_site(first.clone()).unwrap();
    assert_eq!(third, first);
}

#[test]
fn test_sites_round_trip() {
    let mut arch = Archive::create();
    let mut test_sites = [
        Site::new("kord")
            .with_long_name("Chicago/O'Hare".to_owned())
            .with_notes("Major air travel hub.".to_owned())
            .with_state_prov(StateProv::IL)
            .set_mobile(false),
        Site::new("ksea")
            .with_long_name("Seattle".to_owned())
            .with_notes("A coastal city with coffee and rain".to_owned())
            .with_state_prov(StateProv::WA)
            .set_mobile(false),
        Site::new("kmso")
            .with_long_name("Missoula".to_owned())
            .with_notes("In a valley.".to_owned())
            .with_state_prov(None)
            .set_mobile(false),
    ];

    for site in test_sites.iter_mut() {
        *site = arch.validate_or_add_site(site.clone()).unwrap();
    }

    assert_eq!(arch.site_info("ksea").unwrap().short_name(), "KSEA");
    assert_eq!(arch.site_info("kord").unwrap().short_name(), "KORD");
    assert_eq!(arch.site_info("xyz"), None);

    let retrieved_sites = arch.sites();

    for site in retrieved_sites {
        println!("{:#?}", site);
        assert!(test_sites
            .iter()
            .find(|st| st.short_name() == site.short_name())
            .is_some());
    }
}

// ---------------------------------------------------------------------------------------------
// Query or modify sounding type metadata
// ---------------------------------------------------------------------------------------------
#[test]
fn test_sounding_types() {
    let mut arch = Archive::create();
    fill_test_archive(&mut arch).expect("Error filling test archive.");

    let types: Vec<String> = arch
        .sounding_types()
        .iter()
        .map(|t| t.source().to_owned())
        .collect();

    assert!(types.contains(&"GFS".to_owned()));
    assert!(types.contains(&"NAM".to_owned()));
    assert!(!types.contains(&"NAM4KM".to_owned()));
    assert!(!types.contains(&"LocalWrf".to_owned()));
    assert!(!types.contains(&"Other".to_owned()));
}

#[test]
fn test_sounding_type_info() {
    let mut arch = Archive::create();
    let mut test_sts = five_sounding_types();

    for st in test_sts.iter_mut() {
        assert!(!st.is_valid());

        *st = arch
            .validate_or_add_sounding_type(st.clone())
            .expect("Error adding sounding type.");

        assert!(st.is_valid());
    }

    for st in test_sts.iter() {
        let retr_st = arch.sounding_type_info(st.source()).unwrap();

        assert!(retr_st.is_valid());
        assert_eq!(st.source(), retr_st.source());
        assert_eq!(st.is_modeled(), retr_st.is_modeled());
        assert_eq!(st.is_observed(), retr_st.is_observed());
        assert_eq!(
            st.hours_between_initializations(),
            retr_st.hours_between_initializations()
        );
        assert_eq!(st.file_type(), retr_st.file_type());
    }
}

#[test]
fn test_set_sounding_type_info() {
    let mut arch = Archive::create();
    let mut test_sts = five_sounding_types();

    for st in test_sts.iter_mut() {
        *st = arch
            .validate_or_add_sounding_type(st.clone())
            .expect("Error adding sounding type.");
    }

    let retr_st = arch.sounding_type_info("SREF").unwrap();
    assert_eq!(retr_st.source(), test_sts[4].source());
    assert_eq!(retr_st.is_modeled(), test_sts[4].is_modeled());
    assert_eq!(retr_st.is_observed(), test_sts[4].is_observed());
    assert_eq!(
        retr_st.hours_between_initializations(),
        test_sts[4].hours_between_initializations()
    );
    assert_eq!(retr_st.file_type(), test_sts[4].file_type());

    let sref = SoundingType::new("SREF", false, FileType::BUFKIT, None);

    arch.set_sounding_type_info(sref.clone())
        .expect("Error updating sounding type.");

    let retr_st = arch.sounding_type_info("SREF").unwrap();
    assert!(retr_st.is_valid());
    assert_eq!(retr_st.source(), test_sts[4].source());
    assert_eq!(retr_st.is_modeled(), test_sts[4].is_modeled());
    assert_eq!(retr_st.is_observed(), test_sts[4].is_observed());
    assert_ne!(
        retr_st.hours_between_initializations(),
        test_sts[4].hours_between_initializations()
    );
    assert_eq!(retr_st.file_type(), test_sts[4].file_type());

    assert_eq!(retr_st.source(), sref.source());
    assert_eq!(retr_st.is_modeled(), sref.is_modeled());
    assert_eq!(retr_st.is_observed(), sref.is_observed());
    assert_eq!(
        retr_st.hours_between_initializations(),
        sref.hours_between_initializations()
    );
    assert_eq!(retr_st.file_type(), sref.file_type());
}

#[test]
fn test_set_sounding_type_info_keeps_the_encoding() {
    let mut arch = Archive::create();
    let added = arch
        .validate_or_add_sounding_type(SoundingType::new("SREF", false, FileType::BUFKIT, 6))
        .unwrap();
    let updated = arch
        .set_sounding_type_info(SoundingType::new("SREF", true, FileType::BUFR, 3))
        .unwrap();
    assert_eq!(updated.id(), added.id());
    assert_eq!(updated.source(), "SREF");
    assert_eq!(updated.file_type(), FileType::BUFKIT);
    assert!(updated.is_observed());
    assert_eq!(updated.hours_between_initializations(), Some(3));

    let missing = SoundingType::new("HRRR", false, FileType::BUFKIT, 1);
    match arch.set_sounding_type_info(missing.clone()) {
        Err(BufkitDataErr::InvalidSoundingType(st)) => assert_eq!(st, missing),
        other => panic!("unexpected: {:?}", other),
    }
}

#[test]
fn test_sounding_types_for_site() {
    let mut arch = Archive::create();
    fill_test_archive(&mut arch).expect("Error filling test archive.");

    let site = arch.site_info("kmso").expect("No such site.");

    let types: Vec<String> = arch
        .sounding_types_for_site(&site)
        .iter()
        .map(|t| t.source().to_owned())
        .collect();

    assert!(types.contains(&"GFS".to_owned()));
    assert!(types.contains(&"NAM".to_owned()));
    assert!(!types.contains(&"NAM4KM".to_owned()));
    assert!(!types.contains(&"LocalWrf".to_owned()));
    assert!(!types.contains(&"Other".to_owned()));
}

#[test]
fn test_sounding_types_for_site_without_files() {
    let mut arch = Archive::create();
    fill_test_archive(&mut arch).expect("Error filling test archive.");
    let kord = arch.validate_or_add_site(Site::new("kord")).unwrap();
    assert!(arch.sounding_types_for_site(&kord).is_empty());
}

#[test]
fn test_validate_sounding_type() {
    let mut arch = Archive::create();
    let mut test_sts = five_sounding_types();

    for st in test_sts.iter_mut() {
        *st = arch
            .validate_or_add_sounding_type(st.clone())
            .expect("Error adding sounding type.");
    }

    for st in test_sts.iter() {
        arch.validate_or_add_sounding_type(st.clone()).unwrap();
    }

    for st in test_sts.iter() {
        let valid_st = arch.validate_sounding_type(st.clone()).unwrap();

        assert!(valid_st.is_valid());
        assert_eq!(valid_st.source(), st.source());
    }

    let bad_st = SoundingType::new("drill into ground", false, FileType::BUFR, 1);

    assert!(arch.validate_sounding_type(bad_st).is_err());
}

#[test]
fn test_validate_or_add_sounding_type() {
    let mut arch = Archive::create();
    let mut test_sts = five_sounding_types();

    for st in test_sts.iter_mut() {
        *st = arch
            .validate_or_add_sounding_type(st.clone())
            .expect("Error adding sounding type.");

        assert!(st.is_valid());
    }
    assert_eq!(arch.sounding_types().len(), 5);
    assert_eq!(test_sts[2].source(), "NAMNEST");
}

// ---------------------------------------------------------------------------------------------
// Query or modify location metadata
// ---------------------------------------------------------------------------------------------
fn populate_test_locations(arch: &mut Archive) -> [Location; 5] {
    let mut test_locs = [
        Location::new(43_000_000, -110_000_000, 599, None),
        Location::new(45_000_000, -112_000_000, 699, None),
        Location::new(47_000_000, -114_000_000, 799, None),
        Location::new(49_000_000, -116_000_000, 999, None),
        Location::new(49_000_000, -116_000_000, 999, None), // Duplicate!
    ];

    for loc in test_locs.iter_mut() {
        assert!(!loc.is_valid());

        *loc = arch
            .validate_or_add_location(loc.clone())
            .expect("Error adding location.");

        assert!(loc.is_valid());
    }

    test_locs
}

#[test]
fn test_all_locations() {
    let mut arch = Archive::create();
    let _ = populate_test_locations(&mut arch);

    let locs = arch.all_locations();
    let locs: Vec<_> = locs.iter().map(|s| s.elevation()).collect();

    assert_eq!(locs.len(), 4);
    assert!(locs.contains(&599));
    assert!(locs.contains(&699));
    assert!(locs.contains(&799));
    assert!(locs.contains(&999));
    assert!(!locs.contains(&899));
}

#[test]
fn test_location_info() {
    let mut arch = Archive::create();
    let test_locs = populate_test_locations(&mut arch);

    for loc in test_locs.iter() {
        let retr_loc = arch
            .location_info(loc.latitude(), loc.longitude(), loc.elevation())
            .unwrap();

        assert!(loc.is_valid());
        assert!(retr_loc.is_valid());
        assert_eq!(loc.latitude(), retr_loc.latitude());
        assert_eq!(loc.longitude(), retr_loc.longitude());
        assert_eq!(loc.elevation(), retr_loc.elevation());
        assert_eq!(loc.tz_offset(), retr_loc.tz_offset());
    }
    assert_eq!(arch.location_info(43_000_000, -110_000_000, 600), None);
    assert_eq!(arch.location_info(43_000_001, -110_000_000, 599), None);
}

#[test]
fn test_retrieve_or_add_location() {
    let mut arch = Archive::create();
    let test_locs = populate_test_locations(&mut arch);

    let known = arch
        .retrieve_or_add_location(45_000_000, -112_000_000, 699)
        .unwrap();
    assert_eq!(known, test_locs[1]);
    assert_eq!(arch.all_locations().len(), 4);

    let added = arch
        .retrieve_or_add_location(45_000_000, -112_000_000, 700)
        .unwrap();
    assert_eq!(added.id(), 5);
    assert_eq!(added.latitude(), 45_000_000);
    assert_eq!(added.longitude(), -112_000_000);
    assert_eq!(added.elevation(), 700);
    assert_eq!(added.tz_offset(), None);
    assert_eq!(arch.all_locations().len(), 5);
}

#[test]
fn test_set_location_info() {
    let mut arch = Archive::create();
    let test_locs = populate_test_locations(&mut arch);

    let loc = test_locs[0];
    assert!(loc.is_valid());
    let loc = loc.with_tz_offset(-3600 * 6);

    arch.set_location_info(loc).unwrap();

    let retr_loc = arch
        .location_info(loc.latitude(), loc.longitude(), loc.elevation())
        .unwrap();

    assert_eq!(retr_loc.tz_offset(), loc.tz_offset());
    assert_ne!(retr_loc.tz_offset(), test_locs[0].tz_offset());
    assert_eq!(retr_loc.id(), test_locs[0].id());

    let nowhere = Location::new(1, 2, 3, 3600);
    match arch.set_location_info(nowhere) {
        Err(BufkitDataErr::InvalidLocation(location)) => assert_eq!(location, nowhere),
        other => panic!("unexpected: {:?}", other),
    }
}

#[test]
fn test_locations_for_site_and_type() {
    let mut arch = Archive::create();
    fill_test_archive(&mut arch).expect("Error filling test archive.");

    let site = arch.site_info("kmso").expect("No such site.");
    let sounding_type = arch
        .sounding_types_for_site(&site)
        .into_iter()
        .filter(|st| st.source() == "GFS")
        .nth(0)
        .unwrap();

    let locs: Vec<Location> = arch.locations_for_site_and_type(&site, &sounding_type);

    assert_eq!(locs.len(), 1);
    let loc = locs.into_iter().nth(0).unwrap();
    assert_eq!(loc.latitude(), 46_920_000);
    assert_eq!(loc.longitude(), -114_080_000);
    assert_eq!(loc.elevation(), 972);
    assert!(loc.tz_offset().is_none());
}

#[test]
fn test_validate_location() {
    let mut arch = Archive::create();
    let mut test_locations = populate_test_locations(&mut arch);

    for loc in test_locations.iter_mut() {
        *loc = arch.validate_location(*loc).unwrap();

        assert!(loc.is_valid());
    }

    assert_eq!(test_locations[3].id(), test_locations[4].id());

    let unknown = Location::new(10_000_000, 20_000_000, 30, None);
    match arch.validate_location(unknown) {
        Err(BufkitDataErr::InvalidLocation(location)) => assert_eq!(location, unknown),
        other => panic!("unexpected: {:?}", other),
    }
}

#[test]
fn test_validate_or_add_location() {
    let mut arch = Archive::create();
    let mut test_locations = populate_test_locations(&mut arch);

    for loc in test_locations.iter_mut() {
        *loc = arch
            .validate_or_add_location(*loc)
            .expect("Error adding location.");

        assert!(loc.is_valid());
    }

    assert_eq!(test_locations[3].id(), test_locations[4].id());
}

#[test]
fn test_validate_or_add_location_twice() {
    let mut arch = Archive::create();
    let first = arch
        .validate_or_add_location(Location::new(46_920_000, -114_080_000, 972, None))
        .unwrap();
    let count = arch.all_locations().len();
    // The same place, whatever else is handed in.
    let second = arch
        .validate_or_add_location(Location::new(46_920_000, -114_080_000, 972, -25200))
        .unwrap();
    assert_eq!(first.id(), 1);
    assert_eq!(second.id(), first.id());
    assert_eq!(second.tz_offset(), None);
    assert_eq!(count, 1);
    assert_eq!(arch.all_locations().len(), 1);
}

// ---------------------------------------------------------------------------------------------
// Query archive inventory
// ---------------------------------------------------------------------------------------------
#[test]
fn test_inventory() {
    let mut arch = Archive::create();
    fill_test_archive(&mut arch).expect("Error filling test archive.");

    let site = arch.site_info("kmso").expect("No such site.");
    let gfs = arch
        .sounding_type_info("GFS")
        .expect("No such sounding type.");
    let nam = arch
        .sounding_type_info("NAM")
        .expect("No such sounding type.");

    let first = seconds(2017, 4, 1, 0);
    let last = seconds(2017, 4, 1, 18);

    let inv = arch.inventory(&site);

    assert_eq!(inv.range(&gfs).unwrap(), (first, last));
    assert_eq!(inv.range(&nam).unwrap(), (first, last));

    let gfs_locations = inv.locations(&gfs);
    assert_eq!(gfs_locations.len(), 1);
    assert_eq!(gfs_locations[0].latitude(), 46_920_000);
    assert_eq!(gfs_locations[0].longitude(), -114_080_000);
    assert_eq!(gfs_locations[0].elevation(), 972);
    assert!(gfs_locations[0].is_valid());

    let nam_locations = inv.locations(&nam);
    assert_eq!(nam_locations.len(), 1);
    assert_eq!(nam_locations[0].latitude(), 46_870_000);
    assert_eq!(nam_locations[0].longitude(), -114_160_000);
    assert_eq!(nam_locations[0].elevation(), 1335);
    assert!(nam_locations[0].is_valid());

    assert!(inv.missing(&gfs).is_empty());
    assert_eq!(
        inv.missing(&nam),
        [(seconds(2017, 4, 1, 6), seconds(2017, 4, 1, 6))]
    );
    assert_eq!(inv.site(), &site);
}

#[test]
fn test_most_recent_valid_time() {
    let mut arch = Archive::create();
    fill_test_archive(&mut arch).expect("Error filling test archive.");

    let site = arch.site_info("kmso").unwrap();
    let sounding_type = arch.sounding_type_info("GFS").unwrap();
    let most_recent = arch.most_recent_valid_time(&site, &sounding_type).unwrap();

    let most_recent_should_be = seconds(2017, 4, 1, 18);
    assert_eq!(most_recent, most_recent_should_be);

    let sounding_type = arch.sounding_type_info("NAM").unwrap();
    let most_recent = arch.most_recent_valid_time(&site, &sounding_type).unwrap();

    assert_eq!(most_recent, most_recent_should_be);
}

#[test]
fn test_most_recent_valid_time_without_files() {
    let mut arch = Archive::create();
    fill_test_archive(&mut arch).expect("Error filling test archive.");
    let kord = arch.validate_or_add_site(Site::new("kord")).unwrap();
    let gfs = arch.sounding_type_info("GFS").unwrap();
    assert!(matches!(
        arch.most_recent_valid_time(&kord, &gfs),
        Err(BufkitDataErr::NotFound)
    ));
    assert!(matches!(
        arch.most_recent_analysis(&kord, &gfs),
        Err(BufkitDataErr::NotFound)
    ));
}

#[test]
fn test_file_exists() {
    let mut arch = Archive::create();
    fill_test_archive(&mut arch).expect("Error filling test archive.");

    let kmso = arch.site_info("kmso").unwrap();
    let snd_type = arch.sounding_type_info("GFS").unwrap();

    println!("Checking for files that should exist.");
    assert!(arch.file_exists(&kmso, &snd_type, seconds(2017, 4, 1, 0)));
    assert!(arch.file_exists(&kmso, &snd_type, seconds(2017, 4, 1, 6)));
    assert!(arch.file_exists(&kmso, &snd_type, seconds(2017, 4, 1, 12)));
    assert!(arch.file_exists(&kmso, &snd_type, seconds(2017, 4, 1, 18)));

    println!("Checking for files that should NOT exist.");
    assert!(!arch.file_exists(&kmso, &snd_type, seconds(2018, 4, 1, 0)));
    assert!(!arch.file_exists(&kmso, &snd_type, seconds(2018, 4, 1, 6)));
    assert!(!arch.file_exists(&kmso, &snd_type, seconds(2018, 4, 1, 12)));
    assert!(!arch.file_exists(&kmso, &snd_type, seconds(2018, 4, 1, 18)));
}

#[test]
fn test_file_exists_for_records_that_are_not_validated() {
    let mut arch = Archive::create();
    fill_test_archive(&mut arch).expect("Error filling test archive.");
    let gfs = arch.sounding_type_info("GFS").unwrap();
    assert!(!arch.file_exists(&Site::new("kmso"), &gfs, seconds(2017, 4, 1, 0)));
    assert!(!Archive::create().file_exists(&Site::new("kmso"), &gfs, seconds(2017, 4, 1, 0)));
}

#[test]
fn test_count() {
    let mut arch = Archive::create();
    fill_test_archive(&mut arch).expect("Error filling test archive.");

    // 7 and not 10 because of duplicate GFS models in the input.
    assert_eq!(arch.count(), 7);
}

// ---------------------------------------------------------------------------------------------
// Add, remove, and retrieve files from the archive
// ---------------------------------------------------------------------------------------------
#[test]
fn test_files_round_trip() {
    let mut arch = Archive::create();
    let test_data = get_test_data();

    for (site, sounding_type, init_time, loc, source) in test_data {
        let site = arch.validate_or_add_site(site).unwrap();
        let sounding_type = arch.validate_or_add_sounding_type(sounding_type).unwrap();
        let loc = arch.validate_or_add_location(loc).unwrap();

        arch.add_file(&site, &sounding_type.clone(), &loc, init_time, &source)
            .expect("Failure to add.");

        let site = arch
            .site_info(site.short_name())
            .expect("Site not in index.");
        let sounding_type = arch
            .sounding_type_info(sounding_type.source())
            .expect("Sounding type not in index.");

        let recovered_anal = decode(
            &arch
                .retrieve(&site, &sounding_type, init_time)
                .expect("Failure to load."),
        );

        assert_eq!(
            recovered_anal[0].valid_time().unwrap().and_utc().timestamp(),
            init_time
        );
        assert_eq!(recovered_anal.len(), 1);
    }
}

#[test]
fn test_export() {
    let mut arch = Archive::create();
    let test_data = get_test_data();

    for (site, sounding_type, init_time, loc, source) in test_data {
        let site = arch.validate_or_add_site(site).unwrap();
        let sounding_type = arch.validate_or_add_sounding_type(sounding_type).unwrap();
        let loc = arch.validate_or_add_location(loc).unwrap();

        arch.add_file(&site, &sounding_type, &loc, init_time, &source)
            .expect("Failure to add.");

        let exported = arch
            .export(&site, &sounding_type, init_time)
            .expect("Failure to export.");
        assert_eq!(exported, source);
    }
}

#[test]
fn test_export_of_a_file_that_is_not_there() {
    let mut arch = Archive::create();
    fill_test_archive(&mut arch).expect("Error filling test archive.");
    let kmso = arch.site_info("kmso").unwrap();
    let gfs = arch.sounding_type_info("GFS").unwrap();

    assert!(matches!(
        arch.export(&kmso, &gfs, seconds(2018, 4, 1, 0)),
        Err(BufkitDataErr::NotFound)
    ));
    assert!(matches!(
        arch.retrieve(&kmso, &gfs, seconds(2018, 4, 1, 0)),
        Err(BufkitDataErr::NotFound)
    ));
}

#[test]
fn test_export_of_a_file_whose_blob_is_gone_or_broken() {
    let mut arch = Archive::create();
    fill_test_archive(&mut arch).expect("Error filling test archive.");
    let kmso = arch.site_info("kmso").unwrap();
    let gfs = arch.sounding_type_info("GFS").unwrap();
    let name = "2017-04-01T0000Z_GFS_KMSO.gz";

    arch.put_blob(name, b"this is no gzip stream".to_vec());
    assert!(matches!(
        arch.export(&kmso, &gfs, seconds(2017, 4, 1, 0)),
        Err(BufkitDataErr::Io(_))
    ));

    assert!(arch.discard_blob(name));
    match arch.export(&kmso, &gfs, seconds(2017, 4, 1, 0)) {
        Err(BufkitDataErr::MissingBlob(missing)) => assert_eq!(missing, name),
        other => panic!("unexpected: {:?}", other),
    }
    match arch.remove(&kmso, &gfs, seconds(2017, 4, 1, 0)) {
        Err(BufkitDataErr::MissingBlob(missing)) => assert_eq!(missing, name),
        other => panic!("unexpected: {:?}", other),
    }
    // The row stays while its blob cannot be removed.
    assert!(arch.file_exists(&kmso, &gfs, seconds(2017, 4, 1, 0)));
    assert_eq!(arch.count(), 7);
}

#[test]
fn test_get_most_recent_analysis() {
    let mut arch = Archive::create();
    fill_test_archive(&mut arch).expect("Error filling test archive.");

    let kmso = arch.site_info("kmso").expect("Site not in index.");
    let snd_type = arch
        .sounding_type_info("GFS")
        .expect("Sounding type not in index");

    let init_time = arch
        .most_recent_valid_time(&kmso, &snd_type)
        .expect("Error getting valid time.");

    assert_eq!(init_time, seconds(2017, 4, 1, 18));

    let stored = arch
        .most_recent_analysis(&kmso, &snd_type)
        .expect("Failed to retrieve sounding.");
    assert_eq!(stored.description, "2017-04-01T1800Z_GFS_KMSO.gz");
    assert_eq!(
        decode(&stored)[0].valid_time().unwrap().and_utc().timestamp(),
        init_time
    );
}

#[test]
fn test_remove_file() {
    let mut arch = Archive::create();
    fill_test_archive(&mut arch).expect("Error filling test archive.");

    let init_time = seconds(2017, 4, 1, 0);
    let kmso = arch.site_info("kmso").expect("No such site.");
    let snd_type = arch
        .sounding_type_info("GFS")
        .expect("No such sounding type.");

    assert!(arch.file_exists(&kmso, &snd_type, init_time));
    arch.remove(&kmso, &snd_type, init_time)
        .expect("Error while removing.");
    assert!(!arch.file_exists(&kmso, &snd_type, init_time));

    assert_eq!(arch.count(), 6);
    assert_eq!(arch.blob("2017-04-01T0000Z_GFS_KMSO.gz"), None);
    assert_eq!(arch.check(), (vec![], vec![]));
    assert!(matches!(
        arch.remove(&kmso, &snd_type, init_time),
        Err(BufkitDataErr::NotFound)
    ));
}

#[test]
fn test_add_file_replaces_the_file_of_the_same_key() {
    let mut arch = Archive::create();
    let kmso = arch.validate_or_add_site(Site::new("kmso")).unwrap();
    let gfs = arch
        .validate_or_add_sounding_type(SoundingType::new("GFS", false, FileType::BUFKIT, 6))
        .unwrap();
    let here = arch
        .validate_or_add_location(Location::new(46_920_000, -114_080_000, 972, None))
        .unwrap();
    let there = arch
        .validate_or_add_location(Location::new(46_870_000, -114_160_000, 1335, None))
        .unwrap();
    let time = seconds(2017, 4, 1, 0);

    arch.add_file(&kmso, &gfs, &here, time, b"first").unwrap();
    arch.add_file(&kmso, &gfs, &there, time, b"second").unwrap();

    assert_eq!(arch.count(), 1);
    assert_eq!(arch.export(&kmso, &gfs, time).unwrap(), b"second");
    assert_eq!(arch.locations_for_site_and_type(&kmso, &gfs), vec![there]);
    assert_eq!(arch.check(), (vec![], vec![]));
}

#[test]
fn test_add_file_replaces_the_file_of_the_same_name() {
    let mut arch = Archive::create();
    let kmso = arch.validate_or_add_site(Site::new("kmso")).unwrap();
    let gfs = arch
        .validate_or_add_sounding_type(SoundingType::new("GFS", false, FileType::BUFKIT, 6))
        .unwrap();
    let here = arch
        .validate_or_add_location(Location::new(46_920_000, -114_080_000, 972, None))
        .unwrap();
    // Two times in the same minute give the same name.
    let time = seconds(2017, 4, 1, 0);

    arch.add_file(&kmso, &gfs, &here, time, b"first").unwrap();
    arch.add_file(&kmso, &gfs, &here, time + 30, b"second").unwrap();

    assert_eq!(arch.count(), 1);
    assert!(!arch.file_exists(&kmso, &gfs, time));
    assert!(arch.file_exists(&kmso, &gfs, time + 30));
    assert_eq!(arch.export(&kmso, &gfs, time + 30).unwrap(), b"second");
    assert_eq!(arch.check(), (vec![], vec![]));
}

#[test]
fn test_add_file_refuses_records_of_another_archive() {
    let mut other = Archive::create();
    let _ = other.validate_or_add_site(Site::new("kord")).unwrap();
    let foreign_site = other.validate_or_add_site(Site::new("ksea")).unwrap();
    let _ = other
        .validate_or_add_sounding_type(SoundingType::new("NAM", false, FileType::BUFKIT, 6))
        .unwrap();
    let foreign_type = other
        .validate_or_add_sounding_type(SoundingType::new("SREF", false, FileType::BUFKIT, 6))
        .unwrap();
    let _ = other
        .validate_or_add_location(Location::new(1, 1, 1, None))
        .unwrap();
    let foreign_location = other
        .validate_or_add_location(Location::new(2, 2, 2, None))
        .unwrap();

    let mut arch = Archive::create();
    let kmso = arch.validate_or_add_site(Site::new("kmso")).unwrap();
    let gfs = arch
        .validate_or_add_sounding_type(SoundingType::new("GFS", false, FileType::BUFKIT, 6))
        .unwrap();
    let here = arch
        .validate_or_add_location(Location::new(46_920_000, -114_080_000, 972, None))
        .unwrap();
    let time = seconds(2017, 4, 1, 0);

    match arch.add_file(&foreign_site, &gfs, &here, time, b"bytes") {
        Err(BufkitDataErr::InvalidSite(site)) => assert_eq!(site, foreign_site),
        other => panic!("unexpected: {:?}", other),
    }
    match arch.add_file(&kmso, &foreign_type, &here, time, b"bytes") {
        Err(BufkitDataErr::InvalidSoundingType(st)) => assert_eq!(st, foreign_type),
        other => panic!("unexpected: {:?}", other),
    }
    match arch.add_file(&kmso, &gfs, &foreign_location, time, b"bytes") {
        Err(BufkitDataErr::InvalidLocation(location)) => assert_eq!(location, foreign_location),
        other => panic!("unexpected: {:?}", other),
    }
    assert_eq!(arch.count(), 0);
    assert_eq!(arch.check(), (vec![], vec![]));
}

#[test]
fn test_add_file_refuses_a_time_without_a_date() {
    let mut arch = Archive::create();
    let kmso = arch.validate_or_add_site(Site::new("kmso")).unwrap();
    let gfs = arch
        .validate_or_add_sounding_type(SoundingType::new("GFS", false, FileType::BUFKIT, 6))
        .unwrap();
    let here = arch
        .validate_or_add_location(Location::new(46_920_000, -114_080_000, 972, None))
        .unwrap();

    assert!(matches!(
        arch.add_file(&kmso, &gfs, &here, i64::MAX, b"bytes"),
        Err(BufkitDataErr::InvalidInitTime(i64::MAX))
    ));
    assert_eq!(Archive::compressed_file_name(&kmso, &gfs, i64::MAX), None);
    assert_eq!(arch.count(), 0);
}

#[test]
fn test_add_compressed_takes_the_blob_as_it_is() {
    let mut arch = Archive::create();
    let kmso = arch.validate_or_add_site(Site::new("kmso")).unwrap();
    let gfs = arch
        .validate_or_add_sounding_type(SoundingType::new("GFS", false, FileType::BUFKIT, 6))
        .unwrap();
    let here = arch
        .validate_or_add_location(Location::new(46_920_000, -114_080_000, 972, None))
        .unwrap();
    let time = seconds(2017, 4, 1, 0);

    arch.add_file(&kmso, &gfs, &here, time, b"payload").unwrap();
    let packed = arch.blob("2017-04-01T0000Z_GFS_KMSO.gz").unwrap().to_vec();
    assert_ne!(packed, b"payload");

    let mut copy = Archive::create();
    let kmso = copy.validate_or_add_site(Site::new("kmso")).unwrap();
    let gfs = copy
        .validate_or_add_sounding_type(SoundingType::new("GFS", false, FileType::BUFKIT, 6))
        .unwrap();
    let here = copy
        .validate_or_add_location(Location::new(46_920_000, -114_080_000, 972, None))
        .unwrap();
    copy.add_compressed(&kmso, &gfs, &here, time, packed.clone())
        .unwrap();
    assert_eq!(copy.blob("2017-04-01T0000Z_GFS_KMSO.gz"), Some(&packed[..]));
    assert_eq!(copy.export(&kmso, &gfs, time).unwrap(), b"payload");
}

#[test]
fn test_compressed_file_name() {
    let kmso = Site::new("kmso");
    let gfs = SoundingType::new("gfs", false, FileType::BUFKIT, 6);
    assert_eq!(
        Archive::compressed_file_name(&kmso, &gfs, seconds(2017, 4, 1, 18)),
        Some("2017-04-01T1800Z_GFS_KMSO.gz".to_owned())
    );
    // One second before 1970.
    assert_eq!(
        Archive::compressed_file_name(&kmso, &gfs, -1),
        Some("1969-12-31T2359Z_GFS_KMSO.gz".to_owned())
    );
    assert_eq!(
        file_name_from_token("token", "SOURCE", "site"),
        "token_SOURCE_site.gz"
    );
    assert_eq!(file_name_from_token("", "", ""), "__.gz");
}

#[test]
fn test_file_names_differ_where_the_keys_do() {
    // The `_` that joins the parts of a name is escaped inside the parts.
    assert_eq!(file_name_from_token("t", "A_B", "c"), "t_A%5FB_c.gz");
    assert_eq!(file_name_from_token("t", "A", "b_c"), "t_A_b%5Fc.gz");
    assert_eq!(file_name_from_token("t", "A%5FB", "c"), "t_A%255FB_c.gz");
    assert_eq!(escape("GFS"), "GFS");
    assert_eq!(escape(""), "");
    assert_eq!(escape("_%_"), "%5F%25%5F");
    assert_eq!(escape("Gr\u{fc}\u{df}_e"), "Gr\u{fc}\u{df}%5Fe");

    let mut arch = Archive::create();
    let c = arch.validate_or_add_site(Site::new("c")).unwrap();
    let b_c = arch.validate_or_add_site(Site::new("b_c")).unwrap();
    let a_b = arch
        .validate_or_add_sounding_type(SoundingType::new("A_B", false, FileType::BUFKIT, 6))
        .unwrap();
    let a = arch
        .validate_or_add_sounding_type(SoundingType::new("A", false, FileType::BUFKIT, 6))
        .unwrap();
    let here = arch
        .validate_or_add_location(Location::new(46_920_000, -114_080_000, 972, None))
        .unwrap();
    let time = seconds(2017, 4, 1, 0);
    assert_ne!(
        Archive::compressed_file_name(&c, &a_b, time),
        Archive::compressed_file_name(&b_c, &a, time)
    );

    arch.add_file(&c, &a_b, &here, time, b"first").unwrap();
    arch.add_file(&b_c, &a, &here, time, b"second").unwrap();
    assert_eq!(arch.count(), 2);
    assert_eq!(arch.export(&c, &a_b, time).unwrap(), b"first");
    assert_eq!(arch.export(&b_c, &a, time).unwrap(), b"second");
    assert_eq!(arch.check(), (vec![], vec![]));
}

#[test]
fn test_add_file_into_a_new_archive() {
    let mut arch = Archive::create();
    let kmso = arch.validate_or_add_site(Site::new("kmso")).unwrap();
    let gfs = arch
        .validate_or_add_sounding_type(SoundingType::new("GFS", false, FileType::BUFKIT, 6))
        .unwrap();
    let here = arch
        .validate_or_add_location(Location::new(46_920_000, -114_080_000, 972, None))
        .unwrap();
    let time = seconds(2017, 4, 1, 0);
    let count = arch.count();

    // A source that is no gzip stream itself is taken like any other.
    assert!(arch.add_file(&kmso, &gfs, &here, time, b"plain words").is_ok());

    assert_eq!(arch.count(), count + 1);
    assert!(arch.file_exists(&kmso, &gfs, time));
    assert_eq!(arch.check(), (vec![], vec![]));
    assert_eq!(
        arch.get_file_name_for(&kmso, &gfs, time).unwrap(),
        Archive::compressed_file_name(&kmso, &gfs, time).unwrap()
    );
    assert!(arch.blob("2017-04-01T0000Z_GFS_KMSO.gz").is_some());
    assert_eq!(arch.locations_for_site_and_type(&kmso, &gfs), vec![here]);
    assert_eq!(arch.export(&kmso, &gfs, time).unwrap(), b"plain words");
}

#[test]
fn test_site_info_in_any_case() {
    let mut arch = Archive::create();
    let added = arch.validate_or_add_site(Site::new("kmso")).unwrap();
    assert_eq!(added.short_name(), "KMSO");
    assert_eq!(arch.site_info("kmso"), Some(added.clone()));
    assert_eq!(arch.site_info("KMSO"), Some(added.clone()));
    assert_eq!(arch.site_info("Kmso"), Some(added.clone()));
    assert_eq!(arch.site_info("kmsp"), None);
    assert_eq!(arch.validate_or_add_site(Site::new("kMsO")).unwrap(), added);
    assert_eq!(arch.validate_site(Site::new("Kmso")).unwrap(), added);
    assert_eq!(arch.sites().len(), 1);
}

#[test]
fn test_decode_data() {
    let text = bufkit_text(6, "46.92", "-114.08", "972.0");
    assert_eq!(decode_data(text.as_bytes(), FileType::BUFKIT).unwrap(), text);
    assert_eq!(decode_data(b"", FileType::BUFKIT).unwrap(), "");
    assert_eq!(
        decode_data("Gr\u{fc}\u{df}e".as_bytes(), FileType::BUFKIT).unwrap(),
        "Gr\u{fc}\u{df}e"
    );

    assert!(matches!(
        decode_data(text.as_bytes(), FileType::BUFR),
        Err(BufkitDataErr::UnknownFileType)
    ));
    assert!(matches!(
        decode_data(&[0x42, 0xff, 0xfe], FileType::BUFKIT),
        Err(BufkitDataErr::Utf8(_))
    ));
}

#[test]
fn test_retrieve_gives_the_text_and_its_description() {
    let mut arch = Archive::create();
    let kmso = arch.validate_or_add_site(Site::new("kmso")).unwrap();
    let gfs = arch
        .validate_or_add_sounding_type(SoundingType::new("GFS", false, FileType::BUFKIT, 6))
        .unwrap();
    let here = arch
        .validate_or_add_location(Location::new(46_920_000, -114_080_000, 972, None))
        .unwrap();
    let time = seconds(2017, 4, 1, 6);
    let text = bufkit_text(6, "46.92", "-114.08", "972.0");
    arch.add_file(&kmso, &gfs, &here, time, text.as_bytes())
        .unwrap();

    let stored = arch.retrieve(&kmso, &gfs, time).unwrap();
    assert_eq!(stored.description, "2017-04-01T0600Z_GFS_KMSO.gz");
    assert_eq!(stored.text, text);
    let soundings = decode(&stored);
    assert_eq!(soundings.len(), 1);
    assert_eq!(
        soundings[0].source_description(),
        Some("2017-04-01T0600Z_GFS_KMSO.gz")
    );

    // A text that no decoder would take comes back all the same.
    arch.add_file(&kmso, &gfs, &here, time, b"TIME = 1").unwrap();
    assert_eq!(arch.retrieve(&kmso, &gfs, time).unwrap().text, "TIME = 1");
}

#[test]
fn test_retrieve_a_file_of_an_encoding_without_decoder() {
    let mut arch = Archive::create();
    let kmso = arch.validate_or_add_site(Site::new("kmso")).unwrap();
    let raob = arch
        .validate_or_add_sounding_type(SoundingType::new("RAOB", true, FileType::BUFR, 12))
        .unwrap();
    let here = arch
        .validate_or_add_location(Location::new(46_920_000, -114_080_000, 972, None))
        .unwrap();
    let time = seconds(2017, 4, 1, 12);
    arch.add_file(&kmso, &raob, &here, time, &[0x42, 0x55, 0x46, 0x52])
        .unwrap();

    assert!(matches!(
        arch.retrieve(&kmso, &raob, time),
        Err(BufkitDataErr::UnknownFileType)
    ));
    assert_eq!(
        arch.export(&kmso, &raob, time).unwrap(),
        vec![0x42, 0x55, 0x46, 0x52]
    );
}

#[test]
fn test_retrieve_a_file_that_is_no_text() {
    let mut arch = Archive::create();
    let kmso = arch.validate_or_add_site(Site::new("kmso")).unwrap();
    let gfs = arch
        .validate_or_add_sounding_type(SoundingType::new("GFS", false, FileType::BUFKIT, 6))
        .unwrap();
    let here = arch
        .validate_or_add_location(Location::new(46_920_000, -114_080_000, 972, None))
        .unwrap();
    let time = seconds(2017, 4, 1, 12);
    arch.add_file(&kmso, &gfs, &here, time, &[0xff, 0xfe]).unwrap();
    assert!(matches!(
        arch.retrieve(&kmso, &gfs, time),
        Err(BufkitDataErr::Utf8(_))
    ));
    arch.add_file(&kmso, &gfs, &here, time, b"words").unwrap();
    assert_eq!(arch.retrieve(&kmso, &gfs, time).unwrap().text, "words");
}

#[test]
fn test_export_of_an_empty_file() {
    let mut arch = Archive::create();
    let kmso = arch.validate_or_add_site(Site::new("kmso")).unwrap();
    let gfs = arch
        .validate_or_add_sounding_type(SoundingType::new("GFS", false, FileType::BUFKIT, 6))
        .unwrap();
    let here = arch
        .validate_or_add_location(Location::new(46_920_000, -114_080_000, 972, None))
        .unwrap();
    arch.add_file(&kmso, &gfs, &here, 0, &[]).unwrap();
    assert_eq!(arch.export(&kmso, &gfs, 0).unwrap(), Vec::<u8>::new());
    assert!(arch.blob("1970-01-01T0000Z_GFS_KMSO.gz").is_some());
}

// ---------------------------------------------------------------------------------------------
// Reading a stored index back
// ---------------------------------------------------------------------------------------------
#[test]
fn test_restore_an_archive_row_by_row() {
    let mut arch = Archive::create();
    fill_test_archive(&mut arch).expect("Error filling test archive.");
    let kmso = arch.site_info("kmso").unwrap();
    let gfs = arch.sounding_type_info("GFS").unwrap();
    let nam = arch.sounding_type_info("NAM").unwrap();

    let mut copy = Archive::create();
    for site in arch.sites() {
        copy.restore_site(site).unwrap();
    }
    for sounding_type in arch.sounding_types() {
        copy.restore_sounding_type(sounding_type).unwrap();
    }
    for location in arch.all_locations() {
        copy.restore_location(location).unwrap();
    }
    for (sounding_type, location_id) in [(&gfs, 1), (&nam, 2)] {
        for init_time in arch.init_times(&kmso, sounding_type) {
            let name = Archive::compressed_file_name(&kmso, sounding_type, init_time).unwrap();
            copy.restore_file(sounding_type.id(), kmso.id(), location_id, init_time, name)
                .unwrap();
        }
    }
    assert_eq!(copy.count(), 7);
    assert_eq!(copy.check().0.len(), 7);
    for name in arch.blob_names() {
        copy.put_blob(&name, arch.blob(&name).unwrap().to_vec());
    }

    assert_eq!(copy.check(), (vec![], vec![]));
    assert_eq!(copy.sites(), arch.sites());
    assert_eq!(copy.sounding_types(), arch.sounding_types());
    assert_eq!(copy.all_locations(), arch.all_locations());
    assert_eq!(copy.blob_names(), arch.blob_names());
    assert_eq!(
        copy.export(&kmso, &nam, seconds(2017, 4, 1, 12)).unwrap(),
        arch.export(&kmso, &nam, seconds(2017, 4, 1, 12)).unwrap()
    );
    assert_eq!(
        copy.inventory(&kmso).missing(&nam),
        arch.inventory(&kmso).missing(&nam)
    );
}

#[test]
fn test_restore_rows_that_do_not_fit() {
    let mut arch = Archive::create();
    let kmso = Site::parse_row_to_site(1, "kmso".to_owned(), None, None, None, false);
    arch.restore_site(kmso.clone()).unwrap();
    // The same short name under the next identifier.
    let twice = Site::parse_row_to_site(2, "kmso".to_owned(), None, None, None, true);
    match arch.restore_site(twice.clone()) {
        Err(BufkitDataErr::InvalidSite(site)) => assert_eq!(site, twice),
        other => panic!("unexpected: {:?}", other),
    }
    // An identifier that is not the next one.
    let late = Site::parse_row_to_site(3, "kord".to_owned(), None, None, None, false);
    assert!(arch.restore_site(late).is_err());
    assert!(arch.restore_site(Site::new("kord")).is_err());
    assert_eq!(arch.sites(), vec![kmso.clone()]);

    let gfs = SoundingType::parse_row_to_sounding_type(1, "GFS".to_owned(), "BUFKIT", Some(6), false)
        .unwrap();
    arch.restore_sounding_type(gfs.clone()).unwrap();
    match arch.restore_sounding_type(gfs.clone()) {
        Err(BufkitDataErr::InvalidSoundingType(st)) => assert_eq!(st, gfs),
        other => panic!("unexpected: {:?}", other),
    }

    let here = Location::parse_row_to_location(1, 46_920_000, -114_080_000, 972, None).unwrap();
    arch.restore_location(here).unwrap();
    let same_place =
        Location::parse_row_to_location(2, 46_920_000, -114_080_000, 972, Some(0)).unwrap();
    match arch.restore_location(same_place) {
        Err(BufkitDataErr::InvalidLocation(location)) => assert_eq!(location, same_place),
        other => panic!("unexpected: {:?}", other),
    }

    let time = seconds(2017, 4, 1, 0);
    let name = "2017-04-01T0000Z_GFS_KMSO.gz";
    for (type_id, site_id, location_id, init_time, file_name) in [
        (2, 1, 1, time, name),
        (1, 0, 1, time, name),
        (1, 1, 2, time, name),
        (1, 1, 1, time, "2017-04-01T0000Z_GFS_KORD.gz"),
        (1, 1, 1, i64::MAX, name),
    ] {
        match arch.restore_file(type_id, site_id, location_id, init_time, file_name.to_owned()) {
            Err(BufkitDataErr::InvalidFile(refused)) => assert_eq!(refused, file_name),
            other => panic!("unexpected: {:?}", other),
        }
    }
    arch.restore_file(1, 1, 1, time, name.to_owned()).unwrap();
    // A second row for the same file, and one for the same blob.
    assert!(arch.restore_file(1, 1, 1, time, name.to_owned()).is_err());
    assert!(arch.restore_file(1, 1, 1, time + 1, name.to_owned()).is_err());
    assert_eq!(arch.count(), 1);
    assert!(arch.file_exists(&kmso, &gfs, time));
    assert_eq!(arch.check(), (vec![name.to_owned()], vec![]));
}
