use mangapress::profile::{profiles, Family, Palette, Profile};

#[test]
fn looks_up_known_profile() {
    let p = Profile::by_code("KV").expect("KV must exist");
    assert_eq!(p.width, 1072);
    assert_eq!(p.height, 1448);
    assert_eq!(p.family(), Family::Kindle);
}

#[test]
fn classifies_families_by_code_prefix() {
    assert_eq!(Profile::by_code("KoAO").unwrap().family(), Family::Kobo);
    assert_eq!(Profile::by_code("Rmk1").unwrap().family(), Family::Remarkable);
    assert_eq!(Profile::by_code("OTHER").unwrap().family(), Family::Other);
}

#[test]
fn unknown_code_is_none() {
    assert!(Profile::by_code("NOPE").is_none());
}

#[test]
fn closest_code_suggests_a_near_miss() {
    assert_eq!(Profile::closest_code("Kv"), Some("KV"));
    assert_eq!(Profile::closest_code("KPW55"), Some("KPW5"));
}

#[test]
fn closest_code_gives_up_on_wildly_different_input() {
    assert_eq!(Profile::closest_code("this-is-not-a-profile-code"), None);
}

#[test]
fn custom_resolution_overrides_one_or_both_dimensions() {
    let p = Profile::by_code("KV").unwrap();
    assert_eq!(p.effective_resolution(None, None), (1072, 1448));
    assert_eq!(p.effective_resolution(Some(1200), None), (1200, 1448));
    assert_eq!(p.effective_resolution(None, Some(1600)), (1072, 1600));
    assert_eq!(p.effective_resolution(Some(1200), Some(1600)), (1200, 1600));
}

#[test]
fn gray15_has_a_real_gap_not_naive_even_spacing() {
    let values = Palette::Gray15.level_values();
    assert_eq!(values.len(), 15);
    assert!(values.contains(&0xdd));
    assert!(!values.contains(&0xee));
    assert!(values.contains(&0xff));
}

#[test]
fn every_profile_code_is_unique() {
    let mut codes: Vec<&str> = profiles().iter().map(|p| p.code).collect();
    codes.sort_unstable();
    let mut deduped = codes.clone();
    deduped.dedup();
    assert_eq!(codes.len(), deduped.len(), "duplicate profile code found");
}

#[test]
fn palette_levels_count_their_values() {
    assert_eq!(Palette::Gray4.levels(), 4);
    assert_eq!(Palette::Gray15.levels(), 15);
    assert_eq!(Palette::Gray16.levels(), 16);
    assert_eq!(Palette::Gray4.level_values(), &[0x00, 0x55, 0xaa, 0xff]);
}

#[test]
fn profile_table_has_every_device_in_order() {
    let t = profiles();
    assert_eq!(t.len(), 41);
    assert_eq!(t[0].code, "K1");
    assert_eq!(t[40].code, "OTHER");
    assert_eq!((t[40].width, t[40].height), (0, 0));
    assert!(t.iter().all(|p| p.gamma_milli == 1000));
}

#[test]
fn closest_code_is_case_insensitive_and_prefers_the_first_tie() {
    assert_eq!(Profile::closest_code("kv"), Some("KV"));
    assert_eq!(Profile::closest_code("koao"), Some("KoAO"));
    // "K" is one edit from K1, K2, KV, KO and KS; the first listed wins.
    assert_eq!(Profile::closest_code("K"), Some("K1"));
}
