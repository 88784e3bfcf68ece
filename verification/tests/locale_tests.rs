use intl_locale::locale::Locale;
use intl_locale::parse::{parse_tag, TagError};
use intl_locale::registry::CurrentLocaleCell;

#[test]
fn current_locale() {
    let mut cell = CurrentLocaleCell::from_lookup(None);
    println!("{:?}", cell.get_snapshot());

    cell.replace(Locale::new("de-u-co-phonebk-ka-shifted").unwrap());
    println!("{:?}", cell.get_live_handle().get_snapshot());

    cell.replace(Locale::new("und-Latn-t-und-cyrl").unwrap());
    println!("{:?}", cell.get_live_handle().get_snapshot());

    cell.replace(Locale::new("de-Latn-u-co-phonebk-ka-shifted-t-und-cyrl").unwrap());
    println!("{:?}", cell.get_live_handle().get_snapshot());
}

#[test]
fn round_trip_base_identity() {
    let first = Locale::new("DE-latn-de-1996-rozaj").unwrap();
    let base = first.base_name().unwrap();
    assert_eq!(base, "de-Latn-DE-1996-rozaj");
    let second = Locale::new(&base).unwrap();
    assert!(first == second);
    assert_eq!(second.base_name().unwrap(), "de-Latn-DE-1996-rozaj");
}

#[test]
fn reparse_is_idempotent() {
    let first = Locale::new("de-Latn-u-co-phonebk-x-priv").unwrap();
    let base = first.base_name().unwrap();
    assert_eq!(base, "de-Latn");
    let once = Locale::new(&base).unwrap();
    let twice = Locale::new(&once.base_name().unwrap()).unwrap();
    assert!(once == twice);
    assert_eq!(once.base_name().unwrap(), base);
}

#[test]
fn case_normalization() {
    let locale = Locale::new("DE-LATN-de").unwrap();
    assert_eq!(locale.language().unwrap(), "de");
    assert_eq!(locale.script().unwrap(), "Latn");
    assert_eq!(locale.region().unwrap(), "DE");
}

#[test]
fn extension_keyword_extraction() {
    let locale = Locale::new("de-u-co-phonebk-ka-shifted").unwrap();
    assert_eq!(locale.collation(), Some("phonebk".to_string()));
    assert_eq!(locale.keyword("ka"), Some("shifted".to_string()));
    assert_eq!(locale.calendar(), None);
}

#[test]
fn extension_blocks_are_independent() {
    let tag = parse_tag("de-Latn-u-co-phonebk-ka-shifted-t-und-cyrl").unwrap();
    let locale = Locale::new("de-Latn-u-co-phonebk-ka-shifted-t-und-cyrl").unwrap();
    assert_eq!(locale.collation(), Some("phonebk".to_string()));
    assert_eq!(tag.extensions.len(), 2);
    assert_eq!(tag.extensions[0].singleton, 'u');
    assert_eq!(tag.extensions[1].singleton, 't');
    assert_eq!(tag.extensions[1].subtags, vec!["und".to_string(), "cyrl".to_string()]);
}

#[test]
fn duplicate_variant_is_rejected() {
    assert_eq!(Locale::new("en-1996-1996").unwrap_err(), TagError::Malformed);
    assert_eq!(Locale::new("de-rozaj-Rozaj").unwrap_err(), TagError::Malformed);
}

#[test]
fn repeated_singleton_is_rejected() {
    assert_eq!(Locale::new("de-u-co-phonebk-u-ka-shifted").unwrap_err(), TagError::Malformed);
}

#[test]
fn fallback_to_undetermined() {
    let failed = CurrentLocaleCell::from_lookup(None);
    assert!(failed.get_snapshot().language().is_none());

    let unparsable = CurrentLocaleCell::from_lookup(Some("not a tag!!".to_string()));
    let snapshot = unparsable.get_snapshot();
    assert!(snapshot.language().is_none());
    assert!(snapshot.base_name().is_none());
}

#[test]
fn live_handle_sees_replacement() {
    let mut cell = CurrentLocaleCell::from_lookup(Some("en-US".to_string()));
    assert_eq!(cell.get_live_handle().get_snapshot().language().unwrap(), "en");
    cell.replace(Locale::new("fr-CA").unwrap());
    let through_handle = cell.get_live_handle().get_snapshot();
    assert_eq!(through_handle.language().unwrap(), "fr");
    assert_eq!(through_handle.region().unwrap(), "CA");
}

#[test]
fn snapshot_is_decoupled() {
    let mut cell = CurrentLocaleCell::from_lookup(Some("en-US".to_string()));
    let snapshot = cell.get_snapshot();
    cell.replace(Locale::new("fr-CA").unwrap());
    assert_eq!(snapshot.language().unwrap(), "en");
    assert_eq!(cell.get_snapshot().language().unwrap(), "fr");
}

#[test]
fn malformed_tags_are_rejected() {
    assert!(Locale::new("").is_err());
    assert!(Locale::new("x").is_err());
    assert!(Locale::new("de-u").is_err());
    assert!(Locale::new("de-").is_err());
    assert!(Locale::new("toolongsubtag").is_err());
    assert!(Locale::new("de-!!").is_err());
}

#[test]
fn private_use_only_tag() {
    let locale = Locale::new("x-whatever-1").unwrap();
    assert!(locale.language().is_none());
    assert!(locale.base_name().is_none());
    let tag = parse_tag("x-whatever-1").unwrap();
    assert_eq!(tag.private_use, Some(vec!["whatever".to_string(), "1".to_string()]));
}

#[test]
fn undetermined_tag_has_no_language() {
    let locale = Locale::new("und").unwrap();
    assert!(locale.language().is_none());
    assert!(locale.base_name().is_none());
    assert!(locale == Locale::undetermined());
    assert!(Locale::new("UND").unwrap() == Locale::undetermined());
}

#[test]
fn numeric_region_and_bare_keyword() {
    let locale = Locale::new("es-419-u-kn").unwrap();
    assert_eq!(locale.region().unwrap(), "419");
    assert_eq!(locale.numeric(), Some(String::new()));
    assert_eq!(locale.numbering_system(), None);
}

#[test]
fn extension_is_case_normalized() {
    let locale = Locale::new("DE-U-CO-PHONEBK-HC-H23").unwrap();
    assert_eq!(locale.collation(), Some("phonebk".to_string()));
    assert_eq!(locale.hour_cycle(), Some("h23".to_string()));
    assert_eq!(locale.case_first(), None);
}

#[test]
fn keyword_value_runs_are_maximal() {
    let locale = Locale::new("en-u-ca-islamic-umalqura-nu-arab").unwrap();
    assert_eq!(locale.calendar(), Some("islamic-umalqura".to_string()));
    assert_eq!(locale.numbering_system(), Some("arab".to_string()));
}

#[test]
fn extension_must_carry_a_subtag() {
    assert!(Locale::new("de-u-co-a").is_err());
    let tag = parse_tag("de-a-bc-u-co-phonebk").unwrap();
    assert_eq!(tag.extensions[0].singleton, 'a');
    assert_eq!(tag.extensions[0].subtags, vec!["bc".to_string()]);
    assert_eq!(tag.extensions[1].singleton, 'u');
}

#[test]
fn variant_order_is_preserved() {
    let a = Locale::new("sl-rozaj-biske").unwrap();
    assert_eq!(a.base_name().unwrap(), "sl-rozaj-biske");
    let b = Locale::new("sl-biske-rozaj").unwrap();
    assert_eq!(b.base_name().unwrap(), "sl-biske-rozaj");
    assert!(a != b);
}

#[test]
fn equality_is_structural_after_normalization() {
    let upper = Locale::new("EN-us").unwrap();
    let lower = Locale::new("en-US").unwrap();
    assert!(upper == lower);
    let other = Locale::new("en-GB").unwrap();
    assert!(upper != other);
}
