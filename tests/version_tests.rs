use nextver::{
    Cal, CalSem, CalSemSpecifier, CalendarDate, Date, Format, FormatErrorKind, Sem,
    SemanticLevel, Version, VersionBumpError, VersionToken,
};
use std::cmp::Ordering;

fn date(year: i32, month: u32, day: u32) -> Date {
    Date::Explicit { year, month, day }
}

fn values<S: nextver::Scheme>(v: &Version<S>) -> Vec<u32> {
    v.tokens()
        .iter()
        .filter_map(|t| match t {
            VersionToken::Value { value, .. } => Some(*value),
            VersionToken::Fixed(_) => None,
        })
        .collect()
}

#[test]
fn increment_minor_scenario() {
    let version = Version::<Sem>::from_parsed_format("[MAJOR].[MINOR].[PATCH]", "1.2.3").unwrap();
    let incremented = version.increment(&SemanticLevel::Minor).unwrap();
    assert_eq!("1.3.0", incremented.to_string());
    assert!(version < incremented);
}

#[test]
fn year_patch_scenario() {
    let version = Version::<CalSem>::from_parsed_format("[YYYY].[PATCH]", "2023.123").unwrap();
    let same_year = version
        .update_or_increment(&date(2023, 6, 1), &CalSemSpecifier::Patch)
        .unwrap();
    assert_eq!("2023.124", same_year.to_string());
    assert!(version < same_year);
    let new_year = version
        .update_or_increment(&date(2024, 2, 3), &CalSemSpecifier::Patch)
        .unwrap();
    assert_eq!("2024.123", new_year.to_string());
    assert!(version < new_year);
}

#[test]
fn update_full_date_scenario() {
    let format = Format::<Cal>::parse("[YYYY].[0M].[0D]").unwrap();
    let version = Version::parse("2023.12.04", &format).unwrap();
    let updated = version.update(&date(2024, 1, 2)).unwrap();
    assert_eq!("2024.01.02", updated.to_string());
    assert!(version < updated);
}

#[test]
fn update_without_change_fails() {
    let cases = [("[YYYY]", "2002"), ("[YYYY].[MM].[DD]", "2002.2.2"), ("all literal", "all literal")];
    for (format, version) in cases {
        let version = Version::<Cal>::from_parsed_format(format, version).unwrap();
        assert_eq!(Err(VersionBumpError::NoCalendarChange), version.update(&date(2002, 2, 2)));
    }
}

#[test]
fn short_year_before_2000_is_negative() {
    for format in ["[YY]", "[0Y]"] {
        let version = Version::<Cal>::from_parsed_format(format, "98").unwrap();
        assert_eq!(
            Err(VersionBumpError::NegativeYearValue { year: 1998 }),
            version.update(&date(1998, 1, 1))
        );
        assert_eq!(
            Err(VersionBumpError::NegativeYearValue { year: 1997 }),
            version.update(&date(1997, 5, 1))
        );
    }
}

#[test]
fn full_year_before_0_is_negative() {
    let version = Version::<Cal>::from_parsed_format("[YYYY]", "1997").unwrap();
    assert_eq!(
        Err(VersionBumpError::NegativeYearValue { year: -1 }),
        version.update(&date(-1, 1, 1))
    );
    assert_eq!("0", version.update(&date(0, 1, 1)).unwrap().to_string());
}

#[test]
fn greedy_adjacent_specifiers() {
    let version = Version::<Cal>::from_parsed_format("[YYYY][MM]", "202411").unwrap();
    assert_eq!(vec![20241, 1], values(&version));
    let version = Version::<Sem>::from_parsed_format("[MAJOR][MINOR]", "123").unwrap();
    assert_eq!(vec![12, 3], values(&version));
}

#[test]
fn greedy_backs_off_for_digit_literal() {
    let version = Version::<Sem>::from_parsed_format("[MAJOR]1[MINOR]", "1213").unwrap();
    assert_eq!(vec![12, 3], values(&version));
}

#[test]
fn parse_ok_round_trips() {
    let sem: [(&str, Vec<&str>); 5] = [
        ("[MAJOR]", vec!["1", "2", "10"]),
        ("[MINOR]", vec!["1", "2", "10"]),
        ("[PATCH]", vec!["1", "2", "10"]),
        (r"\[MAJOR]", vec!["[MAJOR]"]),
        (
            "The quick brown fox jumps over the lazy dog",
            vec!["The quick brown fox jumps over the lazy dog"],
        ),
    ];
    for (format_str, version_strs) in sem {
        let format = Format::<Sem>::parse(format_str).unwrap();
        for version_str in version_strs {
            let version = Version::parse(version_str, &format).unwrap();
            assert_eq!(version_str, version.to_string());
            assert_eq!(format_str, version.format().to_string());
        }
    }
    let cal: [(&str, Vec<&str>); 9] = [
        ("[YYYY]", vec!["2001", "2002", "2010", "100000"]),
        ("[YY]", vec!["1", "2", "10"]),
        ("[0Y]", vec!["01", "02", "10"]),
        ("[MM]", vec!["1", "2", "10"]),
        ("[0M]", vec!["01", "02", "10"]),
        ("[WW]", vec!["1", "2", "10"]),
        ("[0W]", vec!["01", "02", "10"]),
        ("[DD]", vec!["1", "2", "10"]),
        ("[0D]", vec!["01", "02", "10"]),
    ];
    for (format_str, version_strs) in cal {
        let format = Format::<Cal>::parse(format_str).unwrap();
        for version_str in version_strs {
            let version = Version::parse(version_str, &format).unwrap();
            assert_eq!(version_str, version.to_string());
            assert_eq!(format_str, version.format().to_string());
        }
    }
}

#[test]
fn non_canonical_numbers_render_canonically() {
    let version = Version::<Sem>::from_parsed_format("[MAJOR]", "007").unwrap();
    assert_eq!("7", version.to_string());
    let version = Version::<Cal>::from_parsed_format("[0M]", "1").unwrap();
    assert_eq!("01", version.to_string());
}

#[test]
fn increment_each_level() {
    let cases = [
        (SemanticLevel::Major, "2.0.0"),
        (SemanticLevel::Minor, "1.3.0"),
        (SemanticLevel::Patch, "1.2.4"),
    ];
    for (level, expected) in cases {
        let version = Version::<Sem>::from_parsed_format("[MAJOR].[MINOR].[PATCH]", "1.2.3").unwrap();
        let next = version.increment(&level).unwrap();
        assert_eq!(expected, next.to_string());
        assert_eq!(Some(Ordering::Greater), next.partial_cmp(&version));
    }
}

#[test]
fn increment_then_increment() {
    let version = Version::<Sem>::from_parsed_format("[MAJOR].[MINOR].[PATCH]", "1.2.3").unwrap();
    let major = version.increment(&SemanticLevel::Major).unwrap();
    assert_eq!("2.0.0", major.to_string());
    let patch = major.increment(&SemanticLevel::Patch).unwrap();
    assert_eq!("2.0.1", patch.to_string());
    assert!(major < patch);
}

#[test]
fn increment_calendar_ok() {
    let version = Version::<Cal>::from_parsed_format("[YYYY].[MM].[DD]", "2001.1.1").unwrap();
    let next = version.update(&date(2002, 2, 2)).unwrap();
    assert_eq!("2002.2.2", next.to_string());
    assert_eq!(Some(Ordering::Greater), next.partial_cmp(&version));
}

#[test]
fn semantic_level_not_found() {
    let cases = [
        ("[MINOR]", SemanticLevel::Major),
        ("[PATCH]", SemanticLevel::Major),
        ("[MAJOR]", SemanticLevel::Minor),
        ("[PATCH]", SemanticLevel::Minor),
        ("[MAJOR]", SemanticLevel::Patch),
        ("[MINOR]", SemanticLevel::Patch),
    ];
    for (format, level) in cases {
        let version = Version::<Sem>::from_parsed_format(format, "1").unwrap();
        assert_eq!(
            Err(VersionBumpError::SemanticSpecifierNotInFormat { spec: level }),
            version.increment(&level)
        );
    }
}

#[test]
fn invalid_explicit_date() {
    let version = Version::<Cal>::from_parsed_format("[YYYY].[MM].[DD]", "2001.1.1").unwrap();
    assert_eq!(
        Err(VersionBumpError::InvalidDateArguments { year: 2001, month: 2, day: 30 }),
        version.update(&date(2001, 2, 30))
    );
    assert!(version.update(&date(2024, 2, 29)).is_ok());
    assert!(matches!(
        version.update(&date(2023, 2, 29)),
        Err(VersionBumpError::InvalidDateArguments { .. })
    ));
    assert!(matches!(
        version.update(&date(2023, 13, 1)),
        Err(VersionBumpError::InvalidDateArguments { .. })
    ));
}

#[test]
fn compare_same_format() {
    let cases = [
        ("[YYYY].[MM].[0D]", "2001.1.01", "2001.1.02", Ordering::Less),
        ("[YYYY].[MM].[0D]", "2001.1.01", "2001.1.01", Ordering::Equal),
        ("[YYYY].[MM].[0D]", "2001.2.01", "2001.1.31", Ordering::Greater),
    ];
    for (format, a, b, expected) in cases {
        let format = Format::<Cal>::parse(format).unwrap();
        let a = Version::parse(a, &format).unwrap();
        let b = Version::parse(b, &format).unwrap();
        assert_eq!(Some(expected), a.partial_cmp(&b));
    }
    let format = Format::<Sem>::parse("[MAJOR].[MINOR].[PATCH]").unwrap();
    let a = Version::parse("1.2.3", &format).unwrap();
    let b = Version::parse("1.2.4", &format).unwrap();
    assert_eq!(Some(Ordering::Less), a.partial_cmp(&b));
    assert_eq!(Some(Ordering::Equal), a.partial_cmp(&Version::parse("1.2.3", &format).unwrap()));
}

#[test]
fn compare_different_formats_is_undefined() {
    let a = Version::<Cal>::from_parsed_format("[0D]", "10").unwrap();
    let b = Version::<Cal>::from_parsed_format("[DD]", "10").unwrap();
    assert!(a.partial_cmp(&b).is_none());
    assert!(a != b);
    assert!(!(a < b) && !(a > b));
    let c = Version::<Sem>::from_parsed_format("[MAJOR].[MINOR]", "1.2").unwrap();
    let d = Version::<Sem>::from_parsed_format("[MAJOR]-[MINOR]", "1-3").unwrap();
    assert!(c.partial_cmp(&d).is_none());
    assert!(c != d);
}

#[test]
fn compare_equal_formats_built_apart() {
    let a = Version::<Cal>::from_parsed_format("[0D]", "10").unwrap();
    let b = Version::<Cal>::from_parsed_format("[0D]", "10").unwrap();
    assert_eq!(Some(Ordering::Equal), a.partial_cmp(&b));
    assert!(a == b);
}

#[test]
fn empty_format() {
    let version = Version::<Sem>::from_parsed_format("", "").unwrap();
    assert_eq!("", version.to_string());
    assert!(Version::<Sem>::from_parsed_format("", "1").is_err());
}

#[test]
fn update_or_increment_falls_back() {
    let version = Version::<CalSem>::from_parsed_format("[YYYY].[PATCH]", "2023.1").unwrap();
    let next = version.update_or_increment(&date(2023, 2, 3), &CalSemSpecifier::Patch).unwrap();
    assert_eq!("2023.2", next.to_string());
}

#[test]
fn update_or_increment_takes_calendar() {
    let version = Version::<CalSem>::from_parsed_format("[YYYY].[PATCH]", "2023.1").unwrap();
    let next = version.update_or_increment(&date(2024, 2, 3), &CalSemSpecifier::Patch).unwrap();
    assert_eq!("2024.1", next.to_string());
}

#[test]
fn update_or_increment_depends_on_token_order() {
    let version = Version::<CalSem>::from_parsed_format("[MINOR].[YYYY]", "4.2023").unwrap();
    let next = version.update_or_increment(&date(2024, 1, 1), &CalSemSpecifier::Minor).unwrap();
    assert_eq!("5.2024", next.to_string());
}

#[test]
fn update_or_increment_missing_level() {
    let version = Version::<CalSem>::from_parsed_format("[YYYY].[PATCH]", "2023.1").unwrap();
    assert_eq!(
        Err(VersionBumpError::SemanticSpecifierNotInFormat { spec: SemanticLevel::Minor }),
        version.update_or_increment(&date(2023, 2, 3), &CalSemSpecifier::Minor)
    );
    let version = Version::<CalSem>::from_parsed_format("[YYYY].[MINOR]", "2023.1.0").err();
    assert!(matches!(version, Some(VersionBumpError::VersionFormatMismatch { .. })));
}

#[test]
fn update_or_increment_resets_lower_level() {
    let version = Version::<CalSem>::from_parsed_format("[YYYY].[PATCH]", "2023.7").unwrap();
    let next = version.update_or_increment(&date(2023, 3, 3), &CalSemSpecifier::Minor);
    assert_eq!(
        Err(VersionBumpError::SemanticSpecifierNotInFormat { spec: SemanticLevel::Minor }),
        next
    );
}

#[test]
fn mismatch_error_names_both_strings() {
    let invalid = Version::<Sem>::from_parsed_format("[MAJOR].[MINOR].[PATCH]", "1.foo.3");
    assert_eq!(
        Err(VersionBumpError::VersionFormatMismatch {
            version_string: "1.foo.3".to_string(),
            format_string: "[MAJOR].[MINOR].[PATCH]".to_string(),
        }),
        invalid
    );
    assert!(Version::<Sem>::from_parsed_format("[MAJOR]", "1.").is_err());
    assert!(Version::<Sem>::from_parsed_format("[MAJOR].", "1").is_err());
    assert!(Version::<Sem>::from_parsed_format("v[MAJOR]-[PATCH]", "v1-2").is_ok());
}

#[test]
fn value_too_large_for_u32() {
    assert!(Version::<Sem>::from_parsed_format("[MAJOR]", "4294967295").is_ok());
    assert!(matches!(
        Version::<Sem>::from_parsed_format("[MAJOR]", "4294967296"),
        Err(VersionBumpError::VersionFormatMismatch { .. })
    ));
}

#[test]
fn increment_overflow() {
    let version = Version::<Sem>::from_parsed_format("[MAJOR].[MINOR]", "4294967295.3").unwrap();
    assert_eq!(Err(VersionBumpError::ValueOverflow), version.increment(&SemanticLevel::Major));
    assert_eq!("4294967295.4", version.increment(&SemanticLevel::Minor).unwrap().to_string());
}

#[test]
fn format_compile_errors() {
    let kind = |r: Result<Format<Sem>, VersionBumpError>| match r {
        Err(VersionBumpError::InvalidFormat { kind, .. }) => Some(kind),
        _ => None,
    };
    assert_eq!(Some(FormatErrorKind::UnknownSpecifier), kind(Format::<Sem>::parse("[FOO]")));
    assert_eq!(Some(FormatErrorKind::UnterminatedBracket), kind(Format::<Sem>::parse("1.[MAJOR")));
    assert_eq!(Some(FormatErrorKind::SpecifierNotInScheme), kind(Format::<Sem>::parse("[YYYY]")));
    assert_eq!(Some(FormatErrorKind::RepeatedUnit), kind(Format::<Sem>::parse("[MAJOR].[MAJOR]")));
    assert_eq!(
        Err(VersionBumpError::InvalidFormat {
            kind: FormatErrorKind::UnknownSpecifier,
            format_string: "[major]".to_string(),
        }),
        Format::<Sem>::parse("[major]").map(|_| ())
    );
}

#[test]
fn calendar_scheme_rules() {
    assert!(Format::<Cal>::parse("[YYYY].[0M].[0D]").is_ok());
    assert!(matches!(
        Format::<Cal>::parse("[YYYY].[YY]"),
        Err(VersionBumpError::InvalidFormat { kind: FormatErrorKind::RepeatedUnit, .. })
    ));
    assert!(matches!(
        Format::<Cal>::parse("[YYYY].[PATCH]"),
        Err(VersionBumpError::InvalidFormat { kind: FormatErrorKind::SpecifierNotInScheme, .. })
    ));
    assert!(Format::<CalSem>::parse("[YYYY].[0M].[PATCH]").is_ok());
    assert!(matches!(
        Format::<CalSem>::parse("[YYYY].[MINOR].[PATCH]"),
        Err(VersionBumpError::InvalidFormat { kind: FormatErrorKind::RepeatedUnit, .. })
    ));
    assert!(matches!(
        Format::<CalSem>::parse("[YYYY].[MAJOR]"),
        Err(VersionBumpError::InvalidFormat { kind: FormatErrorKind::SpecifierNotInScheme, .. })
    ));
}

#[test]
fn escaped_bracket_renders_escaped() {
    let format = Format::<Sem>::parse(r"\[[MAJOR]]").unwrap();
    assert_eq!(r"\[[MAJOR]]", format.to_string());
    let version = Version::parse("[4]", &format).unwrap();
    assert_eq!("[4]", version.to_string());
    assert_eq!("[5]", version.increment(&SemanticLevel::Major).unwrap().to_string());
}

#[test]
fn iso_week_update() {
    let version = Version::<Cal>::from_parsed_format("[YYYY].[0W]", "2024.52").unwrap();
    let next = version.update(&date(2024, 12, 30)).unwrap();
    assert_eq!("2024.01", next.to_string());
    let next = version.update(&date(2024, 2, 14)).unwrap();
    assert_eq!("2024.07", next.to_string());
}

#[test]
fn short_year_is_year_mod_100() {
    let version = Version::<Cal>::from_parsed_format("[YY].[0Y]", "1.01").err();
    assert!(matches!(version, Some(VersionBumpError::InvalidFormat { .. })));
    let version = Version::<Cal>::from_parsed_format("[0Y]", "23").unwrap();
    assert_eq!("05", version.update(&date(2105, 3, 1)).unwrap().to_string());
    let version = Version::<Cal>::from_parsed_format("[YY]", "23").unwrap();
    assert_eq!("24", version.update(&date(2024, 3, 1)).unwrap().to_string());
}

#[test]
fn resolve_explicit_date() {
    let d = date(2024, 12, 30).get_date().unwrap();
    assert_eq!(CalendarDate { year: 2024, month: 12, day: 30, week: 1 }, d);
    let d = date(2021, 1, 3).get_date().unwrap();
    assert_eq!(53, d.week);
    assert!(date(2021, 0, 3).get_date().is_err());
}

#[test]
fn update_to_current_date() {
    let version = Version::<Cal>::from_parsed_format("[YYYY]", "1999").unwrap();
    let utc = version.update(&Date::UtcNow).unwrap();
    assert!(version < utc);
    let local = version.update(&Date::LocalNow).unwrap();
    assert!(version < local);
    let today = Date::UtcNow.get_date().unwrap();
    assert!(today.month >= 1 && today.month <= 12 && today.week >= 1 && today.week <= 53);
}

#[test]
fn update_to_resolved_date() {
    let version = Version::<Cal>::from_parsed_format("[YYYY].[MM]", "2020.1").unwrap();
    let d = CalendarDate { year: 2021, month: 5, day: 9, week: 18 };
    assert_eq!("2021.5", version.update_to(&d).unwrap().to_string());
    let version = Version::<CalSem>::from_parsed_format("[YYYY].[MINOR]", "2021.3").unwrap();
    assert_eq!(
        "2021.4",
        version.update_or_increment_to(&d, &CalSemSpecifier::Minor).unwrap().to_string()
    );
}
