use dms_name_matching::normalize::{
    date_parts, first_char, md5_key, normalize_decomposed, middle_relation, mysql_norm_expr, near_dob, normalize,
    normalize_mi, parse_date, prefix_chars, CalendarDate, MiddleRelation,
};

#[test]
fn same_initial_different_full_middle_is_fuzzy() {
    assert_eq!(middle_relation("MARIO", "MIGUEL"), MiddleRelation::Fuzzy);
}

#[test]
fn missing_middle_is_not_conflict() {
    assert_eq!(middle_relation("", "MARIO"), MiddleRelation::MissingOne);
}

#[test]
fn initial_to_full_is_compatible() {
    assert_eq!(middle_relation("M", "MARIO"), MiddleRelation::InitialCompatible);
}

#[test]
fn near_dob_component_windows() {
    let a = CalendarDate::from_ymd_opt(1990, 5, 10).unwrap();
    let b = CalendarDate::from_ymd_opt(1995, 8, 13).unwrap();
    assert!(near_dob(a, b));
    let c = CalendarDate::from_ymd_opt(1996, 8, 13).unwrap();
    assert!(!near_dob(a, c));
}

#[test]
fn folds_spanish_n_tilde_for_matching() {
    assert_eq!(normalize("Peñalosa"), "PENALOSA");
    assert_eq!(normalize("PENALOSA"), "PENALOSA");
}

#[test]
fn collapses_spaces_and_accents() {
    assert_eq!(normalize("  María   José  "), "MARIA JOSE");
}

#[test]
fn folds_letters_without_decomposition() {
    assert_eq!(normalize("Søren Łukasz Đorđe"), "SOREN LUKASZ DORDE");
    assert_eq!(normalize("Þór Ægir Œuvre"), "THOR AEGIR OEUVRE");
    assert_eq!(normalize("straße"), "STRASSE");
}

#[test]
fn normalize_collapses_every_kind_of_whitespace() {
    assert_eq!(normalize("\tJuan\u{a0}\u{2003}dela\n\r Cruz "), "JUAN DELA CRUZ");
    assert_eq!(normalize("   "), "");
    assert_eq!(normalize(""), "");
}

#[test]
fn normalized_text_is_well_spaced() {
    for input in ["  a  b ", "\u{3000}x\u{2028}y", "Ñ  ñ", "", "z"] {
        let n = normalize(input);
        assert!(!n.starts_with(' ') && !n.ends_with(' '));
        assert!(!n.contains("  "));
        assert!(n.chars().all(|c| c == ' ' || !c.is_whitespace()));
    }
}

#[test]
fn middle_relation_all_cases() {
    assert_eq!(middle_relation("", ""), MiddleRelation::MissingBoth);
    assert_eq!(middle_relation(" . ", ""), MiddleRelation::MissingBoth);
    assert_eq!(middle_relation("MARIO", ""), MiddleRelation::MissingOne);
    assert_eq!(middle_relation("Mario", "MARIO"), MiddleRelation::Exact);
    assert_eq!(middle_relation("M.", "m"), MiddleRelation::InitialExact);
    assert_eq!(middle_relation("MARIO", "M"), MiddleRelation::InitialCompatible);
    assert_eq!(middle_relation("J", "MARIO"), MiddleRelation::InitialConflict);
    assert_eq!(middle_relation("Peñalosa", "PENALOSA"), MiddleRelation::Exact);
}

#[test]
fn middle_relation_is_symmetric_on_examples() {
    let names = ["", "M", "MARIO", "MIGUEL", "J.", "m"];
    for a in names {
        for b in names {
            assert_eq!(middle_relation(a, b), middle_relation(b, a));
        }
    }
}

#[test]
fn middle_initial_prefers_explicit_initial() {
    assert_eq!(normalize_mi("r.", "MARIO"), "R");
    assert_eq!(normalize_mi(" . ", "mario"), "M");
    assert_eq!(normalize_mi("", ".Ñoño"), "N");
    assert_eq!(normalize_mi("", ""), "");
}

#[test]
fn prefixes_and_first_characters() {
    assert_eq!(prefix_chars("  dela   Cruz", 3), "DEL");
    assert_eq!(prefix_chars("Li", 3), "LI");
    assert_eq!(prefix_chars("", 3), "");
    assert_eq!(first_char("  ángel"), "A");
    assert_eq!(first_char("   "), "");
}

#[test]
fn parses_dates_from_the_first_ten_characters() {
    assert_eq!(
        parse_date("  1990-05-10 00:00:00"),
        CalendarDate::from_ymd_opt(1990, 5, 10)
    );
    assert_eq!(parse_date("2024-02-29"), CalendarDate::from_ymd_opt(2024, 2, 29));
    assert_eq!(parse_date("2023-02-29"), None);
    assert_eq!(parse_date(""), None);
    assert_eq!(parse_date("   "), None);
    assert_eq!(parse_date("10/05/1990"), None);
    assert_eq!(date_parts("1990-05-10"), (Some(1990), Some(5), Some(10)));
    assert_eq!(date_parts("not a date"), (None, None, None));
}

#[test]
fn calendar_dates_follow_the_gregorian_rules() {
    assert!(CalendarDate::from_ymd_opt(2000, 2, 29).is_some());
    assert!(CalendarDate::from_ymd_opt(1900, 2, 29).is_none());
    assert!(CalendarDate::from_ymd_opt(-4, 2, 29).is_some());
    assert!(CalendarDate::from_ymd_opt(2015, 0, 14).is_none());
    assert!(CalendarDate::from_ymd_opt(2023, 4, 31).is_none());
    assert!(CalendarDate::from_ymd_opt(262142, 12, 31).is_some());
    assert!(CalendarDate::from_ymd_opt(262143, 1, 1).is_none());
    assert!(CalendarDate::from_ymd_opt(-262143, 1, 1).is_some());
    assert!(CalendarDate::from_ymd_opt(-262144, 1, 1).is_none());
    let d = CalendarDate::from_ymd_opt(1990, 5, 10).unwrap();
    assert_eq!((d.year(), d.month(), d.day()), (1990, 5, 10));
}

#[test]
fn near_dob_windows_on_each_component() {
    let base = CalendarDate { year: 1990, month: 5, day: 10 };
    assert!(near_dob(base, base));
    assert!(near_dob(base, CalendarDate { year: 1985, month: 2, day: 7 }));
    assert!(!near_dob(base, CalendarDate { year: 1990, month: 9, day: 10 }));
    assert!(!near_dob(base, CalendarDate { year: 1990, month: 5, day: 14 }));
    let far = CalendarDate { year: 1984, month: 5, day: 10 };
    assert_eq!(near_dob(base, far), near_dob(far, base));
}

#[test]
fn md5_key_joins_with_unit_separator() {
    let key = md5_key(&["JUAN", "SANTOS"]);
    let expected = md5::compute("JUAN\u{1f}SANTOS".as_bytes()).0;
    assert_eq!(key, expected);
    assert_ne!(md5_key(&["JUAN", "SANTOS"]), md5_key(&["JUANS", "ANTOS"]));
    assert_eq!(md5_key(&[]), md5::compute(b"").0);
    assert_eq!(
        md5_key(&["a"]),
        [0x0c, 0xc1, 0x75, 0xb9, 0xc0, 0xf1, 0xb6, 0xa8, 0x31, 0xc3, 0x99, 0xe2, 0x69, 0x77, 0x26, 0x61]
    );
}

#[test]
fn mysql_expression_wraps_every_replacement() {
    let e = mysql_norm_expr("`first_name`");
    assert!(e.starts_with(&"REPLACE(".repeat(66)));
    assert!(e.contains(
        "REGEXP_REPLACE(UPPER(TRIM(COALESCE(CAST(`first_name` AS CHAR),''))), '[[:space:]]+', ' ')"
    ));
    assert!(e.contains(",'Á','A')"));
    assert!(e.ends_with(",'Œ','OE')"));
    assert_eq!(e.matches("REPLACE(").count(), 67);
}

#[test]
fn decomposed_text_loses_its_marks() {
    let decomposed: Vec<char> = vec!['J', 'o', 's', 'e', '\u{301}', ' ', ' ', 'n', '\u{303}', 'o'];
    assert_eq!(normalize_decomposed(&decomposed), "JOSE NO");
    assert_eq!(normalize_decomposed(&[]), "");
}

#[test]
fn database_accent_fold_agrees_with_normalize() {
    let expr = mysql_norm_expr("c");
    for (from, to) in [
        ("Á", "A"),
        ("À", "A"),
        ("Â", "A"),
        ("Ä", "A"),
        ("Ã", "A"),
        ("Å", "A"),
        ("Ā", "A"),
        ("Ă", "A"),
        ("Ą", "A"),
        ("É", "E"),
        ("È", "E"),
        ("Ê", "E"),
        ("Ë", "E"),
        ("Ē", "E"),
        ("Ĕ", "E"),
        ("Ė", "E"),
        ("Ę", "E"),
        ("Ě", "E"),
        ("Í", "I"),
        ("Ì", "I"),
        ("Î", "I"),
        ("Ï", "I"),
        ("Ī", "I"),
        ("Ĭ", "I"),
        ("Į", "I"),
        ("Ó", "O"),
        ("Ò", "O"),
        ("Ô", "O"),
        ("Ö", "O"),
        ("Õ", "O"),
        ("Ø", "O"),
        ("Ō", "O"),
        ("Ŏ", "O"),
        ("Ő", "O"),
        ("Ú", "U"),
        ("Ù", "U"),
        ("Û", "U"),
        ("Ü", "U"),
        ("Ū", "U"),
        ("Ŭ", "U"),
        ("Ů", "U"),
        ("Ű", "U"),
        ("Ų", "U"),
        ("Ñ", "N"),
        ("Ń", "N"),
        ("Ņ", "N"),
        ("Ň", "N"),
        ("Ç", "C"),
        ("Ć", "C"),
        ("Ĉ", "C"),
        ("Ċ", "C"),
        ("Č", "C"),
        ("Ý", "Y"),
        ("Ÿ", "Y"),
        ("Š", "S"),
        ("Ś", "S"),
        ("Ş", "S"),
        ("Ž", "Z"),
        ("Ź", "Z"),
        ("Ż", "Z"),
        ("Ł", "L"),
        ("Đ", "D"),
        ("Ð", "D"),
        ("Þ", "TH"),
        ("Æ", "AE"),
        ("Œ", "OE"),
    ] {
        assert_eq!(normalize(from), to, "{from}");
        assert!(expr.contains(&format!(",'{from}','{to}')")), "{from}");
    }
}
