use dms_name_matching::model::{
    default_worker_split, sort_by_number, worker_split, APP_NAME, APP_VERSION,
    NORMALIZATION_VERSION, AppConfig, ConsolidationMode, DbConfig, FieldMap, GpuMode,
    MatchLevel, ProcessMode,
};

fn all_levels() -> Vec<MatchLevel> {
    let mut v = MatchLevel::core_levels().to_vec();
    v.extend(MatchLevel::advanced_levels());
    v
}

#[test]
fn level_numbers_and_codes() {
    let levels = all_levels();
    assert_eq!(levels.len(), 17);
    for (i, l) in levels.iter().enumerate() {
        assert_eq!(l.number() as usize, i + 1);
        assert_eq!(l.code(), format!("L{}", i + 1));
        assert_eq!(l.default_enabled(), i < 7);
        assert_eq!(l.fuzzy_phase(), !l.exact_phase());
    }
    assert_eq!(MatchLevel::L03.label(), "Exact FN + LN + DOB — Middle Missing/Compatible");
    assert_eq!(MatchLevel::L15.label(), "Fuzzy FN + MN + LN + City/Municipality");
}

#[test]
fn fuzzy_levels_are_five_six_seven_and_fifteen() {
    let fuzzy: Vec<u8> = all_levels().into_iter().filter(|l| l.fuzzy_phase()).map(|l| l.number()).collect();
    assert_eq!(fuzzy, vec![5, 6, 7, 15]);
}

#[test]
fn process_modes_describe_themselves() {
    let modes = ProcessMode::all();
    assert_eq!(modes[3].title(), "Deduplicate → Consolidate → Name Match");
    assert_eq!(ProcessMode::NameMatchOnly.short_description(), "Match an input table against a prepared base table.");
    assert!(!ProcessMode::DedupOnly.needs_base());
    assert!(ProcessMode::DedupOnly.needs_dedup());
    assert!(ProcessMode::NameMatchOnly.needs_base());
    assert!(!ProcessMode::NameMatchOnly.needs_dedup());
    for m in modes {
        assert!(m.needs_base() || m.needs_dedup());
    }
    assert_eq!(ConsolidationMode::ExactOnly.label(), "Confirmed duplicates only (L1–L3)");
    assert_eq!(GpuMode::CpuOnly.label(), "CPU only");
}

#[test]
fn defaults_match_the_shipped_configuration() {
    let db = DbConfig::default();
    assert_eq!((db.host.as_str(), db.port, db.user.as_str()), ("127.0.0.1", 3306, "root"));
    assert!(db.password.is_empty() && db.database.is_empty() && db.table.is_empty());
    let f = FieldMap::default();
    assert_eq!(f.row_key, "id");
    assert_eq!(f.city_code, "city_code");
    let cfg = AppConfig::default();
    assert_eq!(cfg.mode, ProcessMode::NameMatchOnly);
    assert_eq!(cfg.consolidation, ConsolidationMode::ExactOnly);
    assert_eq!(cfg.destination.database, "name_matching");
    assert_eq!(cfg.selected_levels, MatchLevel::core_levels().to_vec());
    assert!(!cfg.rebuild_base_index);
    for src in [&cfg.source1, &cfg.source2] {
        assert_eq!((src.host.as_str(), src.port, src.user.as_str()), ("127.0.0.1", 3306, "root"));
        assert!(src.password.is_empty() && src.database.is_empty() && src.table.is_empty());
    }
    assert_eq!((cfg.destination.host.as_str(), cfg.destination.port, cfg.destination.user.as_str()), ("127.0.0.1", 3306, "root"));
    assert!(cfg.destination.password.is_empty() && cfg.destination.table.is_empty());
    for f in [&cfg.source1_fields, &cfg.source2_fields] {
        assert_eq!(
            [&f.row_key, &f.person_id, &f.first_name, &f.middle_name, &f.middle_initial, &f.last_name, &f.birthdate, &f.barangay_code, &f.city_code],
            ["id", "person_id", "first_name", "middle_name", "middle_initial", "last_name", "birthdate", "barangay_code", "city_code"]
        );
    }
}

#[test]
fn set_level_keeps_the_selection_sorted() {
    let mut cfg = AppConfig::default();
    cfg.set_level(MatchLevel::L12, true);
    cfg.set_level(MatchLevel::L08, true);
    assert!(cfg.selected(MatchLevel::L12) && cfg.selected(MatchLevel::L08));
    let numbers: Vec<u8> = cfg.selected_levels.iter().map(|l| l.number()).collect();
    assert_eq!(numbers, vec![1, 2, 3, 4, 5, 6, 7, 8, 12]);
    cfg.set_level(MatchLevel::L03, false);
    assert!(!cfg.selected(MatchLevel::L03));
    cfg.set_level(MatchLevel::L08, true);
    let numbers: Vec<u8> = cfg.selected_levels.iter().map(|l| l.number()).collect();
    assert_eq!(numbers, vec![1, 2, 4, 5, 6, 7, 8, 12]);
    cfg.reset_core_levels();
    assert_eq!(cfg.selected_levels, MatchLevel::core_levels().to_vec());
}

#[test]
fn set_level_off_removes_every_copy() {
    let mut cfg = AppConfig::default();
    cfg.selected_levels = vec![MatchLevel::L05, MatchLevel::L01, MatchLevel::L05];
    cfg.set_level(MatchLevel::L05, false);
    assert_eq!(cfg.selected_levels, vec![MatchLevel::L01]);
}

#[test]
fn plans_split_exact_before_fuzzy() {
    let mut cfg = AppConfig::default();
    cfg.selected_levels = vec![MatchLevel::L15, MatchLevel::L07, MatchLevel::L02, MatchLevel::L11, MatchLevel::L05, MatchLevel::L01];
    assert_eq!(cfg.exact_plan(), vec![MatchLevel::L01, MatchLevel::L02, MatchLevel::L11]);
    assert_eq!(cfg.fuzzy_plan(), vec![MatchLevel::L05, MatchLevel::L07, MatchLevel::L15]);
    assert_eq!(cfg.exact_plan().len() + cfg.fuzzy_plan().len(), cfg.selected_levels.len());
}

#[test]
fn sorting_by_number() {
    let v = vec![MatchLevel::L17, MatchLevel::L01, MatchLevel::L09, MatchLevel::L01];
    assert_eq!(sort_by_number(&v), vec![MatchLevel::L01, MatchLevel::L01, MatchLevel::L09, MatchLevel::L17]);
    assert_eq!(sort_by_number(&vec![]), vec![]);
}

#[test]
fn worker_split_keeps_cores_back() {
    assert_eq!(worker_split(0), (1, 1));
    assert_eq!(worker_split(1), (1, 1));
    assert_eq!(worker_split(2), (1, 1));
    assert_eq!(worker_split(3), (1, 2));
    assert_eq!(worker_split(16), (14, 2));
}

#[test]
fn machine_worker_split_leaves_a_worker() {
    let (workers, reserve) = default_worker_split();
    assert!(workers >= 1 && reserve <= 2);
    let cpus = num_cpus::get().max(2);
    assert_eq!(workers + reserve, cpus);
}

#[test]
fn clearing_passwords_keeps_the_rest() {
    let mut cfg = AppConfig::default();
    cfg.source1.password = "a".into();
    cfg.source2.password = "b".into();
    cfg.destination.password = "c".into();
    cfg.source1.user = "reader".into();
    cfg.clear_passwords();
    assert!(cfg.source1.password.is_empty() && cfg.source2.password.is_empty() && cfg.destination.password.is_empty());
    assert_eq!(cfg.source1.user, "reader");
    assert_eq!(cfg.destination.database, "name_matching");
}

#[test]
fn application_names() {
    assert_eq!(APP_NAME, "DMS Name Matching");
    assert_eq!(APP_VERSION, "11.3.3-rust-web");
    assert_eq!(NORMALIZATION_VERSION, "NORM-RUST-2-DIACRITIC-FOLD");
}

#[test]
fn set_level_keeps_each_rule_once_in_increasing_order() {
    let mut cfg = AppConfig::default();
    let all = all_levels();
    for (k, level) in all.iter().enumerate() {
        let before: Vec<bool> = all.iter().map(|l| cfg.selected(*l)).collect();
        let on = k % 3 != 0;
        cfg.set_level(*level, on);
        assert_eq!(cfg.selected(*level), on);
        for (j, other) in all.iter().enumerate() {
            if other != level {
                assert_eq!(cfg.selected(*other), before[j]);
            }
        }
        let numbers: Vec<u8> = cfg.selected_levels.iter().map(|l| l.number()).collect();
        assert!(numbers.windows(2).all(|w| w[0] < w[1]));
    }
}
