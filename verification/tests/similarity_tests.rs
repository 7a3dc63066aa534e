use dms_name_matching::model::MatchLevel;
use dms_name_matching::normalize::MiddleRelation;
use dms_name_matching::similarity::{
    ambiguity_of, best_per_source, edit_comparison, fuzzy_level_admits, middle_names_conflict, middle_plan,
    pack_gpu_pairs, AmbiguityReason, Candidate, EditComparison, RankedScore, SourceDecision,
};

fn candidate(row: u64, base_middle: &str, source_middle: &str) -> Candidate {
    Candidate {
        source_row_id: row,
        source_record_id: format!("S{row}"),
        base_row_id: row + 100,
        base_record_id: format!("B{row}"),
        source_first_name: "JUAN".into(),
        source_middle_name: source_middle.into(),
        source_last_name: "SANTOS".into(),
        base_first_name: "JUAN".into(),
        base_middle_name: base_middle.into(),
        base_last_name: "SANTOS".into(),
        candidate_pool_count: 1,
    }
}

#[test]
fn edit_comparison_of_normalized_names() {
    assert_eq!(edit_comparison("", "  "), EditComparison::BothEmpty);
    assert_eq!(edit_comparison("Ana", ""), EditComparison::OneEmpty);
    assert_eq!(edit_comparison("kitten", "sitting"), EditComparison::Compared { distance: 3, longest: 7 });
    assert_eq!(edit_comparison("Mercedita", "Mercidita"), EditComparison::Compared { distance: 1, longest: 9 });
    assert_eq!(edit_comparison("Peñalosa", "penalosa"), EditComparison::Compared { distance: 0, longest: 8 });
}

#[test]
fn middle_names_conflict_only_when_both_given_and_different() {
    assert!(middle_names_conflict("MARIO", "MIGUEL"));
    assert!(!middle_names_conflict("Mario", "MARIO"));
    assert!(!middle_names_conflict("", "MIGUEL"));
    assert!(middle_names_conflict("M", "MIGUEL"));
}

#[test]
fn middle_plan_indexes_fuzzy_pairs() {
    let cands = vec![
        candidate(1, "MARIO", "MIGUEL"),
        candidate(2, "M", "MARIO"),
        candidate(3, "", "ANA"),
        candidate(4, "ROSA", "ROSARIO"),
    ];
    let plan = middle_plan(&cands);
    assert_eq!(
        plan.relations,
        vec![MiddleRelation::Fuzzy, MiddleRelation::InitialCompatible, MiddleRelation::MissingOne, MiddleRelation::Fuzzy]
    );
    assert_eq!(plan.fuzzy_index, vec![Some(0), None, None, Some(1)]);
    assert_eq!(
        plan.fuzzy_pairs,
        vec![("MARIO".to_string(), "MIGUEL".to_string()), ("ROSA".to_string(), "ROSARIO".to_string())]
    );
}

#[test]
fn truncation_compares_pool_with_cap() {
    let mut c = candidate(1, "", "");
    c.candidate_pool_count = 101;
    assert!(c.is_truncated(100));
    assert!(!c.is_truncated(101));
}

#[test]
fn gpu_input_layout() {
    let pairs = vec![("ab".to_string(), "Ñ".to_string()), ("x".repeat(70), String::new())];
    let packed = pack_gpu_pairs(&pairs);
    assert_eq!(packed.len(), 2 * 130);
    assert_eq!(&packed[0..4], &[2, 1, 'A' as u32, 'B' as u32]);
    assert_eq!(packed[4], 0);
    assert_eq!(packed[66], 'Ñ' as u32);
    assert_eq!(packed[67], 0);
    assert_eq!(packed[130], 64);
    assert_eq!(packed[131], 0);
    assert_eq!(packed[132], 'X' as u32);
    assert_eq!(packed[195], 'X' as u32);
    assert_eq!(packed[196], 0);
}

#[test]
fn fuzzy_levels_refuse_middle_conflicts() {
    assert!(!fuzzy_level_admits(MatchLevel::L06, MiddleRelation::Fuzzy, true));
    assert!(fuzzy_level_admits(MatchLevel::L06, MiddleRelation::InitialConflict, false));
    assert!(!fuzzy_level_admits(MatchLevel::L05, MiddleRelation::InitialConflict, false));
    assert!(fuzzy_level_admits(MatchLevel::L07, MiddleRelation::Fuzzy, true));
    assert!(!fuzzy_level_admits(MatchLevel::L15, MiddleRelation::InitialConflict, false));
    assert!(!fuzzy_level_admits(MatchLevel::L01, MiddleRelation::Exact, false));
    assert!(!fuzzy_level_admits(MatchLevel::L12, MiddleRelation::Exact, false));
}

fn ranked(source: u64, base: u64, score: f32) -> RankedScore {
    RankedScore { source_row_id: source, base_row_id: base, score_key: score.to_bits() }
}

#[test]
fn best_per_source_picks_highest_score_per_source_in_source_order() {
    let scores = vec![
        ranked(7, 20, 91.5),
        ranked(3, 11, 88.0),
        ranked(7, 21, 97.25),
        ranked(7, 22, 93.0),
        ranked(3, 10, 95.0),
    ];
    let out = best_per_source(&scores);
    assert_eq!(
        out,
        vec![
            SourceDecision { best: 4, runner_up: Some(1) },
            SourceDecision { best: 2, runner_up: Some(3) },
        ]
    );
}

#[test]
fn best_per_source_breaks_ties_by_lower_base_row_then_order() {
    let scores = vec![ranked(1, 50, 90.0), ranked(1, 40, 90.0), ranked(1, 40, 90.0), ranked(2, 9, 80.0)];
    let out = best_per_source(&scores);
    assert_eq!(
        out,
        vec![SourceDecision { best: 1, runner_up: Some(2) }, SourceDecision { best: 3, runner_up: None }]
    );
}

#[test]
fn best_per_source_of_nothing_is_empty() {
    assert!(best_per_source(&Vec::new()).is_empty());
}

#[test]
fn candidate_cap_outranks_score_margin() {
    assert_eq!(ambiguity_of(true, true), Some(AmbiguityReason::CandidateCap));
    assert_eq!(ambiguity_of(true, false), Some(AmbiguityReason::CandidateCap));
    assert_eq!(ambiguity_of(false, true), Some(AmbiguityReason::ScoreMargin));
    assert_eq!(ambiguity_of(false, false), None);
    assert_eq!(AmbiguityReason::CandidateCap.code(), "CANDIDATE_CAP");
    assert_eq!(AmbiguityReason::ScoreMargin.code(), "SCORE_MARGIN");
}
