use vstd::prelude::*;

verus! {

/// The counts of a job's outcome that its summary reports.
#[derive(Debug, Clone, Copy, Default)]
pub struct VitalCounts {
    pub total_rows: u64,
    pub matched: u64,
    pub ambiguous: u64,
    pub unmatched: u64,
    pub invalid: u64,
    pub duplicates: u64,
    pub retained: u64,
    pub direct_matches: u64,
    pub inherited_matches: u64,
    pub middle_fuzzy: u64,
    pub middle_missing: u64,
    pub candidate_cap_ambiguities: u64,
    pub score_margin_ambiguities: u64,
    pub multiple_exact_ambiguities: u64,
}

impl VitalCounts {
    /// The summary as (metric, value) rows, in the order they are exported.
    pub open spec fn summary_of(&self) -> Seq<(Seq<char>, u64)> {
        seq![
            ("total_rows"@, self.total_rows),
            ("matched"@, self.matched),
            ("ambiguous"@, self.ambiguous),
            ("unmatched"@, self.unmatched),
            ("invalid"@, self.invalid),
            ("duplicate_rows"@, self.duplicates),
            ("retained_rows"@, self.retained),
            ("direct_matches"@, self.direct_matches),
            ("inherited_matches"@, self.inherited_matches),
            ("middle_fuzzy"@, self.middle_fuzzy),
            ("middle_missing"@, self.middle_missing),
            ("candidate_cap_ambiguities"@, self.candidate_cap_ambiguities),
            ("score_margin_ambiguities"@, self.score_margin_ambiguities),
            ("multiple_exact_ambiguities"@, self.multiple_exact_ambiguities),
        ]
    }

    /// The summary rows (see `summary_of`).
    pub fn summary_rows(&self) -> (r: Vec<(&'static str, u64)>)
        ensures
            r@.map_values(|e: (&str, u64)| (e.0@, e.1)) == self.summary_of(),
    {
        let mut rows: Vec<(&'static str, u64)> = Vec::new();
        rows.push(("total_rows", self.total_rows));
        rows.push(("matched", self.matched));
        rows.push(("ambiguous", self.ambiguous));
        rows.push(("unmatched", self.unmatched));
        rows.push(("invalid", self.invalid));
        rows.push(("duplicate_rows", self.duplicates));
        rows.push(("retained_rows", self.retained));
        rows.push(("direct_matches", self.direct_matches));
        rows.push(("inherited_matches", self.inherited_matches));
        rows.push(("middle_fuzzy", self.middle_fuzzy));
        rows.push(("middle_missing", self.middle_missing));
        rows.push(("candidate_cap_ambiguities", self.candidate_cap_ambiguities));
        rows.push(("score_margin_ambiguities", self.score_margin_ambiguities));
        rows.push(("multiple_exact_ambiguities", self.multiple_exact_ambiguities));
        assert(rows@.map_values(|e: (&str, u64)| (e.0@, e.1)) =~= self.summary_of());
        rows
    }
}

} // verus!
