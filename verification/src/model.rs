use vstd::prelude::*;

verus! {

broadcast use vstd::seq_lib::group_seq_properties;

pub const APP_NAME: &'static str = "DMS Name Matching";

pub const APP_VERSION: &'static str = "11.3.3-rust-web";

/// Names the normalization rules that stored matching forms were made with.
pub const NORMALIZATION_VERSION: &'static str = "NORM-RUST-2-DIACRITIC-FOLD";

/// What a job does with its input.
#[derive(Debug, Clone, Copy, PartialEq, Eq, Structural)]
pub enum ProcessMode {
    DedupOnly,
    NameMatchOnly,
    DedupNameMatch,
    DedupConsolidateMatch,
}

impl ProcessMode {
    /// Every mode, in menu order.
    pub fn all() -> (r: [ProcessMode; 4])
        ensures
            r@ == seq![
                ProcessMode::DedupOnly,
                ProcessMode::NameMatchOnly,
                ProcessMode::DedupNameMatch,
                ProcessMode::DedupConsolidateMatch,
            ],
    {
        let r = [
            ProcessMode::DedupOnly,
            ProcessMode::NameMatchOnly,
            ProcessMode::DedupNameMatch,
            ProcessMode::DedupConsolidateMatch,
        ];
        assert(r@ =~= seq![
            ProcessMode::DedupOnly,
            ProcessMode::NameMatchOnly,
            ProcessMode::DedupNameMatch,
            ProcessMode::DedupConsolidateMatch,
        ]);
        r
    }

    pub open spec fn title_of(self) -> Seq<char> {
        match self {
            ProcessMode::DedupOnly => "Deduplication Only"@,
            ProcessMode::NameMatchOnly => "Name Matching Only"@,
            ProcessMode::DedupNameMatch => "Deduplication + Name Matching"@,
            ProcessMode::DedupConsolidateMatch => "Deduplicate → Consolidate → Name Match"@,
        }
    }

    pub fn title(self) -> (r: &'static str)
        ensures
            r@ == self.title_of(),
    {
        match self {
            ProcessMode::DedupOnly => "Deduplication Only",
            ProcessMode::NameMatchOnly => "Name Matching Only",
            ProcessMode::DedupNameMatch => "Deduplication + Name Matching",
            ProcessMode::DedupConsolidateMatch => "Deduplicate → Consolidate → Name Match",
        }
    }

    pub open spec fn short_description_of(self) -> Seq<char> {
        match self {
            ProcessMode::DedupOnly => "Find duplicate persons within one selected table."@,
            ProcessMode::NameMatchOnly => "Match an input table against a prepared base table."@,
            ProcessMode::DedupNameMatch => "Identify duplicates first, then match every original input row."@,
            ProcessMode::DedupConsolidateMatch => "Retain one qualifying duplicate representative before name matching while preserving lineage."@,
        }
    }

    pub fn short_description(self) -> (r: &'static str)
        ensures
            r@ == self.short_description_of(),
    {
        match self {
            ProcessMode::DedupOnly => "Find duplicate persons within one selected table.",
            ProcessMode::NameMatchOnly => "Match an input table against a prepared base table.",
            ProcessMode::DedupNameMatch => "Identify duplicates first, then match every original input row.",
            ProcessMode::DedupConsolidateMatch => "Retain one qualifying duplicate representative before name matching while preserving lineage.",
        }
    }

    /// Whether the mode matches against a base table.
    pub fn needs_base(self) -> (r: bool)
        ensures
            r == !(self is DedupOnly),
    {
        !matches!(self, ProcessMode::DedupOnly)
    }

    /// Whether the mode deduplicates its input.
    pub fn needs_dedup(self) -> (r: bool)
        ensures
            r == !(self is NameMatchOnly),
    {
        !matches!(self, ProcessMode::NameMatchOnly)
    }
}

/// Which duplicates are consolidated before name matching.
#[derive(Debug, Clone, Copy, PartialEq, Eq, Structural)]
pub enum ConsolidationMode {
    ExactOnly,
    ExactAndHighProbability,
}

impl ConsolidationMode {
    pub open spec fn label_of(self) -> Seq<char> {
        match self {
            ConsolidationMode::ExactOnly => "Confirmed duplicates only (L1–L3)"@,
            ConsolidationMode::ExactAndHighProbability => "Confirmed + high-probability duplicates (L1–L7)"@,
        }
    }

    pub fn label(self) -> (r: &'static str)
        ensures
            r@ == self.label_of(),
    {
        match self {
            ConsolidationMode::ExactOnly => "Confirmed duplicates only (L1–L3)",
            ConsolidationMode::ExactAndHighProbability => "Confirmed + high-probability duplicates (L1–L7)",
        }
    }
}

/// A matching rule, from the strongest (L1) to the weakest (L17).
#[derive(Debug, Clone, Copy, PartialEq, Eq, Hash, Structural)]
pub enum MatchLevel {
    L01,
    L02,
    L03,
    L04,
    L05,
    L06,
    L07,
    L08,
    L09,
    L10,
    L11,
    L12,
    L13,
    L14,
    L15,
    L16,
    L17,
}

impl MatchLevel {
    /// The rule's number, 1 to 17.
    pub open spec fn number_of(self) -> nat {
        match self {
            MatchLevel::L01 => 1,
            MatchLevel::L02 => 2,
            MatchLevel::L03 => 3,
            MatchLevel::L04 => 4,
            MatchLevel::L05 => 5,
            MatchLevel::L06 => 6,
            MatchLevel::L07 => 7,
            MatchLevel::L08 => 8,
            MatchLevel::L09 => 9,
            MatchLevel::L10 => 10,
            MatchLevel::L11 => 11,
            MatchLevel::L12 => 12,
            MatchLevel::L13 => 13,
            MatchLevel::L14 => 14,
            MatchLevel::L15 => 15,
            MatchLevel::L16 => 16,
            MatchLevel::L17 => 17,
        }
    }

    /// Whether the rule is decided by exact comparison (all but L5, L6, L7, L15).
    pub open spec fn is_exact(self) -> bool {
        !(self is L05 || self is L06 || self is L07 || self is L15)
    }

    /// The core rules L1 to L7, in order.
    pub open spec fn core_seq() -> Seq<MatchLevel> {
        seq![
            MatchLevel::L01,
            MatchLevel::L02,
            MatchLevel::L03,
            MatchLevel::L04,
            MatchLevel::L05,
            MatchLevel::L06,
            MatchLevel::L07,
        ]
    }

    /// The advanced rules L8 to L17, in order.
    pub open spec fn advanced_seq() -> Seq<MatchLevel> {
        seq![
            MatchLevel::L08,
            MatchLevel::L09,
            MatchLevel::L10,
            MatchLevel::L11,
            MatchLevel::L12,
            MatchLevel::L13,
            MatchLevel::L14,
            MatchLevel::L15,
            MatchLevel::L16,
            MatchLevel::L17,
        ]
    }

    /// The core rules L1 to L7, in order.
    pub fn core_levels() -> (r: [MatchLevel; 7])
        ensures
            r@ == Self::core_seq(),
    {
        let r = [
            MatchLevel::L01,
            MatchLevel::L02,
            MatchLevel::L03,
            MatchLevel::L04,
            MatchLevel::L05,
            MatchLevel::L06,
            MatchLevel::L07,
        ];
        assert(r@ =~= Self::core_seq());
        r
    }

    /// The advanced rules L8 to L17, in order.
    pub fn advanced_levels() -> (r: [MatchLevel; 10])
        ensures
            r@ == Self::advanced_seq(),
    {
        let r = [
            MatchLevel::L08,
            MatchLevel::L09,
            MatchLevel::L10,
            MatchLevel::L11,
            MatchLevel::L12,
            MatchLevel::L13,
            MatchLevel::L14,
            MatchLevel::L15,
            MatchLevel::L16,
            MatchLevel::L17,
        ];
        assert(r@ =~= Self::advanced_seq());
        r
    }

    pub fn number(self) -> (r: u8)
        ensures
            r == self.number_of(),
    {
        match self {
            MatchLevel::L01 => 1,
            MatchLevel::L02 => 2,
            MatchLevel::L03 => 3,
            MatchLevel::L04 => 4,
            MatchLevel::L05 => 5,
            MatchLevel::L06 => 6,
            MatchLevel::L07 => 7,
            MatchLevel::L08 => 8,
            MatchLevel::L09 => 9,
            MatchLevel::L10 => 10,
            MatchLevel::L11 => 11,
            MatchLevel::L12 => 12,
            MatchLevel::L13 => 13,
            MatchLevel::L14 => 14,
            MatchLevel::L15 => 15,
            MatchLevel::L16 => 16,
            MatchLevel::L17 => 17,
        }
    }

    pub open spec fn code_of(self) -> Seq<char> {
        match self {
            MatchLevel::L01 => "L1"@,
            MatchLevel::L02 => "L2"@,
            MatchLevel::L03 => "L3"@,
            MatchLevel::L04 => "L4"@,
            MatchLevel::L05 => "L5"@,
            MatchLevel::L06 => "L6"@,
            MatchLevel::L07 => "L7"@,
            MatchLevel::L08 => "L8"@,
            MatchLevel::L09 => "L9"@,
            MatchLevel::L10 => "L10"@,
            MatchLevel::L11 => "L11"@,
            MatchLevel::L12 => "L12"@,
            MatchLevel::L13 => "L13"@,
            MatchLevel::L14 => "L14"@,
            MatchLevel::L15 => "L15"@,
            MatchLevel::L16 => "L16"@,
            MatchLevel::L17 => "L17"@,
        }
    }

    /// The short code, "L" followed by the rule's number.
    pub fn code(self) -> (r: &'static str)
        ensures
            r@ == self.code_of(),
    {
        match self {
            MatchLevel::L01 => "L1",
            MatchLevel::L02 => "L2",
            MatchLevel::L03 => "L3",
            MatchLevel::L04 => "L4",
            MatchLevel::L05 => "L5",
            MatchLevel::L06 => "L6",
            MatchLevel::L07 => "L7",
            MatchLevel::L08 => "L8",
            MatchLevel::L09 => "L9",
            MatchLevel::L10 => "L10",
            MatchLevel::L11 => "L11",
            MatchLevel::L12 => "L12",
            MatchLevel::L13 => "L13",
            MatchLevel::L14 => "L14",
            MatchLevel::L15 => "L15",
            MatchLevel::L16 => "L16",
            MatchLevel::L17 => "L17",
        }
    }

    /// Whether the rule runs in the exact phase.
    pub fn exact_phase(self) -> (r: bool)
        ensures
            r == self.is_exact(),
    {
        !matches!(self, MatchLevel::L05 | MatchLevel::L06 | MatchLevel::L07 | MatchLevel::L15)
    }

    /// Whether the rule runs in the fuzzy phase.
    pub fn fuzzy_phase(self) -> (r: bool)
        ensures
            r == !self.is_exact(),
    {
        !self.exact_phase()
    }

    pub open spec fn label_of(self) -> Seq<char> {
        match self {
            MatchLevel::L01 => "Exact FN + MN + LN + DOB"@,
            MatchLevel::L02 => "Exact FN + MI + LN + DOB"@,
            MatchLevel::L03 => "Exact FN + LN + DOB — Middle Missing/Compatible"@,
            MatchLevel::L04 => "Exact FN + MN + LN + Near DOB"@,
            MatchLevel::L05 => "Fuzzy FN + MN + LN + Exact DOB"@,
            MatchLevel::L06 => "Fuzzy FN + LN + Exact DOB"@,
            MatchLevel::L07 => "Fuzzy FN + MN + LN + Near DOB"@,
            MatchLevel::L08 => "Exact swapped FN ↔ LN + MN + DOB"@,
            MatchLevel::L09 => "Exact FN + swapped MN ↔ LN + DOB"@,
            MatchLevel::L10 => "Exact LN + swapped FN ↔ MN + DOB"@,
            MatchLevel::L11 => "Exact common ID + FN + LN"@,
            MatchLevel::L12 => "Exact FN + MN + LN + Barangay"@,
            MatchLevel::L13 => "Exact FN + MI + LN + Barangay"@,
            MatchLevel::L14 => "Exact FN + LN + Barangay"@,
            MatchLevel::L15 => "Fuzzy FN + MN + LN + City/Municipality"@,
            MatchLevel::L16 => "Exact FN + MI + LN + City/Municipality"@,
            MatchLevel::L17 => "Exact FN + LN + City/Municipality"@,
        }
    }

    pub fn label(self) -> (r: &'static str)
        ensures
            r@ == self.label_of(),
    {
        match self {
            MatchLevel::L01 => "Exact FN + MN + LN + DOB",
            MatchLevel::L02 => "Exact FN + MI + LN + DOB",
            MatchLevel::L03 => "Exact FN + LN + DOB — Middle Missing/Compatible",
            MatchLevel::L04 => "Exact FN + MN + LN + Near DOB",
            MatchLevel::L05 => "Fuzzy FN + MN + LN + Exact DOB",
            MatchLevel::L06 => "Fuzzy FN + LN + Exact DOB",
            MatchLevel::L07 => "Fuzzy FN + MN + LN + Near DOB",
            MatchLevel::L08 => "Exact swapped FN ↔ LN + MN + DOB",
            MatchLevel::L09 => "Exact FN + swapped MN ↔ LN + DOB",
            MatchLevel::L10 => "Exact LN + swapped FN ↔ MN + DOB",
            MatchLevel::L11 => "Exact common ID + FN + LN",
            MatchLevel::L12 => "Exact FN + MN + LN + Barangay",
            MatchLevel::L13 => "Exact FN + MI + LN + Barangay",
            MatchLevel::L14 => "Exact FN + LN + Barangay",
            MatchLevel::L15 => "Fuzzy FN + MN + LN + City/Municipality",
            MatchLevel::L16 => "Exact FN + MI + LN + City/Municipality",
            MatchLevel::L17 => "Exact FN + LN + City/Municipality",
        }
    }

    /// Whether the rule is selected when nothing else is chosen: L1 to L7.
    pub fn default_enabled(self) -> (r: bool)
        ensures
            r == (self.number_of() <= 7),
    {
        self.number() <= 7
    }
}

/// How the similarity engine uses a GPU.
#[derive(Debug, Clone, Copy, PartialEq, Eq, Structural)]
pub enum GpuMode {
    Auto,
    ForceGpu,
    CpuOnly,
}

impl GpuMode {
    pub open spec fn label_of(self) -> Seq<char> {
        match self {
            GpuMode::Auto => "Auto — benchmark and use GPU when beneficial"@,
            GpuMode::ForceGpu => "Prefer GPU — fall back to CPU on error"@,
            GpuMode::CpuOnly => "CPU only"@,
        }
    }

    pub fn label(self) -> (r: &'static str)
        ensures
            r@ == self.label_of(),
    {
        match self {
            GpuMode::Auto => "Auto — benchmark and use GPU when beneficial",
            GpuMode::ForceGpu => "Prefer GPU — fall back to CPU on error",
            GpuMode::CpuOnly => "CPU only",
        }
    }
}

/// Where a table lives: server, credentials, database and table.
#[derive(Debug, Clone)]
pub struct DbConfig {
    pub host: String,
    pub port: u16,
    pub user: String,
    pub password: String,
    pub database: String,
    pub table: String,
}

impl DbConfig {
    /// Whether the connection is the default one: root on port 3306 of the
    /// local host, with no password, database or table.
    pub open spec fn is_default(&self) -> bool {
        &&& self.host@ == "127.0.0.1"@
        &&& self.port == 3306
        &&& self.user@ == "root"@
        &&& self.password@ == Seq::<char>::empty()
        &&& self.database@ == Seq::<char>::empty()
        &&& self.table@ == Seq::<char>::empty()
    }
}

impl Default for DbConfig {
    fn default() -> (r: Self)
        ensures
            r.is_default(),
    {
        DbConfig {
            host: String::from_str("127.0.0.1"),
            port: 3306,
            user: String::from_str("root"),
            password: String::new(),
            database: String::new(),
            table: String::new(),
        }
    }
}

/// The column of a table that holds each field of a person record.
#[derive(Debug, Clone)]
pub struct FieldMap {
    pub row_key: String,
    pub person_id: String,
    pub first_name: String,
    pub middle_name: String,
    pub middle_initial: String,
    pub last_name: String,
    pub birthdate: String,
    pub barangay_code: String,
    pub city_code: String,
}

impl FieldMap {
    /// Whether every field maps to the column of the same name (the row key
    /// to `id`).
    pub open spec fn is_default(&self) -> bool {
        &&& self.row_key@ == "id"@
        &&& self.person_id@ == "person_id"@
        &&& self.first_name@ == "first_name"@
        &&& self.middle_name@ == "middle_name"@
        &&& self.middle_initial@ == "middle_initial"@
        &&& self.last_name@ == "last_name"@
        &&& self.birthdate@ == "birthdate"@
        &&& self.barangay_code@ == "barangay_code"@
        &&& self.city_code@ == "city_code"@
    }
}

impl Default for FieldMap {
    fn default() -> (r: Self)
        ensures
            r.is_default(),
    {
        FieldMap {
            row_key: String::from_str("id"),
            person_id: String::from_str("person_id"),
            first_name: String::from_str("first_name"),
            middle_name: String::from_str("middle_name"),
            middle_initial: String::from_str("middle_initial"),
            last_name: String::from_str("last_name"),
            birthdate: String::from_str("birthdate"),
            barangay_code: String::from_str("barangay_code"),
            city_code: String::from_str("city_code"),
        }
    }
}

/// `num_cpus::get`. Trusted: as num_cpus documents, the count of CPUs
/// available to the process is at least 1; which count comes back depends on
/// the machine and is not stated.
#[verifier::external_body]
fn available_cpus() -> (r: usize)
    ensures
        r >= 1,
{
    num_cpus::get()
}

/// How many CPUs do the work and how many are kept back for the system, out
/// of `cpus`: at least two are assumed, at most two are kept back, and at
/// least one always works.
pub open spec fn worker_split_of(cpus: nat) -> (nat, nat) {
    let c = if cpus < 2 { 2 } else { cpus };
    let reserve: nat = if c - 1 < 2 { (c - 1) as nat } else { 2 };
    let workers: nat = if c - reserve < 1 { 1 } else { (c - reserve) as nat };
    (workers, reserve)
}

/// The worker and reserved core counts for `cpus` CPUs (see `worker_split_of`).
pub fn worker_split(cpus: usize) -> (r: (usize, usize))
    ensures
        (r.0 as nat, r.1 as nat) == worker_split_of(cpus as nat),
{
    let c = if cpus < 2 { 2 } else { cpus };
    let reserve = if c - 1 < 2 { c - 1 } else { 2 };
    let workers = if c - reserve < 1 { 1 } else { c - reserve };
    (workers, reserve)
}

/// The worker and reserved core counts for the CPUs of this machine.
pub fn default_worker_split() -> (r: (usize, usize))
    ensures
        exists|cpus: nat| cpus >= 1 && (r.0 as nat, r.1 as nat) == worker_split_of(cpus),
{
    let cpus = available_cpus();
    worker_split(cpus)
}

/// Whether `s` lists rules in ascending order of their numbers.
pub open spec fn sorted_by_number(s: Seq<MatchLevel>) -> bool {
    forall|i: int, j: int| 0 <= i < j < s.len() ==> s[i].number_of() <= s[j].number_of()
}

/// `levels` sorted by rule number (as a stable sort by number does: rules
/// of the same number are the same rule).
pub fn sort_by_number(levels: &Vec<MatchLevel>) -> (r: Vec<MatchLevel>)
    ensures
        sorted_by_number(r@),
        r@.to_multiset() == levels@.to_multiset(),
{
    let mut out: Vec<MatchLevel> = Vec::new();
    let n = levels.len();
    let mut i: usize = 0;
    while i < n
        invariant
            n == levels@.len(),
            i <= n,
            sorted_by_number(out@),
            out@.to_multiset() == levels@.take(i as int).to_multiset(),
        decreases n - i,
    {
        let x = levels[i];
        let xn = x.number();
        let mut pos: usize = 0;
        while pos < out.len() && out[pos].number() <= xn
            invariant
                pos <= out@.len(),
                forall|k: int| 0 <= k < pos ==> out@[k].number_of() <= xn,
            decreases out@.len() - pos,
        {
            pos += 1;
        }
        let ghost before = out@;
        out.insert(pos, x);
        proof {
            assert(levels@.take(i + 1) == levels@.take(i as int).push(x));
            vstd::seq_lib::to_multiset_insert(before, pos as int, x);
            assert forall|a: int, b: int| 0 <= a < b < out@.len() implies out@[a].number_of()
                <= out@[b].number_of() by {
                if a < pos && b == pos {
                } else if a == pos && b > pos {
                    assert(out@[b] == before[b - 1]);
                    if pos < before.len() {
                        assert(before[pos as int].number_of() > xn);
                        assert(before[pos as int].number_of() <= before[b - 1].number_of());
                    }
                } else if a < pos && b > pos {
                    assert(out@[b] == before[b - 1]);
                } else if a > pos {
                    assert(out@[a] == before[a - 1]);
                    assert(out@[b] == before[b - 1]);
                }
            }
        }
        i += 1;
    }
    assert(levels@.take(n as int) == levels@);
    out
}

/// Whether `level` occurs in `levels`.
fn contains_level(levels: &Vec<MatchLevel>, level: MatchLevel) -> (r: bool)
    ensures
        r == levels@.contains(level),
{
    let n = levels.len();
    let mut i: usize = 0;
    while i < n
        invariant
            n == levels@.len(),
            i <= n,
            forall|k: int| 0 <= k < i ==> levels@[k] != level,
        decreases n - i,
    {
        if levels[i] == level {
            return true;
        }
        i += 1;
    }
    false
}

/// A selection of rules out of a rule list.
enum LevelFilter {
    Except(MatchLevel),
    Exact,
    Fuzzy,
}

impl LevelFilter {
    spec fn keeps(self, x: MatchLevel) -> bool {
        match self {
            LevelFilter::Except(level) => x != level,
            LevelFilter::Exact => x.is_exact(),
            LevelFilter::Fuzzy => !x.is_exact(),
        }
    }
}

/// The rules of `levels` that `filter` keeps, in order.
fn filter_levels(levels: &Vec<MatchLevel>, filter: &LevelFilter) -> (r: Vec<MatchLevel>)
    ensures
        r@ == levels@.filter(|x: MatchLevel| filter.keeps(x)),
{
    let mut out: Vec<MatchLevel> = Vec::new();
    let n = levels.len();
    let mut i: usize = 0;
    while i < n
        invariant
            n == levels@.len(),
            i <= n,
            out@ == levels@.take(i as int).filter(|x: MatchLevel| filter.keeps(x)),
        decreases n - i,
    {
        let x = levels[i];
        proof {
            assert(levels@.take(i + 1) == levels@.take(i as int).push(x));
            levels@.take(i as int).lemma_filter_push(x, |x: MatchLevel| filter.keeps(x));
        }
        let keep = match filter {
            LevelFilter::Except(level) => x != *level,
            LevelFilter::Exact => x.exact_phase(),
            LevelFilter::Fuzzy => x.fuzzy_phase(),
        };
        if keep {
            out.push(x);
        }
        i += 1;
    }
    assert(levels@.take(n as int) == levels@);
    out
}

/// The core rules L1 to L7, in order, as a list.
fn core_level_list() -> (r: Vec<MatchLevel>)
    ensures
        r@ == MatchLevel::core_seq(),
{
    let levels = MatchLevel::core_levels();
    let mut out: Vec<MatchLevel> = Vec::new();
    let mut i: usize = 0;
    while i < 7
        invariant
            i <= 7,
            levels@ == MatchLevel::core_seq(),
            out@ == levels@.take(i as int),
        decreases 7 - i,
    {
        out.push(levels[i]);
        assert(levels@.take(i + 1) == levels@.take(i as int).push(levels@[i as int]));
        i += 1;
    }
    assert(levels@.take(7) == levels@);
    out
}

/// What a job is asked to do: the mode, where the tables are, how their
/// columns map, and which rules run.
#[derive(Debug, Clone)]
pub struct AppConfig {
    pub mode: ProcessMode,
    pub consolidation: ConsolidationMode,
    pub source1: DbConfig,
    pub source2: DbConfig,
    pub destination: DbConfig,
    pub source1_fields: FieldMap,
    pub source2_fields: FieldMap,
    pub selected_levels: Vec<MatchLevel>,
    pub rebuild_base_index: bool,
}

/// Holds of every rule but `level`.
pub open spec fn other_than(level: MatchLevel) -> spec_fn(MatchLevel) -> bool {
    |x: MatchLevel| x != level
}

/// Holds of the exact rules.
pub open spec fn exact_rule() -> spec_fn(MatchLevel) -> bool {
    |x: MatchLevel| x.is_exact()
}

/// Holds of the fuzzy rules.
pub open spec fn fuzzy_rule() -> spec_fn(MatchLevel) -> bool {
    |x: MatchLevel| !x.is_exact()
}

/// The rule list after `level` is switched on or off in `levels`: added at
/// the end when switched on and absent, every occurrence removed when
/// switched off; then sorted.
pub open spec fn levels_after_set(levels: Seq<MatchLevel>, level: MatchLevel, enabled: bool) -> Seq<MatchLevel> {
    if enabled && !levels.contains(level) {
        levels.push(level)
    } else if !enabled {
        levels.filter(other_than(level))
    } else {
        levels
    }
}

impl Default for AppConfig {
    fn default() -> (r: Self)
        ensures
            r.mode == ProcessMode::NameMatchOnly,
            r.consolidation == ConsolidationMode::ExactOnly,
            r.source1.is_default(),
            r.source2.is_default(),
            r.destination.host@ == "127.0.0.1"@,
            r.destination.port == 3306,
            r.destination.user@ == "root"@,
            r.destination.password@ == Seq::<char>::empty(),
            r.destination.database@ == "name_matching"@,
            r.destination.table@ == Seq::<char>::empty(),
            r.source1_fields.is_default(),
            r.source2_fields.is_default(),
            r.selected_levels@ == MatchLevel::core_seq(),
            !r.rebuild_base_index,
    {
        let mut destination = DbConfig::default();
        destination.database = String::from_str("name_matching");
        AppConfig {
            mode: ProcessMode::NameMatchOnly,
            consolidation: ConsolidationMode::ExactOnly,
            source1: DbConfig::default(),
            source2: DbConfig::default(),
            destination,
            source1_fields: FieldMap::default(),
            source2_fields: FieldMap::default(),
            selected_levels: core_level_list(),
            rebuild_base_index: false,
        }
    }
}

impl AppConfig {
    /// Whether `level` is selected.
    pub fn selected(&self, level: MatchLevel) -> (r: bool)
        ensures
            r == self.selected_levels@.contains(level),
    {
        contains_level(&self.selected_levels, level)
    }

    /// Switches `level` on or off; the list stays sorted by rule number.
    pub fn set_level(&mut self, level: MatchLevel, enabled: bool)
        ensures
            sorted_by_number(final(self).selected_levels@),
            final(self).selected_levels@.to_multiset() == levels_after_set(
                old(self).selected_levels@,
                level,
                enabled,
            ).to_multiset(),
            final(self).selected_levels@.contains(level) == enabled,
            forall|other: MatchLevel|
                other != level ==> #[trigger] final(self).selected_levels@.contains(other)
                    == old(self).selected_levels@.contains(other),
            old(self).selected_levels@.no_duplicates() ==> distinct_ascending(
                final(self).selected_levels@,
            ),
            final(self).mode == old(self).mode,
            final(self).consolidation == old(self).consolidation,
            final(self).source1 == old(self).source1,
            final(self).source2 == old(self).source2,
            final(self).destination == old(self).destination,
            final(self).source1_fields == old(self).source1_fields,
            final(self).source2_fields == old(self).source2_fields,
            final(self).rebuild_base_index == old(self).rebuild_base_index,
    {
        let ghost before = self.selected_levels@;
        if enabled && !self.selected(level) {
            self.selected_levels.push(level);
        } else if !enabled {
            let filter = LevelFilter::Except(level);
            let kept = filter_levels(&self.selected_levels, &filter);
            proof {
                assert((|x: MatchLevel| filter.keeps(x)) =~= other_than(level));
            }
            self.selected_levels = kept;
        }
        assert(self.selected_levels@ == levels_after_set(before, level, enabled));
        self.selected_levels = sort_by_number(&self.selected_levels);
        proof {
            lemma_set_level_result(before, level, enabled, self.selected_levels@);
        }
    }

    /// Forgets the passwords of the three connections; nothing else changes.
    pub fn clear_passwords(&mut self)
        ensures
            final(self).source1.password@ == Seq::<char>::empty(),
            final(self).source2.password@ == Seq::<char>::empty(),
            final(self).destination.password@ == Seq::<char>::empty(),
            final(self).source1.host == old(self).source1.host,
            final(self).source1.port == old(self).source1.port,
            final(self).source1.user == old(self).source1.user,
            final(self).source1.database == old(self).source1.database,
            final(self).source1.table == old(self).source1.table,
            final(self).source2.host == old(self).source2.host,
            final(self).source2.port == old(self).source2.port,
            final(self).source2.user == old(self).source2.user,
            final(self).source2.database == old(self).source2.database,
            final(self).source2.table == old(self).source2.table,
            final(self).destination.host == old(self).destination.host,
            final(self).destination.port == old(self).destination.port,
            final(self).destination.user == old(self).destination.user,
            final(self).destination.database == old(self).destination.database,
            final(self).destination.table == old(self).destination.table,
            final(self).mode == old(self).mode,
            final(self).consolidation == old(self).consolidation,
            final(self).source1_fields == old(self).source1_fields,
            final(self).source2_fields == old(self).source2_fields,
            final(self).selected_levels == old(self).selected_levels,
            final(self).rebuild_base_index == old(self).rebuild_base_index,
    {
        self.source1.password = String::new();
        self.source2.password = String::new();
        self.destination.password = String::new();
    }

    /// Selects exactly the core rules L1 to L7.
    pub fn reset_core_levels(&mut self)
        ensures
            final(self).selected_levels@ == MatchLevel::core_seq(),
            final(self).mode == old(self).mode,
            final(self).consolidation == old(self).consolidation,
            final(self).source1 == old(self).source1,
            final(self).source2 == old(self).source2,
            final(self).destination == old(self).destination,
            final(self).source1_fields == old(self).source1_fields,
            final(self).source2_fields == old(self).source2_fields,
            final(self).rebuild_base_index == old(self).rebuild_base_index,
    {
        self.selected_levels = core_level_list();
    }

    /// The selected exact rules, sorted by rule number.
    pub fn exact_plan(&self) -> (r: Vec<MatchLevel>)
        ensures
            sorted_by_number(r@),
            r@.to_multiset() == self.selected_levels@.filter(exact_rule()).to_multiset(),
    {
        let filter = LevelFilter::Exact;
        let kept = filter_levels(&self.selected_levels, &filter);
        proof {
            assert((|x: MatchLevel| filter.keeps(x)) =~= exact_rule());
        }
        sort_by_number(&kept)
    }

    /// The selected fuzzy rules, sorted by rule number.
    pub fn fuzzy_plan(&self) -> (r: Vec<MatchLevel>)
        ensures
            sorted_by_number(r@),
            r@.to_multiset() == self.selected_levels@.filter(fuzzy_rule()).to_multiset(),
    {
        let filter = LevelFilter::Fuzzy;
        let kept = filter_levels(&self.selected_levels, &filter);
        proof {
            assert((|x: MatchLevel| filter.keeps(x)) =~= fuzzy_rule());
        }
        sort_by_number(&kept)
    }
}

/// Rule numbers run from 1 to 17 and tell the rules apart.
pub proof fn lemma_level_numbers(a: MatchLevel, b: MatchLevel)
    ensures
        1 <= a.number_of() <= 17,
        a.number_of() == b.number_of() ==> a == b,
{
}

/// The rules enabled by default are exactly the core rules L1 to L7.
pub proof fn lemma_default_levels_are_core(level: MatchLevel)
    ensures
        (level.number_of() <= 7) == MatchLevel::core_seq().contains(level),
        MatchLevel::core_seq().contains(level) || MatchLevel::advanced_seq().contains(level),
{
    let core = MatchLevel::core_seq();
    let adv = MatchLevel::advanced_seq();
    match level {
        MatchLevel::L01 => assert(core[0] == level),
        MatchLevel::L02 => assert(core[1] == level),
        MatchLevel::L03 => assert(core[2] == level),
        MatchLevel::L04 => assert(core[3] == level),
        MatchLevel::L05 => assert(core[4] == level),
        MatchLevel::L06 => assert(core[5] == level),
        MatchLevel::L07 => assert(core[6] == level),
        MatchLevel::L08 => assert(adv[0] == level),
        MatchLevel::L09 => assert(adv[1] == level),
        MatchLevel::L10 => assert(adv[2] == level),
        MatchLevel::L11 => assert(adv[3] == level),
        MatchLevel::L12 => assert(adv[4] == level),
        MatchLevel::L13 => assert(adv[5] == level),
        MatchLevel::L14 => assert(adv[6] == level),
        MatchLevel::L15 => assert(adv[7] == level),
        MatchLevel::L16 => assert(adv[8] == level),
        MatchLevel::L17 => assert(adv[9] == level),
    }
    if level.number_of() > 7 {
        assert forall|i: int| 0 <= i < core.len() implies core[i] != level by {
            assert(core[i].number_of() <= 7);
        }
    }
}

/// Every mode does some work: it deduplicates, matches, or both.
pub proof fn lemma_mode_does_work(mode: ProcessMode)
    ensures
        !(mode is DedupOnly) || !(mode is NameMatchOnly),
{
}

/// The exact plan and the fuzzy plan split the selected rules between them:
/// together they hold each selected rule as often as the selection does.
pub proof fn lemma_plans_partition(levels: Seq<MatchLevel>)
    ensures
        levels.filter(exact_rule()).to_multiset().add(levels.filter(fuzzy_rule()).to_multiset())
            == levels.to_multiset(),
    decreases levels.len(),
{
    if levels.len() == 0 {
        assert(levels.filter(exact_rule()) =~= levels);
        assert(levels.filter(fuzzy_rule()) =~= levels);
    } else {
        let init = levels.drop_last();
        let x = levels.last();
        assert(init.push(x) == levels);
        lemma_plans_partition(init);
        init.lemma_filter_push(x, exact_rule());
        init.lemma_filter_push(x, fuzzy_rule());
        assert(levels.filter(exact_rule()).to_multiset().add(levels.filter(fuzzy_rule()).to_multiset())
            =~= levels.to_multiset());
    }
}

/// Switching a rule on selects it, switching it off deselects it, and no
/// other rule's selection changes.
pub proof fn lemma_set_level_selection(
    levels: Seq<MatchLevel>,
    level: MatchLevel,
    enabled: bool,
    other: MatchLevel,
)
    requires
        other != level,
    ensures
        levels_after_set(levels, level, enabled).contains(level) == enabled,
        levels_after_set(levels, level, enabled).contains(other) == levels.contains(other),
{
    let after = levels_after_set(levels, level, enabled);
    if enabled && !levels.contains(level) {
        assert(after.last() == level);
        if levels.contains(other) {
            let k = choose|k: int| 0 <= k < levels.len() && levels[k] == other;
            assert(after[k] == other);
        }
        if after.contains(other) {
            let k = choose|k: int| 0 <= k < after.len() && after[k] == other;
            assert(levels[k] == other);
        }
    } else if !enabled {
        let f = other_than(level);
        if after.contains(level) {
            let k = choose|k: int| 0 <= k < after.len() && after[k] == level;
            levels.lemma_filter_pred(f, k);
        }
        if levels.contains(other) {
            let k = choose|k: int| 0 <= k < levels.len() && levels[k] == other;
            levels.lemma_filter_contains(f, k);
        }
        if after.contains(other) {
            levels.lemma_filter_contains_rev(f, other);
        }
    }
}

/// A rule list sorted by number is the only sorted arrangement of its
/// rules: two sorted lists holding the same rules equally often are equal.
pub proof fn lemma_sorted_unique(a: Seq<MatchLevel>, b: Seq<MatchLevel>)
    requires
        sorted_by_number(a),
        sorted_by_number(b),
        a.to_multiset() == b.to_multiset(),
    ensures
        a == b,
    decreases a.len(),
{
    vstd::seq_lib::to_multiset_len(a);
    vstd::seq_lib::to_multiset_len(b);
    if a.len() > 0 {
        let x = a.last();
        let y = b.last();
        // the last element is the one with the largest number
        assert(a.to_multiset().count(y) > 0) by {
            vstd::seq_lib::to_multiset_contains(b, y);
            assert(b[b.len() - 1] == y);
            vstd::seq_lib::to_multiset_contains(a, y);
        }
        assert(b.to_multiset().count(x) > 0) by {
            assert(a[a.len() - 1] == x);
            vstd::seq_lib::to_multiset_contains(a, x);
        }
        vstd::seq_lib::to_multiset_contains(a, y);
        vstd::seq_lib::to_multiset_contains(b, x);
        let i = choose|i: int| 0 <= i < a.len() && a[i] == y;
        let j = choose|j: int| 0 <= j < b.len() && b[j] == x;
        assert(y.number_of() <= x.number_of());
        assert(x.number_of() <= y.number_of());
        lemma_level_numbers(x, y);
        assert(x == y);
        let ai = a.drop_last();
        let bi = b.drop_last();
        assert(a == ai.push(x));
        assert(b == bi.push(x));
        vstd::seq_lib::to_multiset_build(ai, x);
        vstd::seq_lib::to_multiset_build(bi, x);
        assert(ai.to_multiset() =~= bi.to_multiset()) by {
            assert(ai.to_multiset().insert(x) == bi.to_multiset().insert(x));
            assert forall|e: MatchLevel| ai.to_multiset().count(e) == bi.to_multiset().count(e) by {
                assert(ai.to_multiset().insert(x).count(e) == bi.to_multiset().insert(x).count(e));
            }
        }
        lemma_sorted_unique(ai, bi);
    }
}

/// Splitting the CPUs: at least one worker, at most two cores kept back,
/// and workers plus reserve make up all CPUs (two on a single-CPU machine).
pub proof fn lemma_worker_split(cpus: nat)
    ensures
        worker_split_of(cpus).0 >= 1,
        worker_split_of(cpus).1 <= 2,
        worker_split_of(cpus).0 + worker_split_of(cpus).1 == if cpus < 2 { 2 } else { cpus },
{
}

/// Whether `s` holds each rule at most once, in strictly increasing order of
/// rule number.
pub open spec fn distinct_ascending(s: Seq<MatchLevel>) -> bool {
    &&& s.no_duplicates()
    &&& forall|i: int, j: int| 0 <= i < j < s.len() ==> s[i].number_of() < s[j].number_of()
}

/// Keeping some rules of a list that holds each rule once gives a list that
/// holds each rule once.
proof fn lemma_filter_distinct(s: Seq<MatchLevel>, f: spec_fn(MatchLevel) -> bool)
    requires
        s.no_duplicates(),
    ensures
        s.filter(f).no_duplicates(),
    decreases s.len(),
{
    if s.len() > 0 {
        let init = s.drop_last();
        let x = s.last();
        assert(init.push(x) == s);
        assert(init.no_duplicates());
        lemma_filter_distinct(init, f);
        init.lemma_filter_push(x, f);
        if f(x) {
            if init.filter(f).contains(x) {
                init.lemma_filter_contains_rev(f, x);
                let k = choose|k: int| 0 <= k < init.len() && init[k] == x;
                assert(s[k] == s[s.len() - 1]);
            }
            let t = init.filter(f).push(x);
            assert forall|i: int, j: int| 0 <= i < t.len() && 0 <= j < t.len() && i != j implies t[i]
                != t[j] by {
                if i == t.len() - 1 {
                    assert(init.filter(f)[j] == t[j]);
                } else if j == t.len() - 1 {
                    assert(init.filter(f)[i] == t[i]);
                }
            }
        }
    }
}

/// Switching a rule on or off in a list that holds each rule once, then
/// sorting by number: the rule is selected exactly when switched on, every
/// other rule keeps its selection, and the list still holds each rule once,
/// in strictly increasing order of number.
pub proof fn lemma_set_level_result(
    levels: Seq<MatchLevel>,
    level: MatchLevel,
    enabled: bool,
    sorted: Seq<MatchLevel>,
)
    requires
        sorted_by_number(sorted),
        sorted.to_multiset() == levels_after_set(levels, level, enabled).to_multiset(),
    ensures
        sorted.contains(level) == enabled,
        forall|other: MatchLevel|
            other != level ==> #[trigger] sorted.contains(other) == levels.contains(other),
        levels.no_duplicates() ==> distinct_ascending(sorted),
{
    let after = levels_after_set(levels, level, enabled);
    assert forall|x: MatchLevel| #[trigger] sorted.contains(x) == after.contains(x) by {
        vstd::seq_lib::to_multiset_contains(sorted, x);
        vstd::seq_lib::to_multiset_contains(after, x);
    }
    let some_other = if level is L01 { MatchLevel::L02 } else { MatchLevel::L01 };
    lemma_set_level_selection(levels, level, enabled, some_other);
    assert forall|other: MatchLevel| other != level implies #[trigger] sorted.contains(other)
        == levels.contains(other) by {
        lemma_set_level_selection(levels, level, enabled, other);
    }
    if levels.no_duplicates() {
        if enabled && !levels.contains(level) {
            assert forall|i: int, j: int|
                0 <= i < after.len() && 0 <= j < after.len() && i != j implies after[i]
                != after[j] by {
                if i == after.len() - 1 {
                    assert(levels[j] == after[j]);
                } else if j == after.len() - 1 {
                    assert(levels[i] == after[i]);
                }
            }
        } else if !enabled {
            lemma_filter_distinct(levels, other_than(level));
        }
        assert(after.no_duplicates());
        after.lemma_multiset_has_no_duplicates();
        assert forall|x: MatchLevel| sorted.to_multiset().contains(x) implies sorted.to_multiset().count(
            x,
        ) == 1 by {
            assert(after.to_multiset().contains(x));
        }
        sorted.lemma_multiset_has_no_duplicates_conv();
        assert forall|i: int, j: int| 0 <= i < j < sorted.len() implies sorted[i].number_of()
            < sorted[j].number_of() by {
            lemma_level_numbers(sorted[i], sorted[j]);
        }
    }
}

} // verus!
