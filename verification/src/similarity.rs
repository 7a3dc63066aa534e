use std::collections::BTreeMap;
use vstd::prelude::*;

use crate::normalize::{
    middle_relation, middle_relation_of, normalize, normalized, uppercase_chars, uppercase_of,
    MiddleRelation,
};
use crate::model::MatchLevel;
use crate::text::chars_of;

verus! {

/// A base record proposed as the match of a source record, with the names
/// that are scored.
#[derive(Debug, Clone)]
pub struct Candidate {
    pub source_row_id: u64,
    pub source_record_id: String,
    pub base_row_id: u64,
    pub base_record_id: String,
    pub source_first_name: String,
    pub source_middle_name: String,
    pub source_last_name: String,
    pub base_first_name: String,
    pub base_middle_name: String,
    pub base_last_name: String,
    pub candidate_pool_count: u32,
}

impl Candidate {
    /// Whether the source record had more candidates than `cap`, so that
    /// some were never scored.
    pub fn is_truncated(&self, cap: usize) -> (r: bool)
        ensures
            r == (self.candidate_pool_count > cap),
    {
        self.candidate_pool_count as usize > cap
    }
}

/// The Levenshtein distance: the least number of single-character
/// insertions, deletions and substitutions that turn `a` into `b`.
pub open spec fn edit_distance(a: Seq<char>, b: Seq<char>) -> nat
    decreases a.len() + b.len(),
{
    if a.len() == 0 {
        b.len()
    } else if b.len() == 0 {
        a.len()
    } else {
        let substitute = edit_distance(a.drop_last(), b.drop_last()) + if a.last() == b.last() {
            0nat
        } else {
            1nat
        };
        let delete = edit_distance(a.drop_last(), b) + 1;
        let insert = edit_distance(a, b.drop_last()) + 1;
        if substitute <= delete && substitute <= insert {
            substitute
        } else if delete <= insert {
            delete
        } else {
            insert
        }
    }
}

/// `strsim::levenshtein`. Trusted: as strsim documents, the result is the
/// least number of insertions, deletions and substitutions of characters
/// that turn `a` into `b` (`edit_distance`).
#[verifier::external_body]
fn levenshtein(a: &str, b: &str) -> (r: usize)
    ensures
        r == edit_distance(a@, b@),
{
    strsim::levenshtein(a, b)
}

/// What the edit-distance similarity of two names is computed from.
#[derive(Debug, Clone, Copy, PartialEq, Eq, Structural)]
pub enum EditComparison {
    /// Both names are empty once normalized.
    BothEmpty,
    /// Exactly one name is empty once normalized.
    OneEmpty,
    /// Both names have characters: their edit distance and the length of
    /// the longer one, in characters.
    Compared { distance: usize, longest: usize },
}

/// The edit comparison of the normalized names `a` and `b`.
pub open spec fn edit_comparison_of(a: Seq<char>, b: Seq<char>) -> EditComparison {
    let na = normalized(a);
    let nb = normalized(b);
    if na.len() == 0 && nb.len() == 0 {
        EditComparison::BothEmpty
    } else if na.len() == 0 || nb.len() == 0 {
        EditComparison::OneEmpty
    } else {
        EditComparison::Compared {
            distance: edit_distance(na, nb) as usize,
            longest: if na.len() >= nb.len() { na.len() as usize } else { nb.len() as usize },
        }
    }
}

/// Compares the normalized names `a` and `b` by edit distance (see
/// `edit_comparison_of`).
pub fn edit_comparison(a: &str, b: &str) -> (r: EditComparison)
    ensures
        r == edit_comparison_of(a@, b@),
{
    let na = normalize(a);
    let nb = normalize(b);
    let ca = chars_of(na.as_str());
    let cb = chars_of(nb.as_str());
    if ca.len() == 0 && cb.len() == 0 {
        return EditComparison::BothEmpty;
    }
    if ca.len() == 0 || cb.len() == 0 {
        return EditComparison::OneEmpty;
    }
    let distance = levenshtein(na.as_str(), nb.as_str());
    let longest = if ca.len() >= cb.len() { ca.len() } else { cb.len() };
    EditComparison::Compared { distance, longest }
}

/// The edit distance is at most the length of the longer text, and zero
/// between a text and itself: the similarity it gives lies between 0 and
/// 100, and identical names score 100.
pub proof fn lemma_edit_distance_bounds(a: Seq<char>, b: Seq<char>)
    ensures
        edit_distance(a, b) <= if a.len() >= b.len() { a.len() } else { b.len() },
        edit_distance(a, a) == 0,
    decreases a.len() + b.len(),
{
    if a.len() > 0 && b.len() > 0 {
        lemma_edit_distance_bounds(a.drop_last(), b.drop_last());
        lemma_edit_distance_bounds(a.drop_last(), b);
        lemma_edit_distance_bounds(a, b.drop_last());
    }
    lemma_edit_distance_self(a);
}

proof fn lemma_edit_distance_self(a: Seq<char>)
    ensures
        edit_distance(a, a) == 0,
    decreases a.len(),
{
    if a.len() > 0 {
        lemma_edit_distance_self(a.drop_last());
    }
}

/// The edit distance does not depend on which text comes first.
pub proof fn lemma_edit_distance_symmetric(a: Seq<char>, b: Seq<char>)
    ensures
        edit_distance(a, b) == edit_distance(b, a),
    decreases a.len() + b.len(),
{
    if a.len() > 0 && b.len() > 0 {
        lemma_edit_distance_symmetric(a.drop_last(), b.drop_last());
        lemma_edit_distance_symmetric(a.drop_last(), b);
        lemma_edit_distance_symmetric(a, b.drop_last());
    }
}

/// Whether two middle names, both given and different once normalized,
/// rule out a match that ignores the middle name.
pub open spec fn middle_names_conflict_of(a: Seq<char>, b: Seq<char>) -> bool {
    normalized(a).len() > 0 && normalized(b).len() > 0 && normalized(a) != normalized(b)
}

/// Whether the middle names `a` and `b` conflict (see
/// `middle_names_conflict_of`).
pub fn middle_names_conflict(a: &str, b: &str) -> (r: bool)
    ensures
        r == middle_names_conflict_of(a@, b@),
{
    let na = chars_of(normalize(a).as_str());
    let nb = chars_of(normalize(b).as_str());
    if na.len() == 0 || nb.len() == 0 {
        return false;
    }
    if na.len() != nb.len() {
        return true;
    }
    let n = na.len();
    let mut i: usize = 0;
    while i < n
        invariant
            n == na@.len(),
            n == nb@.len(),
            na@ == normalized(a@),
            nb@ == normalized(b@),
            n > 0,
            i <= n,
            forall|k: int| 0 <= k < i ==> na@[k] == nb@[k],
        decreases n - i,
    {
        if na[i] != nb[i] {
            assert(na@[i as int] != nb@[i as int]);
            return true;
        }
        i += 1;
    }
    assert(na@ == nb@);
    false
}

/// The number of `Fuzzy` relations in `rels`.
pub open spec fn fuzzy_count(rels: Seq<MiddleRelation>) -> nat
    decreases rels.len(),
{
    if rels.len() == 0 {
        0
    } else if rels.last() is Fuzzy {
        fuzzy_count(rels.drop_last()) + 1
    } else {
        fuzzy_count(rels.drop_last())
    }
}

/// The middle-name work of a batch of candidates: the relation of each
/// candidate's middle names, and the middle-name pairs that need fuzzy
/// scoring, each candidate pointing at its pair.
pub struct MiddlePlan {
    pub relations: Vec<MiddleRelation>,
    pub fuzzy_index: Vec<Option<usize>>,
    pub fuzzy_pairs: Vec<(String, String)>,
}

impl MiddlePlan {
    /// Whether the plan is the one for `candidates`: relation `i` is that of
    /// candidate `i`'s base and source middle names; a candidate with a
    /// `Fuzzy` relation points at the pair numbered by how many fuzzy
    /// candidates come before it, and that pair holds its base and source
    /// middle names; other candidates point nowhere.
    pub open spec fn plans(&self, candidates: Seq<Candidate>) -> bool {
        &&& self.relations@.len() == candidates.len()
        &&& self.fuzzy_index@.len() == candidates.len()
        &&& self.fuzzy_pairs@.len() == fuzzy_count(self.relations@)
        &&& forall|i: int|
            0 <= i < candidates.len() ==> #[trigger] self.relations@[i] == middle_relation_of(
                candidates[i].base_middle_name@,
                candidates[i].source_middle_name@,
            )
        &&& forall|i: int|
            0 <= i < candidates.len() ==> #[trigger] self.fuzzy_index@[i] == if self.relations@[i] is Fuzzy {
                Some(fuzzy_count(self.relations@.take(i)) as usize)
            } else {
                None
            }
        &&& forall|i: int|
            #![trigger self.relations@[i]]
            0 <= i < candidates.len() && self.relations@[i] is Fuzzy ==> {
                &&& fuzzy_count(self.relations@.take(i)) < self.fuzzy_pairs@.len()
                &&& self.fuzzy_pairs@[fuzzy_count(self.relations@.take(i)) as int].0@
                    == candidates[i].base_middle_name@
                &&& self.fuzzy_pairs@[fuzzy_count(self.relations@.take(i)) as int].1@
                    == candidates[i].source_middle_name@
            }
    }
}

/// The middle-name plan of `candidates` (see `MiddlePlan::plans`).
pub fn middle_plan(candidates: &[Candidate]) -> (r: MiddlePlan)
    ensures
        r.plans(candidates@),
{
    let mut relations: Vec<MiddleRelation> = Vec::new();
    let mut fuzzy_index: Vec<Option<usize>> = Vec::new();
    let mut fuzzy_pairs: Vec<(String, String)> = Vec::new();
    let n = candidates.len();
    let mut i: usize = 0;
    while i < n
        invariant
            n == candidates@.len(),
            i <= n,
            relations@.len() == i,
            fuzzy_index@.len() == i,
            fuzzy_pairs@.len() == fuzzy_count(relations@),
            fuzzy_pairs@.len() <= i,
            forall|j: int|
                0 <= j < i ==> #[trigger] relations@[j] == middle_relation_of(
                    candidates@[j].base_middle_name@,
                    candidates@[j].source_middle_name@,
                ),
            forall|j: int|
                0 <= j < i ==> #[trigger] fuzzy_index@[j] == if relations@[j] is Fuzzy {
                    Some(fuzzy_count(relations@.take(j)) as usize)
                } else {
                    None
                },
            forall|j: int|
                #![trigger relations@[j]]
                0 <= j < i && relations@[j] is Fuzzy ==> {
                    &&& fuzzy_count(relations@.take(j)) < fuzzy_pairs@.len()
                    &&& fuzzy_pairs@[fuzzy_count(relations@.take(j)) as int].0@
                        == candidates@[j].base_middle_name@
                    &&& fuzzy_pairs@[fuzzy_count(relations@.take(j)) as int].1@
                        == candidates@[j].source_middle_name@
                },
        decreases n - i,
    {
        let c = &candidates[i];
        let rel = middle_relation(c.base_middle_name.as_str(), c.source_middle_name.as_str());
        let ghost old_rel = relations@;
        let ghost old_pairs = fuzzy_pairs@;
        proof {
            assert(old_rel.take(i as int) == old_rel);
        }
        relations.push(rel);
        proof {
            assert(relations@.drop_last() == old_rel);
            assert(relations@.take(i as int) == old_rel);
            assert forall|j: int| 0 <= j < i implies relations@.take(j) == old_rel.take(j) by {}
        }
        if matches!(rel, MiddleRelation::Fuzzy) {
            let idx = fuzzy_pairs.len();
            fuzzy_pairs.push((c.base_middle_name.clone(), c.source_middle_name.clone()));
            fuzzy_index.push(Some(idx));
            proof {
                assert forall|j: int|
                    #![trigger relations@[j]]
                    0 <= j < i && relations@[j] is Fuzzy implies {
                    &&& fuzzy_count(relations@.take(j)) < fuzzy_pairs@.len()
                    &&& fuzzy_pairs@[fuzzy_count(relations@.take(j)) as int].0@
                        == candidates@[j].base_middle_name@
                    &&& fuzzy_pairs@[fuzzy_count(relations@.take(j)) as int].1@
                        == candidates@[j].source_middle_name@
                } by {
                    assert(relations@.take(j) == old_rel.take(j));
                    assert(old_rel[j] == relations@[j]);
                }
            }
        } else {
            fuzzy_index.push(None);
        }
        i += 1;
    }
    MiddlePlan { relations, fuzzy_index, fuzzy_pairs }
}

/// The uppercase form of `s`, character by character.
pub open spec fn uppercased(s: Seq<char>) -> Seq<char>
    decreases s.len(),
{
    if s.len() == 0 {
        seq![]
    } else {
        uppercased(s.drop_last()) + uppercase_of(s.last())
    }
}

/// The characters of `s` uppercased.
fn uppercase_text(s: &str) -> (r: Vec<char>)
    ensures
        r@ == uppercased(s@),
{
    let chars = chars_of(s);
    let mut out: Vec<char> = Vec::new();
    let n = chars.len();
    let mut i: usize = 0;
    while i < n
        invariant
            n == chars@.len(),
            i <= n,
            out@ == uppercased(chars@.take(i as int)),
        decreases n - i,
    {
        let up = uppercase_chars(chars[i]);
        assert(chars@.take(i + 1).drop_last() == chars@.take(i as int));
        let ghost start = out@;
        let mut j: usize = 0;
        while j < up.len()
            invariant
                j <= up@.len(),
                out@ == start + up@.take(j as int),
            decreases up@.len() - j,
        {
            out.push(up[j]);
            assert(up@.take(j + 1) == up@.take(j as int).push(up@[j as int]));
            j += 1;
        }
        assert(up@.take(up@.len() as int) == up@);
        i += 1;
    }
    assert(chars@.take(n as int) == chars@);
    out
}

/// The most characters of one name that the GPU kernel compares.
pub const GPU_MAX_CHARS: usize = 64;

/// The number of words that one pair of names takes in the GPU input.
pub const GPU_STRIDE: usize = 130;

/// At most the first 64 characters of the uppercased `s`.
pub open spec fn gpu_chars(s: Seq<char>) -> Seq<char> {
    let u = uppercased(s);
    u.take(if u.len() < 64 { u.len() as int } else { 64 })
}

/// The character codes of `s`, padded with zeros to 64 words.
pub open spec fn gpu_codes(s: Seq<char>) -> Seq<u32> {
    s.map_values(|c: char| c as u32) + Seq::new((64 - s.len()) as nat, |i: int| 0u32)
}

/// The 130 words of one pair in the GPU input: the two lengths, then the
/// codes of each name, each padded to 64 words.
pub open spec fn gpu_block(a: Seq<char>, b: Seq<char>) -> Seq<u32> {
    let ca = gpu_chars(a);
    let cb = gpu_chars(b);
    seq![ca.len() as u32, cb.len() as u32] + gpu_codes(ca) + gpu_codes(cb)
}

/// The GPU input for `pairs`: one block after another.
pub open spec fn gpu_input(pairs: Seq<(String, String)>) -> Seq<u32>
    decreases pairs.len(),
{
    if pairs.len() == 0 {
        seq![]
    } else {
        gpu_input(pairs.drop_last()) + gpu_block(pairs.last().0@, pairs.last().1@)
    }
}

/// Appends the padded codes of `s` (at most 64 characters) to `out`.
fn push_codes(out: &mut Vec<u32>, s: &Vec<char>)
    requires
        s@.len() <= 64,
    ensures
        final(out)@ == old(out)@ + gpu_codes(s@),
{
    let ghost start = out@;
    let mut i: usize = 0;
    while i < 64
        invariant
            s@.len() <= 64,
            i <= 64,
            out@.len() == start.len() + i,
            forall|k: int| 0 <= k < start.len() ==> out@[k] == start[k],
            forall|j: int|
                start.len() <= j < out@.len() ==> #[trigger] out@[j] == if j - start.len() < s@.len() {
                    s@[j - start.len()] as u32
                } else {
                    0u32
                },
        decreases 64 - i,
    {
        let ghost before = out@;
        if i < s.len() {
            out.push(s[i] as u32);
        } else {
            out.push(0);
        }
        assert(out@[start.len() + i] == if i < s@.len() {
            s@[i as int] as u32
        } else {
            0u32
        });
        i += 1;
    }
    let ghost codes = gpu_codes(s@);
    assert forall|k: int| 0 <= k < 64 implies codes[k] == if k < s@.len() {
        s@[k] as u32
    } else {
        0u32
    } by {
        if k < s@.len() {
            assert(codes[k] == s@.map_values(|c: char| c as u32)[k]);
        }
    }
    assert(out@ =~= start + gpu_codes(s@));
}

/// At most the first 64 uppercased characters of `s`.
fn gpu_text(s: &str) -> (r: Vec<char>)
    ensures
        r@ == gpu_chars(s@),
{
    let u = uppercase_text(s);
    let k = if u.len() < 64 { u.len() } else { 64 };
    let mut out: Vec<char> = Vec::new();
    let mut i: usize = 0;
    while i < k
        invariant
            k <= u@.len(),
            i <= k,
            out@ == u@.take(i as int),
        decreases k - i,
    {
        out.push(u[i]);
        assert(u@.take(i + 1) == u@.take(i as int).push(u@[i as int]));
        i += 1;
    }
    out
}

/// The input that the GPU edit-distance kernel reads for `pairs` (see
/// `gpu_input`).
pub fn pack_gpu_pairs(pairs: &[(String, String)]) -> (r: Vec<u32>)
    ensures
        r@ == gpu_input(pairs@),
{
    let mut out: Vec<u32> = Vec::new();
    let n = pairs.len();
    let mut i: usize = 0;
    while i < n
        invariant
            n == pairs@.len(),
            i <= n,
            out@ == gpu_input(pairs@.take(i as int)),
        decreases n - i,
    {
        let ca = gpu_text(pairs[i].0.as_str());
        let cb = gpu_text(pairs[i].1.as_str());
        let ghost start = out@;
        out.push(ca.len() as u32);
        out.push(cb.len() as u32);
        push_codes(&mut out, &ca);
        push_codes(&mut out, &cb);
        proof {
            assert(pairs@.take(i + 1).drop_last() == pairs@.take(i as int));
            assert(pairs@.take(i + 1).last() == pairs@[i as int]);
            assert(out@ =~= start + gpu_block(pairs@[i as int].0@, pairs@[i as int].1@));
        }
        i += 1;
    }
    assert(pairs@.take(n as int) == pairs@);
    out
}

/// Whether a candidate may be accepted at fuzzy level `level` at all, before
/// its scores are looked at: L6 ignores middle names but never overrides two
/// given middle names that differ; L5, L7 and L15 never accept middle
/// initials that conflict; the other levels are not fuzzy and accept nothing
/// here.
pub open spec fn fuzzy_level_admits_of(level: MatchLevel, relation: MiddleRelation, middle_conflict: bool) -> bool {
    match level {
        MatchLevel::L06 => !middle_conflict,
        MatchLevel::L05 | MatchLevel::L07 | MatchLevel::L15 => !(relation is InitialConflict),
        _ => false,
    }
}

/// Whether a candidate may be accepted at fuzzy level `level` (see
/// `fuzzy_level_admits_of`).
pub fn fuzzy_level_admits(level: MatchLevel, relation: MiddleRelation, middle_conflict: bool) -> (r: bool)
    ensures
        r == fuzzy_level_admits_of(level, relation, middle_conflict),
{
    match level {
        MatchLevel::L06 => !middle_conflict,
        MatchLevel::L05 | MatchLevel::L07 | MatchLevel::L15 => !matches!(relation, MiddleRelation::InitialConflict),
        _ => false,
    }
}

/// No fuzzy level accepts a known middle-name conflict: conflicting
/// initials are refused at L5, L7 and L15, two different given middle names
/// at L6, and only the fuzzy levels admit candidates.
pub proof fn lemma_fuzzy_levels_respect_middle_conflicts(
    level: MatchLevel,
    relation: MiddleRelation,
    middle_conflict: bool,
)
    ensures
        relation is InitialConflict && !(level is L06) ==> !fuzzy_level_admits_of(
            level,
            relation,
            middle_conflict,
        ),
        middle_conflict && level is L06 ==> !fuzzy_level_admits_of(level, relation, middle_conflict),
        fuzzy_level_admits_of(level, relation, middle_conflict) ==> !level.is_exact(),
{
}

/// For two non-empty matching forms, the comparison reports their edit
/// distance and the length of the longer one: `longest` is at least each
/// length and equals one of them, the distance never exceeds it, equal forms
/// are at distance zero, and swapping the names changes nothing.
pub proof fn lemma_edit_comparison_longest(a: Seq<char>, b: Seq<char>)
    requires
        normalized(a).len() <= usize::MAX,
        normalized(b).len() <= usize::MAX,
    ensures
        edit_comparison_of(a, b) == edit_comparison_of(b, a),
        normalized(a).len() == 0 && normalized(b).len() == 0 <==> edit_comparison_of(a, b) is BothEmpty,
        (normalized(a).len() == 0) != (normalized(b).len() == 0) <==> edit_comparison_of(a, b) is OneEmpty,
        edit_comparison_of(a, b) matches EditComparison::Compared { distance, longest } ==> {
            &&& normalized(a).len() > 0 && normalized(b).len() > 0
            &&& longest >= normalized(a).len()
            &&& longest >= normalized(b).len()
            &&& (longest == normalized(a).len() || longest == normalized(b).len())
            &&& distance <= longest
            &&& distance == edit_distance(normalized(a), normalized(b))
            &&& (normalized(a) == normalized(b) ==> distance == 0)
        },
{
    let na = normalized(a);
    let nb = normalized(b);
    lemma_edit_distance_symmetric(na, nb);
    lemma_edit_distance_bounds(na, nb);
    lemma_edit_distance_bounds(nb, na);
}

/// Two middle names conflict exactly when both are given and their
/// matching forms differ: a difference at any position, or in length,
/// makes a conflict; a missing name never conflicts; a name never conflicts
/// with itself; and the order of the two names does not matter.
pub proof fn lemma_middle_names_conflict_law(a: Seq<char>, b: Seq<char>)
    ensures
        ({
            let x = normalized(a);
            let y = normalized(b);
            &&& forall|i: int|
                0 <= i < x.len() && i < y.len() && x[i] != y[i] ==> middle_names_conflict_of(a, b)
            &&& x.len() > 0 && y.len() > 0 && x.len() != y.len() ==> middle_names_conflict_of(a, b)
            &&& x.len() == 0 || y.len() == 0 ==> !middle_names_conflict_of(a, b)
            &&& middle_names_conflict_of(a, b) ==> x != y
            &&& x == y ==> !middle_names_conflict_of(a, b)
            &&& middle_names_conflict_of(a, b) == middle_names_conflict_of(b, a)
        }),
{
    let x = normalized(a);
    let y = normalized(b);
    assert forall|i: int|
        0 <= i < x.len() && i < y.len() && x[i] != y[i] implies middle_names_conflict_of(a, b) by {
        assert(x != y);
    }
}

/// What each level admits before scores are read: L5, L7 and L15 admit a
/// candidate exactly when its middle relation is not a conflict of
/// initials, so one or both missing middle names are admitted; L6 admits
/// exactly when the full middle names do not conflict; no other level
/// admits anything.
pub proof fn lemma_fuzzy_level_admits_law(level: MatchLevel, relation: MiddleRelation, middle_conflict: bool)
    ensures
        level is L05 || level is L07 || level is L15 ==> (fuzzy_level_admits_of(
            level,
            relation,
            middle_conflict,
        ) <==> !(relation is InitialConflict)),
        (level is L05 || level is L07 || level is L15) && (relation is MissingOne
            || relation is MissingBoth) ==> fuzzy_level_admits_of(level, relation, middle_conflict),
        level is L06 ==> (fuzzy_level_admits_of(level, relation, middle_conflict) <==> !middle_conflict),
        !(level is L05 || level is L06 || level is L07 || level is L15) ==> !fuzzy_level_admits_of(
            level,
            relation,
            middle_conflict,
        ),
{
}

/// A candidate that passed its level, as the choice of a best match sees
/// it: its source and base rows, and a key that orders candidates as their
/// final scores do (a larger key is a better score).
#[derive(Debug, Clone, Copy, PartialEq, Eq, Structural)]
pub struct RankedScore {
    pub source_row_id: u64,
    pub base_row_id: u64,
    pub score_key: u32,
}

/// Whether candidate `i` of `s` ranks before candidate `j`: a better score
/// first, then the lower base row, then the one that came first.
pub open spec fn ranks_before(s: Seq<RankedScore>, i: int, j: int) -> bool {
    ||| s[i].score_key > s[j].score_key
    ||| s[i].score_key == s[j].score_key && s[i].base_row_id < s[j].base_row_id
    ||| s[i].score_key == s[j].score_key && s[i].base_row_id == s[j].base_row_id && i < j
}

/// Whether candidates `i` and `j` of `s` are for the same source record.
pub open spec fn same_source(s: Seq<RankedScore>, i: int, j: int) -> bool {
    s[i].source_row_id == s[j].source_row_id
}

/// Whether candidate `b` ranks before every other candidate of its source.
pub open spec fn best_of_source(s: Seq<RankedScore>, b: int) -> bool {
    &&& 0 <= b < s.len()
    &&& forall|j: int| 0 <= j < s.len() && j != b && same_source(s, b, j) ==> ranks_before(s, b, j)
}

/// Whether candidate `r` is the second of the source of `b`: it is another
/// candidate of that source and ranks before all the others but `b`.
pub open spec fn runner_up_of(s: Seq<RankedScore>, b: int, r: int) -> bool {
    &&& 0 <= r < s.len()
    &&& r != b
    &&& same_source(s, b, r)
    &&& forall|j: int|
        0 <= j < s.len() && j != b && j != r && same_source(s, b, j) ==> ranks_before(s, r, j)
}

/// The choice made for one source record: the index of its best candidate,
/// and of the second best where there is one.
#[derive(Debug, Clone, Copy, PartialEq, Eq, Structural)]
pub struct SourceDecision {
    pub best: usize,
    pub runner_up: Option<usize>,
}

/// Whether `d` is the choice for the source of its best candidate in `s`.
pub open spec fn decides(s: Seq<RankedScore>, d: SourceDecision) -> bool {
    &&& best_of_source(s, d.best as int)
    &&& match d.runner_up {
        Some(r) => runner_up_of(s, d.best as int, r as int),
        None => forall|j: int| 0 <= j < s.len() && j != d.best ==> !same_source(s, d.best as int, j),
    }
}

/// The source record of the choice `d`.
pub open spec fn decided_source(s: Seq<RankedScore>, d: SourceDecision) -> u64 {
    s[d.best as int].source_row_id
}

/// Whether some choice in `ds` is for source record `source`.
pub open spec fn decided(s: Seq<RankedScore>, ds: Seq<SourceDecision>, source: u64) -> bool {
    exists|k: int| 0 <= k < ds.len() && decided_source(s, #[trigger] ds[k]) == source
}

/// Whether candidate `i` ranks before candidate `j` (see `ranks_before`).
fn ranks_first(scores: &Vec<RankedScore>, i: usize, j: usize) -> (r: bool)
    requires
        i < scores@.len(),
        j < scores@.len(),
    ensures
        r == ranks_before(scores@, i as int, j as int),
{
    let a = scores[i];
    let b = scores[j];
    a.score_key > b.score_key || (a.score_key == b.score_key && (a.base_row_id < b.base_row_id || (
    a.base_row_id == b.base_row_id && i < j)))
}

/// Whether `d` is the choice for source `source` among the first `i`
/// candidates of `s`: its best candidate is one of them, of that source,
/// and ranks before the others of that source; its second ranks before all
/// but the best, or there is no other.
pub open spec fn decides_among(s: Seq<RankedScore>, d: SourceDecision, source: u64, i: int) -> bool {
    &&& d.best < i
    &&& s[d.best as int].source_row_id == source
    &&& forall|j: int|
        0 <= j < i && j != d.best && #[trigger] s[j].source_row_id == source ==> ranks_before(
            s,
            d.best as int,
            j,
        )
    &&& match d.runner_up {
        Some(r) => {
            &&& r < i
            &&& r != d.best
            &&& s[r as int].source_row_id == source
            &&& forall|j: int|
                0 <= j < i && j != d.best && j != r && #[trigger] s[j].source_row_id == source
                    ==> ranks_before(s, r as int, j)
        },
        None => forall|j: int| 0 <= j < i && j != d.best ==> #[trigger] s[j].source_row_id != source,
    }
}

/// Row ids are ordered as numbers: the keys of a `BTreeMap` over them come
/// out in increasing order.
proof fn lemma_row_ids_ordered()
    ensures
        vstd::std_specs::btree::key_obeys_cmp_spec::<u64>(),
        forall|s: Seq<u64>|
            #[trigger] vstd::std_specs::btree::increasing_seq(s) ==> forall|i: int, j: int|
                0 <= i < j < s.len() ==> s[i] < s[j],
{
    broadcast use vstd::std_specs::btree::group_btree_axioms;
    broadcast use vstd::laws_cmp::group_laws_cmp;

    assert forall|s: Seq<u64>| #[trigger] vstd::std_specs::btree::increasing_seq(s) implies forall|
        i: int,
        j: int,
    | 0 <= i < j < s.len() ==> s[i] < s[j] by {
        assert forall|i: int, j: int| 0 <= i < j < s.len() implies s[i] < s[j] by {
            assert(vstd::std_specs::cmp::OrdSpec::cmp_spec(&s[i], &s[j]) is Less);
        }
    }
}

/// The choice for the source of candidate `i`, once candidate `i` is taken
/// into account after `prev` (the choice among the earlier candidates of
/// that source, if any).
fn take_candidate(scores: &Vec<RankedScore>, i: usize, prev: Option<SourceDecision>) -> (d: SourceDecision)
    requires
        i < scores@.len(),
        match prev {
            Some(p) => decides_among(scores@, p, scores@[i as int].source_row_id, i as int),
            None => forall|j: int|
                0 <= j < i ==> #[trigger] scores@[j].source_row_id != scores@[i as int].source_row_id,
        },
    ensures
        decides_among(scores@, d, scores@[i as int].source_row_id, i + 1),
{
    let ghost s = scores@;
    let ghost k = scores@[i as int].source_row_id;
    match prev {
        None => SourceDecision { best: i, runner_up: None },
        Some(p) => {
            let b = p.best;
            if ranks_first(scores, i, b) {
                let d = SourceDecision { best: i, runner_up: Some(b) };
                assert forall|j: int|
                    0 <= j < i + 1 && j != i && #[trigger] s[j].source_row_id == k implies ranks_before(
                    s,
                    i as int,
                    j,
                ) by {
                    if j != b {
                        assert(ranks_before(s, b as int, j));
                    }
                }
                d
            } else {
                match p.runner_up {
                    None => SourceDecision { best: b, runner_up: Some(i) },
                    Some(x) => {
                        if ranks_first(scores, i, x) {
                            let d = SourceDecision { best: b, runner_up: Some(i) };
                            assert forall|j: int|
                                0 <= j < i + 1 && j != b && j != i && #[trigger] s[j].source_row_id
                                    == k implies ranks_before(s, i as int, j) by {
                                if j != x {
                                    assert(ranks_before(s, x as int, j));
                                }
                            }
                            d
                        } else {
                            p
                        }
                    },
                }
            }
        },
    }
}

/// The choice for each source record among the candidates that passed
/// their level: one per source, in increasing order of source row, each
/// naming the candidate that ranks first for that source and the one that
/// ranks second.
pub fn best_per_source(scores: &Vec<RankedScore>) -> (r: Vec<SourceDecision>)
    ensures
        forall|k: int| 0 <= k < r@.len() ==> decides(scores@, #[trigger] r@[k]),
        forall|k1: int, k2: int|
            0 <= k1 < k2 < r@.len() ==> decided_source(scores@, #[trigger] r@[k1])
                < decided_source(scores@, #[trigger] r@[k2]),
        forall|i: int| 0 <= i < scores@.len() ==> decided(scores@, r@, #[trigger] scores@[i].source_row_id),
{
    broadcast use vstd::std_specs::btree::group_btree_axioms;

    proof {
        lemma_row_ids_ordered();
    }
    let ghost s = scores@;
    let n = scores.len();
    let mut chosen: BTreeMap<u64, SourceDecision> = BTreeMap::new();
    let mut i: usize = 0;
    while i < n
        invariant
            n == s.len(),
            s == scores@,
            i <= n,
            forall|k: u64| #[trigger] chosen@.contains_key(k) ==> decides_among(s, chosen@[k], k, i as int),
            forall|j: int| 0 <= j < i ==> chosen@.contains_key(#[trigger] s[j].source_row_id),
        decreases n - i,
    {
        let source = scores[i].source_row_id;
        let prev = match chosen.get(&source) {
            Some(p) => Some(*p),
            None => None,
        };
        proof {
            if prev is None {
                assert forall|j: int| 0 <= j < i implies #[trigger] s[j].source_row_id != source by {
                    assert(chosen@.contains_key(s[j].source_row_id));
                }
            }
        }
        let d = take_candidate(scores, i, prev);
        let ghost before = chosen@;
        chosen.insert(source, d);
        proof {
            assert forall|k: u64| #[trigger] chosen@.contains_key(k) implies decides_among(
                s,
                chosen@[k],
                k,
                i + 1,
            ) by {
                if k != source {
                    let e = before[k];
                    assert(chosen@[k] == e);
                    assert forall|j: int| 0 <= j < i + 1 && j != e.best implies #[trigger] s[j].source_row_id
                        != k || j < i by {}
                }
            }
            assert forall|j: int| 0 <= j < i + 1 implies chosen@.contains_key(#[trigger] s[j].source_row_id) by {
                if j < i {
                    assert(before.contains_key(s[j].source_row_id));
                }
            }
        }
        i += 1;
    }
    let iter = chosen.iter();
    let ghost all = vstd::std_specs::iter::IteratorSpec::remaining(&iter);
    let ghost keys = all.map_values(|kv: (&u64, &SourceDecision)| *kv.0);
    let ghost vals = all.map_values(|kv: (&u64, &SourceDecision)| *kv.1);
    assert(forall|a: int, b: int| 0 <= a < b < keys.len() ==> keys[a] < keys[b]);
    let mut out: Vec<SourceDecision> = Vec::new();
    for kv in it: iter
        invariant
            it.seq() == all,
            vals == all.map_values(|kv: (&u64, &SourceDecision)| *kv.1),
            out@ == vals.take(it.index() as int),
    {
        out.push(*kv.1);
        assert(vals.take(it.index() + 1) == vals.take(it.index() as int).push(*kv.1));
    }
    assert(out@ == vals);
    assert forall|a: int| 0 <= a < out@.len() implies decided_source(s, #[trigger] out@[a]) == keys[a]
        && decides(s, out@[a]) by {
        assert(chosen@.contains_key(*all[a].0) && chosen@[*all[a].0] == *all[a].1);
        assert(decides_among(s, chosen@[keys[a]], keys[a], n as int));
    }
    assert forall|a: int, b: int| 0 <= a < b < out@.len() implies decided_source(
        s,
        #[trigger] out@[a],
    ) < decided_source(s, #[trigger] out@[b]) by {
        assert(decided_source(s, out@[a]) == keys[a]);
        assert(decided_source(s, out@[b]) == keys[b]);
    }
    assert forall|j: int| 0 <= j < s.len() implies decided(s, out@, #[trigger] s[j].source_row_id) by {
        let k = s[j].source_row_id;
        assert(chosen@.contains_key(k));
        assert(all.contains((&k, &chosen@[k])));
        let a = choose|a: int| 0 <= a < all.len() && all[a] == (&k, &chosen@[k]);
        assert(keys[a] == k);
        assert(decided_source(s, out@[a]) == keys[a]);
    }
    out
}

/// Why a chosen match is marked ambiguous.
#[derive(Debug, Clone, Copy, PartialEq, Eq, Structural)]
pub enum AmbiguityReason {
    /// The source record had more candidates than were scored.
    CandidateCap,
    /// The second best score came too close to the best.
    ScoreMargin,
}

impl AmbiguityReason {
    /// The code stored with the result.
    pub fn code(&self) -> (r: &'static str)
        ensures
            r@ == match self {
                AmbiguityReason::CandidateCap => "CANDIDATE_CAP"@,
                AmbiguityReason::ScoreMargin => "SCORE_MARGIN"@,
            },
    {
        match self {
            AmbiguityReason::CandidateCap => "CANDIDATE_CAP",
            AmbiguityReason::ScoreMargin => "SCORE_MARGIN",
        }
    }
}

/// Why the best match of a source is ambiguous, if it is: a truncated
/// candidate list comes first, then a margin below the minimum.
pub fn ambiguity_of(truncated: bool, margin_below_minimum: bool) -> (r: Option<AmbiguityReason>)
    ensures
        truncated ==> r == Some(AmbiguityReason::CandidateCap),
        !truncated && margin_below_minimum ==> r == Some(AmbiguityReason::ScoreMargin),
        !truncated && !margin_below_minimum ==> r is None,
{
    if truncated {
        Some(AmbiguityReason::CandidateCap)
    } else if margin_below_minimum {
        Some(AmbiguityReason::ScoreMargin)
    } else {
        None
    }
}

} // verus!
