use chrono::Datelike;
use unicode_normalization::UnicodeNormalization;
use vstd::prelude::*;

use crate::text::{
    lemma_collapse_well_spaced, well_spaced, chars_of, join_with, collapse_whitespace, collapse_whitespace_chars, push_char, string_of, trim_chars,
    trimmed, is_white_space, words,
};

verus! {

/// How two middle names relate once both are normalized and stripped of dots.
#[derive(Debug, Clone, Copy, PartialEq, Eq, Structural)]
pub enum MiddleRelation {
    Exact,
    InitialExact,
    InitialCompatible,
    MissingOne,
    MissingBoth,
    InitialConflict,
    Fuzzy,
}

/// The canonical decomposition (Unicode Normalization Form D) of `s`.
pub uninterp spec fn nfd_of(s: Seq<char>) -> Seq<char>;

/// Whether `c` is a combining mark (`General_Category=Mark`).
pub uninterp spec fn combining_mark(c: char) -> bool;

/// The uppercase mapping of `c`.
pub uninterp spec fn uppercase_of(c: char) -> Seq<char>;

/// `unicode_normalization`'s `nfd` over the characters of `s`, collected.
/// Trusted: the result is what `nfd_of` names for `s`.
#[verifier::external_body]
fn canonical_decomposition(s: &str) -> (r: Vec<char>)
    ensures
        r@ == nfd_of(s@),
{
    s.nfd().collect()
}

/// `unicode_normalization::char::is_combining_mark`.
/// Trusted: the result is what `combining_mark` names for `c`.
#[verifier::external_body]
fn is_combining_mark(c: char) -> (r: bool)
    ensures
        r == combining_mark(c),
{
    unicode_normalization::char::is_combining_mark(c)
}

/// `char::to_uppercase`, collected. Trusted: the result is what
/// `uppercase_of` names for `c`; std documents it as one or more characters.
#[verifier::external_body]
pub(crate) fn uppercase_chars(c: char) -> (r: Vec<char>)
    ensures
        r@ == uppercase_of(c),
        r@.len() >= 1,
{
    c.to_uppercase().collect()
}

/// What one decomposed character becomes: the letters that have no
/// decomposition are spelled out in Latin capitals, every other character is
/// uppercased.
pub open spec fn folded_char(c: char) -> Seq<char> {
    if c == 'Ø' || c == 'ø' {
        seq!['O']
    } else if c == 'Ł' || c == 'ł' {
        seq!['L']
    } else if c == 'Đ' || c == 'đ' || c == 'Ð' || c == 'ð' {
        seq!['D']
    } else if c == 'Þ' || c == 'þ' {
        seq!['T', 'H']
    } else if c == 'Æ' || c == 'æ' {
        seq!['A', 'E']
    } else if c == 'Œ' || c == 'œ' {
        seq!['O', 'E']
    } else {
        uppercase_of(c)
    }
}

/// `s` with its combining marks dropped and every other character folded.
pub open spec fn folded(s: Seq<char>) -> Seq<char>
    decreases s.len(),
{
    if s.len() == 0 {
        seq![]
    } else if combining_mark(s.last()) {
        folded(s.drop_last())
    } else {
        folded(s.drop_last()) + folded_char(s.last())
    }
}

/// The matching form of a name: decomposed, marks dropped, folded to
/// capitals, whitespace collapsed.
pub open spec fn normalized(s: Seq<char>) -> Seq<char> {
    collapse_whitespace(folded(nfd_of(s)))
}

fn transliterate_special(c: char, out: &mut String)
    ensures
        final(out)@ == old(out)@ + folded_char(c),
{
    if c == 'Ø' || c == 'ø' {
        push_char(out, 'O');
    } else if c == 'Ł' || c == 'ł' {
        push_char(out, 'L');
    } else if c == 'Đ' || c == 'đ' || c == 'Ð' || c == 'ð' {
        push_char(out, 'D');
    } else if c == 'Þ' || c == 'þ' {
        push_char(out, 'T');
        push_char(out, 'H');
    } else if c == 'Æ' || c == 'æ' {
        push_char(out, 'A');
        push_char(out, 'E');
    } else if c == 'Œ' || c == 'œ' {
        push_char(out, 'O');
        push_char(out, 'E');
    } else {
        let up = uppercase_chars(c);
        let ghost start = out@;
        let mut i: usize = 0;
        while i < up.len()
            invariant
                i <= up@.len(),
                up@ == uppercase_of(c),
                out@ == start + up@.take(i as int),
            decreases up@.len() - i,
        {
            push_char(out, up[i]);
            assert(up@.take(i + 1) == up@.take(i as int).push(up@[i as int]));
            i += 1;
        }
        assert(up@.take(up@.len() as int) == up@);
    }
}

/// The matching form of text already in canonical decomposition: marks
/// dropped, other characters folded, whitespace collapsed.
pub fn normalize_decomposed(decomposed: &[char]) -> (r: String)
    ensures
        r@ == collapse_whitespace(folded(decomposed@)),
{
    let mut folded_text = String::new();
    let n = decomposed.len();
    let mut i: usize = 0;
    while i < n
        invariant
            n == decomposed@.len(),
            i <= n,
            folded_text@ == folded(decomposed@.take(i as int)),
        decreases n - i,
    {
        let c = decomposed[i];
        assert(decomposed@.take(i + 1).drop_last() == decomposed@.take(i as int));
        if !is_combining_mark(c) {
            transliterate_special(c, &mut folded_text);
        }
        i += 1;
    }
    assert(decomposed@.take(n as int) == decomposed@);
    let chars = chars_of(folded_text.as_str());
    let collapsed = collapse_whitespace_chars(chars.as_slice());
    string_of(collapsed.as_slice())
}

/// The matching form of `v` (see `normalized`).
pub fn normalize(v: &str) -> (r: String)
    ensures
        r@ == normalized(v@),
{
    let decomposed = canonical_decomposition(v);
    normalize_decomposed(decomposed.as_slice())
}

/// `s` with every '.' removed.
pub open spec fn without_dots(s: Seq<char>) -> Seq<char> {
    s.filter(|c: char| c != '.')
}

fn remove_dots(s: &[char]) -> (r: Vec<char>)
    ensures
        r@ == without_dots(s@),
{
    let mut out: Vec<char> = Vec::new();
    let n = s.len();
    let mut i: usize = 0;
    while i < n
        invariant
            n == s@.len(),
            i <= n,
            out@ == without_dots(s@.take(i as int)),
        decreases n - i,
    {
        let c = s[i];
        proof {
            assert(s@.take(i + 1) == s@.take(i as int).push(c));
            s@.take(i as int).lemma_filter_push(c, |c: char| c != '.');
        }
        if c != '.' {
            out.push(c);
        }
        i += 1;
    }
    assert(s@.take(n as int) == s@);
    out
}

/// The normalized characters of `v` with dots removed.
fn normalized_chars_without_dots(v: &str) -> (r: Vec<char>)
    ensures
        r@ == without_dots(normalized(v@)),
{
    let n = normalize(v);
    let chars = chars_of(n.as_str());
    remove_dots(chars.as_slice())
}

/// At most the first character of `s`.
pub open spec fn first_of(s: Seq<char>) -> Seq<char> {
    s.take(if s.len() == 0 { 0int } else { 1int })
}

fn first_as_string(s: &[char]) -> (r: String)
    ensures
        r@ == first_of(s@),
{
    let mut out = String::new();
    if s.len() > 0 {
        push_char(&mut out, s[0]);
    }
    proof {
        if s@.len() > 0 {
            assert(s@.take(1) == seq![s@[0]]);
        } else {
            assert(s@.take(0) == Seq::<char>::empty());
        }
    }
    out
}

/// The middle initial of a record: the first character of the explicit
/// initial when it has one (dots ignored), else that of the middle name.
pub open spec fn middle_initial_of(mi: Seq<char>, middle: Seq<char>) -> Seq<char> {
    let explicit = without_dots(normalized(mi));
    if explicit.len() > 0 {
        first_of(explicit)
    } else {
        first_of(without_dots(normalized(middle)))
    }
}

/// The middle initial of a record (see `middle_initial_of`).
pub fn normalize_mi(mi: &str, middle: &str) -> (r: String)
    ensures
        r@ == middle_initial_of(mi@, middle@),
{
    let explicit = normalized_chars_without_dots(mi);
    if explicit.len() > 0 {
        return first_as_string(explicit.as_slice());
    }
    let from_middle = normalized_chars_without_dots(middle);
    first_as_string(from_middle.as_slice())
}

/// The first `n` characters of the normalized `v` (all of them when fewer).
pub fn prefix_chars(v: &str, n: usize) -> (r: String)
    ensures
        r@ == normalized(v@).take(if n <= normalized(v@).len() { n as int } else { normalized(v@).len() as int }),
{
    let norm = normalize(v);
    let chars = chars_of(norm.as_str());
    let k = if n <= chars.len() { n } else { chars.len() };
    let mut out = String::new();
    let mut i: usize = 0;
    while i < k
        invariant
            k <= chars@.len(),
            chars@ == normalized(v@),
            i <= k,
            out@ == chars@.take(i as int),
        decreases k - i,
    {
        push_char(&mut out, chars[i]);
        assert(chars@.take(i + 1) == chars@.take(i as int).push(chars@[i as int]));
        i += 1;
    }
    out
}

/// The first character of the normalized `v`, or the empty string.
pub fn first_char(v: &str) -> (r: String)
    ensures
        r@ == first_of(normalized(v@)),
{
    let norm = normalize(v);
    let chars = chars_of(norm.as_str());
    first_as_string(chars.as_slice())
}

/// How the middle names `a` and `b` relate, compared on their normalized
/// forms without dots.
pub open spec fn middle_relation_of(a: Seq<char>, b: Seq<char>) -> MiddleRelation {
    let a = without_dots(normalized(a));
    let b = without_dots(normalized(b));
    if a.len() == 0 && b.len() == 0 {
        MiddleRelation::MissingBoth
    } else if a.len() == 0 || b.len() == 0 {
        MiddleRelation::MissingOne
    } else if a == b {
        if a.len() == 1 {
            MiddleRelation::InitialExact
        } else {
            MiddleRelation::Exact
        }
    } else if a.len() == 1 || b.len() == 1 {
        if a[0] == b[0] {
            MiddleRelation::InitialCompatible
        } else {
            MiddleRelation::InitialConflict
        }
    } else {
        MiddleRelation::Fuzzy
    }
}

fn chars_equal(a: &[char], b: &[char]) -> (r: bool)
    ensures
        r == (a@ == b@),
{
    if a.len() != b.len() {
        return false;
    }
    let n = a.len();
    let mut i: usize = 0;
    while i < n
        invariant
            n == a@.len(),
            n == b@.len(),
            i <= n,
            forall|j: int| 0 <= j < i ==> a@[j] == b@[j],
        decreases n - i,
    {
        if a[i] != b[i] {
            return false;
        }
        i += 1;
    }
    assert(a@ == b@);
    true
}

/// How the middle names `a` and `b` relate (see `middle_relation_of`).
pub fn middle_relation(a: &str, b: &str) -> (r: MiddleRelation)
    ensures
        r == middle_relation_of(a@, b@),
{
    let a = normalized_chars_without_dots(a);
    let b = normalized_chars_without_dots(b);
    if a.len() == 0 && b.len() == 0 {
        return MiddleRelation::MissingBoth;
    }
    if a.len() == 0 || b.len() == 0 {
        return MiddleRelation::MissingOne;
    }
    if chars_equal(a.as_slice(), b.as_slice()) {
        return if a.len() == 1 {
            MiddleRelation::InitialExact
        } else {
            MiddleRelation::Exact
        };
    }
    if a.len() == 1 || b.len() == 1 {
        return if a[0] == b[0] {
            MiddleRelation::InitialCompatible
        } else {
            MiddleRelation::InitialConflict
        };
    }
    MiddleRelation::Fuzzy
}

/// Whether `y` is a leap year of the proleptic Gregorian calendar.
pub open spec fn is_leap_year(y: int) -> bool {
    y % 4 == 0 && (y % 100 != 0 || y % 400 == 0)
}

/// The number of days of month `m` of year `y`.
pub open spec fn days_in_month(y: int, m: int) -> int {
    if m == 2 {
        if is_leap_year(y) {
            29
        } else {
            28
        }
    } else if m == 4 || m == 6 || m == 9 || m == 11 {
        30
    } else {
        31
    }
}

/// Whether year `y`, month `m`, day `d` is a calendar date that a
/// `chrono::NaiveDate` can hold.
pub open spec fn is_valid_date(y: i32, m: u32, d: u32) -> bool {
    &&& -262143 <= y <= 262142
    &&& 1 <= m <= 12
    &&& 1 <= d <= days_in_month(y as int, m as int)
}

/// A calendar date (proleptic Gregorian).
#[derive(Debug, Clone, Copy, PartialEq, Eq, Structural)]
pub struct CalendarDate {
    pub year: i32,
    pub month: u32,
    pub day: u32,
}

impl CalendarDate {
    /// Whether the date exists in the calendar.
    pub open spec fn is_valid(self) -> bool {
        is_valid_date(self.year, self.month, self.day)
    }

    /// The date of year `year`, month `month`, day `day`, when it exists.
    pub fn from_ymd_opt(year: i32, month: u32, day: u32) -> (r: Option<CalendarDate>)
        ensures
            r == (if is_valid_date(year, month, day) {
                Some(CalendarDate { year, month, day })
            } else {
                None
            }),
    {
        match naive_date_from_ymd(year, month, day) {
            Some((y, m, d)) => Some(CalendarDate { year: y, month: m, day: d }),
            None => None,
        }
    }

    pub fn year(&self) -> (r: i32)
        ensures
            r == self.year,
    {
        self.year
    }

    pub fn month(&self) -> (r: u32)
        ensures
            r == self.month,
    {
        self.month
    }

    pub fn day(&self) -> (r: u32)
        ensures
            r == self.day,
    {
        self.day
    }
}

/// `chrono::NaiveDate::from_ymd_opt`, the date given back as its year,
/// month and day. Trusted: as chrono documents and its source shows, it is
/// `None` exactly on a day that does not exist, an invalid month or day, or a
/// year outside -262143..=262142.
#[verifier::external_body]
fn naive_date_from_ymd(year: i32, month: u32, day: u32) -> (r: Option<(i32, u32, u32)>)
    ensures
        r == (if is_valid_date(year, month, day) {
            Some((year, month, day))
        } else {
            None
        }),
{
    match chrono::NaiveDate::from_ymd_opt(year, month, day) {
        Some(d) => Some((d.year(), d.month(), d.day())),
        None => None,
    }
}

/// What `chrono::NaiveDate::parse_from_str` gives for the text `s` and the
/// format `fmt`, as year, month and day.
pub uninterp spec fn parsed_date(s: Seq<char>, fmt: Seq<char>) -> Option<(i32, u32, u32)>;

/// `chrono::NaiveDate::parse_from_str`, the date given back as its year,
/// month and day, an error as `None`. Trusted: the result is what
/// `parsed_date` names for the arguments, and a date it gives exists (a
/// `NaiveDate` always holds a valid date).
#[verifier::external_body]
fn naive_date_parse(s: &str, fmt: &str) -> (r: Option<(i32, u32, u32)>)
    ensures
        r == parsed_date(s@, fmt@),
        r matches Some((y, m, d)) ==> is_valid_date(y, m, d),
{
    match chrono::NaiveDate::parse_from_str(s, fmt) {
        Ok(d) => Some((d.year(), d.month(), d.day())),
        Err(_) => None,
    }
}

/// The date that the first ten characters of the trimmed `v` spell in the
/// form year-month-day, when they spell one.
pub open spec fn date_of(v: Seq<char>) -> Option<CalendarDate> {
    let t = trimmed(v);
    if t.len() == 0 {
        None
    } else {
        match parsed_date(t.take(if t.len() < 10 { t.len() as int } else { 10 }), "%Y-%m-%d"@) {
            Some((y, m, d)) => Some(CalendarDate { year: y, month: m, day: d }),
            None => None,
        }
    }
}

/// The date that `v` holds in the form year-month-day (see `date_of`).
pub fn parse_date(v: &str) -> (r: Option<CalendarDate>)
    ensures
        r == date_of(v@),
        r matches Some(d) ==> d.is_valid(),
{
    let chars = chars_of(v);
    let t = trim_chars(chars.as_slice());
    if t.len() == 0 {
        return None;
    }
    let k = if t.len() < 10 { t.len() } else { 10 };
    let mut ten: Vec<char> = Vec::new();
    let mut i: usize = 0;
    while i < k
        invariant
            k <= t@.len(),
            i <= k,
            ten@ == t@.take(i as int),
        decreases k - i,
    {
        ten.push(t[i]);
        assert(t@.take(i + 1) == t@.take(i as int).push(t@[i as int]));
        i += 1;
    }
    let text = string_of(ten.as_slice());
    match naive_date_parse(text.as_str(), "%Y-%m-%d") {
        Some((y, m, d)) => Some(CalendarDate { year: y, month: m, day: d }),
        None => None,
    }
}

/// The year, month and day of the date that `v` holds, or three `None`.
pub fn date_parts(v: &str) -> (r: (Option<i32>, Option<u32>, Option<u32>))
    ensures
        r == (match date_of(v@) {
            Some(d) => (Some(d.year), Some(d.month), Some(d.day)),
            None => (None, None, None),
        }),
{
    match parse_date(v) {
        Some(d) => (Some(d.year), Some(d.month), Some(d.day)),
        None => (None, None, None),
    }
}

/// The absolute value of `x`.
pub open spec fn abs(x: int) -> int {
    if x < 0 {
        -x
    } else {
        x
    }
}

/// Whether two birth dates are near: years at most 5 apart, months at most 3
/// apart and days at most 3 apart, each compared on its own.
pub open spec fn is_near_dob(a: CalendarDate, b: CalendarDate) -> bool {
    &&& abs(a.year - b.year) <= 5
    &&& abs(a.month - b.month) <= 3
    &&& abs(a.day - b.day) <= 3
}

/// Whether two birth dates are near (see `is_near_dob`).
pub fn near_dob(a: CalendarDate, b: CalendarDate) -> (r: bool)
    ensures
        r == is_near_dob(a, b),
{
    let dy = a.year as i64 - b.year as i64;
    let dm = a.month as i64 - b.month as i64;
    let dd = a.day as i64 - b.day as i64;
    -5 <= dy && dy <= 5 && -3 <= dm && dm <= 3 && -3 <= dd && dd <= 3
}

/// The names joined with the unit separator U+001F.
pub open spec fn record_key_text(parts: Seq<&str>) -> Seq<char> {
    join_with(parts.map_values(|p: &str| p@), seq!['\u{1f}'])
}

/// The MD5 digest of `data`.
pub uninterp spec fn md5_digest(data: Seq<u8>) -> Seq<u8>;

/// `md5::compute`. Trusted: the digest is what `md5_digest` names for `data`.
#[verifier::external_body]
fn md5_compute(data: &[u8]) -> (r: [u8; 16])
    ensures
        r@ == md5_digest(data@),
{
    md5::compute(data).0
}

/// The MD5 digest of the UTF-8 bytes of the parts joined with U+001F.
pub fn md5_key(parts: &[&str]) -> (r: [u8; 16])
    ensures
        r@ == md5_digest(vstd::utf8::encode_utf8(record_key_text(parts@))),
{
    let mut joined = String::new();
    let n = parts.len();
    let ghost views = parts@.map_values(|p: &str| p@);
    let mut i: usize = 0;
    while i < n
        invariant
            n == parts@.len(),
            views == parts@.map_values(|p: &str| p@),
            i <= n,
            joined@ == join_with(views.take(i as int), seq!['\u{1f}']),
        decreases n - i,
    {
        proof {
            crate::text::lemma_join_push(views.take(i as int), parts@[i as int]@, seq!['\u{1f}']);
            assert(views.take(i + 1) == views.take(i as int).push(parts@[i as int]@));
        }
        if i > 0 {
            push_char(&mut joined, '\u{1f}');
        }
        joined.append(parts[i]);
        i += 1;
    }
    assert(views.take(n as int) == views);
    md5_compute(joined.as_str().as_bytes())
}

/// The accented capitals that the database expression spells out, each with
/// its replacement, in the order the replacements are applied.
pub open spec fn accent_table() -> Seq<(Seq<char>, Seq<char>)> {
    seq![
        ("Á"@, "A"@), ("À"@, "A"@), ("Â"@, "A"@), ("Ä"@, "A"@), ("Ã"@, "A"@), ("Å"@, "A"@),
        ("Ā"@, "A"@), ("Ă"@, "A"@), ("Ą"@, "A"@), ("É"@, "E"@), ("È"@, "E"@), ("Ê"@, "E"@),
        ("Ë"@, "E"@), ("Ē"@, "E"@), ("Ĕ"@, "E"@), ("Ė"@, "E"@), ("Ę"@, "E"@), ("Ě"@, "E"@),
        ("Í"@, "I"@), ("Ì"@, "I"@), ("Î"@, "I"@), ("Ï"@, "I"@), ("Ī"@, "I"@), ("Ĭ"@, "I"@),
        ("Į"@, "I"@), ("Ó"@, "O"@), ("Ò"@, "O"@), ("Ô"@, "O"@), ("Ö"@, "O"@), ("Õ"@, "O"@),
        ("Ø"@, "O"@), ("Ō"@, "O"@), ("Ŏ"@, "O"@), ("Ő"@, "O"@), ("Ú"@, "U"@), ("Ù"@, "U"@),
        ("Û"@, "U"@), ("Ü"@, "U"@), ("Ū"@, "U"@), ("Ŭ"@, "U"@), ("Ů"@, "U"@), ("Ű"@, "U"@),
        ("Ų"@, "U"@), ("Ñ"@, "N"@), ("Ń"@, "N"@), ("Ņ"@, "N"@), ("Ň"@, "N"@), ("Ç"@, "C"@),
        ("Ć"@, "C"@), ("Ĉ"@, "C"@), ("Ċ"@, "C"@), ("Č"@, "C"@), ("Ý"@, "Y"@), ("Ÿ"@, "Y"@),
        ("Š"@, "S"@), ("Ś"@, "S"@), ("Ş"@, "S"@), ("Ž"@, "Z"@), ("Ź"@, "Z"@), ("Ż"@, "Z"@),
        ("Ł"@, "L"@), ("Đ"@, "D"@), ("Ð"@, "D"@), ("Þ"@, "TH"@), ("Æ"@, "AE"@), ("Œ"@, "OE"@),
    ]
}

fn accent_table_entries() -> (r: Vec<(&'static str, &'static str)>)
    ensures
        r@.map_values(|e: (&str, &str)| (e.0@, e.1@)) == accent_table(),
{
    let r = vec![
        ("Á", "A"), ("À", "A"), ("Â", "A"), ("Ä", "A"), ("Ã", "A"), ("Å", "A"), ("Ā", "A"),
        ("Ă", "A"), ("Ą", "A"), ("É", "E"), ("È", "E"), ("Ê", "E"), ("Ë", "E"), ("Ē", "E"),
        ("Ĕ", "E"), ("Ė", "E"), ("Ę", "E"), ("Ě", "E"), ("Í", "I"), ("Ì", "I"), ("Î", "I"),
        ("Ï", "I"), ("Ī", "I"), ("Ĭ", "I"), ("Į", "I"), ("Ó", "O"), ("Ò", "O"), ("Ô", "O"),
        ("Ö", "O"), ("Õ", "O"), ("Ø", "O"), ("Ō", "O"), ("Ŏ", "O"), ("Ő", "O"), ("Ú", "U"),
        ("Ù", "U"), ("Û", "U"), ("Ü", "U"), ("Ū", "U"), ("Ŭ", "U"), ("Ů", "U"), ("Ű", "U"),
        ("Ų", "U"), ("Ñ", "N"), ("Ń", "N"), ("Ņ", "N"), ("Ň", "N"), ("Ç", "C"), ("Ć", "C"),
        ("Ĉ", "C"), ("Ċ", "C"), ("Č", "C"), ("Ý", "Y"), ("Ÿ", "Y"), ("Š", "S"), ("Ś", "S"),
        ("Ş", "S"), ("Ž", "Z"), ("Ź", "Z"), ("Ż", "Z"), ("Ł", "L"), ("Đ", "D"), ("Ð", "D"),
        ("Þ", "TH"), ("Æ", "AE"), ("Œ", "OE"),
    ];
    assert(r@.map_values(|e: (&str, &str)| (e.0@, e.1@)) =~= accent_table());
    r
}

/// `expr` wrapped in one SQL `REPLACE` per entry of `table`, the first entry
/// innermost.
pub open spec fn replace_wrapped(expr: Seq<char>, table: Seq<(Seq<char>, Seq<char>)>) -> Seq<char>
    decreases table.len(),
{
    if table.len() == 0 {
        expr
    } else {
        let inner = replace_wrapped(expr, table.drop_last());
        "REPLACE("@ + inner + ",'"@ + table.last().0 + "','"@ + table.last().1 + "')"@
    }
}

/// The MySQL expression that computes the matching form of `column` in the
/// database: trimmed, uppercased, whitespace runs collapsed, then each
/// accented capital of `accent_table` replaced.
pub open spec fn mysql_norm_expr_of(column: Seq<char>) -> Seq<char> {
    replace_wrapped(
        "REGEXP_REPLACE(UPPER(TRIM(COALESCE(CAST("@ + column + " AS CHAR),''))), '[[:space:]]+', ' ')"@,
        accent_table(),
    )
}

/// The MySQL expression for the matching form of `column` (see
/// `mysql_norm_expr_of`).
pub fn mysql_norm_expr(column: &str) -> (r: String)
    ensures
        r@ == mysql_norm_expr_of(column@),
{
    let mut expr = String::from_str("REGEXP_REPLACE(UPPER(TRIM(COALESCE(CAST(");
    expr.append(column);
    expr.append(" AS CHAR),''))), '[[:space:]]+', ' ')");
    let table = accent_table_entries();
    let ghost base = expr@;
    let ghost spec_table = table@.map_values(|e: (&str, &str)| (e.0@, e.1@));
    let n = table.len();
    let mut i: usize = 0;
    while i < n
        invariant
            n == table@.len(),
            spec_table == table@.map_values(|e: (&str, &str)| (e.0@, e.1@)),
            i <= n,
            expr@ == replace_wrapped(base, spec_table.take(i as int)),
        decreases n - i,
    {
        let (from, to) = table[i];
        let mut next = String::from_str("REPLACE(");
        next.append(expr.as_str());
        next.append(",'");
        next.append(from);
        next.append("','");
        next.append(to);
        next.append("')");
        proof {
            assert(spec_table.take(i + 1).drop_last() == spec_table.take(i as int));
            assert(spec_table.take(i + 1).last() == (from@, to@));
        }
        expr = next;
        i += 1;
    }
    assert(spec_table.take(n as int) == spec_table);
    expr
}

/// The accent table letter by letter: each accented capital with its
/// replacement.
pub open spec fn accent_letters() -> Seq<(char, Seq<char>)> {
    seq![
        ('Á', seq!['A']),
        ('À', seq!['A']),
        ('Â', seq!['A']),
        ('Ä', seq!['A']),
        ('Ã', seq!['A']),
        ('Å', seq!['A']),
        ('Ā', seq!['A']),
        ('Ă', seq!['A']),
        ('Ą', seq!['A']),
        ('É', seq!['E']),
        ('È', seq!['E']),
        ('Ê', seq!['E']),
        ('Ë', seq!['E']),
        ('Ē', seq!['E']),
        ('Ĕ', seq!['E']),
        ('Ė', seq!['E']),
        ('Ę', seq!['E']),
        ('Ě', seq!['E']),
        ('Í', seq!['I']),
        ('Ì', seq!['I']),
        ('Î', seq!['I']),
        ('Ï', seq!['I']),
        ('Ī', seq!['I']),
        ('Ĭ', seq!['I']),
        ('Į', seq!['I']),
        ('Ó', seq!['O']),
        ('Ò', seq!['O']),
        ('Ô', seq!['O']),
        ('Ö', seq!['O']),
        ('Õ', seq!['O']),
        ('Ø', seq!['O']),
        ('Ō', seq!['O']),
        ('Ŏ', seq!['O']),
        ('Ő', seq!['O']),
        ('Ú', seq!['U']),
        ('Ù', seq!['U']),
        ('Û', seq!['U']),
        ('Ü', seq!['U']),
        ('Ū', seq!['U']),
        ('Ŭ', seq!['U']),
        ('Ů', seq!['U']),
        ('Ű', seq!['U']),
        ('Ų', seq!['U']),
        ('Ñ', seq!['N']),
        ('Ń', seq!['N']),
        ('Ņ', seq!['N']),
        ('Ň', seq!['N']),
        ('Ç', seq!['C']),
        ('Ć', seq!['C']),
        ('Ĉ', seq!['C']),
        ('Ċ', seq!['C']),
        ('Č', seq!['C']),
        ('Ý', seq!['Y']),
        ('Ÿ', seq!['Y']),
        ('Š', seq!['S']),
        ('Ś', seq!['S']),
        ('Ş', seq!['S']),
        ('Ž', seq!['Z']),
        ('Ź', seq!['Z']),
        ('Ż', seq!['Z']),
        ('Ł', seq!['L']),
        ('Đ', seq!['D']),
        ('Ð', seq!['D']),
        ('Þ', seq!['T', 'H']),
        ('Æ', seq!['A', 'E']),
        ('Œ', seq!['O', 'E']),
    ]
}

/// Whether `normalize` spells `c` out itself rather than through the Unicode
/// data (the letters with no decomposition).
pub open spec fn spelled_out(c: char) -> bool {
    c == 'Ø' || c == 'ø' || c == 'Ł' || c == 'ł' || c == 'Đ' || c == 'đ' || c == 'Ð' || c == 'ð'
        || c == 'Þ' || c == 'þ' || c == 'Æ' || c == 'æ' || c == 'Œ' || c == 'œ'
}

proof fn lemma_accent_letters()
    ensures
        accent_table() == accent_letters().map_values(|e: (char, Seq<char>)| (seq![e.0], e.1)),
{
    reveal_strlit("À");
    reveal_strlit("Á");
    reveal_strlit("Â");
    reveal_strlit("Ã");
    reveal_strlit("Ä");
    reveal_strlit("Å");
    reveal_strlit("Æ");
    reveal_strlit("Ç");
    reveal_strlit("È");
    reveal_strlit("É");
    reveal_strlit("Ê");
    reveal_strlit("Ë");
    reveal_strlit("Ì");
    reveal_strlit("Í");
    reveal_strlit("Î");
    reveal_strlit("Ï");
    reveal_strlit("Ð");
    reveal_strlit("Ñ");
    reveal_strlit("Ò");
    reveal_strlit("Ó");
    reveal_strlit("Ô");
    reveal_strlit("Õ");
    reveal_strlit("Ö");
    reveal_strlit("Ø");
    reveal_strlit("Ù");
    reveal_strlit("Ú");
    reveal_strlit("Û");
    reveal_strlit("Ü");
    reveal_strlit("Ý");
    reveal_strlit("Þ");
    reveal_strlit("Ā");
    reveal_strlit("Ă");
    reveal_strlit("Ą");
    reveal_strlit("Ć");
    reveal_strlit("Ĉ");
    reveal_strlit("Ċ");
    reveal_strlit("Č");
    reveal_strlit("Đ");
    reveal_strlit("Ē");
    reveal_strlit("Ĕ");
    reveal_strlit("Ė");
    reveal_strlit("Ę");
    reveal_strlit("Ě");
    reveal_strlit("Ī");
    reveal_strlit("Ĭ");
    reveal_strlit("Į");
    reveal_strlit("Ł");
    reveal_strlit("Ń");
    reveal_strlit("Ņ");
    reveal_strlit("Ň");
    reveal_strlit("Ō");
    reveal_strlit("Ŏ");
    reveal_strlit("Ő");
    reveal_strlit("Œ");
    reveal_strlit("Ś");
    reveal_strlit("Ş");
    reveal_strlit("Š");
    reveal_strlit("Ū");
    reveal_strlit("Ŭ");
    reveal_strlit("Ů");
    reveal_strlit("Ű");
    reveal_strlit("Ų");
    reveal_strlit("Ÿ");
    reveal_strlit("Ź");
    reveal_strlit("Ż");
    reveal_strlit("Ž");
    reveal_strlit("A");
    reveal_strlit("AE");
    reveal_strlit("C");
    reveal_strlit("D");
    reveal_strlit("E");
    reveal_strlit("I");
    reveal_strlit("L");
    reveal_strlit("N");
    reveal_strlit("O");
    reveal_strlit("OE");
    reveal_strlit("S");
    reveal_strlit("TH");
    reveal_strlit("U");
    reveal_strlit("Y");
    reveal_strlit("Z");
    let letters = accent_letters().map_values(|e: (char, Seq<char>)| (seq![e.0], e.1));
    assert forall|k: int| 0 <= k < accent_table().len() implies #[trigger] accent_table()[k] == letters[k] by {
        assert(accent_table()[k].0 =~= letters[k].0);
        assert(accent_table()[k].1 =~= letters[k].1);
    }
    assert(accent_table() =~= letters);
}

/// What the Unicode data has to say of the accented capital `c` for the
/// database's fold of `c` into `t` to agree with `normalize`: a letter that
/// `normalize` spells out has no decomposition and is no mark; any other
/// decomposes into the replacement letter, which is no mark and is its own
/// capital, followed by combining marks only.
pub open spec fn decomposes_to_replacement(c: char, t: Seq<char>) -> bool {
    let d = nfd_of(seq![c]);
    if spelled_out(c) {
        d == seq![c] && !combining_mark(c)
    } else {
        &&& d.len() >= 1
        &&& t.len() >= 1
        &&& d[0] == t[0]
        &&& !combining_mark(t[0])
        &&& uppercase_of(t[0]) == t
        &&& forall|i: int| 1 <= i < d.len() ==> combining_mark(#[trigger] d[i])
    }
}

/// The shape of an entry of the accent table: a replacement of one or two
/// letters that are no whitespace; a letter spelled out by `normalize` is
/// spelled out as the table replaces it, any other is replaced by one letter
/// that is not spelled out.
spec fn accent_entry_shape(c: char, t: Seq<char>) -> bool {
    &&& 1 <= t.len() <= 2
    &&& !is_white_space(t[0])
    &&& t.len() == 2 ==> !is_white_space(t[1])
    &&& if spelled_out(c) {
        folded_char(c) == t
    } else {
        t.len() == 1 && !spelled_out(t[0])
    }
}

proof fn lemma_folded_marks_tail(d: Seq<char>)
    requires
        d.len() >= 1,
        forall|i: int| 1 <= i < d.len() ==> combining_mark(#[trigger] d[i]),
    ensures
        folded(d) == folded(d.take(1)),
    decreases d.len(),
{
    if d.len() > 1 {
        let init = d.drop_last();
        assert forall|i: int| 1 <= i < init.len() implies combining_mark(#[trigger] init[i]) by {
            assert(init[i] == d[i]);
        }
        lemma_folded_marks_tail(init);
        assert(init.take(1) == d.take(1));
        assert(combining_mark(d[d.len() - 1]));
        assert(d.last() == d[d.len() - 1]);
        assert(folded(d) == folded(init));
    } else {
        assert(d.take(1) =~= d);
    }
}

proof fn lemma_collapse_word(t: Seq<char>)
    requires
        1 <= t.len() <= 2,
        !is_white_space(t[0]),
        t.len() == 2 ==> !is_white_space(t[1]),
    ensures
        collapse_whitespace(t) == t,
{
    let first = t.take(1);
    assert(first.drop_last() =~= Seq::<char>::empty());
    assert(words(first.drop_last()) =~= Seq::<Seq<char>>::empty());
    assert(first.last() == t[0]);
    assert(words(first) =~= seq![seq![t[0]]]);
    if t.len() == 2 {
        assert(t.drop_last() == first);
        assert(seq![t[0]].push(t[1]) =~= t);
        assert(words(t) == seq![t]);
    } else {
        assert(first == t);
        assert(seq![t[0]] =~= t);
    }
}

proof fn lemma_accent_entry(c: char, t: Seq<char>)
    requires
        accent_entry_shape(c, t),
    ensures
        decomposes_to_replacement(c, t) ==> normalized(seq![c]) == t,
{
    if decomposes_to_replacement(c, t) {
        let d = nfd_of(seq![c]);
        if spelled_out(c) {
            assert(d.drop_last() =~= Seq::<char>::empty());
            assert(folded(d.drop_last()) =~= Seq::<char>::empty());
            assert(d.last() == c);
            assert(folded(d) =~= folded_char(c));
        } else {
            lemma_folded_marks_tail(d);
            let head = d.take(1);
            assert(head.drop_last() =~= Seq::<char>::empty());
            assert(folded(head.drop_last()) =~= Seq::<char>::empty());
            assert(head.last() == t[0]);
            assert(folded(head) =~= folded_char(t[0]));
        }
        lemma_collapse_word(t);
    }
}

/// The database's accent fold agrees with `normalize` on every letter it
/// folds: each accented capital of `accent_table` normalizes to its
/// replacement, given what the Unicode data says of the letter
/// (`decomposes_to_replacement`).
pub proof fn lemma_accent_table_agrees()
    ensures
        forall|k: int|
            0 <= k < accent_table().len() ==> {
                &&& accent_table()[k].0.len() == 1
                &&& decomposes_to_replacement(accent_table()[k].0[0], accent_table()[k].1)
                    ==> normalized(#[trigger] accent_table()[k].0) == accent_table()[k].1
            },
{
    lemma_accent_letters();
    let letters = accent_letters();
    assert forall|k: int| 0 <= k < letters.len() implies accent_entry_shape(
        #[trigger] letters[k].0,
        letters[k].1,
    ) by {}
    assert forall|k: int| 0 <= k < accent_table().len() implies {
        &&& accent_table()[k].0.len() == 1
        &&& decomposes_to_replacement(accent_table()[k].0[0], accent_table()[k].1)
            ==> normalized(#[trigger] accent_table()[k].0) == accent_table()[k].1
    } by {
        let e = letters[k];
        assert(accent_entry_shape(e.0, e.1));
        assert(accent_table()[k] == (seq![e.0], e.1));
        lemma_accent_entry(e.0, e.1);
    }
}

/// The matching form of any text has whitespace only as single spaces
/// between words.
pub proof fn lemma_normalized_well_spaced(v: Seq<char>)
    ensures
        well_spaced(normalized(v)),
{
    lemma_collapse_well_spaced(folded(nfd_of(v)));
}

/// The relation of two middle names does not depend on which one comes
/// first.
pub proof fn lemma_middle_relation_symmetric(a: Seq<char>, b: Seq<char>)
    ensures
        middle_relation_of(a, b) == middle_relation_of(b, a),
{
}

/// A missing middle name never conflicts: when either side is empty the
/// relation is `MissingOne` or `MissingBoth`; two different full middle
/// names (both longer than one character) are left to fuzzy scoring, even
/// when their initials agree.
pub proof fn lemma_middle_relation_cases(a: Seq<char>, b: Seq<char>)
    ensures
        without_dots(normalized(a)).len() == 0 || without_dots(normalized(b)).len() == 0
            ==> middle_relation_of(a, b) is MissingOne || middle_relation_of(a, b) is MissingBoth,
        without_dots(normalized(a)).len() > 1 && without_dots(normalized(b)).len() > 1
            && without_dots(normalized(a)) != without_dots(normalized(b))
            ==> middle_relation_of(a, b) is Fuzzy,
        middle_relation_of(a, b) is InitialConflict ==> without_dots(normalized(a))[0]
            != without_dots(normalized(b))[0],
{
}

/// How two middle names relate, by their dot-free matching forms `x` and
/// `y`: both missing, or one missing; equal, as initials when one letter
/// long; different with one of them a bare initial, compatible exactly when
/// they begin with the same letter and conflicting otherwise; else left to
/// fuzzy scoring.
pub proof fn lemma_middle_relation_decides(a: Seq<char>, b: Seq<char>)
    ensures
        ({
            let x = without_dots(normalized(a));
            let y = without_dots(normalized(b));
            let r = middle_relation_of(a, b);
            &&& (x.len() == 0 && y.len() == 0) <==> r is MissingBoth
            &&& ((x.len() == 0) != (y.len() == 0)) <==> r is MissingOne
            &&& x.len() > 0 && x == y ==> (r is InitialExact <==> x.len() == 1) && (r is Exact
                <==> x.len() > 1)
            &&& x.len() > 0 && y.len() > 0 && x != y && (x.len() == 1 || y.len() == 1) ==> {
                &&& (r is InitialCompatible <==> x[0] == y[0])
                &&& (r is InitialConflict <==> x[0] != y[0])
            }
            &&& x.len() > 1 && y.len() > 1 && x != y <==> r is Fuzzy
        }),
{
}

/// The middle initial is at most one character.
pub proof fn lemma_middle_initial_single(mi: Seq<char>, middle: Seq<char>)
    ensures
        middle_initial_of(mi, middle).len() <= 1,
{
}

/// Nearness of birth dates is symmetric, and every date is near itself.
pub proof fn lemma_near_dob_symmetric(a: CalendarDate, b: CalendarDate)
    ensures
        is_near_dob(a, b) == is_near_dob(b, a),
        is_near_dob(a, a),
{
}

} // verus!
