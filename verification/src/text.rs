use vstd::prelude::*;

verus! {

/// The characters with the Unicode `White_Space` property, the set that
/// Rust's `char::is_whitespace` tests.
pub open spec fn is_white_space(c: char) -> bool {
    ||| ('\u{9}' <= c && c <= '\u{d}')
    ||| c == ' '
    ||| c == '\u{85}'
    ||| c == '\u{a0}'
    ||| c == '\u{1680}'
    ||| ('\u{2000}' <= c && c <= '\u{200a}')
    ||| c == '\u{2028}'
    ||| c == '\u{2029}'
    ||| c == '\u{202f}'
    ||| c == '\u{205f}'
    ||| c == '\u{3000}'
}

/// Whether `c` is a whitespace character.
pub fn is_white_space_char(c: char) -> (r: bool)
    ensures
        r == is_white_space(c),
{
    ('\u{9}' <= c && c <= '\u{d}') || c == ' ' || c == '\u{85}' || c == '\u{a0}' || c == '\u{1680}'
        || ('\u{2000}' <= c && c <= '\u{200a}') || c == '\u{2028}' || c == '\u{2029}' || c
        == '\u{202f}' || c == '\u{205f}' || c == '\u{3000}'
}

/// `String::push`. Trusted: as std documents, `c` is appended to the end
/// of `s`.
#[verifier::external_body]
pub(crate) fn push_char(s: &mut String, c: char)
    ensures
        final(s)@ == old(s)@.push(c),
{
    s.push(c);
}

/// The number of bytes in the UTF-8 encoding of `c`.
fn utf8_width(c: char) -> (r: usize)
    ensures
        r == vstd::utf8::encode_scalar(c as u32).len(),
{
    let v = c as u32;
    if v <= 0x7f {
        1
    } else if v <= 0x7ff {
        2
    } else if v <= 0xffff {
        3
    } else {
        4
    }
}

/// A longer tail of `s` never encodes to fewer bytes.
proof fn lemma_utf8_tail_grows(s: Seq<char>, j: int, i: int)
    requires
        0 <= j <= i <= s.len(),
    ensures
        vstd::utf8::encode_utf8(s.subrange(j, s.len() as int)).len() >= vstd::utf8::encode_utf8(
            s.subrange(i, s.len() as int),
        ).len(),
    decreases i - j,
{
    if j < i {
        lemma_utf8_tail_grows(s, j + 1, i);
        assert(s.subrange(j, s.len() as int).drop_first() == s.subrange(j + 1, s.len() as int));
    }
}

/// Whether the UTF-8 encoding of `s` takes more than `limit` bytes.
pub fn utf8_longer_than(s: &[char], limit: usize) -> (r: bool)
    ensures
        r == (vstd::utf8::encode_utf8(s@).len() > limit),
{
    let n = s.len();
    let mut i = n;
    let mut total: usize = 0;
    while i > 0
        invariant
            n == s@.len(),
            i <= n,
            total <= limit,
            total == vstd::utf8::encode_utf8(s@.subrange(i as int, n as int)).len(),
        decreases i,
    {
        i -= 1;
        let w = utf8_width(s[i]);
        assert(s@.subrange(i as int, n as int).drop_first() == s@.subrange(i + 1, n as int));
        assert(s@.subrange(i as int, n as int)[0] == s@[i as int]);
        if w > limit - total {
            proof {
                lemma_utf8_tail_grows(s@, 0, i as int);
                assert(s@.subrange(0, n as int) == s@);
            }
            return true;
        }
        total += w;
    }
    assert(s@.subrange(0, n as int) == s@);
    false
}

/// The characters of `s`, in order.
pub fn chars_of(s: &str) -> (r: Vec<char>)
    ensures
        r@ == s@,
{
    let mut out: Vec<char> = Vec::new();
    for c in it: s.chars()
        invariant
            out@ == it.seq().take(it.index() as int),
    {
        out.push(c);
    }
    out
}

/// A string made of the characters of `v`, in order.
pub fn string_of(v: &[char]) -> (r: String)
    ensures
        r@ == v@,
{
    let mut out = String::new();
    let n = v.len();
    let mut i: usize = 0;
    while i < n
        invariant
            n == v@.len(),
            i <= n,
            out@ == v@.take(i as int),
        decreases n - i,
    {
        push_char(&mut out, v[i]);
        assert(v@.take(i + 1) == v@.take(i as int).push(v@[i as int]));
        i += 1;
    }
    assert(v@.take(n as int) == v@);
    out
}

} // verus!

verus! {

/// The maximal runs of non-whitespace characters of `s`, in order.
pub open spec fn words(s: Seq<char>) -> Seq<Seq<char>>
    decreases s.len(),
{
    if s.len() == 0 {
        seq![]
    } else {
        let prev = words(s.drop_last());
        let c = s.last();
        if is_white_space(c) {
            prev
        } else if s.len() >= 2 && !is_white_space(s[s.len() - 2]) {
            prev.update(prev.len() - 1, prev.last().push(c))
        } else {
            prev.push(seq![c])
        }
    }
}

/// The pieces `ws` written one after another with `sep` between each two.
pub open spec fn join_with(ws: Seq<Seq<char>>, sep: Seq<char>) -> Seq<char>
    decreases ws.len(),
{
    if ws.len() == 0 {
        seq![]
    } else if ws.len() == 1 {
        ws[0]
    } else {
        join_with(ws.drop_last(), sep) + sep + ws.last()
    }
}

/// `s` with leading and trailing whitespace removed and each inner run of
/// whitespace replaced by one space.
pub open spec fn collapse_whitespace(s: Seq<char>) -> Seq<char> {
    join_with(words(s), seq![' '])
}

pub proof fn lemma_join_push(ws: Seq<Seq<char>>, w: Seq<char>, sep: Seq<char>)
    ensures
        join_with(ws.push(w), sep) == if ws.len() == 0 {
            w
        } else {
            join_with(ws, sep) + sep + w
        },
{
    assert(ws.push(w).drop_last() == ws);
}

pub proof fn lemma_join_extend_last(ws: Seq<Seq<char>>, c: char, sep: Seq<char>)
    requires
        ws.len() >= 1,
    ensures
        join_with(ws.update(ws.len() - 1, ws.last().push(c)), sep) == join_with(ws, sep).push(c),
{
    let ws2 = ws.update(ws.len() - 1, ws.last().push(c));
    if ws.len() == 1 {
    } else {
        assert(ws2.drop_last() == ws.drop_last());
        assert((join_with(ws.drop_last(), sep) + sep + ws.last()).push(c) == join_with(
            ws.drop_last(),
            sep,
        ) + sep + ws.last().push(c));
    }
}

pub proof fn lemma_words_nonempty(s: Seq<char>)
    requires
        s.len() > 0,
        !is_white_space(s.last()),
    ensures
        words(s).len() > 0,
    decreases s.len(),
{
    if s.len() >= 2 && !is_white_space(s[s.len() - 2]) {
        let p = s.drop_last();
        assert(p.last() == s[s.len() - 2]);
        lemma_words_nonempty(p);
    }
}

/// The characters of `s` with whitespace collapsed as `collapse_whitespace` says.
pub fn collapse_whitespace_chars(s: &[char]) -> (r: Vec<char>)
    ensures
        r@ == collapse_whitespace(s@),
{
    let mut out: Vec<char> = Vec::new();
    let mut in_word = false;
    let n = s.len();
    let mut i: usize = 0;
    while i < n
        invariant
            n == s@.len(),
            i <= n,
            out@ == join_with(words(s@.take(i as int)), seq![' ']),
            in_word == (i > 0 && !is_white_space(s@[i - 1])),
            (out@.len() == 0) == (words(s@.take(i as int)).len() == 0),
        decreases n - i,
    {
        let c = s[i];
        let ghost pre = s@.take(i as int);
        let ghost cur = s@.take(i + 1);
        proof {
            assert(cur.drop_last() == pre);
            assert(cur.last() == c);
            if i > 0 {
                assert(cur[cur.len() - 2] == s@[i - 1]);
                assert(pre.last() == s@[i - 1]);
            }
        }
        if is_white_space_char(c) {
            in_word = false;
        } else {
            if in_word {
                proof {
                    lemma_words_nonempty(pre);
                    lemma_join_extend_last(words(pre), c, seq![' ']);
                }
                out.push(c);
            } else {
                proof {
                    lemma_join_push(words(pre), seq![c], seq![' ']);
                }
                if out.len() > 0 {
                    out.push(' ');
                }
                out.push(c);
                proof {
                    if words(pre).len() > 0 {
                        assert(out@ == join_with(words(pre), seq![' ']) + seq![' '] + seq![c]);
                    } else {
                        assert(out@ == seq![c]);
                    }
                }
            }
            in_word = true;
        }
        i += 1;
    }
    assert(s@.take(n as int) == s@);
    out
}

/// `s` without its leading whitespace.
pub open spec fn trim_start(s: Seq<char>) -> Seq<char>
    decreases s.len(),
{
    if s.len() > 0 && is_white_space(s[0]) {
        trim_start(s.drop_first())
    } else {
        s
    }
}

/// `s` without its trailing whitespace.
pub open spec fn trim_end(s: Seq<char>) -> Seq<char>
    decreases s.len(),
{
    if s.len() > 0 && is_white_space(s.last()) {
        trim_end(s.drop_last())
    } else {
        s
    }
}

/// `s` without leading and trailing whitespace (as `str::trim`).
pub open spec fn trimmed(s: Seq<char>) -> Seq<char> {
    trim_end(trim_start(s))
}

/// The characters of `s` without leading and trailing whitespace.
pub fn trim_chars(s: &[char]) -> (r: Vec<char>)
    ensures
        r@ == trimmed(s@),
{
    let n = s.len();
    let mut i: usize = 0;
    assert(s@.subrange(0, n as int) == s@);
    while i < n && is_white_space_char(s[i])
        invariant
            n == s@.len(),
            i <= n,
            trim_start(s@) == trim_start(s@.subrange(i as int, n as int)),
        decreases n - i,
    {
        assert(s@.subrange(i as int, n as int).drop_first() == s@.subrange(i + 1, n as int));
        i += 1;
    }
    assert(trim_start(s@.subrange(i as int, n as int)) == s@.subrange(i as int, n as int));
    let mut j: usize = n;
    while j > i && is_white_space_char(s[j - 1])
        invariant
            n == s@.len(),
            i <= j <= n,
            trimmed(s@) == trim_end(s@.subrange(i as int, j as int)),
        decreases j - i,
    {
        assert(s@.subrange(i as int, j as int).drop_last() == s@.subrange(i as int, j - 1));
        j -= 1;
    }
    let mut out: Vec<char> = Vec::new();
    let mut k: usize = i;
    while k < j
        invariant
            n == s@.len(),
            i <= k <= j <= n,
            out@ == s@.subrange(i as int, k as int),
        decreases j - k,
    {
        out.push(s[k]);
        assert(s@.subrange(i as int, k + 1) == s@.subrange(i as int, k as int).push(s@[k as int]));
        k += 1;
    }
    out
}

/// Whether `r` has whitespace only as single spaces between other
/// characters: every whitespace character is a space, the text neither
/// starts nor ends with whitespace, and no two spaces are adjacent.
pub open spec fn well_spaced(r: Seq<char>) -> bool {
    &&& forall|i: int| 0 <= i < r.len() && is_white_space(#[trigger] r[i]) ==> r[i] == ' '
    &&& r.len() > 0 ==> !is_white_space(r[0]) && !is_white_space(r.last())
    &&& forall|i: int| 0 <= i < r.len() - 1 && #[trigger] r[i] == ' ' ==> r[i + 1] != ' '
}

/// Whether every piece of `ws` is non-empty and free of whitespace.
pub open spec fn solid_words(ws: Seq<Seq<char>>) -> bool {
    forall|i: int|
        0 <= i < ws.len() ==> #[trigger] ws[i].len() > 0 && forall|j: int|
            0 <= j < ws[i].len() ==> !is_white_space(#[trigger] ws[i][j])
}

pub proof fn lemma_words_solid(s: Seq<char>)
    ensures
        solid_words(words(s)),
    decreases s.len(),
{
    if s.len() > 0 {
        lemma_words_solid(s.drop_last());
        let prev = words(s.drop_last());
        let c = s.last();
        if is_white_space(c) {
        } else if s.len() >= 2 && !is_white_space(s[s.len() - 2]) {
            let p = s.drop_last();
            assert(p.last() == s[s.len() - 2]);
            lemma_words_nonempty(p);
            let w = prev.last().push(c);
            assert forall|i: int| 0 <= i < words(s).len() implies #[trigger] words(s)[i].len() > 0
                && forall|j: int|
                0 <= j < words(s)[i].len() ==> !is_white_space(#[trigger] words(s)[i][j]) by {
                if i == prev.len() - 1 {
                    assert(words(s)[i] == w);
                    assert forall|j: int| 0 <= j < w.len() implies !is_white_space(#[trigger] w[j]) by {
                        if j < w.len() - 1 {
                            assert(w[j] == prev[i][j]);
                        }
                    }
                } else {
                    assert(words(s)[i] == prev[i]);
                }
            }
        } else {
            assert forall|i: int| 0 <= i < words(s).len() implies #[trigger] words(s)[i].len() > 0
                && forall|j: int|
                0 <= j < words(s)[i].len() ==> !is_white_space(#[trigger] words(s)[i][j]) by {
                if i < prev.len() {
                    assert(words(s)[i] == prev[i]);
                } else {
                    assert(words(s)[i] == seq![c]);
                }
            }
        }
    }
}

pub proof fn lemma_join_well_spaced(ws: Seq<Seq<char>>)
    requires
        solid_words(ws),
    ensures
        well_spaced(join_with(ws, seq![' '])),
        ws.len() > 0 ==> join_with(ws, seq![' ']).len() > 0,
    decreases ws.len(),
{
    if ws.len() == 1 {
        let w = ws[0];
        assert(join_with(ws, seq![' ']) == w);
        assert(w.len() > 0);
        assert(!is_white_space(w[0]));
        assert(!is_white_space(w[w.len() - 1]));
    } else if ws.len() > 1 {
        let init = ws.drop_last();
        assert forall|i: int| 0 <= i < init.len() implies #[trigger] init[i].len() > 0 && forall|j: int|
            0 <= j < init[i].len() ==> !is_white_space(#[trigger] init[i][j]) by {
            assert(init[i] == ws[i]);
        }
        lemma_join_well_spaced(init);
        let a = join_with(init, seq![' ']);
        let b = ws.last();
        assert(b == ws[ws.len() - 1]);
        let r = a + seq![' '] + b;
        assert(join_with(ws, seq![' ']) == r);
        assert(b.len() > 0);
        assert forall|i: int| 0 <= i < r.len() && is_white_space(#[trigger] r[i]) implies r[i] == ' ' by {
            if i < a.len() {
                assert(r[i] == a[i]);
            } else if i > a.len() {
                assert(r[i] == b[i - a.len() - 1]);
            }
        }
        assert(r[0] == a[0]);
        assert(r.last() == b[b.len() - 1]);
        assert forall|i: int| 0 <= i < r.len() - 1 && #[trigger] r[i] == ' ' implies r[i + 1] != ' ' by {
            if i < a.len() - 1 {
                assert(r[i] == a[i]);
                assert(r[i + 1] == a[i + 1]);
            } else if i == a.len() - 1 {
                assert(r[i] == a.last());
                assert(is_white_space(' '));
            } else if i == a.len() {
                assert(r[i + 1] == b[0]);
            } else {
                assert(r[i] == b[i - a.len() - 1]);
                assert(is_white_space(' '));
            }
        }
    }
}

/// Collapsing whitespace leaves single spaces between words and no other
/// whitespace.
pub proof fn lemma_collapse_well_spaced(s: Seq<char>)
    ensures
        well_spaced(collapse_whitespace(s)),
{
    lemma_words_solid(s);
    lemma_join_well_spaced(words(s));
}

/// The words of `s` (see `words`), as `str::split_whitespace` gives them.
pub fn words_of(s: &[char]) -> (r: Vec<Vec<char>>)
    ensures
        r@.map_values(|w: Vec<char>| w@) == words(s@),
{
    let mut out: Vec<Vec<char>> = Vec::new();
    let mut in_word = false;
    let n = s.len();
    let mut i: usize = 0;
    while i < n
        invariant
            n == s@.len(),
            i <= n,
            out@.map_values(|w: Vec<char>| w@) == words(s@.take(i as int)),
            in_word == (i > 0 && !is_white_space(s@[i - 1])),
        decreases n - i,
    {
        let c = s[i];
        let ghost pre = s@.take(i as int);
        let ghost cur = s@.take(i + 1);
        let ghost before = out@.map_values(|w: Vec<char>| w@);
        proof {
            assert(cur.drop_last() == pre);
            assert(cur.last() == c);
            if i > 0 {
                assert(cur[cur.len() - 2] == s@[i - 1]);
                assert(pre.last() == s@[i - 1]);
            }
        }
        if is_white_space_char(c) {
            in_word = false;
        } else {
            if in_word {
                proof {
                    lemma_words_nonempty(pre);
                }
                let last = out.len() - 1;
                let mut w = out.pop().unwrap();
                w.push(c);
                out.push(w);
                assert(out@.map_values(|w: Vec<char>| w@) =~= before.update(
                    last as int,
                    before.last().push(c),
                ));
            } else {
                let mut w: Vec<char> = Vec::new();
                w.push(c);
                out.push(w);
                assert(out@.map_values(|w: Vec<char>| w@) =~= before.push(seq![c]));
            }
            in_word = true;
        }
        i += 1;
    }
    assert(s@.take(n as int) == s@);
    out
}

/// `s` up to its first `c` (all of `s` when `c` does not occur), as the
/// first piece of `str::split(c)`.
pub open spec fn prefix_before(s: Seq<char>, c: char) -> Seq<char>
    decreases s.len(),
{
    if s.len() == 0 {
        s
    } else if s[0] == c {
        seq![]
    } else {
        seq![s[0]] + prefix_before(s.drop_first(), c)
    }
}

/// The characters of `s` up to its first `c` (see `prefix_before`).
pub fn prefix_before_char(s: &[char], c: char) -> (r: Vec<char>)
    ensures
        r@ == prefix_before(s@, c),
{
    let mut out: Vec<char> = Vec::new();
    let n = s.len();
    let mut i: usize = 0;
    assert(s@.skip(0) == s@);
    while i < n && s[i] != c
        invariant
            n == s@.len(),
            i <= n,
            prefix_before(s@, c) == out@ + prefix_before(s@.skip(i as int), c),
        decreases n - i,
    {
        let ghost rest = s@.skip(i as int);
        assert(rest[0] == s@[i as int]);
        assert(rest.drop_first() == s@.skip(i + 1));
        out.push(s[i]);
        assert(out@ + prefix_before(s@.skip(i + 1), c) == (out@.drop_last() + seq![s@[i as int]])
            + prefix_before(s@.skip(i + 1), c));
        i += 1;
    }
    assert(prefix_before(s@.skip(i as int), c) == Seq::<char>::empty());
    out
}

/// Whether the characters of `a` are those of `b`.
pub fn text_is(a: &str, b: &str) -> (r: bool)
    ensures
        r == (a@ == b@),
{
    let x = chars_of(a);
    let y = chars_of(b);
    if x.len() != y.len() {
        return false;
    }
    let n = x.len();
    let mut i: usize = 0;
    while i < n
        invariant
            x@ == a@,
            y@ == b@,
            n == x@.len(),
            n == y@.len(),
            i <= n,
            forall|k: int| 0 <= k < i ==> x@[k] == y@[k],
        decreases n - i,
    {
        if x[i] != y[i] {
            assert(x@[i as int] != y@[i as int]);
            return false;
        }
        i += 1;
    }
    assert(x@ == y@);
    true
}

/// `c` with an ASCII capital turned into the small letter.
pub open spec fn ascii_lower(c: char) -> char {
    if 'A' <= c && c <= 'Z' {
        ((c as int) + 32) as char
    } else {
        c
    }
}

/// Whether `a` and `b` are equal when ASCII letters are compared without
/// regard to case (as `str::eq_ignore_ascii_case`).
pub open spec fn eq_ignore_ascii_case(a: Seq<char>, b: Seq<char>) -> bool {
    a.len() == b.len() && forall|i: int| 0 <= i < a.len() ==> ascii_lower(#[trigger] a[i]) == ascii_lower(b[i])
}

fn lower_char(c: char) -> (r: char)
    ensures
        r == ascii_lower(c),
{
    if 'A' <= c && c <= 'Z' {
        ((c as u8) + 32) as char
    } else {
        c
    }
}

/// Whether `a` and `b` are equal, case of ASCII letters aside (see
/// `eq_ignore_ascii_case`).
pub fn chars_eq_ignore_ascii_case(a: &[char], b: &[char]) -> (r: bool)
    ensures
        r == eq_ignore_ascii_case(a@, b@),
{
    if a.len() != b.len() {
        return false;
    }
    let n = a.len();
    let mut i: usize = 0;
    while i < n
        invariant
            n == a@.len(),
            n == b@.len(),
            i <= n,
            forall|k: int| 0 <= k < i ==> ascii_lower(#[trigger] a@[k]) == ascii_lower(b@[k]),
        decreases n - i,
    {
        if lower_char(a[i]) != lower_char(b[i]) {
            return false;
        }
        i += 1;
    }
    true
}

} // verus!
