use vstd::prelude::*;

use crate::text::{
    chars_eq_ignore_ascii_case, chars_of, eq_ignore_ascii_case, prefix_before, prefix_before_char,
    push_char, string_of, text_is, trim_chars, trimmed, words, words_of,
};

verus! {

/// Whether `needle` occurs in `haystack` starting at `p`.
pub open spec fn occurs_at(haystack: Seq<u8>, needle: Seq<u8>, p: int) -> bool {
    0 <= p && p + needle.len() <= haystack.len() && haystack.subrange(p, p + needle.len()) == needle
}

/// The first position at which `needle` occurs in `haystack`, if any.
pub fn find_bytes(haystack: &[u8], needle: &[u8]) -> (r: Option<usize>)
    requires
        needle@.len() > 0,
    ensures
        r matches Some(p) ==> occurs_at(haystack@, needle@, p as int) && forall|q: int|
            0 <= q < p ==> !occurs_at(haystack@, needle@, q),
        r is None ==> forall|q: int| !occurs_at(haystack@, needle@, q),
{
    let h = haystack.len();
    let n = needle.len();
    if n > h {
        return None;
    }
    let mut p: usize = 0;
    while p <= h - n
        invariant
            h == haystack@.len(),
            n == needle@.len(),
            n <= h,
            p <= h - n + 1,
            forall|q: int| 0 <= q < p ==> !occurs_at(haystack@, needle@, q),
        decreases h - n + 1 - p,
    {
        let mut k: usize = 0;
        while k < n && haystack[p + k] == needle[k]
            invariant
                h == haystack@.len(),
                n == needle@.len(),
                p + n <= h,
                k <= n,
                forall|j: int| 0 <= j < k ==> haystack@[p + j] == needle@[j],
            decreases n - k,
        {
            k += 1;
        }
        if k == n {
            assert(haystack@.subrange(p as int, p + n) =~= needle@);
            return Some(p);
        }
        assert(haystack@.subrange(p as int, p + n)[k as int] != needle@[k as int]);
        p += 1;
    }
    None
}

/// The text of `bytes` when they are valid UTF-8 (`std::str::from_utf8`).
/// Trusted: std returns the text exactly when the bytes are valid UTF-8,
/// and the text is the characters they encode.
#[verifier::external_body]
fn utf8_text(bytes: &[u8]) -> (r: Option<&str>)
    ensures
        r is Some <==> vstd::utf8::valid_utf8(bytes@),
        r matches Some(s) ==> s@ == vstd::utf8::decode_utf8(bytes@),
{
    std::str::from_utf8(bytes).ok()
}

/// The position of the first "\r\n" in `s`, if any.
pub open spec fn first_crlf(s: Seq<char>) -> Option<int>
    decreases s.len(),
{
    if s.len() < 2 {
        None
    } else if s[0] == '\r' && s[1] == '\n' {
        Some(0)
    } else {
        match first_crlf(s.drop_first()) {
            Some(i) => Some(i + 1),
            None => None,
        }
    }
}

/// The pieces of `s` between the "\r\n" separators (as `str::split("\r\n")`).
pub open spec fn crlf_lines(s: Seq<char>) -> Seq<Seq<char>>
    decreases s.len(),
{
    match first_crlf(s) {
        None => seq![s],
        Some(i) => if 0 <= i && i + 2 <= s.len() {
            seq![s.take(i)] + crlf_lines(s.skip(i + 2))
        } else {
            seq![s]
        },
    }
}

proof fn lemma_first_crlf_bounds(s: Seq<char>)
    ensures
        first_crlf(s) matches Some(i) ==> 0 <= i && i + 2 <= s.len() && s[i] == '\r' && s[i + 1]
            == '\n' && forall|j: int| 0 <= j < i ==> !(#[trigger] s[j] == '\r' && s[j + 1] == '\n'),
        first_crlf(s) is None ==> forall|j: int|
            0 <= j && j + 1 < s.len() ==> !(#[trigger] s[j] == '\r' && s[j + 1] == '\n'),
    decreases s.len(),
{
    if s.len() >= 2 && !(s[0] == '\r' && s[1] == '\n') {
        let t = s.drop_first();
        lemma_first_crlf_bounds(t);
        assert forall|j: int| 1 <= j && j + 1 < s.len() implies #[trigger] s[j] == t[j - 1] && s[j + 1] == t[j] by {}
    }
}

/// The position of the first "\r\n" in `s` at or after `from`.
fn find_crlf(s: &Vec<char>, from: usize) -> (r: Option<usize>)
    requires
        from <= s@.len(),
    ensures
        r matches Some(i) ==> first_crlf(s@.subrange(from as int, s@.len() as int)) == Some(
            i - from,
        ) && from <= i,
        r is None ==> first_crlf(s@.subrange(from as int, s@.len() as int)) is None,
{
    let n = s.len();
    let ghost t = s@.subrange(from as int, n as int);
    proof {
        lemma_first_crlf_bounds(t);
    }
    let mut j: usize = from;
    while n - j >= 2
        invariant
            n == s@.len(),
            from <= j <= n,
            t == s@.subrange(from as int, n as int),
            first_crlf(t) matches Some(i) ==> 0 <= i && i + 2 <= t.len() && t[i] == '\r' && t[i
                + 1] == '\n' && forall|k: int| 0 <= k < i ==> !(#[trigger] t[k] == '\r' && t[k + 1]
                == '\n'),
            first_crlf(t) is None ==> forall|k: int|
                0 <= k && k + 1 < t.len() ==> !(#[trigger] t[k] == '\r' && t[k + 1] == '\n'),
            forall|k: int| 0 <= k < j - from ==> !(#[trigger] t[k] == '\r' && t[k + 1] == '\n'),
        decreases n - j,
    {
        assert(t[j - from] == s@[j as int] && t[j - from + 1] == s@[j + 1]);
        if s[j] == '\r' && s[j + 1] == '\n' {
            proof {
                let x = j - from;
                assert(t[x] == '\r' && t[x + 1] == '\n');
                match first_crlf(t) {
                    Some(i) => {
                        if i < x {
                            assert(!(t[i] == '\r' && t[i + 1] == '\n'));
                        }
                        if i > x {
                            assert(!(t[x] == '\r' && t[x + 1] == '\n'));
                        }
                    },
                    None => {
                        assert(!(t[x] == '\r' && t[x + 1] == '\n'));
                    },
                }
            }
            return Some(j);
        }
        j += 1;
    }
    proof {
        match first_crlf(t) {
            Some(i) => {
                assert(!(t[i] == '\r' && t[i + 1] == '\n'));
            },
            None => {},
        }
    }
    None
}

/// The characters of `s` from `start` up to `end`.
fn slice_chars(s: &Vec<char>, start: usize, end: usize) -> (r: Vec<char>)
    requires
        start <= end <= s@.len(),
    ensures
        r@ == s@.subrange(start as int, end as int),
{
    let mut out: Vec<char> = Vec::new();
    let mut k: usize = start;
    while k < end
        invariant
            start <= k <= end <= s@.len(),
            out@ == s@.subrange(start as int, k as int),
        decreases end - k,
    {
        out.push(s[k]);
        assert(s@.subrange(start as int, k + 1) == s@.subrange(start as int, k as int).push(
            s@[k as int],
        ));
        k += 1;
    }
    out
}

/// The pieces of `s` between the "\r\n" separators (see `crlf_lines`).
pub fn split_crlf(s: &Vec<char>) -> (r: Vec<Vec<char>>)
    ensures
        r@.map_values(|l: Vec<char>| l@) == crlf_lines(s@),
{
    let n = s.len();
    let mut out: Vec<Vec<char>> = Vec::new();
    let mut start: usize = 0;
    assert(s@.subrange(0, n as int) == s@);
    loop
        invariant
            n == s@.len(),
            start <= n,
            out@.map_values(|l: Vec<char>| l@) + crlf_lines(s@.subrange(start as int, n as int))
                == crlf_lines(s@),
        decreases n - start,
    {
        let ghost rest = s@.subrange(start as int, n as int);
        proof {
            lemma_first_crlf_bounds(rest);
        }
        match find_crlf(s, start) {
            None => {
                let line = slice_chars(s, start, n);
                let ghost before = out@.map_values(|l: Vec<char>| l@);
                out.push(line);
                assert(out@.map_values(|l: Vec<char>| l@) == before.push(rest));
                assert(crlf_lines(rest) == seq![rest]);
                assert(before + seq![rest] == before.push(rest));
                return out;
            },
            Some(i) => {
                let line = slice_chars(s, start, i);
                let ghost before = out@.map_values(|l: Vec<char>| l@);
                out.push(line);
                proof {
                    let k = i - start;
                    assert(rest.take(k) == s@.subrange(start as int, i as int));
                    assert(rest.skip(k + 2) == s@.subrange(i + 2, n as int));
                    assert(out@.map_values(|l: Vec<char>| l@) == before.push(rest.take(k)));
                    assert(crlf_lines(rest) == seq![rest.take(k)] + crlf_lines(rest.skip(k + 2)));
                    assert(before.push(rest.take(k)) + crlf_lines(rest.skip(k + 2)) == before
                        + crlf_lines(rest));
                }
                start = i + 2;
            },
        }
    }
}

/// Whether `c` is one of the digits 0 to 9.
pub open spec fn is_digit(c: char) -> bool {
    '0' <= c && c <= '9'
}

/// The number that the decimal digits `d` spell.
pub open spec fn decimal_value(d: Seq<char>) -> nat
    decreases d.len(),
{
    if d.len() == 0 {
        0
    } else {
        10 * decimal_value(d.drop_last()) + ((d.last() as int) - ('0' as int)) as nat
    }
}

/// `s` without one leading '+'.
pub open spec fn unsigned_digits(s: Seq<char>) -> Seq<char> {
    if s.len() > 0 && s[0] == '+' {
        s.drop_first()
    } else {
        s
    }
}

/// What `str::parse::<usize>` gives for `s`: an optional '+', then one or
/// more digits whose value fits in a `usize`; anything else is an error.
pub open spec fn parsed_usize(s: Seq<char>) -> Option<usize> {
    let d = unsigned_digits(s);
    if d.len() == 0 || exists|i: int| 0 <= i < d.len() && !is_digit(#[trigger] d[i]) {
        None
    } else if decimal_value(d) > usize::MAX {
        None
    } else {
        Some(decimal_value(d) as usize)
    }
}

proof fn lemma_decimal_monotone(d: Seq<char>, k: int)
    requires
        0 <= k <= d.len(),
        forall|i: int| 0 <= i < d.len() ==> is_digit(#[trigger] d[i]),
    ensures
        decimal_value(d.take(k)) <= decimal_value(d),
    decreases d.len() - k,
{
    if k < d.len() {
        let e = d.take(k + 1);
        assert(e.drop_last() == d.take(k));
        assert(is_digit(e.last()));
        assert forall|i: int| 0 <= i < d.take(k + 1).len() implies is_digit(#[trigger] d.take(k + 1)[i]) by {
            assert(d.take(k + 1)[i] == d[i]);
        }
        lemma_decimal_monotone(d, k + 1);
    } else {
        assert(d.take(k) == d);
    }
}

/// The number `s` spells (see `parsed_usize`).
pub fn parse_usize(s: &[char]) -> (r: Option<usize>)
    ensures
        r == parsed_usize(s@),
{
    let n = s.len();
    let start: usize = if n > 0 && s[0] == '+' { 1 } else { 0 };
    let ghost d = unsigned_digits(s@);
    assert(d == s@.subrange(start as int, n as int));
    if start == n {
        return None;
    }
    let mut v: usize = 0;
    let mut i: usize = start;
    while i < n
        invariant
            n == s@.len(),
            start <= i <= n,
            d == s@.subrange(start as int, n as int),
            d == unsigned_digits(s@),
            forall|k: int| 0 <= k < i - start ==> is_digit(#[trigger] d[k]),
            v == decimal_value(d.take(i - start)),
        decreases n - i,
    {
        let c = s[i];
        assert(d[i - start] == c);
        if !('0' <= c && c <= '9') {
            assert(!is_digit(d[i - start]));
            return None;
        }
        let digit = (c as u32 - '0' as u32) as usize;
        assert(d.take(i - start + 1).drop_last() == d.take(i - start));
        assert(d.take(i - start + 1).last() == c);
        assert(decimal_value(d.take(i - start + 1)) == 10 * v + digit);
        match v.checked_mul(10) {
            None => {
                proof {
                    if forall|k: int| 0 <= k < d.len() ==> is_digit(#[trigger] d[k]) {
                        lemma_decimal_monotone(d, i - start + 1);
                    }
                }
                return None;
            },
            Some(t) => {
                match t.checked_add(digit) {
                    None => {
                        proof {
                            if forall|k: int| 0 <= k < d.len() ==> is_digit(#[trigger] d[k]) {
                                lemma_decimal_monotone(d, i - start + 1);
                            }
                        }
                        return None;
                    },
                    Some(w) => {
                        v = w;
                    },
                }
            },
        }
        i += 1;
    }
    assert(d.take(n - start) == d);
    Some(v)
}

/// The length that a header line gives, when it is a `Content-Length`
/// header (name compared without regard to ASCII case, both sides trimmed):
/// the number it holds, or 0 when that is not a number.
pub open spec fn header_content_length(line: Seq<char>) -> Option<usize> {
    let name = prefix_before(line, ':');
    if name.len() < line.len() && eq_ignore_ascii_case(trimmed(name), "content-length"@) {
        match parsed_usize(trimmed(line.skip(name.len() as int + 1))) {
            Some(v) => Some(v),
            None => Some(0),
        }
    } else {
        None
    }
}

/// The body length that the header lines give: that of the last
/// `Content-Length` header, or 0.
pub open spec fn content_length_of(lines: Seq<Seq<char>>) -> usize
    decreases lines.len(),
{
    if lines.len() == 0 {
        0
    } else {
        match header_content_length(lines.last()) {
            Some(v) => v,
            None => content_length_of(lines.drop_last()),
        }
    }
}

proof fn lemma_prefix_before_len(s: Seq<char>, c: char)
    ensures
        prefix_before(s, c).len() <= s.len(),
        prefix_before(s, c) == s.take(prefix_before(s, c).len() as int),
        prefix_before(s, c).len() < s.len() ==> s[prefix_before(s, c).len() as int] == c,
    decreases s.len(),
{
    if s.len() > 0 && s[0] != c {
        lemma_prefix_before_len(s.drop_first(), c);
        let p = prefix_before(s.drop_first(), c);
        assert(prefix_before(s, c) =~= s.take(p.len() as int + 1));
    }
}

/// The length a header line gives (see `header_content_length`).
fn line_content_length(line: &Vec<char>) -> (r: Option<usize>)
    ensures
        r == header_content_length(line@),
{
    let name = prefix_before_char(line.as_slice(), ':');
    proof {
        lemma_prefix_before_len(line@, ':');
    }
    if name.len() >= line.len() {
        return None;
    }
    let trimmed_name = trim_chars(name.as_slice());
    let key = chars_of("content-length");
    if !chars_eq_ignore_ascii_case(trimmed_name.as_slice(), key.as_slice()) {
        return None;
    }
    let value = slice_chars(line, name.len() + 1, line.len());
    assert(value@ == line@.skip(name@.len() as int + 1));
    let trimmed_value = trim_chars(value.as_slice());
    match parse_usize(trimmed_value.as_slice()) {
        Some(v) => Some(v),
        None => Some(0),
    }
}

/// The method, path and body length of a request.
pub struct RequestHead {
    pub method: String,
    pub path: String,
    pub content_length: usize,
}

/// The method of the request whose head is `text`: the first word of the
/// first line, or the empty text.
pub open spec fn request_method_of(text: Seq<char>) -> Seq<char> {
    let tokens = words(crlf_lines(text)[0]);
    if tokens.len() > 0 {
        tokens[0]
    } else {
        seq![]
    }
}

/// The path of the request whose head is `text`: the second word of the
/// first line up to any '?', or "/".
pub open spec fn request_path_of(text: Seq<char>) -> Seq<char> {
    let tokens = words(crlf_lines(text)[0]);
    prefix_before(
        if tokens.len() > 1 {
            tokens[1]
        } else {
            seq!['/']
        },
        '?',
    )
}

/// The body length of the request whose head is `text` (see
/// `content_length_of`).
pub open spec fn request_content_length_of(text: Seq<char>) -> usize {
    content_length_of(crlf_lines(text).drop_first())
}

proof fn lemma_crlf_lines_nonempty(s: Seq<char>)
    ensures
        crlf_lines(s).len() >= 1,
    decreases s.len(),
{
    match first_crlf(s) {
        Some(i) => if 0 <= i && i + 2 <= s.len() {
            lemma_crlf_lines_nonempty(s.skip(i + 2));
        },
        None => {},
    }
}

/// Reads the method, path and body length of a request whose head is
/// `text` (see `request_method_of`, `request_path_of`,
/// `request_content_length_of`).
pub fn parse_request_text(text: &str) -> (r: RequestHead)
    ensures
        r.method@ == request_method_of(text@),
        r.path@ == request_path_of(text@),
        r.content_length == request_content_length_of(text@),
{
    let chars = chars_of(text);
    let lines = split_crlf(&chars);
    proof {
        lemma_crlf_lines_nonempty(chars@);
    }
    let ghost views = lines@.map_values(|l: Vec<char>| l@);
    assert(views[0] == lines@[0]@);
    let tokens = words_of(lines[0].as_slice());
    let ghost tviews = tokens@.map_values(|w: Vec<char>| w@);
    let method = if tokens.len() > 0 {
        assert(tviews[0] == tokens@[0]@);
        string_of(tokens[0].as_slice())
    } else {
        String::new()
    };
    let path_chars = if tokens.len() > 1 {
        assert(tviews[1] == tokens@[1]@);
        prefix_before_char(tokens[1].as_slice(), '?')
    } else {
        let mut slash: Vec<char> = Vec::new();
        slash.push('/');
        prefix_before_char(slash.as_slice(), '?')
    };
    let path = string_of(path_chars.as_slice());
    let mut content_length: usize = 0;
    let n = lines.len();
    let mut i: usize = 1;
    while i < n
        invariant
            n == lines@.len(),
            n >= 1,
            1 <= i <= n,
            views == lines@.map_values(|l: Vec<char>| l@),
            content_length == content_length_of(views.subrange(1, i as int)),
        decreases n - i,
    {
        assert(views.subrange(1, i + 1).drop_last() == views.subrange(1, i as int));
        assert(views.subrange(1, i + 1).last() == lines@[i as int]@);
        match line_content_length(&lines[i]) {
            Some(v) => {
                content_length = v;
            },
            None => {},
        }
        i += 1;
    }
    assert(views.subrange(1, n as int) == views.drop_first());
    RequestHead { method, path, content_length }
}

/// The most bytes a request head may take.
pub const MAX_HEADER: usize = 65536;

/// The largest body a request may declare.
pub const MAX_BODY: usize = 10485760;

/// The end of a request head.
pub open spec fn head_terminator() -> Seq<u8> {
    seq![13u8, 10u8, 13u8, 10u8]
}

/// The position just past the first blank line ("\r\n\r\n") of `b`, if any.
pub open spec fn header_end_in(b: Seq<u8>) -> Option<int> {
    if exists|p: int| occurs_at(b, head_terminator(), p) {
        Some(
            (choose|p: int|
                occurs_at(b, head_terminator(), p) && forall|q: int|
                    0 <= q < p ==> !occurs_at(b, head_terminator(), q)) + 4,
        )
    } else {
        None
    }
}

/// Why a request could not be read.
#[derive(Debug, Clone, Copy, PartialEq, Eq, Structural)]
pub enum RequestError {
    ClosedBeforeHeaders,
    HeadersTooLarge,
    InvalidHeaderEncoding,
    BodyTooLarge,
    IncompleteBody,
}

impl RequestError {
    pub open spec fn message_of(self) -> Seq<char> {
        match self {
            RequestError::ClosedBeforeHeaders => "Connection closed before request headers completed"@,
            RequestError::HeadersTooLarge => "HTTP request headers are too large"@,
            RequestError::InvalidHeaderEncoding => "Invalid HTTP request header encoding"@,
            RequestError::BodyTooLarge => "HTTP request body is too large"@,
            RequestError::IncompleteBody => "Incomplete HTTP request body"@,
        }
    }

    /// What the error says to the client.
    pub fn message(&self) -> (r: &'static str)
        ensures
            r@ == self.message_of(),
    {
        match self {
            RequestError::ClosedBeforeHeaders => "Connection closed before request headers completed",
            RequestError::HeadersTooLarge => "HTTP request headers are too large",
            RequestError::InvalidHeaderEncoding => "Invalid HTTP request header encoding",
            RequestError::BodyTooLarge => "HTTP request body is too large",
            RequestError::IncompleteBody => "Incomplete HTTP request body",
        }
    }
}

/// A request as read from a connection.
pub struct HttpRequest {
    pub method: String,
    pub path: String,
    pub body: Vec<u8>,
}

/// What the connection loop does after handing a chunk to the reader.
pub enum ReadStep {
    /// Read another chunk and hand it over.
    ReadMore,
    /// The request is complete.
    Done(HttpRequest),
    /// The request is refused.
    Failed(RequestError),
}

/// The request being read from a connection: the bytes so far and, once the
/// head is complete, what it says and where it ends.
pub struct RequestReader {
    buf: Vec<u8>,
    head: Option<RequestHead>,
    header_end: usize,
}

impl RequestReader {
    pub closed spec fn bytes(&self) -> Seq<u8> {
        self.buf@
    }

    /// Whether the head has been read.
    pub closed spec fn has_head(&self) -> bool {
        self.head is Some
    }

    pub closed spec fn head_method(&self) -> Seq<char> {
        self.head->Some_0.method@
    }

    pub closed spec fn head_path(&self) -> Seq<char> {
        self.head->Some_0.path@
    }

    pub closed spec fn head_length(&self) -> usize {
        self.head->Some_0.content_length
    }

    pub closed spec fn head_end(&self) -> int {
        self.header_end as int
    }

    /// The reader's invariant: before the head is complete at most
    /// `MAX_HEADER` bytes are held; after it, the head ends within them, the
    /// declared body is at most `MAX_BODY` bytes and not yet complete.
    pub closed spec fn wf(&self) -> bool {
        &&& self.head is None ==> self.buf@.len() <= MAX_HEADER
        &&& self.head matches Some(h) ==> {
            &&& self.header_end <= MAX_HEADER + 4
            &&& self.header_end <= self.buf@.len()
            &&& h.content_length <= MAX_BODY
            &&& self.buf@.len() < self.header_end + h.content_length
        }
    }

    /// A reader that has read nothing.
    pub fn new() -> (r: RequestReader)
        ensures
            r.wf(),
            r.bytes() == Seq::<u8>::empty(),
            !r.has_head(),
    {
        RequestReader { buf: Vec::new(), head: None, header_end: 0 }
    }

    fn append(&mut self, chunk: &[u8])
        requires
            old(self).buf@.len() + chunk@.len() <= usize::MAX,
        ensures
            final(self).buf@ == old(self).buf@ + chunk@,
            final(self).head == old(self).head,
            final(self).header_end == old(self).header_end,
    {
        let ghost start = self.buf@;
        let n = chunk.len();
        let mut i: usize = 0;
        while i < n
            invariant
                n == chunk@.len(),
                i <= n,
                self.buf@ == start + chunk@.take(i as int),
                self.head == old(self).head,
                self.header_end == old(self).header_end,
            decreases n - i,
        {
            self.buf.push(chunk[i]);
            assert(chunk@.take(i + 1) == chunk@.take(i as int).push(chunk@[i as int]));
            i += 1;
        }
        assert(chunk@.take(n as int) == chunk@);
    }

    fn body_slice(&self, start: usize, end: usize) -> (r: Vec<u8>)
        requires
            start <= end <= self.buf@.len(),
        ensures
            r@ == self.buf@.subrange(start as int, end as int),
    {
        let mut out: Vec<u8> = Vec::new();
        let mut k: usize = start;
        while k < end
            invariant
                start <= k <= end <= self.buf@.len(),
                out@ == self.buf@.subrange(start as int, k as int),
            decreases end - k,
        {
            out.push(self.buf[k]);
            assert(self.buf@.subrange(start as int, k + 1) == self.buf@.subrange(
                start as int,
                k as int,
            ).push(self.buf@[k as int]));
            k += 1;
        }
        out
    }

    /// Hands the reader the next chunk read from the connection (empty when
    /// the connection is closed) and says what to do next.
    ///
    /// Before the head is complete: a closed connection fails; the chunk is
    /// added, more than `MAX_HEADER` bytes fail; when the bytes hold a blank
    /// line, the head before it must be UTF-8 and declare at most
    /// `MAX_BODY` body bytes, and the request is done when the body is all
    /// there. After the head: a closed connection fails; the request is done
    /// when the body is all there.
    pub fn feed(&mut self, chunk: &[u8]) -> (r: ReadStep)
        requires
            old(self).wf(),
            chunk@.len() <= usize::MAX - MAX_HEADER - MAX_BODY - 8,
        ensures
            final(self).wf(),
            !old(self).has_head() ==> if chunk@.len() == 0 {
                r matches ReadStep::Failed(e) && e == RequestError::ClosedBeforeHeaders
            } else if old(self).bytes().len() + chunk@.len() > MAX_HEADER {
                r matches ReadStep::Failed(e) && e == RequestError::HeadersTooLarge
            } else {
                let b = old(self).bytes() + chunk@;
                match header_end_in(b) {
                    None => r is ReadMore && final(self).bytes() == b && !final(self).has_head(),
                    Some(he) => {
                        let h = b.take(he);
                        if !vstd::utf8::valid_utf8(h) {
                            r matches ReadStep::Failed(e) && e == RequestError::InvalidHeaderEncoding
                        } else {
                            let text = vstd::utf8::decode_utf8(h);
                            let cl = request_content_length_of(text);
                            if cl > MAX_BODY {
                                r matches ReadStep::Failed(e) && e == RequestError::BodyTooLarge
                            } else if b.len() >= he + cl {
                                r matches ReadStep::Done(req) && req.method@ == request_method_of(text)
                                    && req.path@ == request_path_of(text) && req.body@
                                    == b.subrange(he, he + cl)
                            } else {
                                &&& r is ReadMore
                                &&& final(self).bytes() == b
                                &&& final(self).has_head()
                                &&& final(self).head_method() == request_method_of(text)
                                &&& final(self).head_path() == request_path_of(text)
                                &&& final(self).head_length() == cl
                                &&& final(self).head_end() == he
                            }
                        }
                    },
                }
            },
            old(self).has_head() ==> if chunk@.len() == 0 {
                r matches ReadStep::Failed(e) && e == RequestError::IncompleteBody
            } else {
                let b = old(self).bytes() + chunk@;
                let he = old(self).head_end();
                let cl = old(self).head_length();
                if b.len() >= he + cl {
                    r matches ReadStep::Done(req) && req.method@ == old(self).head_method()
                        && req.path@ == old(self).head_path() && req.body@ == b.subrange(he, he + cl)
                } else {
                    &&& r is ReadMore
                    &&& final(self).bytes() == b
                    &&& final(self).has_head()
                    &&& final(self).head_method() == old(self).head_method()
                    &&& final(self).head_path() == old(self).head_path()
                    &&& final(self).head_length() == cl
                    &&& final(self).head_end() == he
                }
            },
    {
        if self.head.is_some() {
            if chunk.len() == 0 {
                return ReadStep::Failed(RequestError::IncompleteBody);
            }
            self.append(chunk);
            let he = self.header_end;
            let cl = match &self.head {
                Some(h) => h.content_length,
                None => 0,
            };
            if self.buf.len() >= he + cl {
                let body = self.body_slice(he, he + cl);
                let head = self.head.take();
                self.buf = Vec::new();
                self.header_end = 0;
                match head {
                    Some(h) => {
                        return ReadStep::Done(HttpRequest { method: h.method, path: h.path, body });
                    },
                    None => {
                        return ReadStep::ReadMore;
                    },
                }
            }
            return ReadStep::ReadMore;
        }
        if chunk.len() == 0 {
            return ReadStep::Failed(RequestError::ClosedBeforeHeaders);
        }
        if self.buf.len() + chunk.len() > MAX_HEADER {
            return ReadStep::Failed(RequestError::HeadersTooLarge);
        }
        self.append(chunk);
        let ghost b = self.buf@;
        let terminator: [u8; 4] = [13u8, 10u8, 13u8, 10u8];
        assert(terminator@ == head_terminator());
        match find_bytes(self.buf.as_slice(), terminator.as_slice()) {
            None => {
                assert(!exists|p: int| occurs_at(b, head_terminator(), p));
                ReadStep::ReadMore
            },
            Some(p) => {
                proof {
                    let c = choose|q: int|
                        occurs_at(b, head_terminator(), q) && forall|k: int|
                            0 <= k < q ==> !occurs_at(b, head_terminator(), k);
                    assert(occurs_at(b, head_terminator(), p as int));
                    if c < p {
                    } else if c > p {
                    }
                    assert(c == p);
                }
                let he = p + 4;
                let head_bytes = self.body_slice(0, he);
                assert(head_bytes@ == b.take(he as int));
                match utf8_text(head_bytes.as_slice()) {
                    None => ReadStep::Failed(RequestError::InvalidHeaderEncoding),
                    Some(text) => {
                        let head = parse_request_text(text);
                        if head.content_length > MAX_BODY {
                            return ReadStep::Failed(RequestError::BodyTooLarge);
                        }
                        let cl = head.content_length;
                        if self.buf.len() >= he + cl {
                            let body = self.body_slice(he, he + cl);
                            ReadStep::Done(HttpRequest { method: head.method, path: head.path, body })
                        } else {
                            self.header_end = he;
                            self.head = Some(head);
                            ReadStep::ReadMore
                        }
                    },
                }
            },
        }
    }
}

/// What the local web interface does with a request.
#[derive(Debug, Clone, Copy, PartialEq, Eq, Structural)]
pub enum Route {
    Index,
    AppJs,
    AppCss,
    Favicon,
    Health,
    Bootstrap,
    SaveConfig,
    DbTest,
    DbDatabases,
    DbTables,
    DbColumns,
    JobStart,
    JobResume,
    JobPause,
    JobStop,
    History,
    ReportLoad,
    ReportExport,
    NotFound,
}

/// The route of a request by its method and path.
pub open spec fn route_of(method: Seq<char>, path: Seq<char>) -> Route {
    if (method == "GET"@ && path == "/"@) || (method == "GET"@ && path == "/index.html"@) {
        Route::Index
    } else if (method == "GET"@ && path == "/app.js"@) {
        Route::AppJs
    } else if (method == "GET"@ && path == "/app.css"@) {
        Route::AppCss
    } else if (method == "GET"@ && path == "/favicon.ico"@) {
        Route::Favicon
    } else if (method == "GET"@ && path == "/api/health"@) {
        Route::Health
    } else if (method == "GET"@ && path == "/api/bootstrap"@) {
        Route::Bootstrap
    } else if (method == "POST"@ && path == "/api/config/save"@) {
        Route::SaveConfig
    } else if (method == "POST"@ && path == "/api/db/test"@) {
        Route::DbTest
    } else if (method == "POST"@ && path == "/api/db/databases"@) {
        Route::DbDatabases
    } else if (method == "POST"@ && path == "/api/db/tables"@) {
        Route::DbTables
    } else if (method == "POST"@ && path == "/api/db/columns"@) {
        Route::DbColumns
    } else if (method == "POST"@ && path == "/api/job/start"@) {
        Route::JobStart
    } else if (method == "POST"@ && path == "/api/job/resume"@) {
        Route::JobResume
    } else if (method == "POST"@ && path == "/api/job/pause"@) {
        Route::JobPause
    } else if (method == "POST"@ && path == "/api/job/stop"@) {
        Route::JobStop
    } else if (method == "POST"@ && path == "/api/history"@) {
        Route::History
    } else if (method == "POST"@ && path == "/api/report/load"@) {
        Route::ReportLoad
    } else if (method == "POST"@ && path == "/api/report/export"@) {
        Route::ReportExport
    } else {
        Route::NotFound
    }
}

/// Every route but `NotFound` answers exactly one method and path (the
/// index answers two paths): a request routed somewhere was that method on
/// that path, so distinct requests never share a handler.
pub proof fn lemma_route_answers(method: Seq<char>, path: Seq<char>)
    ensures
        ({
            let r = route_of(method, path);
            &&& r is Index ==> method == "GET"@ && (path == "/"@ || path == "/index.html"@)
            &&& r is AppJs ==> method == "GET"@ && path == "/app.js"@
            &&& r is AppCss ==> method == "GET"@ && path == "/app.css"@
            &&& r is Favicon ==> method == "GET"@ && path == "/favicon.ico"@
            &&& r is Health ==> method == "GET"@ && path == "/api/health"@
            &&& r is Bootstrap ==> method == "GET"@ && path == "/api/bootstrap"@
            &&& r is SaveConfig ==> method == "POST"@ && path == "/api/config/save"@
            &&& r is DbTest ==> method == "POST"@ && path == "/api/db/test"@
            &&& r is DbDatabases ==> method == "POST"@ && path == "/api/db/databases"@
            &&& r is DbTables ==> method == "POST"@ && path == "/api/db/tables"@
            &&& r is DbColumns ==> method == "POST"@ && path == "/api/db/columns"@
            &&& r is JobStart ==> method == "POST"@ && path == "/api/job/start"@
            &&& r is JobResume ==> method == "POST"@ && path == "/api/job/resume"@
            &&& r is JobPause ==> method == "POST"@ && path == "/api/job/pause"@
            &&& r is JobStop ==> method == "POST"@ && path == "/api/job/stop"@
            &&& r is History ==> method == "POST"@ && path == "/api/history"@
            &&& r is ReportLoad ==> method == "POST"@ && path == "/api/report/load"@
            &&& r is ReportExport ==> method == "POST"@ && path == "/api/report/export"@
        }),
{
}

/// Two requests that reach the same handler other than the index or
/// `NotFound` are the same method on the same path.
pub proof fn lemma_route_distinct(m1: Seq<char>, p1: Seq<char>, m2: Seq<char>, p2: Seq<char>)
    ensures
        route_of(m1, p1) == route_of(m2, p2) && !(route_of(m1, p1) is NotFound) && !(route_of(
            m1,
            p1,
        ) is Index) ==> m1 == m2 && p1 == p2,
{
    lemma_route_answers(m1, p1);
    lemma_route_answers(m2, p2);
}

/// The route of a request (see `route_of`).
pub fn route_for(method: &str, path: &str) -> (r: Route)
    ensures
        r == route_of(method@, path@),
{
    let is_get = text_is(method, "GET");
    let is_post = text_is(method, "POST");
    proof {
        if is_get {
            assert(method@ == "GET"@);
        }
        if is_post {
            assert(method@ == "POST"@);
        }
    }
    if (is_get && text_is(path, "/")) || (is_get && text_is(path, "/index.html")) {
        Route::Index
    } else if (is_get && text_is(path, "/app.js")) {
        Route::AppJs
    } else if (is_get && text_is(path, "/app.css")) {
        Route::AppCss
    } else if (is_get && text_is(path, "/favicon.ico")) {
        Route::Favicon
    } else if (is_get && text_is(path, "/api/health")) {
        Route::Health
    } else if (is_get && text_is(path, "/api/bootstrap")) {
        Route::Bootstrap
    } else if (is_post && text_is(path, "/api/config/save")) {
        Route::SaveConfig
    } else if (is_post && text_is(path, "/api/db/test")) {
        Route::DbTest
    } else if (is_post && text_is(path, "/api/db/databases")) {
        Route::DbDatabases
    } else if (is_post && text_is(path, "/api/db/tables")) {
        Route::DbTables
    } else if (is_post && text_is(path, "/api/db/columns")) {
        Route::DbColumns
    } else if (is_post && text_is(path, "/api/job/start")) {
        Route::JobStart
    } else if (is_post && text_is(path, "/api/job/resume")) {
        Route::JobResume
    } else if (is_post && text_is(path, "/api/job/pause")) {
        Route::JobPause
    } else if (is_post && text_is(path, "/api/job/stop")) {
        Route::JobStop
    } else if (is_post && text_is(path, "/api/history")) {
        Route::History
    } else if (is_post && text_is(path, "/api/report/load")) {
        Route::ReportLoad
    } else if (is_post && text_is(path, "/api/report/export")) {
        Route::ReportExport
    } else {
        Route::NotFound
    }
}

/// The decimal digits of `n`, without leading zeros ("0" for zero).
pub open spec fn decimal_text(n: nat) -> Seq<char>
    decreases n,
{
    if n < 10 {
        seq![(n + ('0' as int)) as char]
    } else {
        decimal_text(n / 10).push(((n % 10) + ('0' as int)) as char)
    }
}

/// The decimal form of `n` (see `decimal_text`).
pub fn decimal_string(n: u64) -> (r: String)
    ensures
        r@ == decimal_text(n as nat),
{
    let mut digits: Vec<char> = Vec::new();
    let mut m: u64 = n;
    let ghost mut done: Seq<char> = seq![];
    loop
        invariant_except_break
            decimal_text(n as nat) == decimal_text(m as nat) + done,
        invariant
            digits@.len() == done.len(),
            forall|k: int| 0 <= k < done.len() ==> digits@[k] == done[done.len() - 1 - k],
        ensures
            decimal_text(n as nat) == done,
        decreases m,
    {
        let d = (m % 10) as u32;
        let c = ((d as u8) + 48) as char;
        if m < 10 {
            digits.push(c);
            proof {
                assert(decimal_text(m as nat) == seq![c]);
                done = seq![c] + done;
            }
            break;
        }
        digits.push(c);
        proof {
            assert(decimal_text(m as nat) == decimal_text((m / 10) as nat).push(c));
            assert(decimal_text(n as nat) == decimal_text((m / 10) as nat) + (seq![c] + done));
            done = seq![c] + done;
        }
        m = m / 10;
    }
    let mut out = String::new();
    let len = digits.len();
    let mut i: usize = 0;
    while i < len
        invariant
            len == digits@.len(),
            len == done.len(),
            i <= len,
            forall|k: int| 0 <= k < done.len() ==> digits@[k] == done[done.len() - 1 - k],
            out@ == done.take(i as int),
        decreases len - i,
    {
        push_char(&mut out, digits[len - 1 - i]);
        assert(done.take(i + 1) == done.take(i as int).push(done[i as int]));
        i += 1;
    }
    assert(done.take(len as int) == done);
    out
}

/// The reason phrase sent with `status`.
pub open spec fn reason_of(status: u16) -> Seq<char> {
    if status == 200 {
        "OK"@
    } else if status == 204 {
        "No Content"@
    } else if status == 400 {
        "Bad Request"@
    } else if status == 404 {
        "Not Found"@
    } else if status == 500 {
        "Internal Server Error"@
    } else {
        "OK"@
    }
}

/// The reason phrase sent with `status` (see `reason_of`).
pub fn reason_phrase(status: u16) -> (r: &'static str)
    ensures
        r@ == reason_of(status),
{
    if status == 200 {
        "OK"
    } else if status == 204 {
        "No Content"
    } else if status == 400 {
        "Bad Request"
    } else if status == 404 {
        "Not Found"
    } else if status == 500 {
        "Internal Server Error"
    } else {
        "OK"
    }
}

/// The status line and headers of a response with status `status`, content
/// type `content_type` and a body of `body_len` bytes.
pub open spec fn response_head_of(status: u16, content_type: Seq<char>, body_len: nat) -> Seq<char> {
    "HTTP/1.1 "@ + decimal_text(status as nat) + " "@ + reason_of(status) + "\r\nContent-Type: "@
        + content_type + "\r\nContent-Length: "@ + decimal_text(body_len)
        + "\r\nCache-Control: no-store\r\nX-Content-Type-Options: nosniff\r\nConnection: close\r\n\r\n"@
}

/// The head of a response (see `response_head_of`).
pub fn response_head(status: u16, content_type: &str, body_len: usize) -> (r: String)
    ensures
        r@ == response_head_of(status, content_type@, body_len as nat),
{
    let mut out = String::from_str("HTTP/1.1 ");
    let code = decimal_string(status as u64);
    out.append(code.as_str());
    out.append(" ");
    out.append(reason_phrase(status));
    out.append("\r\nContent-Type: ");
    out.append(content_type);
    out.append("\r\nContent-Length: ");
    let len = decimal_string(body_len as u64);
    out.append(len.as_str());
    out.append("\r\nCache-Control: no-store\r\nX-Content-Type-Options: nosniff\r\nConnection: close\r\n\r\n");
    out
}

/// A response: status, content type and body.
pub struct HttpResponse {
    pub status: u16,
    pub content_type: &'static str,
    pub body: Vec<u8>,
}

/// A response whose body is the UTF-8 bytes of `text`.
pub fn text_response(status: u16, content_type: &'static str, text: &str) -> (r: HttpResponse)
    ensures
        r.status == status,
        r.content_type == content_type,
        r.body@ == vstd::utf8::encode_utf8(text@),
{
    let bytes = text.as_bytes();
    let mut body: Vec<u8> = Vec::new();
    let n = bytes.len();
    let mut i: usize = 0;
    while i < n
        invariant
            n == bytes@.len(),
            i <= n,
            body@ == bytes@.take(i as int),
        decreases n - i,
    {
        body.push(bytes[i]);
        assert(bytes@.take(i + 1) == bytes@.take(i as int).push(bytes@[i as int]));
        i += 1;
    }
    assert(bytes@.take(n as int) == bytes@);
    HttpResponse { status, content_type, body }
}

/// How many jobs the history lists when the request does not say.
pub fn default_history_limit() -> (r: usize)
    ensures
        r == 100,
{
    100
}

/// The number of jobs the history lists for a requested `limit`: between 1
/// and 500.
pub fn history_limit(limit: usize) -> (r: usize)
    ensures
        r == if limit < 1 {
            1
        } else if limit > 500 {
            500
        } else {
            limit
        },
{
    if limit < 1 {
        1
    } else if limit > 500 {
        500
    } else {
        limit
    }
}

proof fn lemma_decimal_text_digits(n: nat)
    ensures
        decimal_text(n).len() >= 1,
        forall|i: int| 0 <= i < decimal_text(n).len() ==> is_digit(#[trigger] decimal_text(n)[i]),
        decimal_value(decimal_text(n)) == n,
    decreases n,
{
    if n < 10 {
        let t = decimal_text(n);
        assert(t.drop_last() == Seq::<char>::empty());
        assert(((n + ('0' as int)) as char) as int == n + ('0' as int));
        assert(t.last() == (n + ('0' as int)) as char);
        assert(decimal_value(t.drop_last()) == 0);
        assert(decimal_value(t) == 10 * decimal_value(t.drop_last()) + ((t.last() as int) - ('0' as int)) as nat);
    } else {
        lemma_decimal_text_digits(n / 10);
        let t = decimal_text(n);
        assert(t.drop_last() == decimal_text(n / 10));
        assert((((n % 10) + ('0' as int)) as char) as int == (n % 10) + ('0' as int));
        assert(n == 10 * (n / 10) + n % 10) by (nonlinear_arith);
        assert(t.last() == ((n % 10) + ('0' as int)) as char);
        assert(decimal_value(t) == 10 * decimal_value(t.drop_last()) + ((t.last() as int) - ('0' as int)) as nat);
        assert forall|i: int| 0 <= i < t.len() implies is_digit(#[trigger] t[i]) by {
            if i < t.len() - 1 {
                assert(t[i] == decimal_text(n / 10)[i]);
            }
        }
    }
}

/// A length written as decimal digits reads back as the same length: the
/// `Content-Length` this server writes is the one it would parse.
pub proof fn lemma_decimal_round_trip(n: usize)
    ensures
        parsed_usize(decimal_text(n as nat)) == Some(n),
{
    lemma_decimal_text_digits(n as nat);
    let t = decimal_text(n as nat);
    assert(is_digit(t[0]));
    assert(unsigned_digits(t) == t);
}

} // verus!
