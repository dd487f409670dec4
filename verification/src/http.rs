use vstd::prelude::*;
use vstd::utf8::{decode_utf8, valid_utf8};

use crate::text::{
    all_digits, decimal_value, first_index_of, is_digit, lemma_first_index_of, parse_i32, parse_i32_exec,
    trim, trim_bounds,
};

verus! {

/// `s` begins with `p`.
pub open spec fn has_prefix<T>(s: Seq<T>, p: Seq<T>) -> bool {
    p.len() <= s.len() && s.subrange(0, p.len() as int) == p
}

/// `n` occurs in `s` starting at position `i`.
pub open spec fn occurs_at<T>(s: Seq<T>, n: Seq<T>, i: int) -> bool {
    0 <= i && i + n.len() <= s.len() && s.subrange(i, i + n.len()) == n
}

/// `n` occurs somewhere in `s`.
pub open spec fn contains_seq<T>(s: Seq<T>, n: Seq<T>) -> bool {
    exists|i: int| occurs_at(s, n, i)
}

/// The HTTP/2 connection preface, `PRI * HTTP/2.0\r\n`.
pub open spec fn http2_preface() -> Seq<u8> {
    seq![0x50u8, 0x52, 0x49, 0x20, 0x2a, 0x20, 0x48, 0x54, 0x54, 0x50, 0x2f, 0x32, 0x2e, 0x30, 0x0d, 0x0a]
}

/// `GET `
pub open spec fn method_get() -> Seq<u8> {
    seq![0x47u8, 0x45, 0x54, 0x20]
}

/// `POST`
pub open spec fn method_post() -> Seq<u8> {
    seq![0x50u8, 0x4f, 0x53, 0x54]
}

/// `PUT `
pub open spec fn method_put() -> Seq<u8> {
    seq![0x50u8, 0x55, 0x54, 0x20]
}

/// `DELETE`
pub open spec fn method_delete() -> Seq<u8> {
    seq![0x44u8, 0x45, 0x4c, 0x45, 0x54, 0x45]
}

/// `HEAD`
pub open spec fn method_head() -> Seq<u8> {
    seq![0x48u8, 0x45, 0x41, 0x44]
}

/// `OPTIONS`
pub open spec fn method_options() -> Seq<u8> {
    seq![0x4fu8, 0x50, 0x54, 0x49, 0x4f, 0x4e, 0x53]
}

/// `Upgrade: websocket`
pub open spec fn websocket_upgrade() -> Seq<u8> {
    seq![0x55u8, 0x70, 0x67, 0x72, 0x61, 0x64, 0x65, 0x3a, 0x20, 0x77, 0x65, 0x62, 0x73, 0x6f, 0x63, 0x6b, 0x65, 0x74]
}

/// Whether `buf` begins with `pat`.
pub fn starts_with(buf: &[u8], pat: &[u8]) -> (r: bool)
    ensures
        r == has_prefix(buf@, pat@),
{
    if pat.len() > buf.len() {
        return false;
    }
    let mut i: usize = 0;
    while i < pat.len()
        invariant
            pat.len() <= buf.len(),
            i <= pat.len(),
            forall|k: int| 0 <= k < i ==> buf@[k] == pat@[k],
        decreases pat.len() - i,
    {
        if buf[i] != pat[i] {
            assert(buf@.subrange(0, pat@.len() as int)[i as int] != pat@[i as int]);
            return false;
        }
        i = i + 1;
    }
    assert(buf@.subrange(0, pat@.len() as int) =~= pat@);
    true
}

/// Whether `pat` occurs in `buf` at position `at`.
fn occurs_at_exec(buf: &[u8], pat: &[u8], at: usize) -> (r: bool)
    requires
        at + pat.len() <= buf.len(),
    ensures
        r == occurs_at(buf@, pat@, at as int),
{
    let mut i: usize = 0;
    while i < pat.len()
        invariant
            at + pat.len() <= buf.len(),
            i <= pat.len(),
            forall|k: int| 0 <= k < i ==> buf@[at + k] == pat@[k],
        decreases pat.len() - i,
    {
        if buf[at + i] != pat[i] {
            assert(buf@.subrange(at as int, at + pat@.len())[i as int] != pat@[i as int]);
            return false;
        }
        i = i + 1;
    }
    assert(buf@.subrange(at as int, at + pat@.len()) =~= pat@);
    true
}

/// Whether `pat` occurs anywhere in `buf`.
pub fn contains(buf: &[u8], pat: &[u8]) -> (r: bool)
    ensures
        r == contains_seq(buf@, pat@),
{
    if pat.len() > buf.len() {
        return false;
    }
    let last = buf.len() - pat.len();
    let mut at: usize = 0;
    loop
        invariant
            last + pat.len() == buf.len(),
            at <= last,
            forall|j: int| 0 <= j < at ==> !occurs_at(buf@, pat@, j),
        decreases last - at,
    {
        if occurs_at_exec(buf, pat, at) {
            return true;
        }
        if at == last {
            return false;
        }
        at = at + 1;
    }
}

/// `Host: `
pub open spec fn host_header_prefix() -> Seq<char> {
    seq!['H', 'o', 's', 't', ':', ' ']
}

/// The length of the first line of `s`: the characters before the first '\n'.
pub open spec fn first_line_len(s: Seq<char>) -> nat
    decreases s.len(),
{
    if s.len() == 0 || s[0] == '\n' {
        0
    } else {
        1 + first_line_len(s.drop_first())
    }
}

pub proof fn lemma_first_line_len_bound(s: Seq<char>)
    ensures
        first_line_len(s) <= s.len(),
    decreases s.len(),
{
    if s.len() > 0 && s[0] != '\n' {
        lemma_first_line_len_bound(s.drop_first());
    }
}

proof fn lemma_first_line_len(s: Seq<char>, m: int)
    requires
        0 <= m <= s.len(),
        forall|k: int| 0 <= k < m ==> s[k] != '\n',
        m == s.len() || s[m] == '\n',
    ensures
        first_line_len(s) == m,
    decreases m,
{
    if m > 0 {
        lemma_first_line_len(s.drop_first(), m - 1);
    }
}

/// The trimmed value of the first line of `s` that begins with `Host: `.
/// Lines are what lies between '\n' characters; a '\r' before the '\n' is
/// white space and goes with the trimming.
pub open spec fn host_header_value(s: Seq<char>) -> Option<Seq<char>>
    decreases s.len(),
{
    let n = first_line_len(s);
    let line = s.take(n as int);
    if has_prefix(line, host_header_prefix()) {
        Some(trim(line.skip(6)))
    } else if n >= s.len() {
        None
    } else {
        proof {
            lemma_first_line_len_bound(s);
        }
        host_header_value(s.skip(n + 1int))
    }
}

/// The Host header that a request buffer carries: none unless the buffer is
/// valid UTF-8.
pub open spec fn host_in_buffer(buf: Seq<u8>) -> Option<Seq<char>> {
    if valid_utf8(buf) {
        host_header_value(decode_utf8(buf))
    } else {
        None
    }
}

/// Locates the Host header's value in `text`, as bounds into `text`.
pub fn find_host_value(text: &Vec<char>) -> (r: Option<(usize, usize)>)
    ensures
        match r {
            Some((a, b)) => a <= b <= text@.len() && host_header_value(text@) == Some(
                text@.subrange(a as int, b as int),
            ),
            None => host_header_value(text@) is None,
        },
{
    let n = text.len();
    let mut start: usize = 0;
    assert(text@.skip(0) =~= text@);
    loop
        invariant
            n == text@.len(),
            start <= n,
            host_header_value(text@) == host_header_value(text@.skip(start as int)),
        decreases n - start,
    {
        let mut end = start;
        while end < n && text[end] != '\n'
            invariant
                n == text@.len(),
                start <= end <= n,
                forall|k: int| start <= k < end ==> text@[k] != '\n',
            decreases n - end,
        {
            end = end + 1;
        }
        let ghost rest = text@.skip(start as int);
        proof {
            lemma_first_line_len(rest, end - start);
        }
        let ghost line = rest.take(end - start);
        assert(line =~= text@.subrange(start as int, end as int));
        let is_host = end - start >= 6 && text[start] == 'H' && text[start + 1] == 'o' && text[
        start + 2] == 's' && text[start + 3] == 't' && text[start + 4] == ':' && text[start + 5]
            == ' ';
        if is_host {
            assert(line.subrange(0, 6) =~= host_header_prefix());
            let (a, b) = trim_bounds(text, start + 6, end);
            assert(line.skip(6) =~= text@.subrange(start + 6, end as int));
            return Some((a, b));
        }
        assert(!has_prefix(line, host_header_prefix())) by {
            if has_prefix(line, host_header_prefix()) {
                assert(line.subrange(0, 6)[0] == 'H');
                assert(line.subrange(0, 6)[1] == 'o');
                assert(line.subrange(0, 6)[2] == 's');
                assert(line.subrange(0, 6)[3] == 't');
                assert(line.subrange(0, 6)[4] == ':');
                assert(line.subrange(0, 6)[5] == ' ');
            }
        }
        if end >= n {
            return None;
        }
        assert(rest.skip(end - start + 1) =~= text@.skip(end + 1));
        start = end + 1;
    }
}

/// Checks that `b` is UTF-8 and views it as text.
#[verifier::external_body]
fn str_from_utf8(b: &[u8]) -> (r: Option<&str>)
    ensures
        r is Some <==> valid_utf8(b@),
        r matches Some(s) ==> s@ == decode_utf8(b@),
{
    match std::str::from_utf8(b) {
        Ok(s) => Some(s),
        Err(_) => None,
    }
}

/// The Host header of a request buffer.
pub fn extract_host_from_buffer(buf: &[u8]) -> (r: Option<String>)
    ensures
        match r {
            Some(h) => host_in_buffer(buf@) == Some(h@),
            None => host_in_buffer(buf@) is None,
        },
{
    match str_from_utf8(buf) {
        None => None,
        Some(s) => {
            let text = crate::text::chars_of(s);
            match find_host_value(&text) {
                None => None,
                Some((a, b)) => Some(s.substring_char(a, b).to_owned()),
            }
        },
    }
}

/// The host and the port that a `host[:port]` string names: the text before
/// the first ':' and the number after it, read as an `i32`, or port 80 where
/// there is no ':' or the rest is not such a number. A number outside
/// 0..=65535 is kept as it is, so that looking up `host:port` fails for it.
pub open spec fn host_and_port(s: Seq<char>) -> (Seq<char>, i32) {
    match first_index_of(s, ':') {
        Some(i) => (
            s.take(i as int),
            match parse_i32(s.skip(i + 1int)) {
                Some(p) => p,
                None => 80i32,
            },
        ),
        None => (s, 80i32),
    }
}

/// Splits `host[:port]` as `host_and_port` describes.
pub fn split_host_port(host: &str) -> (r: (String, i32))
    ensures
        (r.0@, r.1) == host_and_port(host@),
{
    let chars = crate::text::chars_of(host);
    let mut i: usize = 0;
    while i < chars.len() && chars[i] != ':'
        invariant
            i <= chars@.len(),
            chars@ == host@,
            forall|k: int| 0 <= k < i ==> chars@[k] != ':',
        decreases chars@.len() - i,
    {
        i = i + 1;
    }
    proof {
        crate::text::lemma_first_index_of(chars@, ':', i as int);
    }
    if i == chars.len() {
        return (host.to_owned(), 80);
    }
    let port = match parse_i32_exec(&chars, i + 1) {
        Some(p) => p,
        None => 80,
    };
    (host.substring_char(0, i).to_owned(), port)
}

/// Position `a` of `s` begins a line: it is the start, or follows a '\n'.
pub open spec fn is_line_start(s: Seq<char>, a: int) -> bool {
    a == 0 || (0 < a <= s.len() && s[a - 1] == '\n')
}

/// The text at `a` begins with `Host: `.
pub open spec fn host_at(s: Seq<char>, a: int) -> bool {
    &&& 0 <= a
    &&& a + 6 <= s.len()
    &&& s[a] == 'H' && s[a + 1] == 'o' && s[a + 2] == 's' && s[a + 3] == 't'
    &&& s[a + 4] == ':' && s[a + 5] == ' '
}

proof fn lemma_first_line_len_facts(s: Seq<char>)
    ensures
        first_line_len(s) <= s.len(),
        forall|k: int| 0 <= k < first_line_len(s) ==> s[k] != '\n',
        first_line_len(s) < s.len() ==> s[first_line_len(s) as int] == '\n',
    decreases s.len(),
{
    if s.len() > 0 && s[0] != '\n' {
        let t = s.drop_first();
        lemma_first_line_len_facts(t);
        assert forall|k: int| 0 <= k < first_line_len(s) implies s[k] != '\n' by {
            if k > 0 {
                assert(s[k] == t[k - 1]);
            }
        }
        if first_line_len(s) < s.len() {
            assert(s[first_line_len(s) as int] == t[first_line_len(t) as int]);
        }
    }
}

/// The Host header's value is taken from the first line that begins with
/// `Host: `, however many lines come before it: it is that line's text
/// after the prefix, trimmed.
pub proof fn lemma_first_host_line_wins(s: Seq<char>, a: int, b: int)
    requires
        is_line_start(s, a),
        a <= b <= s.len(),
        forall|k: int| a <= k < b ==> s[k] != '\n',
        b == s.len() || s[b] == '\n',
        host_at(s, a),
        forall|e: int| 0 <= e < a && is_line_start(s, e) ==> !host_at(s, e),
    ensures
        a + 6 <= b,
        host_header_value(s) == Some(trim(s.subrange(a + 6, b))),
    decreases a,
{
    if b < a + 6 {
        assert(s[b] != '\n');
    }
    let n = first_line_len(s) as int;
    lemma_first_line_len_facts(s);
    if a == 0 {
        lemma_first_line_len(s, b);
        let line = s.take(b);
        assert(line.subrange(0, 6) =~= host_header_prefix());
        assert(line.skip(6) =~= s.subrange(6, b));
    } else {
        assert(n <= a - 1);
        assert(!host_at(s, 0));
        let line = s.take(n);
        assert(!has_prefix(line, host_header_prefix())) by {
            if has_prefix(line, host_header_prefix()) {
                assert(line.subrange(0, 6)[0] == s[0]);
                assert(line.subrange(0, 6)[1] == s[1]);
                assert(line.subrange(0, 6)[2] == s[2]);
                assert(line.subrange(0, 6)[3] == s[3]);
                assert(line.subrange(0, 6)[4] == s[4]);
                assert(line.subrange(0, 6)[5] == s[5]);
            }
        }
        let t = s.skip(n + 1);
        let a2 = a - n - 1;
        let b2 = b - n - 1;
        assert forall|k: int| a2 <= k < b2 implies t[k] != '\n' by {
            assert(t[k] == s[k + n + 1]);
        }
        if b2 < t.len() {
            assert(t[b2] == s[b]);
        }
        if a2 > 0 {
            assert(t[a2 - 1] == s[a - 1]);
        }
        assert(host_at(t, a2)) by {
            assert(t[a2] == s[a]);
            assert(t[a2 + 1] == s[a + 1]);
            assert(t[a2 + 2] == s[a + 2]);
            assert(t[a2 + 3] == s[a + 3]);
            assert(t[a2 + 4] == s[a + 4]);
            assert(t[a2 + 5] == s[a + 5]);
        }
        assert forall|e: int| 0 <= e < a2 && is_line_start(t, e) implies !host_at(t, e) by {
            let e1 = e + n + 1;
            if e > 0 {
                assert(t[e - 1] == s[e1 - 1]);
            }
            assert(is_line_start(s, e1));
            assert(!host_at(s, e1));
            if host_at(t, e) {
                assert(t[e] == s[e1]);
                assert(t[e + 1] == s[e1 + 1]);
                assert(t[e + 2] == s[e1 + 2]);
                assert(t[e + 3] == s[e1 + 3]);
                assert(t[e + 4] == s[e1 + 4]);
                assert(t[e + 5] == s[e1 + 5]);
            }
        }
        lemma_first_host_line_wins(t, a2, b2);
        assert(t.subrange(a2 + 6, b2) =~= s.subrange(a + 6, b));
    }
}

/// Without any line that begins with `Host: `, there is no Host header.
pub proof fn lemma_no_host_line(s: Seq<char>)
    requires
        forall|e: int| 0 <= e <= s.len() && is_line_start(s, e) ==> !host_at(s, e),
    ensures
        host_header_value(s) is None,
    decreases s.len(),
{
    let n = first_line_len(s) as int;
    lemma_first_line_len_facts(s);
    assert(!host_at(s, 0));
    let line = s.take(n);
    assert(!has_prefix(line, host_header_prefix())) by {
        if has_prefix(line, host_header_prefix()) {
            assert(line.subrange(0, 6)[0] == s[0]);
            assert(line.subrange(0, 6)[1] == s[1]);
            assert(line.subrange(0, 6)[2] == s[2]);
            assert(line.subrange(0, 6)[3] == s[3]);
            assert(line.subrange(0, 6)[4] == s[4]);
            assert(line.subrange(0, 6)[5] == s[5]);
        }
    }
    if n < s.len() {
        let t = s.skip(n + 1);
        assert forall|e: int| 0 <= e <= t.len() && is_line_start(t, e) implies !host_at(t, e) by {
            let e1 = e + n + 1;
            if e > 0 {
                assert(t[e - 1] == s[e1 - 1]);
            }
            assert(is_line_start(s, e1));
            assert(!host_at(s, e1));
            if host_at(t, e) {
                assert(t[e] == s[e1]);
                assert(t[e + 1] == s[e1 + 1]);
                assert(t[e + 2] == s[e1 + 2]);
                assert(t[e + 3] == s[e1 + 3]);
                assert(t[e + 4] == s[e1 + 4]);
                assert(t[e + 5] == s[e1 + 5]);
            }
        }
        lemma_no_host_line(t);
    }
}

/// A `host[:port]` string is split at its first ':'. Without a ':' the
/// whole text is the host and the port is 80; otherwise the host is the
/// text before the first ':', and the port is what the text after it reads
/// as an `i32`, or 80 when it reads as none.
pub proof fn lemma_split_at_first_colon(h: Seq<char>, p: Seq<char>)
    requires
        forall|k: int| 0 <= k < h.len() ==> h[k] != ':',
    ensures
        host_and_port(h) == (h, 80i32),
        host_and_port(h + seq![':'] + p) == (h, match parse_i32(p) {
            Some(v) => v,
            None => 80i32,
        }),
{
    lemma_first_index_of(h, ':', h.len() as int);
    let s = h + seq![':'] + p;
    assert forall|k: int| 0 <= k < h.len() implies s[k] != ':' by {
        assert(s[k] == h[k]);
    }
    assert(s[h.len() as int] == ':');
    lemma_first_index_of(s, ':', h.len() as int);
    assert(s.take(h.len() as int) =~= h);
    assert(s.skip(h.len() + 1int) =~= p);
}

/// A port is read as `i32::from_str` reads it: decimal digits, optionally
/// after '+', give their value when it is at most 2147483647; after '-'
/// they give the negated value when it is at most 2147483648; a larger
/// value, no digits at all, or any other character gives nothing.
pub proof fn lemma_port_grammar(d: Seq<char>)
    ensures
        d.len() > 0 && all_digits(d) && decimal_value(d) <= 0x7fff_ffff ==> parse_i32(d) == Some(
            decimal_value(d) as i32,
        ) && parse_i32(seq!['+'] + d) == Some(decimal_value(d) as i32),
        d.len() > 0 && all_digits(d) && decimal_value(d) <= 0x8000_0000 ==> parse_i32(seq!['-'] + d)
            == Some((-decimal_value(d)) as i32),
        d.len() > 0 && all_digits(d) && decimal_value(d) > 0x7fff_ffff ==> parse_i32(d) is None
            && parse_i32(seq!['+'] + d) is None,
        d.len() > 0 && all_digits(d) && decimal_value(d) > 0x8000_0000 ==> parse_i32(seq!['-'] + d) is None,
        (exists|k: int| 0 <= k < d.len() && !is_digit(#[trigger] d[k])) ==> parse_i32(seq!['+'] + d) is None
            && parse_i32(seq!['-'] + d) is None,
        parse_i32(Seq::empty()) is None,
        parse_i32(seq!['+']) is None,
        parse_i32(seq!['-']) is None,
{
    assert((seq!['+'] + d).drop_first() =~= d);
    assert((seq!['-'] + d).drop_first() =~= d);
    assert((seq!['+'] + d)[0] == '+');
    assert((seq!['-'] + d)[0] == '-');
    assert(seq!['+'].drop_first() =~= Seq::<char>::empty());
    assert(seq!['-'].drop_first() =~= Seq::<char>::empty());
    if d.len() > 0 && all_digits(d) {
        assert(d[0] != '+' && d[0] != '-') by {
            assert(is_digit(d[0]));
        }
    }
}

} // verus!
