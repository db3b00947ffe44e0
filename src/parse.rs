//! Turning the text of a request into a `Request`.
//!
//! The input is read line by line: a request line, header lines up to a blank
//! line (or the end of input), and then everything that is left as the body.
use vstd::prelude::*;
use vstd::string::*;
use crate::wire::{HttpError, Method, Request, RequestView, method_of, pairs_view, keys_unique};

verus! {

/// Unicode white space, as `char::is_whitespace` classifies it.
pub open spec fn is_ws(c: char) -> bool {
    let u = c as u32;
    (0x09 <= u && u <= 0x0d) || u == 0x20 || u == 0x85 || u == 0xa0 || u == 0x1680 || (0x2000
        <= u && u <= 0x200a) || u == 0x2028 || u == 0x2029 || u == 0x202f || u == 0x205f || u
        == 0x3000
}

/// The index just past the line that starts at `i`: past its `\n`, or the end of input.
pub open spec fn line_end(s: Seq<char>, i: nat) -> nat
    decreases s.len() - i,
{
    if i >= s.len() {
        s.len()
    } else if s[i as int] == '\n' {
        i + 1
    } else {
        line_end(s, i + 1)
    }
}

/// The first index at or after `i` that does not hold white space.
pub open spec fn skip_ws(s: Seq<char>, i: nat) -> nat
    decreases s.len() - i,
{
    if i >= s.len() {
        s.len()
    } else if is_ws(s[i as int]) {
        skip_ws(s, i + 1)
    } else {
        i
    }
}

/// The first index at or after `i` that holds white space.
pub open spec fn token_end(s: Seq<char>, i: nat) -> nat
    decreases s.len() - i,
{
    if i >= s.len() {
        s.len()
    } else if is_ws(s[i as int]) {
        i
    } else {
        token_end(s, i + 1)
    }
}

/// The first index at or after `i` that holds a colon.
pub open spec fn colon_pos(s: Seq<char>, i: nat) -> nat
    decreases s.len() - i,
{
    if i >= s.len() {
        s.len()
    } else if s[i as int] == ':' {
        i
    } else {
        colon_pos(s, i + 1)
    }
}

/// The length of `s[0..j]` once trailing white space is dropped.
pub open spec fn trim_end(s: Seq<char>, j: nat) -> nat
    decreases j,
{
    if j == 0 || j > s.len() {
        j
    } else if is_ws(s[j - 1]) {
        trim_end(s, (j - 1) as nat)
    } else {
        j
    }
}

/// `s` without leading and trailing white space.
pub open spec fn trim(s: Seq<char>) -> Seq<char> {
    let a = skip_ws(s, 0);
    let b = trim_end(s, s.len());
    if a < b {
        s.subrange(a as int, b as int)
    } else {
        Seq::empty()
    }
}

/// `s` without a final `\n` or `\r\n`.
pub open spec fn strip_eol(s: Seq<char>) -> Seq<char> {
    if s.len() >= 2 && s[s.len() - 2] == '\r' && s[s.len() - 1] == '\n' {
        s.subrange(0, s.len() - 2)
    } else if s.len() >= 1 && s[s.len() - 1] == '\n' {
        s.subrange(0, s.len() - 1)
    } else {
        s
    }
}

/// A line that ends the header block: empty, `\n` or `\r\n`.
pub open spec fn is_terminator(line: Seq<char>) -> bool {
    line.len() == 0 || (line.len() == 1 && line[0] == '\n') || (line.len() == 2 && line[0]
        == '\r' && line[1] == '\n')
}

/// The method and path of a request line: its first two white-space separated
/// tokens. Anything after the path is ignored.
pub open spec fn spec_request_line(line: Seq<char>) -> Result<(Method, Seq<char>), HttpError> {
    let a = skip_ws(line, 0);
    if a >= line.len() {
        Err(HttpError::MissingMethod)
    } else {
        let b = token_end(line, a);
        match method_of(line.subrange(a as int, b as int)) {
            Err(e) => Err(e),
            Ok(m) => {
                let c = skip_ws(line, b);
                if c >= line.len() {
                    Err(HttpError::MissingPath)
                } else {
                    Ok((m, line.subrange(c as int, token_end(line, c) as int)))
                }
            },
        }
    }
}

/// The name and value of a header line, split at its first colon; the value
/// is trimmed of surrounding white space.
pub open spec fn spec_header_line(line: Seq<char>) -> Result<(Seq<char>, Seq<char>), HttpError> {
    let c = colon_pos(line, 0);
    if c >= line.len() {
        Err(HttpError::MissingHeaderName)
    } else {
        let rest = line.subrange(c + 1 as int, line.len() as int);
        if strip_eol(rest).len() == 0 {
            Err(HttpError::MissingHeaderValue)
        } else {
            Ok((line.subrange(0, c as int), trim(rest)))
        }
    }
}

/// `hs` with header `k` set to `v`: in place if the name is present, else appended.
pub open spec fn upsert(hs: Seq<(Seq<char>, Seq<char>)>, k: Seq<char>, v: Seq<char>) -> Seq<
    (Seq<char>, Seq<char>),
> {
    if exists|i: int| 0 <= i < hs.len() && #[trigger] hs[i].0 == k {
        hs.update(choose|i: int| 0 <= i < hs.len() && #[trigger] hs[i].0 == k, (k, v))
    } else {
        hs.push((k, v))
    }
}

/// The headers read from the lines that start at `i`, added to `acc`, and the
/// index where the body starts.
pub open spec fn spec_headers(s: Seq<char>, i: nat, acc: Seq<(Seq<char>, Seq<char>)>) -> Result<
    (Seq<(Seq<char>, Seq<char>)>, nat),
    HttpError,
>
    decreases s.len() - i,
{
    let j = line_end(s, i);
    if i >= s.len() || j <= i || j > s.len() {
        Ok((acc, s.len()))
    } else if is_terminator(s.subrange(i as int, j as int)) {
        Ok((acc, j))
    } else {
        match spec_header_line(s.subrange(i as int, j as int)) {
            Err(e) => Err(e),
            Ok(kv) => spec_headers(s, j, upsert(acc, kv.0, kv.1)),
        }
    }
}

/// The request that the text `s` holds, or the first error met while reading it.
pub open spec fn spec_parse(s: Seq<char>) -> Result<RequestView, HttpError> {
    let l = line_end(s, 0);
    match spec_request_line(s.subrange(0, l as int)) {
        Err(e) => Err(e),
        Ok(mp) => match spec_headers(s, l, Seq::empty()) {
            Err(e) => Err(e),
            Ok(hb) => Ok(
                RequestView {
                    method: mp.0,
                    path: mp.1,
                    headers: hb.0,
                    body: s.subrange(hb.1 as int, s.len() as int),
                },
            ),
        },
    }
}

/// The content of a parse result.
pub open spec fn request_result_view(r: Result<Request, HttpError>) -> Result<
    RequestView,
    HttpError,
> {
    match r {
        Ok(q) => Ok(q@),
        Err(e) => Err(e),
    }
}

fn is_whitespace(c: char) -> (r: bool)
    ensures
        r == is_ws(c),
{
    let u = c as u32;
    (0x09 <= u && u <= 0x0d) || u == 0x20 || u == 0x85 || u == 0xa0 || u == 0x1680 || (0x2000
        <= u && u <= 0x200a) || u == 0x2028 || u == 0x2029 || u == 0x202f || u == 0x205f || u
        == 0x3000
}

fn line_end_at(s: &str, n: usize, i: usize) -> (r: usize)
    requires
        n == s@.len(),
        i <= n,
    ensures
        r == line_end(s@, i as nat),
        r <= n,
        i < n ==> i < r,
{
    let mut k = i;
    while k < n && s.get_char(k) != '\n'
        invariant
            i <= k <= n,
            n == s@.len(),
            line_end(s@, k as nat) == line_end(s@, i as nat),
        decreases n - k,
    {
        k = k + 1;
    }
    if k < n {
        k + 1
    } else {
        k
    }
}

fn skip_whitespace(s: &str, n: usize, i: usize) -> (r: usize)
    requires
        n == s@.len(),
        i <= n,
    ensures
        r == skip_ws(s@, i as nat),
        i <= r <= n,
{
    let mut k = i;
    while k < n && is_whitespace(s.get_char(k))
        invariant
            i <= k <= n,
            n == s@.len(),
            skip_ws(s@, k as nat) == skip_ws(s@, i as nat),
        decreases n - k,
    {
        k = k + 1;
    }
    k
}

fn find_token_end(s: &str, n: usize, i: usize) -> (r: usize)
    requires
        n == s@.len(),
        i <= n,
    ensures
        r == token_end(s@, i as nat),
        i <= r <= n,
{
    let mut k = i;
    while k < n && !is_whitespace(s.get_char(k))
        invariant
            i <= k <= n,
            n == s@.len(),
            token_end(s@, k as nat) == token_end(s@, i as nat),
        decreases n - k,
    {
        k = k + 1;
    }
    k
}

fn find_colon(s: &str, n: usize) -> (r: usize)
    requires
        n == s@.len(),
    ensures
        r == colon_pos(s@, 0),
        r <= n,
{
    let mut k: usize = 0;
    while k < n && s.get_char(k) != ':'
        invariant
            k <= n,
            n == s@.len(),
            colon_pos(s@, k as nat) == colon_pos(s@, 0),
        decreases n - k,
    {
        k = k + 1;
    }
    k
}

fn trim_whitespace(s: &str) -> (r: String)
    ensures
        r@ == trim(s@),
{
    let n = s.unicode_len();
    let a = skip_whitespace(s, n, 0);
    let mut b = n;
    while b > 0 && is_whitespace(s.get_char(b - 1))
        invariant
            b <= n,
            n == s@.len(),
            trim_end(s@, b as nat) == trim_end(s@, n as nat),
        decreases b,
    {
        b = b - 1;
    }
    if a < b {
        s.substring_char(a, b).to_owned()
    } else {
        String::new()
    }
}

/// Whether `line` ends the header block: it is empty, `\n` or `\r\n`.
pub fn is_header_end(line: &str) -> (r: bool)
    ensures
        r == is_terminator(line@),
{
    let n = line.unicode_len();
    n == 0 || (n == 1 && line.get_char(0) == '\n') || (n == 2 && line.get_char(0) == '\r'
        && line.get_char(1) == '\n')
}

/// Reads the method and path from a request line.
pub fn parse_request_line(line: &str) -> (r: Result<(Method, String), HttpError>)
    ensures
        match r {
            Ok(mp) => spec_request_line(line@) == Ok::<(Method, Seq<char>), HttpError>(
                (mp.0, mp.1@),
            ),
            Err(e) => spec_request_line(line@) == Err::<(Method, Seq<char>), HttpError>(e),
        },
{
    let n = line.unicode_len();
    let a = skip_whitespace(line, n, 0);
    if a >= n {
        return Err(HttpError::MissingMethod);
    }
    let b = find_token_end(line, n, a);
    let method = match Method::parse(line.substring_char(a, b)) {
        Ok(m) => m,
        Err(e) => return Err(e),
    };
    let c = skip_whitespace(line, n, b);
    if c >= n {
        return Err(HttpError::MissingPath);
    }
    let d = find_token_end(line, n, c);
    Ok((method, line.substring_char(c, d).to_owned()))
}

/// Reads the name and value from a header line.
pub fn parse_header_line(line: &str) -> (r: Result<(String, String), HttpError>)
    ensures
        match r {
            Ok(kv) => spec_header_line(line@) == Ok::<(Seq<char>, Seq<char>), HttpError>(
                (kv.0@, kv.1@),
            ),
            Err(e) => spec_header_line(line@) == Err::<(Seq<char>, Seq<char>), HttpError>(e),
        },
{
    let n = line.unicode_len();
    let c = find_colon(line, n);
    if c >= n {
        return Err(HttpError::MissingHeaderName);
    }
    let rest = line.substring_char(c + 1, n);
    let m = n - (c + 1);
    let empty = m == 0 || (m == 1 && rest.get_char(0) == '\n') || (m == 2 && rest.get_char(0)
        == '\r' && rest.get_char(1) == '\n');
    if empty {
        return Err(HttpError::MissingHeaderValue);
    }
    Ok((line.substring_char(0, c).to_owned(), trim_whitespace(rest)))
}

/// Stores header `name: value`, replacing the value of an earlier header of
/// the same name in its place, or appending a new one.
pub fn insert_header(headers: &mut Vec<(String, String)>, name: String, value: String)
    requires
        keys_unique(pairs_view(old(headers)@)),
    ensures
        pairs_view(final(headers)@) == upsert(pairs_view(old(headers)@), name@, value@),
        keys_unique(pairs_view(final(headers)@)),
{
    let ghost hv = pairs_view(headers@);
    let mut i: usize = 0;
    while i < headers.len()
        invariant
            i <= headers@.len(),
            headers@ == old(headers)@,
            hv == pairs_view(headers@),
            keys_unique(hv),
            forall|j: int| 0 <= j < i ==> #[trigger] hv[j].0 != name@,
        decreases headers@.len() - i,
    {
        if headers[i].0 == name {
            proof {
                assert(hv[i as int].0 == name@);
                let c = choose|c: int| 0 <= c < hv.len() && #[trigger] hv[c].0 == name@;
                assert(hv[c].0 == hv[i as int].0);
            }
            headers[i] = (name, value);
            proof {
                assert(pairs_view(headers@) =~= upsert(hv, name@, value@));
            }
            return;
        }
        i = i + 1;
    }
    headers.push((name, value));
    proof {
        assert(pairs_view(headers@) =~= hv.push((name@, value@)));
    }
}

/// Handles one line of the header block. A line that ends the block gives
/// `Ok(true)` and leaves `headers` alone; a header line is stored and gives
/// `Ok(false)`; a malformed line gives its error and leaves `headers` alone.
pub fn feed_header_line(headers: &mut Vec<(String, String)>, line: &str) -> (r: Result<
    bool,
    HttpError,
>)
    requires
        keys_unique(pairs_view(old(headers)@)),
    ensures
        keys_unique(pairs_view(final(headers)@)),
        is_terminator(line@) ==> r == Ok::<bool, HttpError>(true) && final(headers)@ == old(
            headers,
        )@,
        !is_terminator(line@) ==> match spec_header_line(line@) {
            Ok(kv) => r == Ok::<bool, HttpError>(false) && pairs_view(final(headers)@) == upsert(
                pairs_view(old(headers)@),
                kv.0,
                kv.1,
            ),
            Err(e) => r == Err::<bool, HttpError>(e) && final(headers)@ == old(headers)@,
        },
{
    if is_header_end(line) {
        return Ok(true);
    }
    match parse_header_line(line) {
        Ok(kv) => {
            let (k, v) = kv;
            insert_header(headers, k, v);
            Ok(false)
        },
        Err(e) => Err(e),
    }
}

/// Parses the whole text of a request: request line, headers up to a blank
/// line or the end of input, and the rest as body.
pub fn parse_request(input: &str) -> (r: Result<Request, HttpError>)
    ensures
        request_result_view(r) == spec_parse(input@),
        r is Ok ==> r->Ok_0.wf(),
{
    let n = input.unicode_len();
    let l = line_end_at(input, n, 0);
    let (method, path) = match parse_request_line(input.substring_char(0, l)) {
        Ok(mp) => mp,
        Err(e) => return Err(e),
    };
    let mut headers: Vec<(String, String)> = Vec::new();
    let mut i = l;
    let mut body_start = n;
    proof {
        assert(pairs_view(headers@) =~= Seq::<(Seq<char>, Seq<char>)>::empty());
    }
    loop
        invariant
            n == input@.len(),
            l == line_end(input@, 0),
            spec_request_line(input@.subrange(0, l as int)) == Ok::<(Method, Seq<char>), HttpError>(
                (method, path@),
            ),
            l <= i <= n,
            keys_unique(pairs_view(headers@)),
            spec_headers(input@, l as nat, Seq::empty()) == spec_headers(
                input@,
                i as nat,
                pairs_view(headers@),
            ),
        ensures
            body_start <= n,
            keys_unique(pairs_view(headers@)),
            spec_headers(input@, l as nat, Seq::empty()) == Ok::<
                (Seq<(Seq<char>, Seq<char>)>, nat),
                HttpError,
            >((pairs_view(headers@), body_start as nat)),
        decreases n - i,
    {
        if i >= n {
            body_start = n;
            break;
        }
        let j = line_end_at(input, n, i);
        match feed_header_line(&mut headers, input.substring_char(i, j)) {
            Ok(true) => {
                body_start = j;
                break;
            },
            Ok(false) => {
                i = j;
            },
            Err(e) => return Err(e),
        }
    }
    let body = input.substring_char(body_start, n).to_owned();
    Ok(Request { method, path, headers, body })
}

/// Parsing the same text twice, as two connections would, gives two
/// structurally equal results.
pub proof fn lemma_parse_repeatable(
    x: &str,
    y: &str,
    r1: Result<Request, HttpError>,
    r2: Result<Request, HttpError>,
)
    requires
        x@ == y@,
        request_result_view(r1) == spec_parse(x@),
        request_result_view(r2) == spec_parse(y@),
    ensures
        request_result_view(r1) == request_result_view(r2),
{
}

/// The headers as a map from name to value.
pub open spec fn header_map(hs: Seq<(Seq<char>, Seq<char>)>) -> Map<Seq<char>, Seq<char>> {
    Map::new(
        |k: Seq<char>| exists|i: int| 0 <= i < hs.len() && #[trigger] hs[i].0 == k,
        |k: Seq<char>| hs[choose|i: int| 0 <= i < hs.len() && #[trigger] hs[i].0 == k].1,
    )
}

/// Storing a header keeps names unique and acts on the name-to-value map as an
/// insertion: a later header of the same name overwrites the earlier value.
pub proof fn lemma_upsert_is_map_insert(
    hs: Seq<(Seq<char>, Seq<char>)>,
    k: Seq<char>,
    v: Seq<char>,
)
    requires
        keys_unique(hs),
    ensures
        keys_unique(upsert(hs, k, v)),
        header_map(upsert(hs, k, v)) == header_map(hs).insert(k, v),
{
    let u = upsert(hs, k, v);
    if exists|i: int| 0 <= i < hs.len() && #[trigger] hs[i].0 == k {
        let c = choose|i: int| 0 <= i < hs.len() && #[trigger] hs[i].0 == k;
        assert(u == hs.update(c, (k, v)));
        assert forall|j: int| 0 <= j < u.len() implies #[trigger] u[j].0 == hs[j].0 by {}
        assert(keys_unique(u)) by {
            assert forall|i: int, j: int|
                0 <= i < u.len() && 0 <= j < u.len() && #[trigger] u[i].0 == #[trigger] u[j].0
                implies i == j by {
                assert(hs[i].0 == hs[j].0);
            }
        }
        assert forall|key: Seq<char>|
            #[trigger] header_map(u).contains_key(key) implies header_map(hs).insert(
                k,
                v,
            ).contains_key(key) && header_map(u)[key] == header_map(hs).insert(k, v)[key] by {
            let j = choose|i: int| 0 <= i < u.len() && #[trigger] u[i].0 == key;
            assert(hs[j].0 == key);
            if key == k {
                assert(j == c);
            } else {
                let j2 = choose|i: int| 0 <= i < hs.len() && #[trigger] hs[i].0 == key;
                assert(u[j2].0 == key);
                assert(j2 == j);
            }
        }
        assert forall|key: Seq<char>|
            #[trigger] header_map(hs).insert(k, v).contains_key(key) implies header_map(
                u,
            ).contains_key(key) by {
            if key == k {
                assert(u[c].0 == key);
            } else {
                let j2 = choose|i: int| 0 <= i < hs.len() && #[trigger] hs[i].0 == key;
                assert(u[j2].0 == key);
            }
        }
    } else {
        assert(u == hs.push((k, v)));
        assert(keys_unique(u)) by {
            assert forall|i: int, j: int|
                0 <= i < u.len() && 0 <= j < u.len() && #[trigger] u[i].0 == #[trigger] u[j].0
                implies i == j by {
                if i < hs.len() && j < hs.len() {
                    assert(hs[i].0 == hs[j].0);
                } else if i < hs.len() {
                    assert(hs[i].0 == k);
                } else if j < hs.len() {
                    assert(hs[j].0 == k);
                }
            }
        }
        assert forall|key: Seq<char>|
            #[trigger] header_map(u).contains_key(key) implies header_map(hs).insert(
                k,
                v,
            ).contains_key(key) && header_map(u)[key] == header_map(hs).insert(k, v)[key] by {
            let j = choose|i: int| 0 <= i < u.len() && #[trigger] u[i].0 == key;
            if key == k {
                assert(u[hs.len() as int].0 == k);
                assert(j == hs.len());
            } else {
                assert(j < hs.len());
                assert(hs[j].0 == key);
                let j2 = choose|i: int| 0 <= i < hs.len() && #[trigger] hs[i].0 == key;
                assert(u[j2].0 == key);
                assert(j2 == j);
            }
        }
        assert forall|key: Seq<char>|
            #[trigger] header_map(hs).insert(k, v).contains_key(key) implies header_map(
                u,
            ).contains_key(key) by {
            if key == k {
                assert(u[hs.len() as int].0 == key);
            } else {
                let j2 = choose|i: int| 0 <= i < hs.len() && #[trigger] hs[i].0 == key;
                assert(u[j2].0 == key);
            }
        }
    }
    assert(header_map(u) =~= header_map(hs).insert(k, v));
}

/// The lines from `i` up to `p` are all well-formed header lines, none of
/// which ends the header block.
pub open spec fn headers_reach(s: Seq<char>, i: nat, p: nat) -> bool
    decreases s.len() - i,
{
    let j = line_end(s, i);
    if i == p {
        true
    } else if i > p || i >= s.len() || j <= i || j > s.len() {
        false
    } else if is_terminator(s.subrange(i as int, j as int)) {
        false
    } else {
        spec_header_line(s.subrange(i as int, j as int)) is Ok && headers_reach(s, j, p)
    }
}

/// The line at `p` is not blank and holds no colon.
pub open spec fn colonless_line_at(s: Seq<char>, p: nat) -> bool {
    let line = s.subrange(p as int, line_end(s, p) as int);
    p < s.len() && !is_terminator(line) && colon_pos(line, 0) >= line.len()
}

proof fn lemma_line_end_bounds(s: Seq<char>, i: nat)
    requires
        i < s.len(),
    ensures
        i < line_end(s, i) <= s.len(),
    decreases s.len() - i,
{
    if s[i as int] != '\n' {
        if i + 1 < s.len() {
            lemma_line_end_bounds(s, i + 1);
        } else {
            assert(line_end(s, i + 1) == s.len());
        }
    }
}

proof fn lemma_headers_fail_at_colonless_line(
    s: Seq<char>,
    i: nat,
    p: nat,
    acc: Seq<(Seq<char>, Seq<char>)>,
)
    requires
        headers_reach(s, i, p),
        colonless_line_at(s, p),
    ensures
        spec_headers(s, i, acc) == Err::<(Seq<(Seq<char>, Seq<char>)>, nat), HttpError>(
            HttpError::MissingHeaderName,
        ),
    decreases s.len() - i,
{
    let j = line_end(s, i);
    if i == p {
        lemma_line_end_bounds(s, p);
    } else {
        let kv = spec_header_line(s.subrange(i as int, j as int))->Ok_0;
        lemma_headers_fail_at_colonless_line(s, j, p, upsert(acc, kv.0, kv.1));
    }
}

/// After a valid request line and any number of valid header lines, a
/// non-blank line without a colon makes the parse fail with
/// `MissingHeaderName`, whatever follows it.
pub proof fn lemma_colonless_header_fails(s: Seq<char>, p: nat)
    requires
        spec_request_line(s.subrange(0, line_end(s, 0) as int)) is Ok,
        headers_reach(s, line_end(s, 0), p),
        colonless_line_at(s, p),
    ensures
        spec_parse(s) == Err::<RequestView, HttpError>(HttpError::MissingHeaderName),
{
    lemma_headers_fail_at_colonless_line(s, line_end(s, 0), p, Seq::empty());
}

} // verus!
