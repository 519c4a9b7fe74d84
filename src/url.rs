use vstd::prelude::*;

use crate::error::{fail, make_error, ErrorKind, ParseError};
use crate::text::{alnum_end, alnum_run, char_at, char_at_exec, digits_value, digit_run, is_digit_char};

verus! {

/// A supported scheme.
#[derive(Debug, Clone, Copy, PartialEq, Eq, Structural)]
pub enum Scheme {
    HTTP,
    HTTPS,
}

/// A host: dot-separated alphanumeric labels, at least two of them.
#[derive(Debug, PartialEq, Eq)]
pub struct Host(pub String);

/// A port number.
#[derive(Debug, Clone, Copy, PartialEq, Eq, Structural)]
pub struct Port(pub u32);

/// An absolute path of `/`-separated alphanumeric segments.
#[derive(Debug, PartialEq, Eq)]
pub struct Path(pub String);

/// One `key=value` pair of a query string.
#[derive(Debug, PartialEq, Eq)]
pub struct Query(pub String, pub String);

/// The alphanumeric token after `#`.
#[derive(Debug, PartialEq, Eq)]
pub struct FragmentId(pub String);

/// A decoded URL.
#[derive(Debug, PartialEq, Eq)]
pub struct URL {
    pub scheme: Scheme,
    pub host: Host,
    pub port: Option<Port>,
    pub path: Option<Path>,
    pub query: Option<Vec<Query>>,
    pub fragment_id: Option<FragmentId>,
}

/// The mathematical value of a [`URL`].
pub struct UrlView {
    pub scheme: Scheme,
    pub host: Seq<char>,
    pub port: Option<u32>,
    pub path: Option<Seq<char>>,
    pub query: Option<Seq<(Seq<char>, Seq<char>)>>,
    pub fragment_id: Option<Seq<char>>,
}

impl View for Scheme {
    type V = Scheme;

    open spec fn view(&self) -> Scheme {
        *self
    }
}

impl View for Host {
    type V = Seq<char>;

    open spec fn view(&self) -> Seq<char> {
        self.0@
    }
}

impl View for Port {
    type V = u32;

    open spec fn view(&self) -> u32 {
        self.0
    }
}

impl View for Path {
    type V = Seq<char>;

    open spec fn view(&self) -> Seq<char> {
        self.0@
    }
}

impl View for Query {
    type V = (Seq<char>, Seq<char>);

    open spec fn view(&self) -> (Seq<char>, Seq<char>) {
        (self.0@, self.1@)
    }
}

impl View for FragmentId {
    type V = Seq<char>;

    open spec fn view(&self) -> Seq<char> {
        self.0@
    }
}

pub open spec fn opt_view<T: View>(o: Option<T>) -> Option<T::V> {
    match o {
        Some(t) => Some(t@),
        None => None,
    }
}

pub open spec fn queries_view(v: Seq<Query>) -> Seq<(Seq<char>, Seq<char>)> {
    v.map_values(|q: Query| q@)
}

pub open spec fn opt_queries_view(o: Option<Vec<Query>>) -> Option<Seq<(Seq<char>, Seq<char>)>> {
    match o {
        Some(v) => Some(queries_view(v@)),
        None => None,
    }
}

impl View for URL {
    type V = UrlView;

    open spec fn view(&self) -> UrlView {
        UrlView {
            scheme: self.scheme,
            host: self.host@,
            port: opt_view(self.port),
            path: opt_view(self.path),
            query: opt_queries_view(self.query),
            fragment_id: opt_view(self.fragment_id),
        }
    }
}

/// `r` is the outcome `expected` of decoding `s`: on success the value and
/// the suffix of `s` left after the consumed characters, else the same error.
pub open spec fn agrees<'a, T: View>(
    r: Result<(&'a str, T), ParseError>,
    s: Seq<char>,
    expected: Result<(T::V, nat), ParseError>,
) -> bool {
    match expected {
        Ok((v, k)) => k <= s.len() && r is Ok && r->Ok_0.0@ == s.skip(k as int) && r->Ok_0.1@ == v,
        Err(e) => r is Err && r->Err_0 == e,
    }
}

/// The optional form of a decode outcome: a failure becomes "absent", and
/// consumes nothing.
pub open spec fn optional<V>(r: Result<(V, nat), ParseError>) -> (Option<V>, nat) {
    match r {
        Ok((v, k)) => (Some(v), k),
        Err(_) => (None, 0),
    }
}

pub open spec fn http_lit() -> Seq<char> {
    seq!['h', 't', 't', 'p', ':', '/', '/']
}

pub open spec fn https_lit() -> Seq<char> {
    seq!['h', 't', 't', 'p', 's', ':', '/', '/']
}

pub open spec fn starts_with(s: Seq<char>, p: Seq<char>) -> bool {
    p.len() <= s.len() && s.take(p.len() as int) == p
}

/// Outcome of decoding the scheme at the start of `s`.
#[verifier::opaque]
pub open spec fn scheme_spec(s: Seq<char>) -> Result<(Scheme, nat), ParseError> {
    if starts_with(s, http_lit()) {
        Ok((Scheme::HTTP, 7))
    } else if starts_with(s, https_lit()) {
        Ok((Scheme::HTTPS, 8))
    } else {
        Err(fail(ErrorKind::UnknownScheme, 0))
    }
}

/// End of the longest run of `label '.'` segments of `s` from `i`.
pub open spec fn dotted_end(s: Seq<char>, i: int) -> int
    decreases s.len() - i,
{
    let r = alnum_run(s, i);
    if 0 <= i && r > 0 && char_at(s, i + r, '.') {
        dotted_end(s, i + r + 1)
    } else {
        i
    }
}

/// Outcome of decoding the host `(label '.')+ label` at the start of `s`.
#[verifier::opaque]
pub open spec fn host_spec(s: Seq<char>) -> Result<(Seq<char>, nat), ParseError> {
    let d = dotted_end(s, 0);
    let r = alnum_run(s, d);
    if d > 0 && r > 0 {
        Ok((s.take(d + r), (d + r) as nat))
    } else {
        Err(fail(ErrorKind::InvalidHost, d))
    }
}

/// Outcome of decoding the port `':' digit+` at the start of `s`.
#[verifier::opaque]
pub open spec fn port_spec(s: Seq<char>) -> Result<(u32, nat), ParseError> {
    let r = digit_run(s, 1) as int;
    if !char_at(s, 0, ':') {
        Err(fail(ErrorKind::UnexpectedInput, 0))
    } else if r == 0 {
        Err(fail(ErrorKind::TrailingDelimiterWithoutBody, 1))
    } else if digits_value(s, 1, 1 + r) > 65535 {
        Err(fail(ErrorKind::PortOutOfRange, 1))
    } else {
        Ok((digits_value(s, 1, 1 + r) as u32, (1 + r) as nat))
    }
}

/// End of the longest run of `'/' alphanumeric+` segments of `s` from `i`.
pub open spec fn path_end(s: Seq<char>, i: int) -> int
    decreases s.len() - i,
{
    let r = alnum_run(s, i + 1);
    if 0 <= i && char_at(s, i, '/') && r > 0 && i + 1 + r <= s.len() {
        path_end(s, i + 1 + r)
    } else {
        i
    }
}

/// Outcome of decoding the path `('/' alphanumeric+)+` at the start of `s`.
#[verifier::opaque]
pub open spec fn path_spec(s: Seq<char>) -> Result<(Seq<char>, nat), ParseError> {
    if !char_at(s, 0, '/') {
        Err(fail(ErrorKind::UnexpectedInput, 0))
    } else if alnum_run(s, 1) == 0 {
        Err(fail(ErrorKind::TrailingDelimiterWithoutBody, 1))
    } else {
        Ok((s.take(path_end(s, 0)), path_end(s, 0) as nat))
    }
}

/// Length of `d key '=' value` at index `i` of `s`, or 0 where none stands.
pub open spec fn pair_len(s: Seq<char>, i: int, d: char) -> nat {
    let k = alnum_run(s, i + 1);
    let v = alnum_run(s, i + 2 + k);
    if 0 <= i && char_at(s, i, d) && k > 0 && char_at(s, i + 1 + k, '=') && v > 0 {
        2 + k + v
    } else {
        0
    }
}

/// The key and the value of the pair at index `i` of `s`.
pub open spec fn pair_at(s: Seq<char>, i: int) -> (Seq<char>, Seq<char>) {
    let k = alnum_run(s, i + 1);
    let v = alnum_run(s, i + 2 + k);
    (s.subrange(i + 1, i + 1 + k), s.subrange(i + 2 + k, i + 2 + k + v))
}

/// The pairs of the longest run of `'&' key '=' value` of `s` from `i`.
pub open spec fn amp_pairs(s: Seq<char>, i: int) -> Seq<(Seq<char>, Seq<char>)>
    decreases s.len() - i,
{
    let l = pair_len(s, i, '&');
    if l > 0 && i + l <= s.len() {
        seq![pair_at(s, i)] + amp_pairs(s, i + l)
    } else {
        seq![]
    }
}

/// End of the longest run of `'&' key '=' value` of `s` from `i`.
pub open spec fn amp_end(s: Seq<char>, i: int) -> int
    decreases s.len() - i,
{
    let l = pair_len(s, i, '&');
    if l > 0 && i + l <= s.len() {
        amp_end(s, i + l)
    } else {
        i
    }
}

/// Outcome of decoding the query `'?' key '=' value ('&' key '=' value)*`
/// at the start of `s`.
#[verifier::opaque]
pub open spec fn query_spec(s: Seq<char>) -> Result<(Seq<(Seq<char>, Seq<char>)>, nat), ParseError> {
    let l = pair_len(s, 0, '?');
    if !char_at(s, 0, '?') {
        Err(fail(ErrorKind::UnexpectedInput, 0))
    } else if l == 0 {
        Err(fail(ErrorKind::TrailingDelimiterWithoutBody, 1))
    } else {
        Ok((seq![pair_at(s, 0)] + amp_pairs(s, l as int), amp_end(s, l as int) as nat))
    }
}

/// Outcome of decoding the fragment `'#' alphanumeric+` at the start of `s`.
#[verifier::opaque]
pub open spec fn fragment_spec(s: Seq<char>) -> Result<(Seq<char>, nat), ParseError> {
    let r = alnum_run(s, 1) as int;
    if !char_at(s, 0, '#') {
        Err(fail(ErrorKind::UnexpectedInput, 0))
    } else if r == 0 {
        Err(fail(ErrorKind::TrailingDelimiterWithoutBody, 1))
    } else {
        Ok((s.subrange(1, 1 + r), (1 + r) as nat))
    }
}

/// Whether `s`, of `n` characters, begins with `p`.
fn has_prefix(s: &str, n: usize, p: &str) -> (b: bool)
    requires
        n == s@.len(),
    ensures
        b == starts_with(s@, p@),
{
    let m = p.unicode_len();
    if m > n {
        return false;
    }
    let mut i: usize = 0;
    while i < m
        invariant
            i <= m <= n,
            n == s@.len(),
            m == p@.len(),
            forall|j: int| 0 <= j < i ==> s@[j] == p@[j],
        decreases m - i,
    {
        if s.get_char(i) != p.get_char(i) {
            assert(s@.take(m as int)[i as int] != p@[i as int]);
            return false;
        }
        i = i + 1;
    }
    assert(s@.take(m as int) =~= p@);
    true
}

/// Decodes `http://` or `https://`.
pub fn parse_scheme(input: &str) -> (r: Result<(&str, Scheme), ParseError>)
    ensures
        agrees(r, input@, scheme_spec(input@)),
{
    reveal(scheme_spec);
    let n = input.unicode_len();
    proof {
        reveal_strlit("http://");
        reveal_strlit("https://");
    }
    assert("http://"@ =~= http_lit());
    assert("https://"@ =~= https_lit());
    if has_prefix(input, n, "http://") {
        let rest = input.substring_char(7, n);
        assert(rest@ =~= input@.skip(7));
        Ok((rest, Scheme::HTTP))
    } else if has_prefix(input, n, "https://") {
        let rest = input.substring_char(8, n);
        assert(rest@ =~= input@.skip(8));
        Ok((rest, Scheme::HTTPS))
    } else {
        Err(make_error(ErrorKind::UnknownScheme, 0))
    }
}

/// Decodes a host `(label '.')+ label`, where a label is one or more
/// alphanumeric characters; the host keeps the dots between its labels.
pub fn parse_host(input: &str) -> (r: Result<(&str, Host), ParseError>)
    ensures
        agrees(r, input@, host_spec(input@)),
        r is Err ==> r->Err_0.position <= input@.len(),
{
    reveal(host_spec);
    let n = input.unicode_len();
    let mut i: usize = 0;
    loop
        invariant
            i <= n,
            n == input@.len(),
            dotted_end(input@, 0) == dotted_end(input@, i as int),
        ensures
            i <= n,
            dotted_end(input@, 0) == i,
        decreases n - i,
    {
        let j = alnum_end(input, n, i);
        if j > i && char_at_exec(input, n, j, '.') {
            i = j + 1;
        } else {
            break;
        }
    }
    let j = alnum_end(input, n, i);
    if i > 0 && j > i {
        let host = input.substring_char(0, j);
        let rest = input.substring_char(j, n);
        assert(host@ =~= input@.take(j as int));
        assert(rest@ =~= input@.skip(j as int));
        Ok((rest, Host(String::from_str(host))))
    } else {
        Err(make_error(ErrorKind::InvalidHost, i))
    }
}

/// Decodes a port `':' digit+` whose value is at most 65535.
pub fn parse_port(input: &str) -> (r: Result<(&str, Port), ParseError>)
    ensures
        agrees(r, input@, port_spec(input@)),
{
    reveal(port_spec);
    let n = input.unicode_len();
    if !char_at_exec(input, n, 0, ':') {
        return Err(make_error(ErrorKind::UnexpectedInput, 0));
    }
    let mut k: usize = 1;
    let mut acc: u32 = 0;
    while k < n && is_digit_char(input.get_char(k))
        invariant
            1 <= k <= n,
            n == input@.len(),
            digit_run(input@, 1) == (k - 1) + digit_run(input@, k as int),
            acc == (if digits_value(input@, 1, k as int) <= 65535 {
                digits_value(input@, 1, k as int)
            } else {
                65536
            }),
        decreases n - k,
    {
        let c = input.get_char(k);
        let d = (c as u32) - ('0' as u32);
        assert(digits_value(input@, 1, k + 1) == 10 * digits_value(input@, 1, k as int) + d);
        if acc <= 65535 {
            acc = acc * 10 + d;
            if acc > 65535 {
                acc = 65536;
            }
        }
        k = k + 1;
    }
    if k == 1 {
        return Err(make_error(ErrorKind::TrailingDelimiterWithoutBody, 1));
    }
    if acc > 65535 {
        return Err(make_error(ErrorKind::PortOutOfRange, 1));
    }
    let rest = input.substring_char(k, n);
    assert(rest@ =~= input@.skip(k as int));
    Ok((rest, Port(acc)))
}

/// Decodes a path `('/' alphanumeric+)+`; the path keeps its slashes.
pub fn parse_path(input: &str) -> (r: Result<(&str, Path), ParseError>)
    ensures
        agrees(r, input@, path_spec(input@)),
{
    reveal(path_spec);
    let n = input.unicode_len();
    if !char_at_exec(input, n, 0, '/') {
        return Err(make_error(ErrorKind::UnexpectedInput, 0));
    }
    if alnum_end(input, n, 1) == 1 {
        return Err(make_error(ErrorKind::TrailingDelimiterWithoutBody, 1));
    }
    let mut i: usize = 0;
    loop
        invariant
            i <= n,
            n == input@.len(),
            path_end(input@, 0) == path_end(input@, i as int),
        ensures
            i <= n,
            path_end(input@, 0) == i,
        decreases n - i,
    {
        let step = if char_at_exec(input, n, i, '/') {
            alnum_end(input, n, i + 1)
        } else {
            i
        };
        if step > i && step - i > 1 {
            i = step;
        } else {
            break;
        }
    }
    let path = input.substring_char(0, i);
    let rest = input.substring_char(i, n);
    assert(path@ =~= input@.take(i as int));
    assert(rest@ =~= input@.skip(i as int));
    Ok((rest, Path(String::from_str(path))))
}

/// The pair `d key '=' value` at index `i` of `s`, with its length.
fn pair_exec(s: &str, n: usize, i: usize, d: char) -> (r: Option<(usize, Query)>)
    requires
        n == s@.len(),
        i <= n,
    ensures
        match r {
            Some((l, q)) => l == pair_len(s@, i as int, d) && l > 0 && i + l <= n && q@ == pair_at(
                s@,
                i as int,
            ),
            None => pair_len(s@, i as int, d) == 0,
        },
{
    if !char_at_exec(s, n, i, d) {
        return None;
    }
    let key_end = alnum_end(s, n, i + 1);
    if key_end == i + 1 || !char_at_exec(s, n, key_end, '=') {
        return None;
    }
    let value_end = alnum_end(s, n, key_end + 1);
    if value_end == key_end + 1 {
        return None;
    }
    let key = String::from_str(s.substring_char(i + 1, key_end));
    let value = String::from_str(s.substring_char(key_end + 1, value_end));
    Some((value_end - i, Query(key, value)))
}

/// Decodes a query `'?' key '=' value ('&' key '=' value)*`, keys and
/// values alphanumeric; the pairs keep their order, duplicates included.
pub fn parse_query(input: &str) -> (r: Result<(&str, Vec<Query>), ParseError>)
    ensures
        match query_spec(input@) {
            Ok((v, k)) => k <= input@.len() && r is Ok && r->Ok_0.0@ == input@.skip(k as int) && queries_view(
                r->Ok_0.1@,
            ) == v,
            Err(e) => r is Err && r->Err_0 == e,
        },
{
    reveal(query_spec);
    let n = input.unicode_len();
    if !char_at_exec(input, n, 0, '?') {
        return Err(make_error(ErrorKind::UnexpectedInput, 0));
    }
    let (first_len, first) = match pair_exec(input, n, 0, '?') {
        Some(p) => p,
        None => return Err(make_error(ErrorKind::TrailingDelimiterWithoutBody, 1)),
    };
    let ghost s = input@;
    let mut queries: Vec<Query> = Vec::new();
    queries.push(first);
    assert(queries_view(queries@) =~= seq![pair_at(s, 0)]);
    let mut i: usize = first_len;
    loop
        invariant
            i <= n,
            n == s.len(),
            s == input@,
            queries_view(queries@) + amp_pairs(s, i as int) == seq![pair_at(s, 0)] + amp_pairs(
                s,
                first_len as int,
            ),
            amp_end(s, i as int) == amp_end(s, first_len as int),
        ensures
            i <= n,
            queries_view(queries@) == seq![pair_at(s, 0)] + amp_pairs(s, first_len as int),
            i == amp_end(s, first_len as int),
        decreases n - i,
    {
        match pair_exec(input, n, i, '&') {
            Some((l, q)) => {
                let ghost before = queries@;
                queries.push(q);
                assert(queries_view(queries@) =~= queries_view(before).push(q@));
                assert(amp_pairs(s, i as int) == seq![q@] + amp_pairs(s, i + l));
                assert(queries_view(before) + amp_pairs(s, i as int) =~= queries_view(queries@)
                    + amp_pairs(s, i + l));
                i = i + l;
            },
            None => {
                assert(queries_view(queries@) + amp_pairs(s, i as int) =~= queries_view(
                    queries@,
                ));
                break;
            },
        }
    }
    let rest = input.substring_char(i, n);
    assert(rest@ =~= input@.skip(i as int));
    Ok((rest, queries))
}

/// Decodes a fragment `'#' alphanumeric+`.
pub fn parse_fragment_id(input: &str) -> (r: Result<(&str, FragmentId), ParseError>)
    ensures
        agrees(r, input@, fragment_spec(input@)),
{
    reveal(fragment_spec);
    let n = input.unicode_len();
    if !char_at_exec(input, n, 0, '#') {
        return Err(make_error(ErrorKind::UnexpectedInput, 0));
    }
    let end = alnum_end(input, n, 1);
    if end == 1 {
        return Err(make_error(ErrorKind::TrailingDelimiterWithoutBody, 1));
    }
    let id = input.substring_char(1, end);
    let rest = input.substring_char(end, n);
    assert(rest@ =~= input@.skip(end as int));
    Ok((rest, FragmentId(String::from_str(id))))
}

/// Offset in `s` right after the host: where a port may start.
pub open spec fn port_start(s: Seq<char>) -> int {
    let a = scheme_spec(s)->Ok_0.1;
    a + host_spec(s.skip(a as int))->Ok_0.1 as int
}

/// Offset in `s` where a path may start.
pub open spec fn path_start(s: Seq<char>) -> int {
    port_start(s) + optional(port_spec(s.skip(port_start(s)))).1 as int
}

/// Offset in `s` where a query may start.
pub open spec fn query_start(s: Seq<char>) -> int {
    path_start(s) + optional(path_spec(s.skip(path_start(s)))).1 as int
}

/// Offset in `s` where a fragment may start.
pub open spec fn fragment_start(s: Seq<char>) -> int {
    query_start(s) + optional(query_spec(s.skip(query_start(s)))).1 as int
}

/// Outcome of decoding a whole URL at the start of `s`: scheme, host, then
/// port, path, query and fragment, each absent where it does not decode.
/// A host failure is reported at its offset in `s`.
pub open spec fn url_spec(s: Seq<char>) -> Result<(UrlView, nat), ParseError> {
    match scheme_spec(s) {
        Err(e) => Err(e),
        Ok((scheme, a)) => match host_spec(s.skip(a as int)) {
            Err(e) => Err(fail(e.kind, a as int + e.position as int)),
            Ok((host, b)) => {
                let fragment = optional(fragment_spec(s.skip(fragment_start(s))));
                Ok(
                    (
                        UrlView {
                            scheme,
                            host,
                            port: optional(port_spec(s.skip(port_start(s)))).0,
                            path: optional(path_spec(s.skip(path_start(s)))).0,
                            query: optional(query_spec(s.skip(query_start(s)))).0,
                            fragment_id: fragment.0,
                        },
                        (fragment_start(s) + fragment.1 as int) as nat,
                    ),
                )
            },
        },
    }
}

/// The port if one stands at the start of `input`, else `None` and
/// `input` unchanged.
pub fn optional_port(input: &str) -> (r: (&str, Option<Port>))
    ensures
        optional(port_spec(input@)).1 <= input@.len(),
        r.0@ == input@.skip(optional(port_spec(input@)).1 as int),
        opt_view(r.1) == optional(port_spec(input@)).0,
{
    match parse_port(input) {
        Ok((rest, port)) => (rest, Some(port)),
        Err(_) => {
            assert(input@.skip(0) =~= input@);
            (input, None)
        },
    }
}

/// The path if one stands at the start of `input`, else `None` and
/// `input` unchanged.
pub fn optional_path(input: &str) -> (r: (&str, Option<Path>))
    ensures
        optional(path_spec(input@)).1 <= input@.len(),
        r.0@ == input@.skip(optional(path_spec(input@)).1 as int),
        opt_view(r.1) == optional(path_spec(input@)).0,
{
    match parse_path(input) {
        Ok((rest, path)) => (rest, Some(path)),
        Err(_) => {
            assert(input@.skip(0) =~= input@);
            (input, None)
        },
    }
}

/// The query if one stands at the start of `input`, else `None` and
/// `input` unchanged.
pub fn optional_query(input: &str) -> (r: (&str, Option<Vec<Query>>))
    ensures
        optional(query_spec(input@)).1 <= input@.len(),
        r.0@ == input@.skip(optional(query_spec(input@)).1 as int),
        opt_queries_view(r.1) == optional(query_spec(input@)).0,
{
    match parse_query(input) {
        Ok((rest, queries)) => (rest, Some(queries)),
        Err(_) => {
            assert(input@.skip(0) =~= input@);
            (input, None)
        },
    }
}

/// The fragment if one stands at the start of `input`, else `None` and
/// `input` unchanged.
pub fn optional_fragment_id(input: &str) -> (r: (&str, Option<FragmentId>))
    ensures
        optional(fragment_spec(input@)).1 <= input@.len(),
        r.0@ == input@.skip(optional(fragment_spec(input@)).1 as int),
        opt_view(r.1) == optional(fragment_spec(input@)).0,
{
    match parse_fragment_id(input) {
        Ok((rest, fragment)) => (rest, Some(fragment)),
        Err(_) => {
            assert(input@.skip(0) =~= input@);
            (input, None)
        },
    }
}

/// Decodes a URL from the start of `input`. Input after the URL is left in
/// the returned remainder; a caller that wants the whole input decoded
/// checks that the remainder is empty.
pub fn parse_url(input: &str) -> (r: Result<(&str, URL), ParseError>)
    ensures
        agrees(r, input@, url_spec(input@)),
{
    let ghost s = input@;
    let n = input.unicode_len();
    let (rest, scheme) = match parse_scheme(input) {
        Ok(p) => p,
        Err(e) => return Err(e),
    };
    let ghost a: int = scheme_spec(s)->Ok_0.1 as int;
    let consumed = n - rest.unicode_len();
    assert(consumed == a);
    let (rest, host) = match parse_host(rest) {
        Ok(p) => p,
        Err(e) => return Err(make_error(e.kind, consumed + e.position)),
    };
    let ghost c: int = port_start(s);
    assert(rest@ =~= s.skip(c));
    let (rest, port) = optional_port(rest);
    let ghost d: int = path_start(s);
    assert(rest@ =~= s.skip(d));
    let (rest, path) = optional_path(rest);
    let ghost e: int = query_start(s);
    assert(rest@ =~= s.skip(e));
    let (rest, query) = optional_query(rest);
    let ghost f: int = fragment_start(s);
    assert(rest@ =~= s.skip(f));
    let (rest, fragment_id) = optional_fragment_id(rest);
    let ghost g: int = f + optional(fragment_spec(s.skip(f))).1;
    assert(rest@ =~= s.skip(g));
    Ok((rest, URL { scheme, host, port, path, query, fragment_id }))
}

} // verus!
