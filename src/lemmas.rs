use vstd::prelude::*;

use crate::text::{
    alnum_run, char_at, digit_run, lemma_alnum_run_bound, lemma_alnum_run_take,
    lemma_digit_run_bound, lemma_digit_run_take, lemma_digits_value_take,
};
use crate::url::{
    amp_end, amp_pairs, dotted_end, fragment_spec, host_spec, pair_at, pair_len, path_end,
    path_spec, port_spec, query_spec, scheme_spec, optional, url_spec, port_start, path_start,
    query_start, fragment_start, UrlView,
};
use crate::error::ParseError;
use crate::rgb::color_spec;

verus! {

proof fn lemma_dotted_end_bounds(s: Seq<char>, i: int)
    requires
        0 <= i <= s.len(),
    ensures
        i <= dotted_end(s, i) <= s.len(),
    decreases s.len() - i,
{
    let r = alnum_run(s, i);
    if r > 0 && char_at(s, i + r, '.') {
        lemma_dotted_end_bounds(s, i + r + 1);
    }
}

proof fn lemma_dotted_end_take(s: Seq<char>, m: int, i: int)
    requires
        0 <= i <= m <= s.len(),
        dotted_end(s, i) + alnum_run(s, dotted_end(s, i)) <= m,
    ensures
        dotted_end(s.take(m), i) == dotted_end(s, i),
    decreases s.len() - i,
{
    let r = alnum_run(s, i);
    lemma_alnum_run_take(s, m, i);
    if r > 0 && char_at(s, i + r, '.') {
        lemma_dotted_end_bounds(s, i + r + 1);
        assert(s.take(m)[i + r] == s[i + r]);
        lemma_dotted_end_take(s, m, i + r + 1);
    } else if i + r < m {
        assert(s.take(m)[i + r] == s[i + r]);
    }
}

proof fn lemma_path_end_bounds(s: Seq<char>, i: int)
    requires
        0 <= i <= s.len(),
    ensures
        i <= path_end(s, i) <= s.len(),
    decreases s.len() - i,
{
    let r = alnum_run(s, i + 1);
    if char_at(s, i, '/') && r > 0 && i + 1 + r <= s.len() {
        lemma_path_end_bounds(s, i + 1 + r);
    }
}

proof fn lemma_path_end_take(s: Seq<char>, m: int, i: int)
    requires
        0 <= i <= m <= s.len(),
        path_end(s, i) <= m,
    ensures
        path_end(s.take(m), i) == path_end(s, i),
    decreases s.len() - i,
{
    let r = alnum_run(s, i + 1);
    if i < m {
        assert(s.take(m)[i] == s[i]);
        lemma_alnum_run_take(s, m, i + 1);
        lemma_alnum_run_bound(s, i + 1);
    }
    if char_at(s, i, '/') && r > 0 && i + 1 + r <= s.len() {
        lemma_path_end_bounds(s, i + 1 + r);
        lemma_path_end_take(s, m, i + 1 + r);
    }
}

proof fn lemma_pair_len_bound(s: Seq<char>, i: int, d: char)
    requires
        0 <= i <= s.len(),
    ensures
        i + pair_len(s, i, d) <= s.len(),
{
    let k = alnum_run(s, i + 1);
    lemma_alnum_run_bound(s, i + 1);
    lemma_alnum_run_bound(s, i + 2 + k);
}

proof fn lemma_pair_len_take(s: Seq<char>, m: int, i: int, d: char)
    requires
        0 <= i <= m <= s.len(),
        i + pair_len(s, i, d) <= m,
    ensures
        pair_len(s.take(m), i, d) == pair_len(s, i, d),
        pair_len(s, i, d) > 0 ==> pair_at(s.take(m), i) == pair_at(s, i),
{
    let t = s.take(m);
    let k = alnum_run(s, i + 1);
    let v = alnum_run(s, i + 2 + k);
    lemma_alnum_run_bound(s, i + 1);
    if i < m {
        assert(t[i] == s[i]);
        lemma_alnum_run_take(s, m, i + 1);
        if i + 1 + k < m {
            assert(t[i + 1 + k] == s[i + 1 + k]);
            lemma_alnum_run_take(s, m, i + 2 + k);
            lemma_alnum_run_bound(s, i + 2 + k);
        }
    }
    if pair_len(s, i, d) > 0 {
        assert(t.subrange(i + 1, i + 1 + k) =~= s.subrange(i + 1, i + 1 + k));
        assert(t.subrange(i + 2 + k, i + 2 + k + v) =~= s.subrange(i + 2 + k, i + 2 + k + v));
    }
}

proof fn lemma_amp_bounds(s: Seq<char>, i: int)
    requires
        0 <= i <= s.len(),
    ensures
        i <= amp_end(s, i) <= s.len(),
    decreases s.len() - i,
{
    let l = pair_len(s, i, '&');
    if l > 0 && i + l <= s.len() {
        lemma_amp_bounds(s, i + l);
    }
}

proof fn lemma_amp_take(s: Seq<char>, m: int, i: int)
    requires
        0 <= i <= m <= s.len(),
        amp_end(s, i) <= m,
    ensures
        amp_end(s.take(m), i) == amp_end(s, i),
        amp_pairs(s.take(m), i) == amp_pairs(s, i),
    decreases s.len() - i,
{
    let l = pair_len(s, i, '&');
    lemma_pair_len_bound(s, i, '&');
    if l > 0 && i + l <= s.len() {
        lemma_amp_bounds(s, i + l);
        lemma_pair_len_take(s, m, i, '&');
        lemma_amp_take(s, m, i + l);
    } else {
        lemma_pair_len_take(s, m, i, '&');
    }
}

proof fn lemma_scheme_cut(u: Seq<char>, k: int)
    requires
        0 <= k <= u.len(),
    ensures
        scheme_spec(u) is Ok ==> 0 < scheme_spec(u)->Ok_0.1 <= u.len(),
        scheme_spec(u) is Ok && scheme_spec(u)->Ok_0.1 <= k ==> scheme_spec(u.take(k))
            == scheme_spec(u),
{
    reveal(scheme_spec);
    if k >= 7 {
        assert(u.take(k).take(7) =~= u.take(7));
    }
    if k >= 8 {
        assert(u.take(k).take(8) =~= u.take(8));
    }
}

proof fn lemma_host_cut(u: Seq<char>, k: int)
    requires
        0 <= k <= u.len(),
    ensures
        host_spec(u) is Ok ==> 0 < host_spec(u)->Ok_0.1 <= u.len(),
        host_spec(u) is Ok && host_spec(u)->Ok_0.1 <= k ==> host_spec(u.take(k)) == host_spec(u),
{
    reveal(host_spec);
    let d = dotted_end(u, 0);
    lemma_dotted_end_bounds(u, 0);
    lemma_alnum_run_bound(u, d);
    if host_spec(u) is Ok && host_spec(u)->Ok_0.1 <= k {
        let r = alnum_run(u, d);
        lemma_dotted_end_take(u, k, 0);
        lemma_alnum_run_take(u, k, d);
        assert(u.take(k).take(d + r) =~= u.take(d + r));
    }
}

proof fn lemma_port_cut(u: Seq<char>, k: int)
    requires
        0 <= k <= u.len(),
    ensures
        port_spec(u) is Ok ==> char_at(u, 0, ':') && 0 < port_spec(u)->Ok_0.1 <= u.len(),
        port_spec(u) is Ok && port_spec(u)->Ok_0.1 <= k ==> port_spec(u.take(k)) == port_spec(u),
        !char_at(u.take(k), 0, ':') ==> port_spec(u.take(k)) is Err,
{
    reveal(port_spec);
    lemma_digit_run_bound(u, 1);
    if port_spec(u) is Ok && port_spec(u)->Ok_0.1 <= k {
        assert(u.take(k)[0] == u[0]);
        lemma_digit_run_take(u, k, 1);
        lemma_digits_value_take(u, k, 1, 1 + digit_run(u, 1) as int);
    }
}

proof fn lemma_path_cut(u: Seq<char>, k: int)
    requires
        0 <= k <= u.len(),
    ensures
        path_spec(u) is Ok ==> char_at(u, 0, '/') && 0 < path_spec(u)->Ok_0.1 <= u.len(),
        path_spec(u) is Ok && path_spec(u)->Ok_0.1 <= k ==> path_spec(u.take(k)) == path_spec(u),
        !char_at(u.take(k), 0, '/') ==> path_spec(u.take(k)) is Err,
{
    reveal(path_spec);
    if char_at(u, 0, '/') {
        lemma_path_end_bounds(u, 0);
        lemma_alnum_run_bound(u, 1);
        if path_spec(u) is Ok {
            lemma_path_end_bounds(u, 1 + alnum_run(u, 1) as int);
        }
    }
    if path_spec(u) is Ok && path_spec(u)->Ok_0.1 <= k {
        let e = path_end(u, 0);
        assert(u.take(k)[0] == u[0]);
        lemma_path_end_take(u, k, 0);
        lemma_alnum_run_take(u, k, 1);
        assert(u.take(k).take(e) =~= u.take(e));
    }
}

proof fn lemma_query_cut(u: Seq<char>, k: int)
    requires
        0 <= k <= u.len(),
    ensures
        query_spec(u) is Ok ==> char_at(u, 0, '?') && 0 < query_spec(u)->Ok_0.1 <= u.len(),
        query_spec(u) is Ok && query_spec(u)->Ok_0.1 <= k ==> query_spec(u.take(k)) == query_spec(
            u,
        ),
        !char_at(u.take(k), 0, '?') ==> query_spec(u.take(k)) is Err,
{
    reveal(query_spec);
    let l = pair_len(u, 0, '?') as int;
    lemma_pair_len_bound(u, 0, '?');
    if query_spec(u) is Ok {
        lemma_amp_bounds(u, l);
    }
    if query_spec(u) is Ok && query_spec(u)->Ok_0.1 <= k {
        assert(u.take(k)[0] == u[0]);
        lemma_pair_len_take(u, k, 0, '?');
        lemma_amp_take(u, k, l);
    }
}

proof fn lemma_fragment_cut(u: Seq<char>, k: int)
    requires
        0 <= k <= u.len(),
    ensures
        fragment_spec(u) is Ok ==> char_at(u, 0, '#') && 0 < fragment_spec(u)->Ok_0.1 <= u.len(),
        fragment_spec(u) is Ok && fragment_spec(u)->Ok_0.1 <= k ==> fragment_spec(u.take(k))
            == fragment_spec(u),
        !char_at(u.take(k), 0, '#') ==> fragment_spec(u.take(k)) is Err,
{
    reveal(fragment_spec);
    lemma_alnum_run_bound(u, 1);
    if fragment_spec(u) is Ok && fragment_spec(u)->Ok_0.1 <= k {
        let r = alnum_run(u, 1) as int;
        assert(u.take(k)[0] == u[0]);
        lemma_alnum_run_take(u, k, 1);
        assert(u.take(k).subrange(1, 1 + r) =~= u.subrange(1, 1 + r));
    }
}

/// Cutting `s` at one of the offsets where an optional field may start
/// keeps the fields that end at or before the cut and drops the others.
proof fn lemma_cut(s: Seq<char>, m: int)
    requires
        url_spec(s) is Ok,
        m == port_start(s) || m == path_start(s) || m == query_start(s) || m == fragment_start(s),
    ensures
        port_start(s) <= path_start(s) <= query_start(s) <= fragment_start(s) <= s.len(),
        ({
            let v = url_spec(s)->Ok_0.0;
            url_spec(s.take(m)) == Ok::<(UrlView, nat), ParseError>(
                (
                    UrlView {
                        scheme: v.scheme,
                        host: v.host,
                        port: if m >= path_start(s) {
                            v.port
                        } else {
                            None
                        },
                        path: if m >= query_start(s) {
                            v.path
                        } else {
                            None
                        },
                        query: if m >= fragment_start(s) {
                            v.query
                        } else {
                            None
                        },
                        fragment_id: None,
                    },
                    m as nat,
                ),
            )
        }),
{
    let t = s.take(m);
    let a = scheme_spec(s)->Ok_0.1 as int;
    let c = port_start(s);
    let d = path_start(s);
    let e = query_start(s);
    let f = fragment_start(s);
    lemma_scheme_cut(s, 0);
    lemma_host_cut(s.skip(a), 0);
    lemma_port_cut(s.skip(c), 0);
    lemma_path_cut(s.skip(d), 0);
    lemma_query_cut(s.skip(e), 0);
    assert(c <= d <= e <= f <= s.len());
    lemma_scheme_cut(s, m);
    assert(t.skip(a) =~= s.skip(a).take(m - a));
    lemma_host_cut(s.skip(a), m - a);
    assert(port_start(t) == c);
    assert(t.skip(c) =~= s.skip(c).take(m - c));
    assert(t.skip(m) =~= s.skip(m).take(0));
    if m > c {
        assert(t.skip(c)[0] == s[c]);
        assert(s.skip(c)[0] == s[c]);
    }
    if m > d {
        assert(t.skip(d)[0] == s[d]);
        assert(s.skip(d)[0] == s[d]);
    }
    if m > e {
        assert(t.skip(e)[0] == s[e]);
        assert(s.skip(e)[0] == s[e]);
    }
    lemma_port_cut(s.skip(c), m - c);
    assert(path_start(t) == if m >= d { d } else { m });
    if m >= d {
        assert(t.skip(d) =~= s.skip(d).take(m - d));
        lemma_path_cut(s.skip(d), m - d);
    } else {
        lemma_path_cut(s.skip(m), 0);
    }
    assert(query_start(t) == if m >= e { e } else { m });
    if m >= e {
        assert(t.skip(e) =~= s.skip(e).take(m - e));
        lemma_query_cut(s.skip(e), m - e);
    } else {
        lemma_query_cut(s.skip(m), 0);
    }
    assert(fragment_start(t) == m);
    lemma_fragment_cut(s.skip(m), 0);
}

/// Decoding is a function of the input characters alone: equal inputs give
/// equal outcomes, so repeated calls of `parse_url` or `parse_hex` on one
/// string return equal values, remainders and errors.
pub proof fn lemma_decode_deterministic(s1: Seq<char>, s2: Seq<char>)
    requires
        s1 == s2,
    ensures
        url_spec(s1) == url_spec(s2),
        color_spec(s1) == color_spec(s2),
{
}

/// An optional field that fails to decode consumes nothing: the remainder
/// handed on is the input itself.
pub proof fn lemma_failure_consumes_nothing(s: Seq<char>)
    ensures
        port_spec(s) is Err ==> optional(port_spec(s)).1 == 0 && s.skip(0) == s,
        path_spec(s) is Err ==> optional(path_spec(s)).1 == 0 && s.skip(0) == s,
        query_spec(s) is Err ==> optional(query_spec(s)).1 == 0 && s.skip(0) == s,
        fragment_spec(s) is Err ==> optional(fragment_spec(s)).1 == 0 && s.skip(0) == s,
{
    assert(s.skip(0) =~= s);
}

/// Removing the trailing optional segments of a decodable URL, from the
/// fragment back to the port, still decodes: the removed fields are absent,
/// the earlier ones unchanged, and the shortened input is consumed whole.
pub proof fn lemma_drop_trailing_fields(s: Seq<char>)
    requires
        url_spec(s) is Ok,
    ensures
        ({
            let v = url_spec(s)->Ok_0.0;
            &&& url_spec(s.take(fragment_start(s))) == Ok::<(UrlView, nat), ParseError>(
                (UrlView { fragment_id: None, ..v }, fragment_start(s) as nat),
            )
            &&& url_spec(s.take(query_start(s))) == Ok::<(UrlView, nat), ParseError>(
                (UrlView { query: None, fragment_id: None, ..v }, query_start(s) as nat),
            )
            &&& url_spec(s.take(path_start(s))) == Ok::<(UrlView, nat), ParseError>(
                (UrlView { path: None, query: None, fragment_id: None, ..v }, path_start(s) as nat),
            )
            &&& url_spec(s.take(port_start(s))) == Ok::<(UrlView, nat), ParseError>(
                (
                    UrlView { port: None, path: None, query: None, fragment_id: None, ..v },
                    port_start(s) as nat,
                ),
            )
        }),
{
    let v = url_spec(s)->Ok_0.0;
    lemma_cut(s, fragment_start(s));
    lemma_cut(s, query_start(s));
    lemma_cut(s, path_start(s));
    lemma_cut(s, port_start(s));
    lemma_query_cut(s.skip(query_start(s)), 0);
    lemma_path_cut(s.skip(path_start(s)), 0);
    lemma_port_cut(s.skip(port_start(s)), 0);
}

} // verus!
