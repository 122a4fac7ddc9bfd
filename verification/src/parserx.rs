//! Executable decoding of the mapping syntax, proved equal to the
//! mathematical grammar in `mapping`, `scalars` and `tomlish`.

use vstd::prelude::*;

use crate::model::Scalar;
use crate::model::ScalarV;
use crate::scalars::dq_scan;
use crate::scalars::is_num_text;
use crate::scalars::lit_false;
use crate::scalars::lit_null;
use crate::scalars::lit_true;
use crate::scalars::parse_scalar_token;
use crate::scalars::scan_digits;
use crate::scalars::sq_scan;
use crate::scalars::unesc1;
use crate::mapping::colon_scan;
use crate::mapping::delim_scan;
use crate::mapping::ws_end;
use crate::text::is_ws_char;
use crate::text::string_from_chars;
use crate::tomlish::eq_scan;

verus! {

/// First non-whitespace index at or after `i`.
pub fn ws_end_exec(s: &Vec<char>, i: usize) -> (r: usize)
    requires
        i <= s@.len(),
    ensures
        r == ws_end(s@, i as int),
        i <= r <= s@.len(),
{
    let mut j: usize = i;
    while j < s.len() && is_ws_char(s[j])
        invariant
            i <= j <= s@.len(),
            ws_end(s@, i as int) == ws_end(s@, j as int),
        decreases s@.len() - j,
    {
        j = j + 1;
    }
    j
}

/// First `:` index at or after `i`.
pub fn colon_scan_exec(s: &Vec<char>, i: usize) -> (r: usize)
    requires
        i <= s@.len(),
    ensures
        r == colon_scan(s@, i as int),
        i <= r <= s@.len(),
{
    let mut j: usize = i;
    while j < s.len() && s[j] != ':'
        invariant
            i <= j <= s@.len(),
            colon_scan(s@, i as int) == colon_scan(s@, j as int),
        decreases s@.len() - j,
    {
        j = j + 1;
    }
    j
}

/// First `=` index at or after `i`.
pub fn eq_scan_exec(s: &Vec<char>, i: usize) -> (r: usize)
    requires
        i <= s@.len(),
    ensures
        r == eq_scan(s@, i as int),
        i <= r <= s@.len(),
{
    let mut j: usize = i;
    while j < s.len() && s[j] != '='
        invariant
            i <= j <= s@.len(),
            eq_scan(s@, i as int) == eq_scan(s@, j as int),
        decreases s@.len() - j,
    {
        j = j + 1;
    }
    j
}

/// First `,`-or-`close` index at or after `i`.
pub fn delim_scan_exec(s: &Vec<char>, i: usize, close: char) -> (r: usize)
    requires
        i <= s@.len(),
    ensures
        r == delim_scan(s@, i as int, close),
        i <= r <= s@.len(),
{
    let mut j: usize = i;
    while j < s.len() && !(s[j] == ',' || s[j] == close)
        invariant
            i <= j <= s@.len(),
            delim_scan(s@, i as int, close) == delim_scan(s@, j as int, close),
        decreases s@.len() - j,
    {
        j = j + 1;
    }
    j
}

/// First non-digit index at or after `i`.
pub fn scan_digits_exec(s: &Vec<char>, i: usize) -> (r: usize)
    requires
        i <= s@.len(),
    ensures
        r == scan_digits(s@, i as int),
        i <= r <= s@.len(),
{
    let mut j: usize = i;
    while j < s.len() && '0' <= s[j] && s[j] <= '9'
        invariant
            i <= j <= s@.len(),
            scan_digits(s@, i as int) == scan_digits(s@, j as int),
        decreases s@.len() - j,
    {
        j = j + 1;
    }
    j
}

/// Whether `s` is a decimal number literal.
pub fn is_num_exec(s: &Vec<char>) -> (r: bool)
    ensures
        r == is_num_text(s@),
{
    if s.len() == 0 {
        return false;
    }
    let st: usize = if s[0] == '-' {
        1
    } else {
        0
    };
    let d1 = scan_digits_exec(s, st);
    if d1 <= st {
        return false;
    }
    if d1 == s.len() {
        return true;
    }
    if s[d1] != '.' {
        return false;
    }
    let d2 = scan_digits_exec(s, d1 + 1);
    d2 > d1 + 1 && d2 == s.len()
}

/// Scans a double-quoted string from just past the opening quote; returns
/// its decoded content and the index just past the closing quote.
pub fn dq_scan_exec(s: &Vec<char>, i: usize) -> (r: Option<(Vec<char>, usize)>)
    requires
        i <= s@.len(),
    ensures
        match r {
            Some((c, j)) => dq_scan(s@, i as int) == Some((c@, j as int)) && i < j <= s@.len(),
            None => dq_scan(s@, i as int) == None::<(Seq<char>, int)>,
        },
{
    let mut out: Vec<char> = Vec::new();
    let mut j: usize = i;
    proof {
        crate::scalars::lemma_dq_scan_bounds(s@, i as int);
        let o = dq_scan(s@, i as int);
        if o is Some {
            assert(Seq::<char>::empty() + o.unwrap().0 =~= o.unwrap().0);
        }
    }
    loop
        invariant
            i <= j <= s@.len(),
            (match dq_scan(s@, j as int) {
                Some((c, e)) => dq_scan(s@, i as int) == Some((out@ + c, e)) && j < e,
                None => dq_scan(s@, i as int) == None::<(Seq<char>, int)>,
            }),
        decreases s@.len() - j,
    {
        if j >= s.len() {
            return None;
        }
        let c = s[j];
        if c == '"' {
            proof {
                assert(out@ + Seq::<char>::empty() =~= out@);
            }
            return Some((out, j + 1));
        }
        if c == '\\' {
            if j + 1 >= s.len() {
                return None;
            }
            let e = s[j + 1];
            let u: char = if e == '"' {
                '"'
            } else if e == '\\' {
                '\\'
            } else if e == 'n' {
                '\n'
            } else if e == 'r' {
                '\r'
            } else if e == 't' {
                '\t'
            } else {
                return None;
            };
            proof {
                assert(unesc1(s@[j + 1]) == Some(u));
                crate::scalars::lemma_dq_scan_bounds(s@, j + 2);
                let o = dq_scan(s@, j + 2);
                if o is Some {
                    let c2 = o.unwrap().0;
                    assert(out@ + (seq![u] + c2) =~= (out@ + seq![u]) + c2);
                }
            }
            out.push(u);
            j = j + 2;
        } else {
            proof {
                crate::scalars::lemma_dq_scan_bounds(s@, j + 1);
                let o = dq_scan(s@, j + 1);
                if o is Some {
                    let c2 = o.unwrap().0;
                    assert(out@ + (seq![c] + c2) =~= (out@ + seq![c]) + c2);
                }
            }
            out.push(c);
            j = j + 1;
        }
    }
}

/// Scans a single-quoted string from just past the opening quote.
pub fn sq_scan_exec(s: &Vec<char>, i: usize) -> (r: Option<(Vec<char>, usize)>)
    requires
        i <= s@.len(),
    ensures
        match r {
            Some((c, j)) => sq_scan(s@, i as int) == Some((c@, j as int)) && i < j <= s@.len(),
            None => sq_scan(s@, i as int) == None::<(Seq<char>, int)>,
        },
{
    let mut out: Vec<char> = Vec::new();
    let mut j: usize = i;
    proof {
        crate::scalars::lemma_sq_scan_bounds(s@, i as int);
        let o = sq_scan(s@, i as int);
        if o is Some {
            assert(Seq::<char>::empty() + o.unwrap().0 =~= o.unwrap().0);
        }
    }
    loop
        invariant
            i <= j <= s@.len(),
            (match sq_scan(s@, j as int) {
                Some((c, e)) => sq_scan(s@, i as int) == Some((out@ + c, e)) && j < e,
                None => sq_scan(s@, i as int) == None::<(Seq<char>, int)>,
            }),
        decreases s@.len() - j,
    {
        if j >= s.len() {
            return None;
        }
        let c = s[j];
        if c == '\'' {
            if j + 1 < s.len() && s[j + 1] == '\'' {
                proof {
                    crate::scalars::lemma_sq_scan_bounds(s@, j + 2);
                    let o = sq_scan(s@, j + 2);
                    if o is Some {
                        let c2 = o.unwrap().0;
                        assert(out@ + (seq!['\''] + c2) =~= (out@ + seq!['\'']) + c2);
                    }
                }
                out.push('\'');
                j = j + 2;
            } else {
                proof {
                    assert(out@ + Seq::<char>::empty() =~= out@);
                }
                return Some((out, j + 1));
            }
        } else {
            proof {
                crate::scalars::lemma_sq_scan_bounds(s@, j + 1);
                let o = sq_scan(s@, j + 1);
                if o is Some {
                    let c2 = o.unwrap().0;
                    assert(out@ + (seq![c] + c2) =~= (out@ + seq![c]) + c2);
                }
            }
            out.push(c);
            j = j + 1;
        }
    }
}

/// View of an optional scalar result.
pub open spec fn opt_scalar_view(r: Option<Scalar>) -> Option<ScalarV> {
    match r {
        Some(s) => Some(s@),
        None => None,
    }
}

/// Decodes one scalar token (already trimmed).
pub fn parse_scalar_token_exec(t: &Vec<char>) -> (r: Option<Scalar>)
    ensures
        opt_scalar_view(r) == parse_scalar_token(t@),
{
    if t.len() == 0 {
        return None;
    }
    let c0 = t[0];
    if c0 == '"' {
        match dq_scan_exec(t, 1) {
            Some((content, j)) => {
                if j == t.len() {
                    Some(Scalar::Text(string_from_chars(&content)))
                } else {
                    None
                }
            },
            None => None,
        }
    } else if c0 == '\'' {
        match sq_scan_exec(t, 1) {
            Some((content, j)) => {
                if j == t.len() {
                    Some(Scalar::Text(string_from_chars(&content)))
                } else {
                    None
                }
            },
            None => None,
        }
    } else if c0 == '[' || c0 == '{' {
        None
    } else if t.len() == 4 && t[0] == 't' && t[1] == 'r' && t[2] == 'u' && t[3] == 'e' {
        proof {
            assert(t@ =~= lit_true());
        }
        Some(Scalar::Flag(true))
    } else if t.len() == 5 && t[0] == 'f' && t[1] == 'a' && t[2] == 'l' && t[3] == 's' && t[4]
        == 'e' {
        proof {
            assert(t@ =~= lit_false());
        }
        Some(Scalar::Flag(false))
    } else if (t.len() == 4 && t[0] == 'n' && t[1] == 'u' && t[2] == 'l' && t[3] == 'l') || (t.len()
        == 1 && t[0] == '~') {
        proof {
            if t@.len() == 4 {
                assert(t@ =~= lit_null());
            } else {
                assert(t@ =~= seq!['~']);
            }
        }
        Some(Scalar::Null)
    } else if is_num_exec(t) {
        proof {
            assert(t@ != lit_true() && t@ != lit_false() && t@ != lit_null() && t@ != seq!['~']);
        }
        Some(Scalar::Num(string_from_chars(t)))
    } else {
        proof {
            assert(t@ != lit_true() && t@ != lit_false() && t@ != lit_null() && t@ != seq!['~']);
        }
        Some(Scalar::Text(string_from_chars(t)))
    }
}


/// Scans one flow scalar at non-whitespace index `i`.
pub fn flow_scalar_exec(s: &Vec<char>, i: usize, close: char) -> (r: Option<(Scalar, usize)>)
    requires
        i <= s@.len(),
    ensures
        match r {
            Some((sc, j)) => crate::mapping::flow_scalar(s@, i as int, close) == Some(
                (sc@, j as int),
            ) && j <= s@.len(),
            None => crate::mapping::flow_scalar(s@, i as int, close) == None::<(ScalarV, int)>,
        },
{
    if i >= s.len() {
        return None;
    }
    let c0 = s[i];
    if c0 == '"' {
        match dq_scan_exec(s, i + 1) {
            Some((content, j)) => Some((Scalar::Text(string_from_chars(&content)), j)),
            None => None,
        }
    } else if c0 == '\'' {
        match sq_scan_exec(s, i + 1) {
            Some((content, j)) => Some((Scalar::Text(string_from_chars(&content)), j)),
            None => None,
        }
    } else {
        let k = delim_scan_exec(s, i, close);
        let tok = crate::text::trim_of(&crate::text::subrange_of(s, i, k));
        match parse_scalar_token_exec(&tok) {
            Some(sc) => Some((sc, k)),
            None => None,
        }
    }
}

/// Scans one flow-mapping key at non-whitespace index `i`; returns the key
/// and the index of the `:` after it.
pub fn flow_key_exec(s: &Vec<char>, i: usize) -> (r: Option<(Vec<char>, usize)>)
    requires
        i <= s@.len(),
    ensures
        match r {
            Some((k, cp)) => crate::mapping::flow_key(s@, i as int) == Some((k@, cp as int)) && cp
                < s@.len(),
            None => crate::mapping::flow_key(s@, i as int) == None::<(Seq<char>, int)>,
        },
{
    if i >= s.len() {
        return None;
    }
    let c0 = s[i];
    if c0 == '"' {
        match dq_scan_exec(s, i + 1) {
            Some((content, j)) => {
                let w = ws_end_exec(s, j);
                if w < s.len() && s[w] == ':' {
                    Some((content, w))
                } else {
                    None
                }
            },
            None => None,
        }
    } else if c0 == '\'' {
        match sq_scan_exec(s, i + 1) {
            Some((content, j)) => {
                let w = ws_end_exec(s, j);
                if w < s.len() && s[w] == ':' {
                    Some((content, w))
                } else {
                    None
                }
            },
            None => None,
        }
    } else {
        let k = colon_scan_exec(s, i);
        if k >= s.len() {
            None
        } else {
            let key = crate::text::trim_of(&crate::text::subrange_of(s, i, k));
            if key.len() == 0 {
                None
            } else {
                Some((key, k))
            }
        }
    }
}

/// Scans the items of a flow list; `i` stands just past the opening `[`.
pub fn fl_scan_exec(s: &Vec<char>, i: usize) -> (r: Option<(Vec<Scalar>, usize)>)
    requires
        i <= s@.len(),
    ensures
        match r {
            Some((items, nx)) => crate::mapping::fl_scan(s@, i as int) == Some(
                (crate::model::scalars_view(items@), nx as int),
            ) && nx <= s@.len(),
            None => crate::mapping::fl_scan(s@, i as int) == None::<(Seq<ScalarV>, int)>,
        },
{
    let mut acc: Vec<Scalar> = Vec::new();
    let mut cur: usize = i;
    proof {
        let o = crate::mapping::fl_scan(s@, i as int);
        if o is Some {
            assert(crate::model::scalars_view(acc@) =~= Seq::<ScalarV>::empty());
            assert(crate::model::scalars_view(acc@) + o.unwrap().0 =~= o.unwrap().0);
        }
    }
    loop
        invariant
            i <= cur <= s@.len(),
            (match crate::mapping::fl_scan(s@, cur as int) {
                Some((r2, nx)) => crate::mapping::fl_scan(s@, i as int) == Some(
                    (crate::model::scalars_view(acc@) + r2, nx),
                ),
                None => crate::mapping::fl_scan(s@, i as int) == None::<(Seq<ScalarV>, int)>,
            }),
        decreases s@.len() - cur,
    {
        let u = ws_end_exec(s, cur);
        if u >= s.len() {
            return None;
        }
        if s[u] == ']' {
            proof {
                assert(crate::mapping::fl_scan(s@, cur as int) == Some(
                    (Seq::<ScalarV>::empty(), u + 1 as int),
                ));
                assert(crate::model::scalars_view(acc@) + Seq::<ScalarV>::empty()
                    =~= crate::model::scalars_view(acc@));
            }
            return Some((acc, u + 1));
        }
        match flow_scalar_exec(s, u, ']') {
            None => {
                return None;
            },
            Some((sc, j)) => {
                let v = ws_end_exec(s, j);
                if v >= s.len() {
                    return None;
                }
                if s[v] == ']' {
                    proof {
                        assert(crate::mapping::fl_scan(s@, cur as int) == Some(
                            (seq![sc@], v + 1 as int),
                        ));
                        assert(crate::model::scalars_view(acc@.push(sc))
                            =~= crate::model::scalars_view(acc@) + seq![sc@]);
                        assert(crate::model::scalars_view(acc@) + seq![sc@]
                            =~= (crate::model::scalars_view(acc@) + seq![sc@]) + Seq::<
                            ScalarV,
                        >::empty());
                    }
                    acc.push(sc);
                    proof {
                        assert(crate::mapping::fl_scan(s@, i as int) == Some(
                            (crate::model::scalars_view(acc@), v + 1 as int),
                        ));
                    }
                    return Some((acc, v + 1));
                } else if s[v] == ',' && v + 1 > cur {
                    proof {
                        let o = crate::mapping::fl_scan(s@, v + 1 as int);
                        if o is Some {
                            let (r2, nx) = o.unwrap();
                            assert(crate::mapping::fl_scan(s@, cur as int) == Some(
                                (seq![sc@] + r2, nx),
                            ));
                            assert(crate::model::scalars_view(acc@.push(sc)) + r2
                                =~= crate::model::scalars_view(acc@) + (seq![sc@] + r2));
                        } else {
                            assert(crate::mapping::fl_scan(s@, cur as int) == None::<
                                (Seq<ScalarV>, int),
                            >);
                        }
                    }
                    acc.push(sc);
                    cur = v + 1;
                } else {
                    return None;
                }
            },
        }
    }
}


/// Scans the entries of a flow mapping with scalar values; `i` stands just
/// past the opening `{`.
pub fn ft_scan_exec(s: &Vec<char>, i: usize) -> (r: Option<(Vec<(String, Scalar)>, usize)>)
    requires
        i <= s@.len(),
    ensures
        match r {
            Some((entries, nx)) => crate::mapping::ft_scan(s@, i as int) == Some(
                (crate::model::table_view(entries@), nx as int),
            ) && nx <= s@.len(),
            None => crate::mapping::ft_scan(s@, i as int) == None::<
                (Seq<(Seq<char>, ScalarV)>, int),
            >,
        },
{
    let mut acc: Vec<(String, Scalar)> = Vec::new();
    let mut cur: usize = i;
    proof {
        let o = crate::mapping::ft_scan(s@, i as int);
        if o is Some {
            assert(crate::model::table_view(acc@) =~= Seq::<(Seq<char>, ScalarV)>::empty());
            assert(crate::model::table_view(acc@) + o.unwrap().0 =~= o.unwrap().0);
        }
    }
    loop
        invariant
            i <= cur <= s@.len(),
            (match crate::mapping::ft_scan(s@, cur as int) {
                Some((r2, nx)) => crate::mapping::ft_scan(s@, i as int) == Some(
                    (crate::model::table_view(acc@) + r2, nx),
                ),
                None => crate::mapping::ft_scan(s@, i as int) == None::<
                    (Seq<(Seq<char>, ScalarV)>, int),
                >,
            }),
        decreases s@.len() - cur,
    {
        let u = ws_end_exec(s, cur);
        if u >= s.len() {
            return None;
        }
        if s[u] == '}' {
            proof {
                assert(crate::mapping::ft_scan(s@, cur as int) == Some(
                    (Seq::<(Seq<char>, ScalarV)>::empty(), u + 1 as int),
                ));
                assert(crate::model::table_view(acc@) + Seq::<(Seq<char>, ScalarV)>::empty()
                    =~= crate::model::table_view(acc@));
            }
            return Some((acc, u + 1));
        }
        match flow_key_exec(s, u) {
            None => {
                return None;
            },
            Some((key, cp)) => {
                let x = ws_end_exec(s, cp + 1);
                match flow_scalar_exec(s, x, '}') {
                    None => {
                        return None;
                    },
                    Some((sc, j)) => {
                        let v = ws_end_exec(s, j);
                        if v >= s.len() {
                            return None;
                        }
                        let ks = string_from_chars(&key);
                        if s[v] == '}' {
                            proof {
                                assert(crate::mapping::ft_scan(s@, cur as int) == Some(
                                    (seq![(key@, sc@)], v + 1 as int),
                                ));
                                assert(crate::model::table_view(acc@.push((ks, sc)))
                                    =~= crate::model::table_view(acc@) + seq![(key@, sc@)]);
                            }
                            acc.push((ks, sc));
                            proof {
                                assert(crate::mapping::ft_scan(s@, i as int) == Some(
                                    (crate::model::table_view(acc@), v + 1 as int),
                                ));
                            }
                            return Some((acc, v + 1));
                        } else if s[v] == ',' && v + 1 > cur {
                            proof {
                                let o = crate::mapping::ft_scan(s@, v + 1 as int);
                                if o is Some {
                                    let (r2, nx) = o.unwrap();
                                    assert(crate::mapping::ft_scan(s@, cur as int) == Some(
                                        (seq![(key@, sc@)] + r2, nx),
                                    ));
                                    assert(crate::model::table_view(acc@.push((ks, sc))) + r2
                                        =~= crate::model::table_view(acc@) + (seq![(key@, sc@)]
                                        + r2));
                                } else {
                                    assert(crate::mapping::ft_scan(s@, cur as int) == None::<
                                        (Seq<(Seq<char>, ScalarV)>, int),
                                    >);
                                }
                            }
                            acc.push((ks, sc));
                            cur = v + 1;
                        } else {
                            return None;
                        }
                    },
                }
            },
        }
    }
}

/// Scans the entries of a brace-delimited object whose values may be
/// scalars, flow lists or flow mappings of scalars.
pub fn ft_top_scan_exec(s: &Vec<char>, i: usize) -> (r: Option<
    (Vec<(String, crate::model::FieldValue)>, usize),
>)
    requires
        i <= s@.len(),
    ensures
        match r {
            Some((entries, nx)) => crate::mapping::ft_top_scan(s@, i as int) == Some(
                (crate::model::customs_view(entries@), nx as int),
            ) && nx <= s@.len(),
            None => crate::mapping::ft_top_scan(s@, i as int) == None::<
                (Seq<(Seq<char>, crate::model::ValueV)>, int),
            >,
        },
{
    let mut acc: Vec<(String, crate::model::FieldValue)> = Vec::new();
    let mut cur: usize = i;
    proof {
        let o = crate::mapping::ft_top_scan(s@, i as int);
        if o is Some {
            assert(crate::model::customs_view(acc@) =~= Seq::<
                (Seq<char>, crate::model::ValueV),
            >::empty());
            assert(crate::model::customs_view(acc@) + o.unwrap().0 =~= o.unwrap().0);
        }
    }
    loop
        invariant
            i <= cur <= s@.len(),
            (match crate::mapping::ft_top_scan(s@, cur as int) {
                Some((r2, nx)) => crate::mapping::ft_top_scan(s@, i as int) == Some(
                    (crate::model::customs_view(acc@) + r2, nx),
                ),
                None => crate::mapping::ft_top_scan(s@, i as int) == None::<
                    (Seq<(Seq<char>, crate::model::ValueV)>, int),
                >,
            }),
        decreases s@.len() - cur,
    {
        let u = ws_end_exec(s, cur);
        if u >= s.len() {
            return None;
        }
        if s[u] == '}' {
            proof {
                assert(crate::mapping::ft_top_scan(s@, cur as int) == Some(
                    (Seq::<(Seq<char>, crate::model::ValueV)>::empty(), u + 1 as int),
                ));
                assert(crate::model::customs_view(acc@) + Seq::<
                    (Seq<char>, crate::model::ValueV),
                >::empty() =~= crate::model::customs_view(acc@));
            }
            return Some((acc, u + 1));
        }
        match flow_key_exec(s, u) {
            None => {
                return None;
            },
            Some((key, cp)) => {
                let x = ws_end_exec(s, cp + 1);
                let vj: Option<(crate::model::FieldValue, usize)> = if x < s.len() && s[x] == '['
                    {
                    match fl_scan_exec(s, x + 1) {
                        Some((items, j)) => Some((crate::model::FieldValue::Items(items), j)),
                        None => None,
                    }
                } else if x < s.len() && s[x] == '{' {
                    match ft_scan_exec(s, x + 1) {
                        Some((entries, j)) => Some((crate::model::FieldValue::Table(entries), j)),
                        None => None,
                    }
                } else {
                    match flow_scalar_exec(s, x, '}') {
                        Some((sc, j)) => Some((crate::model::FieldValue::One(sc), j)),
                        None => None,
                    }
                };
                match vj {
                    None => {
                        return None;
                    },
                    Some((val, j)) => {
                        let v = ws_end_exec(s, j);
                        if v >= s.len() {
                            return None;
                        }
                        let ks = string_from_chars(&key);
                        if s[v] == '}' {
                            proof {
                                assert(crate::mapping::ft_top_scan(s@, cur as int) == Some(
                                    (seq![(key@, val@)], v + 1 as int),
                                ));
                                assert(crate::model::customs_view(acc@.push((ks, val)))
                                    =~= crate::model::customs_view(acc@) + seq![(key@, val@)]);
                            }
                            acc.push((ks, val));
                            proof {
                                assert(crate::mapping::ft_top_scan(s@, i as int) == Some(
                                    (crate::model::customs_view(acc@), v + 1 as int),
                                ));
                            }
                            return Some((acc, v + 1));
                        } else if s[v] == ',' && v + 1 > cur {
                            proof {
                                let o = crate::mapping::ft_top_scan(s@, v + 1 as int);
                                if o is Some {
                                    let (r2, nx) = o.unwrap();
                                    assert(crate::mapping::ft_top_scan(s@, cur as int) == Some(
                                        (seq![(key@, val@)] + r2, nx),
                                    ));
                                    assert(crate::model::customs_view(acc@.push((ks, val))) + r2
                                        =~= crate::model::customs_view(acc@) + (seq![(key@, val@)]
                                        + r2));
                                } else {
                                    assert(crate::mapping::ft_top_scan(s@, cur as int) == None::<
                                        (Seq<(Seq<char>, crate::model::ValueV)>, int),
                                    >);
                                }
                            }
                            acc.push((ks, val));
                            cur = v + 1;
                        } else {
                            return None;
                        }
                    },
                }
            },
        }
    }
}


/// View of a vector of line buffers.
pub open spec fn lines_view(v: Seq<Vec<char>>) -> Seq<Seq<char>> {
    v.map_values(|l: Vec<char>| l@)
}

/// The first line of `ls` extended at the front by `p`.
pub open spec fn prepend_first(p: Seq<char>, ls: Seq<Seq<char>>) -> Seq<Seq<char>>
    recommends
        ls.len() >= 1,
{
    seq![p + ls[0]] + ls.skip(1)
}

/// Splits `s` into its lines at every newline.
pub fn split_lines(s: &Vec<char>) -> (r: Vec<Vec<char>>)
    ensures
        lines_view(r@) == crate::mapping::spec_lines(s@),
{
    let mut out: Vec<Vec<char>> = Vec::new();
    let mut cur: Vec<char> = Vec::new();
    let mut i: usize = 0;
    proof {
        crate::mapping::lemma_spec_lines_nonempty(s@);
        assert(s@.skip(0) =~= s@);
        let ls = crate::mapping::spec_lines(s@);
        assert(prepend_first(cur@, ls) =~= ls) by {
            assert(cur@ + ls[0] =~= ls[0]);
        }
        assert(lines_view(out@) =~= Seq::<Seq<char>>::empty());
        assert(lines_view(out@) + prepend_first(cur@, ls) =~= ls);
    }
    while i < s.len()
        invariant
            i <= s@.len(),
            crate::mapping::spec_lines(s@.skip(i as int)).len() >= 1,
            crate::mapping::spec_lines(s@) == lines_view(out@) + prepend_first(
                cur@,
                crate::mapping::spec_lines(s@.skip(i as int)),
            ),
        decreases s@.len() - i,
    {
        let c = s[i];
        proof {
            let rem = s@.skip(i as int);
            let rem2 = s@.skip(i + 1 as int);
            crate::mapping::lemma_spec_lines_nonempty(rem2);
            assert(rem[0] == c);
            assert(rem.drop_first() =~= rem2);
            let l2 = crate::mapping::spec_lines(rem2);
            if c == '\n' {
                assert(crate::mapping::spec_lines(rem) == seq![Seq::<char>::empty()] + l2);
                assert(prepend_first(cur@, seq![Seq::<char>::empty()] + l2) =~= seq![cur@] + l2) by {
                    assert((seq![Seq::<char>::empty()] + l2)[0] =~= Seq::<char>::empty());
                    assert(cur@ + (seq![Seq::<char>::empty()] + l2)[0] =~= cur@);
                    assert((seq![Seq::<char>::empty()] + l2).skip(1) =~= l2);
                }
                assert(lines_view(out@.push(cur)) =~= lines_view(out@) + seq![cur@]);
                assert(lines_view(out@) + (seq![cur@] + l2) =~= (lines_view(out@) + seq![cur@]) + (
                seq![Seq::<char>::empty() + l2[0]] + l2.skip(1))) by {
                    assert(Seq::<char>::empty() + l2[0] =~= l2[0]);
                    assert(seq![l2[0]] + l2.skip(1) =~= l2);
                }
            } else {
                let l1 = crate::mapping::spec_lines(rem);
                assert(l1 == seq![seq![c] + l2[0]] + l2.skip(1));
                assert(prepend_first(cur@, l1) =~= prepend_first(cur@.push(c), l2)) by {
                    assert(l1[0] == seq![c] + l2[0]);
                    assert(cur@ + (seq![c] + l2[0]) =~= cur@.push(c) + l2[0]);
                    assert(l1.skip(1) =~= l2.skip(1));
                }
            }
        }
        if c == '\n' {
            out.push(cur);
            cur = Vec::new();
            proof {
                assert(prepend_first(cur@, crate::mapping::spec_lines(s@.skip(i + 1 as int)))
                    =~= seq![crate::mapping::spec_lines(s@.skip(i + 1 as int))[0]]
                    + crate::mapping::spec_lines(s@.skip(i + 1 as int)).skip(1)) by {
                    assert(cur@ + crate::mapping::spec_lines(s@.skip(i + 1 as int))[0]
                        =~= crate::mapping::spec_lines(s@.skip(i + 1 as int))[0]);
                }
            }
        } else {
            cur.push(c);
        }
        i = i + 1;
    }
    proof {
        let rem = s@.skip(i as int);
        assert(rem =~= Seq::<char>::empty());
        assert(crate::mapping::spec_lines(rem) == seq![Seq::<char>::empty()]);
        assert(prepend_first(cur@, seq![Seq::<char>::empty()]) =~= seq![cur@]) by {
            assert(cur@ + Seq::<char>::empty() =~= cur@);
            assert((seq![Seq::<char>::empty()]).skip(1) =~= Seq::<Seq<char>>::empty());
        }
        assert(lines_view(out@.push(cur)) =~= lines_view(out@) + seq![cur@]);
    }
    out.push(cur);
    out
}

/// Decodes one inline value token (already trimmed).
pub fn parse_value_token_exec(t: &Vec<char>) -> (r: Option<crate::model::FieldValue>)
    ensures
        (match r {
            Some(v) => crate::mapping::parse_value_token(t@) == Some(v@),
            None => crate::mapping::parse_value_token(t@) == None::<crate::model::ValueV>,
        }),
{
    if t.len() == 0 {
        return None;
    }
    let c0 = t[0];
    if c0 == '[' {
        match fl_scan_exec(t, 1) {
            Some((items, j)) => {
                let w = ws_end_exec(t, j);
                if w == t.len() {
                    Some(crate::model::FieldValue::Items(items))
                } else {
                    None
                }
            },
            None => None,
        }
    } else if c0 == '{' {
        match ft_scan_exec(t, 1) {
            Some((entries, j)) => {
                let w = ws_end_exec(t, j);
                if w == t.len() {
                    Some(crate::model::FieldValue::Table(entries))
                } else {
                    None
                }
            },
            None => None,
        }
    } else {
        match parse_scalar_token_exec(t) {
            Some(sc) => Some(crate::model::FieldValue::One(sc)),
            None => None,
        }
    }
}

/// Whether this line opens a list item.
fn dash_start_exec(l: &Vec<char>) -> (r: bool)
    ensures
        r == crate::mapping::dash_start(l@),
{
    l.len() >= 2 && l[0] == '-' && l[1] == ' '
}

/// Whether this line continues a nested mapping.
fn indent_start_exec(l: &Vec<char>) -> (r: bool)
    ensures
        r == crate::mapping::indent_start(l@),
{
    l.len() >= 2 && l[0] == ' ' && l[1] == ' '
}

/// Whether this line holds only whitespace.
fn line_blank_exec(l: &Vec<char>) -> (r: bool)
    ensures
        r == crate::mapping::line_blank(l@),
{
    let t = crate::text::trim_of(l);
    t.len() == 0
}

/// Collects consecutive `- item` lines from `j` on.
fn collect_items_exec(lines: &Vec<Vec<char>>, j: usize) -> (r: Option<(Vec<Scalar>, usize)>)
    requires
        j <= lines@.len(),
    ensures
        (match r {
            Some((items, nx)) => crate::mapping::collect_items(lines_view(lines@), j as int)
                == Some((crate::model::scalars_view(items@), nx as int)) && j <= nx
                <= lines@.len(),
            None => crate::mapping::collect_items(lines_view(lines@), j as int) == None::<
                (Seq<ScalarV>, int),
            >,
        }),
{
    let ghost lv = lines_view(lines@);
    let mut acc: Vec<Scalar> = Vec::new();
    let mut cur: usize = j;
    proof {
        let o = crate::mapping::collect_items(lv, j as int);
        if o is Some {
            assert(crate::model::scalars_view(acc@) =~= Seq::<ScalarV>::empty());
            assert(crate::model::scalars_view(acc@) + o.unwrap().0 =~= o.unwrap().0);
        }
    }
    loop
        invariant
            j <= cur <= lines@.len(),
            lv == lines_view(lines@),
            (match crate::mapping::collect_items(lv, cur as int) {
                Some((r2, nx)) => crate::mapping::collect_items(lv, j as int) == Some(
                    (crate::model::scalars_view(acc@) + r2, nx),
                ),
                None => crate::mapping::collect_items(lv, j as int) == None::<(Seq<ScalarV>, int)>,
            }),
        decreases lines@.len() - cur,
    {
        let stop: bool = if cur >= lines.len() {
            true
        } else {
            proof {
                assert(lv[cur as int] == lines@[cur as int]@);
            }
            !dash_start_exec(&lines[cur])
        };
        if stop {
            proof {
                assert(crate::mapping::collect_items(lv, cur as int) == Some(
                    (Seq::<ScalarV>::empty(), cur as int),
                ));
                assert(crate::model::scalars_view(acc@) + Seq::<ScalarV>::empty()
                    =~= crate::model::scalars_view(acc@));
            }
            return Some((acc, cur));
        }
        proof {
            assert(lv[cur as int] == lines@[cur as int]@);
        }
        let l = &lines[cur];
        let tokraw = crate::text::subrange_of(l, 2, l.len());
        proof {
            assert(tokraw@ =~= l@.skip(2));
        }
        let tok = crate::text::trim_of(&tokraw);
        match parse_scalar_token_exec(&tok) {
            None => {
                return None;
            },
            Some(sc) => {
                proof {
                    let o = crate::mapping::collect_items(lv, cur + 1 as int);
                    if o is Some {
                        let (r2, nx) = o.unwrap();
                        assert(crate::mapping::collect_items(lv, cur as int) == Some(
                            (seq![sc@] + r2, nx),
                        ));
                        assert(crate::model::scalars_view(acc@.push(sc)) + r2
                            =~= crate::model::scalars_view(acc@) + (seq![sc@] + r2));
                    } else {
                        assert(crate::mapping::collect_items(lv, cur as int) == None::<
                            (Seq<ScalarV>, int),
                        >);
                    }
                }
                acc.push(sc);
                cur = cur + 1;
            },
        }
    }
}

/// Collects consecutive two-space-indented `key: value` lines from `j` on.
fn collect_subs_exec(lines: &Vec<Vec<char>>, j: usize) -> (r: Option<
    (Vec<(String, Scalar)>, usize),
>)
    requires
        j <= lines@.len(),
    ensures
        (match r {
            Some((subs, nx)) => crate::mapping::collect_subs(lines_view(lines@), j as int) == Some(
                (crate::model::table_view(subs@), nx as int),
            ) && j <= nx <= lines@.len(),
            None => crate::mapping::collect_subs(lines_view(lines@), j as int) == None::<
                (Seq<(Seq<char>, ScalarV)>, int),
            >,
        }),
{
    let ghost lv = lines_view(lines@);
    let mut acc: Vec<(String, Scalar)> = Vec::new();
    let mut cur: usize = j;
    proof {
        let o = crate::mapping::collect_subs(lv, j as int);
        if o is Some {
            assert(crate::model::table_view(acc@) =~= Seq::<(Seq<char>, ScalarV)>::empty());
            assert(crate::model::table_view(acc@) + o.unwrap().0 =~= o.unwrap().0);
        }
    }
    loop
        invariant
            j <= cur <= lines@.len(),
            lv == lines_view(lines@),
            (match crate::mapping::collect_subs(lv, cur as int) {
                Some((r2, nx)) => crate::mapping::collect_subs(lv, j as int) == Some(
                    (crate::model::table_view(acc@) + r2, nx),
                ),
                None => crate::mapping::collect_subs(lv, j as int) == None::<
                    (Seq<(Seq<char>, ScalarV)>, int),
                >,
            }),
        decreases lines@.len() - cur,
    {
        let stop: bool = if cur >= lines.len() {
            true
        } else {
            proof {
                assert(lv[cur as int] == lines@[cur as int]@);
            }
            !indent_start_exec(&lines[cur]) || line_blank_exec(&lines[cur])
        };
        if stop {
            proof {
                assert(crate::mapping::collect_subs(lv, cur as int) == Some(
                    (Seq::<(Seq<char>, ScalarV)>::empty(), cur as int),
                ));
                assert(crate::model::table_view(acc@) + Seq::<(Seq<char>, ScalarV)>::empty()
                    =~= crate::model::table_view(acc@));
            }
            return Some((acc, cur));
        }
        proof {
            assert(lv[cur as int] == lines@[cur as int]@);
        }
        let l = &lines[cur];
        let sub = crate::text::subrange_of(l, 2, l.len());
        proof {
            assert(sub@ =~= l@.skip(2));
        }
        if sub.len() == 0 || crate::text::is_ws_char(sub[0]) {
            return None;
        }
        let c = colon_scan_exec(&sub, 0);
        if c >= sub.len() {
            return None;
        }
        let keyraw = crate::text::subrange_of(&sub, 0, c);
        proof {
            assert(keyraw@ =~= sub@.take(c as int));
        }
        let key = crate::text::trim_of(&keyraw);
        let vtraw = crate::text::subrange_of(&sub, c + 1, sub.len());
        proof {
            assert(vtraw@ =~= sub@.skip(c + 1 as int));
        }
        let vt = crate::text::trim_of(&vtraw);
        if key.len() == 0 || vt.len() == 0 {
            return None;
        }
        match parse_scalar_token_exec(&vt) {
            None => {
                return None;
            },
            Some(sc) => {
                let ks = string_from_chars(&key);
                proof {
                    let o = crate::mapping::collect_subs(lv, cur + 1 as int);
                    if o is Some {
                        let (r2, nx) = o.unwrap();
                        assert(crate::mapping::collect_subs(lv, cur as int) == Some(
                            (seq![(key@, sc@)] + r2, nx),
                        ));
                        assert(crate::model::table_view(acc@.push((ks, sc))) + r2
                            =~= crate::model::table_view(acc@) + (seq![(key@, sc@)] + r2));
                    } else {
                        assert(crate::mapping::collect_subs(lv, cur as int) == None::<
                            (Seq<(Seq<char>, ScalarV)>, int),
                        >);
                    }
                }
                acc.push((ks, sc));
                cur = cur + 1;
            },
        }
    }
}


/// View of an optional field-value result.
pub open spec fn opt_fv_view(o: Option<crate::model::FieldValue>) -> Option<crate::model::ValueV> {
    match o {
        Some(v) => Some(v@),
        None => None,
    }
}

/// Copy of a scalar.
pub fn clone_scalar(s: &Scalar) -> (r: Scalar)
    ensures
        r@ == s@,
{
    match s {
        Scalar::Text(t) => Scalar::Text(t.clone()),
        Scalar::Flag(b) => Scalar::Flag(*b),
        Scalar::Num(n) => Scalar::Num(n.clone()),
        Scalar::Null => Scalar::Null,
    }
}

/// Copy of a field value.
pub fn clone_value(v: &crate::model::FieldValue) -> (r: crate::model::FieldValue)
    ensures
        r@ == v@,
{
    match v {
        crate::model::FieldValue::One(s) => crate::model::FieldValue::One(clone_scalar(s)),
        crate::model::FieldValue::Items(items) => {
            let mut out: Vec<Scalar> = Vec::new();
            let mut i: usize = 0;
            while i < items.len()
                invariant
                    i <= items@.len(),
                    crate::model::scalars_view(out@) == crate::model::scalars_view(
                        items@.take(i as int),
                    ),
                decreases items@.len() - i,
            {
                let ghost prev = out@;
                out.push(clone_scalar(&items[i]));
                proof {
                    assert(items@.take(i + 1 as int) =~= items@.take(i as int).push(
                        items@[i as int],
                    ));
                    assert(crate::model::scalars_view(out@) =~= crate::model::scalars_view(
                        prev,
                    ).push(items@[i as int]@));
                    assert(crate::model::scalars_view(items@.take(i as int).push(items@[i as int]))
                        =~= crate::model::scalars_view(items@.take(i as int)).push(
                        items@[i as int]@,
                    ));
                }
                i = i + 1;
            }
            proof {
                assert(items@.take(items@.len() as int) =~= items@);
            }
            crate::model::FieldValue::Items(out)
        },
        crate::model::FieldValue::Table(entries) => {
            let mut out: Vec<(String, Scalar)> = Vec::new();
            let mut i: usize = 0;
            while i < entries.len()
                invariant
                    i <= entries@.len(),
                    crate::model::table_view(out@) == crate::model::table_view(
                        entries@.take(i as int),
                    ),
                decreases entries@.len() - i,
            {
                let p = &entries[i];
                let ghost prev = out@;
                out.push((p.0.clone(), clone_scalar(&p.1)));
                proof {
                    assert(entries@.take(i + 1 as int) =~= entries@.take(i as int).push(
                        entries@[i as int],
                    ));
                    assert(crate::model::table_view(out@) =~= crate::model::table_view(prev).push(
                        (entries@[i as int].0@, entries@[i as int].1@),
                    ));
                    assert(crate::model::table_view(
                        entries@.take(i as int).push(entries@[i as int]),
                    ) =~= crate::model::table_view(entries@.take(i as int)).push(
                        (entries@[i as int].0@, entries@[i as int].1@),
                    ));
                }
                i = i + 1;
            }
            proof {
                assert(entries@.take(entries@.len() as int) =~= entries@);
            }
            crate::model::FieldValue::Table(out)
        },
    }
}

/// Decodes the block mapping held in `lines`.
pub fn parse_block_fields_exec(lines: &Vec<Vec<char>>) -> (r: Option<
    Vec<(String, crate::model::FieldValue)>,
>)
    ensures
        (match r {
            Some(fields) => crate::mapping::parse_block_fields(lines_view(lines@), 0) == Some(
                crate::model::customs_view(fields@),
            ),
            None => crate::mapping::parse_block_fields(lines_view(lines@), 0) == None::<
                Seq<(Seq<char>, crate::model::ValueV)>,
            >,
        }),
{
    let ghost lv = lines_view(lines@);
    let mut acc: Vec<(String, crate::model::FieldValue)> = Vec::new();
    let mut i: usize = 0;
    proof {
        let o = crate::mapping::parse_block_fields(lv, 0);
        if o is Some {
            assert(crate::model::customs_view(acc@) =~= Seq::<
                (Seq<char>, crate::model::ValueV),
            >::empty());
            assert(crate::model::customs_view(acc@) + o.unwrap() =~= o.unwrap());
        }
    }
    loop
        invariant
            i <= lines@.len(),
            lv == lines_view(lines@),
            (match crate::mapping::parse_block_fields(lv, i as int) {
                Some(r2) => crate::mapping::parse_block_fields(lv, 0) == Some(
                    crate::model::customs_view(acc@) + r2,
                ),
                None => crate::mapping::parse_block_fields(lv, 0) == None::<
                    Seq<(Seq<char>, crate::model::ValueV)>,
                >,
            }),
        decreases lines@.len() - i,
    {
        if i >= lines.len() {
            proof {
                assert(crate::mapping::parse_block_fields(lv, i as int) == Some(Seq::<
                    (Seq<char>, crate::model::ValueV),
                >::empty()));
                assert(crate::model::customs_view(acc@) + Seq::<
                    (Seq<char>, crate::model::ValueV),
                >::empty() =~= crate::model::customs_view(acc@));
            }
            return Some(acc);
        }
        proof {
            assert(lv[i as int] == lines@[i as int]@);
        }
        let l = &lines[i];
        if line_blank_exec(l) {
            i = i + 1;
            continue ;
        }
        if dash_start_exec(l) || indent_start_exec(l) {
            return None;
        }
        let c = colon_scan_exec(l, 0);
        if c >= l.len() {
            return None;
        }
        let keyraw = crate::text::subrange_of(l, 0, c);
        proof {
            assert(keyraw@ =~= l@.take(c as int));
        }
        let key = crate::text::trim_of(&keyraw);
        if key.len() == 0 {
            return None;
        }
        let vtraw = crate::text::subrange_of(l, c + 1, l.len());
        proof {
            assert(vtraw@ =~= l@.skip(c + 1 as int));
        }
        let vt = crate::text::trim_of(&vtraw);
        let ks = string_from_chars(&key);
        if vt.len() > 0 {
            match parse_value_token_exec(&vt) {
                None => {
                    return None;
                },
                Some(v) => {
                    proof {
                        let o = crate::mapping::parse_block_fields(lv, i + 1 as int);
                        if o is Some {
                            let r2 = o.unwrap();
                            assert(crate::mapping::parse_block_fields(lv, i as int) == Some(
                                seq![(key@, v@)] + r2,
                            ));
                            assert(crate::model::customs_view(acc@.push((ks, v))) + r2
                                =~= crate::model::customs_view(acc@) + (seq![(key@, v@)] + r2));
                        }
                    }
                    acc.push((ks, v));
                    i = i + 1;
                },
            }
        } else {
            let next_dash: bool = if i + 1 < lines.len() {
                proof {
                    assert(lv[i + 1 as int] == lines@[i + 1 as int]@);
                }
                dash_start_exec(&lines[i + 1])
            } else {
                false
            };
            let next_indent: bool = if i + 1 < lines.len() {
                proof {
                    assert(lv[i + 1 as int] == lines@[i + 1 as int]@);
                }
                indent_start_exec(&lines[i + 1]) && !line_blank_exec(&lines[i + 1])
            } else {
                false
            };
            if next_dash {
                match collect_items_exec(lines, i + 1) {
                    None => {
                        return None;
                    },
                    Some((items, nx)) => {
                        let v = crate::model::FieldValue::Items(items);
                        proof {
                            let o = crate::mapping::parse_block_fields(lv, nx as int);
                            if o is Some {
                                let r2 = o.unwrap();
                                assert(crate::mapping::parse_block_fields(lv, i as int) == Some(
                                    seq![(key@, v@)] + r2,
                                ));
                                assert(crate::model::customs_view(acc@.push((ks, v))) + r2
                                    =~= crate::model::customs_view(acc@) + (seq![(key@, v@)]
                                    + r2));
                            }
                        }
                        acc.push((ks, v));
                        i = nx;
                    },
                }
            } else if next_indent {
                match collect_subs_exec(lines, i + 1) {
                    None => {
                        return None;
                    },
                    Some((subs, nx)) => {
                        let v = crate::model::FieldValue::Table(subs);
                        proof {
                            let o = crate::mapping::parse_block_fields(lv, nx as int);
                            if o is Some {
                                let r2 = o.unwrap();
                                assert(crate::mapping::parse_block_fields(lv, i as int) == Some(
                                    seq![(key@, v@)] + r2,
                                ));
                                assert(crate::model::customs_view(acc@.push((ks, v))) + r2
                                    =~= crate::model::customs_view(acc@) + (seq![(key@, v@)]
                                    + r2));
                            }
                        }
                        acc.push((ks, v));
                        i = nx;
                    },
                }
            } else {
                let v = crate::model::FieldValue::One(Scalar::Null);
                proof {
                    let o = crate::mapping::parse_block_fields(lv, i + 1 as int);
                    if o is Some {
                        let r2 = o.unwrap();
                        assert(crate::mapping::parse_block_fields(lv, i as int) == Some(
                            seq![(key@, v@)] + r2,
                        ));
                        assert(crate::model::customs_view(acc@.push((ks, v))) + r2
                            =~= crate::model::customs_view(acc@) + (seq![(key@, v@)] + r2));
                    }
                }
                acc.push((ks, v));
                i = i + 1;
            }
        }
    }
}

/// Decodes the alternate `key = value` mapping held in `lines`.
pub fn parse_toml_fields_exec(lines: &Vec<Vec<char>>) -> (r: Option<
    Vec<(String, crate::model::FieldValue)>,
>)
    ensures
        (match r {
            Some(fields) => crate::tomlish::parse_toml_fields(lines_view(lines@), 0) == Some(
                crate::model::customs_view(fields@),
            ),
            None => crate::tomlish::parse_toml_fields(lines_view(lines@), 0) == None::<
                Seq<(Seq<char>, crate::model::ValueV)>,
            >,
        }),
{
    let ghost lv = lines_view(lines@);
    let mut acc: Vec<(String, crate::model::FieldValue)> = Vec::new();
    let mut i: usize = 0;
    proof {
        let o = crate::tomlish::parse_toml_fields(lv, 0);
        if o is Some {
            assert(crate::model::customs_view(acc@) =~= Seq::<
                (Seq<char>, crate::model::ValueV),
            >::empty());
            assert(crate::model::customs_view(acc@) + o.unwrap() =~= o.unwrap());
        }
    }
    loop
        invariant
            i <= lines@.len(),
            lv == lines_view(lines@),
            (match crate::tomlish::parse_toml_fields(lv, i as int) {
                Some(r2) => crate::tomlish::parse_toml_fields(lv, 0) == Some(
                    crate::model::customs_view(acc@) + r2,
                ),
                None => crate::tomlish::parse_toml_fields(lv, 0) == None::<
                    Seq<(Seq<char>, crate::model::ValueV)>,
                >,
            }),
        decreases lines@.len() - i,
    {
        if i >= lines.len() {
            proof {
                assert(crate::tomlish::parse_toml_fields(lv, i as int) == Some(Seq::<
                    (Seq<char>, crate::model::ValueV),
                >::empty()));
                assert(crate::model::customs_view(acc@) + Seq::<
                    (Seq<char>, crate::model::ValueV),
                >::empty() =~= crate::model::customs_view(acc@));
            }
            return Some(acc);
        }
        proof {
            assert(lv[i as int] == lines@[i as int]@);
        }
        let l = &lines[i];
        let is_comment: bool = {
            let t = crate::text::trim_of(l);
            proof {
                crate::text::lemma_trim_front_props(l@);
                crate::text::lemma_trim_back_props(crate::text::trim_front(l@));
                if crate::text::trim_front(l@).len() > 0 {
                    assert(crate::text::spec_trim(l@).len() > 0 ==> crate::text::spec_trim(l@)[0]
                        == crate::text::trim_front(l@)[0]);
                }
            }
            t.len() > 0 && t[0] == '#'
        };
        if line_blank_exec(l) || is_comment {
            proof {
                if !crate::mapping::line_blank(l@) {
                    assert(crate::tomlish::comment_line(l@)) by {
                        crate::text::lemma_trim_back_props(crate::text::trim_front(l@));
                        assert(crate::text::spec_trim(l@)[0] == crate::text::trim_front(l@)[0]);
                    }
                }
            }
            i = i + 1;
            continue ;
        }
        proof {
            assert(!crate::tomlish::comment_line(l@)) by {
                if crate::tomlish::comment_line(l@) {
                    crate::text::lemma_trim_back_props(crate::text::trim_front(l@));
                    assert(crate::text::spec_trim(l@).len() > 0);
                    assert(crate::text::spec_trim(l@)[0] == crate::text::trim_front(l@)[0]);
                }
            }
        }
        let e = eq_scan_exec(l, 0);
        if e >= l.len() {
            return None;
        }
        let keyraw = crate::text::subrange_of(l, 0, e);
        proof {
            assert(keyraw@ =~= l@.take(e as int));
        }
        let key = crate::text::trim_of(&keyraw);
        let vtraw = crate::text::subrange_of(l, e + 1, l.len());
        proof {
            assert(vtraw@ =~= l@.skip(e + 1 as int));
        }
        let vt = crate::text::trim_of(&vtraw);
        if key.len() == 0 || vt.len() == 0 {
            return None;
        }
        match parse_value_token_exec(&vt) {
            None => {
                return None;
            },
            Some(v) => {
                let ks = string_from_chars(&key);
                proof {
                    let o = crate::tomlish::parse_toml_fields(lv, i + 1 as int);
                    if o is Some {
                        let r2 = o.unwrap();
                        assert(crate::tomlish::parse_toml_fields(lv, i as int) == Some(
                            seq![(key@, v@)] + r2,
                        ));
                        assert(crate::model::customs_view(acc@.push((ks, v))) + r2
                            =~= crate::model::customs_view(acc@) + (seq![(key@, v@)] + r2));
                    }
                }
                acc.push((ks, v));
                i = i + 1;
            },
        }
    }
}

/// Whether no two fields share a key.
pub fn keys_distinct_exec(fields: &Vec<(String, crate::model::FieldValue)>) -> (r: bool)
    ensures
        r == crate::mapping::keys_distinct(crate::model::customs_view(fields@)),
{
    let ghost fv = crate::model::customs_view(fields@);
    let mut i: usize = 1;
    while i < fields.len()
        invariant
            1 <= i || fields@.len() == 0,
            i <= fields@.len() || i == 1,
            fv == crate::model::customs_view(fields@),
            forall|a: int, b: int| 0 <= a < b < i && b < fv.len() ==> (#[trigger] fv[a]).0 != (
            #[trigger] fv[b]).0,
        decreases fields@.len() - i,
    {
        let mut j: usize = 0;
        while j < i
            invariant
                j <= i < fields@.len(),
                fv == crate::model::customs_view(fields@),
                forall|a: int| 0 <= a < j ==> (#[trigger] fv[a]).0 != fv[i as int].0,
            decreases i - j,
        {
            if fields[j].0 == fields[i].0 {
                proof {
                    assert(fv[j as int].0 == fv[i as int].0);
                    assert(!crate::mapping::keys_distinct(fv));
                }
                return false;
            }
            j = j + 1;
        }
        i = i + 1;
    }
    proof {
        assert(crate::mapping::keys_distinct(fv));
    }
    true
}


/// Texts of a scalar list, if every scalar is text.
fn texts_of_exec(items: &Vec<Scalar>) -> (r: Option<Vec<String>>)
    ensures
        (match r {
            Some(ts) => crate::binding::texts_of(crate::model::scalars_view(items@)) == Some(
                crate::model::strings_view(ts@),
            ),
            None => crate::binding::texts_of(crate::model::scalars_view(items@)) == None::<
                Seq<Seq<char>>,
            >,
        }),
{
    let ghost iv = crate::model::scalars_view(items@);
    let mut out: Vec<String> = Vec::new();
    let mut i: usize = 0;
    proof {
        assert(iv.skip(0) =~= iv);
        let o = crate::binding::texts_of(iv);
        if o is Some {
            assert(crate::model::strings_view(out@) =~= Seq::<Seq<char>>::empty());
            assert(crate::model::strings_view(out@) + o.unwrap() =~= o.unwrap());
        }
    }
    while i < items.len()
        invariant
            i <= items@.len(),
            iv == crate::model::scalars_view(items@),
            (match crate::binding::texts_of(iv.skip(i as int)) {
                Some(r2) => crate::binding::texts_of(iv) == Some(
                    crate::model::strings_view(out@) + r2,
                ),
                None => crate::binding::texts_of(iv) == None::<Seq<Seq<char>>>,
            }),
        decreases items@.len() - i,
    {
        proof {
            assert(iv.skip(i as int)[0] == iv[i as int]);
            assert(iv.skip(i as int).drop_first() =~= iv.skip(i + 1 as int));
        }
        match &items[i] {
            Scalar::Text(t) => {
                let ghost prev = out@;
                out.push(t.clone());
                proof {
                    let o = crate::binding::texts_of(iv.skip(i + 1 as int));
                    if o is Some {
                        let r2 = o.unwrap();
                        assert(crate::binding::texts_of(iv.skip(i as int)) == Some(
                            seq![t@] + r2,
                        ));
                        assert(crate::model::strings_view(out@) =~= crate::model::strings_view(
                            prev,
                        ).push(t@));
                        assert(crate::model::strings_view(prev).push(t@) + r2
                            =~= crate::model::strings_view(prev) + (seq![t@] + r2));
                    } else {
                        assert(crate::binding::texts_of(iv.skip(i as int)) == None::<
                            Seq<Seq<char>>,
                        >);
                    }
                }
                i = i + 1;
            },
            _ => {
                return None;
            },
        }
    }
    proof {
        assert(iv.skip(i as int) =~= Seq::<ScalarV>::empty());
        assert(crate::binding::texts_of(Seq::<ScalarV>::empty()) == Some(
            Seq::<Seq<char>>::empty(),
        ));
        assert(crate::model::strings_view(out@) + Seq::<Seq<char>>::empty()
            =~= crate::model::strings_view(out@));
    }
    Some(out)
}

proof fn lemma_has_get(fs: Seq<(Seq<char>, crate::model::ValueV)>, k: Seq<char>)
    ensures
        crate::binding::has_key(fs, k) <==> crate::binding::get_field(fs, k) is Some,
    decreases fs.len(),
{
    if fs.len() > 0 {
        lemma_has_get(fs.drop_first(), k);
        if fs[0].0 == k {
            assert(crate::binding::has_key(fs, k));
        } else {
            assert(crate::binding::has_key(fs, k) <==> crate::binding::has_key(
                fs.drop_first(),
                k,
            )) by {
                if crate::binding::has_key(fs, k) {
                    let i = choose|i: int|
                        0 <= i < fs.len() && (#[trigger] fs[i]).0 == k;
                    assert(fs.drop_first()[i - 1].0 == k);
                }
                if crate::binding::has_key(fs.drop_first(), k) {
                    let i = choose|i: int|
                        0 <= i < fs.drop_first().len() && (#[trigger] fs.drop_first()[i]).0 == k;
                    assert(fs[i + 1].0 == k);
                }
            }
        }
    } else {
        if crate::binding::has_key(fs, k) {
            let i = choose|i: int| 0 <= i < fs.len() && (#[trigger] fs[i]).0 == k;
        }
    }
}

proof fn lemma_get_field_push(
    a: Seq<(Seq<char>, crate::model::ValueV)>,
    x: (Seq<char>, crate::model::ValueV),
    k: Seq<char>,
)
    ensures
        crate::binding::get_field(a.push(x), k) == (if crate::binding::get_field(a, k) is Some {
            crate::binding::get_field(a, k)
        } else if x.0 == k {
            Some(x.1)
        } else {
            None
        }),
{
    assert(a.push(x) =~= a + seq![x]);
    lemma_has_get(a, k);
    crate::binding::lemma_get_field_concat(a, seq![x], k);
    assert(crate::binding::get_field(seq![x], k) == (if x.0 == k {
        Some(x.1)
    } else {
        None
    })) by {
        assert(seq![x][0] == x);
        assert(seq![x].drop_first() =~= Seq::<(Seq<char>, crate::model::ValueV)>::empty());
        assert(crate::binding::get_field(
            Seq::<(Seq<char>, crate::model::ValueV)>::empty(),
            k,
        ) == None::<crate::model::ValueV>);
    }
}

proof fn lemma_customs_push(
    a: Seq<(Seq<char>, crate::model::ValueV)>,
    x: (Seq<char>, crate::model::ValueV),
)
    ensures
        crate::binding::customs_of(a.push(x)) == (if crate::model::known_key(x.0) {
            crate::binding::customs_of(a)
        } else {
            crate::binding::customs_of(a).push(x)
        }),
{
    assert(a.push(x) =~= a + seq![x]);
    crate::binding::lemma_customs_concat(a, seq![x]);
    if crate::model::known_key(x.0) {
        assert(crate::binding::customs_of(seq![x]) =~= Seq::<
            (Seq<char>, crate::model::ValueV),
        >::empty()) by {
            assert(seq![x][0] == x);
            assert(seq![x].drop_first() =~= Seq::<(Seq<char>, crate::model::ValueV)>::empty());
            assert(crate::binding::customs_of(
                Seq::<(Seq<char>, crate::model::ValueV)>::empty(),
            ) == Seq::<(Seq<char>, crate::model::ValueV)>::empty());
        }
        assert(crate::binding::customs_of(a) + Seq::<(Seq<char>, crate::model::ValueV)>::empty()
            =~= crate::binding::customs_of(a));
    } else {
        assert(crate::binding::customs_of(seq![x]) =~= seq![x]) by {
            assert(seq![x][0] == x);
            assert(seq![x].drop_first() =~= Seq::<(Seq<char>, crate::model::ValueV)>::empty());
            assert(crate::binding::customs_of(
                Seq::<(Seq<char>, crate::model::ValueV)>::empty(),
            ) == Seq::<(Seq<char>, crate::model::ValueV)>::empty());
            assert(seq![x] + Seq::<(Seq<char>, crate::model::ValueV)>::empty() =~= seq![x]);
        }
        assert(crate::binding::customs_of(a) + seq![x] =~= crate::binding::customs_of(a).push(x));
    }
}

/// Binds a decoded field list to the frontmatter record.
#[verifier::rlimit(100)]
pub fn bind_fields_exec(fields: &Vec<(String, crate::model::FieldValue)>) -> (r: Option<
    crate::model::Frontmatter,
>)
    ensures
        (match r {
            Some(fm) => crate::binding::bind_fields(crate::model::customs_view(fields@)) == Some(
                fm@,
            ),
            None => crate::binding::bind_fields(crate::model::customs_view(fields@)) == None::<
                crate::model::FmV,
            >,
        }),
{
    let ghost fsv = crate::model::customs_view(fields@);
    let k_title = "title".to_owned();
    let k_date = "date".to_owned();
    let k_tags = "tags".to_owned();
    let k_categories = "categories".to_owned();
    let k_updated = "updated".to_owned();
    let k_comments = "comments".to_owned();
    let k_layout = "layout".to_owned();
    let k_permalink = "permalink".to_owned();
    let k_description = "description".to_owned();
    let k_draft = "draft".to_owned();
    let mut s_title: Option<crate::model::FieldValue> = None;
    let mut s_date: Option<crate::model::FieldValue> = None;
    let mut s_tags: Option<crate::model::FieldValue> = None;
    let mut s_categories: Option<crate::model::FieldValue> = None;
    let mut s_updated: Option<crate::model::FieldValue> = None;
    let mut s_comments: Option<crate::model::FieldValue> = None;
    let mut s_layout: Option<crate::model::FieldValue> = None;
    let mut s_permalink: Option<crate::model::FieldValue> = None;
    let mut s_description: Option<crate::model::FieldValue> = None;
    let mut s_draft: Option<crate::model::FieldValue> = None;
    let mut customs: Vec<(String, crate::model::FieldValue)> = Vec::new();
    let mut i: usize = 0;
    proof {
        assert(fsv.take(0) =~= Seq::<(Seq<char>, crate::model::ValueV)>::empty());
        assert(crate::model::customs_view(customs@) =~= Seq::<
            (Seq<char>, crate::model::ValueV),
        >::empty());
    }
    while i < fields.len()
        invariant
            i <= fields@.len(),
            fsv == crate::model::customs_view(fields@),
            k_title@ == "title"@ && k_date@ == "date"@ && k_tags@ == "tags"@ && k_categories@
                == "categories"@ && k_updated@ == "updated"@ && k_comments@ == "comments"@
                && k_layout@ == "layout"@ && k_permalink@ == "permalink"@ && k_description@
                == "description"@ && k_draft@ == "draft"@,
            opt_fv_view(s_title) == crate::binding::get_field(fsv.take(i as int), "title"@),
            opt_fv_view(s_date) == crate::binding::get_field(fsv.take(i as int), "date"@),
            opt_fv_view(s_tags) == crate::binding::get_field(fsv.take(i as int), "tags"@),
            opt_fv_view(s_categories) == crate::binding::get_field(
                fsv.take(i as int),
                "categories"@,
            ),
            opt_fv_view(s_updated) == crate::binding::get_field(fsv.take(i as int), "updated"@),
            opt_fv_view(s_comments) == crate::binding::get_field(fsv.take(i as int), "comments"@),
            opt_fv_view(s_layout) == crate::binding::get_field(fsv.take(i as int), "layout"@),
            opt_fv_view(s_permalink) == crate::binding::get_field(
                fsv.take(i as int),
                "permalink"@,
            ),
            opt_fv_view(s_description) == crate::binding::get_field(
                fsv.take(i as int),
                "description"@,
            ),
            opt_fv_view(s_draft) == crate::binding::get_field(fsv.take(i as int), "draft"@),
            crate::model::customs_view(customs@) == crate::binding::customs_of(
                fsv.take(i as int),
            ),
        decreases fields@.len() - i,
    {
        let p = &fields[i];
        let ghost x = fsv[i as int];
        proof {
            crate::binding::lemma_known_key_facts();
            assert(x == (fields@[i as int].0@, fields@[i as int].1@));
            assert(fsv.take(i + 1 as int) =~= fsv.take(i as int).push(x));
            lemma_get_field_push(fsv.take(i as int), x, "title"@);
            lemma_get_field_push(fsv.take(i as int), x, "date"@);
            lemma_get_field_push(fsv.take(i as int), x, "tags"@);
            lemma_get_field_push(fsv.take(i as int), x, "categories"@);
            lemma_get_field_push(fsv.take(i as int), x, "updated"@);
            lemma_get_field_push(fsv.take(i as int), x, "comments"@);
            lemma_get_field_push(fsv.take(i as int), x, "layout"@);
            lemma_get_field_push(fsv.take(i as int), x, "permalink"@);
            lemma_get_field_push(fsv.take(i as int), x, "description"@);
            lemma_get_field_push(fsv.take(i as int), x, "draft"@);
            lemma_customs_push(fsv.take(i as int), x);
        }
        if p.0 == k_title {
            if s_title.is_none() {
                s_title = Some(clone_value(&p.1));
            }
        } else if p.0 == k_date {
            if s_date.is_none() {
                s_date = Some(clone_value(&p.1));
            }
        } else if p.0 == k_tags {
            if s_tags.is_none() {
                s_tags = Some(clone_value(&p.1));
            }
        } else if p.0 == k_categories {
            if s_categories.is_none() {
                s_categories = Some(clone_value(&p.1));
            }
        } else if p.0 == k_updated {
            if s_updated.is_none() {
                s_updated = Some(clone_value(&p.1));
            }
        } else if p.0 == k_comments {
            if s_comments.is_none() {
                s_comments = Some(clone_value(&p.1));
            }
        } else if p.0 == k_layout {
            if s_layout.is_none() {
                s_layout = Some(clone_value(&p.1));
            }
        } else if p.0 == k_permalink {
            if s_permalink.is_none() {
                s_permalink = Some(clone_value(&p.1));
            }
        } else if p.0 == k_description {
            if s_description.is_none() {
                s_description = Some(clone_value(&p.1));
            }
        } else if p.0 == k_draft {
            if s_draft.is_none() {
                s_draft = Some(clone_value(&p.1));
            }
        } else {
            proof {
                assert(!crate::model::known_key(x.0));
            }
            let ghost prev = customs@;
            customs.push((p.0.clone(), clone_value(&p.1)));
            proof {
                assert(crate::model::customs_view(customs@) =~= crate::model::customs_view(
                    prev,
                ).push(x));
            }
        }
        i = i + 1;
    }
    proof {
        assert(fsv.take(i as int) =~= fsv);
    }
    let title: String = match s_title {
        Some(crate::model::FieldValue::One(Scalar::Text(t))) => t,
        _ => {
            return None;
        },
    };
    let date: String = match s_date {
        Some(crate::model::FieldValue::One(Scalar::Text(t))) => t,
        _ => {
            return None;
        },
    };
    let tags: Vec<String> = match s_tags {
        None => Vec::new(),
        Some(crate::model::FieldValue::Items(items)) => {
            match texts_of_exec(&items) {
                Some(ts) => ts,
                None => {
                    return None;
                },
            }
        },
        Some(_) => {
            return None;
        },
    };
    let categories: Vec<String> = match s_categories {
        None => Vec::new(),
        Some(crate::model::FieldValue::Items(items)) => {
            match texts_of_exec(&items) {
                Some(ts) => ts,
                None => {
                    return None;
                },
            }
        },
        Some(_) => {
            return None;
        },
    };
    let updated: Option<String> = match s_updated {
        None => None,
        Some(crate::model::FieldValue::One(Scalar::Text(t))) => Some(t),
        Some(crate::model::FieldValue::One(Scalar::Null)) => None,
        Some(_) => {
            return None;
        },
    };
    let comments: Option<bool> = match s_comments {
        None => None,
        Some(crate::model::FieldValue::One(Scalar::Flag(b))) => Some(b),
        Some(crate::model::FieldValue::One(Scalar::Null)) => None,
        Some(_) => {
            return None;
        },
    };
    let layout: Option<String> = match s_layout {
        None => None,
        Some(crate::model::FieldValue::One(Scalar::Text(t))) => Some(t),
        Some(crate::model::FieldValue::One(Scalar::Null)) => None,
        Some(_) => {
            return None;
        },
    };
    let permalink: Option<String> = match s_permalink {
        None => None,
        Some(crate::model::FieldValue::One(Scalar::Text(t))) => Some(t),
        Some(crate::model::FieldValue::One(Scalar::Null)) => None,
        Some(_) => {
            return None;
        },
    };
    let description: Option<String> = match s_description {
        None => None,
        Some(crate::model::FieldValue::One(Scalar::Text(t))) => Some(t),
        Some(crate::model::FieldValue::One(Scalar::Null)) => None,
        Some(_) => {
            return None;
        },
    };
    let draft: Option<bool> = match s_draft {
        None => None,
        Some(crate::model::FieldValue::One(Scalar::Flag(b))) => Some(b),
        Some(crate::model::FieldValue::One(Scalar::Null)) => None,
        Some(_) => {
            return None;
        },
    };
    let fm = crate::model::Frontmatter {
        title,
        date,
        tags,
        categories,
        updated,
        comments,
        layout,
        permalink,
        description,
        draft,
        custom_fields: customs,
    };
    proof {
        assert(fm@ =~~= crate::binding::bind_fields(fsv).unwrap());
    }
    Some(fm)
}

} // verus!
