//! Round-trip laws of the canonical mapping encoding: decoding the encoder's
//! output yields the encoded fields again. The predicates here name the
//! fields this holds for; the document-level law builds on them.

use vstd::prelude::*;

use crate::model::ScalarV;
use crate::model::ValueV;
use crate::scalars::enc_scalar;
use crate::scalars::esc;
use crate::scalars::esc1;
use crate::scalars::is_digit;
use crate::scalars::is_num_text;
use crate::scalars::lemma_enc_scalar_shape;
use crate::scalars::lemma_num_chars;
use crate::scalars::lemma_scalar_roundtrip;
use crate::mapping::colon_scan;
use crate::mapping::dash_start;
use crate::mapping::delim_scan;
use crate::mapping::ws_end;
use crate::text::is_ws;
use crate::text::trim_stable;

verus! {

/// No three consecutive dashes anywhere in `s`.
pub open spec fn ntd(s: Seq<char>) -> bool {
    forall|i: int|
        0 <= i && i + 3 <= s.len() ==> !((#[trigger] s[i]) == '-' && s[i + 1] == '-' && s[i + 2]
            == '-')
}

/// No newline anywhere in `s`.
pub open spec fn no_nl(s: Seq<char>) -> bool {
    forall|i: int| 0 <= i < s.len() ==> (#[trigger] s[i]) != '\n'
}

/// Length of the run of dashes at the head of `s`.
pub open spec fn dash_pre(s: Seq<char>) -> int
    decreases s.len(),
{
    if s.len() > 0 && s[0] == '-' {
        1 + dash_pre(s.drop_first())
    } else {
        0
    }
}

pub proof fn lemma_dash_pre_props(s: Seq<char>)
    ensures
        0 <= dash_pre(s) <= s.len(),
        forall|i: int| 0 <= i < dash_pre(s) ==> (#[trigger] s[i]) == '-',
    decreases s.len(),
{
    if s.len() > 0 && s[0] == '-' {
        lemma_dash_pre_props(s.drop_first());
        assert forall|i: int| 0 <= i < dash_pre(s) implies (#[trigger] s[i]) == '-' by {
            if i > 0 {
                assert(s[i] == s.drop_first()[i - 1]);
            }
        }
    }
}

pub proof fn lemma_ntd_dash_pre(s: Seq<char>)
    requires
        ntd(s),
    ensures
        dash_pre(s) <= 2,
{
    lemma_dash_pre_props(s);
    if dash_pre(s) >= 3 {
        assert(s[0] == '-' && s[1] == '-' && s[2] == '-');
    }
}

/// Joining two dash-free-triple sequences keeps the property when the seam
/// cannot form a run: one of the touching characters is no dash.
pub proof fn lemma_ntd_concat(a: Seq<char>, b: Seq<char>)
    requires
        ntd(a),
        ntd(b),
        a.len() == 0 || b.len() == 0 || a.last() != '-' || b[0] != '-',
    ensures
        ntd(a + b),
{
    let s = a + b;
    assert forall|i: int|
        0 <= i && i + 3 <= s.len() implies !((#[trigger] s[i]) == '-' && s[i + 1] == '-' && s[i + 2]
        == '-') by {
        if i + 3 <= a.len() {
            assert(s[i] == a[i] && s[i + 1] == a[i + 1] && s[i + 2] == a[i + 2]);
        } else if i >= a.len() {
            assert(s[i] == b[i - a.len()] && s[i + 1] == b[i + 1 - a.len()] && s[i + 2] == b[i + 2
                - a.len()]);
        } else {
            assert(s[a.len() - 1] == a.last());
            assert(s[a.len() as int] == b[0]);
            assert(i <= a.len() - 1 && a.len() <= i + 2);
        }
    }
}

/// The escape of a dash-free-triple text is dash-free-triple, and its head
/// run of dashes is no longer than the text's.
pub proof fn lemma_esc_ntd(t: Seq<char>)
    requires
        ntd(t),
    ensures
        ntd(esc(t)),
        dash_pre(esc(t)) <= dash_pre(t),
    decreases t.len(),
{
    if t.len() == 0 {
    } else {
        let c = t[0];
        let t2 = t.drop_first();
        let e2 = esc(t2);
        assert(ntd(t2)) by {
            assert forall|i: int|
                0 <= i && i + 3 <= t2.len() implies !((#[trigger] t2[i]) == '-' && t2[i + 1] == '-'
                && t2[i + 2] == '-') by {
                assert(t2[i] == t[i + 1] && t2[i + 1] == t[i + 2] && t2[i + 2] == t[i + 3]);
            }
        }
        lemma_esc_ntd(t2);
        if c == '-' {
            assert(esc1(c) =~= seq!['-']);
            lemma_ntd_dash_pre(t);
            assert(dash_pre(t) == 1 + dash_pre(t2));
            lemma_dash_pre_props(e2);
            assert(ntd(esc(t))) by {
                let s = esc(t);
                assert(s == seq!['-'] + e2);
                assert forall|i: int|
                    0 <= i && i + 3 <= s.len() implies !((#[trigger] s[i]) == '-' && s[i + 1] == '-'
                    && s[i + 2] == '-') by {
                    if i == 0 {
                        if s[0] == '-' && s[1] == '-' && s[2] == '-' {
                            assert(e2[0] == '-' && e2[1] == '-');
                            assert(dash_pre(e2) >= 2) by {
                                assert(e2.drop_first()[0] == '-');
                                lemma_dash_pre_props(e2.drop_first().drop_first());
                                assert(dash_pre(e2.drop_first()) == 1 + dash_pre(
                                    e2.drop_first().drop_first(),
                                ));
                                assert(dash_pre(e2) == 1 + dash_pre(e2.drop_first()));
                            }
                        }
                    } else {
                        assert(s[i] == e2[i - 1] && s[i + 1] == e2[i] && s[i + 2] == e2[i + 1]);
                    }
                }
            }
            assert(dash_pre(esc(t)) == 1 + dash_pre(e2)) by {
                assert(esc(t)[0] == '-');
                assert(esc(t).drop_first() =~= e2);
            }
        } else {
            let e1 = esc1(c);
            assert(e1.len() <= 2);
            assert(forall|i: int| 0 <= i < e1.len() ==> (#[trigger] e1[i]) != '-');
            lemma_ntd_concat(e1, e2);
            assert(esc(t) == e1 + e2);
            assert(dash_pre(esc(t)) == 0) by {
                assert(esc(t)[0] == e1[0]);
            }
        }
    }
}

/// Well-formedness of a scalar for the round trip: numbers carry a valid
/// literal and text holds no triple dash.
pub open spec fn scalar_ok(v: ScalarV) -> bool {
    match v {
        ScalarV::Text(t) => ntd(t),
        ScalarV::Num(n) => is_num_text(n),
        _ => true,
    }
}

/// Shape facts about a canonical scalar encoding that the surrounding
/// encodings rely on.
pub proof fn lemma_enc_scalar_edges(v: ScalarV)
    requires
        scalar_ok(v),
    ensures
        enc_scalar(v).len() > 0,
        trim_stable(enc_scalar(v)),
        ntd(enc_scalar(v)),
        no_nl(enc_scalar(v)),
        enc_scalar(v).last() != '-',
        enc_scalar(v)[0] != '[' && enc_scalar(v)[0] != '{' && enc_scalar(v)[0] != ','
            && enc_scalar(v)[0] != ']' && enc_scalar(v)[0] != '}' && enc_scalar(v)[0] != ':'
            && !is_ws(enc_scalar(v)[0]),
{
    lemma_enc_scalar_shape(v);
    let e = enc_scalar(v);
    match v {
        ScalarV::Text(t) => {
            lemma_esc_ntd(t);
            assert(forall|i: int| 0 <= i < esc(t).len() ==> (#[trigger] esc(t)[i]) != '\n') by {
                lemma_esc_no_nl(t);
            }
            assert(e == seq!['"'] + esc(t) + seq!['"']);
            lemma_ntd_concat(seq!['"'], esc(t));
            lemma_ntd_concat(seq!['"'] + esc(t), seq!['"']);
            assert(e.last() == '"') by {
                assert(e[e.len() - 1] == (seq!['"'] + esc(t) + seq!['"'])[e.len() - 1]);
            }
            assert(no_nl(e)) by {
                assert forall|i: int| 0 <= i < e.len() implies (#[trigger] e[i]) != '\n' by {
                    if 1 <= i < 1 + esc(t).len() {
                        assert(e[i] == esc(t)[i - 1]);
                    }
                }
            }
        },
        ScalarV::Num(n) => {
            lemma_num_chars(n);
            assert(ntd(e)) by {
                assert forall|i: int|
                    0 <= i && i + 3 <= e.len() implies !((#[trigger] e[i]) == '-' && e[i + 1] == '-'
                    && e[i + 2] == '-') by {
                    assert(!is_digit('-') && '-' != '.');
                }
            }
        },
        ScalarV::Flag(b) => {
        },
        ScalarV::Null => {
        },
    }
}

/// The escape of a text never holds a newline.
pub proof fn lemma_esc_no_nl(t: Seq<char>)
    ensures
        no_nl(esc(t)),
    decreases t.len(),
{
    if t.len() > 0 {
        lemma_esc_no_nl(t.drop_first());
        let e1 = esc1(t[0]);
        let e2 = esc(t.drop_first());
        assert forall|i: int| 0 <= i < esc(t).len() implies (#[trigger] esc(t)[i]) != '\n' by {
            if i < e1.len() {
                assert(esc(t)[i] == e1[i]);
            } else {
                assert(esc(t)[i] == e2[i - e1.len()]);
            }
        }
    }
}

/// A key the canonical encoder can write and read back: non-empty, trimmed,
/// free of `:`, newlines and triple dashes, not opening a quote and not
/// opening a list item.
pub open spec fn key_ok(k: Seq<char>) -> bool {
    &&& k.len() > 0
    &&& trim_stable(k)
    &&& forall|i: int| 0 <= i < k.len() ==> (#[trigger] k[i]) != ':' && k[i] != '\n'
    &&& ntd(k)
    &&& k[0] != '"' && k[0] != '\'' && k[0] != '}'
    &&& !dash_start(k)
}

/// Well-formedness of a field value for the round trip.
pub open spec fn value_ok(v: ValueV) -> bool {
    match v {
        ValueV::One(sc) => scalar_ok(sc),
        ValueV::Items(items) => forall|i: int| 0 <= i < items.len() ==> scalar_ok(#[trigger] items[i]),
        ValueV::Table(entries) => forall|i: int|
            0 <= i < entries.len() ==> key_ok((#[trigger] entries[i]).0) && scalar_ok(
                entries[i].1,
            ),
    }
}

/// Well-formedness of a whole field list for the round trip.
pub open spec fn fields_ok(fs: Seq<(Seq<char>, ValueV)>) -> bool {
    &&& forall|i: int|
        0 <= i < fs.len() ==> key_ok((#[trigger] fs[i]).0) && value_ok(fs[i].1)
    &&& crate::mapping::keys_distinct(fs)
}


pub proof fn lemma_ws_end_exact(s: Seq<char>, i: int, j: int)
    requires
        0 <= i <= j <= s.len(),
        forall|k: int| i <= k < j ==> is_ws(#[trigger] s[k]),
        j == s.len() || !is_ws(s[j]),
    ensures
        ws_end(s, i) == j,
    decreases j - i,
{
    if i < j {
        lemma_ws_end_exact(s, i + 1, j);
    }
}

pub proof fn lemma_colon_scan_exact(s: Seq<char>, i: int, j: int)
    requires
        0 <= i <= j <= s.len(),
        forall|k: int| i <= k < j ==> (#[trigger] s[k]) != ':',
        j == s.len() || s[j] == ':',
    ensures
        colon_scan(s, i) == j,
    decreases j - i,
{
    if i < j {
        lemma_colon_scan_exact(s, i + 1, j);
    }
}

pub proof fn lemma_delim_scan_exact(s: Seq<char>, i: int, j: int, close: char)
    requires
        0 <= i <= j <= s.len(),
        forall|k: int| i <= k < j ==> (#[trigger] s[k]) != ',' && s[k] != close,
        j == s.len() || s[j] == ',' || s[j] == close,
    ensures
        delim_scan(s, i, close) == j,
    decreases j - i,
{
    if i < j {
        lemma_delim_scan_exact(s, i + 1, j, close);
    }
}

/// Characters of a plain (unquoted) canonical scalar encoding.
pub proof fn lemma_enc_scalar_plain_chars(v: ScalarV)
    requires
        scalar_ok(v),
        !(v is Text),
    ensures
        forall|i: int|
            0 <= i < enc_scalar(v).len() ==> (#[trigger] enc_scalar(v)[i]) != ',' && enc_scalar(
                v,
            )[i] != ']' && enc_scalar(v)[i] != '}' && enc_scalar(v)[i] != '"' && enc_scalar(v)[i]
                != '\'' && !is_ws(enc_scalar(v)[i]),
{
    match v {
        ScalarV::Num(n) => {
            lemma_num_chars(n);
        },
        _ => {},
    }
}

/// Reading one flow scalar at the exact place of its canonical encoding
/// yields the scalar back and stops just past it.
pub proof fn lemma_flow_scalar_enc(s: Seq<char>, i: int, v: ScalarV, close: char)
    requires
        scalar_ok(v),
        0 <= i,
        i + enc_scalar(v).len() < s.len(),
        s.subrange(i, i + enc_scalar(v).len()) == enc_scalar(v),
        s[i + enc_scalar(v).len()] == ',' || s[i + enc_scalar(v).len()] == close,
        close == ']' || close == '}',
    ensures
        crate::mapping::flow_scalar(s, i, close) == Some((v, i + enc_scalar(v).len())),
{
    let e = enc_scalar(v);
    assert forall|k: int| 0 <= k < e.len() implies s[i + k] == e[k] by {
        assert(s.subrange(i, i + e.len())[k] == s[i + k]);
    }
    lemma_enc_scalar_edges(v);
    match v {
        ScalarV::Text(t) => {
            assert(s[i] == '"');
            assert(s.subrange(i + 1, i + 1 + esc(t).len() as int + 1) =~= esc(t) + seq!['"']) by {
                assert forall|k: int|
                    0 <= k < esc(t).len() + 1 implies s.subrange(
                    i + 1,
                    i + 1 + esc(t).len() as int + 1,
                )[k] == (esc(t) + seq!['"'])[k] by {
                    assert(s.subrange(i + 1, i + 1 + esc(t).len() as int + 1)[k] == s[i + 1 + k]);
                    assert(s[i + 1 + k] == e[1 + k]);
                    assert(e =~= seq!['"'] + (esc(t) + seq!['"']));
                }
            }
            crate::scalars::lemma_dq_scan_esc(s, i + 1, t);
            assert(e.len() == esc(t).len() + 2);
        },
        _ => {
            lemma_enc_scalar_plain_chars(v);
            assert(s[i] != '"' && s[i] != '\'');
            assert forall|k: int| i <= k < i + e.len() implies (#[trigger] s[k]) != ',' && s[k]
                != close by {
                assert(s[k] == e[k - i]);
            }
            lemma_delim_scan_exact(s, i, i + e.len(), close);
            let tok = crate::text::spec_trim(s.subrange(i, i + e.len()));
            crate::text::lemma_trim_stable(s.subrange(i, i + e.len()));
            assert(tok == e);
            lemma_scalar_roundtrip(v);
        },
    }
}

/// Shape facts about the canonical encoding of flow-list items.
pub proof fn lemma_enc_items_tail_edges(items: Seq<ScalarV>)
    requires
        forall|i: int| 0 <= i < items.len() ==> scalar_ok(#[trigger] items[i]),
    ensures
        crate::mapping::enc_items_tail(items).len() >= 1,
        ntd(crate::mapping::enc_items_tail(items)),
        no_nl(crate::mapping::enc_items_tail(items)),
        !is_ws(crate::mapping::enc_items_tail(items)[0]),
        crate::mapping::enc_items_tail(items).last() == ']',
    decreases items.len(),
{
    let tail = crate::mapping::enc_items_tail(items);
    if items.len() == 0 {
    } else if items.len() == 1 {
        lemma_enc_scalar_edges(items[0]);
        let e0 = enc_scalar(items[0]);
        lemma_ntd_concat(e0, seq![']']);
        assert(tail == e0 + seq![']']);
        assert(no_nl(tail)) by {
            assert forall|k: int| 0 <= k < tail.len() implies (#[trigger] tail[k]) != '\n' by {
                if k < e0.len() {
                    assert(tail[k] == e0[k]);
                }
            }
        }
        assert(tail[0] == e0[0]);
        assert(tail.last() == ']');
    } else {
        lemma_enc_scalar_edges(items[0]);
        lemma_enc_items_tail_edges(items.drop_first());
        let e0 = enc_scalar(items[0]);
        let rest = crate::mapping::enc_items_tail(items.drop_first());
        assert(tail == e0 + seq![',', ' '] + rest);
        lemma_ntd_concat(e0, seq![',', ' ']);
        lemma_ntd_concat(e0 + seq![',', ' '], rest);
        assert(no_nl(tail)) by {
            assert forall|k: int| 0 <= k < tail.len() implies (#[trigger] tail[k]) != '\n' by {
                if k < e0.len() {
                    assert(tail[k] == e0[k]);
                } else if k < e0.len() + 2 {
                    assert(tail[k] == (e0 + seq![',', ' '])[k]);
                } else {
                    assert(tail[k] == rest[k - e0.len() - 2]);
                }
            }
        }
        assert(tail[0] == e0[0]);
        assert(tail.last() == rest.last()) by {
            assert(tail[tail.len() - 1] == rest[rest.len() - 1]);
        }
    }
}

/// Reading a flow list at the exact place of its canonical item encoding
/// yields the items back.
pub proof fn lemma_fl_scan_enc(s: Seq<char>, i: int, items: Seq<ScalarV>)
    requires
        forall|k: int| 0 <= k < items.len() ==> scalar_ok(#[trigger] items[k]),
        0 <= i <= s.len(),
        ws_end(s, i) + crate::mapping::enc_items_tail(items).len() <= s.len(),
        s.subrange(
            ws_end(s, i),
            ws_end(s, i) + crate::mapping::enc_items_tail(items).len(),
        ) == crate::mapping::enc_items_tail(items),
    ensures
        crate::mapping::fl_scan(s, i) == Some(
            (items, ws_end(s, i) + crate::mapping::enc_items_tail(items).len()),
        ),
    decreases items.len(),
{
    let tail = crate::mapping::enc_items_tail(items);
    let u = ws_end(s, i);
    crate::mapping::lemma_ws_end_props(s, i);
    lemma_enc_items_tail_edges(items);
    assert forall|k: int| 0 <= k < tail.len() implies s[u + k] == tail[k] by {
        assert(s.subrange(u, u + tail.len())[k] == s[u + k]);
    }
    assert(u < s.len());
    if items.len() == 0 {
        assert(s[u] == ']');
    } else {
        let e0 = enc_scalar(items[0]);
        lemma_enc_scalar_edges(items[0]);
        assert(s[u] == e0[0]) by {
            if items.len() == 1 {
                assert(tail[0] == (e0 + seq![']'])[0]);
            } else {
                assert(tail[0] == (e0 + seq![',', ' ']
                    + crate::mapping::enc_items_tail(items.drop_first()))[0]);
            }
        }
        assert(s[u] != ']');
        assert(s.subrange(u, u + e0.len()) =~= e0) by {
            assert forall|k: int| 0 <= k < e0.len() implies s.subrange(u, u + e0.len())[k]
                == e0[k] by {
                assert(s.subrange(u, u + e0.len())[k] == s[u + k]);
                assert(tail[k] == e0[k]);
            }
        }
        if items.len() == 1 {
            assert(s[u + e0.len()] == ']') by {
                assert(tail[e0.len() as int] == (e0 + seq![']'])[e0.len() as int]);
            }
            lemma_flow_scalar_enc(s, u, items[0], ']');
            let j = u + e0.len();
            assert(ws_end(s, j) == j) by {
                lemma_ws_end_exact(s, j, j);
            }
            assert(seq![items[0]] =~= items);
            assert(tail.len() == e0.len() + 1);
        } else {
            let rest = crate::mapping::enc_items_tail(items.drop_first());
            assert(tail == e0 + seq![',', ' '] + rest);
            assert(s[u + e0.len()] == ',') by {
                assert(tail[e0.len() as int] == (e0 + seq![',', ' '] + rest)[e0.len() as int]);
            }
            assert(s[u + e0.len() + 1] == ' ') by {
                assert(tail[e0.len() + 1 as int] == (e0 + seq![',', ' '] + rest)[e0.len() + 1 as int]);
            }
            lemma_flow_scalar_enc(s, u, items[0], ']');
            let j = u + e0.len();
            assert(ws_end(s, j) == j) by {
                lemma_ws_end_exact(s, j, j);
            }
            assert(s[j] != ']');
            lemma_enc_items_tail_edges(items.drop_first());
            assert forall|k: int| 0 <= k < rest.len() implies s[j + 2 + k] == rest[k] by {
                assert(tail[e0.len() + 2 + k as int] == (e0 + seq![',', ' '] + rest)[e0.len() + 2 + k as int]);
            }
            assert(ws_end(s, j + 1) == j + 2) by {
                assert(is_ws(s[j + 1]));
                assert(!is_ws(s[j + 2])) by {
                    assert(s[j + 2] == rest[0]);
                }
                lemma_ws_end_exact(s, j + 1, j + 2);
            }
            assert(s.subrange(ws_end(s, j + 1), ws_end(s, j + 1) + rest.len()) =~= rest) by {
                assert forall|k: int| 0 <= k < rest.len() implies s.subrange(
                    j + 2,
                    j + 2 + rest.len(),
                )[k] == rest[k] by {
                    assert(s.subrange(j + 2, j + 2 + rest.len())[k] == s[j + 2 + k]);
                }
            }
            lemma_fl_scan_enc(s, j + 1, items.drop_first());
            assert(seq![items[0]] + items.drop_first() =~= items);
            assert(tail.len() == e0.len() + 2 + rest.len());
        }
    }
}


/// Shape facts about the canonical encoding of flow-mapping entries.
pub proof fn lemma_enc_table_tail_edges(entries: Seq<(Seq<char>, ScalarV)>)
    requires
        forall|i: int|
            0 <= i < entries.len() ==> key_ok((#[trigger] entries[i]).0) && scalar_ok(
                entries[i].1,
            ),
    ensures
        crate::mapping::enc_table_tail(entries).len() >= 1,
        ntd(crate::mapping::enc_table_tail(entries)),
        no_nl(crate::mapping::enc_table_tail(entries)),
        !is_ws(crate::mapping::enc_table_tail(entries)[0]),
        crate::mapping::enc_table_tail(entries).last() == '}',
    decreases entries.len(),
{
    let tail = crate::mapping::enc_table_tail(entries);
    if entries.len() == 0 {
    } else {
        let k0 = entries[0].0;
        let e0 = enc_scalar(entries[0].1);
        lemma_enc_scalar_edges(entries[0].1);
        let head = k0 + seq![':', ' '] + e0;
        assert(ntd(head) && no_nl(head)) by {
            lemma_ntd_concat(k0, seq![':', ' ']);
            lemma_ntd_concat(k0 + seq![':', ' '], e0);
            assert forall|k: int| 0 <= k < head.len() implies (#[trigger] head[k]) != '\n' by {
                if k < k0.len() {
                    assert(head[k] == k0[k]);
                } else if k < k0.len() + 2 {
                    assert(head[k] == (k0 + seq![':', ' '])[k]);
                } else {
                    assert(head[k] == e0[k - k0.len() - 2]);
                }
            }
        }
        assert(head.last() == e0.last()) by {
            assert(head[head.len() - 1] == e0[e0.len() - 1]);
        }
        assert(head[0] == k0[0]);
        if entries.len() == 1 {
            assert(tail == head + seq!['}']);
            lemma_ntd_concat(head, seq!['}']);
            assert(no_nl(tail)) by {
                assert forall|k: int| 0 <= k < tail.len() implies (#[trigger] tail[k]) != '\n' by {
                    if k < head.len() {
                        assert(tail[k] == head[k]);
                    }
                }
            }
            assert(tail[0] == head[0]);
            assert(tail.last() == '}');
        } else {
            lemma_enc_table_tail_edges(entries.drop_first());
            let rest = crate::mapping::enc_table_tail(entries.drop_first());
            assert(tail == head + seq![',', ' '] + rest);
            lemma_ntd_concat(head, seq![',', ' ']);
            lemma_ntd_concat(head + seq![',', ' '], rest);
            assert(no_nl(tail)) by {
                assert forall|k: int| 0 <= k < tail.len() implies (#[trigger] tail[k]) != '\n' by {
                    if k < head.len() {
                        assert(tail[k] == head[k]);
                    } else if k < head.len() + 2 {
                        assert(tail[k] == (head + seq![',', ' '])[k]);
                    } else {
                        assert(tail[k] == rest[k - head.len() - 2]);
                    }
                }
            }
            assert(tail[0] == head[0]);
            assert(tail.last() == rest.last()) by {
                assert(tail[tail.len() - 1] == rest[rest.len() - 1]);
            }
        }
    }
}

/// Reading a flow mapping at the exact place of its canonical entry
/// encoding yields the entries back.
pub proof fn lemma_ft_scan_enc(s: Seq<char>, i: int, entries: Seq<(Seq<char>, ScalarV)>)
    requires
        forall|k: int|
            0 <= k < entries.len() ==> key_ok((#[trigger] entries[k]).0) && scalar_ok(
                entries[k].1,
            ),
        0 <= i <= s.len(),
        ws_end(s, i) + crate::mapping::enc_table_tail(entries).len() <= s.len(),
        s.subrange(
            ws_end(s, i),
            ws_end(s, i) + crate::mapping::enc_table_tail(entries).len(),
        ) == crate::mapping::enc_table_tail(entries),
    ensures
        crate::mapping::ft_scan(s, i) == Some(
            (entries, ws_end(s, i) + crate::mapping::enc_table_tail(entries).len()),
        ),
    decreases entries.len(),
{
    let tail = crate::mapping::enc_table_tail(entries);
    let u = ws_end(s, i);
    crate::mapping::lemma_ws_end_props(s, i);
    lemma_enc_table_tail_edges(entries);
    assert forall|k: int| 0 <= k < tail.len() implies s[u + k] == tail[k] by {
        assert(s.subrange(u, u + tail.len())[k] == s[u + k]);
    }
    assert(u < s.len());
    if entries.len() == 0 {
        assert(s[u] == '}');
    } else {
        let k0 = entries[0].0;
        let sc0 = entries[0].1;
        let e0 = enc_scalar(sc0);
        let head = k0 + seq![':', ' '] + e0;
        lemma_enc_scalar_edges(sc0);
        let rest_exists = entries.len() > 1;
        let after = if rest_exists {
            seq![',', ' '] + crate::mapping::enc_table_tail(entries.drop_first())
        } else {
            seq!['}']
        };
        assert(tail == head + after);
        assert forall|k: int| 0 <= k < head.len() implies s[u + k] == head[k] by {
            assert(tail[k] == (head + after)[k]);
        }
        assert forall|k: int| 0 <= k < k0.len() implies s[u + k] == k0[k] by {
            assert(head[k] == (k0 + seq![':', ' '] + e0)[k]);
        }
        assert(s[u + k0.len()] == ':') by {
            assert(head[k0.len() as int] == (k0 + seq![':', ' '] + e0)[k0.len() as int]);
        }
        assert(s[u + k0.len() + 1] == ' ') by {
            assert(head[k0.len() + 1 as int] == (k0 + seq![':', ' '] + e0)[k0.len() + 1 as int]);
        }
        assert forall|k: int| 0 <= k < e0.len() implies s[u + k0.len() + 2 + k] == e0[k] by {
            assert(head[k0.len() + 2 + k as int] == (k0 + seq![':', ' '] + e0)[k0.len() + 2
                + k as int]);
        }
        assert(s[u] == k0[0]);
        assert(s[u] != '}' && s[u] != '"' && s[u] != '\'');
        let cp = u + k0.len();
        assert(crate::mapping::flow_key(s, u) == Some((k0, cp))) by {
            assert forall|k: int| u <= k < cp implies (#[trigger] s[k]) != ':' by {
                assert(s[k] == k0[k - u]);
            }
            lemma_colon_scan_exact(s, u, cp);
            assert(s.subrange(u, cp) =~= k0) by {
                assert forall|k: int| 0 <= k < k0.len() implies s.subrange(u, cp)[k] == k0[k] by {
                    assert(s.subrange(u, cp)[k] == s[u + k]);
                }
            }
            crate::text::lemma_trim_stable(k0);
        }
        let x = cp + 2;
        assert(ws_end(s, cp + 1) == x) by {
            lemma_ws_end_exact(s, cp + 1, x);
        }
        assert(s.subrange(x, x + e0.len()) =~= e0) by {
            assert forall|k: int| 0 <= k < e0.len() implies s.subrange(x, x + e0.len())[k]
                == e0[k] by {
                assert(s.subrange(x, x + e0.len())[k] == s[x + k]);
            }
        }
        let j = x + e0.len();
        assert(s[j] == after[0]) by {
            assert(tail[head.len() as int] == (head + after)[head.len() as int]);
        }
        lemma_flow_scalar_enc(s, x, sc0, '}');
        assert(ws_end(s, j) == j) by {
            lemma_ws_end_exact(s, j, j);
        }
        if entries.len() == 1 {
            assert(s[j] == '}');
            assert(seq![(k0, sc0)] =~= entries);
            assert(tail.len() == head.len() + 1);
        } else {
            let rest = crate::mapping::enc_table_tail(entries.drop_first());
            assert(s[j] == ',');
            assert(s[j + 1] == ' ') by {
                assert(tail[head.len() + 1 as int] == (head + after)[head.len() + 1 as int]);
            }
            assert forall|k: int| 0 <= k < rest.len() implies s[j + 2 + k] == rest[k] by {
                assert(tail[head.len() + 2 + k as int] == (head + after)[head.len() + 2
                    + k as int]);
                assert(after[2 + k as int] == rest[k]);
            }
            lemma_enc_table_tail_edges(entries.drop_first());
            assert(ws_end(s, j + 1) == j + 2) by {
                assert(!is_ws(s[j + 2])) by {
                    assert(s[j + 2] == rest[0]);
                }
                lemma_ws_end_exact(s, j + 1, j + 2);
            }
            assert(s.subrange(ws_end(s, j + 1), ws_end(s, j + 1) + rest.len()) =~= rest) by {
                assert forall|k: int| 0 <= k < rest.len() implies s.subrange(
                    j + 2,
                    j + 2 + rest.len(),
                )[k] == rest[k] by {
                    assert(s.subrange(j + 2, j + 2 + rest.len())[k] == s[j + 2 + k]);
                }
            }
            lemma_ft_scan_enc(s, j + 1, entries.drop_first());
            assert(seq![(k0, sc0)] + entries.drop_first() =~= entries);
            assert(tail.len() == head.len() + 2 + rest.len());
        }
    }
}

/// Shape facts about a canonical value encoding.
pub proof fn lemma_enc_value_edges(v: ValueV)
    requires
        value_ok(v),
    ensures
        crate::mapping::enc_value(v).len() > 0,
        trim_stable(crate::mapping::enc_value(v)),
        ntd(crate::mapping::enc_value(v)),
        no_nl(crate::mapping::enc_value(v)),
{
    let e = crate::mapping::enc_value(v);
    match v {
        ValueV::One(sc) => {
            lemma_enc_scalar_edges(sc);
        },
        ValueV::Items(items) => {
            lemma_enc_items_tail_edges(items);
            let tail = crate::mapping::enc_items_tail(items);
            assert(e == seq!['['] + tail);
            lemma_ntd_concat(seq!['['], tail);
            assert(no_nl(e)) by {
                assert forall|k: int| 0 <= k < e.len() implies (#[trigger] e[k]) != '\n' by {
                    if k > 0 {
                        assert(e[k] == tail[k - 1]);
                    }
                }
            }
            assert(e[0] == '[');
            assert(e.last() == tail.last()) by {
                assert(e[e.len() - 1] == tail[tail.len() - 1]);
            }
        },
        ValueV::Table(entries) => {
            lemma_enc_table_tail_edges(entries);
            let tail = crate::mapping::enc_table_tail(entries);
            assert(e == seq!['{'] + tail);
            lemma_ntd_concat(seq!['{'], tail);
            assert(no_nl(e)) by {
                assert forall|k: int| 0 <= k < e.len() implies (#[trigger] e[k]) != '\n' by {
                    if k > 0 {
                        assert(e[k] == tail[k - 1]);
                    }
                }
            }
            assert(e[0] == '{');
            assert(e.last() == tail.last()) by {
                assert(e[e.len() - 1] == tail[tail.len() - 1]);
            }
        },
    }
}

/// Decoding the canonical encoding of a value yields the value again.
pub proof fn lemma_parse_value_enc(v: ValueV)
    requires
        value_ok(v),
    ensures
        crate::mapping::parse_value_token(crate::mapping::enc_value(v)) == Some(v),
{
    let e = crate::mapping::enc_value(v);
    lemma_enc_value_edges(v);
    match v {
        ValueV::One(sc) => {
            lemma_enc_scalar_edges(sc);
            lemma_scalar_roundtrip(sc);
        },
        ValueV::Items(items) => {
            lemma_enc_items_tail_edges(items);
            let tail = crate::mapping::enc_items_tail(items);
            assert(e == seq!['['] + tail);
            assert(e[0] == '[');
            assert forall|k: int| 0 <= k < tail.len() implies e[1 + k] == tail[k] by {
                assert(e[1 + k] == (seq!['['] + tail)[1 + k]);
            }
            assert(ws_end(e, 1) == 1) by {
                assert(!is_ws(e[1])) by {
                    assert(e[1] == tail[0]);
                }
                lemma_ws_end_exact(e, 1, 1);
            }
            assert(e.subrange(1, 1 + tail.len() as int) =~= tail) by {
                assert forall|k: int| 0 <= k < tail.len() implies e.subrange(1, 1 + tail.len() as int)[k]
                    == tail[k] by {
                    assert(e.subrange(1, 1 + tail.len() as int)[k] == e[1 + k]);
                }
            }
            lemma_fl_scan_enc(e, 1, items);
            assert(ws_end(e, e.len() as int) == e.len()) by {
                lemma_ws_end_exact(e, e.len() as int, e.len() as int);
            }
        },
        ValueV::Table(entries) => {
            lemma_enc_table_tail_edges(entries);
            let tail = crate::mapping::enc_table_tail(entries);
            assert(e == seq!['{'] + tail);
            assert(e[0] == '{');
            assert forall|k: int| 0 <= k < tail.len() implies e[1 + k] == tail[k] by {
                assert(e[1 + k] == (seq!['{'] + tail)[1 + k]);
            }
            assert(ws_end(e, 1) == 1) by {
                assert(!is_ws(e[1])) by {
                    assert(e[1] == tail[0]);
                }
                lemma_ws_end_exact(e, 1, 1);
            }
            assert(e.subrange(1, 1 + tail.len() as int) =~= tail) by {
                assert forall|k: int| 0 <= k < tail.len() implies e.subrange(1, 1 + tail.len() as int)[k]
                    == tail[k] by {
                    assert(e.subrange(1, 1 + tail.len() as int)[k] == e[1 + k]);
                }
            }
            lemma_ft_scan_enc(e, 1, entries);
            assert(ws_end(e, e.len() as int) == e.len()) by {
                lemma_ws_end_exact(e, e.len() as int, e.len() as int);
            }
        },
    }
}


/// Shape facts about a canonical field line.
pub proof fn lemma_field_line_shape(k: Seq<char>, v: ValueV)
    requires
        key_ok(k),
        value_ok(v),
    ensures
        no_nl(crate::mapping::enc_field_line(k, v)),
        ntd(crate::mapping::enc_field_line(k, v)),
        !crate::mapping::line_blank(crate::mapping::enc_field_line(k, v)),
        !dash_start(crate::mapping::enc_field_line(k, v)),
        !crate::mapping::indent_start(crate::mapping::enc_field_line(k, v)),
        colon_scan(crate::mapping::enc_field_line(k, v), 0) == k.len(),
        crate::text::spec_trim(crate::mapping::enc_field_line(k, v).take(k.len() as int)) == k,
        crate::text::spec_trim(crate::mapping::enc_field_line(k, v).skip(k.len() + 1 as int))
            == crate::mapping::enc_value(v),
        crate::mapping::enc_field_line(k, v).len() > k.len() + 1,
{
    let e = crate::mapping::enc_value(v);
    let l = crate::mapping::enc_field_line(k, v);
    lemma_enc_value_edges(v);
    assert(l == k + seq![':', ' '] + e);
    assert forall|i: int| 0 <= i < k.len() implies l[i] == k[i] by {
        assert(l[i] == (k + seq![':', ' '] + e)[i]);
    }
    assert(l[k.len() as int] == ':') by {
        assert(l[k.len() as int] == (k + seq![':', ' '] + e)[k.len() as int]);
    }
    assert(l[k.len() + 1 as int] == ' ') by {
        assert(l[k.len() + 1 as int] == (k + seq![':', ' '] + e)[k.len() + 1 as int]);
    }
    assert forall|i: int| 0 <= i < e.len() implies l[k.len() + 2 + i] == e[i] by {
        assert(l[k.len() + 2 + i as int] == (k + seq![':', ' '] + e)[k.len() + 2 + i as int]);
    }
    assert(no_nl(l)) by {
        assert forall|i: int| 0 <= i < l.len() implies (#[trigger] l[i]) != '\n' by {
            if i < k.len() {
                assert(l[i] == k[i]);
            } else if i >= k.len() + 2 {
                assert(l[i] == e[i - k.len() - 2]);
            }
        }
    }
    assert(ntd(l)) by {
        lemma_ntd_concat(k, seq![':', ' ']);
        lemma_ntd_concat(k + seq![':', ' '], e);
    }
    assert(l[0] == k[0]);
    assert(!is_ws(l[0]));
    assert(!crate::mapping::line_blank(l)) by {
        crate::text::lemma_trim_front_stable(l);
        crate::text::lemma_trim_back_props(l);
        if crate::text::trim_back(l).len() == 0 {
            assert(is_ws(l[0]));
        }
    }
    assert(!dash_start(l)) by {
        if dash_start(l) {
            if k.len() == 1 {
                assert(l[1] == ':');
            } else {
                assert(l[1] == k[1]);
                assert(dash_start(k));
            }
        }
    }
    assert(colon_scan(l, 0) == k.len()) by {
        assert forall|j: int| 0 <= j < k.len() implies (#[trigger] l[j]) != ':' by {
            assert(l[j] == k[j]);
        }
        lemma_colon_scan_exact(l, 0, k.len() as int);
    }
    assert(l.take(k.len() as int) =~= k);
    crate::text::lemma_trim_stable(k);
    let v2 = l.skip(k.len() + 1 as int);
    assert(v2 =~= seq![' '] + e) by {
        assert forall|i: int| 0 <= i < v2.len() implies v2[i] == (seq![' '] + e)[i] by {
            assert(v2[i] == l[k.len() + 1 + i]);
            if i > 0 {
                assert(l[k.len() + 2 + (i - 1)] == e[i - 1]);
            }
        }
    }
    assert(crate::text::spec_trim(v2) == e) by {
        assert((seq![' '] + e).drop_first() =~= e);
        crate::text::lemma_trim_skip_ws(seq![' '] + e);
        crate::text::lemma_trim_stable(e);
    }
}

/// The lines of a canonical field encoding: one line per field, then one
/// empty line.
pub open spec fn field_lines(fs: Seq<(Seq<char>, ValueV)>) -> Seq<Seq<char>> {
    fs.map_values(|f: (Seq<char>, ValueV)| crate::mapping::enc_field_line(f.0, f.1))
}

pub proof fn lemma_lines_enc_fields(fs: Seq<(Seq<char>, ValueV)>)
    requires
        forall|i: int| 0 <= i < fs.len() ==> key_ok((#[trigger] fs[i]).0) && value_ok(fs[i].1),
    ensures
        crate::mapping::spec_lines(crate::mapping::enc_fields(fs)) == field_lines(fs) + seq![
            Seq::<char>::empty(),
        ],
    decreases fs.len(),
{
    if fs.len() == 0 {
        assert(crate::mapping::enc_fields(fs) =~= Seq::<char>::empty());
        assert(crate::mapping::spec_lines(Seq::<char>::empty()) =~~= field_lines(fs) + seq![
            Seq::<char>::empty(),
        ]);
    } else {
        let l0 = crate::mapping::enc_field_line(fs[0].0, fs[0].1);
        let rest = fs.drop_first();
        lemma_field_line_shape(fs[0].0, fs[0].1);
        lemma_lines_enc_fields(rest);
        assert(crate::mapping::enc_fields(fs) == l0 + seq!['\n'] + crate::mapping::enc_fields(
            rest,
        ));
        crate::mapping::lemma_lines_concat(l0, crate::mapping::enc_fields(rest));
        assert(field_lines(fs) =~= seq![l0] + field_lines(rest));
        assert(seq![l0] + (field_lines(rest) + seq![Seq::<char>::empty()]) =~= field_lines(fs)
            + seq![Seq::<char>::empty()]);
    }
}

/// A run of blank lines parses to the empty field list.
pub proof fn lemma_pbf_blanks(lines: Seq<Seq<char>>, i: int)
    requires
        0 <= i <= lines.len(),
        forall|j: int| i <= j < lines.len() ==> crate::mapping::line_blank(#[trigger] lines[j]),
    ensures
        crate::mapping::parse_block_fields(lines, i) == Some(Seq::<(Seq<char>, ValueV)>::empty()),
    decreases lines.len() - i,
{
    if i < lines.len() {
        lemma_pbf_blanks(lines, i + 1);
    }
}

/// Parsing the canonical lines of a field list, followed by blank lines,
/// yields the field list again.
pub proof fn lemma_pbf_enc(lines: Seq<Seq<char>>, i: int, fs: Seq<(Seq<char>, ValueV)>)
    requires
        forall|k: int| 0 <= k < fs.len() ==> key_ok((#[trigger] fs[k]).0) && value_ok(fs[k].1),
        0 <= i,
        i + fs.len() <= lines.len(),
        lines.subrange(i, i + fs.len()) == field_lines(fs),
        forall|j: int|
            i + fs.len() <= j < lines.len() ==> crate::mapping::line_blank(#[trigger] lines[j]),
    ensures
        crate::mapping::parse_block_fields(lines, i) == Some(fs),
    decreases fs.len(),
{
    assert forall|k: int| 0 <= k < fs.len() implies lines[i + k] == field_lines(fs)[k] by {
        assert(lines.subrange(i, i + fs.len())[k] == lines[i + k]);
    }
    if fs.len() == 0 {
        lemma_pbf_blanks(lines, i);
        assert(crate::mapping::parse_block_fields(lines, i) == Some(Seq::<
            (Seq<char>, ValueV),
        >::empty()));
        assert(Seq::<(Seq<char>, ValueV)>::empty() =~= fs);
    } else {
        let k0 = fs[0].0;
        let v0 = fs[0].1;
        let l = crate::mapping::enc_field_line(k0, v0);
        assert(lines[i] == l) by {
            assert(lines[i + 0] == field_lines(fs)[0]);
            assert(field_lines(fs)[0] == l);
        }
        lemma_field_line_shape(k0, v0);
        lemma_parse_value_enc(v0);
        let rest = fs.drop_first();
        assert(lines.subrange(i + 1, i + 1 + rest.len()) =~= field_lines(rest)) by {
            assert forall|k: int| 0 <= k < rest.len() implies lines.subrange(
                i + 1,
                i + 1 + rest.len(),
            )[k] == field_lines(rest)[k] by {
                assert(lines.subrange(i + 1, i + 1 + rest.len())[k] == lines[i + 1 + k]);
                assert(lines[i + 1 + k] == field_lines(fs)[k + 1]);
                assert(field_lines(fs)[k + 1] == crate::mapping::enc_field_line(
                    fs[k + 1].0,
                    fs[k + 1].1,
                ));
                assert(fs[k + 1] == rest[k]);
            }
        }
        lemma_pbf_enc(lines, i + 1, rest);
        let c = colon_scan(l, 0);
        assert(c == k0.len());
        assert(c < l.len());
        assert(crate::text::spec_trim(l.take(c)) == k0);
        assert(crate::text::spec_trim(l.skip(c + 1)) == crate::mapping::enc_value(v0));
        assert(crate::mapping::enc_value(v0).len() > 0) by {
            lemma_enc_value_edges(v0);
        }
        assert(crate::mapping::parse_block_fields(lines, i) == Some(seq![(k0, v0)] + rest));
        assert(seq![(k0, v0)] + rest =~= fs);
    }
}

/// The canonical field encoding holds no triple dash.
pub proof fn lemma_enc_fields_ntd(fs: Seq<(Seq<char>, ValueV)>)
    requires
        forall|i: int| 0 <= i < fs.len() ==> key_ok((#[trigger] fs[i]).0) && value_ok(fs[i].1),
    ensures
        ntd(crate::mapping::enc_fields(fs)),
        crate::mapping::enc_fields(fs).len() > 0 ==> crate::mapping::enc_fields(fs).last() == '\n'
            && crate::mapping::enc_fields(fs)[0] != '\n' && !is_ws(crate::mapping::enc_fields(fs)[0]),
    decreases fs.len(),
{
    if fs.len() > 0 {
        let l0 = crate::mapping::enc_field_line(fs[0].0, fs[0].1);
        let rest = crate::mapping::enc_fields(fs.drop_first());
        lemma_field_line_shape(fs[0].0, fs[0].1);
        lemma_enc_fields_ntd(fs.drop_first());
        assert(crate::mapping::enc_fields(fs) == l0 + seq!['\n'] + rest);
        lemma_ntd_concat(l0, seq!['\n']);
        lemma_ntd_concat(l0 + seq!['\n'], rest);
        let e = crate::mapping::enc_fields(fs);
        assert(e[0] == l0[0]) by {
            assert(e[0] == (l0 + seq!['\n'] + rest)[0]);
        }
        assert(l0[0] == fs[0].0[0]) by {
            assert(l0 == fs[0].0 + seq![':', ' '] + crate::mapping::enc_value(fs[0].1));
            assert(l0[0] == (fs[0].0 + seq![':', ' '] + crate::mapping::enc_value(fs[0].1))[0]);
        }
        assert(e.last() == '\n') by {
            if rest.len() == 0 {
                assert(e[e.len() - 1] == (l0 + seq!['\n'] + rest)[e.len() - 1]);
            } else {
                assert(e[e.len() - 1] == rest[rest.len() - 1]);
            }
        }
    }
}

} // verus!
