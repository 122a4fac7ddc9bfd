//! The frontmatter mapping syntax: a block form of `key: value` lines with
//! two-space-indented nested mappings and `- ` item lists, and a flow form
//! (`[...]`, `{...}`) for inline values and brace-delimited objects.
//! This module holds the mathematical grammar; `parserx` implements it.

use vstd::prelude::*;

use crate::model::ScalarV;
use crate::model::ValueV;
use crate::scalars::dq_scan;
use crate::scalars::enc_scalar;
use crate::scalars::parse_scalar_token;
use crate::scalars::sq_scan;
use crate::text::is_ws;
use crate::text::spec_trim;

verus! {

/// First index at or after `i` whose character is not whitespace.
pub open spec fn ws_end(s: Seq<char>, i: int) -> int
    decreases s.len() - i,
{
    if i < 0 || i >= s.len() {
        s.len() as int
    } else if is_ws(s[i]) {
        ws_end(s, i + 1)
    } else {
        i
    }
}

pub proof fn lemma_ws_end_props(s: Seq<char>, i: int)
    requires
        0 <= i <= s.len(),
    ensures
        i <= ws_end(s, i) <= s.len(),
        forall|j: int| i <= j < ws_end(s, i) ==> is_ws(#[trigger] s[j]),
        ws_end(s, i) < s.len() ==> !is_ws(s[ws_end(s, i)]),
    decreases s.len() - i,
{
    if i < s.len() && is_ws(s[i]) {
        lemma_ws_end_props(s, i + 1);
    }
}

/// First index at or after `i` holding `:`, or the length.
pub open spec fn colon_scan(s: Seq<char>, i: int) -> int
    decreases s.len() - i,
{
    if i < 0 || i >= s.len() {
        s.len() as int
    } else if s[i] == ':' {
        i
    } else {
        colon_scan(s, i + 1)
    }
}

pub proof fn lemma_colon_scan_props(s: Seq<char>, i: int)
    requires
        0 <= i <= s.len(),
    ensures
        i <= colon_scan(s, i) <= s.len(),
        forall|j: int| i <= j < colon_scan(s, i) ==> #[trigger] s[j] != ':',
        colon_scan(s, i) < s.len() ==> s[colon_scan(s, i)] == ':',
    decreases s.len() - i,
{
    if i < s.len() && s[i] != ':' {
        lemma_colon_scan_props(s, i + 1);
    }
}

/// First index at or after `i` holding `,` or `close`, or the length.
pub open spec fn delim_scan(s: Seq<char>, i: int, close: char) -> int
    decreases s.len() - i,
{
    if i < 0 || i >= s.len() {
        s.len() as int
    } else if s[i] == ',' || s[i] == close {
        i
    } else {
        delim_scan(s, i + 1, close)
    }
}

pub proof fn lemma_delim_scan_props(s: Seq<char>, i: int, close: char)
    requires
        0 <= i <= s.len(),
    ensures
        i <= delim_scan(s, i, close) <= s.len(),
        forall|j: int|
            i <= j < delim_scan(s, i, close) ==> #[trigger] s[j] != ',' && s[j] != close,
        delim_scan(s, i, close) < s.len() ==> (s[delim_scan(s, i, close)] == ','
            || s[delim_scan(s, i, close)] == close),
    decreases s.len() - i,
{
    if i < s.len() && !(s[i] == ',' || s[i] == close) {
        lemma_delim_scan_props(s, i + 1, close);
    }
}

/// Scans one scalar of a flow collection starting at the non-whitespace
/// index `i`; `close` is the collection's closing delimiter. Returns the
/// scalar and the index just past it.
pub open spec fn flow_scalar(s: Seq<char>, i: int, close: char) -> Option<(ScalarV, int)> {
    if i < 0 || i >= s.len() {
        None
    } else if s[i] == '"' {
        match dq_scan(s, i + 1) {
            Some((x, j)) => Some((ScalarV::Text(x), j)),
            None => None,
        }
    } else if s[i] == '\'' {
        match sq_scan(s, i + 1) {
            Some((x, j)) => Some((ScalarV::Text(x), j)),
            None => None,
        }
    } else {
        let k = delim_scan(s, i, close);
        match parse_scalar_token(spec_trim(s.subrange(i, k))) {
            Some(sc) => Some((sc, k)),
            None => None,
        }
    }
}

/// Scans the items of a flow list; `i` stands just past the opening `[`.
/// Returns the items and the index just past the closing `]`.
pub open spec fn fl_scan(s: Seq<char>, i: int) -> Option<(Seq<ScalarV>, int)>
    decreases s.len() - i,
{
    if i < 0 || i > s.len() {
        None
    } else {
        let u = ws_end(s, i);
        if u >= s.len() {
            None
        } else if s[u] == ']' {
            Some((Seq::empty(), u + 1))
        } else {
            match flow_scalar(s, u, ']') {
                None => None,
                Some((sc, j)) => {
                    let v = ws_end(s, j);
                    if v >= s.len() {
                        None
                    } else if s[v] == ']' {
                        Some((seq![sc], v + 1))
                    } else if s[v] == ',' && v + 1 > i {
                        match fl_scan(s, v + 1) {
                            Some((r, nx)) => Some((seq![sc] + r, nx)),
                            None => None,
                        }
                    } else {
                        None
                    }
                },
            }
        }
    }
}

/// Scans one flow-mapping key starting at the non-whitespace index `i`.
/// Returns the key and the index of the `:` that follows it.
pub open spec fn flow_key(s: Seq<char>, i: int) -> Option<(Seq<char>, int)> {
    if i < 0 || i >= s.len() {
        None
    } else if s[i] == '"' {
        match dq_scan(s, i + 1) {
            Some((x, j)) => {
                let w = ws_end(s, j);
                if w < s.len() && s[w] == ':' {
                    Some((x, w))
                } else {
                    None
                }
            },
            None => None,
        }
    } else if s[i] == '\'' {
        match sq_scan(s, i + 1) {
            Some((x, j)) => {
                let w = ws_end(s, j);
                if w < s.len() && s[w] == ':' {
                    Some((x, w))
                } else {
                    None
                }
            },
            None => None,
        }
    } else {
        let k = colon_scan(s, i);
        if k >= s.len() {
            None
        } else {
            let key = spec_trim(s.subrange(i, k));
            if key.len() == 0 {
                None
            } else {
                Some((key, k))
            }
        }
    }
}

/// Scans the entries of a flow mapping whose values are scalars; `i` stands
/// just past the opening `{`.
pub open spec fn ft_scan(s: Seq<char>, i: int) -> Option<(Seq<(Seq<char>, ScalarV)>, int)>
    decreases s.len() - i,
{
    if i < 0 || i > s.len() {
        None
    } else {
        let u = ws_end(s, i);
        if u >= s.len() {
            None
        } else if s[u] == '}' {
            Some((Seq::empty(), u + 1))
        } else {
            match flow_key(s, u) {
                None => None,
                Some((key, cp)) => {
                    let x = ws_end(s, cp + 1);
                    match flow_scalar(s, x, '}') {
                        None => None,
                        Some((sc, j)) => {
                            let v = ws_end(s, j);
                            if v >= s.len() {
                                None
                            } else if s[v] == '}' {
                                Some((seq![(key, sc)], v + 1))
                            } else if s[v] == ',' && v + 1 > i {
                                match ft_scan(s, v + 1) {
                                    Some((r, nx)) => Some((seq![(key, sc)] + r, nx)),
                                    None => None,
                                }
                            } else {
                                None
                            }
                        },
                    }
                },
            }
        }
    }
}

/// Scans the entries of a brace-delimited object whose values may be
/// scalars, flow lists of scalars, or flow mappings of scalars.
pub open spec fn ft_top_scan(s: Seq<char>, i: int) -> Option<(Seq<(Seq<char>, ValueV)>, int)>
    decreases s.len() - i,
{
    if i < 0 || i > s.len() {
        None
    } else {
        let u = ws_end(s, i);
        if u >= s.len() {
            None
        } else if s[u] == '}' {
            Some((Seq::empty(), u + 1))
        } else {
            match flow_key(s, u) {
                None => None,
                Some((key, cp)) => {
                    let x = ws_end(s, cp + 1);
                    let vj: Option<(ValueV, int)> = if x < s.len() && s[x] == '[' {
                        match fl_scan(s, x + 1) {
                            Some((items, j)) => Some((ValueV::Items(items), j)),
                            None => None,
                        }
                    } else if x < s.len() && s[x] == '{' {
                        match ft_scan(s, x + 1) {
                            Some((entries, j)) => Some((ValueV::Table(entries), j)),
                            None => None,
                        }
                    } else {
                        match flow_scalar(s, x, '}') {
                            Some((sc, j)) => Some((ValueV::One(sc), j)),
                            None => None,
                        }
                    };
                    match vj {
                        None => None,
                        Some((val, j)) => {
                            let v = ws_end(s, j);
                            if v >= s.len() {
                                None
                            } else if s[v] == '}' {
                                Some((seq![(key, val)], v + 1))
                            } else if s[v] == ',' && v + 1 > i {
                                match ft_top_scan(s, v + 1) {
                                    Some((r, nx)) => Some((seq![(key, val)] + r, nx)),
                                    None => None,
                                }
                            } else {
                                None
                            }
                        },
                    }
                },
            }
        }
    }
}

/// Decodes one inline value token (already trimmed).
pub open spec fn parse_value_token(t: Seq<char>) -> Option<ValueV> {
    if t.len() == 0 {
        None
    } else if t[0] == '[' {
        match fl_scan(t, 1) {
            Some((items, j)) => if ws_end(t, j) == t.len() {
                Some(ValueV::Items(items))
            } else {
                None
            },
            None => None,
        }
    } else if t[0] == '{' {
        match ft_scan(t, 1) {
            Some((entries, j)) => if ws_end(t, j) == t.len() {
                Some(ValueV::Table(entries))
            } else {
                None
            },
            None => None,
        }
    } else {
        match parse_scalar_token(t) {
            Some(sc) => Some(ValueV::One(sc)),
            None => None,
        }
    }
}

/// No two fields share a key.
pub open spec fn keys_distinct(fs: Seq<(Seq<char>, ValueV)>) -> bool {
    forall|i: int, j: int| 0 <= i < j < fs.len() ==> (#[trigger] fs[i]).0 != (#[trigger] fs[j]).0
}

/// Decodes a whole brace-delimited object, as the inline-object strategy
/// hands it over: nothing but whitespace may follow the closing brace, and
/// keys must be distinct.
pub open spec fn parse_flow_mapping(t: Seq<char>) -> Option<Seq<(Seq<char>, ValueV)>> {
    if t.len() == 0 || t[0] != '{' {
        None
    } else {
        match ft_top_scan(t, 1) {
            Some((fs, j)) => if ws_end(t, j) == t.len() && keys_distinct(fs) {
                Some(fs)
            } else {
                None
            },
            None => None,
        }
    }
}

/// A line holding only whitespace.
pub open spec fn line_blank(l: Seq<char>) -> bool {
    spec_trim(l).len() == 0
}

/// A line opening a list item: `- ` at the start.
pub open spec fn dash_start(l: Seq<char>) -> bool {
    l.len() >= 2 && l[0] == '-' && l[1] == ' '
}

/// A line continuing a nested mapping: two spaces at the start.
pub open spec fn indent_start(l: Seq<char>) -> bool {
    l.len() >= 2 && l[0] == ' ' && l[1] == ' '
}

/// Collects consecutive `- item` lines from `j` on. Returns the items and
/// the index of the first line that is no item.
pub open spec fn collect_items(lines: Seq<Seq<char>>, j: int) -> Option<(Seq<ScalarV>, int)>
    decreases lines.len() - j,
{
    if j < 0 || j >= lines.len() || !dash_start(lines[j]) {
        Some((Seq::empty(), j))
    } else {
        match parse_scalar_token(spec_trim(lines[j].skip(2))) {
            None => None,
            Some(sc) => match collect_items(lines, j + 1) {
                Some((r, nx)) => Some((seq![sc] + r, nx)),
                None => None,
            },
        }
    }
}

/// Collects consecutive two-space-indented `key: value` lines from `j` on.
pub open spec fn collect_subs(lines: Seq<Seq<char>>, j: int) -> Option<
    (Seq<(Seq<char>, ScalarV)>, int),
>
    decreases lines.len() - j,
{
    if j < 0 || j >= lines.len() || !indent_start(lines[j]) || line_blank(lines[j]) {
        Some((Seq::empty(), j))
    } else {
        let sub = lines[j].skip(2);
        if sub.len() == 0 || is_ws(sub[0]) {
            None
        } else {
            let c = colon_scan(sub, 0);
            if c >= sub.len() {
                None
            } else {
                let key = spec_trim(sub.take(c));
                let vt = spec_trim(sub.skip(c + 1));
                if key.len() == 0 || vt.len() == 0 {
                    None
                } else {
                    match parse_scalar_token(vt) {
                        None => None,
                        Some(sc) => match collect_subs(lines, j + 1) {
                            Some((r, nx)) => Some((seq![(key, sc)] + r, nx)),
                            None => None,
                        },
                    }
                }
            }
        }
    }
}

/// Decodes the block mapping held in `lines`, from line `i` on.
pub open spec fn parse_block_fields(lines: Seq<Seq<char>>, i: int) -> Option<
    Seq<(Seq<char>, ValueV)>,
>
    decreases lines.len() - i,
{
    if i < 0 {
        None
    } else if i >= lines.len() {
        Some(Seq::empty())
    } else if line_blank(lines[i]) {
        parse_block_fields(lines, i + 1)
    } else if dash_start(lines[i]) || indent_start(lines[i]) {
        None
    } else {
        let l = lines[i];
        let c = colon_scan(l, 0);
        if c >= l.len() {
            None
        } else {
            let key = spec_trim(l.take(c));
            if key.len() == 0 {
                None
            } else {
                let vt = spec_trim(l.skip(c + 1));
                if vt.len() > 0 {
                    match parse_value_token(vt) {
                        None => None,
                        Some(v) => match parse_block_fields(lines, i + 1) {
                            Some(r) => Some(seq![(key, v)] + r),
                            None => None,
                        },
                    }
                } else if i + 1 < lines.len() && dash_start(lines[i + 1]) {
                    match collect_items(lines, i + 1) {
                        None => None,
                        Some((items, nx)) => if nx <= i || nx > lines.len() {
                            None
                        } else {
                            match parse_block_fields(lines, nx) {
                                Some(r) => Some(seq![(key, ValueV::Items(items))] + r),
                                None => None,
                            }
                        },
                    }
                } else if i + 1 < lines.len() && indent_start(lines[i + 1]) && !line_blank(
                    lines[i + 1],
                ) {
                    match collect_subs(lines, i + 1) {
                        None => None,
                        Some((subs, nx)) => if nx <= i || nx > lines.len() {
                            None
                        } else {
                            match parse_block_fields(lines, nx) {
                                Some(r) => Some(seq![(key, ValueV::Table(subs))] + r),
                                None => None,
                            }
                        },
                    }
                } else {
                    match parse_block_fields(lines, i + 1) {
                        Some(r) => Some(seq![(key, ValueV::One(ScalarV::Null))] + r),
                        None => None,
                    }
                }
            }
        }
    }
}

/// The lines of `s`, split at every newline character.
pub open spec fn spec_lines(s: Seq<char>) -> Seq<Seq<char>>
    decreases s.len(),
{
    if s.len() == 0 {
        seq![Seq::<char>::empty()]
    } else if s[0] == '\n' {
        seq![Seq::<char>::empty()] + spec_lines(s.drop_first())
    } else {
        let r = spec_lines(s.drop_first());
        seq![seq![s[0]] + r[0]] + r.skip(1)
    }
}

pub proof fn lemma_spec_lines_nonempty(s: Seq<char>)
    ensures
        spec_lines(s).len() >= 1,
    decreases s.len(),
{
    if s.len() > 0 {
        lemma_spec_lines_nonempty(s.drop_first());
    }
}

/// Splitting `a + "\n" + b` yields the line `a` followed by the lines of
/// `b`, provided `a` holds no newline.
pub proof fn lemma_lines_concat(a: Seq<char>, b: Seq<char>)
    requires
        forall|i: int| 0 <= i < a.len() ==> #[trigger] a[i] != '\n',
    ensures
        spec_lines(a + seq!['\n'] + b) == seq![a] + spec_lines(b),
    decreases a.len(),
{
    let s = a + seq!['\n'] + b;
    if a.len() == 0 {
        assert(s[0] == '\n');
        assert(s.drop_first() =~= b);
        assert(seq![Seq::<char>::empty()] + spec_lines(b) =~~= seq![a] + spec_lines(b));
    } else {
        assert(s[0] == a[0]);
        assert(s[0] != '\n');
        let a2 = a.drop_first();
        assert(s.drop_first() =~= a2 + seq!['\n'] + b);
        lemma_lines_concat(a2, b);
        let r = spec_lines(s.drop_first());
        assert(r == seq![a2] + spec_lines(b));
        assert(r[0] == a2);
        assert(seq![s[0]] + r[0] =~= a);
        assert(r.skip(1) =~= spec_lines(b));
        assert(spec_lines(s) =~= seq![a] + spec_lines(b));
    }
}

/// The canonical flow encoding of a list's items and closing bracket.
pub open spec fn enc_items_tail(items: Seq<ScalarV>) -> Seq<char>
    decreases items.len(),
{
    if items.len() == 0 {
        seq![']']
    } else if items.len() == 1 {
        enc_scalar(items[0]) + seq![']']
    } else {
        enc_scalar(items[0]) + seq![',', ' '] + enc_items_tail(items.drop_first())
    }
}

pub open spec fn enc_list(items: Seq<ScalarV>) -> Seq<char> {
    seq!['['] + enc_items_tail(items)
}

/// The canonical flow encoding of a nested mapping's entries and closing
/// brace.
pub open spec fn enc_table_tail(entries: Seq<(Seq<char>, ScalarV)>) -> Seq<char>
    decreases entries.len(),
{
    if entries.len() == 0 {
        seq!['}']
    } else if entries.len() == 1 {
        entries[0].0 + seq![':', ' '] + enc_scalar(entries[0].1) + seq!['}']
    } else {
        entries[0].0 + seq![':', ' '] + enc_scalar(entries[0].1) + seq![',', ' ']
            + enc_table_tail(entries.drop_first())
    }
}

pub open spec fn enc_table(entries: Seq<(Seq<char>, ScalarV)>) -> Seq<char> {
    seq!['{'] + enc_table_tail(entries)
}

/// The canonical encoding of one field value.
pub open spec fn enc_value(v: ValueV) -> Seq<char> {
    match v {
        ValueV::One(sc) => enc_scalar(sc),
        ValueV::Items(items) => enc_list(items),
        ValueV::Table(entries) => enc_table(entries),
    }
}

/// The canonical line for one field.
pub open spec fn enc_field_line(k: Seq<char>, v: ValueV) -> Seq<char> {
    k + seq![':', ' '] + enc_value(v)
}

/// The canonical encoding of a whole mapping: one line per field, each
/// ended by a newline.
pub open spec fn enc_fields(fs: Seq<(Seq<char>, ValueV)>) -> Seq<char>
    decreases fs.len(),
{
    if fs.len() == 0 {
        Seq::empty()
    } else {
        enc_field_line(fs[0].0, fs[0].1) + seq!['\n'] + enc_fields(fs.drop_first())
    }
}

} // verus!
