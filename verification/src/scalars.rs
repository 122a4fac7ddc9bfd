//! Encoding and decoding of scalar frontmatter values. The canonical encoder
//! double-quotes every text value; the decoder additionally accepts
//! single-quoted and plain scalars, booleans, `null` and decimal numbers.

use vstd::prelude::*;

use crate::model::ScalarV;
use crate::model::Scalar;
use crate::text::trim_stable;

verus! {

pub open spec fn lit_true() -> Seq<char> {
    seq!['t', 'r', 'u', 'e']
}

pub open spec fn lit_false() -> Seq<char> {
    seq!['f', 'a', 'l', 's', 'e']
}

pub open spec fn lit_null() -> Seq<char> {
    seq!['n', 'u', 'l', 'l']
}

pub open spec fn is_digit(c: char) -> bool {
    '0' <= c && c <= '9'
}

/// First index at or after `i` whose character is not a decimal digit.
pub open spec fn scan_digits(s: Seq<char>, i: int) -> int
    decreases s.len() - i,
{
    if i < 0 || i >= s.len() {
        s.len() as int
    } else if is_digit(s[i]) {
        scan_digits(s, i + 1)
    } else {
        i
    }
}

pub proof fn lemma_scan_digits_props(s: Seq<char>, i: int)
    requires
        0 <= i <= s.len(),
    ensures
        i <= scan_digits(s, i) <= s.len(),
        forall|j: int| i <= j < scan_digits(s, i) ==> is_digit(#[trigger] s[j]),
        scan_digits(s, i) < s.len() ==> !is_digit(s[scan_digits(s, i)]),
    decreases s.len() - i,
{
    if i < s.len() && is_digit(s[i]) {
        lemma_scan_digits_props(s, i + 1);
    }
}

/// Whether `s` is a decimal number literal: an optional minus sign, digits,
/// and optionally a dot followed by more digits.
pub open spec fn is_num_text(s: Seq<char>) -> bool {
    let st: int = if s.len() > 0 && s[0] == '-' {
        1
    } else {
        0
    };
    let d1 = scan_digits(s, st);
    &&& s.len() > 0
    &&& d1 > st
    &&& (d1 == s.len() || (s[d1] == '.' && scan_digits(s, d1 + 1) > d1 + 1 && scan_digits(
        s,
        d1 + 1,
    ) == s.len()))
}

/// Every character of a number literal is a digit, `-` or `.`, and `-` only
/// stands first.
pub proof fn lemma_num_chars(s: Seq<char>)
    requires
        is_num_text(s),
    ensures
        is_digit(s[0]) || s[0] == '-',
        forall|j: int| 0 < j < s.len() ==> is_digit(#[trigger] s[j]) || s[j] == '.',
        s.len() > 0,
        is_digit(s.last()),
{
    let st: int = if s[0] == '-' {
        1
    } else {
        0
    };
    let d1 = scan_digits(s, st);
    lemma_scan_digits_props(s, st);
    if d1 < s.len() {
        lemma_scan_digits_props(s, d1 + 1);
    }
}

pub proof fn lemma_num_trim_stable(s: Seq<char>)
    requires
        is_num_text(s),
    ensures
        trim_stable(s),
{
    lemma_num_chars(s);
}

/// Canonical escape of one character inside a double-quoted scalar.
pub open spec fn esc1(c: char) -> Seq<char> {
    if c == '"' {
        seq!['\\', '"']
    } else if c == '\\' {
        seq!['\\', '\\']
    } else if c == '\n' {
        seq!['\\', 'n']
    } else if c == '\r' {
        seq!['\\', 'r']
    } else {
        seq![c]
    }
}

/// Canonical escape of a text value's characters.
pub open spec fn esc(s: Seq<char>) -> Seq<char>
    decreases s.len(),
{
    if s.len() == 0 {
        Seq::empty()
    } else {
        esc1(s[0]) + esc(s.drop_first())
    }
}

pub proof fn lemma_esc_push(s: Seq<char>, c: char)
    ensures
        esc(s.push(c)) == esc(s) + esc1(c),
    decreases s.len(),
{
    if s.len() == 0 {
        assert(s.push(c)[0] == c);
        assert(s.push(c).drop_first() =~= Seq::<char>::empty());
        assert(esc(s.push(c)) == esc1(c) + esc(Seq::<char>::empty()));
        assert(esc1(c) + Seq::<char>::empty() =~= esc1(c));
        assert(esc(s) + esc1(c) =~= esc1(c));
    } else {
        assert(s.push(c).drop_first() =~= s.drop_first().push(c));
        lemma_esc_push(s.drop_first(), c);
        assert(esc(s.push(c)) =~= esc(s) + esc1(c));
    }
}

/// What a backslash escape decodes to.
pub open spec fn unesc1(c: char) -> Option<char> {
    if c == '"' {
        Some('"')
    } else if c == '\\' {
        Some('\\')
    } else if c == 'n' {
        Some('\n')
    } else if c == 'r' {
        Some('\r')
    } else if c == 't' {
        Some('\t')
    } else {
        None
    }
}

/// Scans a double-quoted string in `s` from index `i` (just past the
/// opening quote): returns the decoded content and the index just past the
/// closing quote.
pub open spec fn dq_scan(s: Seq<char>, i: int) -> Option<(Seq<char>, int)>
    decreases s.len() - i,
{
    if i < 0 || i >= s.len() {
        None
    } else if s[i] == '"' {
        Some((Seq::empty(), i + 1))
    } else if s[i] == '\\' {
        if i + 1 >= s.len() {
            None
        } else {
            match unesc1(s[i + 1]) {
                Some(u) => match dq_scan(s, i + 2) {
                    Some((r, j)) => Some((seq![u] + r, j)),
                    None => None,
                },
                None => None,
            }
        }
    } else {
        match dq_scan(s, i + 1) {
            Some((r, j)) => Some((seq![s[i]] + r, j)),
            None => None,
        }
    }
}

/// Scans a single-quoted string in `s` from index `i` (just past the opening
/// quote), with `''` standing for one quote.
pub open spec fn sq_scan(s: Seq<char>, i: int) -> Option<(Seq<char>, int)>
    decreases s.len() - i,
{
    if i < 0 || i >= s.len() {
        None
    } else if s[i] == '\'' {
        if i + 1 < s.len() && s[i + 1] == '\'' {
            match sq_scan(s, i + 2) {
                Some((r, j)) => Some((seq!['\''] + r, j)),
                None => None,
            }
        } else {
            Some((Seq::empty(), i + 1))
        }
    } else {
        match sq_scan(s, i + 1) {
            Some((r, j)) => Some((seq![s[i]] + r, j)),
            None => None,
        }
    }
}

/// A quote scan never stands still and never leaves the sequence.
pub proof fn lemma_dq_scan_bounds(s: Seq<char>, i: int)
    ensures
        dq_scan(s, i) matches Some(p) ==> i < p.1 <= s.len(),
    decreases s.len() - i,
{
    if 0 <= i < s.len() {
        lemma_dq_scan_bounds(s, i + 1);
        if i + 2 <= s.len() {
            lemma_dq_scan_bounds(s, i + 2);
        }
    }
}

pub proof fn lemma_sq_scan_bounds(s: Seq<char>, i: int)
    ensures
        sq_scan(s, i) matches Some(p) ==> i < p.1 <= s.len(),
    decreases s.len() - i,
{
    if 0 <= i < s.len() {
        lemma_sq_scan_bounds(s, i + 1);
        if i + 2 <= s.len() {
            lemma_sq_scan_bounds(s, i + 2);
        }
    }
}

/// Scanning the canonical escape of `t` followed by a closing quote yields
/// `t` and stops just past that quote.
pub proof fn lemma_dq_scan_esc(s: Seq<char>, i: int, t: Seq<char>)
    requires
        0 <= i,
        i + esc(t).len() + 1 <= s.len(),
        s.subrange(i, i + esc(t).len() + 1) == esc(t) + seq!['"'],
    ensures
        dq_scan(s, i) == Some((t, i + esc(t).len() + 1)),
    decreases t.len(),
{
    let e = esc(t) + seq!['"'];
    if t.len() == 0 {
        assert(s[i] == e[0]);
    } else {
        let c = t[0];
        let t2 = t.drop_first();
        assert(esc(t) == esc1(c) + esc(t2));
        let e2 = esc(t2) + seq!['"'];
        if c == '"' || c == '\\' || c == '\n' || c == '\r' {
            assert(s[i] == e[0]);
            assert(s[i + 1] == e[1]);
            assert(s[i] == '\\');
            assert(unesc1(s[i + 1]) == Some(c));
            assert(s.subrange(i + 2, i + 2 + esc(t2).len() + 1) =~= e2) by {
                assert forall|k: int| 0 <= k < esc(t2).len() + 1 implies s.subrange(
                    i + 2,
                    i + 2 + esc(t2).len() + 1,
                )[k] == e2[k] by {
                    assert(s.subrange(i + 2, i + 2 + esc(t2).len() + 1)[k] == s[i + 2 + k]);
                    assert(s[i + 2 + k] == e[k + 2]);
                    assert(e[k + 2] == e2[k]);
                }
            }
            lemma_dq_scan_esc(s, i + 2, t2);
            assert(seq![c] + t2 =~= t);
        } else {
            assert(s[i] == e[0]);
            assert(s[i] == c);
            assert(s.subrange(i + 1, i + 1 + esc(t2).len() + 1) =~= e2) by {
                assert forall|k: int| 0 <= k < esc(t2).len() + 1 implies s.subrange(
                    i + 1,
                    i + 1 + esc(t2).len() + 1,
                )[k] == e2[k] by {
                    assert(s.subrange(i + 1, i + 1 + esc(t2).len() + 1)[k] == s[i + 1 + k]);
                    assert(s[i + 1 + k] == e[k + 1]);
                    assert(e[k + 1] == e2[k]);
                }
            }
            lemma_dq_scan_esc(s, i + 1, t2);
            assert(seq![c] + t2 =~= t);
        }
    }
}

/// The canonical encoding of a scalar.
pub open spec fn enc_scalar(v: ScalarV) -> Seq<char> {
    match v {
        ScalarV::Text(t) => seq!['"'] + esc(t) + seq!['"'],
        ScalarV::Flag(b) => if b {
            lit_true()
        } else {
            lit_false()
        },
        ScalarV::Num(n) => n,
        ScalarV::Null => lit_null(),
    }
}

/// A scalar the canonical encoder may be applied to: numbers carry a valid
/// literal.
pub open spec fn scalar_wf(v: ScalarV) -> bool {
    match v {
        ScalarV::Num(n) => is_num_text(n),
        _ => true,
    }
}

/// Decodes one scalar token. The token must already be trimmed.
pub open spec fn parse_scalar_token(t: Seq<char>) -> Option<ScalarV> {
    if t.len() == 0 {
        None
    } else if t[0] == '"' {
        match dq_scan(t, 1) {
            Some((x, j)) => if j == t.len() {
                Some(ScalarV::Text(x))
            } else {
                None
            },
            None => None,
        }
    } else if t[0] == '\'' {
        match sq_scan(t, 1) {
            Some((x, j)) => if j == t.len() {
                Some(ScalarV::Text(x))
            } else {
                None
            },
            None => None,
        }
    } else if t[0] == '[' || t[0] == '{' {
        None
    } else if t == lit_true() {
        Some(ScalarV::Flag(true))
    } else if t == lit_false() {
        Some(ScalarV::Flag(false))
    } else if t == lit_null() || t == seq!['~'] {
        Some(ScalarV::Null)
    } else if is_num_text(t) {
        Some(ScalarV::Num(t))
    } else {
        Some(ScalarV::Text(t))
    }
}

/// The canonical scalar encoding contains no `---` and never begins or ends
/// with whitespace.
pub proof fn lemma_enc_scalar_shape(v: ScalarV)
    requires
        scalar_wf(v),
    ensures
        enc_scalar(v).len() > 0,
        trim_stable(enc_scalar(v)),
{
    match v {
        ScalarV::Num(n) => {
            lemma_num_trim_stable(n);
        },
        _ => {},
    }
}

/// Decoding the canonical encoding of a scalar yields the scalar again.
pub proof fn lemma_scalar_roundtrip(v: ScalarV)
    requires
        scalar_wf(v),
    ensures
        parse_scalar_token(enc_scalar(v)) == Some(v),
{
    match v {
        ScalarV::Text(t) => {
            let e = enc_scalar(v);
            assert(e[0] == '"');
            assert(e.subrange(1, 1 + esc(t).len() as int + 1) =~= esc(t) + seq!['"']);
            lemma_dq_scan_esc(e, 1, t);
        },
        ScalarV::Flag(b) => {
        },
        ScalarV::Num(n) => {
            lemma_num_chars(n);
            assert(n != lit_true() && n != lit_false() && n != lit_null() && n != seq!['~']) by {
                if n == lit_true() {
                    assert(n[0] == 't');
                }
                if n == lit_false() {
                    assert(n[0] == 'f');
                }
                if n == lit_null() {
                    assert(n[0] == 'n');
                }
                if n == seq!['~'] {
                    assert(n[0] == '~');
                }
            }
        },
        ScalarV::Null => {
        },
    }
}

/// Appends the canonical escape of `t` to `out`.
pub fn push_escaped(out: &mut Vec<char>, t: &Vec<char>)
    ensures
        final(out)@ == old(out)@ + esc(t@),
{
    let ghost start = out@;
    let mut i: usize = 0;
    proof {
        assert(t@.take(0) =~= Seq::<char>::empty());
        assert(start + esc(t@.take(0)) =~= start);
    }
    while i < t.len()
        invariant
            i <= t@.len(),
            out@ == start + esc(t@.take(i as int)),
        decreases t@.len() - i,
    {
        let c = t[i];
        if c == '"' {
            out.push('\\');
            out.push('"');
        } else if c == '\\' {
            out.push('\\');
            out.push('\\');
        } else if c == '\n' {
            out.push('\\');
            out.push('n');
        } else if c == '\r' {
            out.push('\\');
            out.push('r');
        } else {
            out.push(c);
        }
        proof {
            lemma_esc_push(t@.take(i as int), c);
            assert(t@.take(i + 1 as int) =~= t@.take(i as int).push(c));
            assert(out@ =~= start + esc(t@.take(i + 1 as int)));
        }
        i = i + 1;
    }
    proof {
        assert(t@.take(t@.len() as int) =~= t@);
    }
}

/// Appends the canonical encoding of `s` to `out`.
pub fn push_scalar(out: &mut Vec<char>, s: &Scalar)
    ensures
        final(out)@ == old(out)@ + enc_scalar(s@),
{
    let ghost start = out@;
    match s {
        Scalar::Text(t) => {
            let tc = crate::text::chars_of(t.as_str());
            out.push('"');
            push_escaped(out, &tc);
            out.push('"');
            proof {
                assert(out@ =~= start + enc_scalar(s@));
            }
        },
        Scalar::Flag(b) => {
            if *b {
                out.push('t');
                out.push('r');
                out.push('u');
                out.push('e');
            } else {
                out.push('f');
                out.push('a');
                out.push('l');
                out.push('s');
                out.push('e');
            }
            proof {
                assert(out@ =~= start + enc_scalar(s@));
            }
        },
        Scalar::Num(n) => {
            let nc = crate::text::chars_of(n.as_str());
            let mut i: usize = 0;
            while i < nc.len()
                invariant
                    i <= nc@.len(),
                    out@ == start + nc@.take(i as int),
                decreases nc@.len() - i,
            {
                out.push(nc[i]);
                proof {
                    assert(nc@.take(i + 1 as int) =~= nc@.take(i as int).push(nc@[i as int]));
                }
                i = i + 1;
            }
            proof {
                assert(nc@.take(nc@.len() as int) =~= nc@);
            }
        },
        Scalar::Null => {
            out.push('n');
            out.push('u');
            out.push('l');
            out.push('l');
            proof {
                assert(out@ =~= start + enc_scalar(s@));
            }
        },
    }
}

} // verus!
