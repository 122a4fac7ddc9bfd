//! The document level: the ordered strategy chain that recognizes
//! frontmatter, the canonical serializer, and the laws tying the two
//! together.

use vstd::prelude::*;

use crate::binding::bind_fields;
use crate::binding::fm_ok;
use crate::binding::lemma_bind_unbind;
use crate::binding::lemma_unbind_fields_ok;
use crate::binding::unbind_fields;
use crate::mapping::enc_fields;
use crate::mapping::keys_distinct;
use crate::mapping::line_blank;
use crate::mapping::parse_block_fields;
use crate::mapping::parse_flow_mapping;
use crate::mapping::spec_lines;
use crate::mapping::ws_end;
use crate::model::DocV;
use crate::model::FmV;
use crate::model::ValueV;
use crate::model::spec_default_fm;
use crate::roundtrip::field_lines;
use crate::roundtrip::lemma_enc_fields_ntd;
use crate::roundtrip::lemma_lines_enc_fields;
use crate::roundtrip::lemma_pbf_enc;
use crate::text::find_from;
use crate::text::is_ws;
use crate::text::lemma_find_from_exact;
use crate::text::lemma_trim_skip_ws;
use crate::text::lemma_trim_stable;
use crate::text::match_at;
use crate::text::spec_trim;
use crate::text::trim_front;
use crate::text::trim_stable;
use crate::tomlish::parse_toml_fields;

verus! {

pub open spec fn dashes3() -> Seq<char> {
    seq!['-', '-', '-']
}

pub open spec fn plus3() -> Seq<char> {
    seq!['+', '+', '+']
}

pub open spec fn nl_dashes() -> Seq<char> {
    seq!['\n', '-', '-', '-']
}

/// Whether `pat` occurs anywhere in `s`.
pub open spec fn contains_spec(s: Seq<char>, pat: Seq<char>) -> bool {
    find_from(s, pat, 0) is Some
}

/// Splits `raw` at the first occurrence of its three-character marker after
/// the opening one: the middle part and the remainder.
pub open spec fn split3(raw: Seq<char>, m: Seq<char>) -> Option<(Seq<char>, Seq<char>)> {
    match find_from(raw, m, 3) {
        Some(p) => Some((raw.subrange(3, p), raw.skip(p + 3))),
        None => None,
    }
}

/// Decodes a block-mapping text and binds it, refusing duplicate keys.
pub open spec fn decode_block_text(txt: Seq<char>) -> Option<FmV> {
    match parse_block_fields(spec_lines(txt), 0) {
        Some(fs) => if keys_distinct(fs) {
            bind_fields(fs)
        } else {
            None
        },
        None => None,
    }
}

/// Decodes an alternate-syntax mapping text and binds it.
pub open spec fn decode_toml_text(txt: Seq<char>) -> Option<FmV> {
    match parse_toml_fields(spec_lines(txt), 0) {
        Some(fs) => if keys_distinct(fs) {
            bind_fields(fs)
        } else {
            None
        },
        None => None,
    }
}

/// The primary block-delimited strategy: `---`, a block mapping, `---`,
/// the body.
pub open spec fn s1_doc(raw: Seq<char>) -> Option<DocV> {
    if match_at(raw, dashes3(), 0) {
        match split3(raw, dashes3()) {
            Some((mid, rest)) => match decode_block_text(mid) {
                Some(fm) => Some(DocV { frontmatter: fm, content: spec_trim(rest) }),
                None => None,
            },
            None => None,
        }
    } else {
        None
    }
}

/// The alternate block-delimited strategy: `+++` markers around an
/// alternate-syntax mapping.
pub open spec fn s2_doc(raw: Seq<char>) -> Option<DocV> {
    if match_at(raw, plus3(), 0) {
        match split3(raw, plus3()) {
            Some((mid, rest)) => match decode_toml_text(spec_trim(mid)) {
                Some(fm) => Some(DocV { frontmatter: fm, content: spec_trim(rest) }),
                None => None,
            },
            None => None,
        }
    } else {
        None
    }
}

/// Index of the brace closing the first `{`, counting nesting depth over
/// the raw character stream.
pub open spec fn brace_end(raw: Seq<char>, i: int, depth: int) -> Option<int>
    decreases raw.len() - i,
{
    if i < 0 || i >= raw.len() {
        None
    } else if raw[i] == '{' {
        brace_end(raw, i + 1, depth + 1)
    } else if raw[i] == '}' && depth > 0 {
        if depth == 1 {
            Some(i)
        } else {
            brace_end(raw, i + 1, depth - 1)
        }
    } else {
        brace_end(raw, i + 1, depth)
    }
}

/// The inline-object strategy's structural precondition: the text begins,
/// after leading whitespace, with `{`.
pub open spec fn inline_applies(raw: Seq<char>) -> bool {
    trim_front(raw).len() > 0 && trim_front(raw)[0] == '{'
}

/// The inline-object strategy: a brace-delimited object, then the body.
pub open spec fn s3_doc(raw: Seq<char>) -> Option<DocV> {
    if inline_applies(raw) {
        match brace_end(raw, 0, 0) {
            Some(e) => match parse_flow_mapping(spec_trim(raw.take(e + 1))) {
                Some(fs) => match bind_fields(fs) {
                    Some(fm) => Some(
                        DocV { frontmatter: fm, content: spec_trim(raw.skip(e + 1)) },
                    ),
                    None => None,
                },
                None => None,
            },
            None => None,
        }
    } else {
        None
    }
}

/// The headerless strategy: a mapping before the first `\n---`, gated on
/// the text naming a title or date field.
pub open spec fn s4_doc(raw: Seq<char>) -> Option<DocV> {
    match find_from(raw, nl_dashes(), 0) {
        Some(p) => {
            let cand = spec_trim(raw.take(p));
            if contains_spec(cand, "title:"@) || contains_spec(cand, "date:"@) {
                match decode_block_text(cand) {
                    Some(fm) => Some(
                        DocV {
                            frontmatter: fm,
                            content: if p + 4 < raw.len() {
                                spec_trim(raw.skip(p + 4))
                            } else {
                                Seq::empty()
                            },
                        },
                    ),
                    None => None,
                }
            } else {
                None
            }
        },
        None => None,
    }
}

/// The synthetic default document: default frontmatter over the whole
/// input.
pub open spec fn default_doc(raw: Seq<char>) -> DocV {
    DocV { frontmatter: spec_default_fm(), content: raw }
}

/// The ordered strategy chain: the first strategy whose precondition
/// matches and whose payload decodes wins; otherwise the default is
/// synthesized and flagged.
pub open spec fn parse_spec(raw: Seq<char>) -> (DocV, bool) {
    if s1_doc(raw) is Some {
        (s1_doc(raw).unwrap(), false)
    } else if s2_doc(raw) is Some {
        (s2_doc(raw).unwrap(), false)
    } else if s3_doc(raw) is Some {
        (s3_doc(raw).unwrap(), false)
    } else if s4_doc(raw) is Some {
        (s4_doc(raw).unwrap(), false)
    } else {
        (default_doc(raw), true)
    }
}

/// The canonical serialized form: marker, mapping, marker, blank line,
/// body.
pub open spec fn serialize_spec(d: DocV) -> Seq<char> {
    seq!['-', '-', '-', '\n'] + enc_fields(unbind_fields(d.frontmatter)) + seq![
        '-',
        '-',
        '-',
        '\n',
        '\n',
    ] + d.content
}

/// A document the round trip holds for: well-formed frontmatter and an
/// already-trimmed body. Well-formedness asks what every successfully
/// parsed block document satisfies: unique open-bag keys outside the fixed
/// schema, keys that can stand before a colon on one line, and no text
/// holding a literal triple dash, which the marker split could not survive.
pub open spec fn doc_ok(d: DocV) -> bool {
    fm_ok(d.frontmatter) && trim_stable(d.content)
}

/// Strategy precedence: input that begins with the primary marker and
/// decodes under the primary strategy is decoded by it, and the
/// inline-object strategy can never even apply to such input.
pub proof fn lemma_primary_precedence(raw: Seq<char>)
    requires
        match_at(raw, dashes3(), 0),
    ensures
        !inline_applies(raw),
        s1_doc(raw) is Some ==> parse_spec(raw) == (s1_doc(raw).unwrap(), false),
{
    assert(raw[0] == '-') by {
        assert(raw.subrange(0, 3)[0] == raw[0]);
    }
    crate::text::lemma_trim_front_stable(raw);
    assert(trim_front(raw)[0] == '-');
}

/// The round-trip law: re-parsing the canonical serialization of a
/// well-formed document yields the document again, field for field, with
/// the primary strategy recognizing it and no default synthesized. Taken
/// together with the parser's contract, a text that parses without the
/// default applying re-parses to the same document after serialization,
/// as long as the document is well formed; a document whose open-bag keys
/// or texts hold a triple dash (reachable only through the inline-object
/// strategy) falls outside the law, as it does in the encoding itself.
#[verifier::rlimit(100)]
pub proof fn lemma_parse_serialize_roundtrip(d: DocV)
    requires
        doc_ok(d),
    ensures
        parse_spec(serialize_spec(d)) == (d, false),
{
    let fm = d.frontmatter;
    let fs = unbind_fields(fm);
    let ef = enc_fields(fs);
    let body = d.content;
    let raw = serialize_spec(d);
    let m: Seq<char> = seq!['-', '-', '-', '\n'];
    let n: Seq<char> = seq!['-', '-', '-', '\n', '\n'];
    lemma_unbind_fields_ok(fm);
    lemma_enc_fields_ntd(fs);
    assert(fs.len() >= 4) by {
        assert(fs.len() == crate::binding::unbind_head(fm).len() + crate::binding::unbind_opts(
            fm,
        ).len() + fm.custom_fields.len());
    }
    assert(ef.len() > 0);
    assert(raw == m + ef + n + body);
    let p = 4 + ef.len() as int;
    assert forall|j: int| 0 <= j < ef.len() implies raw[4 + j] == ef[j] by {
        assert(raw[4 + j] == ((m + ef) + n + body)[4 + j]);
        assert((m + ef)[4 + j] == ef[j]);
    }
    assert forall|j: int| 0 <= j < 5 implies raw[p + j] == n[j] by {
        assert(raw[p + j] == ((m + ef + n) + body)[p + j]);
        assert((m + ef + n)[p + j] == n[j]);
    }
    assert forall|j: int| 0 <= j < body.len() implies raw[p + 5 + j] == body[j] by {
        assert(raw[p + 5 + j] == (m + ef + n + body)[p + 5 + j]);
    }
    assert(raw[0] == '-' && raw[1] == '-' && raw[2] == '-' && raw[3] == '\n') by {
        assert(raw[0] == ((m + ef) + n + body)[0]);
        assert(raw[1] == ((m + ef) + n + body)[1]);
        assert(raw[2] == ((m + ef) + n + body)[2]);
        assert(raw[3] == ((m + ef) + n + body)[3]);
        assert((m + ef)[0] == m[0] && (m + ef)[1] == m[1] && (m + ef)[2] == m[2] && (m + ef)[3]
            == m[3]);
    }

    // The opening marker matches.
    assert(match_at(raw, dashes3(), 0)) by {
        assert(raw.subrange(0, 3) =~= dashes3());
    }

    // The second marker stands exactly at the end of the mapping.
    assert(match_at(raw, dashes3(), p)) by {
        assert(raw.subrange(p, p + 3) =~= dashes3());
    }
    assert forall|k: int| 3 <= k < p implies !match_at(raw, dashes3(), k) by {
        if k + 3 <= raw.len() {
            if k == 3 {
                assert(raw[3] == '\n');
                if match_at(raw, dashes3(), 3) {
                    assert(raw.subrange(3, 6)[0] == raw[3]);
                }
            } else if k + 3 <= 4 + ef.len() {
                if match_at(raw, dashes3(), k) {
                    assert(raw.subrange(k, k + 3)[0] == raw[k]);
                    assert(raw.subrange(k, k + 3)[1] == raw[k + 1]);
                    assert(raw.subrange(k, k + 3)[2] == raw[k + 2]);
                    assert(ef[k - 4] == '-' && ef[k - 3] == '-' && ef[k - 2] == '-');
                }
            } else {
                // A window overlapping the mapping's end covers its final
                // newline.
                assert(raw[p - 1] == ef[ef.len() - 1]);
                assert(ef[ef.len() - 1] == '\n');
                if match_at(raw, dashes3(), k) {
                    assert(raw.subrange(k, k + 3)[p - 1 - k] == raw[p - 1]);
                }
            }
        }
    }
    lemma_find_from_exact(raw, dashes3(), 3, p);

    let mid = raw.subrange(3, p);
    let rest = raw.skip(p + 3);
    assert(mid =~= seq!['\n'] + ef) by {
        assert forall|j: int| 0 <= j < mid.len() implies mid[j] == (seq!['\n'] + ef)[j] by {
            assert(mid[j] == raw[3 + j]);
            if j > 0 {
                assert(raw[4 + (j - 1)] == ef[j - 1]);
            }
        }
    }
    assert(rest =~= seq!['\n', '\n'] + body) by {
        assert forall|j: int| 0 <= j < rest.len() implies rest[j] == (seq!['\n', '\n'] + body)[j] by {
            assert(rest[j] == raw[p + 3 + j]);
            if j < 2 {
                assert(raw[p + (3 + j)] == n[3 + j]);
            } else {
                assert(raw[p + 5 + (j - 2)] == body[j - 2]);
            }
        }
    }

    // The mapping decodes back to the laid-out fields, which bind back to
    // the frontmatter.
    lemma_lines_enc_fields(fs);
    let ls = spec_lines(mid);
    assert(ls == seq![Seq::<char>::empty()] + (field_lines(fs) + seq![Seq::<char>::empty()])) by {
        assert(mid[0] == '\n');
        assert(mid.drop_first() =~= ef);
    }
    assert(line_blank(Seq::<char>::empty()));
    assert(ls[0] == Seq::<char>::empty()) by {
        assert(ls[0] == (seq![Seq::<char>::empty()] + (field_lines(fs) + seq![
            Seq::<char>::empty(),
        ]))[0]);
    }
    assert(parse_block_fields(ls, 0) == parse_block_fields(ls, 1));
    assert(ls.subrange(1, 1 + fs.len() as int) =~= field_lines(fs)) by {
        assert forall|k: int| 0 <= k < fs.len() implies ls.subrange(1, 1 + fs.len() as int)[k]
            == field_lines(fs)[k] by {
            assert(ls.subrange(1, 1 + fs.len() as int)[k] == ls[1 + k]);
            assert(ls[1 + k] == (seq![Seq::<char>::empty()] + (field_lines(fs) + seq![
                Seq::<char>::empty(),
            ]))[1 + k]);
            assert((field_lines(fs) + seq![Seq::<char>::empty()])[k] == field_lines(fs)[k]);
        }
    }
    assert forall|j: int| 1 + fs.len() <= j < ls.len() implies line_blank(#[trigger] ls[j]) by {
        assert(ls[j] == (seq![Seq::<char>::empty()] + (field_lines(fs) + seq![
            Seq::<char>::empty(),
        ]))[j]);
        assert((field_lines(fs) + seq![Seq::<char>::empty()])[j - 1] == Seq::<char>::empty());
    }
    lemma_pbf_enc(ls, 1, fs);
    assert(keys_distinct(fs));
    lemma_bind_unbind(fm);
    assert(decode_block_text(mid) == Some(fm));

    // The body comes back trimmed, and it was already trimmed.
    assert(spec_trim(rest) == body) by {
        lemma_trim_skip_ws(seq!['\n', '\n'] + body);
        assert((seq!['\n', '\n'] + body).drop_first() =~= seq!['\n'] + body);
        lemma_trim_skip_ws(seq!['\n'] + body);
        assert((seq!['\n'] + body).drop_first() =~= body);
        lemma_trim_stable(body);
    }

    assert(s1_doc(raw) == Some(DocV { frontmatter: fm, content: body }));
    assert(DocV { frontmatter: fm, content: body } == d);
    lemma_primary_precedence(raw);
}


/// Decodes a block-mapping text and binds it, refusing duplicate keys.
fn decode_block_text_exec(txt: &Vec<char>) -> (r: Option<crate::model::Frontmatter>)
    ensures
        (match r {
            Some(fm) => decode_block_text(txt@) == Some(fm@),
            None => decode_block_text(txt@) == None::<FmV>,
        }),
{
    let lines = crate::parserx::split_lines(txt);
    match crate::parserx::parse_block_fields_exec(&lines) {
        None => None,
        Some(fields) => {
            if !crate::parserx::keys_distinct_exec(&fields) {
                None
            } else {
                crate::parserx::bind_fields_exec(&fields)
            }
        },
    }
}

/// Decodes an alternate-syntax mapping text and binds it.
fn decode_toml_text_exec(txt: &Vec<char>) -> (r: Option<crate::model::Frontmatter>)
    ensures
        (match r {
            Some(fm) => decode_toml_text(txt@) == Some(fm@),
            None => decode_toml_text(txt@) == None::<FmV>,
        }),
{
    let lines = crate::parserx::split_lines(txt);
    match crate::parserx::parse_toml_fields_exec(&lines) {
        None => None,
        Some(fields) => {
            if !crate::parserx::keys_distinct_exec(&fields) {
                None
            } else {
                crate::parserx::bind_fields_exec(&fields)
            }
        },
    }
}

/// Decodes a whole brace-delimited object.
fn parse_flow_mapping_exec(t: &Vec<char>) -> (r: Option<
    Vec<(String, crate::model::FieldValue)>,
>)
    ensures
        (match r {
            Some(fields) => parse_flow_mapping(t@) == Some(
                crate::model::customs_view(fields@),
            ),
            None => parse_flow_mapping(t@) == None::<Seq<(Seq<char>, ValueV)>>,
        }),
{
    if t.len() == 0 || t[0] != '{' {
        return None;
    }
    match crate::parserx::ft_top_scan_exec(t, 1) {
        None => None,
        Some((fields, j)) => {
            let w = crate::parserx::ws_end_exec(t, j);
            if w == t.len() && crate::parserx::keys_distinct_exec(&fields) {
                Some(fields)
            } else {
                None
            }
        },
    }
}

/// Index of the brace closing the first `{` of `raw`.
fn brace_end_exec(raw: &Vec<char>) -> (r: Option<usize>)
    ensures
        (match r {
            Some(e) => brace_end(raw@, 0, 0) == Some(e as int) && e < raw@.len(),
            None => brace_end(raw@, 0, 0) == None::<int>,
        }),
{
    let mut i: usize = 0;
    let mut depth: usize = 0;
    loop
        invariant
            i <= raw@.len(),
            brace_end(raw@, 0, 0) == brace_end(raw@, i as int, depth as int),
            depth <= i,
        decreases raw@.len() - i,
    {
        if i >= raw.len() {
            return None;
        }
        let c = raw[i];
        if c == '{' {
            depth = depth + 1;
        } else if c == '}' && depth > 0 {
            if depth == 1 {
                return Some(i);
            }
            depth = depth - 1;
        }
        i = i + 1;
    }
}

/// Whether the input begins, after leading whitespace, with `{`.
fn inline_applies_exec(raw: &Vec<char>) -> (r: bool)
    ensures
        r == inline_applies(raw@),
{
    let u = crate::parserx::ws_end_exec(raw, 0);
    let r = u < raw.len() && raw[u] == '{';
    proof {
        crate::text::lemma_trim_front_props(raw@);
        crate::mapping::lemma_ws_end_props(raw@, 0);
        let tf = trim_front(raw@);
        let k1 = raw@.len() - tf.len();
        let k2 = ws_end(raw@, 0);
        assert(k1 == k2) by {
            if k1 < k2 {
                assert(tf[0] == raw@[k1]);
                assert(is_ws(raw@[k1]));
            }
            if k2 < k1 {
                assert(is_ws(raw@[k2]));
            }
        }
        if u < raw@.len() {
            assert(tf[0] == raw@[k2]);
        }
    }
    r
}

/// Tries the primary block-delimited strategy.
fn try_primary(rc: &Vec<char>) -> (r: Option<crate::model::MarkdownDocument>)
    ensures
        (match r {
            Some(doc) => s1_doc(rc@) == Some(doc@),
            None => s1_doc(rc@) is None,
        }),
{
    let pat_d: Vec<char> = vec!['-', '-', '-'];
    proof {
        assert(pat_d@ =~= dashes3());
    }
    if !crate::text::starts_with(rc, &pat_d) {
        return None;
    }
    match crate::text::find_sub(rc, &pat_d, 3) {
        Some(p) => {
            let n = rc.len();
            assert(p + 3 <= n);
            let mid = crate::text::subrange_of(rc, 3, p);
            let rest = crate::text::subrange_of(rc, p + 3, n);
            proof {
                assert(rest@ =~= rc@.skip(p + 3 as int));
            }
            match decode_block_text_exec(&mid) {
                Some(fm) => {
                    let content = crate::text::string_from_chars(&crate::text::trim_of(&rest));
                    let doc = crate::model::MarkdownDocument { frontmatter: fm, content };
                    proof {
                        assert(s1_doc(rc@) == Some(doc@));
                    }
                    Some(doc)
                },
                None => None,
            }
        },
        None => None,
    }
}

/// Tries the alternate block-delimited strategy.
fn try_alternate(rc: &Vec<char>) -> (r: Option<crate::model::MarkdownDocument>)
    ensures
        (match r {
            Some(doc) => s2_doc(rc@) == Some(doc@),
            None => s2_doc(rc@) is None,
        }),
{
    let pat_p: Vec<char> = vec!['+', '+', '+'];
    proof {
        assert(pat_p@ =~= plus3());
    }
    if !crate::text::starts_with(rc, &pat_p) {
        return None;
    }
    match crate::text::find_sub(rc, &pat_p, 3) {
        Some(p) => {
            let n = rc.len();
            assert(p + 3 <= n);
            let mid = crate::text::trim_of(&crate::text::subrange_of(rc, 3, p));
            let rest = crate::text::subrange_of(rc, p + 3, n);
            proof {
                assert(rest@ =~= rc@.skip(p + 3 as int));
            }
            match decode_toml_text_exec(&mid) {
                Some(fm) => {
                    let content = crate::text::string_from_chars(&crate::text::trim_of(&rest));
                    let doc = crate::model::MarkdownDocument { frontmatter: fm, content };
                    proof {
                        assert(s2_doc(rc@) == Some(doc@));
                    }
                    Some(doc)
                },
                None => None,
            }
        },
        None => None,
    }
}

/// Tries the inline-object strategy.
fn try_inline(rc: &Vec<char>) -> (r: Option<crate::model::MarkdownDocument>)
    ensures
        (match r {
            Some(doc) => s3_doc(rc@) == Some(doc@),
            None => s3_doc(rc@) is None,
        }),
{
    if !inline_applies_exec(rc) {
        return None;
    }
    match brace_end_exec(rc) {
        Some(e) => {
            let n = rc.len();
            assert(e + 1 <= n);
            let fm_str = crate::text::trim_of(&crate::text::subrange_of(rc, 0, e + 1));
            proof {
                assert(fm_str@ == spec_trim(rc@.take(e + 1 as int))) by {
                    assert(rc@.take(e + 1 as int) =~= rc@.subrange(0, e + 1 as int));
                }
            }
            match parse_flow_mapping_exec(&fm_str) {
                Some(fields) => {
                    match crate::parserx::bind_fields_exec(&fields) {
                        Some(fm) => {
                            let rest = crate::text::subrange_of(rc, e + 1, rc.len());
                            proof {
                                assert(rest@ =~= rc@.skip(e + 1 as int));
                            }
                            let content = crate::text::string_from_chars(
                                &crate::text::trim_of(&rest),
                            );
                            let doc = crate::model::MarkdownDocument { frontmatter: fm, content };
                            proof {
                                assert(s3_doc(rc@) == Some(doc@));
                            }
                            Some(doc)
                        },
                        None => None,
                    }
                },
                None => None,
            }
        },
        None => None,
    }
}

/// Tries the headerless strategy.
fn try_headerless(rc: &Vec<char>) -> (r: Option<crate::model::MarkdownDocument>)
    ensures
        (match r {
            Some(doc) => s4_doc(rc@) == Some(doc@),
            None => s4_doc(rc@) is None,
        }),
{
    let pat_nl: Vec<char> = vec!['\n', '-', '-', '-'];
    proof {
        assert(pat_nl@ =~= nl_dashes());
    }
    match crate::text::find_sub(rc, &pat_nl, 0) {
        Some(p) => {
            let n = rc.len();
            assert(p + 4 <= n);
            let cand = crate::text::trim_of(&crate::text::subrange_of(rc, 0, p));
            proof {
                assert(cand@ == spec_trim(rc@.take(p as int))) by {
                    assert(rc@.take(p as int) =~= rc@.subrange(0, p as int));
                }
            }
            let pat_title = crate::text::chars_of("title:");
            let pat_date = crate::text::chars_of("date:");
            proof {
                reveal_strlit("title:");
                reveal_strlit("date:");
            }
            if crate::text::contains_sub(&cand, &pat_title) || crate::text::contains_sub(
                &cand,
                &pat_date,
            ) {
                match decode_block_text_exec(&cand) {
                    Some(fm) => {
                        let content: String = if p + 4 < n {
                            let rest = crate::text::subrange_of(rc, p + 4, n);
                            proof {
                                assert(rest@ =~= rc@.skip(p + 4 as int));
                            }
                            crate::text::string_from_chars(&crate::text::trim_of(&rest))
                        } else {
                            String::new()
                        };
                        let doc = crate::model::MarkdownDocument { frontmatter: fm, content };
                        proof {
                            assert(s4_doc(rc@) == Some(doc@));
                        }
                        Some(doc)
                    },
                    None => None,
                }
            } else {
                None
            }
        },
        None => None,
    }
}

impl crate::model::MarkdownDocument {
    /// Parses raw text through the ordered strategy chain. Never fails: when
    /// no strategy recognizes the input, the default document is synthesized
    /// and the flag reports it.
    pub fn parse(raw: &str) -> (r: Result<(Self, bool), String>)
        ensures
            (match r {
                Ok(p) => p.0@ == parse_spec(raw@).0 && p.1 == parse_spec(raw@).1,
                Err(_) => false,
            }),
    {
        let rc = crate::text::chars_of(raw);
        match try_primary(&rc) {
            Some(doc) => {
                return Ok((doc, false));
            },
            None => {},
        }
        match try_alternate(&rc) {
            Some(doc) => {
                return Ok((doc, false));
            },
            None => {},
        }
        match try_inline(&rc) {
            Some(doc) => {
                return Ok((doc, false));
            },
            None => {},
        }
        match try_headerless(&rc) {
            Some(doc) => {
                return Ok((doc, false));
            },
            None => {},
        }
        let doc = crate::model::MarkdownDocument {
            frontmatter: crate::model::default_frontmatter(),
            content: raw.to_owned(),
        };
        proof {
            assert(doc@ == default_doc(raw@));
        }
        Ok((doc, true))
    }
}

/// Renders a document in the canonical serialized form.
pub fn serialize_document(doc: &crate::model::MarkdownDocument) -> (r: String)
    ensures
        r@ == serialize_spec(doc@),
{
    serialize_parts(&doc.frontmatter, doc.content.as_str())
}

/// Renders frontmatter and body in the canonical serialized form.
pub fn serialize_parts(fm: &crate::model::Frontmatter, content: &str) -> (r: String)
    ensures
        r@ == serialize_spec(DocV { frontmatter: fm@, content: content@ }),
{
    let fields = crate::serializer::unbind_exec(fm);
    let body = crate::serializer::serialize_fields(&fields);
    let mut out: Vec<char> = Vec::new();
    out.push('-');
    out.push('-');
    out.push('-');
    out.push('\n');
    let mut i: usize = 0;
    while i < body.len()
        invariant
            i <= body@.len(),
            out@ == seq!['-', '-', '-', '\n'] + body@.take(i as int),
        decreases body@.len() - i,
    {
        out.push(body[i]);
        proof {
            assert(body@.take(i + 1 as int) =~= body@.take(i as int).push(body@[i as int]));
            assert(out@ =~= seq!['-', '-', '-', '\n'] + body@.take(i + 1 as int));
        }
        i = i + 1;
    }
    proof {
        assert(body@.take(body@.len() as int) =~= body@);
    }
    out.push('-');
    out.push('-');
    out.push('-');
    out.push('\n');
    out.push('\n');
    let cc = crate::text::chars_of(content);
    let ghost mark = out@;
    let mut j: usize = 0;
    while j < cc.len()
        invariant
            j <= cc@.len(),
            out@ == mark + cc@.take(j as int),
        decreases cc@.len() - j,
    {
        out.push(cc[j]);
        proof {
            assert(cc@.take(j + 1 as int) =~= cc@.take(j as int).push(cc@[j as int]));
            assert(out@ =~= mark + cc@.take(j + 1 as int));
        }
        j = j + 1;
    }
    proof {
        assert(cc@.take(cc@.len() as int) =~= cc@);
        assert(out@ =~= serialize_spec(DocV { frontmatter: fm@, content: content@ }));
    }
    crate::text::string_from_chars(&out)
}

} // verus!
