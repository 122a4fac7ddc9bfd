//! Executable canonical serializer, proved equal to the mathematical
//! encoding in `mapping` and `binding`.

use vstd::prelude::*;

use crate::binding::flag_entry;
use crate::binding::text_entry;
use crate::binding::unbind_fields;
use crate::binding::unbind_head;
use crate::binding::unbind_opts;
use crate::mapping::enc_field_line;
use crate::mapping::enc_fields;
use crate::mapping::enc_items_tail;
use crate::mapping::enc_list;
use crate::scalars::enc_scalar;
use crate::mapping::enc_table;
use crate::mapping::enc_table_tail;
use crate::mapping::enc_value;
use crate::model::FieldValue;
use crate::model::Frontmatter;
use crate::model::Scalar;
use crate::model::ScalarV;
use crate::model::ValueV;
use crate::model::customs_view;
use crate::model::scalars_view;
use crate::model::table_view;
use crate::scalars::push_scalar;
use crate::text::chars_of;
use crate::text::string_from_chars;

verus! {

/// Flow-list items joined by `, `, without brackets.
pub open spec fn enc_join(items: Seq<ScalarV>) -> Seq<char>
    decreases items.len(),
{
    if items.len() == 0 {
        Seq::empty()
    } else if items.len() == 1 {
        enc_scalar(items[0])
    } else {
        enc_scalar(items[0]) + seq![',', ' '] + enc_join(items.drop_first())
    }
}

pub proof fn lemma_items_tail_join(items: Seq<ScalarV>)
    ensures
        enc_items_tail(items) == enc_join(items) + seq![']'],
    decreases items.len(),
{
    if items.len() == 0 {
        assert(enc_join(items) + seq![']'] =~= seq![']']);
    } else if items.len() == 1 {
    } else {
        lemma_items_tail_join(items.drop_first());
        assert(enc_scalar(items[0]) + seq![',', ' '] + (enc_join(items.drop_first()) + seq![']'])
            =~= (enc_scalar(items[0]) + seq![',', ' '] + enc_join(items.drop_first())) + seq![
            ']',
        ]);
    }
}

pub proof fn lemma_enc_join_push(items: Seq<ScalarV>, x: ScalarV)
    ensures
        enc_join(items.push(x)) == (if items.len() == 0 {
            enc_scalar(x)
        } else {
            enc_join(items) + seq![',', ' '] + enc_scalar(x)
        }),
    decreases items.len(),
{
    if items.len() == 0 {
        assert(items.push(x)[0] == x);
    } else {
        assert(items.push(x).drop_first() =~= items.drop_first().push(x));
        lemma_enc_join_push(items.drop_first(), x);
        if items.len() == 1 {
            assert(items.push(x)[0] == items[0]);
            assert(enc_join(items.push(x)) =~= enc_join(items) + seq![',', ' '] + enc_scalar(x));
        } else {
            assert(items.push(x)[0] == items[0]);
            assert(enc_scalar(items[0]) + seq![',', ' '] + (enc_join(items.drop_first()) + seq![
                ',',
                ' ',
            ] + enc_scalar(x)) =~= (enc_scalar(items[0]) + seq![',', ' '] + enc_join(
                items.drop_first(),
            )) + seq![',', ' '] + enc_scalar(x));
        }
    }
}

/// Flow-table entries joined by `, `, without braces.
pub open spec fn enc_tjoin(entries: Seq<(Seq<char>, ScalarV)>) -> Seq<char>
    decreases entries.len(),
{
    if entries.len() == 0 {
        Seq::empty()
    } else if entries.len() == 1 {
        entries[0].0 + seq![':', ' '] + enc_scalar(entries[0].1)
    } else {
        entries[0].0 + seq![':', ' '] + enc_scalar(entries[0].1) + seq![',', ' '] + enc_tjoin(
            entries.drop_first(),
        )
    }
}

pub proof fn lemma_table_tail_join(entries: Seq<(Seq<char>, ScalarV)>)
    ensures
        enc_table_tail(entries) == enc_tjoin(entries) + seq!['}'],
    decreases entries.len(),
{
    if entries.len() == 0 {
        assert(enc_tjoin(entries) + seq!['}'] =~= seq!['}']);
    } else if entries.len() == 1 {
        assert(enc_table_tail(entries) =~= enc_tjoin(entries) + seq!['}']);
    } else {
        lemma_table_tail_join(entries.drop_first());
        assert(entries[0].0 + seq![':', ' '] + enc_scalar(entries[0].1) + seq![',', ' '] + (
        enc_tjoin(entries.drop_first()) + seq!['}']) =~= (entries[0].0 + seq![':', ' ']
            + enc_scalar(entries[0].1) + seq![',', ' '] + enc_tjoin(entries.drop_first())) + seq![
            '}',
        ]);
    }
}

pub proof fn lemma_enc_tjoin_push(entries: Seq<(Seq<char>, ScalarV)>, x: (Seq<char>, ScalarV))
    ensures
        enc_tjoin(entries.push(x)) == (if entries.len() == 0 {
            x.0 + seq![':', ' '] + enc_scalar(x.1)
        } else {
            enc_tjoin(entries) + seq![',', ' '] + (x.0 + seq![':', ' '] + enc_scalar(x.1))
        }),
    decreases entries.len(),
{
    if entries.len() == 0 {
        assert(entries.push(x)[0] == x);
    } else {
        assert(entries.push(x).drop_first() =~= entries.drop_first().push(x));
        lemma_enc_tjoin_push(entries.drop_first(), x);
        assert(entries.push(x)[0] == entries[0]);
        if entries.len() == 1 {
            assert(enc_tjoin(entries.push(x)) =~= enc_tjoin(entries) + seq![',', ' '] + (x.0
                + seq![':', ' '] + enc_scalar(x.1)));
        } else {
            assert(entries[0].0 + seq![':', ' '] + enc_scalar(entries[0].1) + seq![',', ' '] + (
            enc_tjoin(entries.drop_first()) + seq![',', ' '] + (x.0 + seq![':', ' '] + enc_scalar(
                x.1,
            ))) =~= (entries[0].0 + seq![':', ' '] + enc_scalar(entries[0].1) + seq![',', ' ']
                + enc_tjoin(entries.drop_first())) + seq![',', ' '] + (x.0 + seq![':', ' ']
                + enc_scalar(x.1)));
        }
    }
}

/// Appends the canonical encoding of a field value to `out`.
pub fn push_value(out: &mut Vec<char>, v: &FieldValue)
    ensures
        final(out)@ == old(out)@ + enc_value(v@),
{
    let ghost start = out@;
    match v {
        FieldValue::One(sc) => {
            push_scalar(out, sc);
        },
        FieldValue::Items(items) => {
            out.push('[');
            let mut i: usize = 0;
            proof {
                assert(scalars_view(items@.take(0)) =~= Seq::<ScalarV>::empty());
                assert(out@ =~= start + seq!['['] + enc_join(scalars_view(items@.take(0))));
            }
            while i < items.len()
                invariant
                    i <= items@.len(),
                    out@ == start + seq!['['] + enc_join(scalars_view(items@.take(i as int))),
                decreases items@.len() - i,
            {
                if i > 0 {
                    out.push(',');
                    out.push(' ');
                }
                push_scalar(out, &items[i]);
                proof {
                    let pv = scalars_view(items@.take(i as int));
                    lemma_enc_join_push(pv, items@[i as int]@);
                    assert(scalars_view(items@.take(i + 1 as int)) =~= pv.push(
                        items@[i as int]@,
                    )) by {
                        assert(items@.take(i + 1 as int) =~= items@.take(i as int).push(
                            items@[i as int],
                        ));
                    }
                    assert(pv.len() == 0 <==> i == 0);
                    assert(out@ =~= start + seq!['['] + enc_join(
                        scalars_view(items@.take(i + 1 as int)),
                    ));
                }
                i = i + 1;
            }
            out.push(']');
            proof {
                assert(items@.take(items@.len() as int) =~= items@);
                lemma_items_tail_join(scalars_view(items@));
                assert(out@ =~= start + enc_list(scalars_view(items@)));
            }
        },
        FieldValue::Table(entries) => {
            out.push('{');
            let mut i: usize = 0;
            proof {
                assert(table_view(entries@.take(0)) =~= Seq::<(Seq<char>, ScalarV)>::empty());
                assert(out@ =~= start + seq!['{'] + enc_tjoin(table_view(entries@.take(0))));
            }
            while i < entries.len()
                invariant
                    i <= entries@.len(),
                    out@ == start + seq!['{'] + enc_tjoin(table_view(entries@.take(i as int))),
                decreases entries@.len() - i,
            {
                if i > 0 {
                    out.push(',');
                    out.push(' ');
                }
                let ghost kstart = out@;
                let p = &entries[i];
                let kc = chars_of(p.0.as_str());
                let mut ki: usize = 0;
                proof {
                    assert(out@ =~= kstart + kc@.take(0));
                }
                while ki < kc.len()
                    invariant
                        ki <= kc@.len(),
                        out@ == kstart + kc@.take(ki as int),
                    decreases kc@.len() - ki,
                {
                    out.push(kc[ki]);
                    proof {
                        assert(kc@.take(ki + 1 as int) =~= kc@.take(ki as int).push(
                            kc@[ki as int],
                        ));
                        assert(out@ =~= kstart + kc@.take(ki + 1 as int));
                    }
                    ki = ki + 1;
                }
                proof {
                    assert(kc@.take(kc@.len() as int) =~= kc@);
                }
                out.push(':');
                out.push(' ');
                push_scalar(out, &p.1);
                proof {
                    let pv = table_view(entries@.take(i as int));
                    let x = (entries@[i as int].0@, entries@[i as int].1@);
                    lemma_enc_tjoin_push(pv, x);
                    assert(table_view(entries@.take(i + 1 as int)) =~= pv.push(x)) by {
                        assert(entries@.take(i + 1 as int) =~= entries@.take(i as int).push(
                            entries@[i as int],
                        ));
                    }
                    assert(pv.len() == 0 <==> i == 0);
                    assert(out@ =~= kstart + (x.0 + seq![':', ' '] + enc_scalar(x.1)));
                    if i > 0 {
                        assert(kstart =~= start + seq!['{'] + (enc_tjoin(pv) + seq![',', ' ']));
                        assert(out@ =~= start + seq!['{'] + (enc_tjoin(pv) + seq![',', ' '] + (x.0
                            + seq![':', ' '] + enc_scalar(x.1))));
                    } else {
                        assert(out@ =~= start + seq!['{'] + enc_tjoin(
                            table_view(entries@.take(i + 1 as int)),
                        ));
                    }
                    assert(out@ =~= start + seq!['{'] + enc_tjoin(
                        table_view(entries@.take(i + 1 as int)),
                    ));
                }
                i = i + 1;
            }
            out.push('}');
            proof {
                assert(entries@.take(entries@.len() as int) =~= entries@);
                lemma_table_tail_join(table_view(entries@));
                assert(out@ =~= start + enc_table(table_view(entries@)));
            }
        },
    }
}

pub proof fn lemma_enc_fields_concat(
    a: Seq<(Seq<char>, ValueV)>,
    b: Seq<(Seq<char>, ValueV)>,
)
    ensures
        enc_fields(a + b) == enc_fields(a) + enc_fields(b),
    decreases a.len(),
{
    if a.len() == 0 {
        assert(a + b =~= b);
        assert(enc_fields(a) + enc_fields(b) =~= enc_fields(b));
    } else {
        assert((a + b)[0] == a[0]);
        assert((a + b).drop_first() =~= a.drop_first() + b);
        lemma_enc_fields_concat(a.drop_first(), b);
        assert(enc_field_line(a[0].0, a[0].1) + seq!['\n'] + (enc_fields(a.drop_first())
            + enc_fields(b)) =~= (enc_field_line(a[0].0, a[0].1) + seq!['\n'] + enc_fields(
            a.drop_first(),
        )) + enc_fields(b));
    }
}

pub proof fn lemma_enc_fields_push(a: Seq<(Seq<char>, ValueV)>, f: (Seq<char>, ValueV))
    ensures
        enc_fields(a.push(f)) == enc_fields(a) + enc_field_line(f.0, f.1) + seq!['\n'],
{
    assert(a.push(f) =~= a + seq![f]);
    lemma_enc_fields_concat(a, seq![f]);
    assert(enc_fields(seq![f]) =~= enc_field_line(f.0, f.1) + seq!['\n']) by {
        assert(seq![f][0] == f);
        assert(seq![f].drop_first() =~= Seq::<(Seq<char>, ValueV)>::empty());
        assert(enc_fields(Seq::<(Seq<char>, ValueV)>::empty()) == Seq::<char>::empty());
        assert(enc_field_line(f.0, f.1) + seq!['\n'] + Seq::<char>::empty() =~= enc_field_line(
            f.0,
            f.1,
        ) + seq!['\n']);
    }
    assert(enc_fields(a) + (enc_field_line(f.0, f.1) + seq!['\n']) =~= enc_fields(a)
        + enc_field_line(f.0, f.1) + seq!['\n']);
}

/// Appends one canonical field line to `out`.
fn push_field_line(out: &mut Vec<char>, key: &String, v: &FieldValue)
    ensures
        final(out)@ == old(out)@ + enc_field_line(key@, v@) + seq!['\n'],
{
    let ghost start = out@;
    let kc = chars_of(key.as_str());
    let mut ki: usize = 0;
    while ki < kc.len()
        invariant
            ki <= kc@.len(),
            out@ == start + kc@.take(ki as int),
        decreases kc@.len() - ki,
    {
        out.push(kc[ki]);
        proof {
            assert(kc@.take(ki + 1 as int) =~= kc@.take(ki as int).push(kc@[ki as int]));
            assert(out@ =~= start + kc@.take(ki + 1 as int));
        }
        ki = ki + 1;
    }
    proof {
        assert(kc@.take(kc@.len() as int) =~= kc@);
    }
    out.push(':');
    out.push(' ');
    push_value(out, v);
    out.push('\n');
    proof {
        assert(out@ =~= start + enc_field_line(key@, v@) + seq!['\n']);
    }
}

/// Writes a whole field list in canonical form.
pub fn serialize_fields(fields: &Vec<(String, FieldValue)>) -> (r: Vec<char>)
    ensures
        r@ == enc_fields(customs_view(fields@)),
{
    let mut out: Vec<char> = Vec::new();
    let mut i: usize = 0;
    proof {
        assert(customs_view(fields@.take(0)) =~= Seq::<(Seq<char>, ValueV)>::empty());
        assert(out@ =~= enc_fields(customs_view(fields@.take(0))));
    }
    while i < fields.len()
        invariant
            i <= fields@.len(),
            out@ == enc_fields(customs_view(fields@.take(i as int))),
        decreases fields@.len() - i,
    {
        let p = &fields[i];
        push_field_line(&mut out, &p.0, &p.1);
        proof {
            let pv = customs_view(fields@.take(i as int));
            let x = (fields@[i as int].0@, fields@[i as int].1@);
            lemma_enc_fields_push(pv, x);
            assert(customs_view(fields@.take(i + 1 as int)) =~= pv.push(x)) by {
                assert(fields@.take(i + 1 as int) =~= fields@.take(i as int).push(
                    fields@[i as int],
                ));
            }
        }
        i = i + 1;
    }
    proof {
        assert(fields@.take(fields@.len() as int) =~= fields@);
    }
    out
}

/// Lays a frontmatter record out as an explicit field list, fixed schema
/// first, then the open bag.
#[verifier::rlimit(100)]
pub fn unbind_exec(fm: &Frontmatter) -> (r: Vec<(String, FieldValue)>)
    ensures
        customs_view(r@) == unbind_fields(fm@),
{
    let mut out: Vec<(String, FieldValue)> = Vec::new();
    let mut tag_items: Vec<Scalar> = Vec::new();
    let mut i: usize = 0;
    while i < fm.tags.len()
        invariant
            i <= fm.tags@.len(),
            scalars_view(tag_items@) == crate::binding::text_items(
                crate::model::strings_view(fm.tags@.take(i as int)),
            ),
        decreases fm.tags@.len() - i,
    {
        let ghost prev = tag_items@;
        tag_items.push(Scalar::Text(fm.tags[i].clone()));
        proof {
            assert(fm.tags@.take(i + 1 as int) =~= fm.tags@.take(i as int).push(
                fm.tags@[i as int],
            ));
            assert(crate::model::strings_view(fm.tags@.take(i + 1 as int))
                =~= crate::model::strings_view(fm.tags@.take(i as int)).push(fm.tags@[i as int]@));
            assert(crate::binding::text_items(
                crate::model::strings_view(fm.tags@.take(i as int)).push(fm.tags@[i as int]@),
            ) =~= crate::binding::text_items(
                crate::model::strings_view(fm.tags@.take(i as int)),
            ).push(ScalarV::Text(fm.tags@[i as int]@)));
            assert(scalars_view(tag_items@) =~= scalars_view(prev).push(
                ScalarV::Text(fm.tags@[i as int]@),
            ));
        }
        i = i + 1;
    }
    proof {
        assert(fm.tags@.take(fm.tags@.len() as int) =~= fm.tags@);
    }
    let mut cat_items: Vec<Scalar> = Vec::new();
    let mut j: usize = 0;
    while j < fm.categories.len()
        invariant
            j <= fm.categories@.len(),
            scalars_view(cat_items@) == crate::binding::text_items(
                crate::model::strings_view(fm.categories@.take(j as int)),
            ),
        decreases fm.categories@.len() - j,
    {
        let ghost prev = cat_items@;
        cat_items.push(Scalar::Text(fm.categories[j].clone()));
        proof {
            assert(fm.categories@.take(j + 1 as int) =~= fm.categories@.take(j as int).push(
                fm.categories@[j as int],
            ));
            assert(crate::model::strings_view(fm.categories@.take(j + 1 as int))
                =~= crate::model::strings_view(fm.categories@.take(j as int)).push(
                fm.categories@[j as int]@,
            ));
            assert(crate::binding::text_items(
                crate::model::strings_view(fm.categories@.take(j as int)).push(
                    fm.categories@[j as int]@,
                ),
            ) =~= crate::binding::text_items(
                crate::model::strings_view(fm.categories@.take(j as int)),
            ).push(ScalarV::Text(fm.categories@[j as int]@)));
            assert(scalars_view(cat_items@) =~= scalars_view(prev).push(
                ScalarV::Text(fm.categories@[j as int]@),
            ));
        }
        j = j + 1;
    }
    proof {
        assert(fm.categories@.take(fm.categories@.len() as int) =~= fm.categories@);
    }
    out.push(("title".to_owned(), FieldValue::One(Scalar::Text(fm.title.clone()))));
    out.push(("date".to_owned(), FieldValue::One(Scalar::Text(fm.date.clone()))));
    out.push(("tags".to_owned(), FieldValue::Items(tag_items)));
    out.push(("categories".to_owned(), FieldValue::Items(cat_items)));
    proof {
        assert(customs_view(out@) =~= unbind_head(fm@));
    }
    let ghost seg0 = unbind_head(fm@);
    match &fm.updated {
        Some(t) => {
            out.push(("updated".to_owned(), FieldValue::One(Scalar::Text(t.clone()))));
        },
        None => {},
    }
    proof {
        assert(customs_view(out@) =~= seg0 + text_entry("updated"@, fm@.updated));
    }
    let ghost seg1 = seg0 + text_entry("updated"@, fm@.updated);
    match &fm.comments {
        Some(b) => {
            out.push(("comments".to_owned(), FieldValue::One(Scalar::Flag(*b))));
        },
        None => {},
    }
    proof {
        assert(customs_view(out@) =~= seg1 + flag_entry("comments"@, fm@.comments));
    }
    let ghost seg2 = seg1 + flag_entry("comments"@, fm@.comments);
    match &fm.layout {
        Some(t) => {
            out.push(("layout".to_owned(), FieldValue::One(Scalar::Text(t.clone()))));
        },
        None => {},
    }
    proof {
        assert(customs_view(out@) =~= seg2 + text_entry("layout"@, fm@.layout));
    }
    let ghost seg3 = seg2 + text_entry("layout"@, fm@.layout);
    match &fm.permalink {
        Some(t) => {
            out.push(("permalink".to_owned(), FieldValue::One(Scalar::Text(t.clone()))));
        },
        None => {},
    }
    proof {
        assert(customs_view(out@) =~= seg3 + text_entry("permalink"@, fm@.permalink));
    }
    let ghost seg4 = seg3 + text_entry("permalink"@, fm@.permalink);
    match &fm.description {
        Some(t) => {
            out.push(("description".to_owned(), FieldValue::One(Scalar::Text(t.clone()))));
        },
        None => {},
    }
    proof {
        assert(customs_view(out@) =~= seg4 + text_entry("description"@, fm@.description));
    }
    let ghost seg5 = seg4 + text_entry("description"@, fm@.description);
    match &fm.draft {
        Some(b) => {
            out.push(("draft".to_owned(), FieldValue::One(Scalar::Flag(*b))));
        },
        None => {},
    }
    proof {
        assert(customs_view(out@) =~= seg5 + flag_entry("draft"@, fm@.draft));
        assert(seg5 + flag_entry("draft"@, fm@.draft) =~= unbind_head(fm@) + unbind_opts(fm@));
    }
    let ghost seg6 = unbind_head(fm@) + unbind_opts(fm@);
    let mut ci: usize = 0;
    while ci < fm.custom_fields.len()
        invariant
            ci <= fm.custom_fields@.len(),
            seg6 == unbind_head(fm@) + unbind_opts(fm@),
            customs_view(out@) == seg6 + customs_view(fm.custom_fields@.take(ci as int)),
        decreases fm.custom_fields@.len() - ci,
    {
        let p = &fm.custom_fields[ci];
        let ghost prevout = out@;
        out.push((p.0.clone(), crate::parserx::clone_value(&p.1)));
        proof {
            let x = (fm.custom_fields@[ci as int].0@, fm.custom_fields@[ci as int].1@);
            assert(fm.custom_fields@.take(ci + 1 as int) =~= fm.custom_fields@.take(
                ci as int,
            ).push(fm.custom_fields@[ci as int]));
            assert(customs_view(fm.custom_fields@.take(ci + 1 as int)) =~= customs_view(
                fm.custom_fields@.take(ci as int),
            ).push(x));
            assert(customs_view(out@) =~= customs_view(prevout).push(x));
            assert(seg6 + customs_view(fm.custom_fields@.take(ci as int)).push(x) =~= (seg6
                + customs_view(fm.custom_fields@.take(ci as int))).push(x));
        }
        ci = ci + 1;
    }
    proof {
        assert(fm.custom_fields@.take(fm.custom_fields@.len() as int) =~= fm.custom_fields@);
        assert(customs_view(out@) =~= unbind_fields(fm@));
    }
    out
}

/// Renders a frontmatter record as its canonical mapping text. Never fails;
/// the fallible signature is kept for callers that treat encoding as an
/// operation that may report errors.
pub fn frontmatter_to_yaml(fm: &Frontmatter) -> (r: Result<String, String>)
    ensures
        (match r {
            Ok(s) => s@ == enc_fields(unbind_fields(fm@)),
            Err(_) => false,
        }),
{
    let fields = unbind_exec(fm);
    let chars = serialize_fields(&fields);
    Ok(string_from_chars(&chars))
}

} // verus!
