//! Binding between decoded field lists and the frontmatter record: known
//! field names fill the fixed schema, every other key lands in the open
//! bag, and the inverse lays the fixed schema out in declared order.

use vstd::prelude::*;

use crate::model::FmV;
use crate::model::ScalarV;
use crate::model::ValueV;
use crate::model::fm_wf;
use crate::model::known_key;
use crate::roundtrip::key_ok;
use crate::roundtrip::ntd;
use crate::roundtrip::scalar_ok;
use crate::roundtrip::value_ok;
use crate::roundtrip::fields_ok;
use crate::mapping::keys_distinct;

verus! {

/// The value of the first field named `k`, if any.
pub open spec fn get_field(fs: Seq<(Seq<char>, ValueV)>, k: Seq<char>) -> Option<ValueV>
    decreases fs.len(),
{
    if fs.len() == 0 {
        None
    } else if fs[0].0 == k {
        Some(fs[0].1)
    } else {
        get_field(fs.drop_first(), k)
    }
}

pub open spec fn has_key(fs: Seq<(Seq<char>, ValueV)>, k: Seq<char>) -> bool {
    exists|i: int| 0 <= i < fs.len() && (#[trigger] fs[i]).0 == k
}

pub proof fn lemma_get_field_concat(a: Seq<(Seq<char>, ValueV)>, b: Seq<(Seq<char>, ValueV)>, k: Seq<char>)
    ensures
        has_key(a, k) ==> get_field(a + b, k) == get_field(a, k),
        !has_key(a, k) ==> get_field(a + b, k) == get_field(b, k),
    decreases a.len(),
{
    if a.len() == 0 {
        assert(a + b =~= b);
        if has_key(a, k) {
            let i = choose|i: int| 0 <= i < a.len() && (#[trigger] a[i]).0 == k;
            assert(false);
        }
    } else {
        assert((a + b)[0] == a[0]);
        if a[0].0 == k {
        } else {
            assert((a + b).drop_first() =~= a.drop_first() + b);
            lemma_get_field_concat(a.drop_first(), b, k);
            assert(has_key(a, k) <==> has_key(a.drop_first(), k)) by {
                if has_key(a, k) {
                    let i = choose|i: int| 0 <= i < a.len() && (#[trigger] a[i]).0 == k;
                    assert(a.drop_first()[i - 1].0 == k);
                }
                if has_key(a.drop_first(), k) {
                    let i = choose|i: int|
                        0 <= i < a.drop_first().len() && (#[trigger] a.drop_first()[i]).0 == k;
                    assert(a[i + 1].0 == k);
                }
            }
        }
    }
}

/// The open-bag part of a field list: every field whose key is not part of
/// the fixed schema, in order.
pub open spec fn customs_of(fs: Seq<(Seq<char>, ValueV)>) -> Seq<(Seq<char>, ValueV)>
    decreases fs.len(),
{
    if fs.len() == 0 {
        Seq::empty()
    } else if known_key(fs[0].0) {
        customs_of(fs.drop_first())
    } else {
        seq![fs[0]] + customs_of(fs.drop_first())
    }
}

pub proof fn lemma_customs_concat(a: Seq<(Seq<char>, ValueV)>, b: Seq<(Seq<char>, ValueV)>)
    ensures
        customs_of(a + b) == customs_of(a) + customs_of(b),
    decreases a.len(),
{
    if a.len() == 0 {
        assert(a + b =~= b);
        assert(customs_of(a) + customs_of(b) =~= customs_of(b));
    } else {
        assert((a + b)[0] == a[0]);
        assert((a + b).drop_first() =~= a.drop_first() + b);
        lemma_customs_concat(a.drop_first(), b);
        if !known_key(a[0].0) {
            assert(seq![a[0]] + (customs_of(a.drop_first()) + customs_of(b)) =~= (seq![a[0]]
                + customs_of(a.drop_first())) + customs_of(b));
        }
    }
}

pub proof fn lemma_customs_all_custom(fs: Seq<(Seq<char>, ValueV)>)
    requires
        forall|i: int| 0 <= i < fs.len() ==> !known_key((#[trigger] fs[i]).0),
    ensures
        customs_of(fs) == fs,
    decreases fs.len(),
{
    if fs.len() > 0 {
        assert(!known_key(fs[0].0));
        lemma_customs_all_custom(fs.drop_first());
        assert(seq![fs[0]] + fs.drop_first() =~= fs);
    }
}

pub proof fn lemma_customs_all_known(fs: Seq<(Seq<char>, ValueV)>)
    requires
        forall|i: int| 0 <= i < fs.len() ==> known_key((#[trigger] fs[i]).0),
    ensures
        customs_of(fs) == Seq::<(Seq<char>, ValueV)>::empty(),
    decreases fs.len(),
{
    if fs.len() > 0 {
        lemma_customs_all_known(fs.drop_first());
    }
}

/// The texts of a list of scalars, if every scalar is text.
pub open spec fn texts_of(items: Seq<ScalarV>) -> Option<Seq<Seq<char>>>
    decreases items.len(),
{
    if items.len() == 0 {
        Some(Seq::empty())
    } else {
        match items[0] {
            ScalarV::Text(t) => match texts_of(items.drop_first()) {
                Some(r) => Some(seq![t] + r),
                None => None,
            },
            _ => None,
        }
    }
}

pub open spec fn bind_req_text(fs: Seq<(Seq<char>, ValueV)>, k: Seq<char>) -> Option<Seq<char>> {
    match get_field(fs, k) {
        Some(ValueV::One(ScalarV::Text(t))) => Some(t),
        _ => None,
    }
}

pub open spec fn bind_opt_text(fs: Seq<(Seq<char>, ValueV)>, k: Seq<char>) -> Option<
    Option<Seq<char>>,
> {
    match get_field(fs, k) {
        None => Some(None),
        Some(ValueV::One(ScalarV::Text(t))) => Some(Some(t)),
        Some(ValueV::One(ScalarV::Null)) => Some(None),
        _ => None,
    }
}

pub open spec fn bind_opt_flag(fs: Seq<(Seq<char>, ValueV)>, k: Seq<char>) -> Option<Option<bool>> {
    match get_field(fs, k) {
        None => Some(None),
        Some(ValueV::One(ScalarV::Flag(b))) => Some(Some(b)),
        Some(ValueV::One(ScalarV::Null)) => Some(None),
        _ => None,
    }
}

pub open spec fn bind_list(fs: Seq<(Seq<char>, ValueV)>, k: Seq<char>) -> Option<Seq<Seq<char>>> {
    match get_field(fs, k) {
        None => Some(Seq::empty()),
        Some(ValueV::Items(items)) => texts_of(items),
        _ => None,
    }
}

/// Binds a decoded field list to the frontmatter record. `title` and `date`
/// must be present as text; the list fields may be absent; the optional
/// fields may be absent or null; every type mismatch refuses the binding.
pub open spec fn bind_fields(fs: Seq<(Seq<char>, ValueV)>) -> Option<FmV> {
    let title = bind_req_text(fs, "title"@);
    let date = bind_req_text(fs, "date"@);
    let tags = bind_list(fs, "tags"@);
    let categories = bind_list(fs, "categories"@);
    let updated = bind_opt_text(fs, "updated"@);
    let comments = bind_opt_flag(fs, "comments"@);
    let layout = bind_opt_text(fs, "layout"@);
    let permalink = bind_opt_text(fs, "permalink"@);
    let description = bind_opt_text(fs, "description"@);
    let draft = bind_opt_flag(fs, "draft"@);
    if title is Some && date is Some && tags is Some && categories is Some && updated is Some
        && comments is Some && layout is Some && permalink is Some && description is Some
        && draft is Some {
        Some(
            FmV {
                title: title.unwrap(),
                date: date.unwrap(),
                tags: tags.unwrap(),
                categories: categories.unwrap(),
                updated: updated.unwrap(),
                comments: comments.unwrap(),
                layout: layout.unwrap(),
                permalink: permalink.unwrap(),
                description: description.unwrap(),
                draft: draft.unwrap(),
                custom_fields: customs_of(fs),
            },
        )
    } else {
        None
    }
}

pub open spec fn text_entry(k: Seq<char>, o: Option<Seq<char>>) -> Seq<(Seq<char>, ValueV)> {
    match o {
        Some(t) => seq![(k, ValueV::One(ScalarV::Text(t)))],
        None => Seq::empty(),
    }
}

pub open spec fn flag_entry(k: Seq<char>, o: Option<bool>) -> Seq<(Seq<char>, ValueV)> {
    match o {
        Some(b) => seq![(k, ValueV::One(ScalarV::Flag(b)))],
        None => Seq::empty(),
    }
}

pub open spec fn text_items(ts: Seq<Seq<char>>) -> Seq<ScalarV> {
    ts.map_values(|t: Seq<char>| ScalarV::Text(t))
}

/// The four fields the canonical form always writes, in declared order.
pub open spec fn unbind_head(fm: FmV) -> Seq<(Seq<char>, ValueV)> {
    seq![
        ("title"@, ValueV::One(ScalarV::Text(fm.title))),
        ("date"@, ValueV::One(ScalarV::Text(fm.date))),
        ("tags"@, ValueV::Items(text_items(fm.tags))),
        ("categories"@, ValueV::Items(text_items(fm.categories))),
    ]
}

/// The optional fixed-schema fields, written only when present.
pub open spec fn unbind_opts(fm: FmV) -> Seq<(Seq<char>, ValueV)> {
    text_entry("updated"@, fm.updated) + flag_entry("comments"@, fm.comments) + text_entry(
        "layout"@,
        fm.layout,
    ) + text_entry("permalink"@, fm.permalink) + text_entry("description"@, fm.description)
        + flag_entry("draft"@, fm.draft)
}

/// Lays a frontmatter record out as a field list: the fixed schema in
/// declared order, then the open bag in its kept order.
pub open spec fn unbind_fields(fm: FmV) -> Seq<(Seq<char>, ValueV)> {
    unbind_head(fm) + unbind_opts(fm) + fm.custom_fields
}


/// Facts about the ten fixed-schema field names: each is a well-formed key
/// and no two are equal.
#[verifier::rlimit(80)]
pub proof fn lemma_known_key_facts()
    ensures
        key_ok("title"@),
        key_ok("date"@),
        key_ok("tags"@),
        key_ok("categories"@),
        key_ok("updated"@),
        key_ok("comments"@),
        key_ok("layout"@),
        key_ok("permalink"@),
        key_ok("description"@),
        key_ok("draft"@),
        "title"@ != "date"@,
        "title"@ != "tags"@,
        "title"@ != "categories"@,
        "title"@ != "updated"@,
        "title"@ != "comments"@,
        "title"@ != "layout"@,
        "title"@ != "permalink"@,
        "title"@ != "description"@,
        "title"@ != "draft"@,
        "date"@ != "tags"@,
        "date"@ != "categories"@,
        "date"@ != "updated"@,
        "date"@ != "comments"@,
        "date"@ != "layout"@,
        "date"@ != "permalink"@,
        "date"@ != "description"@,
        "date"@ != "draft"@,
        "tags"@ != "categories"@,
        "tags"@ != "updated"@,
        "tags"@ != "comments"@,
        "tags"@ != "layout"@,
        "tags"@ != "permalink"@,
        "tags"@ != "description"@,
        "tags"@ != "draft"@,
        "categories"@ != "updated"@,
        "categories"@ != "comments"@,
        "categories"@ != "layout"@,
        "categories"@ != "permalink"@,
        "categories"@ != "description"@,
        "categories"@ != "draft"@,
        "updated"@ != "comments"@,
        "updated"@ != "layout"@,
        "updated"@ != "permalink"@,
        "updated"@ != "description"@,
        "updated"@ != "draft"@,
        "comments"@ != "layout"@,
        "comments"@ != "permalink"@,
        "comments"@ != "description"@,
        "comments"@ != "draft"@,
        "layout"@ != "permalink"@,
        "layout"@ != "description"@,
        "layout"@ != "draft"@,
        "permalink"@ != "description"@,
        "permalink"@ != "draft"@,
        "description"@ != "draft"@,
{
    reveal_strlit("title");
    reveal_strlit("date");
    reveal_strlit("tags");
    reveal_strlit("categories");
    reveal_strlit("updated");
    reveal_strlit("comments");
    reveal_strlit("layout");
    reveal_strlit("permalink");
    reveal_strlit("description");
    reveal_strlit("draft");
    assert("title"@.len() != "date"@.len());
    assert("title"@.len() != "tags"@.len());
    assert("title"@.len() != "categories"@.len());
    assert("title"@.len() != "updated"@.len());
    assert("title"@.len() != "comments"@.len());
    assert("title"@.len() != "layout"@.len());
    assert("title"@.len() != "permalink"@.len());
    assert("title"@.len() != "description"@.len());
    assert("title"@[0] != "draft"@[0]);
    assert("date"@[0] != "tags"@[0]);
    assert("date"@.len() != "categories"@.len());
    assert("date"@.len() != "updated"@.len());
    assert("date"@.len() != "comments"@.len());
    assert("date"@.len() != "layout"@.len());
    assert("date"@.len() != "permalink"@.len());
    assert("date"@.len() != "description"@.len());
    assert("date"@.len() != "draft"@.len());
    assert("tags"@.len() != "categories"@.len());
    assert("tags"@.len() != "updated"@.len());
    assert("tags"@.len() != "comments"@.len());
    assert("tags"@.len() != "layout"@.len());
    assert("tags"@.len() != "permalink"@.len());
    assert("tags"@.len() != "description"@.len());
    assert("tags"@.len() != "draft"@.len());
    assert("categories"@.len() != "updated"@.len());
    assert("categories"@.len() != "comments"@.len());
    assert("categories"@.len() != "layout"@.len());
    assert("categories"@.len() != "permalink"@.len());
    assert("categories"@.len() != "description"@.len());
    assert("categories"@.len() != "draft"@.len());
    assert("updated"@.len() != "comments"@.len());
    assert("updated"@.len() != "layout"@.len());
    assert("updated"@.len() != "permalink"@.len());
    assert("updated"@.len() != "description"@.len());
    assert("updated"@.len() != "draft"@.len());
    assert("comments"@.len() != "layout"@.len());
    assert("comments"@.len() != "permalink"@.len());
    assert("comments"@.len() != "description"@.len());
    assert("comments"@.len() != "draft"@.len());
    assert("layout"@.len() != "permalink"@.len());
    assert("layout"@.len() != "description"@.len());
    assert("layout"@.len() != "draft"@.len());
    assert("permalink"@.len() != "description"@.len());
    assert("permalink"@.len() != "draft"@.len());
    assert("description"@.len() != "draft"@.len());
}

pub proof fn lemma_texts_of_items(ts: Seq<Seq<char>>)
    ensures
        texts_of(text_items(ts)) == Some(ts),
    decreases ts.len(),
{
    if ts.len() == 0 {
        assert(text_items(ts) =~= Seq::<ScalarV>::empty());
    } else {
        lemma_texts_of_items(ts.drop_first());
        assert(text_items(ts).drop_first() =~= text_items(ts.drop_first()));
        assert(text_items(ts)[0] == ScalarV::Text(ts[0]));
        assert(seq![ts[0]] + ts.drop_first() =~= ts);
    }
}

/// Every element of `fs` carries a well-formed key and value.
pub open spec fn fields_elems_ok(fs: Seq<(Seq<char>, ValueV)>) -> bool {
    forall|i: int| 0 <= i < fs.len() ==> key_ok((#[trigger] fs[i]).0) && value_ok(fs[i].1)
}

pub proof fn lemma_elems_ok_concat(a: Seq<(Seq<char>, ValueV)>, b: Seq<(Seq<char>, ValueV)>)
    requires
        fields_elems_ok(a),
        fields_elems_ok(b),
    ensures
        fields_elems_ok(a + b),
{
    assert forall|i: int|
        0 <= i < (a + b).len() implies key_ok((#[trigger] (a + b)[i]).0) && value_ok(
        (a + b)[i].1,
    ) by {
        if i < a.len() {
            assert((a + b)[i] == a[i]);
        } else {
            assert((a + b)[i] == b[i - a.len()]);
        }
    }
}

pub proof fn lemma_kd_concat(a: Seq<(Seq<char>, ValueV)>, b: Seq<(Seq<char>, ValueV)>)
    requires
        keys_distinct(a),
        keys_distinct(b),
        forall|i: int, j: int|
            0 <= i < a.len() && 0 <= j < b.len() ==> (#[trigger] a[i]).0 != (#[trigger] b[j]).0,
    ensures
        keys_distinct(a + b),
{
    assert forall|i: int, j: int|
        0 <= i < j < (a + b).len() implies (#[trigger] (a + b)[i]).0 != (#[trigger] (a
        + b)[j]).0 by {
        if j < a.len() {
            assert((a + b)[i] == a[i] && (a + b)[j] == a[j]);
        } else if i >= a.len() {
            assert((a + b)[i] == b[i - a.len()] && (a + b)[j] == b[j - a.len()]);
        } else {
            assert((a + b)[i] == a[i] && (a + b)[j] == b[j - a.len()]);
        }
    }
}

/// All keys of `fs` differ from `k`.
pub open spec fn lacks_key(fs: Seq<(Seq<char>, ValueV)>, k: Seq<char>) -> bool {
    forall|i: int| 0 <= i < fs.len() ==> (#[trigger] fs[i]).0 != k
}

pub proof fn lemma_lacks_no_key(fs: Seq<(Seq<char>, ValueV)>, k: Seq<char>)
    requires
        lacks_key(fs, k),
    ensures
        !has_key(fs, k),
{
    if has_key(fs, k) {
        let i = choose|i: int| 0 <= i < fs.len() && (#[trigger] fs[i]).0 == k;
    }
}

pub proof fn lemma_get_skip(a: Seq<(Seq<char>, ValueV)>, b: Seq<(Seq<char>, ValueV)>, k: Seq<char>)
    requires
        lacks_key(a, k),
    ensures
        get_field(a + b, k) == get_field(b, k),
{
    lemma_lacks_no_key(a, k);
    lemma_get_field_concat(a, b, k);
}

/// A frontmatter record the canonical form can write and read back: the
/// open bag is exclusive and duplicate-free, no text holds a triple dash,
/// and the open bag's keys and values are well formed.
pub open spec fn fm_ok(fm: FmV) -> bool {
    &&& fm_wf(fm)
    &&& ntd(fm.title)
    &&& ntd(fm.date)
    &&& forall|i: int| 0 <= i < fm.tags.len() ==> ntd(#[trigger] fm.tags[i])
    &&& forall|i: int| 0 <= i < fm.categories.len() ==> ntd(#[trigger] fm.categories[i])
    &&& (fm.updated matches Some(t) ==> ntd(t))
    &&& (fm.layout matches Some(t) ==> ntd(t))
    &&& (fm.permalink matches Some(t) ==> ntd(t))
    &&& (fm.description matches Some(t) ==> ntd(t))
    &&& forall|i: int|
        0 <= i < fm.custom_fields.len() ==> key_ok((#[trigger] fm.custom_fields[i]).0) && value_ok(
            fm.custom_fields[i].1,
        )
}

/// The laid-out field list of a well-formed record is well formed.
pub proof fn lemma_unbind_fields_ok(fm: FmV)
    requires
        fm_ok(fm),
    ensures
        fields_ok(unbind_fields(fm)),
{
    lemma_known_key_facts();
    let head = unbind_head(fm);
    let opts = unbind_opts(fm);
    assert(fields_elems_ok(head)) by {
        assert forall|i: int|
            0 <= i < head.len() implies key_ok((#[trigger] head[i]).0) && value_ok(
            head[i].1,
        ) by {
            assert(value_ok(ValueV::Items(text_items(fm.tags)))) by {
                assert forall|j: int|
                    0 <= j < text_items(fm.tags).len() implies scalar_ok(
                    #[trigger] text_items(fm.tags)[j],
                ) by {
                    assert(text_items(fm.tags)[j] == ScalarV::Text(fm.tags[j]));
                }
            }
            assert(value_ok(ValueV::Items(text_items(fm.categories)))) by {
                assert forall|j: int|
                    0 <= j < text_items(fm.categories).len() implies scalar_ok(
                    #[trigger] text_items(fm.categories)[j],
                ) by {
                    assert(text_items(fm.categories)[j] == ScalarV::Text(fm.categories[j]));
                }
            }
        }
    }
    assert(fields_elems_ok(opts)) by {
        lemma_elems_ok_concat(text_entry("updated"@, fm.updated), flag_entry("comments"@, fm.comments));
        lemma_elems_ok_concat(
            text_entry("updated"@, fm.updated) + flag_entry("comments"@, fm.comments),
            text_entry("layout"@, fm.layout),
        );
        lemma_elems_ok_concat(
            text_entry("updated"@, fm.updated) + flag_entry("comments"@, fm.comments) + text_entry(
                "layout"@,
                fm.layout,
            ),
            text_entry("permalink"@, fm.permalink),
        );
        lemma_elems_ok_concat(
            text_entry("updated"@, fm.updated) + flag_entry("comments"@, fm.comments) + text_entry(
                "layout"@,
                fm.layout,
            ) + text_entry("permalink"@, fm.permalink),
            text_entry("description"@, fm.description),
        );
        lemma_elems_ok_concat(
            text_entry("updated"@, fm.updated) + flag_entry("comments"@, fm.comments) + text_entry(
                "layout"@,
                fm.layout,
            ) + text_entry("permalink"@, fm.permalink) + text_entry(
                "description"@,
                fm.description,
            ),
            flag_entry("draft"@, fm.draft),
        );
    }
    lemma_elems_ok_concat(head, opts);
    lemma_elems_ok_concat(head + opts, fm.custom_fields);
    assert(fields_elems_ok(unbind_fields(fm)));
    assert(keys_distinct(unbind_fields(fm))) by {
        assert(keys_distinct(head));
        assert(keys_distinct(opts)) by {
            assert forall|i: int, j: int|
                0 <= i < j < opts.len() implies (#[trigger] opts[i]).0 != (
            #[trigger] opts[j]).0 by {
                lemma_opts_keys(fm, i);
                lemma_opts_keys(fm, j);
            }
        }
        assert forall|i: int, j: int|
            0 <= i < head.len() && 0 <= j < opts.len() implies (#[trigger] head[i]).0 != (
        #[trigger] opts[j]).0 by {
            lemma_opts_keys(fm, j);
        }
        lemma_kd_concat(head, opts);
        assert(keys_distinct(fm.custom_fields));
        assert forall|i: int, j: int|
            0 <= i < (head + opts).len() && 0 <= j < fm.custom_fields.len() implies (#[trigger] (
            head + opts)[i]).0 != (#[trigger] fm.custom_fields[j]).0 by {
            assert(!known_key(fm.custom_fields[j].0));
            if i < head.len() {
                assert((head + opts)[i] == head[i]);
            } else {
                assert((head + opts)[i] == opts[i - head.len()]);
                lemma_opts_keys(fm, i - head.len());
            }
        }
        lemma_kd_concat(head + opts, fm.custom_fields);
    }
}

/// Each entry of the optional segment carries one of the six optional
/// fixed-schema keys, in declared relative order.
pub proof fn lemma_opts_keys(fm: FmV, i: int)
    requires
        0 <= i < unbind_opts(fm).len(),
    ensures
        known_key(unbind_opts(fm)[i].0),
        i < j_of(fm, 1) ==> unbind_opts(fm)[i].0 == "updated"@,
        j_of(fm, 1) <= i < j_of(fm, 2) ==> unbind_opts(fm)[i].0 == "comments"@,
        j_of(fm, 2) <= i < j_of(fm, 3) ==> unbind_opts(fm)[i].0 == "layout"@,
        j_of(fm, 3) <= i < j_of(fm, 4) ==> unbind_opts(fm)[i].0 == "permalink"@,
        j_of(fm, 4) <= i < j_of(fm, 5) ==> unbind_opts(fm)[i].0 == "description"@,
        j_of(fm, 5) <= i ==> unbind_opts(fm)[i].0 == "draft"@,
{
    let s1 = text_entry("updated"@, fm.updated);
    let s2 = flag_entry("comments"@, fm.comments);
    let s3 = text_entry("layout"@, fm.layout);
    let s4 = text_entry("permalink"@, fm.permalink);
    let s5 = text_entry("description"@, fm.description);
    let s6 = flag_entry("draft"@, fm.draft);
    let opts = unbind_opts(fm);
    assert(opts == s1 + s2 + s3 + s4 + s5 + s6);
    if i < s1.len() {
        assert(opts[i] == s1[i]);
    } else if i < s1.len() + s2.len() {
        assert(opts[i] == (s1 + s2)[i]);
    } else if i < s1.len() + s2.len() + s3.len() {
        assert(opts[i] == (s1 + s2 + s3)[i]);
    } else if i < s1.len() + s2.len() + s3.len() + s4.len() {
        assert(opts[i] == (s1 + s2 + s3 + s4)[i]);
    } else if i < s1.len() + s2.len() + s3.len() + s4.len() + s5.len() {
        assert(opts[i] == (s1 + s2 + s3 + s4 + s5)[i]);
    } else {
        assert(opts[i] == s6[i - (s1.len() + s2.len() + s3.len() + s4.len() + s5.len())]);
    }
}

/// Count of entries in the first `n` optional segments.
pub open spec fn j_of(fm: FmV, n: int) -> int {
    (if n >= 1 { text_entry("updated"@, fm.updated).len() as int } else { 0 }) + (if n >= 2 {
        flag_entry("comments"@, fm.comments).len() as int
    } else {
        0
    }) + (if n >= 3 { text_entry("layout"@, fm.layout).len() as int } else { 0 }) + (if n >= 4 {
        text_entry("permalink"@, fm.permalink).len() as int
    } else {
        0
    }) + (if n >= 5 { text_entry("description"@, fm.description).len() as int } else { 0 })
}


pub proof fn lemma_get_lacks_none(fs: Seq<(Seq<char>, ValueV)>, k: Seq<char>)
    requires
        lacks_key(fs, k),
    ensures
        get_field(fs, k) == None::<ValueV>,
    decreases fs.len(),
{
    if fs.len() > 0 {
        assert(lacks_key(fs.drop_first(), k)) by {
            assert forall|i: int|
                0 <= i < fs.drop_first().len() implies (#[trigger] fs.drop_first()[i]).0 != k by {
                assert(fs.drop_first()[i] == fs[i + 1]);
            }
        }
        lemma_get_lacks_none(fs.drop_first(), k);
    }
}

/// Binding the laid-out field list of a well-formed record yields the
/// record again.
#[verifier::rlimit(100)]
pub proof fn lemma_bind_unbind(fm: FmV)
    requires
        fm_wf(fm),
    ensures
        bind_fields(unbind_fields(fm)) == Some(fm),
{
    lemma_known_key_facts();
    let h = unbind_head(fm);
    let o = unbind_opts(fm);
    let c = fm.custom_fields;
    let u = unbind_fields(fm);
    let s1 = text_entry("updated"@, fm.updated);
    let s2 = flag_entry("comments"@, fm.comments);
    let s3 = text_entry("layout"@, fm.layout);
    let s4 = text_entry("permalink"@, fm.permalink);
    let s5 = text_entry("description"@, fm.description);
    let s6 = flag_entry("draft"@, fm.draft);
    let r6 = s6 + c;
    let r5 = s5 + r6;
    let r4 = s4 + r5;
    let r3 = s3 + r4;
    let r2 = s2 + r3;
    let r1 = s1 + r2;
    assert(u =~= h + (o + c));
    assert(o + c =~= r1);
    assert(forall|i: int| 0 <= i < c.len() ==> !known_key((#[trigger] c[i]).0));

    // The four head fields bind by position.
    assert(get_field(u, "title"@) == Some(ValueV::One(ScalarV::Text(fm.title)))) by {
        assert(h[0].0 == "title"@);
        lemma_get_field_concat(h, o + c, "title"@);
    }
    let h1 = h.drop_first();
    let h2 = h1.drop_first();
    let h3 = h2.drop_first();
    assert(h1 =~= seq![h[1], h[2], h[3]]);
    assert(h2 =~= seq![h[2], h[3]]);
    assert(h3 =~= seq![h[3]]);
    assert(get_field(u, "date"@) == Some(ValueV::One(ScalarV::Text(fm.date)))) by {
        assert(h[1].0 == "date"@);
        lemma_get_field_concat(h, o + c, "date"@);
        assert(get_field(h, "date"@) == get_field(h1, "date"@));
    }
    assert(get_field(u, "tags"@) == Some(ValueV::Items(text_items(fm.tags)))) by {
        lemma_get_field_concat(h, o + c, "tags"@);
        assert(get_field(h, "tags"@) == get_field(h1, "tags"@));
        assert(get_field(h1, "tags"@) == get_field(h2, "tags"@));
    }
    assert(get_field(u, "categories"@) == Some(ValueV::Items(text_items(fm.categories)))) by {
        lemma_get_field_concat(h, o + c, "categories"@);
        assert(get_field(h, "categories"@) == get_field(h1, "categories"@));
        assert(get_field(h1, "categories"@) == get_field(h2, "categories"@));
        assert(get_field(h2, "categories"@) == get_field(h3, "categories"@));
    }
    lemma_texts_of_items(fm.tags);
    lemma_texts_of_items(fm.categories);

    // Each optional field binds from its own segment; everything else
    // lacks its key.
    assert(get_field(u, "updated"@) == get_field(r1, "updated"@)) by {
        assert(lacks_key(h, "updated"@)) by {
            assert forall|i: int| 0 <= i < h.len() implies (#[trigger] h[i]).0 != "updated"@ by {
                assert(i == 0 || i == 1 || i == 2 || i == 3);
            }
        }
        lemma_get_skip(h, o + c, "updated"@);
    }
    assert(get_field(u, "comments"@) == get_field(r1, "comments"@)) by {
        assert(lacks_key(h, "comments"@)) by {
            assert forall|i: int| 0 <= i < h.len() implies (#[trigger] h[i]).0 != "comments"@ by {
                assert(i == 0 || i == 1 || i == 2 || i == 3);
            }
        }
        lemma_get_skip(h, o + c, "comments"@);
    }
    assert(get_field(u, "layout"@) == get_field(r1, "layout"@)) by {
        assert(lacks_key(h, "layout"@)) by {
            assert forall|i: int| 0 <= i < h.len() implies (#[trigger] h[i]).0 != "layout"@ by {
                assert(i == 0 || i == 1 || i == 2 || i == 3);
            }
        }
        lemma_get_skip(h, o + c, "layout"@);
    }
    assert(get_field(u, "permalink"@) == get_field(r1, "permalink"@)) by {
        assert(lacks_key(h, "permalink"@)) by {
            assert forall|i: int| 0 <= i < h.len() implies (#[trigger] h[i]).0 != "permalink"@ by {
                assert(i == 0 || i == 1 || i == 2 || i == 3);
            }
        }
        lemma_get_skip(h, o + c, "permalink"@);
    }
    assert(get_field(u, "description"@) == get_field(r1, "description"@)) by {
        assert(lacks_key(h, "description"@)) by {
            assert forall|i: int| 0 <= i < h.len() implies (#[trigger] h[i]).0 != "description"@ by {
                assert(i == 0 || i == 1 || i == 2 || i == 3);
            }
        }
        lemma_get_skip(h, o + c, "description"@);
    }
    assert(get_field(u, "draft"@) == get_field(r1, "draft"@)) by {
        assert(lacks_key(h, "draft"@)) by {
            assert forall|i: int| 0 <= i < h.len() implies (#[trigger] h[i]).0 != "draft"@ by {
                assert(i == 0 || i == 1 || i == 2 || i == 3);
            }
        }
        lemma_get_skip(h, o + c, "draft"@);
    }
    assert(lacks_key(c, "updated"@) && lacks_key(c, "comments"@) && lacks_key(c, "layout"@)
        && lacks_key(c, "permalink"@) && lacks_key(c, "description"@) && lacks_key(c, "draft"@));

    assert(get_field(r1, "updated"@) == (match fm.updated {
        Some(t) => Some(ValueV::One(ScalarV::Text(t))),
        None => None,
    })) by {
        if fm.updated is Some {
            assert(s1[0].0 == "updated"@);
            lemma_get_field_concat(s1, r2, "updated"@);
        } else {
            assert(r1 =~= r2);
            lemma_get_skip(s2, r3, "updated"@);
            lemma_get_skip(s3, r4, "updated"@);
            lemma_get_skip(s4, r5, "updated"@);
            lemma_get_skip(s5, r6, "updated"@);
            lemma_get_skip(s6, c, "updated"@);
            lemma_get_lacks_none(c, "updated"@);
        }
    }
    assert(get_field(r1, "comments"@) == (match fm.comments {
        Some(b) => Some(ValueV::One(ScalarV::Flag(b))),
        None => None,
    })) by {
        lemma_get_skip(s1, r2, "comments"@);
        if fm.comments is Some {
            assert(s2[0].0 == "comments"@);
            lemma_get_field_concat(s2, r3, "comments"@);
        } else {
            assert(r2 =~= r3);
            lemma_get_skip(s3, r4, "comments"@);
            lemma_get_skip(s4, r5, "comments"@);
            lemma_get_skip(s5, r6, "comments"@);
            lemma_get_skip(s6, c, "comments"@);
            lemma_get_lacks_none(c, "comments"@);
        }
    }
    assert(get_field(r1, "layout"@) == (match fm.layout {
        Some(t) => Some(ValueV::One(ScalarV::Text(t))),
        None => None,
    })) by {
        lemma_get_skip(s1, r2, "layout"@);
        lemma_get_skip(s2, r3, "layout"@);
        if fm.layout is Some {
            assert(s3[0].0 == "layout"@);
            lemma_get_field_concat(s3, r4, "layout"@);
        } else {
            assert(r3 =~= r4);
            lemma_get_skip(s4, r5, "layout"@);
            lemma_get_skip(s5, r6, "layout"@);
            lemma_get_skip(s6, c, "layout"@);
            lemma_get_lacks_none(c, "layout"@);
        }
    }
    assert(get_field(r1, "permalink"@) == (match fm.permalink {
        Some(t) => Some(ValueV::One(ScalarV::Text(t))),
        None => None,
    })) by {
        lemma_get_skip(s1, r2, "permalink"@);
        lemma_get_skip(s2, r3, "permalink"@);
        lemma_get_skip(s3, r4, "permalink"@);
        if fm.permalink is Some {
            assert(s4[0].0 == "permalink"@);
            lemma_get_field_concat(s4, r5, "permalink"@);
        } else {
            assert(r4 =~= r5);
            lemma_get_skip(s5, r6, "permalink"@);
            lemma_get_skip(s6, c, "permalink"@);
            lemma_get_lacks_none(c, "permalink"@);
        }
    }
    assert(get_field(r1, "description"@) == (match fm.description {
        Some(t) => Some(ValueV::One(ScalarV::Text(t))),
        None => None,
    })) by {
        lemma_get_skip(s1, r2, "description"@);
        lemma_get_skip(s2, r3, "description"@);
        lemma_get_skip(s3, r4, "description"@);
        lemma_get_skip(s4, r5, "description"@);
        if fm.description is Some {
            assert(s5[0].0 == "description"@);
            lemma_get_field_concat(s5, r6, "description"@);
        } else {
            assert(r5 =~= r6);
            lemma_get_skip(s6, c, "description"@);
            lemma_get_lacks_none(c, "description"@);
        }
    }
    assert(get_field(r1, "draft"@) == (match fm.draft {
        Some(b) => Some(ValueV::One(ScalarV::Flag(b))),
        None => None,
    })) by {
        lemma_get_skip(s1, r2, "draft"@);
        lemma_get_skip(s2, r3, "draft"@);
        lemma_get_skip(s3, r4, "draft"@);
        lemma_get_skip(s4, r5, "draft"@);
        lemma_get_skip(s5, r6, "draft"@);
        if fm.draft is Some {
            assert(s6[0].0 == "draft"@);
            lemma_get_field_concat(s6, c, "draft"@);
        } else {
            assert(r6 =~= c);
            lemma_get_lacks_none(c, "draft"@);
        }
    }

    // The open bag survives unchanged.
    assert(customs_of(u) == c) by {
        assert(u == (h + o) + c);
        lemma_customs_concat(h + o, c);
        assert(forall|i: int|
            0 <= i < (h + o).len() ==> known_key((#[trigger] (h + o)[i]).0)) by {
            assert forall|i: int|
                0 <= i < (h + o).len() implies known_key((#[trigger] (h + o)[i]).0) by {
                if i < h.len() {
                    assert((h + o)[i] == h[i]);
                    assert(i == 0 || i == 1 || i == 2 || i == 3);
                } else {
                    assert((h + o)[i] == o[i - h.len()]);
                    lemma_opts_keys(fm, i - h.len());
                }
            }
        }
        lemma_customs_all_known(h + o);
        lemma_customs_all_custom(c);
        assert(Seq::<(Seq<char>, ValueV)>::empty() + c =~= c);
    }

    let bound = bind_fields(u);
    assert(bind_req_text(u, "title"@) == Some(fm.title));
    assert(bind_req_text(u, "date"@) == Some(fm.date));
    assert(bind_list(u, "tags"@) == Some(fm.tags));
    assert(bind_list(u, "categories"@) == Some(fm.categories));
    assert(bind_opt_text(u, "updated"@) == Some(fm.updated));
    assert(bind_opt_flag(u, "comments"@) == Some(fm.comments));
    assert(bind_opt_text(u, "layout"@) == Some(fm.layout));
    assert(bind_opt_text(u, "permalink"@) == Some(fm.permalink));
    assert(bind_opt_text(u, "description"@) == Some(fm.description));
    assert(bind_opt_flag(u, "draft"@) == Some(fm.draft));
    assert(bound is Some);
    assert(bound.unwrap() =~~= fm);
}

} // verus!
