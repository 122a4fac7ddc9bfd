//! Frontmatter editing configuration: the stored shape, and its synthesis
//! from the open-bag fields observed across a project's posts.

use vstd::prelude::*;

use crate::model::FieldValue;
use crate::model::Frontmatter;
use crate::model::Scalar;
use crate::trusted::lower_of;
use crate::trusted::naive_date_ok;
use crate::trusted::naive_datetime_ok;
use crate::trusted::rfc3339_ok;
use crate::trusted::lower_char;
use crate::trusted::upper_char;
use crate::trusted::upper_map;

verus! {

/// The stored frontmatter-editing configuration.
pub struct FrontmatterConfig {
    pub version: String,
    pub preview_image_field: Option<String>,
    pub is_default: bool,
    pub custom_fields: Vec<FrontmatterField>,
    pub field_groups: Vec<FrontmatterFieldGroup>,
}

/// One configured custom field.
pub struct FrontmatterField {
    pub name: String,
    pub label: Option<String>,
    pub field_type: String,
    pub description: Option<String>,
    pub ui: Option<FrontmatterFieldUi>,
}

/// Editor hints for one field.
pub struct FrontmatterFieldUi {
    pub placeholder: Option<String>,
    pub rows: Option<u32>,
}

/// A named group of fields shown together.
pub struct FrontmatterFieldGroup {
    pub name: String,
    pub label: Option<String>,
    pub fields: Vec<String>,
    pub collapsed: Option<bool>,
}

impl Default for FrontmatterConfig {
    /// The configuration used when none is stored.
    fn default() -> (r: Self)
        ensures
            r.version@ == "1.0"@,
            r.preview_image_field is None,
            r.is_default,
            r.custom_fields@.len() == 0,
            r.field_groups@.len() == 0,
    {
        FrontmatterConfig {
            version: "1.0".to_owned(),
            preview_image_field: None,
            is_default: true,
            custom_fields: Vec::new(),
            field_groups: Vec::new(),
        }
    }
}

/// Whether a text value looks like an image reference: an images path
/// segment or a known image-file ending, case-insensitively.
pub open spec fn spec_looks_like_image(lowered: Seq<char>) -> bool {
    ||| crate::document::contains_spec(lowered, "/images/"@)
    ||| ends_with(lowered, ".png"@)
    ||| ends_with(lowered, ".jpg"@)
    ||| ends_with(lowered, ".jpeg"@)
    ||| ends_with(lowered, ".gif"@)
    ||| ends_with(lowered, ".webp"@)
    ||| ends_with(lowered, ".svg"@)
}

pub open spec fn ends_with(s: Seq<char>, suffix: Seq<char>) -> bool {
    s.len() >= suffix.len() && s.skip(s.len() - suffix.len()) == suffix
}

/// Whether `s` ends with `suffix`.
pub fn ends_with_exec(s: &Vec<char>, suffix: &Vec<char>) -> (r: bool)
    ensures
        r == ends_with(s@, suffix@),
{
    if s.len() < suffix.len() {
        return false;
    }
    let tail = crate::text::subrange_of(s, s.len() - suffix.len(), s.len());
    proof {
        assert(tail@ =~= s@.skip(s@.len() - suffix@.len()));
    }
    crate::classify::eq_chars(&tail, suffix)
}

pub fn looks_like_image(value: &str) -> (r: bool)
    ensures
        r == spec_looks_like_image(lower_of(value@)),
{
    let low = crate::trusted::lowercase(value);
    let lc = crate::text::chars_of(low.as_str());
    let seg = crate::text::chars_of("/images/");
    proof {
        reveal_strlit("/images/");
    }
    if crate::text::contains_sub(&lc, &seg) {
        return true;
    }
    ends_with_exec(&lc, &crate::text::chars_of(".png")) || ends_with_exec(
        &lc,
        &crate::text::chars_of(".jpg"),
    ) || ends_with_exec(&lc, &crate::text::chars_of(".jpeg")) || ends_with_exec(
        &lc,
        &crate::text::chars_of(".gif"),
    ) || ends_with_exec(&lc, &crate::text::chars_of(".webp")) || ends_with_exec(
        &lc,
        &crate::text::chars_of(".svg"),
    )
}

/// The type inferred for a text value: image and date shapes first, then
/// multi-line text, then plain text. Empty or blank text infers nothing.
pub open spec fn spec_infer_text_type(t: Seq<char>) -> Option<Seq<char>> {
    if crate::text::spec_trim(t).len() == 0 {
        None
    } else if spec_looks_like_image(lower_of(t)) {
        Some("image"@)
    } else if rfc3339_ok(t) || naive_datetime_ok(t) {
        Some("datetime"@)
    } else if naive_date_ok(t) {
        Some("date"@)
    } else if crate::document::contains_spec(t, "\n"@) {
        Some("text"@)
    } else {
        Some("string"@)
    }
}

/// The type inferred for one open-bag value.
pub open spec fn spec_infer_type(v: crate::model::ValueV) -> Option<Seq<char>> {
    match v {
        crate::model::ValueV::One(sc) => match sc {
            crate::model::ScalarV::Null => None,
            crate::model::ScalarV::Flag(_) => Some("boolean"@),
            crate::model::ScalarV::Num(_) => Some("number"@),
            crate::model::ScalarV::Text(t) => spec_infer_text_type(t),
        },
        crate::model::ValueV::Items(_) => Some("array"@),
        crate::model::ValueV::Table(_) => Some("object"@),
    }
}

/// Infers the editor type of an open-bag value.
pub fn infer_value_type(v: &FieldValue) -> (r: Option<String>)
    ensures
        (match r {
            Some(t) => spec_infer_type(v@) == Some(t@),
            None => spec_infer_type(v@) == None::<Seq<char>>,
        }),
{
    match v {
        FieldValue::One(sc) => match sc {
            Scalar::Null => None,
            Scalar::Flag(_) => Some("boolean".to_owned()),
            Scalar::Num(_) => Some("number".to_owned()),
            Scalar::Text(t) => {
                let tc = crate::text::chars_of(t.as_str());
                let trimmed = crate::text::trim_of(&tc);
                if trimmed.len() == 0 {
                    return None;
                }
                if looks_like_image(t.as_str()) {
                    return Some("image".to_owned());
                }
                if crate::trusted::parses_rfc3339(t.as_str()) || crate::trusted::parses_naive_datetime(
                    t.as_str(),
                ) {
                    return Some("datetime".to_owned());
                }
                if crate::trusted::parses_naive_date(t.as_str()) {
                    return Some("date".to_owned());
                }
                let nl = crate::text::chars_of("\n");
                proof {
                    reveal_strlit("\n");
                }
                if crate::text::contains_sub(&tc, &nl) {
                    return Some("text".to_owned());
                }
                Some("string".to_owned())
            },
        },
        FieldValue::Items(_) => Some("array".to_owned()),
        FieldValue::Table(_) => Some("object".to_owned()),
    }
}

/// The display label of a field name: word breaks at underscores, hyphens
/// and lower-to-upper case changes, each word capitalized, words joined by
/// single spaces.
pub open spec fn spec_spaced(name: Seq<char>, prev_lower: bool) -> Seq<char>
    decreases name.len(),
{
    if name.len() == 0 {
        Seq::empty()
    } else if name[0] == '_' || name[0] == '-' {
        seq![' '] + spec_spaced(name.drop_first(), false)
    } else if prev_lower && upper_char(name[0]) {
        seq![' ', name[0]] + spec_spaced(name.drop_first(), lower_char(name[0]))
    } else {
        seq![name[0]] + spec_spaced(name.drop_first(), lower_char(name[0]))
    }
}

/// The second labelling pass over the spaced text: words get capitalized
/// and joined by single spaces. `in_word` reports whether a word is open,
/// `any` whether one was written already.
pub open spec fn label_sm(s: Seq<char>, i: int, in_word: bool, any: bool) -> Seq<char>
    decreases s.len() - i,
{
    if i < 0 || i >= s.len() {
        Seq::empty()
    } else if crate::text::is_ws(s[i]) {
        label_sm(s, i + 1, false, any)
    } else if !in_word {
        (if any {
            seq![' ']
        } else {
            Seq::empty()
        }) + upper_map(s[i]) + label_sm(s, i + 1, true, true)
    } else {
        seq![s[i]] + label_sm(s, i + 1, true, any)
    }
}

pub open spec fn spec_format_label(name: Seq<char>) -> Seq<char> {
    label_sm(spec_spaced(name, false), 0, false, false)
}

/// The display label of a field name.
pub fn format_label(name: &str) -> (r: String)
    ensures
        r@ == spec_format_label(name@),
{
    let nc = crate::text::chars_of(name);
    let mut spaced: Vec<char> = Vec::new();
    let mut prev_lower = false;
    let mut i: usize = 0;
    proof {
        assert(nc@.skip(0) =~= nc@);
    }
    while i < nc.len()
        invariant
            i <= nc@.len(),
            spec_spaced(nc@, false) == spaced@ + spec_spaced(nc@.skip(i as int), prev_lower),
        decreases nc@.len() - i,
    {
        let c = nc[i];
        proof {
            assert(nc@.skip(i as int)[0] == nc@[i as int]);
            assert(nc@.skip(i as int).drop_first() =~= nc@.skip(i + 1 as int));
        }
        if c == '_' || c == '-' {
            let ghost prev = spaced@;
            spaced.push(' ');
            proof {
                assert(prev + (seq![' '] + spec_spaced(nc@.skip(i + 1 as int), false)) =~= spaced@
                    + spec_spaced(nc@.skip(i + 1 as int), false));
            }
            prev_lower = false;
        } else {
            let up = c.is_uppercase();
            let lo = c.is_lowercase();
            if prev_lower && up {
                let ghost prev = spaced@;
                spaced.push(' ');
                spaced.push(c);
                proof {
                    assert(prev + (seq![' ', c] + spec_spaced(nc@.skip(i + 1 as int), lower_char(c)))
                        =~= spaced@ + spec_spaced(nc@.skip(i + 1 as int), lower_char(c)));
                }
            } else {
                let ghost prev = spaced@;
                spaced.push(c);
                proof {
                    assert(prev + (seq![c] + spec_spaced(nc@.skip(i + 1 as int), lower_char(c)))
                        =~= spaced@ + spec_spaced(nc@.skip(i + 1 as int), lower_char(c)));
                }
            }
            prev_lower = lo;
        }
        i = i + 1;
    }
    proof {
        assert(nc@.skip(nc@.len() as int) =~= Seq::<char>::empty());
        assert(spaced@ + Seq::<char>::empty() =~= spaced@);
    }
    let mut out: Vec<char> = Vec::new();
    let mut in_word = false;
    let mut any = false;
    let mut j: usize = 0;
    while j < spaced.len()
        invariant
            j <= spaced@.len(),
            spec_format_label(name@) == out@ + label_sm(spaced@, j as int, in_word, any),
            spaced@ == spec_spaced(nc@, false),
            nc@ == name@,
        decreases spaced@.len() - j,
    {
        let c = spaced[j];
        if crate::text::is_ws_char(c) {
            in_word = false;
        } else if !in_word {
            if any {
                out.push(' ');
            }
            let ups = crate::trusted::char_to_uppercase(c);
            let mut k: usize = 0;
            let ghost mark = out@;
            while k < ups.len()
                invariant
                    k <= ups@.len(),
                    out@ == mark + ups@.take(k as int),
                decreases ups@.len() - k,
            {
                out.push(ups[k]);
                proof {
                    assert(ups@.take(k + 1 as int) =~= ups@.take(k as int).push(ups@[k as int]));
                    assert(out@ =~= mark + ups@.take(k + 1 as int));
                }
                k = k + 1;
            }
            proof {
                assert(ups@.take(ups@.len() as int) =~= ups@);
            }
            in_word = true;
            any = true;
        } else {
            out.push(c);
        }
        j = j + 1;
    }
    proof {
        assert(label_sm(spaced@, spaced@.len() as int, in_word, any) == Seq::<char>::empty());
        assert(out@ + Seq::<char>::empty() =~= out@);
    }
    crate::text::string_from_chars(&out)
}

/// How often one open-bag key was seen, and with which inferred types.
pub struct FieldStats {
    pub total: u32,
    pub type_counts: Vec<(String, u32)>,
}

pub open spec fn counts_view(v: Seq<(String, u32)>) -> Seq<(Seq<char>, u32)> {
    v.map_values(|p: (String, u32)| (p.0@, p.1))
}

impl View for FieldStats {
    type V = (u32, Seq<(Seq<char>, u32)>);

    open spec fn view(&self) -> (u32, Seq<(Seq<char>, u32)>) {
        (self.total, counts_view(self.type_counts@))
    }
}

pub open spec fn stats_view(v: Seq<(String, FieldStats)>) -> Seq<
    (Seq<char>, (u32, Seq<(Seq<char>, u32)>)),
> {
    v.map_values(|p: (String, FieldStats)| (p.0@, p.1@))
}

pub open spec fn fms_view(v: Seq<Frontmatter>) -> Seq<crate::model::FmV> {
    v.map_values(|f: Frontmatter| f@)
}

/// First index at or after `i` whose association key is `k`, or the
/// length.
pub open spec fn assoc_index<T>(s: Seq<(Seq<char>, T)>, k: Seq<char>, i: int) -> int
    decreases s.len() - i,
{
    if i < 0 || i >= s.len() {
        s.len() as int
    } else if s[i].0 == k {
        i
    } else {
        assoc_index(s, k, i + 1)
    }
}

/// A count one higher, held at the top of the range.
pub open spec fn bump_u32(x: u32) -> u32 {
    if x < u32::MAX {
        (x + 1) as u32
    } else {
        x
    }
}

/// The tally of inferred types after one more observation of `t`.
pub open spec fn bump_counts(c: Seq<(Seq<char>, u32)>, t: Seq<char>) -> Seq<(Seq<char>, u32)> {
    let i = assoc_index(c, t, 0);
    if i < c.len() {
        c.update(i, (c[i].0, bump_u32(c[i].1)))
    } else {
        c.push((t, 1u32))
    }
}

/// The tally after observing one open-bag field: its key's entry gains
/// one occurrence and, when a type was inferred, one count of that type;
/// an unseen key gains a fresh entry at the end.
pub open spec fn observe(
    sv: Seq<(Seq<char>, (u32, Seq<(Seq<char>, u32)>))>,
    k: Seq<char>,
    inf: Option<Seq<char>>,
) -> Seq<(Seq<char>, (u32, Seq<(Seq<char>, u32)>))> {
    let i = assoc_index(sv, k, 0);
    let cur: (u32, Seq<(Seq<char>, u32)>) = if i < sv.len() {
        sv[i].1
    } else {
        (0u32, Seq::empty())
    };
    let tot = bump_u32(cur.0);
    let cnts = match inf {
        Some(t) => bump_counts(cur.1, t),
        None => cur.1,
    };
    if i < sv.len() {
        sv.update(i, (sv[i].0, (tot, cnts)))
    } else {
        sv.push((k, (tot, cnts)))
    }
}

/// The tally after observing a record's open-bag fields from `j` on.
pub open spec fn observe_fields(
    sv: Seq<(Seq<char>, (u32, Seq<(Seq<char>, u32)>))>,
    fields: Seq<(Seq<char>, crate::model::ValueV)>,
    j: int,
) -> Seq<(Seq<char>, (u32, Seq<(Seq<char>, u32)>))>
    decreases fields.len() - j,
{
    if j < 0 || j >= fields.len() {
        sv
    } else {
        observe_fields(observe(sv, fields[j].0, spec_infer_type(fields[j].1)), fields, j + 1)
    }
}

/// The tally over all records from `i` on.
pub open spec fn collect_from(
    sv: Seq<(Seq<char>, (u32, Seq<(Seq<char>, u32)>))>,
    fms: Seq<crate::model::FmV>,
    i: int,
) -> Seq<(Seq<char>, (u32, Seq<(Seq<char>, u32)>))>
    decreases fms.len() - i,
{
    if i < 0 || i >= fms.len() {
        sv
    } else {
        collect_from(observe_fields(sv, fms[i].custom_fields, 0), fms, i + 1)
    }
}

/// The whole tally: one entry per distinct open-bag key, in first-seen
/// order, with its occurrence total and inferred-type counts.
pub open spec fn collect_stats(fms: Seq<crate::model::FmV>) -> Seq<
    (Seq<char>, (u32, Seq<(Seq<char>, u32)>)),
> {
    collect_from(Seq::empty(), fms, 0)
}

/// Index of the first entry with the greatest count, scanning from `i`
/// with `best` the best so far.
pub open spec fn pref_scan(counts: Seq<(Seq<char>, u32)>, i: int, best: int) -> int
    decreases counts.len() - i,
{
    if i < 0 || i >= counts.len() || best < 0 || best >= counts.len() {
        best
    } else if counts[i].1 > counts[best].1 {
        pref_scan(counts, i + 1, i)
    } else {
        pref_scan(counts, i + 1, best)
    }
}

/// The preferred type of a field: the first most frequent inferred type,
/// or plain text when nothing was inferred.
pub open spec fn spec_preferred(counts: Seq<(Seq<char>, u32)>) -> Seq<char> {
    if counts.len() == 0 {
        "string"@
    } else {
        counts[pref_scan(counts, 1, 0)].0
    }
}

impl FieldStats {
    /// An empty tally.
    pub fn new() -> (r: FieldStats)
        ensures
            r.total == 0,
            r.type_counts@.len() == 0,
    {
        FieldStats { total: 0, type_counts: Vec::new() }
    }

    /// The first most frequent inferred type, or plain text.
    pub fn preferred_type(&self) -> (r: String)
        ensures
            r@ == spec_preferred(counts_view(self.type_counts@)),
    {
        let ghost cv = counts_view(self.type_counts@);
        if self.type_counts.len() == 0 {
            return "string".to_owned();
        }
        let mut best: usize = 0;
        let mut i: usize = 1;
        while i < self.type_counts.len()
            invariant
                best < self.type_counts@.len(),
                1 <= i,
                cv == counts_view(self.type_counts@),
                cv.len() > 0,
                pref_scan(cv, 1, 0) == pref_scan(cv, i as int, best as int),
            decreases self.type_counts@.len() - i,
        {
            if self.type_counts[i].1 > self.type_counts[best].1 {
                best = i;
            }
            i = i + 1;
        }
        self.type_counts[best].0.clone()
    }
}

/// First index at or after `from` whose key equals `key`, or the length.
fn assoc_index_exec(stats: &Vec<(String, FieldStats)>, key: &String) -> (r: usize)
    ensures
        r as int == assoc_index(stats_view(stats@), key@, 0),
        r <= stats@.len(),
{
    let ghost sv = stats_view(stats@);
    let mut i: usize = 0;
    while i < stats.len()
        invariant
            i <= stats@.len(),
            sv == stats_view(stats@),
            assoc_index(sv, key@, 0) == assoc_index(sv, key@, i as int),
        decreases stats@.len() - i,
    {
        proof {
            assert(sv[i as int].0 == stats@[i as int].0@);
        }
        if stats[i].0 == *key {
            return i;
        }
        i = i + 1;
    }
    stats.len()
}

/// First index at or after `from` whose type name equals `t`.
fn counts_index_exec(counts: &Vec<(String, u32)>, t: &String) -> (r: usize)
    ensures
        r as int == assoc_index(counts_view(counts@), t@, 0),
        r <= counts@.len(),
{
    let ghost cv = counts_view(counts@);
    let mut i: usize = 0;
    while i < counts.len()
        invariant
            i <= counts@.len(),
            cv == counts_view(counts@),
            assoc_index(cv, t@, 0) == assoc_index(cv, t@, i as int),
        decreases counts@.len() - i,
    {
        proof {
            assert(cv[i as int].0 == counts@[i as int].0@);
        }
        if counts[i].0 == *t {
            return i;
        }
        i = i + 1;
    }
    counts.len()
}

/// The tally of inferred types with one more observation of `t`.
fn bump_counts_exec(counts: &Vec<(String, u32)>, t: &String) -> (r: Vec<(String, u32)>)
    ensures
        counts_view(r@) == bump_counts(counts_view(counts@), t@),
{
    let ghost cv = counts_view(counts@);
    let ti = counts_index_exec(counts, t);
    let mut out: Vec<(String, u32)> = Vec::new();
    let mut j: usize = 0;
    proof {
        assert(counts_view(out@) =~= cv.take(0).map_values(|p: (Seq<char>, u32)| p));
    }
    while j < counts.len()
        invariant
            j <= counts@.len(),
            cv == counts_view(counts@),
            ti as int == assoc_index(cv, t@, 0),
            ti <= counts@.len(),
            counts_view(out@) == (if ti < counts@.len() {
                cv.update(ti as int, (cv[ti as int].0, bump_u32(cv[ti as int].1)))
            } else {
                cv
            }).take(j as int),
        decreases counts@.len() - j,
    {
        let c = counts[j].1;
        let bumped: u32 = if j == ti && c < u32::MAX {
            c + 1
        } else {
            c
        };
        let ghost prev = out@;
        out.push((counts[j].0.clone(), bumped));
        proof {
            let target = if ti < counts@.len() {
                cv.update(ti as int, (cv[ti as int].0, bump_u32(cv[ti as int].1)))
            } else {
                cv
            };
            assert(counts_view(out@) =~= counts_view(prev).push((counts@[j as int].0@, bumped)));
            assert(target.take(j + 1 as int) =~= target.take(j as int).push(target[j as int]));
            assert(target[j as int] == (counts@[j as int].0@, bumped));
        }
        j = j + 1;
    }
    proof {
        let target = if ti < counts@.len() {
            cv.update(ti as int, (cv[ti as int].0, bump_u32(cv[ti as int].1)))
        } else {
            cv
        };
        assert(target.take(target.len() as int) =~= target);
    }
    if ti == counts.len() {
        let ghost prev = out@;
        out.push((t.clone(), 1));
        proof {
            assert(counts_view(out@) =~= counts_view(prev).push((t@, 1u32)));
            assert(counts_view(out@) =~= bump_counts(cv, t@));
        }
    }
    out
}

/// Adds one observed field to the tally.
fn observe_exec(stats: &mut Vec<(String, FieldStats)>, key: &String, inferred: &Option<String>)
    ensures
        stats_view(final(stats)@) == observe(
            stats_view(old(stats)@),
            key@,
            (match inferred {
                Some(t) => Some(t@),
                None => None,
            }),
        ),
{
    let ghost sv = stats_view(stats@);
    let ghost infv: Option<Seq<char>> = match inferred {
        Some(t) => Some(t@),
        None => None,
    };
    let si = assoc_index_exec(stats, key);
    if si < stats.len() {
        let (kname, mut st) = stats.remove(si);
        if st.total < u32::MAX {
            st.total = st.total + 1;
        }
        match inferred {
            Some(t) => {
                st.type_counts = bump_counts_exec(&st.type_counts, t);
            },
            None => {},
        }
        let ghost stv = st@;
        let ghost after_remove = stats@;
        stats.insert(si, (kname, st));
        proof {
            assert(stats_view(stats@) =~= observe(sv, key@, infv)) by {
                let target = observe(sv, key@, infv);
                assert(sv[si as int].1 == old(stats)@[si as int].1@);
                assert forall|j: int| 0 <= j < stats@.len() implies stats_view(stats@)[j]
                    == target[j] by {
                    assert(stats_view(stats@)[j] == (stats@[j].0@, stats@[j].1@));
                    if j < si {
                        assert(stats@[j] == old(stats)@[j]);
                    } else if j == si {
                        assert(stats@[j].0 == old(stats)@[si as int].0);
                        assert(stats@[j].1@ == stv);
                    } else {
                        assert(after_remove[j - 1] == old(stats)@[j]);
                        assert(stats@[j] == after_remove[j - 1]);
                    }
                }
            }
        }
    } else {
        let total: u32 = 1;
        let counts: Vec<(String, u32)> = match inferred {
            Some(t) => {
                let mut c: Vec<(String, u32)> = Vec::new();
                c.push((t.clone(), 1));
                proof {
                    assert(counts_view(c@) =~= Seq::<(Seq<char>, u32)>::empty().push((t@, 1u32)));
                    assert(assoc_index(Seq::<(Seq<char>, u32)>::empty(), t@, 0) == 0);
                    assert(counts_view(c@) =~= bump_counts(Seq::<(Seq<char>, u32)>::empty(), t@));
                }
                c
            },
            None => Vec::new(),
        };
        let st = FieldStats { total, type_counts: counts };
        let ghost stv = st@;
        stats.push((key.clone(), st));
        proof {
            assert(counts_view(Seq::<(String, u32)>::empty()) =~= Seq::<(Seq<char>, u32)>::empty());
            assert(stats_view(stats@) =~= sv.push((key@, stv)));
            assert(stats_view(stats@) =~= observe(sv, key@, infv));
        }
    }
}



pub proof fn lemma_assoc_index_props<T>(s: Seq<(Seq<char>, T)>, k: Seq<char>, i: int)
    requires
        0 <= i <= s.len(),
    ensures
        i <= assoc_index(s, k, i) <= s.len(),
        forall|j: int| i <= j < assoc_index(s, k, i) ==> (#[trigger] s[j]).0 != k,
        assoc_index(s, k, i) < s.len() ==> s[assoc_index(s, k, i)].0 == k,
    decreases s.len() - i,
{
    if i < s.len() && s[i].0 != k {
        lemma_assoc_index_props(s, k, i + 1);
    }
}

/// No two tally entries share a key.
pub open spec fn stats_keys_distinct(sv: Seq<(Seq<char>, (u32, Seq<(Seq<char>, u32)>))>) -> bool {
    forall|i: int, j: int| 0 <= i < j < sv.len() ==> (#[trigger] sv[i]).0 != (#[trigger] sv[j]).0
}

pub proof fn lemma_observe_distinct(
    sv: Seq<(Seq<char>, (u32, Seq<(Seq<char>, u32)>))>,
    k: Seq<char>,
    inf: Option<Seq<char>>,
)
    requires
        stats_keys_distinct(sv),
    ensures
        stats_keys_distinct(observe(sv, k, inf)),
{
    lemma_assoc_index_props(sv, k, 0);
    let r = observe(sv, k, inf);
    let idx = assoc_index(sv, k, 0);
    assert forall|i: int, j: int|
        0 <= i < j < r.len() implies (#[trigger] r[i]).0 != (#[trigger] r[j]).0 by {
        if idx < sv.len() {
            assert(r[i].0 == sv[i].0 && r[j].0 == sv[j].0);
        } else {
            if j < sv.len() {
                assert(r[i].0 == sv[i].0 && r[j].0 == sv[j].0);
            } else {
                assert(r[i].0 == sv[i].0 && r[j].0 == k);
            }
        }
    }
}

pub proof fn lemma_observe_fields_distinct(
    sv: Seq<(Seq<char>, (u32, Seq<(Seq<char>, u32)>))>,
    fields: Seq<(Seq<char>, crate::model::ValueV)>,
    j: int,
)
    requires
        stats_keys_distinct(sv),
    ensures
        stats_keys_distinct(observe_fields(sv, fields, j)),
    decreases fields.len() - j,
{
    if 0 <= j < fields.len() {
        lemma_observe_distinct(sv, fields[j].0, spec_infer_type(fields[j].1));
        lemma_observe_fields_distinct(
            observe(sv, fields[j].0, spec_infer_type(fields[j].1)),
            fields,
            j + 1,
        );
    }
}

pub proof fn lemma_collect_from_distinct(
    sv: Seq<(Seq<char>, (u32, Seq<(Seq<char>, u32)>))>,
    fms: Seq<crate::model::FmV>,
    i: int,
)
    requires
        stats_keys_distinct(sv),
    ensures
        stats_keys_distinct(collect_from(sv, fms, i)),
    decreases fms.len() - i,
{
    if 0 <= i < fms.len() {
        lemma_observe_fields_distinct(sv, fms[i].custom_fields, 0);
        lemma_collect_from_distinct(observe_fields(sv, fms[i].custom_fields, 0), fms, i + 1);
    }
}

/// The whole tally holds each open-bag key once: one entry per distinct
/// observed custom key.
pub proof fn lemma_collect_stats_keys_distinct(fms: Seq<crate::model::FmV>)
    ensures
        stats_keys_distinct(collect_stats(fms)),
{
    lemma_collect_from_distinct(Seq::empty(), fms, 0);
}

/// How often the named key was tallied, zero when it never was.
pub open spec fn spec_field_total(
    sv: Seq<(Seq<char>, (u32, Seq<(Seq<char>, u32)>))>,
    n: Seq<char>,
) -> u32 {
    let i = assoc_index(sv, n, 0);
    if i < sv.len() {
        sv[i].1.0
    } else {
        0u32
    }
}

/// Whether the tally holds an entry for this key.
pub open spec fn stats_contains(
    sv: Seq<(Seq<char>, (u32, Seq<(Seq<char>, u32)>))>,
    n: Seq<char>,
) -> bool {
    assoc_index(sv, n, 0) < sv.len()
}

/// How often the named field was seen, zero when it never was.
fn field_total(stats: &Vec<(String, FieldStats)>, name: &String) -> (r: u32)
    ensures
        r == spec_field_total(stats_view(stats@), name@),
{
    let si = assoc_index_exec(stats, name);
    if si < stats.len() {
        proof {
            assert(stats_view(stats@)[si as int].1 == stats@[si as int].1@);
        }
        stats[si].1.total
    } else {
        0
    }
}

/// Whether the tally holds an entry for this key.
fn stats_has_key(stats: &Vec<(String, FieldStats)>, name: &String) -> (r: bool)
    ensures
        r == stats_contains(stats_view(stats@), name@),
{
    let si = assoc_index_exec(stats, name);
    si < stats.len()
}

/// The well-known preview field names, in preference order.
pub open spec fn preferred_names() -> Seq<Seq<char>> {
    seq!["list_image"@, "cover"@, "thumbnail"@, "main_image"@, "banner"@, "image"@]
}

pub open spec fn contains_name(fs: Seq<Seq<char>>, n: Seq<char>) -> bool {
    exists|i: int| 0 <= i < fs.len() && fs[i] == n
}

/// The first well-known name, from `pi` on, that occurs among the image
/// fields.
pub open spec fn first_preferred(fs: Seq<Seq<char>>, pi: int) -> Option<Seq<char>>
    decreases preferred_names().len() - pi,
{
    if pi < 0 || pi >= preferred_names().len() {
        None
    } else if contains_name(fs, preferred_names()[pi]) {
        Some(preferred_names()[pi])
    } else {
        first_preferred(fs, pi + 1)
    }
}

/// Index of the first image field with the greatest tally total, scanning
/// from `k` with `best` the best so far.
pub open spec fn best_total_scan(
    sv: Seq<(Seq<char>, (u32, Seq<(Seq<char>, u32)>))>,
    fs: Seq<Seq<char>>,
    k: int,
    best: int,
) -> int
    decreases fs.len() - k,
{
    if k < 0 || k >= fs.len() || best < 0 || best >= fs.len() {
        best
    } else if spec_field_total(sv, fs[k]) > spec_field_total(sv, fs[best]) {
        best_total_scan(sv, fs, k + 1, k)
    } else {
        best_total_scan(sv, fs, k + 1, best)
    }
}

/// The preview pick: nothing without image fields; else the first
/// well-known name among them, else the most often seen image field,
/// earliest on ties.
pub open spec fn spec_pick_preview(
    sv: Seq<(Seq<char>, (u32, Seq<(Seq<char>, u32)>))>,
    fs: Seq<Seq<char>>,
) -> Option<Seq<char>> {
    if fs.len() == 0 {
        None
    } else {
        match first_preferred(fs, 0) {
            Some(n) => Some(n),
            None => Some(fs[best_total_scan(sv, fs, 1, 0)]),
        }
    }
}

/// Picks the preview-image field.
pub fn pick_preview_image_field(
    stats: &Vec<(String, FieldStats)>,
    image_fields: &Vec<String>,
) -> (r: Option<String>)
    ensures
        (match r {
            Some(s) => spec_pick_preview(
                stats_view(stats@),
                crate::model::strings_view(image_fields@),
            ) == Some(s@),
            None => spec_pick_preview(
                stats_view(stats@),
                crate::model::strings_view(image_fields@),
            ) is None,
        }),
{
    let ghost sv = stats_view(stats@);
    let ghost fsv = crate::model::strings_view(image_fields@);
    if image_fields.len() == 0 {
        return None;
    }
    let preferred: Vec<&str> = vec![
        "list_image",
        "cover",
        "thumbnail",
        "main_image",
        "banner",
        "image",
    ];
    proof {
        assert(preferred@[0]@ == preferred_names()[0]);
        assert(preferred@[1]@ == preferred_names()[1]);
        assert(preferred@[2]@ == preferred_names()[2]);
        assert(preferred@[3]@ == preferred_names()[3]);
        assert(preferred@[4]@ == preferred_names()[4]);
        assert(preferred@[5]@ == preferred_names()[5]);
    }
    let mut pi: usize = 0;
    while pi < 6
        invariant
            pi <= 6,
            preferred@.len() == 6,
            image_fields@.len() > 0,
            sv == stats_view(stats@),
            fsv == crate::model::strings_view(image_fields@),
            forall|q: int| 0 <= q < 6 ==> (#[trigger] preferred@[q])@ == preferred_names()[q],
            first_preferred(fsv, 0) == first_preferred(fsv, pi as int),
        decreases 6 - pi,
    {
        let cand = preferred[pi].to_owned();
        let mut fi: usize = 0;
        while fi < image_fields.len()
            invariant
                fi <= image_fields@.len(),
                cand@ == preferred_names()[pi as int],
                pi < 6,
                image_fields@.len() > 0,
                fsv == crate::model::strings_view(image_fields@),
                first_preferred(fsv, 0) == first_preferred(fsv, pi as int),
                forall|j: int| 0 <= j < fi ==> fsv[j] != cand@,
            decreases image_fields@.len() - fi,
        {
            proof {
                assert(fsv[fi as int] == image_fields@[fi as int]@);
            }
            if image_fields[fi] == cand {
                proof {
                    assert(contains_name(fsv, preferred_names()[pi as int]));
                    assert(first_preferred(fsv, pi as int) == Some(cand@));
                }
                return Some(cand);
            }
            fi = fi + 1;
        }
        proof {
            assert(!contains_name(fsv, preferred_names()[pi as int])) by {
                if contains_name(fsv, preferred_names()[pi as int]) {
                    let j = choose|j: int|
                        0 <= j < fsv.len() && fsv[j] == preferred_names()[pi as int];
                }
            }
        }
        pi = pi + 1;
    }
    proof {
        assert(first_preferred(fsv, 6) is None);
    }
    let mut best: usize = 0;
    let mut best_count: u32 = field_total(stats, &image_fields[0]);
    proof {
        assert(fsv[0] == image_fields@[0]@);
    }
    let mut k: usize = 1;
    while k < image_fields.len()
        invariant
            1 <= k,
            best < image_fields@.len(),
            image_fields@.len() > 0,
            sv == stats_view(stats@),
            fsv == crate::model::strings_view(image_fields@),
            best_count == spec_field_total(sv, fsv[best as int]),
            best_total_scan(sv, fsv, 1, 0) == best_total_scan(sv, fsv, k as int, best as int),
        decreases image_fields@.len() - k,
    {
        proof {
            assert(fsv[k as int] == image_fields@[k as int]@);
        }
        let c = field_total(stats, &image_fields[k]);
        if c > best_count {
            best = k;
            best_count = c;
        }
        k = k + 1;
    }
    proof {
        assert(fsv[best as int] == image_fields@[best as int]@);
    }
    Some(image_fields[best].clone())
}

/// One configured field agreeing with one tally entry: the entry's key as
/// name, the formatted label, the preferred type, and nothing else set.
pub open spec fn field_matches(
    f: FrontmatterField,
    e: (Seq<char>, (u32, Seq<(Seq<char>, u32)>)),
) -> bool {
    &&& f.name@ == e.0
    &&& (f.label matches Some(l) && l@ == spec_format_label(e.0))
    &&& f.field_type@ == spec_preferred(e.1.1)
    &&& f.description is None
    &&& f.ui is None
}

/// The names of the image-typed fields, in order.
pub open spec fn image_names_of(fields: Seq<FrontmatterField>, i: int) -> Seq<Seq<char>>
    decreases fields.len() - i,
{
    if i < 0 || i >= fields.len() {
        Seq::empty()
    } else if fields[i].field_type@ == "image"@ {
        seq![fields[i].name@] + image_names_of(fields, i + 1)
    } else {
        image_names_of(fields, i + 1)
    }
}

/// The companion names of one image field: its snake-case alt key when
/// that key was observed, else its camel-case alt key when that one was.
pub open spec fn alt_names_of(
    sv: Seq<(Seq<char>, (u32, Seq<(Seq<char>, u32)>))>,
    n: Seq<char>,
) -> Seq<Seq<char>> {
    if stats_contains(sv, n + "_alt"@) {
        seq![n + "_alt"@]
    } else if stats_contains(sv, n + "Alt"@) {
        seq![n + "Alt"@]
    } else {
        Seq::empty()
    }
}

/// The image group's field list: each image field followed by its
/// companion, from `i` on.
pub open spec fn group_fields_of(
    sv: Seq<(Seq<char>, (u32, Seq<(Seq<char>, u32)>))>,
    names: Seq<Seq<char>>,
    i: int,
) -> Seq<Seq<char>>
    decreases names.len() - i,
{
    if i < 0 || i >= names.len() {
        Seq::empty()
    } else {
        seq![names[i]] + alt_names_of(sv, names[i]) + group_fields_of(sv, names, i + 1)
    }
}

/// Sorts configured fields by name; the result is a permutation of the
/// input.
fn sort_fields_by_name(input: Vec<FrontmatterField>) -> (r: Vec<FrontmatterField>)
    ensures
        forall|i: int, j: int|
            0 <= i < j < r@.len() ==> crate::assets::lex_leq(
                (#[trigger] r@[i]).name@,
                (#[trigger] r@[j]).name@,
            ),
        r@.to_multiset() == input@.to_multiset(),
{
    broadcast use vstd::seq_lib::group_to_multiset_ensures;

    let mut v = input;
    let ghost orig = v@;
    let mut out: Vec<FrontmatterField> = Vec::new();
    proof {
        assert(out@.to_multiset().add(v@.to_multiset()) =~= orig.to_multiset());
    }
    while v.len() > 0
        invariant
            out@.to_multiset().add(v@.to_multiset()) == orig.to_multiset(),
            forall|i: int, j: int|
                0 <= i < j < out@.len() ==> crate::assets::lex_leq(
                    (#[trigger] out@[i]).name@,
                    (#[trigger] out@[j]).name@,
                ),
            forall|i: int, j: int|
                0 <= i < out@.len() && 0 <= j < v@.len() ==> crate::assets::lex_leq(
                    (#[trigger] out@[i]).name@,
                    (#[trigger] v@[j]).name@,
                ),
        decreases v@.len(),
    {
        let mut best: usize = 0;
        proof {
            crate::assets::lemma_lex_total(v@[0].name@, v@[0].name@);
        }
        let mut k: usize = 1;
        while k < v.len()
            invariant
                best < k <= v@.len() || (k <= v@.len() && best == 0),
                best < v@.len(),
                v@.len() > 0,
                forall|j: int|
                    0 <= j < k ==> crate::assets::lex_leq(
                        v@[best as int].name@,
                        (#[trigger] v@[j]).name@,
                    ),
            decreases v@.len() - k,
        {
            let bn = crate::text::chars_of(v[best].name.as_str());
            let kn = crate::text::chars_of(v[k].name.as_str());
            if !crate::assets::lex_leq_exec(&bn, &kn) {
                proof {
                    crate::assets::lemma_lex_total(bn@, kn@);
                }
                assert forall|j: int|
                    0 <= j < k + 1 implies crate::assets::lex_leq(
                    v@[k as int].name@,
                    (#[trigger] v@[j]).name@,
                ) by {
                    if j < k {
                        crate::assets::lemma_lex_trans(
                            v@[k as int].name@,
                            v@[best as int].name@,
                            v@[j].name@,
                        );
                    } else {
                        crate::assets::lemma_lex_total(v@[k as int].name@, v@[k as int].name@);
                    }
                }
                best = k;
            }
            k = k + 1;
        }
        let ghost before = v@;
        let x = v.remove(best);
        let ghost outb = out@;
        out.push(x);
        proof {
            broadcast use vstd::seq_lib::group_to_multiset_ensures;

            assert(before.remove(best as int).to_multiset() =~= before.to_multiset().remove(
                before[best as int],
            ));
            assert(outb.push(x).to_multiset() =~= outb.to_multiset().insert(x));
            assert(out@.to_multiset().add(v@.to_multiset()) =~= orig.to_multiset()) by {
                assert(before.to_multiset().count(x) > 0) by {
                    assert(before.contains(x)) by {
                        assert(before[best as int] == x);
                    }
                }
                assert(outb.to_multiset().insert(x).add(before.to_multiset().remove(x))
                    =~= outb.to_multiset().add(before.to_multiset()));
            }
            assert forall|i: int, j: int|
                0 <= i < out@.len() && 0 <= j < v@.len() implies crate::assets::lex_leq(
                (#[trigger] out@[i]).name@,
                (#[trigger] v@[j]).name@,
            ) by {
                if i < out@.len() - 1 {
                    assert(out@[i] == outb[i]);
                }
                if j < best {
                    assert(v@[j] == before[j]);
                } else {
                    assert(v@[j] == before[j + 1]);
                }
            }
        }
    }
    out
}


/// Synthesizes an editing configuration from the open-bag fields of the
/// given parsed frontmatter records: every custom key observed becomes a
/// configured field carrying its formatted label and its most frequent
/// inferred type, in name order; the image-typed fields are grouped with
/// their companions and one is picked for previews.
#[verifier::rlimit(100)]
pub fn generate_frontmatter_config(fms: &Vec<Frontmatter>) -> (r: FrontmatterConfig)
    ensures
        r.version@ == "1.0"@,
        !r.is_default,
        forall|i: int, j: int|
            0 <= i < j < r.custom_fields@.len() ==> crate::assets::lex_leq(
                (#[trigger] r.custom_fields@[i]).name@,
                (#[trigger] r.custom_fields@[j]).name@,
            ),
        r.custom_fields@.len() == collect_stats(fms_view(fms@)).len(),
        forall|i: int|
            0 <= i < r.custom_fields@.len() ==> exists|j: int|
                0 <= j < collect_stats(fms_view(fms@)).len() && field_matches(
                    #[trigger] r.custom_fields@[i],
                    collect_stats(fms_view(fms@))[j],
                ),
        forall|j: int|
            0 <= j < collect_stats(fms_view(fms@)).len() ==> exists|i: int|
                0 <= i < r.custom_fields@.len() && (#[trigger] r.custom_fields@[i]).name@
                    == (#[trigger] collect_stats(fms_view(fms@))[j]).0,
        crate::model::opt_string_view(r.preview_image_field) == spec_pick_preview(
            collect_stats(fms_view(fms@)),
            image_names_of(r.custom_fields@, 0),
        ),
        image_names_of(r.custom_fields@, 0).len() == 0 ==> r.field_groups@.len() == 0,
        image_names_of(r.custom_fields@, 0).len() > 0 ==> r.field_groups@.len() == 1 && (
        r.field_groups@[0].name@ == "images"@ && crate::model::opt_string_view(
            r.field_groups@[0].label,
        ) == Some("Images"@) && r.field_groups@[0].collapsed == Some(false)
            && crate::model::strings_view(r.field_groups@[0].fields@) == group_fields_of(
            collect_stats(fms_view(fms@)),
            image_names_of(r.custom_fields@, 0),
            0,
        )),
{
    let ghost fv = fms_view(fms@);
    let mut stats: Vec<(String, FieldStats)> = Vec::new();
    let mut di: usize = 0;
    proof {
        assert(stats_view(stats@) =~= Seq::<(Seq<char>, (u32, Seq<(Seq<char>, u32)>))>::empty());
    }
    while di < fms.len()
        invariant
            di <= fms@.len(),
            fv == fms_view(fms@),
            collect_stats(fv) == collect_from(stats_view(stats@), fv, di as int),
        decreases fms@.len() - di,
    {
        let fm = &fms[di];
        let ghost fieldsv = fv[di as int].custom_fields;
        let ghost sv_entry = stats_view(stats@);
        proof {
            assert(fv[di as int] == fms@[di as int]@);
            assert(fieldsv == crate::model::customs_view(fm.custom_fields@));
        }
        let mut ci: usize = 0;
        while ci < fm.custom_fields.len()
            invariant
                ci <= fm.custom_fields@.len(),
                fv == fms_view(fms@),
                di < fms@.len(),
                fieldsv == crate::model::customs_view(fm.custom_fields@),
                fieldsv == fv[di as int].custom_fields,
                collect_stats(fv) == collect_from(sv_entry, fv, di as int),
                observe_fields(sv_entry, fieldsv, 0) == observe_fields(
                    stats_view(stats@),
                    fieldsv,
                    ci as int,
                ),
            decreases fm.custom_fields@.len() - ci,
        {
            let key = &fm.custom_fields[ci].0;
            let inferred = infer_value_type(&fm.custom_fields[ci].1);
            proof {
                assert(fieldsv[ci as int] == (fm.custom_fields@[ci as int].0@, fm.custom_fields@[
                    ci as int].1@));
            }
            observe_exec(&mut stats, key, &inferred);
            ci = ci + 1;
        }
        proof {
            assert(observe_fields(stats_view(stats@), fieldsv, ci as int) == stats_view(stats@));
            assert(collect_from(sv_entry, fv, di as int) == collect_from(
                stats_view(stats@),
                fv,
                di + 1,
            ));
        }
        di = di + 1;
    }
    let ghost sv = stats_view(stats@);
    proof {
        assert(collect_from(sv, fv, di as int) == sv);
        assert(collect_stats(fv) == sv);
    }
    let mut fields: Vec<FrontmatterField> = Vec::new();
    let mut fi: usize = 0;
    while fi < stats.len()
        invariant
            fi <= stats@.len(),
            sv == stats_view(stats@),
            fields@.len() == fi,
            forall|j: int| 0 <= j < fi ==> field_matches(#[trigger] fields@[j], sv[j]),
        decreases stats@.len() - fi,
    {
        let name = stats[fi].0.clone();
        let label = format_label(name.as_str());
        let ftype = stats[fi].1.preferred_type();
        proof {
            assert(sv[fi as int] == (stats@[fi as int].0@, stats@[fi as int].1@));
        }
        fields.push(
            FrontmatterField {
                name,
                label: Some(label),
                field_type: ftype,
                description: None,
                ui: None,
            },
        );
        fi = fi + 1;
    }
    let ghost unsorted = fields@;
    let fields = sort_fields_by_name(fields);
    proof {
        broadcast use vstd::seq_lib::group_to_multiset_ensures;

        assert(fields@.len() == fields@.to_multiset().len());
        assert(unsorted.len() == unsorted.to_multiset().len());
        assert(fields@.len() == unsorted.len());
        assert forall|i: int|
            0 <= i < fields@.len() implies exists|j: int|
            0 <= j < sv.len() && field_matches(#[trigger] fields@[i], sv[j]) by {
            assert(fields@.contains(fields@[i]));
            assert(fields@.to_multiset().count(fields@[i]) > 0);
            assert(unsorted.to_multiset().count(fields@[i]) > 0);
            assert(unsorted.contains(fields@[i]));
            let j = choose|j: int| 0 <= j < unsorted.len() && unsorted[j] == fields@[i];
            assert(field_matches(unsorted[j], sv[j]));
        }
        assert forall|j: int|
            0 <= j < sv.len() implies exists|i: int|
            0 <= i < fields@.len() && (#[trigger] fields@[i]).name@ == (#[trigger] sv[j]).0 by {
            assert(unsorted.contains(unsorted[j]));
            assert(unsorted.to_multiset().count(unsorted[j]) > 0);
            assert(fields@.to_multiset().count(unsorted[j]) > 0);
            assert(fields@.contains(unsorted[j]));
            let i = choose|i: int| 0 <= i < fields@.len() && fields@[i] == unsorted[j];
            assert(field_matches(unsorted[j], sv[j]));
        }
    }
    let image_label = "image".to_owned();
    let mut image_fields: Vec<String> = Vec::new();
    let mut gi: usize = 0;
    proof {
        assert(crate::model::strings_view(image_fields@) + image_names_of(fields@, 0)
            =~= image_names_of(fields@, 0));
    }
    while gi < fields.len()
        invariant
            gi <= fields@.len(),
            image_label@ == "image"@,
            image_names_of(fields@, 0) == crate::model::strings_view(image_fields@)
                + image_names_of(fields@, gi as int),
        decreases fields@.len() - gi,
    {
        if fields[gi].field_type == image_label {
            let ghost prev = image_fields@;
            image_fields.push(fields[gi].name.clone());
            proof {
                assert(crate::model::strings_view(image_fields@) =~= crate::model::strings_view(
                    prev,
                ).push(fields@[gi as int].name@));
                assert(crate::model::strings_view(prev) + (seq![fields@[gi as int].name@]
                    + image_names_of(fields@, gi + 1)) =~= crate::model::strings_view(prev).push(
                    fields@[gi as int].name@,
                ) + image_names_of(fields@, gi + 1));
            }
        }
        gi = gi + 1;
    }
    proof {
        assert(image_names_of(fields@, fields@.len() as int) =~= Seq::<Seq<char>>::empty());
        assert(crate::model::strings_view(image_fields@) + Seq::<Seq<char>>::empty()
            =~= crate::model::strings_view(image_fields@));
    }
    let ghost namesv = crate::model::strings_view(image_fields@);
    let preview_image_field = pick_preview_image_field(&stats, &image_fields);
    let mut field_groups: Vec<FrontmatterFieldGroup> = Vec::new();
    if image_fields.len() > 0 {
        let mut group_fields: Vec<String> = Vec::new();
        let mut ii: usize = 0;
        proof {
            assert(crate::model::strings_view(group_fields@) + group_fields_of(sv, namesv, 0)
                =~= group_fields_of(sv, namesv, 0));
        }
        while ii < image_fields.len()
            invariant
                ii <= image_fields@.len(),
                sv == stats_view(stats@),
                namesv == crate::model::strings_view(image_fields@),
                group_fields_of(sv, namesv, 0) == crate::model::strings_view(group_fields@)
                    + group_fields_of(sv, namesv, ii as int),
            decreases image_fields@.len() - ii,
        {
            proof {
                assert(namesv[ii as int] == image_fields@[ii as int]@);
            }
            let ghost prev0 = group_fields@;
            group_fields.push(image_fields[ii].clone());
            let snake_alt = image_fields[ii].clone().concat("_alt");
            let camel_alt = image_fields[ii].clone().concat("Alt");
            let has_snake = stats_has_key(&stats, &snake_alt);
            let has_camel = stats_has_key(&stats, &camel_alt);
            let ghost prev1 = group_fields@;
            if has_snake {
                group_fields.push(snake_alt);
            } else if has_camel {
                group_fields.push(camel_alt);
            }
            proof {
                let n = namesv[ii as int];
                assert(crate::model::strings_view(prev1) =~= crate::model::strings_view(
                    prev0,
                ).push(n));
                assert(crate::model::strings_view(group_fields@) =~= crate::model::strings_view(
                    prev1,
                ) + alt_names_of(sv, n));
                assert(crate::model::strings_view(prev0) + (seq![n] + alt_names_of(sv, n)
                    + group_fields_of(sv, namesv, ii + 1)) =~= (crate::model::strings_view(
                    prev0,
                ).push(n) + alt_names_of(sv, n)) + group_fields_of(sv, namesv, ii + 1));
            }
            ii = ii + 1;
        }
        proof {
            assert(group_fields_of(sv, namesv, namesv.len() as int) =~= Seq::<Seq<char>>::empty());
            assert(crate::model::strings_view(group_fields@) + Seq::<Seq<char>>::empty()
                =~= crate::model::strings_view(group_fields@));
        }
        field_groups.push(
            FrontmatterFieldGroup {
                name: "images".to_owned(),
                label: Some("Images".to_owned()),
                fields: group_fields,
                collapsed: Some(false),
            },
        );
    }
    proof {
        if namesv.len() == 0 {
            assert(field_groups@.len() == 0);
        }
        assert(image_names_of(fields@, 0) == namesv);
    }
    FrontmatterConfig {
        version: "1.0".to_owned(),
        preview_image_field,
        is_default: false,
        custom_fields: fields,
        field_groups,
    }
}

} // verus!
