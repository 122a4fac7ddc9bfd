//! The frontmatter data model: scalar values, field values, the fixed-schema
//! record with its open field bag, and the parsed document.

use vstd::prelude::*;

verus! {

/// Mathematical form of a scalar frontmatter value.
#[verifier::ext_equal]
pub enum ScalarV {
    Text(Seq<char>),
    Flag(bool),
    Num(Seq<char>),
    Null,
}

/// Mathematical form of a field value: one scalar, a list of scalars, or a
/// one-level nested mapping of scalars.
#[verifier::ext_equal]
pub enum ValueV {
    One(ScalarV),
    Items(Seq<ScalarV>),
    Table(Seq<(Seq<char>, ScalarV)>),
}

/// A scalar frontmatter value. Numbers keep their literal decimal text, so
/// that re-encoding loses nothing.
pub enum Scalar {
    Text(String),
    Flag(bool),
    Num(String),
    Null,
}

impl View for Scalar {
    type V = ScalarV;

    open spec fn view(&self) -> ScalarV {
        match self {
            Scalar::Text(s) => ScalarV::Text(s@),
            Scalar::Flag(b) => ScalarV::Flag(*b),
            Scalar::Num(s) => ScalarV::Num(s@),
            Scalar::Null => ScalarV::Null,
        }
    }
}

/// The value of one frontmatter field.
pub enum FieldValue {
    One(Scalar),
    Items(Vec<Scalar>),
    Table(Vec<(String, Scalar)>),
}

pub open spec fn scalars_view(v: Seq<Scalar>) -> Seq<ScalarV> {
    v.map_values(|s: Scalar| s@)
}

pub open spec fn table_view(v: Seq<(String, Scalar)>) -> Seq<(Seq<char>, ScalarV)> {
    v.map_values(|p: (String, Scalar)| (p.0@, p.1@))
}

impl View for FieldValue {
    type V = ValueV;

    open spec fn view(&self) -> ValueV {
        match self {
            FieldValue::One(s) => ValueV::One(s@),
            FieldValue::Items(v) => ValueV::Items(scalars_view(v@)),
            FieldValue::Table(v) => ValueV::Table(table_view(v@)),
        }
    }
}

/// Mathematical form of a frontmatter record.
#[verifier::ext_equal]
pub struct FmV {
    pub title: Seq<char>,
    pub date: Seq<char>,
    pub tags: Seq<Seq<char>>,
    pub categories: Seq<Seq<char>>,
    pub updated: Option<Seq<char>>,
    pub comments: Option<bool>,
    pub layout: Option<Seq<char>>,
    pub permalink: Option<Seq<char>>,
    pub description: Option<Seq<char>>,
    pub draft: Option<bool>,
    pub custom_fields: Seq<(Seq<char>, ValueV)>,
}

/// The fixed-schema frontmatter record plus the open field bag, which keeps
/// the source's field order.
pub struct Frontmatter {
    pub title: String,
    pub date: String,
    pub tags: Vec<String>,
    pub categories: Vec<String>,
    pub updated: Option<String>,
    pub comments: Option<bool>,
    pub layout: Option<String>,
    pub permalink: Option<String>,
    pub description: Option<String>,
    pub draft: Option<bool>,
    pub custom_fields: Vec<(String, FieldValue)>,
}

pub open spec fn strings_view(v: Seq<String>) -> Seq<Seq<char>> {
    v.map_values(|s: String| s@)
}

pub open spec fn opt_string_view(o: Option<String>) -> Option<Seq<char>> {
    match o {
        Some(s) => Some(s@),
        None => None,
    }
}

pub open spec fn customs_view(v: Seq<(String, FieldValue)>) -> Seq<(Seq<char>, ValueV)> {
    v.map_values(|p: (String, FieldValue)| (p.0@, p.1@))
}

impl View for Frontmatter {
    type V = FmV;

    open spec fn view(&self) -> FmV {
        FmV {
            title: self.title@,
            date: self.date@,
            tags: strings_view(self.tags@),
            categories: strings_view(self.categories@),
            updated: opt_string_view(self.updated),
            comments: self.comments,
            layout: opt_string_view(self.layout),
            permalink: opt_string_view(self.permalink),
            description: opt_string_view(self.description),
            draft: self.draft,
            custom_fields: customs_view(self.custom_fields@),
        }
    }
}

/// Mathematical form of a parsed document.
#[verifier::ext_equal]
pub struct DocV {
    pub frontmatter: FmV,
    pub content: Seq<char>,
}

/// A parsed document: frontmatter plus the body text that followed it.
pub struct MarkdownDocument {
    pub frontmatter: Frontmatter,
    pub content: String,
}

impl View for MarkdownDocument {
    type V = DocV;

    open spec fn view(&self) -> DocV {
        DocV { frontmatter: self.frontmatter@, content: self.content@ }
    }
}

/// Whether `k` is one of the fixed-schema field names.
pub open spec fn known_key(k: Seq<char>) -> bool {
    k == "title"@ || k == "date"@ || k == "tags"@ || k == "categories"@ || k == "updated"@ || k
        == "comments"@ || k == "layout"@ || k == "permalink"@ || k == "description"@ || k
        == "draft"@
}

/// The open bag never holds a fixed-schema key, and holds each key once.
pub open spec fn fm_wf(fm: FmV) -> bool {
    &&& forall|i: int|
        0 <= i < fm.custom_fields.len() ==> !known_key(#[trigger] fm.custom_fields[i].0)
    &&& forall|i: int, j: int|
        0 <= i < j < fm.custom_fields.len() ==> (#[trigger] fm.custom_fields[i]).0 != (
        #[trigger] fm.custom_fields[j]).0
}

/// The frontmatter synthesized when no strategy recognizes the input.
pub open spec fn spec_default_fm() -> FmV {
    FmV {
        title: "Untitled Post"@,
        date: Seq::empty(),
        tags: Seq::empty(),
        categories: Seq::empty(),
        updated: None,
        comments: None,
        layout: None,
        permalink: None,
        description: None,
        draft: None,
        custom_fields: Seq::empty(),
    }
}

/// Builds the synthetic default frontmatter.
pub fn default_frontmatter() -> (r: Frontmatter)
    ensures
        r@ == spec_default_fm(),
{
    let r = Frontmatter {
        title: "Untitled Post".to_owned(),
        date: String::new(),
        tags: Vec::new(),
        categories: Vec::new(),
        updated: None,
        comments: None,
        layout: None,
        permalink: None,
        description: None,
        draft: None,
        custom_fields: Vec::new(),
    };
    proof {
        assert(strings_view(Seq::<String>::empty()) =~= Seq::<Seq<char>>::empty());
        assert(customs_view(Seq::<(String, FieldValue)>::empty()) =~= Seq::<
            (Seq<char>, ValueV),
        >::empty());
        assert(r@ =~= spec_default_fm());
    }
    r
}

} // verus!
