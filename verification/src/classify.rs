//! The content classifier: path predicates, the inclusion rules for posts,
//! pages and drafts, identifier normalization, title and date backfill,
//! and the listing order.

use vstd::prelude::*;

use crate::document::parse_spec;
use crate::document::serialize_spec;
use crate::model::DocV;
use crate::model::Frontmatter;
use crate::model::MarkdownDocument;
use crate::text::chars_of;
use crate::text::spec_trim;
use crate::text::string_from_chars;

verus! {

/// Path separators normalized to forward slashes.
pub open spec fn spec_normalize_seps(s: Seq<char>) -> Seq<char> {
    s.map_values(
        |c: char|
            if c == '\\' {
                '/'
            } else {
                c
            },
    )
}

/// The stable identifier of a file: its project-root-relative path with
/// separators normalized, whatever the host convention was.
pub fn normalize_id(path: &str) -> (r: String)
    ensures
        r@ == spec_normalize_seps(path@),
{
    let pc = chars_of(path);
    let mut out: Vec<char> = Vec::new();
    let mut i: usize = 0;
    while i < pc.len()
        invariant
            i <= pc@.len(),
            out@ == spec_normalize_seps(pc@.take(i as int)),
        decreases pc@.len() - i,
    {
        let c = pc[i];
        if c == '\\' {
            out.push('/');
        } else {
            out.push(c);
        }
        proof {
            assert(pc@.take(i + 1 as int) =~= pc@.take(i as int).push(pc@[i as int]));
            assert(out@ =~= spec_normalize_seps(pc@.take(i + 1 as int)));
        }
        i = i + 1;
    }
    proof {
        assert(pc@.take(pc@.len() as int) =~= pc@);
    }
    string_from_chars(&out)
}


/// Whether two character vectors hold the same text.
pub fn eq_chars(a: &Vec<char>, b: &Vec<char>) -> (r: bool)
    ensures
        r == (a@ == b@),
{
    if a.len() != b.len() {
        return false;
    }
    let mut i: usize = 0;
    while i < a.len()
        invariant
            a@.len() == b@.len(),
            i <= a@.len(),
            forall|k: int| 0 <= k < i ==> a@[k] == b@[k],
        decreases a@.len() - i,
    {
        if a[i] != b[i] {
            return false;
        }
        i = i + 1;
    }
    proof {
        assert(a@ =~= b@);
    }
    true
}

/// Index of the last occurrence of `c` in `s`, or `-1`.
pub open spec fn rfind_char(s: Seq<char>, c: char) -> int
    decreases s.len(),
{
    if s.len() == 0 {
        -1
    } else if s.last() == c {
        s.len() - 1
    } else {
        rfind_char(s.drop_last(), c)
    }
}

pub proof fn lemma_rfind_props(s: Seq<char>, c: char)
    ensures
        -1 <= rfind_char(s, c) < s.len(),
        rfind_char(s, c) >= 0 ==> s[rfind_char(s, c)] == c,
        forall|j: int| rfind_char(s, c) < j < s.len() ==> #[trigger] s[j] != c,
    decreases s.len(),
{
    if s.len() > 0 && s.last() != c {
        lemma_rfind_props(s.drop_last(), c);
        assert forall|j: int| rfind_char(s, c) < j < s.len() implies #[trigger] s[j] != c by {
            if j < s.len() - 1 {
                assert(s.drop_last()[j] == s[j]);
            }
        }
        if rfind_char(s, c) >= 0 {
            assert(s[rfind_char(s, c)] == s.drop_last()[rfind_char(s, c)]);
        }
    }
}

/// Last index of `c` in `s`, or `-1` encoded as `None`.
pub fn rfind_in(s: &Vec<char>, c: char) -> (r: Option<usize>)
    ensures
        (match r {
            Some(j) => rfind_char(s@, c) == j as int,
            None => rfind_char(s@, c) == -1,
        }),
{
    let mut i: usize = s.len();
    proof {
        assert(s@.take(s@.len() as int) =~= s@);
    }
    while i > 0
        invariant
            i <= s@.len(),
            rfind_char(s@, c) == rfind_char(s@.take(i as int), c),
        decreases i,
    {
        if s[i - 1] == c {
            proof {
                assert(s@.take(i as int).last() == s@[i - 1]);
            }
            return Some(i - 1);
        }
        proof {
            assert(s@.take(i as int).drop_last() =~= s@.take(i - 1 as int));
        }
        i = i - 1;
    }
    proof {
        assert(s@.take(0) =~= Seq::<char>::empty());
    }
    None
}

/// The file name of a path: everything after the last separator.
pub open spec fn base_name(path: Seq<char>) -> Seq<char> {
    path.skip(rfind_char(path, '/') + 1)
}

/// The parent of a path: everything before the last separator, or the
/// empty text when there is none.
pub open spec fn parent_of(path: Seq<char>) -> Seq<char> {
    if rfind_char(path, '/') < 0 {
        Seq::empty()
    } else {
        path.take(rfind_char(path, '/'))
    }
}

/// The extension of a path: what follows the last dot of its file name,
/// none when the name has no dot or starts with its only dot.
pub open spec fn ext_of(path: Seq<char>) -> Option<Seq<char>> {
    let n = base_name(path);
    let d = rfind_char(n, '.');
    if d <= 0 {
        None
    } else {
        Some(n.skip(d + 1))
    }
}

/// Whether the path names a markdown file.
pub open spec fn spec_is_md(path: Seq<char>) -> bool {
    ext_of(path) == Some("md"@)
}

/// Whether the file name is a directory-index name.
pub open spec fn spec_is_index_name(n: Seq<char>) -> bool {
    n == "index.md"@ || n == "_index.md"@
}

/// Whether `path` lies strictly under the directory `dir`, on a component
/// boundary.
pub open spec fn spec_is_under(path: Seq<char>, dir: Seq<char>) -> bool {
    path.len() > dir.len() && path.take(dir.len() as int) == dir && path[dir.len() as int] == '/'
}

/// The file name of a path.
pub fn base_name_exec(path: &Vec<char>) -> (r: Vec<char>)
    ensures
        r@ == base_name(path@),
{
    let m = path.len();
    match rfind_in(path, '/') {
        Some(j) => {
            proof {
                lemma_rfind_props(path@, '/');
            }
            assert(j < m);
            crate::text::subrange_of(path, j + 1, m)
        },
        None => {
            let r = crate::text::subrange_of(path, 0, path.len());
            proof {
                assert(r@ =~= path@.skip(0));
            }
            r
        },
    }
}

/// Whether the path names a markdown file.
pub fn is_md_path(path: &str) -> (r: bool)
    ensures
        r == spec_is_md(path@),
{
    let pc = chars_of(path);
    let n = base_name_exec(&pc);
    let m = n.len();
    match rfind_in(&n, '.') {
        Some(d) => {
            if d == 0 {
                proof {
                    assert(ext_of(path@) is None);
                }
                false
            } else {
                proof {
                    lemma_rfind_props(n@, '.');
                }
                assert(d < m);
                let ext = crate::text::subrange_of(&n, d + 1, m);
                proof {
                    assert(ext@ =~= n@.skip(d + 1 as int));
                }
                eq_chars(&ext, &chars_of("md"))
            }
        },
        None => {
            proof {
                assert(ext_of(path@) is None);
            }
            false
        },
    }
}

/// Whether the file name is `index.md` or `_index.md`.
pub fn is_index_file(path: &str) -> (r: bool)
    ensures
        r == spec_is_index_name(base_name(path@)),
{
    let pc = chars_of(path);
    let n = base_name_exec(&pc);
    let a = chars_of("index.md");
    let b = chars_of("_index.md");
    eq_chars(&n, &a) || eq_chars(&n, &b)
}

/// Whether `path` lies strictly under `dir`.
pub fn is_under(path: &str, dir: &str) -> (r: bool)
    ensures
        r == spec_is_under(path@, dir@),
{
    let pc = chars_of(path);
    let dc = chars_of(dir);
    if pc.len() <= dc.len() {
        return false;
    }
    if pc[dc.len()] != '/' {
        return false;
    }
    let mut i: usize = 0;
    while i < dc.len()
        invariant
            i <= dc@.len() < pc@.len(),
            pc@ == path@,
            dc@ == dir@,
            forall|k: int| 0 <= k < i ==> pc@[k] == dc@[k],
        decreases dc@.len() - i,
    {
        if pc[i] != dc[i] {
            proof {
                assert(pc@.take(dc@.len() as int)[i as int] == pc@[i as int]);
                assert(pc@.take(dc@.len() as int) != dc@);
            }
            return false;
        }
        i = i + 1;
    }
    proof {
        assert(pc@.take(dc@.len() as int) =~= dc@);
    }
    true
}

/// Rule for the post listing: a markdown file that is no `_index.md`, does
/// not lie under the drafts directory, and whose draft flag is off.
pub open spec fn spec_post_included(
    path: Seq<char>,
    drafts_dir: Seq<char>,
    drafts_exists: bool,
    draft_flag: bool,
) -> bool {
    &&& spec_is_md(path)
    &&& base_name(path) != "_index.md"@
    &&& !(drafts_exists && spec_is_under(path, drafts_dir))
    &&& !draft_flag
}

pub fn post_included(path: &str, drafts_dir: &str, drafts_exists: bool, draft_flag: bool) -> (r:
    bool)
    ensures
        r == spec_post_included(path@, drafts_dir@, drafts_exists, draft_flag),
{
    if !is_md_path(path) {
        return false;
    }
    let pc = chars_of(path);
    let n = base_name_exec(&pc);
    let b = chars_of("_index.md");
    if eq_chars(&n, &b) {
        return false;
    }
    if drafts_exists && is_under(path, drafts_dir) {
        return false;
    }
    !draft_flag
}

/// Rule for the page listing: a markdown file outside the posts and drafts
/// directories that is a directory index or sits directly at the content
/// root, with its draft flag off.
pub open spec fn spec_page_included(
    path: Seq<char>,
    pages_dir: Seq<char>,
    posts_dir: Seq<char>,
    skip_posts: bool,
    drafts_dir: Seq<char>,
    draft_flag: bool,
) -> bool {
    &&& spec_is_md(path)
    &&& !(skip_posts && spec_is_under(path, posts_dir))
    &&& !spec_is_under(path, drafts_dir)
    &&& (spec_is_index_name(base_name(path)) || parent_of(path) == pages_dir)
    &&& !draft_flag
}

pub fn page_included(
    path: &str,
    pages_dir: &str,
    posts_dir: &str,
    skip_posts: bool,
    drafts_dir: &str,
    draft_flag: bool,
) -> (r: bool)
    ensures
        r == spec_page_included(path@, pages_dir@, posts_dir@, skip_posts, drafts_dir@, draft_flag),
{
    if !is_md_path(path) {
        return false;
    }
    if skip_posts && is_under(path, posts_dir) {
        return false;
    }
    if is_under(path, drafts_dir) {
        return false;
    }
    let is_index = is_index_file(path);
    let is_root = {
        let pc = chars_of(path);
        let dc = chars_of(pages_dir);
        match rfind_in(&pc, '/') {
            Some(j) => {
                proof {
                    lemma_rfind_props(pc@, '/');
                }
                let par = crate::text::subrange_of(&pc, 0, j);
                proof {
                    assert(par@ =~= parent_of(path@));
                }
                eq_chars(&par, &dc)
            },
            None => {
                proof {
                    assert(parent_of(path@) =~= Seq::<char>::empty());
                    if dc@.len() == 0 {
                        assert(dc@ =~= Seq::<char>::empty());
                    }
                }
                dc.len() == 0
            },
        }
    };
    if !is_index && !is_root {
        return false;
    }
    !draft_flag
}

/// Rule for the draft listing: a markdown file that lies under the drafts
/// directory or carries the draft flag — either alone qualifies.
pub open spec fn spec_draft_included(
    path: Seq<char>,
    drafts_dir: Seq<char>,
    drafts_exists: bool,
    draft_flag: bool,
) -> bool {
    &&& spec_is_md(path)
    &&& (draft_flag || (drafts_exists && spec_is_under(path, drafts_dir)))
}

pub fn draft_included(path: &str, drafts_dir: &str, drafts_exists: bool, draft_flag: bool) -> (r:
    bool)
    ensures
        r == spec_draft_included(path@, drafts_dir@, drafts_exists, draft_flag),
{
    if !is_md_path(path) {
        return false;
    }
    draft_flag || (drafts_exists && is_under(path, drafts_dir))
}

/// Classification exclusivity: a file in the post listing can never stand
/// in the draft listing, and neither can one in the page listing — the
/// location rule and the flag rule both exclude it.
pub proof fn lemma_classification_exclusive(
    path: Seq<char>,
    pages_dir: Seq<char>,
    posts_dir: Seq<char>,
    skip_posts: bool,
    drafts_dir: Seq<char>,
    drafts_exists: bool,
    draft_flag: bool,
)
    ensures
        spec_post_included(path, drafts_dir, drafts_exists, draft_flag) ==> !spec_draft_included(
            path,
            drafts_dir,
            drafts_exists,
            draft_flag,
        ),
        spec_page_included(path, pages_dir, posts_dir, skip_posts, drafts_dir, draft_flag)
            && drafts_exists ==> !spec_draft_included(path, drafts_dir, drafts_exists, draft_flag),
{
}


/// First index at or after `i` whose character is not `#`.
pub open spec fn hash_end(s: Seq<char>, i: int) -> int
    decreases s.len() - i,
{
    if i < 0 || i >= s.len() {
        s.len() as int
    } else if s[i] == '#' {
        hash_end(s, i + 1)
    } else {
        i
    }
}

/// The first heading title of a body: on the first trimmed line opening
/// with `# `, the text after the run of hashes, trimmed; nothing if that
/// text is empty or no such line exists.
pub open spec fn et_lines(lines: Seq<Seq<char>>, i: int) -> Option<Seq<char>>
    decreases lines.len() - i,
{
    if i < 0 || i >= lines.len() {
        None
    } else {
        let t = spec_trim(lines[i]);
        if t.len() >= 2 && t[0] == '#' && t[1] == ' ' {
            let x = spec_trim(t.skip(hash_end(t, 0)));
            if x.len() > 0 {
                Some(x)
            } else {
                et_lines(lines, i + 1)
            }
        } else {
            et_lines(lines, i + 1)
        }
    }
}

pub open spec fn spec_extract_title(content: Seq<char>) -> Option<Seq<char>> {
    et_lines(crate::mapping::spec_lines(content), 0)
}

/// First heading title of a markdown body, if any.
pub fn extract_title_from_markdown(content: &str) -> (r: Option<String>)
    ensures
        (match r {
            Some(t) => spec_extract_title(content@) == Some(t@),
            None => spec_extract_title(content@) == None::<Seq<char>>,
        }),
{
    let cc = chars_of(content);
    let lines = crate::parserx::split_lines(&cc);
    let ghost lv = crate::parserx::lines_view(lines@);
    let mut i: usize = 0;
    loop
        invariant
            i <= lines@.len(),
            lv == crate::parserx::lines_view(lines@),
            lv == crate::mapping::spec_lines(content@),
            et_lines(lv, 0) == et_lines(lv, i as int),
        decreases lines@.len() - i,
    {
        if i >= lines.len() {
            return None;
        }
        proof {
            assert(lv[i as int] == lines@[i as int]@);
        }
        let t = crate::text::trim_of(&lines[i]);
        if t.len() >= 2 && t[0] == '#' && t[1] == ' ' {
            let mut h: usize = 0;
            while h < t.len() && t[h] == '#'
                invariant
                    h <= t@.len(),
                    hash_end(t@, 0) == hash_end(t@, h as int),
                decreases t@.len() - h,
            {
                h = h + 1;
            }
            let xraw = crate::text::subrange_of(&t, h, t.len());
            proof {
                assert(xraw@ =~= t@.skip(h as int));
            }
            let x = crate::text::trim_of(&xraw);
            if x.len() > 0 {
                return Some(string_from_chars(&x));
            }
        }
        i = i + 1;
    }
}

/// The backfilled title: a sentinel title is replaced by the body's first
/// heading, or by the file's base name.
pub open spec fn spec_backfill_title(
    title: Seq<char>,
    content: Seq<char>,
    stem: Seq<char>,
) -> Seq<char> {
    if title == "Untitled Post"@ {
        match spec_extract_title(content) {
            Some(t) => t,
            None => stem,
        }
    } else {
        title
    }
}

/// The backfilled date: an absent or empty date is replaced by the
/// fallback rendering of the file's modification time.
pub open spec fn spec_backfill_date(
    date: Seq<char>,
    used_default: bool,
    fallback: Seq<char>,
) -> Seq<char> {
    if used_default || date.len() == 0 {
        fallback
    } else {
        date
    }
}

/// Applies title and date backfill to parsed frontmatter.
pub fn backfill_frontmatter(
    fm: &mut Frontmatter,
    content: &str,
    file_stem: &str,
    used_default: bool,
    fallback_date: &str,
)
    ensures
        final(fm)@ == (crate::model::FmV {
            title: spec_backfill_title(old(fm)@.title, content@, file_stem@),
            date: spec_backfill_date(old(fm)@.date, used_default, fallback_date@),
            ..old(fm)@
        }),
{
    let sentinel = "Untitled Post".to_owned();
    if fm.title == sentinel {
        match extract_title_from_markdown(content) {
            Some(t) => {
                fm.title = t;
            },
            None => {
                fm.title = file_stem.to_owned();
            },
        }
    }
    if used_default || fm.date.as_str().is_empty() {
        fm.date = fallback_date.to_owned();
    }
    proof {
        assert(final(fm)@ =~~= crate::model::FmV {
            title: spec_backfill_title(old(fm)@.title, content@, file_stem@),
            date: spec_backfill_date(old(fm)@.date, used_default, fallback_date@),
            ..old(fm)@
        });
    }
}

/// A classified post: a parsed document with identity, location and
/// timestamps.
pub struct Post {
    pub id: String,
    pub title: String,
    pub date: String,
    pub content: String,
    pub frontmatter: Frontmatter,
    pub file_path: String,
    pub created_at: i64,
    pub modified_at: i64,
}

/// A classified page.
pub struct Page {
    pub id: String,
    pub title: String,
    pub content: String,
    pub frontmatter: Frontmatter,
    pub file_path: String,
    pub created_at: i64,
    pub modified_at: i64,
}

/// A classified draft.
pub struct Draft {
    pub id: String,
    pub title: String,
    pub content: String,
    pub frontmatter: Frontmatter,
    pub file_path: String,
    pub created_at: i64,
    pub modified_at: i64,
}

impl Post {
    /// Builds a post from a file's raw text and metadata, with an explicit
    /// fallback date for the backfill.
    pub fn from_parts(
        raw: &str,
        id: String,
        file_path: String,
        file_stem: &str,
        created_at: i64,
        modified_at: i64,
        fallback_date: &str,
    ) -> (r: Post)
        ensures
            r.frontmatter@ == (crate::model::FmV {
                title: spec_backfill_title(
                    parse_spec(raw@).0.frontmatter.title,
                    parse_spec(raw@).0.content,
                    file_stem@,
                ),
                date: spec_backfill_date(
                    parse_spec(raw@).0.frontmatter.date,
                    parse_spec(raw@).1,
                    fallback_date@,
                ),
                ..parse_spec(raw@).0.frontmatter
            }),
            r.title@ == r.frontmatter@.title,
            r.date@ == r.frontmatter@.date,
            r.content@ == parse_spec(raw@).0.content,
            r.id@ == id@,
            r.file_path@ == file_path@,
            r.created_at == created_at,
            r.modified_at == modified_at,
    {
        let parsed = MarkdownDocument::parse(raw);
        let (mut doc, used_default) = match parsed {
            Ok(p) => p,
            Err(_) => {
                (MarkdownDocument {
                    frontmatter: crate::model::default_frontmatter(),
                    content: raw.to_owned(),
                }, true)
            },
        };
        backfill_frontmatter(
            &mut doc.frontmatter,
            doc.content.as_str(),
            file_stem,
            used_default,
            fallback_date,
        );
        Post {
            id,
            title: doc.frontmatter.title.clone(),
            date: doc.frontmatter.date.clone(),
            content: doc.content,
            frontmatter: doc.frontmatter,
            file_path,
            created_at,
            modified_at,
        }
    }

    /// Builds a post from a file's raw text and metadata, rendering the
    /// fallback date from the modification time in the local time zone.
    /// The caller keeps the timestamp inside the renderable range.
    pub fn from_file_data(
        raw: &str,
        id: String,
        file_path: String,
        file_stem: &str,
        created_at: i64,
        modified_at: i64,
    ) -> (r: Post)
        requires
            0 <= modified_at <= crate::trusted::MAX_RENDERABLE_SECS,
        ensures
            r.content@ == parse_spec(raw@).0.content,
            r.id@ == id@,
            r.file_path@ == file_path@,
            r.created_at == created_at,
            r.modified_at == modified_at,
            r.title@ == r.frontmatter@.title,
            r.date@ == r.frontmatter@.date,
            r.title@ == spec_backfill_title(
                parse_spec(raw@).0.frontmatter.title,
                parse_spec(raw@).0.content,
                file_stem@,
            ),
            !parse_spec(raw@).1 && parse_spec(raw@).0.frontmatter.date.len() > 0 ==> r.date@
                == parse_spec(raw@).0.frontmatter.date,
            parse_spec(raw@).1 || parse_spec(raw@).0.frontmatter.date.len() == 0 ==> r.date@.len()
                > 0,
    {
        let fb = crate::trusted::local_rfc3339_of_secs(modified_at);
        Post::from_parts(raw, id, file_path, file_stem, created_at, modified_at, fb.as_str())
    }

    /// Renders the post back into the canonical serialized form.
    pub fn to_markdown(&self) -> (r: Result<String, String>)
        ensures
            (match r {
                Ok(s) => s@ == serialize_spec(
                    DocV { frontmatter: self.frontmatter@, content: self.content@ },
                ),
                Err(_) => false,
            }),
    {
        let doc_fm = &self.frontmatter;
        Ok(crate::document::serialize_parts(doc_fm, self.content.as_str()))
    }
}

impl Page {
    /// Builds a page from a file's raw text and metadata. Pages keep the
    /// parsed title as is.
    pub fn from_parts(
        raw: &str,
        id: String,
        file_path: String,
        created_at: i64,
        modified_at: i64,
    ) -> (r: Page)
        ensures
            r.frontmatter@ == parse_spec(raw@).0.frontmatter,
            r.title@ == r.frontmatter@.title,
            r.content@ == parse_spec(raw@).0.content,
            r.id@ == id@,
            r.file_path@ == file_path@,
            r.created_at == created_at,
            r.modified_at == modified_at,
    {
        let parsed = MarkdownDocument::parse(raw);
        let (doc, _used_default) = match parsed {
            Ok(p) => p,
            Err(_) => {
                (MarkdownDocument {
                    frontmatter: crate::model::default_frontmatter(),
                    content: raw.to_owned(),
                }, true)
            },
        };
        Page {
            id,
            title: doc.frontmatter.title.clone(),
            content: doc.content,
            frontmatter: doc.frontmatter,
            file_path,
            created_at,
            modified_at,
        }
    }

    /// Renders the page back into the canonical serialized form.
    pub fn to_markdown(&self) -> (r: Result<String, String>)
        ensures
            (match r {
                Ok(s) => s@ == serialize_spec(
                    DocV { frontmatter: self.frontmatter@, content: self.content@ },
                ),
                Err(_) => false,
            }),
    {
        Ok(crate::document::serialize_parts(&self.frontmatter, self.content.as_str()))
    }
}

impl Draft {
    /// Builds a draft from a file's raw text and metadata.
    pub fn from_parts(
        raw: &str,
        id: String,
        file_path: String,
        created_at: i64,
        modified_at: i64,
    ) -> (r: Draft)
        ensures
            r.frontmatter@ == parse_spec(raw@).0.frontmatter,
            r.title@ == r.frontmatter@.title,
            r.content@ == parse_spec(raw@).0.content,
            r.id@ == id@,
            r.file_path@ == file_path@,
            r.created_at == created_at,
            r.modified_at == modified_at,
    {
        let parsed = MarkdownDocument::parse(raw);
        let (doc, _used_default) = match parsed {
            Ok(p) => p,
            Err(_) => {
                (MarkdownDocument {
                    frontmatter: crate::model::default_frontmatter(),
                    content: raw.to_owned(),
                }, true)
            },
        };
        Draft {
            id,
            title: doc.frontmatter.title.clone(),
            content: doc.content,
            frontmatter: doc.frontmatter,
            file_path,
            created_at,
            modified_at,
        }
    }

    /// Renders the draft back into the canonical serialized form.
    pub fn to_markdown(&self) -> (r: Result<String, String>)
        ensures
            (match r {
                Ok(s) => s@ == serialize_spec(
                    DocV { frontmatter: self.frontmatter@, content: self.content@ },
                ),
                Err(_) => false,
            }),
    {
        Ok(crate::document::serialize_parts(&self.frontmatter, self.content.as_str()))
    }
}


/// What deleting a page at this path is allowed to do.
pub enum PageDeletion {
    RefuseContentRoot,
    RefusePostsOrDrafts,
    DeleteFileAndParentIfEmpty,
    DeleteFile,
}

/// The deletion rule for a page path: a file directly under a directory
/// named `content` is protected; a parent named `posts` or `drafts` marks
/// an invalid page path; deleting an index file may remove its directory
/// once empty; anything else is a plain file deletion.
pub open spec fn spec_page_deletion(path: Seq<char>) -> PageDeletion {
    let parent = parent_of(path);
    if base_name(parent) == "content"@ {
        PageDeletion::RefuseContentRoot
    } else if base_name(parent) == "posts"@ || base_name(parent) == "drafts"@ {
        PageDeletion::RefusePostsOrDrafts
    } else if spec_is_index_name(base_name(path)) {
        PageDeletion::DeleteFileAndParentIfEmpty
    } else {
        PageDeletion::DeleteFile
    }
}

/// Classifies what deleting the page at `path` may do.
pub fn classify_page_deletion(path: &str) -> (r: PageDeletion)
    ensures
        r == spec_page_deletion(path@),
{
    let pc = chars_of(path);
    let parent: Vec<char> = match rfind_in(&pc, '/') {
        Some(j) => {
            proof {
                lemma_rfind_props(pc@, '/');
            }
            crate::text::subrange_of(&pc, 0, j)
        },
        None => {
            let empty: Vec<char> = Vec::new();
            proof {
                assert(empty@ =~= parent_of(path@));
            }
            empty
        },
    };
    proof {
        assert(parent@ == parent_of(path@));
    }
    let pname = base_name_exec(&parent);
    if eq_chars(&pname, &chars_of("content")) {
        return PageDeletion::RefuseContentRoot;
    }
    if eq_chars(&pname, &chars_of("posts")) || eq_chars(&pname, &chars_of("drafts")) {
        return PageDeletion::RefusePostsOrDrafts;
    }
    let fname = base_name_exec(&pc);
    if eq_chars(&fname, &chars_of("index.md")) || eq_chars(&fname, &chars_of("_index.md")) {
        return PageDeletion::DeleteFileAndParentIfEmpty;
    }
    PageDeletion::DeleteFile
}

/// Sorts posts by modification time, most recent first. The contract
/// fixes the order and the multiset; among equal timestamps the
/// implementation takes the earliest first, though the contract leaves
/// that open.
pub fn sort_posts_by_modified(input: Vec<Post>) -> (r: Vec<Post>)
    ensures
        forall|i: int, j: int|
            0 <= i < j < r@.len() ==> (#[trigger] r@[i]).modified_at >= (
            #[trigger] r@[j]).modified_at,
        r@.to_multiset() == input@.to_multiset(),
{
    broadcast use vstd::seq_lib::group_to_multiset_ensures;

    let mut v = input;
    let ghost orig = v@;
    let mut out: Vec<Post> = Vec::new();
    proof {
        assert(out@.to_multiset().add(v@.to_multiset()) =~= orig.to_multiset());
    }
    while v.len() > 0
        invariant
            out@.to_multiset().add(v@.to_multiset()) == orig.to_multiset(),
            forall|i: int, j: int|
                0 <= i < j < out@.len() ==> (#[trigger] out@[i]).modified_at >= (
                #[trigger] out@[j]).modified_at,
            forall|i: int, j: int|
                0 <= i < out@.len() && 0 <= j < v@.len() ==> (#[trigger] out@[i]).modified_at >= (
                #[trigger] v@[j]).modified_at,
        decreases v@.len(),
    {
        let mut best: usize = 0;
        let mut k: usize = 1;
        while k < v.len()
            invariant
                best < k <= v@.len() || (k <= v@.len() && best == 0),
                best < v@.len(),
                v@.len() > 0,
                forall|j: int| 0 <= j < k ==> (#[trigger] v@[j]).modified_at <= v@[
                    best as int].modified_at,
            decreases v@.len() - k,
        {
            if v[k].modified_at > v[best].modified_at {
                best = k;
            }
            k = k + 1;
        }
        let ghost before = v@;
        let x = v.remove(best);
        let ghost outb = out@;
        out.push(x);
        proof {
            broadcast use vstd::seq_lib::group_to_multiset_ensures;

            assert(before.remove(best as int).to_multiset() =~= before.to_multiset().remove(
                before[best as int],
            ));
            assert(outb.push(x).to_multiset() =~= outb.to_multiset().insert(x));
            assert(out@.to_multiset().add(v@.to_multiset()) =~= orig.to_multiset()) by {
                assert(before.to_multiset().count(x) > 0) by {
                    assert(before.contains(x)) by {
                        assert(before[best as int] == x);
                    }
                }
                assert(outb.to_multiset().insert(x).add(before.to_multiset().remove(x))
                    =~= outb.to_multiset().add(before.to_multiset()));
            }
            assert forall|i: int, j: int|
                0 <= i < out@.len() && 0 <= j < v@.len() implies (#[trigger] out@[i]).modified_at
                >= (#[trigger] v@[j]).modified_at by {
                if i < out@.len() - 1 {
                    assert(out@[i] == outb[i]);
                }
                if j < best {
                    assert(v@[j] == before[j]);
                } else {
                    assert(v@[j] == before[j + 1]);
                }
            }
        }
    }
    out
}

/// Sorts pages by modification time, most recent first. The contract
/// fixes the order and the multiset; among equal timestamps the
/// implementation takes the earliest first, though the contract leaves
/// that open.
pub fn sort_pages_by_modified(input: Vec<Page>) -> (r: Vec<Page>)
    ensures
        forall|i: int, j: int|
            0 <= i < j < r@.len() ==> (#[trigger] r@[i]).modified_at >= (
            #[trigger] r@[j]).modified_at,
        r@.to_multiset() == input@.to_multiset(),
{
    broadcast use vstd::seq_lib::group_to_multiset_ensures;

    let mut v = input;
    let ghost orig = v@;
    let mut out: Vec<Page> = Vec::new();
    proof {
        assert(out@.to_multiset().add(v@.to_multiset()) =~= orig.to_multiset());
    }
    while v.len() > 0
        invariant
            out@.to_multiset().add(v@.to_multiset()) == orig.to_multiset(),
            forall|i: int, j: int|
                0 <= i < j < out@.len() ==> (#[trigger] out@[i]).modified_at >= (
                #[trigger] out@[j]).modified_at,
            forall|i: int, j: int|
                0 <= i < out@.len() && 0 <= j < v@.len() ==> (#[trigger] out@[i]).modified_at >= (
                #[trigger] v@[j]).modified_at,
        decreases v@.len(),
    {
        let mut best: usize = 0;
        let mut k: usize = 1;
        while k < v.len()
            invariant
                best < k <= v@.len() || (k <= v@.len() && best == 0),
                best < v@.len(),
                v@.len() > 0,
                forall|j: int| 0 <= j < k ==> (#[trigger] v@[j]).modified_at <= v@[
                    best as int].modified_at,
            decreases v@.len() - k,
        {
            if v[k].modified_at > v[best].modified_at {
                best = k;
            }
            k = k + 1;
        }
        let ghost before = v@;
        let x = v.remove(best);
        let ghost outb = out@;
        out.push(x);
        proof {
            broadcast use vstd::seq_lib::group_to_multiset_ensures;

            assert(before.remove(best as int).to_multiset() =~= before.to_multiset().remove(
                before[best as int],
            ));
            assert(outb.push(x).to_multiset() =~= outb.to_multiset().insert(x));
            assert(out@.to_multiset().add(v@.to_multiset()) =~= orig.to_multiset()) by {
                assert(before.to_multiset().count(x) > 0) by {
                    assert(before.contains(x)) by {
                        assert(before[best as int] == x);
                    }
                }
                assert(outb.to_multiset().insert(x).add(before.to_multiset().remove(x))
                    =~= outb.to_multiset().add(before.to_multiset()));
            }
            assert forall|i: int, j: int|
                0 <= i < out@.len() && 0 <= j < v@.len() implies (#[trigger] out@[i]).modified_at
                >= (#[trigger] v@[j]).modified_at by {
                if i < out@.len() - 1 {
                    assert(out@[i] == outb[i]);
                }
                if j < best {
                    assert(v@[j] == before[j]);
                } else {
                    assert(v@[j] == before[j + 1]);
                }
            }
        }
    }
    out
}

/// Sorts drafts by modification time, most recent first. The contract
/// fixes the order and the multiset; among equal timestamps the
/// implementation takes the earliest first, though the contract leaves
/// that open.
pub fn sort_drafts_by_modified(input: Vec<Draft>) -> (r: Vec<Draft>)
    ensures
        forall|i: int, j: int|
            0 <= i < j < r@.len() ==> (#[trigger] r@[i]).modified_at >= (
            #[trigger] r@[j]).modified_at,
        r@.to_multiset() == input@.to_multiset(),
{
    broadcast use vstd::seq_lib::group_to_multiset_ensures;

    let mut v = input;
    let ghost orig = v@;
    let mut out: Vec<Draft> = Vec::new();
    proof {
        assert(out@.to_multiset().add(v@.to_multiset()) =~= orig.to_multiset());
    }
    while v.len() > 0
        invariant
            out@.to_multiset().add(v@.to_multiset()) == orig.to_multiset(),
            forall|i: int, j: int|
                0 <= i < j < out@.len() ==> (#[trigger] out@[i]).modified_at >= (
                #[trigger] out@[j]).modified_at,
            forall|i: int, j: int|
                0 <= i < out@.len() && 0 <= j < v@.len() ==> (#[trigger] out@[i]).modified_at >= (
                #[trigger] v@[j]).modified_at,
        decreases v@.len(),
    {
        let mut best: usize = 0;
        let mut k: usize = 1;
        while k < v.len()
            invariant
                best < k <= v@.len() || (k <= v@.len() && best == 0),
                best < v@.len(),
                v@.len() > 0,
                forall|j: int| 0 <= j < k ==> (#[trigger] v@[j]).modified_at <= v@[
                    best as int].modified_at,
            decreases v@.len() - k,
        {
            if v[k].modified_at > v[best].modified_at {
                best = k;
            }
            k = k + 1;
        }
        let ghost before = v@;
        let x = v.remove(best);
        let ghost outb = out@;
        out.push(x);
        proof {
            broadcast use vstd::seq_lib::group_to_multiset_ensures;

            assert(before.remove(best as int).to_multiset() =~= before.to_multiset().remove(
                before[best as int],
            ));
            assert(outb.push(x).to_multiset() =~= outb.to_multiset().insert(x));
            assert(out@.to_multiset().add(v@.to_multiset()) =~= orig.to_multiset()) by {
                assert(before.to_multiset().count(x) > 0) by {
                    assert(before.contains(x)) by {
                        assert(before[best as int] == x);
                    }
                }
                assert(outb.to_multiset().insert(x).add(before.to_multiset().remove(x))
                    =~= outb.to_multiset().add(before.to_multiset()));
            }
            assert forall|i: int, j: int|
                0 <= i < out@.len() && 0 <= j < v@.len() implies (#[trigger] out@[i]).modified_at
                >= (#[trigger] v@[j]).modified_at by {
                if i < out@.len() - 1 {
                    assert(out@[i] == outb[i]);
                }
                if j < best {
                    assert(v@[j] == before[j]);
                } else {
                    assert(v@[j] == before[j + 1]);
                }
            }
        }
    }
    out
}

} // verus!
