//! Static-asset bookkeeping: image records, directory entries, URL
//! building, the image-extension rule and the listing orders.

use vstd::prelude::*;

use crate::classify::spec_normalize_seps;
use crate::trusted::lower_of;
use crate::trusted::lowercase;

verus! {

/// A catalogued image below the static directory.
pub struct ImageInfo {
    pub filename: String,
    pub path: String,
    pub full_path: String,
    pub url: String,
    pub size: u64,
    pub width: Option<u32>,
    pub height: Option<u32>,
    pub created_at: i64,
}

/// One entry of a static-directory listing: a file or a folder.
pub struct StaticEntry {
    pub name: String,
    pub path: String,
    pub kind: String,
    pub size: u64,
    pub created_at: i64,
    pub modified_at: i64,
    pub url: Option<String>,
    pub full_path: String,
}

/// The recognized image extensions, compared case-insensitively.
pub open spec fn spec_image_ext(lowered: Seq<char>) -> bool {
    lowered == "png"@ || lowered == "jpg"@ || lowered == "jpeg"@ || lowered == "gif"@ || lowered
        == "webp"@ || lowered == "svg"@ || lowered == "ico"@
}

/// Whether a file extension names an image format.
pub fn is_image_ext(ext: &str) -> (r: bool)
    ensures
        r == spec_image_ext(lower_of(ext@)),
{
    let low = lowercase(ext);
    let lc = crate::text::chars_of(low.as_str());
    let r = crate::classify::eq_chars(&lc, &crate::text::chars_of("png")) || crate::classify::eq_chars(
        &lc,
        &crate::text::chars_of("jpg"),
    ) || crate::classify::eq_chars(&lc, &crate::text::chars_of("jpeg")) || crate::classify::eq_chars(
        &lc,
        &crate::text::chars_of("gif"),
    ) || crate::classify::eq_chars(&lc, &crate::text::chars_of("webp")) || crate::classify::eq_chars(
        &lc,
        &crate::text::chars_of("svg"),
    ) || crate::classify::eq_chars(&lc, &crate::text::chars_of("ico"));
    r
}

/// The public URL of a static file: a leading slash and the normalized
/// relative path.
pub fn static_url_of(rel_path: &str) -> (r: String)
    ensures
        r@ == seq!['/'] + spec_normalize_seps(rel_path@),
{
    let norm = crate::classify::normalize_id(rel_path);
    let mut out: Vec<char> = Vec::new();
    out.push('/');
    let nc = crate::text::chars_of(norm.as_str());
    let mut i: usize = 0;
    while i < nc.len()
        invariant
            i <= nc@.len(),
            out@ == seq!['/'] + nc@.take(i as int),
        decreases nc@.len() - i,
    {
        out.push(nc[i]);
        proof {
            assert(nc@.take(i + 1 as int) =~= nc@.take(i as int).push(nc@[i as int]));
            assert(out@ =~= seq!['/'] + nc@.take(i + 1 as int));
        }
        i = i + 1;
    }
    proof {
        assert(nc@.take(nc@.len() as int) =~= nc@);
    }
    crate::text::string_from_chars(&out)
}

/// Sorts images by creation time, most recent first.
pub fn sort_images_by_created(input: Vec<ImageInfo>) -> (r: Vec<ImageInfo>)
    ensures
        forall|i: int, j: int|
            0 <= i < j < r@.len() ==> (#[trigger] r@[i]).created_at >= (
            #[trigger] r@[j]).created_at,
        r@.to_multiset() == input@.to_multiset(),
{
    broadcast use vstd::seq_lib::group_to_multiset_ensures;

    let mut v = input;
    let ghost orig = v@;
    let mut out: Vec<ImageInfo> = Vec::new();
    proof {
        assert(out@.to_multiset().add(v@.to_multiset()) =~= orig.to_multiset());
    }
    while v.len() > 0
        invariant
            out@.to_multiset().add(v@.to_multiset()) == orig.to_multiset(),
            forall|i: int, j: int|
                0 <= i < j < out@.len() ==> (#[trigger] out@[i]).created_at >= (
                #[trigger] out@[j]).created_at,
            forall|i: int, j: int|
                0 <= i < out@.len() && 0 <= j < v@.len() ==> (#[trigger] out@[i]).created_at >= (
                #[trigger] v@[j]).created_at,
        decreases v@.len(),
    {
        let mut best: usize = 0;
        let mut k: usize = 1;
        while k < v.len()
            invariant
                best < k <= v@.len() || (k <= v@.len() && best == 0),
                best < v@.len(),
                v@.len() > 0,
                forall|j: int| 0 <= j < k ==> (#[trigger] v@[j]).created_at <= v@[
                    best as int].created_at,
            decreases v@.len() - k,
        {
            if v[k].created_at > v[best].created_at {
                best = k;
            }
            k = k + 1;
        }
        let ghost before = v@;
        let x = v.remove(best);
        let ghost outb = out@;
        out.push(x);
        proof {
            broadcast use vstd::seq_lib::group_to_multiset_ensures;

            assert(before.remove(best as int).to_multiset() =~= before.to_multiset().remove(
                before[best as int],
            ));
            assert(outb.push(x).to_multiset() =~= outb.to_multiset().insert(x));
            assert(out@.to_multiset().add(v@.to_multiset()) =~= orig.to_multiset()) by {
                assert(before.to_multiset().count(x) > 0) by {
                    assert(before.contains(x)) by {
                        assert(before[best as int] == x);
                    }
                }
                assert(outb.to_multiset().insert(x).add(before.to_multiset().remove(x))
                    =~= outb.to_multiset().add(before.to_multiset()));
            }
            assert forall|i: int, j: int|
                0 <= i < out@.len() && 0 <= j < v@.len() implies (#[trigger] out@[i]).created_at
                >= (#[trigger] v@[j]).created_at by {
                if i < out@.len() - 1 {
                    assert(out@[i] == outb[i]);
                }
                if j < best {
                    assert(v@[j] == before[j]);
                } else {
                    assert(v@[j] == before[j + 1]);
                }
            }
        }
    }
    out
}

/// Lexicographic order on character sequences.
pub open spec fn lex_leq(a: Seq<char>, b: Seq<char>) -> bool
    decreases a.len(),
{
    if a.len() == 0 {
        true
    } else if b.len() == 0 {
        false
    } else if a[0] != b[0] {
        a[0] < b[0]
    } else {
        lex_leq(a.drop_first(), b.drop_first())
    }
}

pub proof fn lemma_lex_total(a: Seq<char>, b: Seq<char>)
    ensures
        lex_leq(a, b) || lex_leq(b, a),
    decreases a.len(),
{
    if a.len() > 0 && b.len() > 0 && a[0] == b[0] {
        lemma_lex_total(a.drop_first(), b.drop_first());
    }
}

/// Whether `a` sorts at or before `b`.
pub fn lex_leq_exec(a: &Vec<char>, b: &Vec<char>) -> (r: bool)
    ensures
        r == lex_leq(a@, b@),
{
    let mut i: usize = 0;
    proof {
        assert(a@.skip(0) =~= a@);
        assert(b@.skip(0) =~= b@);
    }
    loop
        invariant
            i <= a@.len(),
            i <= b@.len(),
            lex_leq(a@, b@) == lex_leq(a@.skip(i as int), b@.skip(i as int)),
        decreases a@.len() - i,
    {
        if i >= a.len() {
            proof {
                assert(a@.skip(i as int) =~= Seq::<char>::empty());
            }
            return true;
        }
        if i >= b.len() {
            proof {
                assert(b@.skip(i as int) =~= Seq::<char>::empty());
                assert(a@.skip(i as int).len() > 0);
            }
            return false;
        }
        proof {
            assert(a@.skip(i as int)[0] == a@[i as int]);
            assert(b@.skip(i as int)[0] == b@[i as int]);
            assert(a@.skip(i as int).drop_first() =~= a@.skip(i + 1 as int));
            assert(b@.skip(i as int).drop_first() =~= b@.skip(i + 1 as int));
        }
        if a[i] != b[i] {
            return a[i] < b[i];
        }
        i = i + 1;
    }
}

/// Sorts directory entries by their lowercased name, in ascending order.
pub fn sort_entries_by_name(input: Vec<StaticEntry>) -> (r: Vec<StaticEntry>)
    ensures
        forall|i: int, j: int|
            0 <= i < j < r@.len() ==> lex_leq(
                lower_of((#[trigger] r@[i]).name@),
                lower_of((#[trigger] r@[j]).name@),
            ),
        r@.to_multiset() == input@.to_multiset(),
{
    broadcast use vstd::seq_lib::group_to_multiset_ensures;

    let mut v = input;
    let ghost orig = v@;
    let mut out: Vec<StaticEntry> = Vec::new();
    proof {
        assert(out@.to_multiset().add(v@.to_multiset()) =~= orig.to_multiset());
    }
    while v.len() > 0
        invariant
            out@.to_multiset().add(v@.to_multiset()) == orig.to_multiset(),
            forall|i: int, j: int|
                0 <= i < j < out@.len() ==> lex_leq(
                    lower_of((#[trigger] out@[i]).name@),
                    lower_of((#[trigger] out@[j]).name@),
                ),
            forall|i: int, j: int|
                0 <= i < out@.len() && 0 <= j < v@.len() ==> lex_leq(
                    lower_of((#[trigger] out@[i]).name@),
                    lower_of((#[trigger] v@[j]).name@),
                ),
        decreases v@.len(),
    {
        let mut best: usize = 0;
        let mut best_low = crate::text::chars_of(lowercase(v[0].name.as_str()).as_str());
        proof {
            lemma_lex_total(lower_of(v@[0].name@), lower_of(v@[0].name@));
        }
        let mut k: usize = 1;
        while k < v.len()
            invariant
                best < k <= v@.len() || (k <= v@.len() && best == 0),
                best < v@.len(),
                v@.len() > 0,
                best_low@ == lower_of(v@[best as int].name@),
                forall|j: int|
                    0 <= j < k ==> lex_leq(
                        lower_of(v@[best as int].name@),
                        lower_of((#[trigger] v@[j]).name@),
                    ),
            decreases v@.len() - k,
        {
            let klow = crate::text::chars_of(lowercase(v[k].name.as_str()).as_str());
            if !lex_leq_exec(&best_low, &klow) {
                proof {
                    lemma_lex_total(best_low@, klow@);
                }
                assert forall|j: int|
                    0 <= j < k + 1 implies lex_leq(
                    lower_of(v@[k as int].name@),
                    lower_of((#[trigger] v@[j]).name@),
                ) by {
                    if j < k {
                        lemma_lex_trans(
                            lower_of(v@[k as int].name@),
                            lower_of(v@[best as int].name@),
                            lower_of(v@[j].name@),
                        );
                    } else {
                        lemma_lex_total(lower_of(v@[k as int].name@), lower_of(v@[k as int].name@));
                    }
                }
                best = k;
                best_low = klow;
            }
            k = k + 1;
        }
        let ghost before = v@;
        let x = v.remove(best);
        let ghost outb = out@;
        out.push(x);
        proof {
            broadcast use vstd::seq_lib::group_to_multiset_ensures;

            assert(before.remove(best as int).to_multiset() =~= before.to_multiset().remove(
                before[best as int],
            ));
            assert(outb.push(x).to_multiset() =~= outb.to_multiset().insert(x));
            assert(out@.to_multiset().add(v@.to_multiset()) =~= orig.to_multiset()) by {
                assert(before.to_multiset().count(x) > 0) by {
                    assert(before.contains(x)) by {
                        assert(before[best as int] == x);
                    }
                }
                assert(outb.to_multiset().insert(x).add(before.to_multiset().remove(x))
                    =~= outb.to_multiset().add(before.to_multiset()));
            }
            assert forall|i: int, j: int|
                0 <= i < out@.len() && 0 <= j < v@.len() implies lex_leq(
                lower_of((#[trigger] out@[i]).name@),
                lower_of((#[trigger] v@[j]).name@),
            ) by {
                if i < out@.len() - 1 {
                    assert(out@[i] == outb[i]);
                }
                if j < best {
                    assert(v@[j] == before[j]);
                } else {
                    assert(v@[j] == before[j + 1]);
                }
            }
        }
    }
    out
}

pub proof fn lemma_lex_trans(a: Seq<char>, b: Seq<char>, c: Seq<char>)
    requires
        lex_leq(a, b),
        lex_leq(b, c),
    ensures
        lex_leq(a, c),
    decreases a.len() + b.len() + c.len(),
{
    if a.len() > 0 && b.len() > 0 && c.len() > 0 {
        if a[0] == b[0] && b[0] == c[0] {
            lemma_lex_trans(a.drop_first(), b.drop_first(), c.drop_first());
        }
    }
}

} // verus!
