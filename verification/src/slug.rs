//! Filename slugs: transliteration of Cyrillic text, lowercasing, and the
//! slug character rules the project uses when it derives file names from
//! titles.

use vstd::prelude::*;

use crate::text::chars_of;
use crate::text::string_from_chars;
use crate::trusted::lower_of;
use crate::trusted::lowercase;
use crate::trusted::ws_char;

verus! {

pub open spec fn translit_map(c: char) -> Seq<char> {
    if false {
        Seq::empty()
    } else if c == 'а' {
        seq!['a']
    } else if c == 'б' {
        seq!['b']
    } else if c == 'в' {
        seq!['v']
    } else if c == 'г' {
        seq!['g']
    } else if c == 'д' {
        seq!['d']
    } else if c == 'е' {
        seq!['e']
    } else if c == 'ё' {
        seq!['y', 'o']
    } else if c == 'ж' {
        seq!['z', 'h']
    } else if c == 'з' {
        seq!['z']
    } else if c == 'и' {
        seq!['i']
    } else if c == 'й' {
        seq!['y']
    } else if c == 'к' {
        seq!['k']
    } else if c == 'л' {
        seq!['l']
    } else if c == 'м' {
        seq!['m']
    } else if c == 'н' {
        seq!['n']
    } else if c == 'о' {
        seq!['o']
    } else if c == 'п' {
        seq!['p']
    } else if c == 'р' {
        seq!['r']
    } else if c == 'с' {
        seq!['s']
    } else if c == 'т' {
        seq!['t']
    } else if c == 'у' {
        seq!['u']
    } else if c == 'ф' {
        seq!['f']
    } else if c == 'х' {
        seq!['h']
    } else if c == 'ц' {
        seq!['t', 's']
    } else if c == 'ч' {
        seq!['c', 'h']
    } else if c == 'ш' {
        seq!['s', 'h']
    } else if c == 'щ' {
        seq!['s', 'h', 'c', 'h']
    } else if c == 'ъ' {
        Seq::empty()
    } else if c == 'ы' {
        seq!['y']
    } else if c == 'ь' {
        Seq::empty()
    } else if c == 'э' {
        seq!['e']
    } else if c == 'ю' {
        seq!['y', 'u']
    } else if c == 'я' {
        seq!['y', 'a']
    } else if c == 'А' {
        seq!['A']
    } else if c == 'Б' {
        seq!['B']
    } else if c == 'В' {
        seq!['V']
    } else if c == 'Г' {
        seq!['G']
    } else if c == 'Д' {
        seq!['D']
    } else if c == 'Е' {
        seq!['E']
    } else if c == 'Ё' {
        seq!['Y', 'o']
    } else if c == 'Ж' {
        seq!['Z', 'h']
    } else if c == 'З' {
        seq!['Z']
    } else if c == 'И' {
        seq!['I']
    } else if c == 'Й' {
        seq!['Y']
    } else if c == 'К' {
        seq!['K']
    } else if c == 'Л' {
        seq!['L']
    } else if c == 'М' {
        seq!['M']
    } else if c == 'Н' {
        seq!['N']
    } else if c == 'О' {
        seq!['O']
    } else if c == 'П' {
        seq!['P']
    } else if c == 'Р' {
        seq!['R']
    } else if c == 'С' {
        seq!['S']
    } else if c == 'Т' {
        seq!['T']
    } else if c == 'У' {
        seq!['U']
    } else if c == 'Ф' {
        seq!['F']
    } else if c == 'Х' {
        seq!['H']
    } else if c == 'Ц' {
        seq!['T', 's']
    } else if c == 'Ч' {
        seq!['C', 'h']
    } else if c == 'Ш' {
        seq!['S', 'h']
    } else if c == 'Щ' {
        seq!['S', 'h', 'c', 'h']
    } else if c == 'Ъ' {
        Seq::empty()
    } else if c == 'Ы' {
        seq!['Y']
    } else if c == 'Ь' {
        Seq::empty()
    } else if c == 'Э' {
        seq!['E']
    } else if c == 'Ю' {
        seq!['Y', 'u']
    } else if c == 'Я' {
        seq!['Y', 'a']
    } else {
        seq![c]
    }
}

/// The transliteration of a whole text.
pub open spec fn spec_translit(s: Seq<char>) -> Seq<char>
    decreases s.len(),
{
    if s.len() == 0 {
        Seq::empty()
    } else {
        translit_map(s[0]) + spec_translit(s.drop_first())
    }
}

pub proof fn lemma_translit_push(s: Seq<char>, c: char)
    ensures
        spec_translit(s.push(c)) == spec_translit(s) + translit_map(c),
    decreases s.len(),
{
    if s.len() == 0 {
        assert(s.push(c)[0] == c);
        assert(s.push(c).drop_first() =~= Seq::<char>::empty());
        assert(spec_translit(s.push(c)) == translit_map(c) + spec_translit(Seq::<char>::empty()));
        assert(translit_map(c) + Seq::<char>::empty() =~= translit_map(c));
        assert(spec_translit(s) + translit_map(c) =~= translit_map(c));
    } else {
        assert(s.push(c).drop_first() =~= s.drop_first().push(c));
        lemma_translit_push(s.drop_first(), c);
        assert(spec_translit(s.push(c)) =~= spec_translit(s) + translit_map(c));
    }
}

/// Appends the transliteration of one character to `out`.
fn push_translit(out: &mut Vec<char>, c: char)
    ensures
        final(out)@ == old(out)@ + translit_map(c),
{
    if false {
    } else if c == 'а' {
        out.push('a');
    } else if c == 'б' {
        out.push('b');
    } else if c == 'в' {
        out.push('v');
    } else if c == 'г' {
        out.push('g');
    } else if c == 'д' {
        out.push('d');
    } else if c == 'е' {
        out.push('e');
    } else if c == 'ё' {
        out.push('y');
        out.push('o');
    } else if c == 'ж' {
        out.push('z');
        out.push('h');
    } else if c == 'з' {
        out.push('z');
    } else if c == 'и' {
        out.push('i');
    } else if c == 'й' {
        out.push('y');
    } else if c == 'к' {
        out.push('k');
    } else if c == 'л' {
        out.push('l');
    } else if c == 'м' {
        out.push('m');
    } else if c == 'н' {
        out.push('n');
    } else if c == 'о' {
        out.push('o');
    } else if c == 'п' {
        out.push('p');
    } else if c == 'р' {
        out.push('r');
    } else if c == 'с' {
        out.push('s');
    } else if c == 'т' {
        out.push('t');
    } else if c == 'у' {
        out.push('u');
    } else if c == 'ф' {
        out.push('f');
    } else if c == 'х' {
        out.push('h');
    } else if c == 'ц' {
        out.push('t');
        out.push('s');
    } else if c == 'ч' {
        out.push('c');
        out.push('h');
    } else if c == 'ш' {
        out.push('s');
        out.push('h');
    } else if c == 'щ' {
        out.push('s');
        out.push('h');
        out.push('c');
        out.push('h');
    } else if c == 'ъ' {
    } else if c == 'ы' {
        out.push('y');
    } else if c == 'ь' {
    } else if c == 'э' {
        out.push('e');
    } else if c == 'ю' {
        out.push('y');
        out.push('u');
    } else if c == 'я' {
        out.push('y');
        out.push('a');
    } else if c == 'А' {
        out.push('A');
    } else if c == 'Б' {
        out.push('B');
    } else if c == 'В' {
        out.push('V');
    } else if c == 'Г' {
        out.push('G');
    } else if c == 'Д' {
        out.push('D');
    } else if c == 'Е' {
        out.push('E');
    } else if c == 'Ё' {
        out.push('Y');
        out.push('o');
    } else if c == 'Ж' {
        out.push('Z');
        out.push('h');
    } else if c == 'З' {
        out.push('Z');
    } else if c == 'И' {
        out.push('I');
    } else if c == 'Й' {
        out.push('Y');
    } else if c == 'К' {
        out.push('K');
    } else if c == 'Л' {
        out.push('L');
    } else if c == 'М' {
        out.push('M');
    } else if c == 'Н' {
        out.push('N');
    } else if c == 'О' {
        out.push('O');
    } else if c == 'П' {
        out.push('P');
    } else if c == 'Р' {
        out.push('R');
    } else if c == 'С' {
        out.push('S');
    } else if c == 'Т' {
        out.push('T');
    } else if c == 'У' {
        out.push('U');
    } else if c == 'Ф' {
        out.push('F');
    } else if c == 'Х' {
        out.push('H');
    } else if c == 'Ц' {
        out.push('T');
        out.push('s');
    } else if c == 'Ч' {
        out.push('C');
        out.push('h');
    } else if c == 'Ш' {
        out.push('S');
        out.push('h');
    } else if c == 'Щ' {
        out.push('S');
        out.push('h');
        out.push('c');
        out.push('h');
    } else if c == 'Ъ' {
    } else if c == 'Ы' {
        out.push('Y');
    } else if c == 'Ь' {
    } else if c == 'Э' {
        out.push('E');
    } else if c == 'Ю' {
        out.push('Y');
        out.push('u');
    } else if c == 'Я' {
        out.push('Y');
        out.push('a');
    } else {
        out.push(c);
    }
    proof {
        assert(out@ =~= old(out)@ + translit_map(c));
    }
}

/// Replaces each Cyrillic character by its Latin transliteration.
pub fn transliterate_russian(text: &str) -> (r: String)
    ensures
        r@ == spec_translit(text@),
{
    let tc = chars_of(text);
    let mut out: Vec<char> = Vec::new();
    let mut i: usize = 0;
    proof {
        assert(spec_translit(tc@.take(0)) =~= Seq::<char>::empty());
    }
    while i < tc.len()
        invariant
            i <= tc@.len(),
            out@ == spec_translit(tc@.take(i as int)),
        decreases tc@.len() - i,
    {
        push_translit(&mut out, tc[i]);
        proof {
            lemma_translit_push(tc@.take(i as int), tc@[i as int]);
            assert(tc@.take(i + 1 as int) =~= tc@.take(i as int).push(tc@[i as int]));
        }
        i = i + 1;
    }
    proof {
        assert(tc@.take(tc@.len() as int) =~= tc@);
    }
    string_from_chars(&out)
}

/// Spaces, underscores and pluses become hyphens.
pub open spec fn dash_map(c: char) -> char {
    if c == ' ' || c == '_' || c == '+' {
        '-'
    } else {
        c
    }
}

pub open spec fn spec_dashify(s: Seq<char>) -> Seq<char> {
    s.map_values(|c: char| dash_map(c))
}

/// A character the slug keeps.
pub open spec fn keep_slug(c: char) -> bool {
    ('a' <= c && c <= 'z') || ('0' <= c && c <= '9') || c == '-'
}

/// The text with everything outside the slug alphabet removed.
pub open spec fn spec_strip(s: Seq<char>) -> Seq<char>
    decreases s.len(),
{
    if s.len() == 0 {
        Seq::empty()
    } else if keep_slug(s[0]) {
        seq![s[0]] + spec_strip(s.drop_first())
    } else {
        spec_strip(s.drop_first())
    }
}

pub proof fn lemma_strip_push(s: Seq<char>, c: char)
    ensures
        spec_strip(s.push(c)) == (if keep_slug(c) {
            spec_strip(s).push(c)
        } else {
            spec_strip(s)
        }),
    decreases s.len(),
{
    if s.len() == 0 {
        assert(s.push(c)[0] == c);
        assert(s.push(c).drop_first() =~= Seq::<char>::empty());
        assert(spec_strip(Seq::<char>::empty()) == Seq::<char>::empty());
        if keep_slug(c) {
            assert(spec_strip(s.push(c)) == seq![c] + spec_strip(Seq::<char>::empty()));
            assert(seq![c] + Seq::<char>::empty() =~= seq![c]);
            assert(spec_strip(s).push(c) =~= seq![c]);
        }
    } else {
        assert(s.push(c).drop_first() =~= s.drop_first().push(c));
        lemma_strip_push(s.drop_first(), c);
        if keep_slug(c) {
            assert(seq![s[0]] + spec_strip(s.drop_first()).push(c) =~= (seq![s[0]] + spec_strip(
                s.drop_first(),
            )).push(c));
        }
    }
}

/// The text with every run of hyphens collapsed to one; `prev` reports
/// whether a hyphen directly precedes.
pub open spec fn spec_collapse(s: Seq<char>, prev: bool) -> Seq<char>
    decreases s.len(),
{
    if s.len() == 0 {
        Seq::empty()
    } else if s[0] == '-' && prev {
        spec_collapse(s.drop_first(), true)
    } else if s[0] == '-' {
        seq!['-'] + spec_collapse(s.drop_first(), true)
    } else {
        seq![s[0]] + spec_collapse(s.drop_first(), false)
    }
}

/// One leading hyphen removed.
pub open spec fn drop_lead_dash(s: Seq<char>) -> Seq<char> {
    if s.len() > 0 && s[0] == '-' {
        s.drop_first()
    } else {
        s
    }
}

/// One trailing hyphen removed.
pub open spec fn drop_tail_dash(s: Seq<char>) -> Seq<char> {
    if s.len() > 0 && s.last() == '-' {
        s.drop_last()
    } else {
        s
    }
}

/// The slug of an already-lowercased text: hyphenation, the slug alphabet,
/// collapsed runs, trimmed edges.
pub open spec fn spec_slug_of_lower(l: Seq<char>) -> Seq<char> {
    drop_tail_dash(drop_lead_dash(spec_collapse(spec_strip(spec_dashify(l)), false)))
}

/// Derives a file-name slug from a title: transliterate, lowercase, then
/// keep only slug characters with single hyphens between words.
pub fn sanitize_filename(title: &str) -> (r: String)
    ensures
        r@ == spec_slug_of_lower(lower_of(spec_translit(title@))),
{
    let t = transliterate_russian(title);
    let low = lowercase(t.as_str());
    let lc = chars_of(low.as_str());
    let mut stripped: Vec<char> = Vec::new();
    let mut i: usize = 0;
    proof {
        assert(spec_dashify(lc@.take(0)) =~= Seq::<char>::empty());
        assert(spec_strip(spec_dashify(lc@.take(0))) =~= Seq::<char>::empty());
    }
    while i < lc.len()
        invariant
            i <= lc@.len(),
            stripped@ == spec_strip(spec_dashify(lc@.take(i as int))),
        decreases lc@.len() - i,
    {
        let c0 = lc[i];
        let c = if c0 == ' ' || c0 == '_' || c0 == '+' {
            '-'
        } else {
            c0
        };
        if ('a' <= c && c <= 'z') || ('0' <= c && c <= '9') || c == '-' {
            stripped.push(c);
        }
        proof {
            assert(lc@.take(i + 1 as int) =~= lc@.take(i as int).push(lc@[i as int]));
            assert(spec_dashify(lc@.take(i + 1 as int)) =~= spec_dashify(lc@.take(i as int)).push(
                dash_map(lc@[i as int]),
            ));
            lemma_strip_push(spec_dashify(lc@.take(i as int)), dash_map(lc@[i as int]));
        }
        i = i + 1;
    }
    proof {
        assert(lc@.take(lc@.len() as int) =~= lc@);
    }
    let mut collapsed: Vec<char> = Vec::new();
    let mut prev = false;
    let mut j: usize = 0;
    proof {
        assert(stripped@.skip(0) =~= stripped@);
    }
    while j < stripped.len()
        invariant
            j <= stripped@.len(),
            spec_collapse(stripped@, false) == collapsed@ + spec_collapse(
                stripped@.skip(j as int),
                prev,
            ),
        decreases stripped@.len() - j,
    {
        let c = stripped[j];
        proof {
            assert(stripped@.skip(j as int)[0] == stripped@[j as int]);
            assert(stripped@.skip(j as int).drop_first() =~= stripped@.skip(j + 1 as int));
        }
        if c == '-' {
            if !prev {
                collapsed.push('-');
                proof {
                    assert(collapsed@ + spec_collapse(stripped@.skip(j + 1 as int), true)
                        =~= (collapsed@.drop_last() + (seq!['-'] + spec_collapse(
                        stripped@.skip(j + 1 as int),
                        true,
                    ))));
                }
            }
            prev = true;
        } else {
            collapsed.push(c);
            proof {
                assert(collapsed@ + spec_collapse(stripped@.skip(j + 1 as int), false)
                    =~= (collapsed@.drop_last() + (seq![c] + spec_collapse(
                    stripped@.skip(j + 1 as int),
                    false,
                ))));
            }
            prev = false;
        }
        j = j + 1;
    }
    proof {
        assert(stripped@.skip(stripped@.len() as int) =~= Seq::<char>::empty());
        assert(collapsed@ + Seq::<char>::empty() =~= collapsed@);
    }
    let mut lo: usize = 0;
    let mut hi: usize = collapsed.len();
    if hi > 0 && collapsed[0] == '-' {
        lo = 1;
    }
    if hi > lo && collapsed[hi - 1] == '-' {
        hi = hi - 1;
    }
    let trimmed = crate::text::subrange_of(&collapsed, lo, hi);
    proof {
        let cv = collapsed@;
        assert(trimmed@ =~= drop_tail_dash(drop_lead_dash(cv))) by {
            if cv.len() > 0 && cv[0] == '-' {
                assert(drop_lead_dash(cv) =~= cv.subrange(1, cv.len() as int));
            } else {
                assert(drop_lead_dash(cv) =~= cv.subrange(0, cv.len() as int));
            }
            let dl = drop_lead_dash(cv);
            if dl.len() > 0 && dl.last() == '-' {
                assert(drop_tail_dash(dl) =~= dl.drop_last());
            }
        }
    }
    string_from_chars(&trimmed)
}

/// What one file-name character becomes in a sanitized image name: ASCII
/// letters, digits, hyphens and underscores stay, whitespace becomes a
/// hyphen, everything else is dropped.
pub open spec fn image_char_map(c: char) -> Seq<char> {
    if ('a' <= c && c <= 'z') || ('A' <= c && c <= 'Z') || ('0' <= c && c <= '9') || c == '-' || c
        == '_' {
        seq![c]
    } else if ws_char(c) {
        seq!['-']
    } else {
        Seq::empty()
    }
}

pub open spec fn spec_image_san(s: Seq<char>) -> Seq<char>
    decreases s.len(),
{
    if s.len() == 0 {
        Seq::empty()
    } else {
        image_char_map(s[0]) + spec_image_san(s.drop_first())
    }
}

pub proof fn lemma_image_san_push(s: Seq<char>, c: char)
    ensures
        spec_image_san(s.push(c)) == spec_image_san(s) + image_char_map(c),
    decreases s.len(),
{
    if s.len() == 0 {
        assert(s.push(c)[0] == c);
        assert(s.push(c).drop_first() =~= Seq::<char>::empty());
        assert(spec_image_san(s.push(c)) == image_char_map(c) + spec_image_san(
            Seq::<char>::empty(),
        ));
        assert(image_char_map(c) + Seq::<char>::empty() =~= image_char_map(c));
        assert(spec_image_san(s) + image_char_map(c) =~= image_char_map(c));
    } else {
        assert(s.push(c).drop_first() =~= s.drop_first().push(c));
        lemma_image_san_push(s.drop_first(), c);
        assert(spec_image_san(s.push(c)) =~= spec_image_san(s) + image_char_map(c));
    }
}

/// The sanitized stem of an image file name, with the sentinel for an
/// empty result.
pub open spec fn spec_image_stem(stem: Seq<char>) -> Seq<char> {
    if spec_image_san(stem).len() == 0 {
        "image"@
    } else {
        spec_image_san(stem)
    }
}

/// Sanitizes an image file name: the stem keeps ASCII letters, digits,
/// hyphens and underscores, whitespace turns into hyphens, and the
/// extension is carried over unchanged.
pub fn sanitize_image_filename(filename: &str) -> (r: String)
    ensures
        (match crate::classify::ext_of(filename@) {
            Some(e) => r@ == spec_image_stem(
                crate::classify::base_name(filename@).take(
                    crate::classify::base_name(filename@).len() - e.len() - 1,
                ),
            ) + seq!['.'] + e,
            None => r@ == spec_image_stem(crate::classify::base_name(filename@)),
        }),
{
    let fc = chars_of(filename);
    let name = crate::classify::base_name_exec(&fc);
    let m = name.len();
    let (stem, ext): (Vec<char>, Option<Vec<char>>) = match crate::classify::rfind_in(&name, '.') {
        Some(d) if d > 0 => {
            proof {
                crate::classify::lemma_rfind_props(name@, '.');
            }
            assert(d < m);
            let st = crate::text::subrange_of(&name, 0, d);
            let ex = crate::text::subrange_of(&name, d + 1, m);
            proof {
                assert(ex@ =~= name@.skip(d + 1 as int));
                assert(st@ =~= name@.take(name@.len() - ex@.len() - 1));
            }
            (st, Some(ex))
        },
        _ => {
            let st = crate::text::subrange_of(&name, 0, m);
            proof {
                assert(st@ =~= name@);
            }
            (st, None)
        },
    };
    let mut out: Vec<char> = Vec::new();
    let mut i: usize = 0;
    proof {
        assert(spec_image_san(stem@.take(0)) =~= Seq::<char>::empty());
    }
    while i < stem.len()
        invariant
            i <= stem@.len(),
            out@ == spec_image_san(stem@.take(i as int)),
        decreases stem@.len() - i,
    {
        let c = stem[i];
        if ('a' <= c && c <= 'z') || ('A' <= c && c <= 'Z') || ('0' <= c && c <= '9') || c == '-'
            || c == '_' {
            out.push(c);
        } else if c.is_whitespace() {
            out.push('-');
        }
        proof {
            lemma_image_san_push(stem@.take(i as int), stem@[i as int]);
            assert(stem@.take(i + 1 as int) =~= stem@.take(i as int).push(stem@[i as int]));
            assert(out@ =~= spec_image_san(stem@.take(i + 1 as int)));
        }
        i = i + 1;
    }
    proof {
        assert(stem@.take(stem@.len() as int) =~= stem@);
    }
    let sanitized: String = if out.len() == 0 {
        "image".to_owned()
    } else {
        string_from_chars(&out)
    };
    match ext {
        Some(e) => {
            let mut full = chars_of(sanitized.as_str());
            full.push('.');
            let ghost mark = full@;
            let mut k: usize = 0;
            while k < e.len()
                invariant
                    k <= e@.len(),
                    full@ == mark + e@.take(k as int),
                decreases e@.len() - k,
            {
                full.push(e[k]);
                proof {
                    assert(e@.take(k + 1 as int) =~= e@.take(k as int).push(e@[k as int]));
                    assert(full@ =~= mark + e@.take(k + 1 as int));
                }
                k = k + 1;
            }
            proof {
                assert(e@.take(e@.len() as int) =~= e@);
                assert(full@ =~= sanitized@ + seq!['.'] + e@);
            }
            string_from_chars(&full)
        },
        None => sanitized,
    }
}

} // verus!
