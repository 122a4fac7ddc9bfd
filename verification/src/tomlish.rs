//! The alternate mapping syntax used by `+++` frontmatter blocks:
//! `key = value` lines, full-line comments, and the same scalar and flow
//! list forms as the primary syntax, bridged to the same field model.

use vstd::prelude::*;

use crate::model::ValueV;
use crate::mapping::line_blank;
use crate::mapping::parse_value_token;
use crate::text::spec_trim;
use crate::text::trim_front;

verus! {

/// First index at or after `i` holding `=`, or the length.
pub open spec fn eq_scan(s: Seq<char>, i: int) -> int
    decreases s.len() - i,
{
    if i < 0 || i >= s.len() {
        s.len() as int
    } else if s[i] == '=' {
        i
    } else {
        eq_scan(s, i + 1)
    }
}

/// A line whose first non-blank character opens a comment.
pub open spec fn comment_line(l: Seq<char>) -> bool {
    trim_front(l).len() > 0 && trim_front(l)[0] == '#'
}

/// Decodes the alternate mapping held in `lines`, from line `i` on:
/// `key = value` pairs, with blank and comment lines skipped.
pub open spec fn parse_toml_fields(lines: Seq<Seq<char>>, i: int) -> Option<
    Seq<(Seq<char>, ValueV)>,
>
    decreases lines.len() - i,
{
    if i < 0 {
        None
    } else if i >= lines.len() {
        Some(Seq::empty())
    } else if line_blank(lines[i]) || comment_line(lines[i]) {
        parse_toml_fields(lines, i + 1)
    } else {
        let l = lines[i];
        let e = eq_scan(l, 0);
        if e >= l.len() {
            None
        } else {
            let key = spec_trim(l.take(e));
            let vt = spec_trim(l.skip(e + 1));
            if key.len() == 0 || vt.len() == 0 {
                None
            } else {
                match parse_value_token(vt) {
                    None => None,
                    Some(v) => match parse_toml_fields(lines, i + 1) {
                        Some(r) => Some(seq![(key, v)] + r),
                        None => None,
                    },
                }
            }
        }
    }
}

} // verus!
