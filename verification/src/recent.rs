//! The recent-projects list: a path moves to the front, duplicates leave,
//! and only the ten most recent entries stay.

use vstd::prelude::*;

use crate::model::strings_view;

verus! {

/// `old` with every occurrence of `p` removed, in order.
pub open spec fn spec_remove_all(s: Seq<Seq<char>>, p: Seq<char>) -> Seq<Seq<char>>
    decreases s.len(),
{
    if s.len() == 0 {
        Seq::empty()
    } else if s[0] == p {
        spec_remove_all(s.drop_first(), p)
    } else {
        seq![s[0]] + spec_remove_all(s.drop_first(), p)
    }
}

pub proof fn lemma_remove_all_push(s: Seq<Seq<char>>, p: Seq<char>, x: Seq<char>)
    ensures
        spec_remove_all(s.push(x), p) == (if x == p {
            spec_remove_all(s, p)
        } else {
            spec_remove_all(s, p).push(x)
        }),
    decreases s.len(),
{
    if s.len() == 0 {
        assert(s.push(x)[0] == x);
        assert(s.push(x).drop_first() =~= Seq::<Seq<char>>::empty());
        assert(spec_remove_all(Seq::<Seq<char>>::empty(), p) == Seq::<Seq<char>>::empty());
        if x != p {
            assert(seq![x] + Seq::<Seq<char>>::empty() =~= seq![x]);
            assert(spec_remove_all(s, p).push(x) =~= seq![x]);
        }
    } else {
        assert(s.push(x).drop_first() =~= s.drop_first().push(x));
        lemma_remove_all_push(s.drop_first(), p, x);
        if s[0] != p && x != p {
            assert(seq![s[0]] + spec_remove_all(s.drop_first(), p).push(x) =~= (seq![s[0]]
                + spec_remove_all(s.drop_first(), p)).push(x));
        }
    }
}

/// The list after a project is opened: the path first, earlier mentions of
/// it gone, at most ten entries kept.
pub open spec fn spec_add_recent(old: Seq<Seq<char>>, p: Seq<char>) -> Seq<Seq<char>> {
    let x = seq![p] + spec_remove_all(old, p);
    if x.len() > 10 {
        x.take(10)
    } else {
        x
    }
}

/// Moves `project_path` to the front of the recent list, dropping earlier
/// mentions and keeping only the ten most recent entries.
pub fn add_recent_project(recent: &mut Vec<String>, project_path: &str)
    ensures
        strings_view(final(recent)@) == spec_add_recent(strings_view(old(recent)@), project_path@),
{
    let p = project_path.to_owned();
    let mut out: Vec<String> = Vec::new();
    out.push(p.clone());
    let ghost ov = strings_view(recent@);
    proof {
        assert(strings_view(out@) =~= seq![project_path@]);
        assert(spec_remove_all(ov.take(0), project_path@) =~= Seq::<Seq<char>>::empty());
        assert(strings_view(out@) =~= seq![project_path@] + spec_remove_all(
            ov.take(0),
            project_path@,
        ));
    }
    let mut i: usize = 0;
    while i < recent.len()
        invariant
            i <= recent@.len(),
            p@ == project_path@,
            ov == strings_view(recent@),
            strings_view(out@) == seq![project_path@] + spec_remove_all(
                ov.take(i as int),
                project_path@,
            ),
        decreases recent@.len() - i,
    {
        let keep = !(recent[i] == p);
        proof {
            assert(ov.take(i + 1 as int) =~= ov.take(i as int).push(ov[i as int]));
            lemma_remove_all_push(ov.take(i as int), project_path@, ov[i as int]);
            assert(ov[i as int] == recent@[i as int]@);
        }
        if keep {
            let ghost prev = out@;
            out.push(recent[i].clone());
            proof {
                assert(strings_view(out@) =~= strings_view(prev).push(recent@[i as int]@));
                assert(seq![project_path@] + spec_remove_all(ov.take(i as int), project_path@).push(
                    ov[i as int],
                ) =~= (seq![project_path@] + spec_remove_all(ov.take(i as int), project_path@)).push(
                    ov[i as int],
                ));
            }
        }
        i = i + 1;
    }
    proof {
        assert(ov.take(ov.len() as int) =~= ov);
    }
    if out.len() > 10 {
        let ghost before = strings_view(out@);
        out.truncate(10);
        proof {
            assert(strings_view(out@) =~= before.take(10));
        }
    }
    *recent = out;
}

} // verus!
