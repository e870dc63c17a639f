//! The recently-opened-files list: most recent first, no duplicates, and
//! never more than ten entries.
use vstd::prelude::*;

verus! {

/// How many recently opened files are remembered.
pub const RECENT_FILES_LIMIT: usize = 10;

/// The list with every entry equal to `p` removed, order kept.
pub open spec fn without_path(list: Seq<Seq<char>>, p: Seq<char>) -> Seq<Seq<char>>
    decreases list.len(),
{
    if list.len() == 0 {
        Seq::empty()
    } else {
        let rest = without_path(list.drop_last(), p);
        if list.last() == p {
            rest
        } else {
            rest.push(list.last())
        }
    }
}

/// The list after recording `p` as most recent: `p` moves to the front,
/// any earlier occurrence of it disappears, and the tail is cut at the
/// limit.
pub open spec fn recents_after(list: Seq<Seq<char>>, p: Seq<char>) -> Seq<Seq<char>> {
    let all = seq![p] + without_path(list, p);
    if all.len() > RECENT_FILES_LIMIT {
        all.take(RECENT_FILES_LIMIT as int)
    } else {
        all
    }
}

/// Records `path` as the most recently opened file: it moves to the front
/// of the list, a duplicate is dropped, and the list is capped at ten
/// entries.
pub fn add_recent_file(recent_files: &mut Vec<String>, path: &String)
    ensures
        final(recent_files).deep_view() == recents_after(
            old(recent_files).deep_view(),
            path@,
        ),
{
    let mut kept: Vec<String> = Vec::new();
    kept.push(path.clone());
    proof {
        assert(kept.deep_view() =~= seq![path@] + without_path(
            recent_files.deep_view().take(0),
            path@,
        ));
    }
    let n = recent_files.len();
    let mut i: usize = 0;
    while i < n
        invariant
            i <= n,
            n == recent_files@.len(),
            recent_files@ == old(recent_files)@,
            kept.deep_view() == seq![path@] + without_path(
                recent_files.deep_view().take(i as int),
                path@,
            ),
        decreases n - i,
    {
        let ghost pre = kept.deep_view();
        let cur = &recent_files[i];
        let same = *cur == *path;
        proof {
            let dv = recent_files.deep_view();
            assert(dv.take(i + 1).drop_last() =~= dv.take(i as int));
            assert(dv.take(i + 1).last() == dv[i as int]);
            assert(dv[i as int] == recent_files@[i as int]@);
        }
        if !same {
            kept.push(cur.clone());
            proof {
                assert(kept.deep_view() =~= pre.push(recent_files@[i as int]@));
            }
        }
        i = i + 1;
    }
    proof {
        assert(recent_files.deep_view().take(n as int) =~= recent_files.deep_view());
    }
    if kept.len() > RECENT_FILES_LIMIT {
        kept.truncate(RECENT_FILES_LIMIT);
        proof {
            assert(kept.deep_view() =~= (seq![path@] + without_path(
                recent_files.deep_view(),
                path@,
            )).take(RECENT_FILES_LIMIT as int));
        }
    }
    *recent_files = kept;
}

} // verus!
