//! Artifact detection by directory-snapshot diffing.
//!
//! The orchestrator lists the download directory immediately before the
//! process is spawned and again after it exits. The artifact is the first
//! name, in enumeration order of the second listing, that the first
//! listing does not contain. Zero or several new names are tolerated: at
//! most one is picked, never an error.

use vstd::prelude::*;

verus! {

/// The first element of `after`, in order, that `before` does not
/// contain; `None` when every element of `after` already appeared.
pub open spec fn first_new(before: Seq<Seq<char>>, after: Seq<Seq<char>>) -> Option<Seq<char>>
    decreases after.len(),
{
    if after.len() == 0 {
        None
    } else if !before.contains(after[0]) {
        Some(after[0])
    } else {
        first_new(before, after.drop_first())
    }
}

/// A detected artifact really is new: it occurs in the after-listing and
/// not in the snapshot; and nothing is detected only when every name of
/// the after-listing was already present before the spawn.
pub proof fn lemma_first_new_sound(before: Seq<Seq<char>>, after: Seq<Seq<char>>)
    ensures
        match first_new(before, after) {
            Some(n) => after.contains(n) && !before.contains(n),
            None => forall|i: int| 0 <= i < after.len() ==> before.contains(#[trigger] after[i]),
        },
    decreases after.len(),
{
    if after.len() > 0 {
        if before.contains(after[0]) {
            lemma_first_new_sound(before, after.drop_first());
            match first_new(before, after) {
                Some(n) => {
                    let j = choose|j: int|
                        0 <= j < after.drop_first().len() && after.drop_first()[j] == n;
                    assert(after[j + 1] == n);
                },
                None => {
                    assert forall|i: int| 0 <= i < after.len() implies before.contains(
                        #[trigger] after[i],
                    ) by {
                        if i > 0 {
                            assert(after.drop_first()[i - 1] == after[i]);
                        }
                    }
                },
            }
        } else {
            assert(after.contains(after[0]));
        }
    }
}

/// Whether some element of `names` reads as the same text as `x`.
fn contains_name(names: &Vec<String>, x: &String) -> (b: bool)
    ensures
        b == names.deep_view().contains(x@),
{
    let ghost nd = names.deep_view();
    let n = names.len();
    let mut i: usize = 0;
    while i < n
        invariant
            n == names.len(),
            i <= n,
            nd == names.deep_view(),
            forall|j: int| 0 <= j < i ==> nd[j] != x@,
        decreases n - i,
    {
        if names[i] == *x {
            proof {
                assert(nd[i as int] == x@);
            }
            return true;
        }
        i += 1;
    }
    proof {
        assert(!nd.contains(x@));
    }
    false
}

/// Compare the directory listing taken after the process exited with the
/// snapshot taken before it was spawned, and return the first newly
/// appeared name, if any.
pub fn detect_new_artifact(before: &Vec<String>, after: &Vec<String>) -> (r: Option<String>)
    ensures
        r.deep_view() == first_new(before.deep_view(), after.deep_view()),
{
    let ghost bd = before.deep_view();
    let ghost ad = after.deep_view();
    let n = after.len();
    let mut i: usize = 0;
    proof {
        assert(ad.skip(0) =~= ad);
    }
    while i < n
        invariant
            n == after.len(),
            i <= n,
            bd == before.deep_view(),
            ad == after.deep_view(),
            first_new(bd, ad) == first_new(bd, ad.skip(i as int)),
        decreases n - i,
    {
        let is_old = contains_name(before, &after[i]);
        proof {
            assert(ad.skip(i as int)[0] == ad[i as int]);
            assert(ad[i as int] == after[i as int]@);
        }
        if !is_old {
            let found = after[i].clone();
            proof {
                assert(first_new(bd, ad.skip(i as int)) == Some(ad[i as int]));
            }
            return Some(found);
        }
        proof {
            assert(ad.skip(i as int).drop_first() =~= ad.skip(i as int + 1));
        }
        i += 1;
    }
    proof {
        assert(ad.skip(n as int) =~= Seq::<Seq<char>>::empty());
    }
    None
}

} // verus!
