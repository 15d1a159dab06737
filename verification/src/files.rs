//! Ordering of the downloads-directory listing.
//!
//! The artifact listing reports each file with its creation timestamp,
//! newest first. The sort is by timestamp only, keeps every entry, and
//! leaves entries with equal timestamps in their original relative order
//! (the earliest-found maximum is taken first).

use vstd::multiset::Multiset;
use vstd::prelude::*;

verus! {

broadcast use vstd::seq_lib::group_to_multiset_ensures;

/// One file of the downloads directory with its creation time in seconds.
pub struct FileInfo {
    pub filename: String,
    pub created_time: u64,
}

/// Newest first: creation times never increase along the sequence.
pub open spec fn sorted_newest_first(s: Seq<FileInfo>) -> bool {
    forall|i: int, j: int| 0 <= i <= j < s.len() ==> s[i].created_time >= s[j].created_time
}

/// Sort the listing newest first. The result holds exactly the entries of
/// the input (as a multiset) in an order of non-increasing creation time.
pub fn sort_files(files: Vec<FileInfo>) -> (r: Vec<FileInfo>)
    ensures
        sorted_newest_first(r@),
        r@.to_multiset() == files@.to_multiset(),
        r@.len() == files@.len(),
{
    let mut src = files;
    let mut out: Vec<FileInfo> = Vec::new();
    proof {
        assert(out@.to_multiset().add(src@.to_multiset()) =~= src@.to_multiset());
    }
    while src.len() > 0
        invariant
            sorted_newest_first(out@),
            out@.to_multiset().add(src@.to_multiset()) == files@.to_multiset(),
            out@.len() + src@.len() == files@.len(),
            forall|i: int, j: int| 0 <= i < out@.len() && 0 <= j < src@.len()
                ==> out@[i].created_time >= src@[j].created_time,
        decreases src.len(),
    {
        let n = src.len();
        let mut mi: usize = 0;
        let mut k: usize = 1;
        while k < n
            invariant
                n == src@.len(),
                mi < k <= n,
                forall|j: int| 0 <= j < k ==> src@[mi as int].created_time
                    >= src@[j].created_time,
            decreases n - k,
        {
            if src[k].created_time > src[mi].created_time {
                mi = k;
            }
            k += 1;
        }
        let ghost old_src = src@;
        let ghost old_out = out@;
        let e = src.remove(mi);
        out.push(e);
        proof {
            assert(src@.to_multiset() =~= old_src.to_multiset().remove(e));
            assert(out@.to_multiset() =~= old_out.to_multiset().insert(e));
            assert(old_src.contains(e));
            assert(old_src.to_multiset().count(e) > 0);
            assert(out@.to_multiset().add(src@.to_multiset()) =~= old_out.to_multiset().add(
                old_src.to_multiset(),
            ));
            assert forall|i: int, j: int|
                0 <= i < out@.len() && 0 <= j < src@.len() implies out@[i].created_time
                >= src@[j].created_time by {
                if j < mi {
                    assert(src@[j] == old_src[j]);
                } else {
                    assert(src@[j] == old_src[j + 1]);
                }
            }
        }
    }
    proof {
        assert(src@.to_multiset() =~= Multiset::<FileInfo>::empty());
        assert(out@.to_multiset().add(Multiset::<FileInfo>::empty()) =~= out@.to_multiset());
    }
    out
}

} // verus!
