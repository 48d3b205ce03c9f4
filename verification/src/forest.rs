//! The folder forest: parent chains and what lies below a folder.

use crate::model::FolderView;
use vstd::prelude::*;
use vstd::set_lib::{lemma_int_range, lemma_len_subset, set_int_range};

verus! {

/// Some folder of `fs` has the id.
pub open spec fn has_folder(fs: Seq<FolderView>, id: Seq<char>) -> bool {
    exists|i: int| 0 <= i < fs.len() && (#[trigger] fs[i]).id == id
}

/// The place in `fs` of a folder with the id, where there is one.
pub open spec fn index_of(fs: Seq<FolderView>, id: Seq<char>) -> int {
    choose|i: int| 0 <= i < fs.len() && (#[trigger] fs[i]).id == id
}

/// The parent of the folder with the id; `None` for a root-level folder and
/// for an id that no folder has.
pub open spec fn parent_of(fs: Seq<FolderView>, id: Seq<char>) -> Option<Seq<char>> {
    if has_folder(fs, id) {
        fs[index_of(fs, id)].parent_id
    } else {
        None
    }
}

/// The id reached from `id` after `k` steps from a folder to its parent;
/// `None` once the chain has passed a root.
pub open spec fn up(fs: Seq<FolderView>, id: Seq<char>, k: nat) -> Option<Seq<char>>
    decreases k,
{
    if k == 0 {
        Some(id)
    } else {
        match parent_of(fs, id) {
            Some(p) => up(fs, p, (k - 1) as nat),
            None => None,
        }
    }
}

/// `id` is `root` or the parent chain of `id` reaches `root`.
pub open spec fn under(fs: Seq<FolderView>, id: Seq<char>, root: Seq<char>) -> bool {
    exists|k: nat| up(fs, id, k) == Some(root)
}

/// The parent chain of `id` ends.
pub open spec fn rooted(fs: Seq<FolderView>, id: Seq<char>) -> bool {
    exists|k: nat| up(fs, id, k) is None
}

/// No two folders share an id.
pub open spec fn unique_ids(fs: Seq<FolderView>) -> bool {
    forall|i: int, j: int|
        0 <= i < fs.len() && 0 <= j < fs.len() && i != j ==> (#[trigger] fs[i]).id != (
        #[trigger] fs[j]).id
}

/// Every parent that is named is a folder.
pub open spec fn parents_exist(fs: Seq<FolderView>) -> bool {
    forall|i: int|
        0 <= i < fs.len() ==> ((#[trigger] fs[i]).parent_id matches Some(p) ==> has_folder(fs, p))
}

/// No parent chain runs in a circle.
pub open spec fn acyclic(fs: Seq<FolderView>) -> bool {
    forall|i: int| 0 <= i < fs.len() ==> rooted(fs, (#[trigger] fs[i]).id)
}

/// Where ids are unique, the folder at place `i` is the one found by its id.
pub proof fn lemma_index_of(fs: Seq<FolderView>, i: int)
    requires
        unique_ids(fs),
        0 <= i < fs.len(),
    ensures
        has_folder(fs, fs[i].id),
        index_of(fs, fs[i].id) == i,
        parent_of(fs, fs[i].id) == fs[i].parent_id,
{
    assert(fs[i].id == fs[i].id);
}

/// A folder that is found lies inside `fs` and has the id.
pub proof fn lemma_index_in_range(fs: Seq<FolderView>, id: Seq<char>)
    requires
        has_folder(fs, id),
    ensures
        0 <= index_of(fs, id) < fs.len(),
        fs[index_of(fs, id)].id == id,
{
}

/// `a + b` steps are `a` steps and then `b` steps.
pub proof fn lemma_up_add(fs: Seq<FolderView>, id: Seq<char>, a: nat, b: nat)
    ensures
        up(fs, id, a + b) == match up(fs, id, a) {
            Some(m) => up(fs, m, b),
            None => None,
        },
    decreases a,
{
    if a > 0 {
        match parent_of(fs, id) {
            Some(p) => {
                lemma_up_add(fs, p, (a - 1) as nat, b);
                assert((a + b - 1) as nat == (a - 1) as nat + b);
            },
            None => {},
        }
    }
}

/// A chain that has ended stays ended.
pub proof fn lemma_up_none_stays(fs: Seq<FolderView>, id: Seq<char>, a: nat, b: nat)
    requires
        up(fs, id, a) is None,
        a <= b,
    ensures
        up(fs, id, b) is None,
{
    lemma_up_add(fs, id, a, (b - a) as nat);
}

/// A folder lies under whatever its parent lies under.
pub proof fn lemma_under_step(fs: Seq<FolderView>, id: Seq<char>, root: Seq<char>)
    requires
        parent_of(fs, id) matches Some(p) && under(fs, p, root),
    ensures
        under(fs, id, root),
{
    let p = parent_of(fs, id)->0;
    let k = choose|k: nat| up(fs, p, k) == Some(root);
    assert(up(fs, id, k + 1) == Some(root));
}

/// A chain that comes by one id twice never ends.
proof fn lemma_repeat_never_ends(fs: Seq<FolderView>, id: Seq<char>, a: nat, b: nat, t: nat)
    requires
        a < b,
        up(fs, id, a) == up(fs, id, b),
        up(fs, id, a) is Some,
    ensures
        up(fs, id, t) is Some,
    decreases t,
{
    if t <= b {
        if up(fs, id, t) is None {
            lemma_up_none_stays(fs, id, t, b);
        }
    } else {
        let m = (t - b) as nat;
        lemma_up_add(fs, id, b, m);
        lemma_up_add(fs, id, a, m);
        lemma_repeat_never_ends(fs, id, a, b, a + m);
    }
}

/// A chain that ends has ended after one step more than there are folders.
pub proof fn lemma_chain_bound(fs: Seq<FolderView>, id: Seq<char>)
    requires
        rooted(fs, id),
    ensures
        up(fs, id, fs.len() + 1) is None,
{
    let n = fs.len();
    if up(fs, id, n + 1) is Some {
        assert forall|t: nat| t <= n implies (#[trigger] up(fs, id, t)) is Some && has_folder(
            fs,
            up(fs, id, t)->0,
        ) by {
            if up(fs, id, t) is None {
                lemma_up_none_stays(fs, id, t, n + 1);
            }
            lemma_up_add(fs, id, t, 1);
            if up(fs, id, t + 1) is None {
                lemma_up_none_stays(fs, id, t + 1, n + 1);
            }
            let m = up(fs, id, t)->0;
            assert(up(fs, m, 1) is Some);
            assert(parent_of(fs, m) is Some);
        }
        let s = Seq::new(n + 1, |t: int| index_of(fs, up(fs, id, t as nat)->0));
        if s.no_duplicates() {
            s.unique_seq_to_set();
            lemma_int_range(0, n as int);
            assert(s.to_set().subset_of(set_int_range(0, n as int))) by {
                assert forall|x: int| s.to_set().contains(x) implies set_int_range(
                    0,
                    n as int,
                ).contains(x) by {
                    let t = choose|t: int| 0 <= t < s.len() && s[t] == x;
                    assert(up(fs, id, t as nat) is Some);
                    lemma_index_in_range(fs, up(fs, id, t as nat)->0);
                }
            }
            lemma_len_subset(s.to_set(), set_int_range(0, n as int));
            assert(false);
        } else {
            let (i, j) = choose|i: int, j: int|
                0 <= i < s.len() && 0 <= j < s.len() && i != j && s[i] == s[j];
            assert(up(fs, id, i as nat) is Some);
            assert(up(fs, id, j as nat) is Some);
            lemma_index_in_range(fs, up(fs, id, i as nat)->0);
            lemma_index_in_range(fs, up(fs, id, j as nat)->0);
            assert(up(fs, id, i as nat) == up(fs, id, j as nat));
            let k = choose|k: nat| up(fs, id, k) is None;
            if i < j {
                lemma_repeat_never_ends(fs, id, i as nat, j as nat, k);
            } else {
                lemma_repeat_never_ends(fs, id, j as nat, i as nat, k);
            }
            assert(false);
        }
    }
}

/// Where two forests give the same parent to every id of a class that is
/// closed under taking the parent, chains that start in the class agree.
pub proof fn lemma_up_agree(
    old_fs: Seq<FolderView>,
    new_fs: Seq<FolderView>,
    keep: spec_fn(Seq<char>) -> bool,
    x: Seq<char>,
    k: nat,
)
    requires
        forall|y: Seq<char>| #[trigger] keep(y) ==> parent_of(new_fs, y) == parent_of(old_fs, y),
        forall|y: Seq<char>|
            #[trigger] keep(y) ==> (parent_of(old_fs, y) matches Some(p) ==> keep(p)),
        keep(x),
    ensures
        up(new_fs, x, k) == up(old_fs, x, k),
    decreases k,
{
    if k > 0 {
        match parent_of(old_fs, x) {
            Some(p) => {
                lemma_up_agree(old_fs, new_fs, keep, p, (k - 1) as nat);
            },
            None => {},
        }
    }
}

/// An id that no folder has ends its own chain.
pub proof fn lemma_absent_rooted(fs: Seq<FolderView>, id: Seq<char>)
    requires
        !has_folder(fs, id),
    ensures
        up(fs, id, 1) is None,
        rooted(fs, id),
{
}

/// Only an id itself lies under an id that no folder has, where every
/// parent that is named is a folder.
pub proof fn lemma_under_absent(fs: Seq<FolderView>, id: Seq<char>, root: Seq<char>, k: nat)
    requires
        unique_ids(fs),
        parents_exist(fs),
        !has_folder(fs, root),
        id != root,
    ensures
        up(fs, id, k) != Some(root),
    decreases k,
{
    if k > 0 {
        if has_folder(fs, id) {
            lemma_index_in_range(fs, id);
            match parent_of(fs, id) {
                Some(p) => {
                    lemma_under_absent(fs, p, root, (k - 1) as nat);
                },
                None => {},
            }
        }
    }
}

} // verus!
