//! The node pools and the structural invariants of the namespace tree.
//!
//! Both pools hold `POOL_CAP` fixed-layout records.  A slot is occupied
//! exactly when its `index` field equals its own position; a free slot, and
//! a free link, holds the sentinel `FREE_SLOT`, one past the last valid
//! pool index.

use vstd::prelude::*;

verus! {

/// Capacity of each node pool.
pub const POOL_CAP: usize = 100;
/// The sentinel marking a slot or a link as free: one past the last valid
/// pool index.
pub const FREE_SLOT: usize = 100;
/// Capacity of a directory or file name, in bytes.
pub const NAME_CAP: usize = 10;
/// How many children (and how many files) one directory can hold.
pub const CHILD_CAP: usize = 20;
/// Capacity of the input line buffer.
pub const LINE_CAP: usize = 80;
/// Capacity of the argument field extracted from a line.
pub const VALUE_CAP: usize = 70;
/// Capacity of a file's content buffer (80 columns by 25 rows).
pub const FILE_BUF_CAP: usize = 2000;

/// One directory record of the pool.
pub struct Dir {
    /// This record's own pool position when occupied, `FREE_SLOT` when free.
    pub index: usize,
    /// Display name, `NAME_CAP` bytes, zero padded.
    pub name: Vec<u8>,
    /// Pool position of the parent; the root is its own parent.
    pub parent_index: usize,
    /// Number of non-free entries of `child_indexes`.
    pub child_count: usize,
    /// Pool positions of the children, `CHILD_CAP` entries; free entries
    /// hold `FREE_SLOT`.
    pub child_indexes: Vec<usize>,
    /// Pool positions of owned files; no operation in scope fills it.
    pub files_indexes: Vec<usize>,
}

/// One file record of the pool.  The data model provisions files, but no
/// command in scope creates or edits one.
pub struct File {
    /// This record's own pool position when occupied, `FREE_SLOT` when free.
    pub index: usize,
    /// Display name, `NAME_CAP` bytes, zero padded.
    pub name: Vec<u8>,
    /// Number of logical lines stored.
    pub count_lines: usize,
    /// Pool position of the owning directory.
    pub folder_index: usize,
    /// Raw text, `FILE_BUF_CAP` bytes.
    pub content: Vec<u8>,
}

/// The field vectors of a directory record have their fixed capacities.
pub open spec fn dir_shape(d: Dir) -> bool {
    &&& d.name@.len() == NAME_CAP
    &&& d.child_indexes@.len() == CHILD_CAP
    &&& d.files_indexes@.len() == CHILD_CAP
}

/// The field vectors of a file record have their fixed capacities.
pub open spec fn file_shape(f: File) -> bool {
    &&& f.name@.len() == NAME_CAP
    &&& f.content@.len() == FILE_BUF_CAP
}

/// Slot `i` of the directory pool is occupied.
pub open spec fn occupied(dirs: Seq<Dir>, i: int) -> bool {
    &&& 0 <= i < POOL_CAP
    &&& dirs[i].index == i
}

/// A slot's `index` is either its own position or the free sentinel.
pub open spec fn slot_ok(dirs: Seq<Dir>, i: int) -> bool {
    dirs[i].index == i || dirs[i].index == FREE_SLOT
}

/// The child link of directory `i` at position `j`.
pub open spec fn kid_at(dirs: Seq<Dir>, i: int, j: int) -> usize {
    dirs[i].child_indexes@[j]
}

/// How many of the first `k` entries of a child array are in use.
pub open spec fn num_kids(s: Seq<usize>, k: int) -> int
    decreases k,
{
    if k <= 0 {
        0
    } else {
        num_kids(s, k - 1) + if s[k - 1] == FREE_SLOT { 0int } else { 1int }
    }
}

pub proof fn lemma_num_kids_bounds(s: Seq<usize>, k: int)
    requires
        0 <= k,
    ensures
        0 <= num_kids(s, k) <= k,
    decreases k,
{
    if k > 0 {
        lemma_num_kids_bounds(s, k - 1);
    }
}

/// Updating one entry moves the count by the difference of the two
/// entries' contributions.
pub proof fn lemma_num_kids_update(s: Seq<usize>, k: int, j: int, v: usize)
    requires
        0 <= j < k <= s.len(),
    ensures
        num_kids(s.update(j, v), k) == num_kids(s, k)
            - (if s[j] == FREE_SLOT { 0int } else { 1int })
            + (if v == FREE_SLOT { 0int } else { 1int }),
    decreases k,
{
    let t = s.update(j, v);
    if j == k - 1 {
        assert(num_kids(t, k - 1) == num_kids(s, k - 1)) by {
            lemma_num_kids_frame(s, t, k - 1);
        }
    } else {
        lemma_num_kids_update(s, k - 1, j, v);
        assert(t[k - 1] == s[k - 1]);
    }
}

/// Two arrays equal on their first `k` entries count the same.
pub proof fn lemma_num_kids_frame(s: Seq<usize>, t: Seq<usize>, k: int)
    requires
        0 <= k,
        forall|m: int| 0 <= m < k ==> s[m] == t[m],
    ensures
        num_kids(s, k) == num_kids(t, k),
    decreases k,
{
    if k > 0 {
        lemma_num_kids_frame(s, t, k - 1);
    }
}

/// A used entry below `k` makes the count positive.
pub proof fn lemma_num_kids_pos(s: Seq<usize>, k: int, j: int)
    requires
        0 <= j < k,
        s[j] != FREE_SLOT,
    ensures
        num_kids(s, k) >= 1,
    decreases k,
{
    if j < k - 1 {
        lemma_num_kids_pos(s, k - 1, j);
    } else {
        lemma_num_kids_bounds(s, k - 1);
    }
}

/// When every entry below `k` is free, the count is zero.
pub proof fn lemma_num_kids_none(s: Seq<usize>, k: int)
    requires
        0 <= k,
        forall|m: int| 0 <= m < k ==> s[m] == FREE_SLOT,
    ensures
        num_kids(s, k) == 0,
    decreases k,
{
    if k > 0 {
        lemma_num_kids_none(s, k - 1);
    }
}

} // verus!
