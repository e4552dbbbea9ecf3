//! The shell: the two node pools, the line buffer, the current directory,
//! and the namespace operations a completed line can trigger.

use vstd::prelude::*;
use vstd::pervasive::VecAdditionalExecFns;
use crate::defs::Dir;
use crate::defs::File;
use crate::defs::POOL_CAP;
use crate::defs::FREE_SLOT;
use crate::defs::NAME_CAP;
use crate::defs::CHILD_CAP;
use crate::defs::LINE_CAP;
use crate::defs::VALUE_CAP;
use crate::defs::FILE_BUF_CAP;
use crate::defs::dir_shape;
use crate::defs::file_shape;
use crate::defs::occupied;
use crate::defs::slot_ok;
use crate::defs::kid_at;
use crate::defs::num_kids;
use crate::defs::lemma_num_kids_none;

verus! {

/// A free directory link of this record at `j` or a child whose back link
/// points here.
pub open spec fn entry_ok(dirs: Seq<Dir>, i: int, j: int) -> bool {
    kid_at(dirs, i, j) == FREE_SLOT || {
        let c = kid_at(dirs, i, j) as int;
        &&& occupied(dirs, c)
        &&& c != 0
        &&& dirs[c].parent_index == i
    }
}

/// Directory `p` holds `c` in some child entry.
pub open spec fn has_child_entry(dirs: Seq<Dir>, p: int, c: int) -> bool {
    exists|j: int| 0 <= j < CHILD_CAP && #[trigger] kid_at(dirs, p, j) == c
}

/// No occupied slot stands in two child entries: every directory but the
/// root has exactly one parent link pointing at it.
pub open spec fn kids_unique(dirs: Seq<Dir>) -> bool {
    forall|i1: int, j1: int, i2: int, j2: int|
        occupied(dirs, i1) && occupied(dirs, i2) && 0 <= j1 < CHILD_CAP && 0 <= j2 < CHILD_CAP
            && #[trigger] kid_at(dirs, i1, j1) == #[trigger] kid_at(dirs, i2, j2)
            && kid_at(dirs, i1, j1) != FREE_SLOT ==> i1 == i2 && j1 == j2
}

/// The structural invariants of the directory pool, read as a tree.
pub open spec fn dirs_wf(dirs: Seq<Dir>) -> bool {
    &&& dirs.len() == POOL_CAP
    &&& forall|i: int| 0 <= i < POOL_CAP ==> dir_shape(#[trigger] dirs[i])
    &&& forall|i: int| 0 <= i < POOL_CAP ==> #[trigger] slot_ok(dirs, i)
    &&& occupied(dirs, 0)
    &&& dirs[0].parent_index == 0
    &&& forall|i: int, j: int|
        occupied(dirs, i) && 0 <= j < CHILD_CAP ==> #[trigger] entry_ok(dirs, i, j)
    &&& forall|i: int|
        #[trigger] occupied(dirs, i) ==> dirs[i].child_count == num_kids(
            dirs[i].child_indexes@,
            CHILD_CAP as int,
        )
    &&& forall|i: int|
        #[trigger] occupied(dirs, i) && i != 0 ==> dirs[i].parent_index < POOL_CAP && occupied(
            dirs,
            dirs[i].parent_index as int,
        ) && has_child_entry(dirs, dirs[i].parent_index as int, i)
    &&& kids_unique(dirs)
}

/// Each directory's depth exceeds its parent's by one.  The map witnesses
/// that the parent links form a forest with no cycle, which bounds every
/// traversal.
pub open spec fn rank_ok(dirs: Seq<Dir>, rank: Map<int, nat>) -> bool {
    forall|i: int|
        #[trigger] occupied(dirs, i) && i != 0 ==> rank[i] == rank[
            dirs[i].parent_index as int
        ] + 1
}

/// The shell: line buffer, node pools, and the session state around them.
pub struct Shell {
    /// The line buffer, `LINE_CAP` bytes.
    pub buf: Vec<u8>,
    /// How many bytes of `buf` the current line holds.
    pub buf_len: usize,
    /// The directory pool, `POOL_CAP` slots; slot 0 is the root.
    pub directories: Vec<Dir>,
    /// The file pool, `POOL_CAP` slots; no command in scope fills it.
    pub files_list: Vec<File>,
    /// The directory every relative command works against.
    pub cur_dir: usize,
    /// Whether a file is being edited; no command in scope sets it.
    pub is_editing_file: bool,
    /// The file being edited, or `FREE_SLOT`.
    pub current_editing_file: usize,
    /// Depth of each occupied directory; tracked only for the proofs.
    pub rank: Ghost<Map<int, nat>>,
}

impl Shell {
    /// The whole state is consistent: buffers have their capacities, the
    /// pool is a well-linked tree, and the current directory exists.
    pub open spec fn wf(self) -> bool {
        &&& self.buf@.len() == LINE_CAP
        &&& self.buf_len <= LINE_CAP
        &&& dirs_wf(self.directories@)
        &&& self.files_list@.len() == POOL_CAP
        &&& forall|i: int| 0 <= i < POOL_CAP ==> file_shape(#[trigger] self.files_list@[i])
        &&& self.cur_dir < POOL_CAP
        &&& occupied(self.directories@, self.cur_dir as int)
        &&& rank_ok(self.directories@, self.rank@)
    }
}

/// A free directory record: sentinel index, blank name, no links.
pub open spec fn is_blank_dir(d: Dir) -> bool {
    &&& d.index == FREE_SLOT
    &&& d.name@ == Seq::new(10, |i: int| 32u8)
    &&& d.parent_index == FREE_SLOT
    &&& d.child_count == 0
    &&& d.child_indexes@ == Seq::new(20, |j: int| FREE_SLOT)
    &&& d.files_indexes@ == Seq::new(20, |j: int| FREE_SLOT)
}

/// A free file record: sentinel index, zeroed name, blank content.
pub open spec fn is_blank_file(f: File) -> bool {
    &&& f.index == FREE_SLOT
    &&& f.name@ == Seq::new(10, |i: int| 0u8)
    &&& f.count_lines == 0
    &&& f.folder_index == FREE_SLOT
    &&& f.content@ == Seq::new(2000, |i: int| 32u8)
}

/// The root directory's padded name.
pub open spec fn root_name() -> Seq<u8> {
    seq![114u8, 111u8, 111u8, 116u8, 0u8, 0u8, 0u8, 0u8, 0u8, 0u8]
}

/// A vector of `n` copies of the byte `v`.
fn filled_u8(n: usize, v: u8) -> (r: Vec<u8>)
    ensures
        r@ == Seq::new(n as nat, |i: int| v),
{
    let mut r: Vec<u8> = Vec::new();
    let mut i: usize = 0;
    while i < n
        invariant
            0 <= i <= n,
            r@.len() == i as nat,
            forall|m: int| 0 <= m < i as int ==> r@[m] == v,
        decreases n - i,
    {
        r.push(v);
        i = i + 1;
    }
    assert(r@ =~= Seq::new(n as nat, |i: int| v));
    r
}

/// A vector of `n` copies of the index `v`.
fn filled_usize(n: usize, v: usize) -> (r: Vec<usize>)
    ensures
        r@ == Seq::new(n as nat, |i: int| v),
{
    let mut r: Vec<usize> = Vec::new();
    let mut i: usize = 0;
    while i < n
        invariant
            0 <= i <= n,
            r@.len() == i as nat,
            forall|m: int| 0 <= m < i as int ==> r@[m] == v,
        decreases n - i,
    {
        r.push(v);
        i = i + 1;
    }
    assert(r@ =~= Seq::new(n as nat, |i: int| v));
    r
}

/// A fresh free directory record.
fn blank_dir() -> (d: Dir)
    ensures
        is_blank_dir(d),
        dir_shape(d),
{
    Dir {
        index: FREE_SLOT,
        name: filled_u8(NAME_CAP, 32),
        parent_index: FREE_SLOT,
        child_count: 0,
        child_indexes: filled_usize(CHILD_CAP, FREE_SLOT),
        files_indexes: filled_usize(CHILD_CAP, FREE_SLOT),
    }
}

/// A fresh free file record.
fn blank_file() -> (f: File)
    ensures
        is_blank_file(f),
        file_shape(f),
{
    File {
        index: FREE_SLOT,
        name: filled_u8(NAME_CAP, 0),
        count_lines: 0,
        folder_index: FREE_SLOT,
        content: filled_u8(FILE_BUF_CAP, 32),
    }
}

impl Shell {
    /// A fresh shell: both pools free except the root at slot 0, an empty
    /// line buffer, and the root as the current directory.
    pub fn new() -> (shell: Shell)
        ensures
            shell.wf(),
            shell.cur_dir == 0,
            shell.buf_len == 0,
            shell.buf@ == Seq::new(80, |i: int| 0u8),
            shell.directories@[0].name@ == root_name(),
            shell.directories@[0].parent_index == 0,
            shell.directories@[0].child_count == 0,
            forall|j: int| 0 <= j < CHILD_CAP ==> kid_at(shell.directories@, 0, j) == FREE_SLOT,
            forall|i: int| 1 <= i < POOL_CAP ==> is_blank_dir(#[trigger] shell.directories@[i]),
            forall|i: int| 0 <= i < POOL_CAP ==> is_blank_file(#[trigger] shell.files_list@[i]),
            !shell.is_editing_file,
            shell.current_editing_file == FREE_SLOT,
    {
        let mut directories: Vec<Dir> = Vec::new();
        let mut i: usize = 0;
        while i < POOL_CAP
            invariant
                0 <= i <= POOL_CAP,
                directories@.len() == i as nat,
                forall|m: int| 0 <= m < i as int ==> is_blank_dir(#[trigger] directories@[m]),
                forall|m: int| 0 <= m < i as int ==> dir_shape(#[trigger] directories@[m]),
            decreases POOL_CAP - i,
        {
            directories.push(blank_dir());
            i = i + 1;
        }
        let mut root_nm: Vec<u8> = Vec::new();
        root_nm.push(114);
        root_nm.push(111);
        root_nm.push(111);
        root_nm.push(116);
        let mut k: usize = root_nm.len();
        while k < NAME_CAP
            invariant
                4 <= k <= NAME_CAP,
                root_nm@.len() == k as nat,
                forall|m: int| 0 <= m < 4 ==> root_nm@[m] == root_name()[m],
                forall|m: int| 4 <= m < k as int ==> root_nm@[m] == 0,
            decreases NAME_CAP - k,
        {
            root_nm.push(0);
            k = k + 1;
        }
        assert(root_nm@ =~= root_name());
        let root = Dir {
            index: 0,
            name: root_nm,
            parent_index: 0,
            child_count: 0,
            child_indexes: filled_usize(CHILD_CAP, FREE_SLOT),
            files_indexes: filled_usize(CHILD_CAP, FREE_SLOT),
        };
        directories.set(0, root);
        let mut files_list: Vec<File> = Vec::new();
        let mut n: usize = 0;
        while n < POOL_CAP
            invariant
                0 <= n <= POOL_CAP,
                files_list@.len() == n as nat,
                forall|m: int| 0 <= m < n as int ==> is_blank_file(#[trigger] files_list@[m]),
                forall|m: int| 0 <= m < n as int ==> file_shape(#[trigger] files_list@[m]),
            decreases POOL_CAP - n,
        {
            files_list.push(blank_file());
            n = n + 1;
        }
        let shell = Shell {
            buf: filled_u8(LINE_CAP, 0),
            buf_len: 0,
            directories,
            files_list,
            cur_dir: 0,
            is_editing_file: false,
            current_editing_file: FREE_SLOT,
            rank: Ghost(Map::empty()),
        };
        proof {
            let dirs = shell.directories@;
            assert forall|i: int| 0 <= i < POOL_CAP implies #[trigger] slot_ok(dirs, i) by {
                if i != 0 {
                    assert(is_blank_dir(dirs[i]));
                }
            }
            assert forall|i: int, j: int|
                occupied(dirs, i) && 0 <= j < CHILD_CAP implies #[trigger] entry_ok(dirs, i, j) by {
                assert(kid_at(dirs, i, j) == FREE_SLOT);
            }
            assert forall|i: int| #[trigger] occupied(dirs, i) implies dirs[i].child_count
                == num_kids(dirs[i].child_indexes@, CHILD_CAP as int) by {
                lemma_num_kids_none(dirs[i].child_indexes@, CHILD_CAP as int);
            }
            assert forall|i: int| #[trigger] occupied(dirs, i) && i != 0 implies false by {}
        }
        shell
    }
}

/// The first free directory slot at or after `i`, or `POOL_CAP` when the
/// pool is full: allocation scans linearly and reuses freed slots at once.
pub open spec fn first_free_dir_from(dirs: Seq<Dir>, i: int) -> int
    decreases 100 - i,
    when 0 <= i <= 100
{
    if i >= 100 {
        100
    } else if dirs[i].index == FREE_SLOT {
        i
    } else {
        first_free_dir_from(dirs, i + 1)
    }
}

/// The first free directory slot, or `POOL_CAP` when the pool is full.
pub open spec fn first_free_dir(dirs: Seq<Dir>) -> int {
    first_free_dir_from(dirs, 0)
}

/// The first free child entry at or after `j`, or `CHILD_CAP` when all
/// twenty are in use.
pub open spec fn first_free_entry_from(s: Seq<usize>, j: int) -> int
    decreases 20 - j,
    when 0 <= j <= 20
{
    if j >= 20 {
        20
    } else if s[j] == FREE_SLOT {
        j
    } else {
        first_free_entry_from(s, j + 1)
    }
}

/// The first free child entry, or `CHILD_CAP` when all twenty are in use.
pub open spec fn first_free_entry(s: Seq<usize>) -> int {
    first_free_entry_from(s, 0)
}

/// How many bytes of the argument field stand before its first zero.
pub open spec fn name_len_from(value: Seq<u8>, i: int) -> int
    decreases 70 - i,
    when 0 <= i <= 70
{
    if i >= 70 {
        70
    } else if value[i] == 0 {
        i
    } else {
        name_len_from(value, i + 1)
    }
}

/// The argument's significant length: its bytes before the first zero.
pub open spec fn name_len(value: Seq<u8>) -> int {
    name_len_from(value, 0)
}

/// The first child entry at or after `j` naming a directory whose padded
/// name equals `pat`, or `CHILD_CAP` when none does.  Free entries are
/// skipped; iteration order is entry order, which is creation order.
pub open spec fn first_match_from(dirs: Seq<Dir>, s: Seq<usize>, pat: Seq<u8>, j: int) -> int
    decreases 20 - j,
    when 0 <= j <= 20
{
    if j >= 20 {
        20
    } else if s[j] != FREE_SLOT && dirs[s[j] as int].name@ == pat {
        j
    } else {
        first_match_from(dirs, s, pat, j + 1)
    }
}

/// What the first-free-slot scan found: a free slot, and nothing free
/// before it.
pub proof fn lemma_first_free_dir_props(dirs: Seq<Dir>, i: int)
    requires
        0 <= i <= 100,
    ensures
        i <= first_free_dir_from(dirs, i) <= 100,
        first_free_dir_from(dirs, i) < 100 ==> dirs[first_free_dir_from(dirs, i)].index
            == FREE_SLOT,
        forall|m: int| i <= m < first_free_dir_from(dirs, i) ==> dirs[m].index != FREE_SLOT,
    decreases 100 - i,
{
    if i < 100 && dirs[i].index != FREE_SLOT {
        lemma_first_free_dir_props(dirs, i + 1);
    }
}

/// What the first-free-entry scan found: a free entry, and nothing free
/// before it.
pub proof fn lemma_first_free_entry_props(s: Seq<usize>, j: int)
    requires
        0 <= j <= 20,
    ensures
        j <= first_free_entry_from(s, j) <= 20,
        first_free_entry_from(s, j) < 20 ==> s[first_free_entry_from(s, j)] == FREE_SLOT,
        forall|m: int| j <= m < first_free_entry_from(s, j) ==> s[m] != FREE_SLOT,
    decreases 20 - j,
{
    if j < 20 && s[j] != FREE_SLOT {
        lemma_first_free_entry_props(s, j + 1);
    }
}

/// What the name scan found: an occupied entry of that name, and no such
/// entry before it.
pub proof fn lemma_first_match_props(dirs: Seq<Dir>, s: Seq<usize>, pat: Seq<u8>, j: int)
    requires
        0 <= j <= 20,
    ensures
        j <= first_match_from(dirs, s, pat, j) <= 20,
        first_match_from(dirs, s, pat, j) < 20 ==> {
            let r = first_match_from(dirs, s, pat, j);
            s[r] != FREE_SLOT && dirs[s[r] as int].name@ == pat
        },
        forall|m: int|
            j <= m < first_match_from(dirs, s, pat, j) ==> !(s[m] != FREE_SLOT && dirs[
                s[m] as int
            ].name@ == pat),
    decreases 20 - j,
{
    if j < 20 && !(s[j] != FREE_SLOT && dirs[s[j] as int].name@ == pat) {
        lemma_first_match_props(dirs, s, pat, j + 1);
    }
}

/// Everything outside the tree and the line buffer is unchanged.
pub open spec fn same_but_tree(pre: Shell, post: Shell) -> bool {
    &&& post.buf@ == pre.buf@
    &&& post.buf_len == pre.buf_len
    &&& post.files_list@ == pre.files_list@
    &&& post.is_editing_file == pre.is_editing_file
    &&& post.current_editing_file == pre.current_editing_file
}

/// The record at `d` is a fresh directory named by the argument's first
/// `NAME_CAP` bytes, childless, under parent `cur`.
pub open spec fn new_dir_at(dirs2: Seq<Dir>, d: int, value: Seq<u8>, cur: int) -> bool {
    &&& dirs2[d].index == d
    &&& dirs2[d].name@ == value.take(10)
    &&& dirs2[d].parent_index == cur
    &&& dirs2[d].child_count == 0
    &&& dirs2[d].child_indexes@ == Seq::new(20, |j: int| FREE_SLOT)
    &&& dirs2[d].files_indexes@ == Seq::new(20, |j: int| FREE_SLOT)
}

/// The parent got one more child, `d`, written into its free entry `k`;
/// everything else about it is unchanged.
pub open spec fn parent_gained(dirs: Seq<Dir>, dirs2: Seq<Dir>, cur: int, k: int, d: int) -> bool {
    &&& dirs2[cur].index == dirs[cur].index
    &&& dirs2[cur].name@ == dirs[cur].name@
    &&& dirs2[cur].parent_index == dirs[cur].parent_index
    &&& dirs2[cur].child_count == dirs[cur].child_count + 1
    &&& dirs2[cur].child_indexes@ == dirs[cur].child_indexes@.update(k, d as usize)
    &&& dirs2[cur].files_indexes@ == dirs[cur].files_indexes@
}

/// What `make_dir` does: reject a long name, report a full pool or a full
/// parent, or claim the first free slot, link it into the parent's first
/// free entry, and report the new name.
pub open spec fn make_dir_rel(pre: Shell, post: Shell, value: Seq<u8>, out: Seq<u8>) -> bool {
    let dirs = pre.directories@;
    let cur = pre.cur_dir as int;
    let d = first_free_dir(dirs);
    let k = first_free_entry(dirs[cur].child_indexes@);
    &&& same_but_tree(pre, post)
    &&& post.cur_dir == pre.cur_dir
    &&& if name_len(value) > 10 {
        post.directories@ == dirs && out == crate::text::msg_invalid_name()
    } else if d == 100 {
        post.directories@ == dirs && out == crate::text::msg_cant_create()
    } else if k == 20 {
        post.directories@ == dirs && out == crate::text::msg_cant_create()
    } else {
        &&& post.directories@.len() == 100
        &&& forall|i: int|
            0 <= i < 100 && i != d && i != cur ==> post.directories@[i] == dirs[i]
        &&& new_dir_at(post.directories@, d, value, cur)
        &&& parent_gained(dirs, post.directories@, cur, k, d)
        &&& out == crate::text::msg_created(crate::text::trim0(value.take(10)))
    }
}

/// Scan the pool for its first free slot.
fn find_free_slot(directories: &Vec<Dir>) -> (r: usize)
    requires
        directories@.len() == 100,
    ensures
        r as int == first_free_dir(directories@),
        r <= 100,
{
    let mut i: usize = 0;
    while i < POOL_CAP && directories[i].index != FREE_SLOT
        invariant
            0 <= i <= 100,
            directories@.len() == 100,
            first_free_dir(directories@) == first_free_dir_from(directories@, i as int),
        decreases 100 - i,
    {
        proof {
            assert(first_free_dir_from(directories@, i as int) == first_free_dir_from(
                directories@,
                i as int + 1,
            ));
        }
        i = i + 1;
    }
    i
}

/// Scan a child array for its first free entry.
fn find_free_entry(s: &Vec<usize>) -> (r: usize)
    requires
        s@.len() == 20,
    ensures
        r as int == first_free_entry(s@),
        r <= 20,
{
    let mut j: usize = 0;
    while j < CHILD_CAP && s[j] != FREE_SLOT
        invariant
            0 <= j <= 20,
            s@.len() == 20,
            first_free_entry(s@) == first_free_entry_from(s@, j as int),
        decreases 20 - j,
    {
        proof {
            assert(first_free_entry_from(s@, j as int) == first_free_entry_from(s@, j as int + 1));
        }
        j = j + 1;
    }
    j
}

/// Measure the argument's significant length.
fn find_name_len(value: &Vec<u8>) -> (r: usize)
    requires
        value@.len() == 70,
    ensures
        r as int == name_len(value@),
        r <= 70,
{
    let mut i: usize = 0;
    while i < VALUE_CAP && value[i] != 0
        invariant
            0 <= i <= 70,
            value@.len() == 70,
            name_len(value@) == name_len_from(value@, i as int),
        decreases 70 - i,
    {
        proof {
            assert(name_len_from(value@, i as int) == name_len_from(value@, i as int + 1));
        }
        i = i + 1;
    }
    i
}

/// Whether a padded name equals the argument's first `NAME_CAP` bytes.
fn name_eq_arg(name: &Vec<u8>, arg: &Vec<u8>) -> (r: bool)
    requires
        name@.len() == 10,
        arg@.len() >= 10,
    ensures
        r == (name@ == arg@.take(10)),
{
    let mut i: usize = 0;
    let mut same = true;
    while i < NAME_CAP
        invariant
            0 <= i <= 10,
            name@.len() == 10,
            arg@.len() >= 10,
            same == (forall|m: int| 0 <= m < i as int ==> name@[m] == arg@.take(10)[m]),
        decreases 10 - i,
    {
        if name[i] != arg[i] {
            same = false;
        }
        i = i + 1;
    }
    proof {
        if same {
            assert(name@ =~= arg@.take(10));
        }
    }
    same
}

/// Scan the child entries for the first directory of the given name.
fn find_match(directories: &Vec<Dir>, entries: &Vec<usize>, arg: &Vec<u8>) -> (r: usize)
    requires
        directories@.len() == 100,
        entries@.len() == 20,
        arg@.len() == 70,
        forall|j: int| 0 <= j < 20 ==> entries@[j] == FREE_SLOT || entries@[j] < 100,
        forall|i: int| 0 <= i < 100 ==> dir_shape(#[trigger] directories@[i]),
    ensures
        r as int == first_match_from(directories@, entries@, arg@.take(10), 0),
        r <= 20,
{
    let ghost pat = arg@.take(10);
    let mut j: usize = 0;
    while j < CHILD_CAP
        invariant
            0 <= j <= 20,
            directories@.len() == 100,
            entries@.len() == 20,
            arg@.len() == 70,
            pat == arg@.take(10),
            forall|m: int| 0 <= m < 20 ==> entries@[m] == FREE_SLOT || entries@[m] < 100,
            forall|i: int| 0 <= i < 100 ==> dir_shape(#[trigger] directories@[i]),
            first_match_from(directories@, entries@, pat, 0) == first_match_from(
                directories@,
                entries@,
                pat,
                j as int,
            ),
        decreases 20 - j,
    {
        let e = entries[j];
        if e != FREE_SLOT {
            if name_eq_arg(&directories[e].name, arg) {
                return j;
            }
        }
        proof {
            assert(first_match_from(directories@, entries@, pat, j as int) == first_match_from(
                directories@,
                entries@,
                pat,
                j as int + 1,
            ));
        }
        j = j + 1;
    }
    j
}

impl Shell {
    /// Show the current directory's name behind a slash.
    pub fn cur_dir(&self) -> (out: Vec<u8>)
        requires
            self.wf(),
        ensures
            out@ == crate::text::msg_cur(
                crate::text::trim0(self.directories@[self.cur_dir as int].name@),
            ),
    {
        crate::text::build_cur(&self.directories[self.cur_dir].name)
    }

    /// Create a directory named by the argument under the current one.
    pub fn make_dir(&mut self, value: &Vec<u8>) -> (out: Vec<u8>)
        requires
            old(self).wf(),
            value@.len() == VALUE_CAP,
        ensures
            final(self).wf(),
            make_dir_rel(*old(self), *final(self), value@, out@),
    {
        let name_size = find_name_len(value);
        if name_size > NAME_CAP {
            return crate::text::build_invalid_name();
        }
        let dir_index = find_free_slot(&self.directories);
        if dir_index == POOL_CAP {
            return crate::text::build_cant_create();
        }
        let cur = self.cur_dir;
        let available_index = find_free_entry(&self.directories[cur].child_indexes);
        if available_index == CHILD_CAP {
            return crate::text::build_cant_create();
        }
        let mut nm: Vec<u8> = Vec::new();
        let mut i: usize = 0;
        while i < NAME_CAP
            invariant
                0 <= i <= 10,
                value@.len() == 70,
                nm@.len() == i as nat,
                forall|m: int| 0 <= m < i as int ==> nm@[m] == value@[m],
            decreases 10 - i,
        {
            nm.push(value[i]);
            i = i + 1;
        }
        assert(nm@ =~= value@.take(10));
        let new_directory = Dir {
            index: dir_index,
            name: nm,
            parent_index: cur,
            child_count: 0,
            child_indexes: filled_usize(CHILD_CAP, FREE_SLOT),
            files_indexes: filled_usize(CHILD_CAP, FREE_SLOT),
        };
        let ghost dirs = old(self).directories@;
        let ghost d = dir_index as int;
        let ghost k = available_index as int;
        let ghost curi = cur as int;
        proof {
            lemma_first_free_dir_props(dirs, 0);
            lemma_first_free_entry_props(dirs[curi].child_indexes@, 0);
            assert(occupied(dirs, curi));
            assert(dirs[d].index == FREE_SLOT);
            assert(d != curi);
        }
        self.directories.set(dir_index, new_directory);
        let mut tmp = blank_dir();
        self.directories.set_and_swap(cur, &mut tmp);
        proof {
            crate::defs::lemma_num_kids_bounds(dirs[curi].child_indexes@, 20);
        }
        tmp.child_indexes.set(available_index, dir_index);
        tmp.child_count = tmp.child_count + 1;
        self.directories.set_and_swap(cur, &mut tmp);
        let ghost r0 = self.rank@;
        proof {
            self.rank@ = r0.insert(d, (r0[curi] + 1) as nat);
        }
        let out = crate::text::build_created(&self.directories[dir_index].name);
        proof {
            let dirs2 = self.directories@;
            let rank2 = self.rank@;
            assert(forall|i: int|
                0 <= i < 100 && i != d && i != curi ==> dirs2[i] == dirs[i]);
            assert(new_dir_at(dirs2, d, value@, curi));
            assert(dirs2[curi].child_indexes@ =~= dirs[curi].child_indexes@.update(
                k,
                dir_index,
            ));
            assert(parent_gained(dirs, dirs2, curi, k, d));
            lemma_make_dir_wf(*old(self), *self, value@, d, k);
            assert(self.directories@[d].name@ == value@.take(10));
        }
        out
    }
}

/// What `change_dir` does: a lone `.` ascends to the parent (the dot
/// convention of this shell), a long name is rejected, and otherwise the
/// first child of that name becomes current, or the miss is reported.
pub open spec fn change_dir_rel(pre: Shell, post: Shell, arg: Seq<u8>, out: Seq<u8>) -> bool {
    let dirs = pre.directories@;
    let cur = pre.cur_dir as int;
    let j = first_match_from(dirs, dirs[cur].child_indexes@, arg.take(10), 0);
    &&& same_but_tree(pre, post)
    &&& post.directories@ == dirs
    &&& if arg[0] == 46 && arg[1] == 0 {
        post.cur_dir == dirs[cur].parent_index && out == Seq::<u8>::empty()
    } else if name_len(arg) > 10 {
        post.cur_dir == pre.cur_dir && out == crate::text::msg_invalid_name_bare()
    } else if j == 20 {
        post.cur_dir == pre.cur_dir && out == crate::text::msg_no_folder(
            crate::text::trim0(arg),
        )
    } else {
        post.cur_dir == kid_at(dirs, cur, j) && out == crate::text::msg_changed(
            crate::text::trim0(dirs[kid_at(dirs, cur, j) as int].name@),
        )
    }
}

/// The parent lost the child standing in entry `j`; everything else about
/// it is unchanged.
pub open spec fn parent_lost(dirs: Seq<Dir>, dirs2: Seq<Dir>, cur: int, j: int) -> bool {
    &&& dirs2[cur].index == dirs[cur].index
    &&& dirs2[cur].name@ == dirs[cur].name@
    &&& dirs2[cur].parent_index == dirs[cur].parent_index
    &&& dirs2[cur].child_count == dirs[cur].child_count - 1
    &&& dirs2[cur].child_indexes@ == dirs[cur].child_indexes@.update(j, FREE_SLOT)
    &&& dirs2[cur].files_indexes@ == dirs[cur].files_indexes@
}

/// What `remove_dir` does: nothing without a matching child, a refusal
/// while the target still has children, and otherwise the slot is reset to
/// the free pattern and unlinked from the parent.
pub open spec fn remove_dir_rel(pre: Shell, post: Shell, arg: Seq<u8>, out: Seq<u8>) -> bool {
    let dirs = pre.directories@;
    let cur = pre.cur_dir as int;
    let j = first_match_from(dirs, dirs[cur].child_indexes@, arg.take(10), 0);
    let t = kid_at(dirs, cur, j) as int;
    &&& same_but_tree(pre, post)
    &&& post.cur_dir == pre.cur_dir
    &&& if j == 20 {
        post.directories@ == dirs && out == Seq::<u8>::empty()
    } else if dirs[t].child_count > 0 {
        post.directories@ == dirs && out == crate::text::msg_not_empty()
    } else {
        &&& post.directories@.len() == 100
        &&& forall|i: int|
            0 <= i < 100 && i != t && i != cur ==> post.directories@[i] == dirs[i]
        &&& is_blank_dir(post.directories@[t])
        &&& parent_lost(dirs, post.directories@, cur, j)
        &&& out == crate::text::msg_removed(crate::text::trim0(arg))
    }
}

impl Shell {
    /// Make the named child, or the parent on a lone `.`, the current
    /// directory.
    pub fn change_dir(&mut self, arg: &Vec<u8>) -> (out: Vec<u8>)
        requires
            old(self).wf(),
            arg@.len() == VALUE_CAP,
        ensures
            final(self).wf(),
            change_dir_rel(*old(self), *final(self), arg@, out@),
    {
        if arg[0] == 46 && arg[1] == 0 {
            self.cur_dir = self.directories[self.cur_dir].parent_index;
            return Vec::new();
        }
        let n = find_name_len(arg);
        if n > NAME_CAP {
            return crate::text::build_invalid_name_bare();
        }
        let cur = self.cur_dir;
        let ghost dirs = self.directories@;
        let ghost curi = cur as int;
        proof {
            assert forall|m: int| 0 <= m < 20 implies dirs[curi].child_indexes@[m] == FREE_SLOT
                || dirs[curi].child_indexes@[m] < 100 by {
                assert(entry_ok(dirs, curi, m));
                assert(kid_at(dirs, curi, m) == dirs[curi].child_indexes@[m]);
            }
        }
        let j = find_match(&self.directories, &self.directories[cur].child_indexes, arg);
        proof {
            lemma_first_match_props(dirs, dirs[curi].child_indexes@, arg@.take(10), 0);
        }
        if j == CHILD_CAP {
            return crate::text::build_no_folder(arg);
        }
        let c = self.directories[cur].child_indexes[j];
        proof {
            assert(entry_ok(dirs, curi, j as int));
            assert(occupied(dirs, c as int));
        }
        self.cur_dir = c;
        crate::text::build_changed(&self.directories[c].name)
    }

    /// Remove the named childless child of the current directory; report a
    /// refusal when it still has children; do nothing when no child of
    /// that name exists.
    pub fn remove_dir(&mut self, dir_name: &Vec<u8>) -> (out: Vec<u8>)
        requires
            old(self).wf(),
            dir_name@.len() == VALUE_CAP,
        ensures
            final(self).wf(),
            remove_dir_rel(*old(self), *final(self), dir_name@, out@),
    {
        let cur = self.cur_dir;
        let ghost dirs = self.directories@;
        let ghost curi = cur as int;
        proof {
            assert forall|m: int| 0 <= m < 20 implies dirs[curi].child_indexes@[m] == FREE_SLOT
                || dirs[curi].child_indexes@[m] < 100 by {
                assert(entry_ok(dirs, curi, m));
                assert(kid_at(dirs, curi, m) == dirs[curi].child_indexes@[m]);
            }
        }
        let j = find_match(&self.directories, &self.directories[cur].child_indexes, dir_name);
        proof {
            lemma_first_match_props(dirs, dirs[curi].child_indexes@, dir_name@.take(10), 0);
        }
        if j == CHILD_CAP {
            return Vec::new();
        }
        let t = self.directories[cur].child_indexes[j];
        proof {
            assert(entry_ok(dirs, curi, j as int));
            assert(occupied(dirs, t as int));
        }
        if self.directories[t].child_count > 0 {
            return crate::text::build_not_empty();
        }
        proof {
            assert(dirs[t as int].parent_index == curi);
            if t as int == curi {
                assert(self.rank@[t as int] == self.rank@[curi] + 1);
                assert(false);
            }
            crate::defs::lemma_num_kids_pos(dirs[curi].child_indexes@, 20, j as int);
        }
        self.directories.set(t, blank_dir());
        let mut tmp = blank_dir();
        self.directories.set_and_swap(cur, &mut tmp);
        tmp.child_indexes.set(j, FREE_SLOT);
        tmp.child_count = tmp.child_count - 1;
        self.directories.set_and_swap(cur, &mut tmp);
        let out = crate::text::build_removed(dir_name);
        proof {
            let dirs2 = self.directories@;
            assert(dirs2[curi].child_indexes@ =~= dirs[curi].child_indexes@.update(
                j as int,
                FREE_SLOT,
            ));
            assert(parent_lost(dirs, dirs2, curi, j as int));
            lemma_remove_dir_wf(*old(self), *self, t as int, j as int);
        }
        out
    }
}

/// The `cur_dir` command literal.
pub open spec fn lit_cur_dir() -> Seq<u8> {
    seq![99u8, 117u8, 114u8, 95u8, 100u8, 105u8, 114u8]
}

/// Build the `cur_dir` command literal.
fn cmd_cur_dir() -> (r: Vec<u8>)
    ensures
        r@ == lit_cur_dir(),
{
    let mut r: Vec<u8> = Vec::new();
    r.push(99);
    r.push(117);
    r.push(114);
    r.push(95);
    r.push(100);
    r.push(105);
    r.push(114);
    proof {
        assert(r@ =~= lit_cur_dir());
    }
    r
}

/// The `make_dir` command literal.
pub open spec fn lit_make_dir() -> Seq<u8> {
    seq![109u8, 97u8, 107u8, 101u8, 95u8, 100u8, 105u8, 114u8]
}

/// Build the `make_dir` command literal.
fn cmd_make_dir() -> (r: Vec<u8>)
    ensures
        r@ == lit_make_dir(),
{
    let mut r: Vec<u8> = Vec::new();
    r.push(109);
    r.push(97);
    r.push(107);
    r.push(101);
    r.push(95);
    r.push(100);
    r.push(105);
    r.push(114);
    proof {
        assert(r@ =~= lit_make_dir());
    }
    r
}

/// The `change_dir` command literal.
pub open spec fn lit_change_dir() -> Seq<u8> {
    seq![99u8, 104u8, 97u8, 110u8, 103u8, 101u8, 95u8, 100u8, 105u8, 114u8]
}

/// Build the `change_dir` command literal.
fn cmd_change_dir() -> (r: Vec<u8>)
    ensures
        r@ == lit_change_dir(),
{
    let mut r: Vec<u8> = Vec::new();
    r.push(99);
    r.push(104);
    r.push(97);
    r.push(110);
    r.push(103);
    r.push(101);
    r.push(95);
    r.push(100);
    r.push(105);
    r.push(114);
    proof {
        assert(r@ =~= lit_change_dir());
    }
    r
}

/// The `remove_dir` command literal.
pub open spec fn lit_remove_dir() -> Seq<u8> {
    seq![114u8, 101u8, 109u8, 111u8, 118u8, 101u8, 95u8, 100u8, 105u8, 114u8]
}

/// Build the `remove_dir` command literal.
fn cmd_remove_dir() -> (r: Vec<u8>)
    ensures
        r@ == lit_remove_dir(),
{
    let mut r: Vec<u8> = Vec::new();
    r.push(114);
    r.push(101);
    r.push(109);
    r.push(111);
    r.push(118);
    r.push(101);
    r.push(95);
    r.push(100);
    r.push(105);
    r.push(114);
    proof {
        assert(r@ =~= lit_remove_dir());
    }
    r
}

/// The `dir_tree` command literal.
pub open spec fn lit_dir_tree() -> Seq<u8> {
    seq![100u8, 105u8, 114u8, 95u8, 116u8, 114u8, 101u8, 101u8]
}

/// Build the `dir_tree` command literal.
fn cmd_dir_tree() -> (r: Vec<u8>)
    ensures
        r@ == lit_dir_tree(),
{
    let mut r: Vec<u8> = Vec::new();
    r.push(100);
    r.push(105);
    r.push(114);
    r.push(95);
    r.push(116);
    r.push(114);
    r.push(101);
    r.push(101);
    proof {
        assert(r@ =~= lit_dir_tree());
    }
    r
}

/// The `clear` command literal.
pub open spec fn lit_clear() -> Seq<u8> {
    seq![99u8, 108u8, 101u8, 97u8, 114u8]
}

/// Build the `clear` command literal.
fn cmd_clear() -> (r: Vec<u8>)
    ensures
        r@ == lit_clear(),
{
    let mut r: Vec<u8> = Vec::new();
    r.push(99);
    r.push(108);
    r.push(101);
    r.push(97);
    r.push(114);
    proof {
        assert(r@ =~= lit_clear());
    }
    r
}

/// The occupied slots standing strictly deeper than `d`: the traversal
/// measure.
pub open spec fn deeper_set(dirs: Seq<Dir>, rank: Map<int, nat>, d: int) -> Set<int> {
    Set::new(|i: int| 0 <= i < 100 && dirs[i].index == i && rank[i] > rank[d])
}

/// The measure is a finite set of at most `POOL_CAP` slots.
pub proof fn lemma_deeper_finite(dirs: Seq<Dir>, rank: Map<int, nat>, d: int)
    ensures
        deeper_set(dirs, rank, d).finite(),
        deeper_set(dirs, rank, d).len() <= 100,
{
    vstd::set_lib::lemma_int_range(0, 100);
    assert(deeper_set(dirs, rank, d).subset_of(vstd::set_lib::set_int_range(0, 100)));
    vstd::set_lib::lemma_len_subset(
        deeper_set(dirs, rank, d),
        vstd::set_lib::set_int_range(0, 100),
    );
}

/// A child's measure is strictly smaller than its parent's: what makes
/// the traversal terminate.
pub proof fn lemma_child_deeper(dirs: Seq<Dir>, rank: Map<int, nat>, d: int, c: int)
    requires
        rank_ok(dirs, rank),
        occupied(dirs, d),
        occupied(dirs, c),
        c != 0,
        dirs[c].parent_index == d,
    ensures
        deeper_set(dirs, rank, c).len() < deeper_set(dirs, rank, d).len(),
{
    lemma_deeper_finite(dirs, rank, d);
    lemma_deeper_finite(dirs, rank, c);
    assert(rank[c] == rank[d] + 1);
    let sd = deeper_set(dirs, rank, d);
    let sc = deeper_set(dirs, rank, c);
    assert(sd.contains(c));
    assert(sc.subset_of(sd.remove(c)));
    vstd::set_lib::lemma_len_subset(sc, sd.remove(c));
    assert(sd.remove(c).len() == sd.len() - 1);
}

/// Enough structure for the rendering to be well defined.
pub open spec fn render_pre(dirs: Seq<Dir>, rank: Map<int, nat>, d: int, j: int) -> bool {
    &&& dirs.len() == 100
    &&& forall|i: int| 0 <= i < POOL_CAP ==> dir_shape(#[trigger] dirs[i])
    &&& forall|i: int, j2: int|
        occupied(dirs, i) && 0 <= j2 < CHILD_CAP ==> #[trigger] entry_ok(dirs, i, j2)
    &&& rank_ok(dirs, rank)
    &&& occupied(dirs, d)
    &&& 0 <= j <= 20
}

/// The text the tree print emits for the children of `d` from entry `j`
/// on, each line indented four spaces per level: a newline, the indent,
/// a slash and the trimmed name, then the child's own subtree.
pub open spec fn render_from(
    dirs: Seq<Dir>,
    rank: Map<int, nat>,
    d: int,
    indent: nat,
    j: int,
) -> Seq<u8>
    decreases deeper_set(dirs, rank, d).len(), 20 - j,
    when render_pre(dirs, rank, d, j)
{
    if j >= 20 {
        Seq::empty()
    } else if kid_at(dirs, d, j) == FREE_SLOT {
        render_from(dirs, rank, d, indent, j + 1)
    } else {
        let c = kid_at(dirs, d, j) as int;
        proof {
            assert(entry_ok(dirs, d, j));
            lemma_child_deeper(dirs, rank, d, c);
        }
        crate::text::spaces(4 * indent) + seq![47u8] + crate::text::trim0(dirs[c].name@) + seq![
            10u8,
        ] + render_from(dirs, rank, c, indent + 1, 0) + render_from(dirs, rank, d, indent, j + 1)
    }
}

impl Shell {
    /// The subtree under `d`, one line per descendant, indented
    /// `space_count` levels of four spaces at the top and one more per
    /// level below; the output opens with a newline.
    pub fn dir_tree(&self, d: usize, space_count: usize) -> (out: Vec<u8>)
        requires
            self.wf(),
            occupied(self.directories@, d as int),
            space_count as int + deeper_set(self.directories@, self.rank@, d as int).len()
                <= 4000,
        ensures
            out@ == seq![10u8] + render_from(
                self.directories@,
                self.rank@,
                d as int,
                space_count as nat,
                0,
            ),
        decreases deeper_set(self.directories@, self.rank@, d as int).len(),
    {
        let ghost dirs = self.directories@;
        let ghost rank = self.rank@;
        let ghost di = d as int;
        let ghost sc = space_count as nat;
        proof {
            lemma_deeper_finite(dirs, rank, di);
        }
        let mut out: Vec<u8> = Vec::new();
        out.push(10);
        let mut j: usize = 0;
        while j < CHILD_CAP
            invariant
                self.wf(),
                dirs == self.directories@,
                rank == self.rank@,
                di == d as int,
                sc == space_count as nat,
                occupied(dirs, di),
                d < 100,
                space_count as int + deeper_set(dirs, rank, di).len() <= 4000,
                deeper_set(dirs, rank, di).len() <= 100,
                0 <= j <= 20,
                seq![10u8] + render_from(dirs, rank, di, sc, 0) == out@ + render_from(
                    dirs,
                    rank,
                    di,
                    sc,
                    j as int,
                ),
            decreases 20 - j,
        {
            proof {
                assert(render_pre(dirs, rank, di, j as int));
            }
            let c = self.directories[d].child_indexes[j];
            if c != FREE_SLOT {
                proof {
                    assert(entry_ok(dirs, di, j as int));
                    assert(occupied(dirs, c as int));
                    lemma_child_deeper(dirs, rank, di, c as int);
                }
                push_spaces_mul(&mut out, space_count);
                out.push(47);
                let t = crate::text::trim_zeros(&self.directories[c].name);
                crate::text::append_bytes(&mut out, &t);
                let sub = self.dir_tree(c, space_count + 1);
                crate::text::append_bytes(&mut out, &sub);
                proof {
                    assert(render_from(dirs, rank, di, sc, j as int) == crate::text::spaces(
                        4 * sc,
                    ) + seq![47u8] + crate::text::trim0(dirs[c as int].name@) + seq![10u8]
                        + render_from(dirs, rank, c as int, sc + 1, 0) + render_from(
                        dirs,
                        rank,
                        di,
                        sc,
                        j as int + 1,
                    ));
                    assert(seq![10u8] + render_from(dirs, rank, di, sc, 0) =~= out@ + render_from(
                        dirs,
                        rank,
                        di,
                        sc,
                        j as int + 1,
                    ));
                }
            } else {
                proof {
                    assert(render_from(dirs, rank, di, sc, j as int) == render_from(
                        dirs,
                        rank,
                        di,
                        sc,
                        j as int + 1,
                    ));
                }
            }
            j = j + 1;
        }
        proof {
            assert(render_from(dirs, rank, di, sc, 20) == Seq::<u8>::empty());
            assert(seq![10u8] + render_from(dirs, rank, di, sc, 0) =~= out@);
        }
        out
    }
}

/// Append four spaces per indent level.
fn push_spaces_mul(dst: &mut Vec<u8>, space_count: usize)
    requires
        space_count <= 4000,
    ensures
        final(dst)@ == old(dst)@ + crate::text::spaces(4 * space_count as nat),
{
    crate::text::push_spaces(dst, 4 * space_count);
}

/// After a removal the pool is again a well-formed tree.
proof fn lemma_remove_dir_wf(pre: Shell, post: Shell, t: int, j: int)
    requires
        pre.wf(),
        0 <= j < 20,
        kid_at(pre.directories@, pre.cur_dir as int, j) == t,
        occupied(pre.directories@, t),
        t != pre.cur_dir as int,
        pre.directories@[t].child_count == 0,
        post.directories@.len() == 100,
        forall|i: int|
            0 <= i < 100 && i != t && i != pre.cur_dir as int ==> post.directories@[i]
                == pre.directories@[i],
        is_blank_dir(post.directories@[t]),
        parent_lost(pre.directories@, post.directories@, pre.cur_dir as int, j),
        post.cur_dir == pre.cur_dir,
        post.buf@ == pre.buf@,
        post.buf_len == pre.buf_len,
        post.files_list@ == pre.files_list@,
        post.rank@ == pre.rank@,
    ensures
        post.wf(),
{
    let dirs = pre.directories@;
    let dirs2 = post.directories@;
    let cur = pre.cur_dir as int;
    assert(occupied(dirs, cur));
    assert(entry_ok(dirs, cur, j));
    assert(t != 0);
    assert(num_kids(dirs[t].child_indexes@, 20) == 0);
    assert forall|m: int| 0 <= m < 20 implies kid_at(dirs, t, m) == FREE_SLOT by {
        if kid_at(dirs, t, m) != FREE_SLOT {
            crate::defs::lemma_num_kids_pos(dirs[t].child_indexes@, 20, m);
        }
    }
    assert forall|i: int| 0 <= i < 100 implies dir_shape(#[trigger] dirs2[i]) by {
        if i != t && i != cur {
            assert(dirs2[i] == dirs[i]);
        }
    }
    assert forall|i: int| 0 <= i < 100 implies #[trigger] slot_ok(dirs2, i) by {
        if i != t && i != cur {
            assert(dirs2[i] == dirs[i]);
            assert(slot_ok(dirs, i));
        }
    }
    assert forall|i: int| 0 <= i < 100 implies (occupied(dirs2, i) <==> (occupied(dirs, i) && i
        != t)) by {
        if i != t && i != cur {
            assert(dirs2[i] == dirs[i]);
        }
    }
    assert forall|i: int, j2: int|
        occupied(dirs2, i) && 0 <= j2 < CHILD_CAP implies #[trigger] entry_ok(dirs2, i, j2) by {
        assert(occupied(dirs, i) && i != t);
        let v = kid_at(dirs2, i, j2);
        if i == cur && j2 == j {
            assert(v == FREE_SLOT);
        } else {
            assert(v == kid_at(dirs, i, j2));
            assert(entry_ok(dirs, i, j2));
            if v != FREE_SLOT {
                let c = v as int;
                assert(occupied(dirs, c));
                if c == t {
                    assert(kid_at(dirs, i, j2) == kid_at(dirs, cur, j));
                    assert(i == cur && j2 == j);
                    assert(false);
                }
                if c != cur {
                    assert(dirs2[c] == dirs[c]);
                }
                assert(dirs2[c].index == c && dirs2[c].parent_index == dirs[c].parent_index);
            }
        }
    }
    assert forall|i: int| #[trigger] occupied(dirs2, i) implies dirs2[i].child_count == num_kids(
        dirs2[i].child_indexes@,
        CHILD_CAP as int,
    ) by {
        if i == cur {
            crate::defs::lemma_num_kids_update(dirs[cur].child_indexes@, 20, j, FREE_SLOT);
        } else {
            assert(i != t);
            assert(dirs2[i] == dirs[i]);
            assert(occupied(dirs, i));
        }
    }
    assert forall|i: int| #[trigger] occupied(dirs2, i) && i != 0 implies dirs2[i].parent_index
        < POOL_CAP && occupied(dirs2, dirs2[i].parent_index as int) && has_child_entry(
        dirs2,
        dirs2[i].parent_index as int,
        i,
    ) by {
        assert(occupied(dirs, i) && i != t);
        let p = dirs[i].parent_index as int;
        assert(occupied(dirs, p) && has_child_entry(dirs, p, i));
        assert(dirs2[i].parent_index == dirs[i].parent_index);
        if p == t {
            let j3 = choose|j3: int| 0 <= j3 < CHILD_CAP && #[trigger] kid_at(dirs, t, j3) == i;
            assert(kid_at(dirs, t, j3) == FREE_SLOT);
            assert(false);
        }
        let j3 = choose|j3: int| 0 <= j3 < CHILD_CAP && #[trigger] kid_at(dirs, p, j3) == i;
        if p == cur {
            assert(j3 != j);
            assert(kid_at(dirs2, cur, j3) == i);
        } else {
            assert(dirs2[p] == dirs[p]);
            assert(kid_at(dirs2, p, j3) == i);
        }
        assert(has_child_entry(dirs2, p, i));
    }
    assert forall|i1: int, j1: int, i2: int, j2: int|
        occupied(dirs2, i1) && occupied(dirs2, i2) && 0 <= j1 < CHILD_CAP && 0 <= j2 < CHILD_CAP
            && #[trigger] kid_at(dirs2, i1, j1) == #[trigger] kid_at(dirs2, i2, j2) && kid_at(
            dirs2,
            i1,
            j1,
        ) != FREE_SLOT implies i1 == i2 && j1 == j2 by {
        assert(occupied(dirs, i1) && occupied(dirs, i2));
        assert(!(i1 == cur && j1 == j) && !(i2 == cur && j2 == j));
        assert(kid_at(dirs2, i1, j1) == kid_at(dirs, i1, j1));
        assert(kid_at(dirs2, i2, j2) == kid_at(dirs, i2, j2));
    }
    assert forall|i: int| #[trigger] occupied(dirs2, i) && i != 0 implies post.rank@[i]
        == post.rank@[dirs2[i].parent_index as int] + 1 by {
        assert(occupied(dirs, i) && i != t);
        assert(dirs2[i].parent_index == dirs[i].parent_index);
    }
    assert(occupied(dirs2, cur));
}

/// The namespace is untouched: pools and current directory as before.
pub open spec fn tree_unchanged(pre: Shell, post: Shell) -> bool {
    &&& post.directories@ == pre.directories@
    &&& post.cur_dir == pre.cur_dir
}

/// What `execute_command` does for each recognized command token, matched
/// in the dispatcher's order by the prefix policy of `check_command`; an
/// unknown token is echoed back in an error line.
pub open spec fn exec_rel(
    pre: Shell,
    post: Shell,
    cmd: Seq<u8>,
    value: Seq<u8>,
    text: Seq<u8>,
    cleared: bool,
) -> bool {
    let dirs = pre.directories@;
    let cur = pre.cur_dir as int;
    &&& same_but_tree(pre, post)
    &&& if crate::tokenizer::is_prefix(lit_cur_dir(), cmd) {
        &&& tree_unchanged(pre, post)
        &&& text == crate::text::msg_cur(crate::text::trim0(dirs[cur].name@))
        &&& !cleared
    } else if crate::tokenizer::is_prefix(lit_make_dir(), cmd) {
        make_dir_rel(pre, post, value, text) && !cleared
    } else if crate::tokenizer::is_prefix(lit_change_dir(), cmd) {
        change_dir_rel(pre, post, value, text) && !cleared
    } else if crate::tokenizer::is_prefix(lit_remove_dir(), cmd) {
        remove_dir_rel(pre, post, value, text) && !cleared
    } else if crate::tokenizer::is_prefix(lit_dir_tree(), cmd) {
        &&& tree_unchanged(pre, post)
        &&& text == crate::text::msg_cur(crate::text::trim0(dirs[cur].name@)) + seq![10u8]
            + render_from(dirs, pre.rank@, cur, 1, 0)
        &&& !cleared
    } else if crate::tokenizer::is_prefix(lit_clear(), cmd) {
        &&& tree_unchanged(pre, post)
        &&& text == Seq::<u8>::empty()
        &&& cleared
    } else {
        &&& tree_unchanged(pre, post)
        &&& text == crate::text::msg_unsupported(crate::text::trim0(cmd))
        &&& !cleared
    }
}

impl Shell {
    /// Run the command named by the token against the argument field.
    /// The first result is the text to show; the second says whether the
    /// screen is to be cleared instead.
    pub fn execute_command(&mut self, command: &Vec<u8>, value: &Vec<u8>) -> (r: (Vec<u8>, bool))
        requires
            old(self).wf(),
            command@.len() == NAME_CAP,
            value@.len() == VALUE_CAP,
        ensures
            final(self).wf(),
            exec_rel(*old(self), *final(self), command@, value@, r.0@, r.1),
    {
        let pat_cur = cmd_cur_dir();
        let pat_make = cmd_make_dir();
        let pat_change = cmd_change_dir();
        let pat_remove = cmd_remove_dir();
        let pat_tree = cmd_dir_tree();
        let pat_clear = cmd_clear();
        if crate::tokenizer::check_command(&pat_cur, command) {
            (self.cur_dir(), false)
        } else if crate::tokenizer::check_command(&pat_make, command) {
            (self.make_dir(value), false)
        } else if crate::tokenizer::check_command(&pat_change, command) {
            (self.change_dir(value), false)
        } else if crate::tokenizer::check_command(&pat_remove, command) {
            (self.remove_dir(value), false)
        } else if crate::tokenizer::check_command(&pat_tree, command) {
            let mut text = crate::text::build_cur(&self.directories[self.cur_dir].name);
            proof {
                lemma_deeper_finite(self.directories@, self.rank@, self.cur_dir as int);
            }
            let sub = self.dir_tree(self.cur_dir, 1);
            crate::text::append_bytes(&mut text, &sub);
            proof {
                assert(text@ =~= crate::text::msg_cur(
                    crate::text::trim0(self.directories@[self.cur_dir as int].name@),
                ) + seq![10u8] + render_from(
                    self.directories@,
                    self.rank@,
                    self.cur_dir as int,
                    1,
                    0,
                ));
            }
            (text, false)
        } else if crate::tokenizer::check_command(&pat_clear, command) {
            (Vec::new(), true)
        } else {
            (crate::text::build_unsupported(command), false)
        }
    }
}

/// What one key press asks of the screen: erase the last character, clear
/// the whole surface, then write the text, in that order.
pub struct KeyOut {
    /// Erase the last echoed character first.
    pub erase: bool,
    /// Clear the whole surface.
    pub clear: bool,
    /// The text to write.
    pub text: Vec<u8>,
}

/// The same shell with another line length: how the state looked before
/// the line buffer was reset.
pub open spec fn with_buf_len(s: Shell, n: usize) -> Shell {
    Shell { buf_len: n, ..s }
}

/// What one key press does: a line terminator runs the buffered command
/// and resets the line; a backspace erases one byte; any other byte is
/// appended and echoed.
pub open spec fn key_rel(
    pre: Shell,
    post: Shell,
    key: u8,
    erase: bool,
    cleared: bool,
    text: Seq<u8>,
) -> bool {
    if key == 10 {
        &&& (exists|t0: Seq<u8>|
            exec_rel(
                pre,
                with_buf_len(post, pre.buf_len),
                crate::tokenizer::spec_command(pre.buf@, pre.buf_len as int),
                crate::tokenizer::spec_value(pre.buf@, pre.buf_len as int),
                t0,
                cleared,
            ) && text == t0 + crate::text::msg_prompt())
        &&& post.buf_len == 0
        &&& !erase
    } else if key == 8 {
        &&& erase
        &&& !cleared
        &&& text == Seq::<u8>::empty()
        &&& post.buf_len == if pre.buf_len > 0 {
            (pre.buf_len - 1) as usize
        } else {
            0usize
        }
        &&& post.buf@ == pre.buf@.update(post.buf_len as int, 0u8)
        &&& tree_unchanged(pre, post)
        &&& same_but_line(pre, post)
    } else {
        &&& !erase
        &&& !cleared
        &&& text == seq![key]
        &&& post.buf_len == pre.buf_len + 1
        &&& post.buf@ == pre.buf@.update(pre.buf_len as int, key)
        &&& tree_unchanged(pre, post)
        &&& same_but_line(pre, post)
    }
}

/// Everything outside the line buffer is unchanged.
pub open spec fn same_but_line(pre: Shell, post: Shell) -> bool {
    &&& post.files_list@ == pre.files_list@
    &&& post.is_editing_file == pre.is_editing_file
    &&& post.current_editing_file == pre.current_editing_file
}

impl Shell {
    /// Accept one decoded input byte.  A full line buffer cannot take
    /// another printable byte, and a completed line's argument field must
    /// fit its capacity: the caller checks both, as the screen loop does.
    pub fn on_key_pressed(&mut self, key: u8) -> (out: KeyOut)
        requires
            old(self).wf(),
            key == 10 ==> crate::tokenizer::arg_len(old(self).buf@, old(self).buf_len as int)
                <= VALUE_CAP,
            key != 10 && key != 8 ==> old(self).buf_len < LINE_CAP,
        ensures
            final(self).wf(),
            key_rel(*old(self), *final(self), key, out.erase, out.clear, out.text@),
    {
        if key == 10 {
            let command = crate::tokenizer::get_command(&self.buf, self.buf_len);
            let value = crate::tokenizer::get_value(&self.buf, self.buf_len);
            let (mut text, cleared) = self.execute_command(&command, &value);
            let ghost t0 = text@;
            let ghost mid = *self;
            self.buf_len = 0;
            let prompt = crate::text::build_prompt();
            crate::text::append_bytes(&mut text, &prompt);
            proof {
                assert(with_buf_len(*self, old(self).buf_len) == mid);
                assert(exec_rel(
                    *old(self),
                    with_buf_len(*self, old(self).buf_len),
                    crate::tokenizer::spec_command(old(self).buf@, old(self).buf_len as int),
                    crate::tokenizer::spec_value(old(self).buf@, old(self).buf_len as int),
                    t0,
                    cleared,
                ));
            }
            KeyOut { erase: false, clear: cleared, text }
        } else if key == 8 {
            if self.buf_len > 0 {
                self.buf_len = self.buf_len - 1;
            }
            self.buf.set(self.buf_len, 0);
            KeyOut { erase: true, clear: false, text: Vec::new() }
        } else {
            self.buf.set(self.buf_len, key);
            self.buf_len = self.buf_len + 1;
            let mut text: Vec<u8> = Vec::new();
            text.push(key);
            KeyOut { erase: false, clear: false, text }
        }
    }
}

/// After a successful creation the pool is again a well-formed tree.
proof fn lemma_make_dir_wf(pre: Shell, post: Shell, value: Seq<u8>, d: int, k: int)
    requires
        pre.wf(),
        value.len() == 70,
        0 <= d < 100,
        0 <= k < 20,
        pre.directories@[d].index == FREE_SLOT,
        kid_at(pre.directories@, pre.cur_dir as int, k) == FREE_SLOT,
        post.directories@.len() == 100,
        forall|i: int|
            0 <= i < 100 && i != d && i != pre.cur_dir as int ==> post.directories@[i]
                == pre.directories@[i],
        new_dir_at(post.directories@, d, value, pre.cur_dir as int),
        parent_gained(pre.directories@, post.directories@, pre.cur_dir as int, k, d),
        post.cur_dir == pre.cur_dir,
        post.buf@ == pre.buf@,
        post.buf_len == pre.buf_len,
        post.files_list@ == pre.files_list@,
        post.rank@ == pre.rank@.insert(d, (pre.rank@[pre.cur_dir as int] + 1) as nat),
    ensures
        post.wf(),
{
    let dirs = pre.directories@;
    let dirs2 = post.directories@;
    let cur = pre.cur_dir as int;
    assert(occupied(dirs, cur));
    assert(d != cur);
    assert(d != 0);
    assert forall|i: int| 0 <= i < 100 implies dir_shape(#[trigger] dirs2[i]) by {
        if i != d && i != cur {
            assert(dirs2[i] == dirs[i]);
        }
    }
    assert forall|i: int| 0 <= i < 100 implies #[trigger] slot_ok(dirs2, i) by {
        if i != d && i != cur {
            assert(dirs2[i] == dirs[i]);
            assert(slot_ok(dirs, i));
        }
    }
    assert forall|i: int| 0 <= i < 100 implies (occupied(dirs2, i) <==> (occupied(dirs, i) || i
        == d)) by {
        if i != d && i != cur {
            assert(dirs2[i] == dirs[i]);
        }
    }
    assert forall|i: int, j: int|
        occupied(dirs2, i) && 0 <= j < CHILD_CAP implies #[trigger] entry_ok(dirs2, i, j) by {
        if i == d {
            assert(kid_at(dirs2, d, j) == FREE_SLOT);
        } else if i == cur && j == k {
            assert(kid_at(dirs2, cur, k) == d);
            assert(occupied(dirs2, d) && dirs2[d].parent_index == cur);
        } else {
            assert(occupied(dirs, i));
            assert(entry_ok(dirs, i, j));
            assert(kid_at(dirs2, i, j) == kid_at(dirs, i, j));
            let c = kid_at(dirs, i, j) as int;
            if kid_at(dirs, i, j) != FREE_SLOT {
                assert(occupied(dirs, c));
                assert(c != d);
                if c != cur {
                    assert(dirs2[c] == dirs[c]);
                }
                assert(dirs2[c].index == c && dirs2[c].parent_index == dirs[c].parent_index);
            }
        }
    }
    assert forall|i: int| #[trigger] occupied(dirs2, i) implies dirs2[i].child_count == num_kids(
        dirs2[i].child_indexes@,
        CHILD_CAP as int,
    ) by {
        if i == d {
            lemma_num_kids_none(dirs2[d].child_indexes@, 20);
        } else if i == cur {
            crate::defs::lemma_num_kids_update(dirs[cur].child_indexes@, 20, k, d as usize);
        } else {
            assert(dirs2[i] == dirs[i]);
            assert(occupied(dirs, i));
        }
    }
    assert forall|i: int| #[trigger] occupied(dirs2, i) && i != 0 implies dirs2[i].parent_index
        < POOL_CAP && occupied(dirs2, dirs2[i].parent_index as int) && has_child_entry(
        dirs2,
        dirs2[i].parent_index as int,
        i,
    ) by {
        if i == d {
            assert(kid_at(dirs2, cur, k) == d);
            assert(has_child_entry(dirs2, cur, d));
        } else {
            assert(occupied(dirs, i));
            let p = dirs[i].parent_index as int;
            assert(occupied(dirs, p) && has_child_entry(dirs, p, i));
            let j = choose|j: int| 0 <= j < CHILD_CAP && #[trigger] kid_at(dirs, p, j) == i;
            assert(dirs2[i].parent_index == dirs[i].parent_index);
            if p == cur {
                assert(j != k);
                assert(kid_at(dirs2, cur, j) == i);
            } else {
                assert(dirs2[p] == dirs[p]);
                assert(kid_at(dirs2, p, j) == i);
            }
            assert(has_child_entry(dirs2, p, i));
        }
    }
    assert forall|i1: int, j1: int, i2: int, j2: int|
        occupied(dirs2, i1) && occupied(dirs2, i2) && 0 <= j1 < CHILD_CAP && 0 <= j2 < CHILD_CAP
            && #[trigger] kid_at(dirs2, i1, j1) == #[trigger] kid_at(dirs2, i2, j2) && kid_at(
            dirs2,
            i1,
            j1,
        ) != FREE_SLOT implies i1 == i2 && j1 == j2 by {
        let v = kid_at(dirs2, i1, j1);
        let old1 = !(i1 == d) && !(i1 == cur && j1 == k);
        let old2 = !(i2 == d) && !(i2 == cur && j2 == k);
        if i1 == d || i2 == d {
            assert(false);
        } else if old1 && old2 {
            assert(kid_at(dirs2, i1, j1) == kid_at(dirs, i1, j1));
            assert(kid_at(dirs2, i2, j2) == kid_at(dirs, i2, j2));
            assert(occupied(dirs, i1) && occupied(dirs, i2));
        } else if !old1 && old2 {
            assert(v == d);
            assert(kid_at(dirs, i2, j2) == v);
            assert(occupied(dirs, i2));
            assert(entry_ok(dirs, i2, j2));
            assert(occupied(dirs, d));
            assert(false);
        } else if old1 && !old2 {
            assert(v == d);
            assert(kid_at(dirs, i1, j1) == v);
            assert(occupied(dirs, i1));
            assert(entry_ok(dirs, i1, j1));
            assert(occupied(dirs, d));
            assert(false);
        }
    }
    let r0 = pre.rank@;
    let rank2 = post.rank@;
    assert forall|i: int| #[trigger] occupied(dirs2, i) && i != 0 implies rank2[i] == rank2[
        dirs2[i].parent_index as int
    ] + 1 by {
        if i == d {
            assert(rank2[d] == r0[cur] + 1);
            assert(rank2[cur] == r0[cur]);
        } else {
            assert(occupied(dirs, i));
            let p = dirs[i].parent_index as int;
            assert(p != d);
            assert(dirs2[i].parent_index == dirs[i].parent_index);
            assert(rank2[i] == r0[i] && rank2[p] == r0[p]);
        }
    }
}

} // verus!
