//! Laws of the namespace engine: properties that hold of every state and
//! every run of the operations, stated over the operations' relations and
//! proved once and for all.

use vstd::prelude::*;
use crate::defs::FREE_SLOT;
use crate::defs::occupied;
use crate::defs::kid_at;
use crate::shell::Shell;
use crate::shell::entry_ok;
use crate::shell::make_dir_rel;
use crate::shell::change_dir_rel;
use crate::shell::remove_dir_rel;
use crate::shell::first_free_dir;
use crate::shell::first_free_entry;
use crate::shell::first_match_from;
use crate::shell::name_len;
use crate::shell::new_dir_at;
use crate::shell::lemma_first_free_dir_props;
use crate::shell::lemma_first_free_entry_props;
use crate::shell::lemma_first_match_props;
use crate::shell::parent_gained;

verus! {

/// Creating a directory and then changing into that name leaves the
/// current directory at a node whose padded name equals the argument's
/// first ten bytes — for every name of significant length at most ten,
/// except the lone dot, which `change_dir` reads as "go to the parent".
pub proof fn law_create_then_change(
    s0: Shell,
    s1: Shell,
    s2: Shell,
    value: Seq<u8>,
    o1: Seq<u8>,
    o2: Seq<u8>,
)
    requires
        s0.wf(),
        s1.wf(),
        value.len() == 70,
        name_len(value) <= 10,
        !(value[0] == 46 && value[1] == 0),
        first_free_dir(s0.directories@) < 100,
        first_free_entry(s0.directories@[s0.cur_dir as int].child_indexes@) < 20,
        make_dir_rel(s0, s1, value, o1),
        change_dir_rel(s1, s2, value, o2),
    ensures
        occupied(s2.directories@, s2.cur_dir as int),
        s2.directories@[s2.cur_dir as int].name@ == value.take(10),
{
    let dirs0 = s0.directories@;
    let cur = s0.cur_dir as int;
    let d = first_free_dir(dirs0);
    let k = first_free_entry(dirs0[cur].child_indexes@);
    let dirs1 = s1.directories@;
    let pat = value.take(10);
    lemma_first_free_dir_props(dirs0, 0);
    lemma_first_free_entry_props(dirs0[cur].child_indexes@, 0);
    assert(crate::defs::dir_shape(dirs0[cur]));
    assert(dirs0[cur].child_indexes@.len() == 20);
    assert(new_dir_at(dirs1, d, value, cur));
    assert(crate::shell::parent_gained(dirs0, dirs1, cur, k, d));
    assert(dirs1[cur].child_indexes@ == dirs0[cur].child_indexes@.update(k, d as usize));
    assert(dirs1[cur].child_indexes@[k] == d as usize);
    assert(kid_at(dirs1, cur, k) == d);
    assert(dirs1[d].name@ == pat);
    let j = first_match_from(dirs1, dirs1[cur].child_indexes@, pat, 0);
    lemma_first_match_props(dirs1, dirs1[cur].child_indexes@, pat, 0);
    if j == 20 {
        assert(!(dirs1[cur].child_indexes@[k] != FREE_SLOT && dirs1[kid_at(
            dirs1,
            cur,
            k,
        ) as int].name@ == pat));
        assert(false);
    }
    assert(s2.cur_dir == kid_at(dirs1, cur, j));
    assert(dirs1[cur].child_indexes@[j] != FREE_SLOT);
    assert(dirs1[s2.cur_dir as int].name@ == pat);
    assert(entry_ok(dirs1, cur, j));
    assert(occupied(dirs1, s2.cur_dir as int));
    assert(s2.directories@ == dirs1);
}

/// Descending into any child and then changing to the lone dot restores
/// the current directory: the dot convention ascends along the parent
/// link the descent just set.
pub proof fn law_descend_then_dot(
    s0: Shell,
    s1: Shell,
    s2: Shell,
    name: Seq<u8>,
    dot: Seq<u8>,
    o1: Seq<u8>,
    o2: Seq<u8>,
)
    requires
        s0.wf(),
        s1.wf(),
        name.len() == 70,
        !(name[0] == 46 && name[1] == 0),
        name_len(name) <= 10,
        change_dir_rel(s0, s1, name, o1),
        first_match_from(
            s0.directories@,
            s0.directories@[s0.cur_dir as int].child_indexes@,
            name.take(10),
            0,
        ) < 20,
        dot.len() == 70,
        dot[0] == 46,
        dot[1] == 0,
        change_dir_rel(s1, s2, dot, o2),
    ensures
        s2.cur_dir == s0.cur_dir,
{
    let dirs = s0.directories@;
    let cur = s0.cur_dir as int;
    let pat = name.take(10);
    let j = first_match_from(dirs, dirs[cur].child_indexes@, pat, 0);
    lemma_first_match_props(dirs, dirs[cur].child_indexes@, pat, 0);
    assert(s1.cur_dir == kid_at(dirs, cur, j));
    assert(entry_ok(dirs, cur, j));
    assert(dirs[s1.cur_dir as int].parent_index == cur);
    assert(s1.directories@ == dirs);
}

/// Removing a directory that still has children always fails with the
/// children-count refusal and leaves the whole tree untouched.
pub proof fn law_remove_nonempty(s0: Shell, s1: Shell, arg: Seq<u8>, o1: Seq<u8>)
    requires
        s0.wf(),
        arg.len() == 70,
        remove_dir_rel(s0, s1, arg, o1),
        first_match_from(
            s0.directories@,
            s0.directories@[s0.cur_dir as int].child_indexes@,
            arg.take(10),
            0,
        ) < 20,
        s0.directories@[kid_at(
            s0.directories@,
            s0.cur_dir as int,
            first_match_from(
                s0.directories@,
                s0.directories@[s0.cur_dir as int].child_indexes@,
                arg.take(10),
                0,
            ),
        ) as int].child_count > 0,
    ensures
        s1.directories@ == s0.directories@,
        s1.cur_dir == s0.cur_dir,
        o1 == crate::text::msg_not_empty(),
{
}

/// Once a directory's twenty child entries are all in use, creating one
/// more child under it fails with the creation refusal, and no pool slot
/// changes its occupancy.
pub proof fn law_children_exhausted(s0: Shell, s1: Shell, value: Seq<u8>, o1: Seq<u8>)
    requires
        s0.wf(),
        value.len() == 70,
        name_len(value) <= 10,
        forall|m: int|
            0 <= m < 20 ==> s0.directories@[s0.cur_dir as int].child_indexes@[m] != FREE_SLOT,
        make_dir_rel(s0, s1, value, o1),
    ensures
        s1.directories@ == s0.directories@,
        o1 == crate::text::msg_cant_create(),
        forall|i: int| occupied(s1.directories@, i) <==> occupied(s0.directories@, i),
{
    let entries = s0.directories@[s0.cur_dir as int].child_indexes@;
    lemma_first_free_entry_props(entries, 0);
    if first_free_entry(entries) < 20 {
        assert(entries[first_free_entry(entries)] == FREE_SLOT);
        assert(false);
    }
}

/// Freeing a directory slot and at once allocating a new one reuses the
/// same slot index, provided every lower slot is occupied — allocation
/// takes the first free slot.  Moreover, between the two operations no
/// child entry anywhere in the pool still points at the freed slot: the
/// removal cleared the only reference.
pub proof fn law_slot_reuse(
    s0: Shell,
    s1: Shell,
    s2: Shell,
    arg: Seq<u8>,
    value: Seq<u8>,
    o1: Seq<u8>,
    o2: Seq<u8>,
    t: int,
)
    requires
        s0.wf(),
        s1.wf(),
        arg.len() == 70,
        value.len() == 70,
        remove_dir_rel(s0, s1, arg, o1),
        first_match_from(
            s0.directories@,
            s0.directories@[s0.cur_dir as int].child_indexes@,
            arg.take(10),
            0,
        ) < 20,
        t == kid_at(
            s0.directories@,
            s0.cur_dir as int,
            first_match_from(
                s0.directories@,
                s0.directories@[s0.cur_dir as int].child_indexes@,
                arg.take(10),
                0,
            ),
        ),
        s0.directories@[t].child_count == 0,
        forall|m: int| 0 <= m < t ==> occupied(s0.directories@, m),
        name_len(value) <= 10,
        first_free_entry(s1.directories@[s1.cur_dir as int].child_indexes@) < 20,
        make_dir_rel(s1, s2, value, o2),
    ensures
        forall|i: int, m: int|
            occupied(s1.directories@, i) && 0 <= m < 20 ==> kid_at(s1.directories@, i, m) != t,
        new_dir_at(s2.directories@, t, value, s1.cur_dir as int),
        occupied(s2.directories@, t),
{
    let dirs0 = s0.directories@;
    let cur = s0.cur_dir as int;
    let j = first_match_from(dirs0, dirs0[cur].child_indexes@, arg.take(10), 0);
    lemma_first_match_props(dirs0, dirs0[cur].child_indexes@, arg.take(10), 0);
    assert(entry_ok(dirs0, cur, j));
    assert(occupied(dirs0, t));
    let dirs1 = s1.directories@;
    assert(crate::shell::is_blank_dir(dirs1[t]));
    assert(dirs1[t].index == FREE_SLOT);
    assert(!occupied(dirs1, t));
    assert forall|i: int, m: int|
        occupied(dirs1, i) && 0 <= m < 20 implies kid_at(dirs1, i, m) != t by {
        assert(entry_ok(dirs1, i, m));
        if kid_at(dirs1, i, m) == t {
            assert(occupied(dirs1, t));
        }
    }
    assert forall|m: int| 0 <= m < t implies occupied(dirs1, m) by {
        assert(occupied(dirs0, m));
        assert(m != t);
        if m == cur {
            assert(occupied(dirs1, m));
        } else {
            assert(dirs1[m] == dirs0[m]);
        }
    }
    lemma_first_free_dir_props(dirs1, 0);
    let d = first_free_dir(dirs1);
    assert(0 <= t < 100);
    if d < t {
        assert(occupied(dirs1, d));
        assert(dirs1[d].index == FREE_SLOT);
        assert(false);
    }
    if d > t {
        assert(dirs1[t].index != FREE_SLOT);
        assert(false);
    }
    assert(d == t);
    assert(new_dir_at(s2.directories@, t, value, s1.cur_dir as int));
    assert(s2.directories@[t].index == t);
}

} // verus!
