//! Splitting a completed input line into a command token and an argument.
//!
//! The command is the run of bytes before the first space, capped at
//! `NAME_CAP` bytes and zero padded; the argument is everything after the
//! first space, capped at `VALUE_CAP` bytes and zero padded, with spaces
//! after the first one kept verbatim.

use vstd::prelude::*;
use crate::defs::LINE_CAP;
use crate::defs::NAME_CAP;
use crate::defs::VALUE_CAP;

verus! {

/// Where the command token of `line` (of length `n`) ends, scanning from
/// `i`: the first space, or position `NAME_CAP`, or the end of the line,
/// whichever comes first.
pub open spec fn cmd_end_from(line: Seq<u8>, n: int, i: int) -> int
    decreases 10 - i,
    when 0 <= i <= 10
{
    if i >= 10 || i >= n || line[i] == 32 {
        i
    } else {
        cmd_end_from(line, n, i + 1)
    }
}

/// Where the command token of `line` (of length `n`) ends.
pub open spec fn cmd_end(line: Seq<u8>, n: int) -> int {
    cmd_end_from(line, n, 0)
}

/// The command token: the first `cmd_end` bytes of the line, zero padded
/// to `NAME_CAP` bytes.
pub open spec fn spec_command(line: Seq<u8>, n: int) -> Seq<u8> {
    Seq::new(10, |i: int| if i < cmd_end(line, n) { line[i] } else { 0u8 })
}

/// The first space of `line` (of length `n`) at or after `i`, or `n` when
/// there is none.
pub open spec fn first_space_from(line: Seq<u8>, n: int, i: int) -> int
    decreases n - i,
    when 0 <= i <= n
{
    if i >= n {
        n
    } else if line[i] == 32 {
        i
    } else {
        first_space_from(line, n, i + 1)
    }
}

/// The first space of `line` (of length `n`), or `n` when there is none.
pub open spec fn first_space(line: Seq<u8>, n: int) -> int {
    first_space_from(line, n, 0)
}

/// How many bytes stand after the first space of `line` (of length `n`).
pub open spec fn arg_len(line: Seq<u8>, n: int) -> int {
    if first_space(line, n) >= n {
        0
    } else {
        n - first_space(line, n) - 1
    }
}

/// The argument field: every byte after the first space, zero padded to
/// `VALUE_CAP` bytes.
pub open spec fn spec_value(line: Seq<u8>, n: int) -> Seq<u8> {
    let sp = first_space(line, n);
    Seq::new(70, |i: int| if i < arg_len(line, n) { line[sp + 1 + i] } else { 0u8 })
}

/// Extract the command token from the first `buf_len` bytes of the line
/// buffer `arr`.
pub fn get_command(arr: &Vec<u8>, buf_len: usize) -> (command: Vec<u8>)
    requires
        arr@.len() == LINE_CAP,
        buf_len <= LINE_CAP,
    ensures
        command@ == spec_command(arr@, buf_len as int),
{
    let ghost n = buf_len as int;
    let mut e: usize = 0;
    while e < NAME_CAP && e < buf_len && arr[e] != 32
        invariant
            n == buf_len as int,
            0 <= e <= 10,
            e <= buf_len <= LINE_CAP,
            arr@.len() == LINE_CAP,
            cmd_end(arr@, n) == cmd_end_from(arr@, n, e as int),
        decreases 10 - e,
    {
        proof {
            assert(cmd_end_from(arr@, n, e as int) == cmd_end_from(arr@, n, e as int + 1));
        }
        e = e + 1;
    }
    assert(cmd_end(arr@, n) == e as int);
    let mut command: Vec<u8> = Vec::new();
    let mut i: usize = 0;
    while i < NAME_CAP
        invariant
            0 <= i <= 10,
            e as int == cmd_end(arr@, n),
            n == buf_len as int,
            0 <= e as int <= buf_len <= LINE_CAP,
            arr@.len() == LINE_CAP,
            command@.len() == i as int,
            forall|m: int| 0 <= m < i as int ==> command@[m] == spec_command(arr@, n)[m],
        decreases 10 - i,
    {
        if i < e {
            command.push(arr[i]);
        } else {
            command.push(0);
        }
        i = i + 1;
    }
    assert(command@ =~= spec_command(arr@, n));
    command
}

/// Extract the argument field from the first `buf_len` bytes of the line
/// buffer `arr`.  The caller makes sure the field fits in `VALUE_CAP`
/// bytes.
pub fn get_value(arr: &Vec<u8>, buf_len: usize) -> (value: Vec<u8>)
    requires
        arr@.len() == LINE_CAP,
        buf_len <= LINE_CAP,
        arg_len(arr@, buf_len as int) <= VALUE_CAP,
    ensures
        value@ == spec_value(arr@, buf_len as int),
{
    let ghost n = buf_len as int;
    let mut sp: usize = 0;
    while sp < buf_len && arr[sp] != 32
        invariant
            n == buf_len as int,
            0 <= sp <= buf_len <= LINE_CAP,
            arr@.len() == LINE_CAP,
            first_space(arr@, n) == first_space_from(arr@, n, sp as int),
        decreases buf_len - sp,
    {
        proof {
            assert(first_space_from(arr@, n, sp as int) == first_space_from(arr@, n, sp as int + 1));
        }
        sp = sp + 1;
    }
    assert(first_space(arr@, n) == sp as int);
    let ghost al = arg_len(arr@, n);
    let mut value: Vec<u8> = Vec::new();
    let mut j: usize = 0;
    while j < VALUE_CAP
        invariant
            n == buf_len as int,
            0 <= j <= 70,
            arr@.len() == LINE_CAP,
            buf_len <= LINE_CAP,
            sp as int == first_space(arr@, n),
            0 <= sp as int <= buf_len <= LINE_CAP,
            al == arg_len(arr@, n),
            0 <= al <= 70,
            value@.len() == j as int,
            forall|m: int| 0 <= m < j as int ==> value@[m] == spec_value(arr@, n)[m],
        decreases 70 - j,
    {
        if sp < buf_len && j < buf_len - sp - 1 {
            value.push(arr[sp + 1 + j]);
        } else {
            value.push(0);
        }
        proof {
            assert(spec_value(arr@, n)[j as int] == (if (j as int) < al {
                arr@[sp as int + 1 + j as int]
            } else {
                0u8
            }));
        }
        j = j + 1;
    }
    assert(value@ =~= spec_value(arr@, n));
    value
}

/// Whether `pat` is a byte-for-byte prefix of `arr`.
pub open spec fn is_prefix(pat: Seq<u8>, arr: Seq<u8>) -> bool {
    &&& pat.len() <= arr.len()
    &&& forall|i: int| 0 <= i < pat.len() ==> arr[i] == pat[i]
}

/// Compare a command literal against the command token, byte for byte over
/// the literal's own length.  Trailing token bytes beyond the literal are
/// not checked, so a longer token sharing a known prefix still matches;
/// this mirrors the dispatcher's documented matching policy.
pub fn check_command(str_for_compare: &Vec<u8>, arr: &Vec<u8>) -> (is_valid: bool)
    requires
        str_for_compare@.len() <= arr@.len(),
    ensures
        is_valid == is_prefix(str_for_compare@, arr@),
{
    let mut is_valid = true;
    let mut i: usize = 0;
    while i < str_for_compare.len()
        invariant
            0 <= i as int <= str_for_compare@.len() <= arr@.len(),
            is_valid == (forall|m: int| 0 <= m < i as int ==> arr@[m] == str_for_compare@[m]),
        decreases str_for_compare@.len() - i as int,
    {
        if str_for_compare[i] != arr[i] {
            is_valid = false;
        }
        i = i + 1;
    }
    is_valid
}

} // verus!
