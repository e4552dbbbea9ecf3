//! The text the operations emit: names trimmed of their zero padding, and
//! the fixed message templates around them.

use vstd::prelude::*;

verus! {

/// `s` without its trailing zero bytes.
pub open spec fn drop_trail(s: Seq<u8>) -> Seq<u8>
    decreases s.len(),
{
    if s.len() > 0 && s.last() == 0 {
        drop_trail(s.drop_last())
    } else {
        s
    }
}

/// `s` without its leading zero bytes.
pub open spec fn drop_lead(s: Seq<u8>) -> Seq<u8>
    decreases s.len(),
{
    if s.len() > 0 && s[0] == 0 {
        drop_lead(s.subrange(1, s.len() as int))
    } else {
        s
    }
}

/// `s` without the zero bytes at either end: how a padded name is shown.
pub open spec fn trim0(s: Seq<u8>) -> Seq<u8> {
    drop_lead(drop_trail(s))
}

proof fn lemma_drop_trail_take(s: Seq<u8>, e: int)
    requires
        0 <= e <= s.len(),
        forall|i: int| e <= i < s.len() ==> s[i] == 0,
        e == 0 || s[e - 1] != 0,
    ensures
        drop_trail(s) == s.take(e),
    decreases s.len(),
{
    if s.len() > 0 && s.last() == 0 {
        assert(e < s.len());
        lemma_drop_trail_take(s.drop_last(), e);
        assert(s.drop_last().take(e) =~= s.take(e));
    } else {
        assert(s.take(e) =~= s);
    }
}

proof fn lemma_drop_lead_skip(s: Seq<u8>, b: int)
    requires
        0 <= b <= s.len(),
        forall|i: int| 0 <= i < b ==> s[i] == 0,
        b == s.len() || s[b] != 0,
    ensures
        drop_lead(s) == s.skip(b),
    decreases s.len(),
{
    if s.len() > 0 && s[0] == 0 {
        assert(b > 0);
        lemma_drop_lead_skip(s.subrange(1, s.len() as int), b - 1);
        assert(s.subrange(1, s.len() as int).skip(b - 1) =~= s.skip(b));
    } else {
        assert(s.skip(b) =~= s);
    }
}

/// With `b` the first position whose byte is not zero and `e` one past the
/// last, trimming yields exactly the bytes between them.
pub proof fn lemma_trim0_subrange(s: Seq<u8>, b: int, e: int)
    requires
        0 <= b <= e <= s.len(),
        forall|i: int| e <= i < s.len() ==> s[i] == 0,
        e == 0 || s[e - 1] != 0,
        forall|i: int| 0 <= i < b ==> s[i] == 0,
        b == e || s[b] != 0,
    ensures
        trim0(s) == s.subrange(b, e),
    decreases s.len(),
{
    lemma_drop_trail_take(s, e);
    lemma_drop_lead_skip(s.take(e), b);
    assert(s.take(e).skip(b) =~= s.subrange(b, e));
}

/// Copy of `s` without the zero bytes at either end.
pub fn trim_zeros(s: &Vec<u8>) -> (r: Vec<u8>)
    ensures
        r@ == trim0(s@),
{
    let mut e: usize = s.len();
    while e > 0 && s[e - 1] == 0
        invariant
            0 <= e <= s@.len(),
            forall|i: int| e as int <= i < s@.len() ==> s@[i] == 0,
        decreases e,
    {
        e = e - 1;
    }
    let mut b: usize = 0;
    while b < e && s[b] == 0
        invariant
            0 <= b <= e <= s@.len(),
            forall|i: int| 0 <= i < b as int ==> s@[i] == 0,
        decreases e - b,
    {
        b = b + 1;
    }
    proof {
        lemma_trim0_subrange(s@, b as int, e as int);
    }
    let mut r: Vec<u8> = Vec::new();
    let mut i: usize = b;
    while i < e
        invariant
            b <= i <= e <= s@.len(),
            r@ == s@.subrange(b as int, i as int),
        decreases e - i,
    {
        r.push(s[i]);
        proof {
            assert(s@.subrange(b as int, i as int).push(s@[i as int]) =~= s@.subrange(
                b as int,
                i as int + 1,
            ));
        }
        i = i + 1;
    }
    assert(r@ =~= s@.subrange(b as int, e as int));
    r
}

/// Append a copy of `src` to `dst`.
pub fn append_bytes(dst: &mut Vec<u8>, src: &Vec<u8>)
    ensures
        final(dst)@ == old(dst)@ + src@,
{
    let mut i: usize = 0;
    while i < src.len()
        invariant
            0 <= i <= src@.len(),
            dst@ == old(dst)@ + src@.take(i as int),
        decreases src@.len() - i,
    {
        dst.push(src[i]);
        proof {
            assert((old(dst)@ + src@.take(i as int)).push(src@[i as int]) =~= old(dst)@
                + src@.take(i as int + 1));
        }
        i = i + 1;
    }
    assert(old(dst)@ + src@.take(src@.len() as int) =~= old(dst)@ + src@);
}

/// Message: a fresh prompt after a completed line.
pub open spec fn msg_prompt() -> Seq<u8> {
    seq![10u8, 32u8, 36u8, 32u8]
}

/// Build `msg_prompt` as a byte vector.
pub fn build_prompt() -> (r: Vec<u8>)
    ensures
        r@ == msg_prompt(),
{
    let mut r: Vec<u8> = Vec::new();
    r.push(10u8);
    r.push(32u8);
    r.push(36u8);
    r.push(32u8);
    proof {
        assert(r@ =~= msg_prompt());
    }
    r
}

/// Message: a name over `NAME_CAP` bytes, as `change_dir` reports it.
pub open spec fn msg_invalid_name_bare() -> Seq<u8> {
    seq![91u8, 69u8, 114u8, 114u8, 111u8, 114u8, 93u8, 32u8, 73u8, 110u8, 118u8, 97u8, 108u8, 105u8, 100u8, 32u8, 100u8, 105u8, 114u8, 101u8, 99u8, 116u8, 111u8, 114u8, 121u8, 32u8, 110u8, 97u8, 109u8, 101u8, 46u8, 32u8, 77u8, 97u8, 120u8, 32u8, 115u8, 105u8, 122u8, 101u8, 32u8, 105u8, 115u8, 32u8, 49u8, 48u8, 32u8, 99u8, 104u8, 97u8, 114u8, 97u8, 99u8, 116u8, 101u8, 114u8, 115u8]
}

/// Build `msg_invalid_name_bare` as a byte vector.
pub fn build_invalid_name_bare() -> (r: Vec<u8>)
    ensures
        r@ == msg_invalid_name_bare(),
{
    let mut r: Vec<u8> = Vec::new();
    r.push(91u8);
    r.push(69u8);
    r.push(114u8);
    r.push(114u8);
    r.push(111u8);
    r.push(114u8);
    r.push(93u8);
    r.push(32u8);
    r.push(73u8);
    r.push(110u8);
    r.push(118u8);
    r.push(97u8);
    r.push(108u8);
    r.push(105u8);
    r.push(100u8);
    r.push(32u8);
    r.push(100u8);
    r.push(105u8);
    r.push(114u8);
    r.push(101u8);
    r.push(99u8);
    r.push(116u8);
    r.push(111u8);
    r.push(114u8);
    r.push(121u8);
    r.push(32u8);
    r.push(110u8);
    r.push(97u8);
    r.push(109u8);
    r.push(101u8);
    r.push(46u8);
    r.push(32u8);
    r.push(77u8);
    r.push(97u8);
    r.push(120u8);
    r.push(32u8);
    r.push(115u8);
    r.push(105u8);
    r.push(122u8);
    r.push(101u8);
    r.push(32u8);
    r.push(105u8);
    r.push(115u8);
    r.push(32u8);
    r.push(49u8);
    r.push(48u8);
    r.push(32u8);
    r.push(99u8);
    r.push(104u8);
    r.push(97u8);
    r.push(114u8);
    r.push(97u8);
    r.push(99u8);
    r.push(116u8);
    r.push(101u8);
    r.push(114u8);
    r.push(115u8);
    proof {
        assert(r@ =~= msg_invalid_name_bare());
    }
    r
}

/// Message: a name over `NAME_CAP` bytes, as `make_dir` reports it.
pub open spec fn msg_invalid_name() -> Seq<u8> {
    seq![10u8, 91u8, 69u8, 114u8, 114u8, 111u8, 114u8, 93u8, 32u8, 73u8, 110u8, 118u8, 97u8, 108u8, 105u8, 100u8, 32u8, 100u8, 105u8, 114u8, 101u8, 99u8, 116u8, 111u8, 114u8, 121u8, 32u8, 110u8, 97u8, 109u8, 101u8, 46u8, 32u8, 77u8, 97u8, 120u8, 32u8, 115u8, 105u8, 122u8, 101u8, 32u8, 105u8, 115u8, 32u8, 49u8, 48u8, 32u8, 99u8, 104u8, 97u8, 114u8, 97u8, 99u8, 116u8, 101u8, 114u8, 115u8]
}

/// Build `msg_invalid_name` as a byte vector.
pub fn build_invalid_name() -> (r: Vec<u8>)
    ensures
        r@ == msg_invalid_name(),
{
    let mut r: Vec<u8> = Vec::new();
    r.push(10u8);
    r.push(91u8);
    r.push(69u8);
    r.push(114u8);
    r.push(114u8);
    r.push(111u8);
    r.push(114u8);
    r.push(93u8);
    r.push(32u8);
    r.push(73u8);
    r.push(110u8);
    r.push(118u8);
    r.push(97u8);
    r.push(108u8);
    r.push(105u8);
    r.push(100u8);
    r.push(32u8);
    r.push(100u8);
    r.push(105u8);
    r.push(114u8);
    r.push(101u8);
    r.push(99u8);
    r.push(116u8);
    r.push(111u8);
    r.push(114u8);
    r.push(121u8);
    r.push(32u8);
    r.push(110u8);
    r.push(97u8);
    r.push(109u8);
    r.push(101u8);
    r.push(46u8);
    r.push(32u8);
    r.push(77u8);
    r.push(97u8);
    r.push(120u8);
    r.push(32u8);
    r.push(115u8);
    r.push(105u8);
    r.push(122u8);
    r.push(101u8);
    r.push(32u8);
    r.push(105u8);
    r.push(115u8);
    r.push(32u8);
    r.push(49u8);
    r.push(48u8);
    r.push(32u8);
    r.push(99u8);
    r.push(104u8);
    r.push(97u8);
    r.push(114u8);
    r.push(97u8);
    r.push(99u8);
    r.push(116u8);
    r.push(101u8);
    r.push(114u8);
    r.push(115u8);
    proof {
        assert(r@ =~= msg_invalid_name());
    }
    r
}

/// Message: no free pool slot, or no free child entry.
pub open spec fn msg_cant_create() -> Seq<u8> {
    seq![10u8, 91u8, 69u8, 114u8, 114u8, 111u8, 114u8, 93u8, 32u8, 67u8, 97u8, 110u8, 96u8, 116u8, 32u8, 98u8, 101u8, 32u8, 99u8, 114u8, 101u8, 97u8, 116u8, 101u8, 100u8, 32u8, 105u8, 110u8, 32u8, 116u8, 104u8, 105u8, 115u8, 32u8, 100u8, 105u8, 114u8, 101u8, 99u8, 116u8, 111u8, 114u8, 121u8, 33u8]
}

/// Build `msg_cant_create` as a byte vector.
pub fn build_cant_create() -> (r: Vec<u8>)
    ensures
        r@ == msg_cant_create(),
{
    let mut r: Vec<u8> = Vec::new();
    r.push(10u8);
    r.push(91u8);
    r.push(69u8);
    r.push(114u8);
    r.push(114u8);
    r.push(111u8);
    r.push(114u8);
    r.push(93u8);
    r.push(32u8);
    r.push(67u8);
    r.push(97u8);
    r.push(110u8);
    r.push(96u8);
    r.push(116u8);
    r.push(32u8);
    r.push(98u8);
    r.push(101u8);
    r.push(32u8);
    r.push(99u8);
    r.push(114u8);
    r.push(101u8);
    r.push(97u8);
    r.push(116u8);
    r.push(101u8);
    r.push(100u8);
    r.push(32u8);
    r.push(105u8);
    r.push(110u8);
    r.push(32u8);
    r.push(116u8);
    r.push(104u8);
    r.push(105u8);
    r.push(115u8);
    r.push(32u8);
    r.push(100u8);
    r.push(105u8);
    r.push(114u8);
    r.push(101u8);
    r.push(99u8);
    r.push(116u8);
    r.push(111u8);
    r.push(114u8);
    r.push(121u8);
    r.push(33u8);
    proof {
        assert(r@ =~= msg_cant_create());
    }
    r
}

/// Message: removal refused: the target still has children.
pub open spec fn msg_not_empty() -> Seq<u8> {
    seq![10u8, 91u8, 69u8, 114u8, 114u8, 111u8, 114u8, 93u8, 32u8, 67u8, 111u8, 117u8, 110u8, 116u8, 32u8, 111u8, 102u8, 32u8, 99u8, 104u8, 105u8, 108u8, 100u8, 114u8, 101u8, 110u8, 32u8, 109u8, 117u8, 115u8, 116u8, 32u8, 98u8, 101u8, 32u8, 48u8]
}

/// Build `msg_not_empty` as a byte vector.
pub fn build_not_empty() -> (r: Vec<u8>)
    ensures
        r@ == msg_not_empty(),
{
    let mut r: Vec<u8> = Vec::new();
    r.push(10u8);
    r.push(91u8);
    r.push(69u8);
    r.push(114u8);
    r.push(114u8);
    r.push(111u8);
    r.push(114u8);
    r.push(93u8);
    r.push(32u8);
    r.push(67u8);
    r.push(111u8);
    r.push(117u8);
    r.push(110u8);
    r.push(116u8);
    r.push(32u8);
    r.push(111u8);
    r.push(102u8);
    r.push(32u8);
    r.push(99u8);
    r.push(104u8);
    r.push(105u8);
    r.push(108u8);
    r.push(100u8);
    r.push(114u8);
    r.push(101u8);
    r.push(110u8);
    r.push(32u8);
    r.push(109u8);
    r.push(117u8);
    r.push(115u8);
    r.push(116u8);
    r.push(32u8);
    r.push(98u8);
    r.push(101u8);
    r.push(32u8);
    r.push(48u8);
    proof {
        assert(r@ =~= msg_not_empty());
    }
    r
}

/// Message: the current directory's name, shown with a leading slash.
pub open spec fn msg_cur(nm: Seq<u8>) -> Seq<u8> {
    seq![10u8, 47u8] + nm
}

/// Build `msg_cur` around the trimmed name.
pub fn build_cur(nm: &Vec<u8>) -> (r: Vec<u8>)
    ensures
        r@ == msg_cur(trim0(nm@)),
{
    let mut r: Vec<u8> = Vec::new();
    r.push(10u8);
    r.push(47u8);
    let t = trim_zeros(nm);
    append_bytes(&mut r, &t);

    proof {
        assert(r@ =~= msg_cur(trim0(nm@)));
    }
    r
}

/// Message: a directory was created.
pub open spec fn msg_created(nm: Seq<u8>) -> Seq<u8> {
    seq![10u8, 91u8, 79u8, 107u8, 93u8, 32u8, 67u8, 114u8, 101u8, 97u8, 116u8, 101u8, 100u8, 32u8, 110u8, 101u8, 119u8, 32u8, 100u8, 105u8, 114u8, 32u8, 34u8] + nm + seq![34u8]
}

/// Build `msg_created` around the trimmed name.
pub fn build_created(nm: &Vec<u8>) -> (r: Vec<u8>)
    ensures
        r@ == msg_created(trim0(nm@)),
{
    let mut r: Vec<u8> = Vec::new();
    r.push(10u8);
    r.push(91u8);
    r.push(79u8);
    r.push(107u8);
    r.push(93u8);
    r.push(32u8);
    r.push(67u8);
    r.push(114u8);
    r.push(101u8);
    r.push(97u8);
    r.push(116u8);
    r.push(101u8);
    r.push(100u8);
    r.push(32u8);
    r.push(110u8);
    r.push(101u8);
    r.push(119u8);
    r.push(32u8);
    r.push(100u8);
    r.push(105u8);
    r.push(114u8);
    r.push(32u8);
    r.push(34u8);
    let t = trim_zeros(nm);
    append_bytes(&mut r, &t);
    r.push(34u8);
    proof {
        assert(r@ =~= msg_created(trim0(nm@)));
    }
    r
}

/// Message: the current directory moved to a child.
pub open spec fn msg_changed(nm: Seq<u8>) -> Seq<u8> {
    seq![10u8, 10u8, 91u8, 79u8, 107u8, 93u8, 32u8, 67u8, 104u8, 97u8, 110u8, 103u8, 101u8, 100u8, 32u8, 99u8, 117u8, 114u8, 114u8, 101u8, 110u8, 116u8, 32u8, 100u8, 105u8, 114u8, 32u8, 116u8, 111u8, 32u8, 34u8] + nm + seq![34u8]
}

/// Build `msg_changed` around the trimmed name.
pub fn build_changed(nm: &Vec<u8>) -> (r: Vec<u8>)
    ensures
        r@ == msg_changed(trim0(nm@)),
{
    let mut r: Vec<u8> = Vec::new();
    r.push(10u8);
    r.push(10u8);
    r.push(91u8);
    r.push(79u8);
    r.push(107u8);
    r.push(93u8);
    r.push(32u8);
    r.push(67u8);
    r.push(104u8);
    r.push(97u8);
    r.push(110u8);
    r.push(103u8);
    r.push(101u8);
    r.push(100u8);
    r.push(32u8);
    r.push(99u8);
    r.push(117u8);
    r.push(114u8);
    r.push(114u8);
    r.push(101u8);
    r.push(110u8);
    r.push(116u8);
    r.push(32u8);
    r.push(100u8);
    r.push(105u8);
    r.push(114u8);
    r.push(32u8);
    r.push(116u8);
    r.push(111u8);
    r.push(32u8);
    r.push(34u8);
    let t = trim_zeros(nm);
    append_bytes(&mut r, &t);
    r.push(34u8);
    proof {
        assert(r@ =~= msg_changed(trim0(nm@)));
    }
    r
}

/// Message: no child of that name.
pub open spec fn msg_no_folder(nm: Seq<u8>) -> Seq<u8> {
    seq![10u8, 70u8, 111u8, 108u8, 100u8, 101u8, 114u8, 32u8, 34u8] + nm + seq![34u8, 32u8, 100u8, 111u8, 101u8, 115u8, 110u8, 39u8, 116u8, 32u8, 101u8, 120u8, 105u8, 115u8, 116u8, 33u8]
}

/// Build `msg_no_folder` around the trimmed name.
pub fn build_no_folder(nm: &Vec<u8>) -> (r: Vec<u8>)
    ensures
        r@ == msg_no_folder(trim0(nm@)),
{
    let mut r: Vec<u8> = Vec::new();
    r.push(10u8);
    r.push(70u8);
    r.push(111u8);
    r.push(108u8);
    r.push(100u8);
    r.push(101u8);
    r.push(114u8);
    r.push(32u8);
    r.push(34u8);
    let t = trim_zeros(nm);
    append_bytes(&mut r, &t);
    r.push(34u8);
    r.push(32u8);
    r.push(100u8);
    r.push(111u8);
    r.push(101u8);
    r.push(115u8);
    r.push(110u8);
    r.push(39u8);
    r.push(116u8);
    r.push(32u8);
    r.push(101u8);
    r.push(120u8);
    r.push(105u8);
    r.push(115u8);
    r.push(116u8);
    r.push(33u8);
    proof {
        assert(r@ =~= msg_no_folder(trim0(nm@)));
    }
    r
}

/// Message: a directory was removed.
pub open spec fn msg_removed(nm: Seq<u8>) -> Seq<u8> {
    seq![10u8, 91u8, 79u8, 107u8, 93u8, 32u8, 68u8, 105u8, 114u8, 101u8, 99u8, 116u8, 111u8, 114u8, 121u8, 32u8, 34u8] + nm + seq![34u8, 32u8, 114u8, 101u8, 109u8, 111u8, 118u8, 101u8, 100u8]
}

/// Build `msg_removed` around the trimmed name.
pub fn build_removed(nm: &Vec<u8>) -> (r: Vec<u8>)
    ensures
        r@ == msg_removed(trim0(nm@)),
{
    let mut r: Vec<u8> = Vec::new();
    r.push(10u8);
    r.push(91u8);
    r.push(79u8);
    r.push(107u8);
    r.push(93u8);
    r.push(32u8);
    r.push(68u8);
    r.push(105u8);
    r.push(114u8);
    r.push(101u8);
    r.push(99u8);
    r.push(116u8);
    r.push(111u8);
    r.push(114u8);
    r.push(121u8);
    r.push(32u8);
    r.push(34u8);
    let t = trim_zeros(nm);
    append_bytes(&mut r, &t);
    r.push(34u8);
    r.push(32u8);
    r.push(114u8);
    r.push(101u8);
    r.push(109u8);
    r.push(111u8);
    r.push(118u8);
    r.push(101u8);
    r.push(100u8);
    proof {
        assert(r@ =~= msg_removed(trim0(nm@)));
    }
    r
}

/// Message: the command token matched nothing.
pub open spec fn msg_unsupported(nm: Seq<u8>) -> Seq<u8> {
    seq![10u8, 10u8, 91u8, 69u8, 114u8, 114u8, 111u8, 114u8, 93u8, 32u8, 67u8, 111u8, 109u8, 109u8, 97u8, 110u8, 100u8, 32u8, 34u8] + nm + seq![34u8, 32u8, 105u8, 115u8, 32u8, 110u8, 111u8, 116u8, 32u8, 115u8, 117u8, 112u8, 112u8, 111u8, 114u8, 116u8, 101u8, 100u8, 33u8]
}

/// Build `msg_unsupported` around the trimmed name.
pub fn build_unsupported(nm: &Vec<u8>) -> (r: Vec<u8>)
    ensures
        r@ == msg_unsupported(trim0(nm@)),
{
    let mut r: Vec<u8> = Vec::new();
    r.push(10u8);
    r.push(10u8);
    r.push(91u8);
    r.push(69u8);
    r.push(114u8);
    r.push(114u8);
    r.push(111u8);
    r.push(114u8);
    r.push(93u8);
    r.push(32u8);
    r.push(67u8);
    r.push(111u8);
    r.push(109u8);
    r.push(109u8);
    r.push(97u8);
    r.push(110u8);
    r.push(100u8);
    r.push(32u8);
    r.push(34u8);
    let t = trim_zeros(nm);
    append_bytes(&mut r, &t);
    r.push(34u8);
    r.push(32u8);
    r.push(105u8);
    r.push(115u8);
    r.push(32u8);
    r.push(110u8);
    r.push(111u8);
    r.push(116u8);
    r.push(32u8);
    r.push(115u8);
    r.push(117u8);
    r.push(112u8);
    r.push(112u8);
    r.push(111u8);
    r.push(114u8);
    r.push(116u8);
    r.push(101u8);
    r.push(100u8);
    r.push(33u8);
    proof {
        assert(r@ =~= msg_unsupported(trim0(nm@)));
    }
    r
}

/// `k` space bytes: the indentation of one tree line.
pub open spec fn spaces(k: nat) -> Seq<u8> {
    Seq::new(k, |i: int| 32u8)
}

/// Append `k` space bytes to `dst`.
pub fn push_spaces(dst: &mut Vec<u8>, k: usize)
    ensures
        final(dst)@ == old(dst)@ + spaces(k as nat),
{
    let mut i: usize = 0;
    while i < k
        invariant
            0 <= i <= k,
            dst@ == old(dst)@ + spaces(i as nat),
        decreases k - i,
    {
        dst.push(32);
        proof {
            assert((old(dst)@ + spaces(i as nat)).push(32u8) =~= old(dst)@ + spaces(
                i as nat + 1,
            ));
        }
        i = i + 1;
    }
}

} // verus!
