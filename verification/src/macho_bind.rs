//! The bind opcodes of a Mach-O file (`LC_DYLD_INFO`), checked before the
//! imports are read from them.
//!
//! Reading the imports runs the bind opcode program: each bind records the
//! address `segment.vmaddr + offset` of segment `seg_index` for the dylib
//! of ordinal `ordinal`. The reader indexes the segment and dylib lists
//! with these numbers and adds the offset without checking, so a program
//! whose numbers are out of range cannot be read. `bind_safe` accepts a
//! program when every bind it makes names an existing segment and dylib
//! whose file offset and address plus the bind's offset stay within 64 bits,
//! the repeat step of a repeated bind stays within 64 bits, and it makes no
//! more binds than the file has bytes. The offset itself wraps at 64 bits,
//! as the reader's does. LEB128 numbers that the reader refuses (past ten
//! bytes, or a tenth byte out of range) and names without a terminating NUL
//! make the program unreadable as well.

use vstd::prelude::*;

verus! {

/// A bound on the unsigned LEB128 number made of the bytes from the `k`-th
/// on: `2 * 128^(9 - k)`, and `2^64` for the whole number.
pub open spec fn leb_cap(k: nat) -> int {
    if k >= 9 {
        2
    } else if k == 8 {
        0x100
    } else if k == 7 {
        0x8000
    } else if k == 6 {
        0x40_0000
    } else if k == 5 {
        0x2000_0000
    } else if k == 4 {
        0x10_0000_0000
    } else if k == 3 {
        0x800_0000_0000
    } else if k == 2 {
        0x4_0000_0000_0000
    } else if k == 1 {
        0x200_0000_0000_0000
    } else {
        0x1_0000_0000_0000_0000
    }
}

/// The unsigned LEB128 number at `off`, as its `k`-th byte on: its value
/// and the offset after it. `None` when it runs past the end of `data`, or
/// when its tenth byte is not 0 or 1 (the value would not fit in 64 bits).
pub open spec fn uleb(data: Seq<u8>, off: int, k: nat) -> Option<(int, int)>
    decreases 10 - k,
{
    if k >= 10 || off < 0 || off >= data.len() {
        None
    } else if k == 9 {
        if data[off] <= 1 {
            Some((data[off] as int, off + 1))
        } else {
            None
        }
    } else if data[off] < 128 {
        Some((data[off] as int, off + 1))
    } else {
        match uleb(data, off + 1, k + 1) {
            Some((v, n)) => Some((data[off] - 128 + 128 * v, n)),
            None => None,
        }
    }
}

/// The offset after the signed LEB128 number at `off`, as its `k`-th byte
/// on; `None` when it runs past the end of `data`, or when its tenth byte is
/// not 0 or `0x7f`.
pub open spec fn sleb_end(data: Seq<u8>, off: int, k: nat) -> Option<int>
    decreases 10 - k,
{
    if k >= 10 || off < 0 || off >= data.len() {
        None
    } else if k == 9 {
        if data[off] == 0 || data[off] == 0x7f {
            Some(off + 1)
        } else {
            None
        }
    } else if data[off] < 128 {
        Some(off + 1)
    } else {
        sleb_end(data, off + 1, k + 1)
    }
}

/// The offset after the NUL that ends the name at `off`; `None` when no NUL
/// follows.
pub open spec fn cstr_end(data: Seq<u8>, off: int) -> Option<int>
    decreases data.len() - off,
{
    if off < 0 || off >= data.len() {
        None
    } else if data[off] == 0 {
        Some(off + 1)
    } else {
        cstr_end(data, off + 1)
    }
}

/// The state of the bind program: the segment, the offset in it and the
/// dylib ordinal of the next bind, and the binds made so far.
pub struct BindState {
    pub seg_index: int,
    pub seg_offset: int,
    pub ordinal: int,
    pub made: int,
}

/// The state at the start of a run and after `DONE`.
pub open spec fn fresh(made: int) -> BindState {
    BindState { seg_index: 0, seg_offset: 0, ordinal: 0, made }
}

/// Whether a bind in state `st` can be made: its segment and dylib exist,
/// the segment's file offset and address plus the offset stay within 64
/// bits, and it is not beyond the `limit`-th bind.
pub open spec fn bind_ok(st: BindState, segs: Seq<(u64, u64)>, libs: int, limit: int) -> bool {
    &&& 0 <= st.seg_index < segs.len()
    &&& 0 <= st.ordinal < libs
    &&& 0 <= st.seg_offset
    &&& segs[st.seg_index].0 + st.seg_offset <= u64::MAX
    &&& segs[st.seg_index].1 + st.seg_offset <= u64::MAX
    &&& st.made + 1 <= limit
}

/// The 64-bit wrapping sum: `x` less `2^64` when it exceeds `u64::MAX`.
pub open spec fn wrap64(x: int) -> int {
    if x > u64::MAX {
        x - 0x1_0000_0000_0000_0000
    } else {
        x
    }
}

/// The state after one bind that moves the offset on by `t`.
pub open spec fn bound_once(st: BindState, t: int) -> BindState {
    BindState { seg_offset: wrap64(st.seg_offset + t), made: st.made + 1, ..st }
}

/// Whether the `c` binds of a repeated bind, `t` apart, can be made from
/// state `st`.
pub open spec fn times_ok(st: BindState, c: int, t: int, segs: Seq<(u64, u64)>, libs: int, limit: int) -> bool
    decreases c,
{
    if c <= 0 {
        true
    } else {
        bind_ok(st, segs, libs, limit) && times_ok(bound_once(st, t), c - 1, t, segs, libs, limit)
    }
}

/// The state after the `c` binds of a repeated bind, `t` apart.
pub open spec fn times_end(st: BindState, c: int, t: int) -> BindState
    decreases c,
{
    if c <= 0 {
        st
    } else {
        times_end(bound_once(st, t), c - 1, t)
    }
}

/// Whether the bind program from `pos` to `end`, in state `st`, makes only
/// binds that `bind_ok` accepts. `size` is the pointer size. The program
/// stops where `data` ends.
pub open spec fn bind_run_ok(data: Seq<u8>, pos: int, end: int, st: BindState, segs: Seq<(u64, u64)>, libs: int, size: int) -> bool
    decreases data.len() - pos,
{
    let limit = data.len() as int;
    if pos < 0 || pos >= end || pos >= data.len() {
        true
    } else {
        let hi = data[pos] / 16;
        let imm = data[pos] % 16;
        let next = pos + 1;
        if hi == 0 {
            bind_run_ok(data, next, end, fresh(st.made), segs, libs, size)
        } else if hi == 1 {
            bind_run_ok(data, next, end, BindState { ordinal: imm as int, ..st }, segs, libs, size)
        } else if hi == 2 {
            match uleb(data, next, 0) {
                Some((v, n)) => pos < n <= data.len() && bind_run_ok(data, n, end, BindState { ordinal: v % 256, ..st }, segs, libs, size),
                None => false,
            }
        } else if hi == 4 {
            match cstr_end(data, next) {
                Some(n) => pos < n <= data.len() && bind_run_ok(data, n, end, st, segs, libs, size),
                None => false,
            }
        } else if hi == 6 {
            match sleb_end(data, next, 0) {
                Some(n) => pos < n <= data.len() && bind_run_ok(data, n, end, st, segs, libs, size),
                None => false,
            }
        } else if hi == 7 {
            match uleb(data, next, 0) {
                Some((v, n)) => pos < n <= data.len() && bind_run_ok(
                    data,
                    n,
                    end,
                    BindState { seg_index: imm as int, seg_offset: v, ..st },
                    segs,
                    libs,
                    size,
                ),
                None => false,
            }
        } else if hi == 8 {
            match uleb(data, next, 0) {
                Some((v, n)) => pos < n <= data.len() && bind_run_ok(
                    data,
                    n,
                    end,
                    BindState { seg_offset: wrap64(st.seg_offset + v), ..st },
                    segs,
                    libs,
                    size,
                ),
                None => false,
            }
        } else if hi == 9 {
            &&& bind_ok(st, segs, libs, limit)
            &&& bind_run_ok(
                data,
                next,
                end,
                bound_once(st, size),
                segs,
                libs,
                size,
            )
        } else if hi == 10 {
            bind_ok(st, segs, libs, limit) && match uleb(data, next, 0) {
                Some((v, n)) => pos < n <= data.len() && bind_run_ok(
                    data,
                    n,
                    end,
                    BindState { seg_offset: wrap64(wrap64(st.seg_offset + v) + size), made: st.made + 1, ..st },
                    segs,
                    libs,
                    size,
                ),
                None => false,
            }
        } else if hi == 11 {
            &&& bind_ok(st, segs, libs, limit)
            &&& bind_run_ok(
                data,
                next,
                end,
                BindState { seg_offset: wrap64(wrap64(st.seg_offset + imm * size) + size), made: st.made + 1, ..st },
                segs,
                libs,
                size,
            )
        } else if hi == 12 {
            match uleb(data, next, 0) {
                Some((c, n1)) => match uleb(data, n1, 0) {
                    Some((s, n2)) => {
                        let t = s + size;
                        &&& pos < n2 <= data.len()
                        &&& t <= u64::MAX
                        &&& times_ok(st, c, t, segs, libs, limit)
                        &&& bind_run_ok(data, n2, end, times_end(st, c, t), segs, libs, size)
                    },
                    None => false,
                },
                None => false,
            }
        } else {
            bind_run_ok(data, next, end, st, segs, libs, size)
        }
    }
}

/// The end of the range of `size` bytes at `off`, saturated at the largest
/// address.
pub open spec fn range_end(off: u32, size: u32) -> int {
    if off + size > usize::MAX {
        usize::MAX as int
    } else {
        off + size
    }
}

/// Whether the bind programs of a Mach-O file with layout `lay` (the
/// `LC_DYLD_INFO` ranges, in order, the segments' file offsets and
/// addresses, the number of dylibs, and whether it is a 64-bit file) can be
/// read: those of the last `LC_DYLD_INFO` command, the immediate and the
/// lazy one.
pub open spec fn bind_safe(data: Seq<u8>, lay: (Seq<(u32, u32, u32, u32)>, Seq<(u64, u64)>, usize, bool)) -> bool {
    lay.0.len() == 0 || {
        let r = lay.0.last();
        let size: int = if lay.3 { 8 } else { 4 };
        &&& bind_run_ok(data, r.0 as int, range_end(r.0, r.1), fresh(0), lay.1, lay.2 as int, size)
        &&& bind_run_ok(data, r.2 as int, range_end(r.2, r.3), fresh(0), lay.1, lay.2 as int, size)
    }
}

/// The unsigned LEB128 number at `off`, as its `k`-th byte on.
fn read_uleb(data: &[u8], off: usize, k: usize) -> (r: Option<(u64, usize)>)
    requires
        k <= 9,
    ensures
        match uleb(data@, off as int, k as nat) {
            Some((v, n)) => r matches Some((rv, rn)) && rv == v && rn == n && off < rn <= data@.len(),
            None => r is None,
        },
        r matches Some((rv, rn)) ==> rv < leb_cap(k as nat),
    decreases 9 - k,
{
    if off >= data.len() {
        return None;
    }
    let b = data[off];
    if k == 9 {
        if b <= 1 {
            return Some((b as u64, off + 1));
        } else {
            return None;
        }
    }
    if b < 128 {
        return Some((b as u64, off + 1));
    }
    match read_uleb(data, off + 1, k + 1) {
        Some((v, n)) => {
            assert(leb_cap(k as nat) == 128 * leb_cap((k + 1) as nat));
            Some(((b - 128) as u64 + 128 * v, n))
        },
        None => None,
    }
}

/// The offset after the signed LEB128 number at `off`.
fn skip_sleb(data: &[u8], off: usize) -> (r: Option<usize>)
    ensures
        r matches Some(n) ==> sleb_end(data@, off as int, 0) == Some(n as int),
        r is None ==> sleb_end(data@, off as int, 0) is None,
        r matches Some(n) ==> off < n <= data@.len(),
{
    let mut i: usize = off;
    let mut k: usize = 0;
    while k < 10
        invariant
            off <= i,
            i == off + k,
            k <= 10,
            sleb_end(data@, off as int, 0) == sleb_end(data@, i as int, k as nat),
        decreases 10 - k,
    {
        if i >= data.len() {
            return None;
        }
        if k == 9 {
            if data[i] == 0 || data[i] == 0x7f {
                return Some(i + 1);
            } else {
                return None;
            }
        }
        if data[i] < 128 {
            return Some(i + 1);
        }
        i = i + 1;
        k = k + 1;
    }
    None
}

/// The 64-bit wrapping sum of `a` and `b`.
fn wrap_add(a: u64, b: u64) -> (r: u64)
    ensures
        r == wrap64(a + b),
{
    let x: u128 = a as u128 + b as u128;
    if x > u64::MAX as u128 {
        (x - 0x1_0000_0000_0000_0000) as u64
    } else {
        x as u64
    }
}

/// The offset after the NUL that ends the name at `off`.
fn skip_cstr(data: &[u8], off: usize) -> (r: Option<usize>)
    ensures
        r matches Some(n) ==> cstr_end(data@, off as int) == Some(n as int),
        r is None ==> cstr_end(data@, off as int) is None,
        r matches Some(n) ==> off < n <= data@.len(),
{
    let mut i: usize = off;
    while i < data.len()
        invariant
            off <= i,
            cstr_end(data@, off as int) == cstr_end(data@, i as int),
        decreases data.len() - i,
    {
        if data[i] == 0 {
            return Some(i + 1);
        }
        i = i + 1;
    }
    None
}

/// Whether a bind in the given state can be made.
fn bind_allowed(seg_index: u64, seg_offset: u64, ordinal: u64, made: u64, segs: &Vec<(u64, u64)>, libs: usize, limit: u64) -> (b: bool)
    ensures
        b == bind_ok(
            BindState { seg_index: seg_index as int, seg_offset: seg_offset as int, ordinal: ordinal as int, made: made as int },
            segs@,
            libs as int,
            limit as int,
        ),
{
    if seg_index >= segs.len() as u64 || ordinal >= libs as u64 || made >= limit {
        return false;
    }
    let (fileoff, vmaddr) = segs[seg_index as usize];
    (fileoff as u128 + seg_offset as u128 <= u64::MAX as u128) && (vmaddr as u128 + seg_offset as u128 <= u64::MAX as u128)
}

/// Check the bind program from `start` to `end`: `bind_run_ok` from a fresh state.
#[verifier::rlimit(80)]
#[verifier::spinoff_prover]
pub fn bind_run_check(data: &[u8], start: usize, end: usize, segs: &Vec<(u64, u64)>, libs: usize, size: u64) -> (b: bool)
    requires
        size == 4 || size == 8,
    ensures
        b == bind_run_ok(data@, start as int, end as int, fresh(0), segs@, libs as int, size as int),
{
    let ghost goal = bind_run_ok(data@, start as int, end as int, fresh(0), segs@, libs as int, size as int);
    let limit = data.len() as u64;
    let mut pos: usize = start;
    let mut seg_index: u64 = 0;
    let mut seg_offset: u64 = 0;
    let mut ordinal: u64 = 0;
    let mut made: u64 = 0;
    while pos < end && pos < data.len()
        invariant
            size == 4 || size == 8,
            limit == data@.len(),
            made <= limit,
            goal == bind_run_ok(data@, start as int, end as int, fresh(0), segs@, libs as int, size as int),
            goal == bind_run_ok(
                data@,
                pos as int,
                end as int,
                BindState { seg_index: seg_index as int, seg_offset: seg_offset as int, ordinal: ordinal as int, made: made as int },
                segs@,
                libs as int,
                size as int,
            ),
        decreases data.len() - pos,
    {
        let op = data[pos];
        let hi = op / 16;
        let imm = op % 16;
        let next = pos + 1;
        if hi == 0 {
            seg_index = 0;
            seg_offset = 0;
            ordinal = 0;
            pos = next;
        } else if hi == 1 {
            ordinal = imm as u64;
            pos = next;
        } else if hi == 2 {
            match read_uleb(data, next, 0) {
                Some((v, n)) => {
                    ordinal = v % 256;
                    pos = n;
                },
                None => return false,
            }
        } else if hi == 4 {
            match skip_cstr(data, next) {
                Some(n) => pos = n,
                None => return false,
            }
        } else if hi == 6 {
            match skip_sleb(data, next) {
                Some(n) => pos = n,
                None => return false,
            }
        } else if hi == 7 {
            match read_uleb(data, next, 0) {
                Some((v, n)) => {
                    seg_index = imm as u64;
                    seg_offset = v;
                    pos = n;
                },
                None => return false,
            }
        } else if hi == 8 {
            match read_uleb(data, next, 0) {
                Some((v, n)) => {
                    seg_offset = wrap_add(seg_offset, v);
                    pos = n;
                },
                None => return false,
            }
        } else if hi == 9 {
            if !bind_allowed(seg_index, seg_offset, ordinal, made, segs, libs, limit) {
                return false;
            }
            seg_offset = wrap_add(seg_offset, size);
            made = made + 1;
            pos = next;
        } else if hi == 10 {
            if !bind_allowed(seg_index, seg_offset, ordinal, made, segs, libs, limit) {
                return false;
            }
            match read_uleb(data, next, 0) {
                Some((v, n)) => {
                    seg_offset = wrap_add(wrap_add(seg_offset, v), size);
                    made = made + 1;
                    pos = n;
                },
                None => return false,
            }
        } else if hi == 11 {
            if !bind_allowed(seg_index, seg_offset, ordinal, made, segs, libs, limit) {
                return false;
            }
            assert(imm * size <= 120) by (nonlinear_arith)
                requires
                    imm < 16,
                    size <= 8,
            ;
            seg_offset = wrap_add(wrap_add(seg_offset, imm as u64 * size), size);
            made = made + 1;
            pos = next;
        } else if hi == 12 {
            let (c, n1) = match read_uleb(data, next, 0) {
                Some(x) => x,
                None => return false,
            };
            let (s, n2) = match read_uleb(data, n1, 0) {
                Some(x) => x,
                None => return false,
            };
            if s as u128 + size as u128 > u64::MAX as u128 {
                return false;
            }
            let t: u64 = s + size;
            let mut i: u64 = 0;
            while i < c
                invariant
                    size == 4 || size == 8,
                    limit == data@.len(),
                    made <= limit,
                    i <= c,
                    pos < n2 <= data@.len(),
                    goal == bind_run_ok(data@, start as int, end as int, fresh(0), segs@, libs as int, size as int),
                    goal == (times_ok(
                        BindState { seg_index: seg_index as int, seg_offset: seg_offset as int, ordinal: ordinal as int, made: made as int },
                        c - i,
                        t as int,
                        segs@,
                        libs as int,
                        limit as int,
                    ) && bind_run_ok(
                        data@,
                        n2 as int,
                        end as int,
                        times_end(
                            BindState { seg_index: seg_index as int, seg_offset: seg_offset as int, ordinal: ordinal as int, made: made as int },
                            c - i,
                            t as int,
                        ),
                        segs@,
                        libs as int,
                        size as int,
                    )),
                decreases c - i,
            {
                if !bind_allowed(seg_index, seg_offset, ordinal, made, segs, libs, limit) {
                    return false;
                }
                seg_offset = wrap_add(seg_offset, t);
                made = made + 1;
                i = i + 1;
            }
            pos = n2;
        } else {
            pos = next;
        }
    }
    true
}

/// Check the bind programs of a Mach-O file with layout `lay`.
pub fn bind_stream_safe(data: &[u8], ranges: &Vec<(u32, u32, u32, u32)>, segs: &Vec<(u64, u64)>, libs: usize, is_64: bool) -> (b: bool)
    ensures
        b == bind_safe(data@, (ranges@, segs@, libs, is_64)),
{
    if ranges.len() == 0 {
        return true;
    }
    let r = ranges[ranges.len() - 1];
    let size: u64 = if is_64 { 8 } else { 4 };
    let end0: usize = if r.0 as u128 + r.1 as u128 > usize::MAX as u128 { usize::MAX } else { (r.0 as u128 + r.1 as u128) as usize };
    let end1: usize = if r.2 as u128 + r.3 as u128 > usize::MAX as u128 { usize::MAX } else { (r.2 as u128 + r.3 as u128) as usize };
    bind_run_check(data, r.0 as usize, end0, segs, libs, size) && bind_run_check(data, r.2 as usize, end1, segs, libs, size)
}

} // verus!
