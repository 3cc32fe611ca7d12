//! Sparse members of tar files whose size is out of all proportion.
//!
//! A GNU header of a sparse member may announce further blocks behind it. The
//! position of the next header is then the size of the member further on, plus
//! these blocks. With sizes in the upper half of the range of `u64` that position
//! may not fit.

use vstd::prelude::*;

verus! {

/// The length of a header, and the distance between places where one may stand.
pub const BLOCK_LEN: usize = 512;

/// The type byte of a sparse member.
pub const TAR_SPARSE: u8 = 83;

/// The type byte of a header with the long name of the next member.
pub const TAR_LONG_NAME: u8 = 76;

/// The type byte of a header with the long target of the next member.
pub const TAR_LONG_LINK: u8 = 75;

/// The type byte of a header with records about the next member.
pub const TAR_RECORDS: u8 = 120;

/// The mark of a GNU header: `ustar`, two spaces and a zero.
pub open spec fn gnu_mark() -> Seq<u8> {
    seq![117u8, 115u8, 116u8, 97u8, 114u8, 32u8, 32u8, 0u8]
}

/// Whether at `at` stands a block that can be the GNU header of a sparse member
/// with further blocks.
pub open spec fn is_extended_header(bytes: Seq<u8>, at: int) -> bool {
    &&& 0 <= at
    &&& at % BLOCK_LEN as int == 0
    &&& at + BLOCK_LEN <= bytes.len()
    &&& bytes[at + 156] == TAR_SPARSE
    &&& bytes.subrange(at + 257, at + 265) == gnu_mark()
    &&& bytes[at + 482] == 1
}

/// Whether the size field of the header at `at` holds a number of 2^63 or more.
/// Only a binary field can: its first bit is set, and its last eight bytes are
/// the number.
pub open spec fn has_huge_field(bytes: Seq<u8>, at: int) -> bool {
    bytes[at + 124] >= 128 && bytes[at + 128] >= 128
}

/// The number in a binary field: its last eight bytes, the most significant
/// first.
pub open spec fn binary_number(bytes: Seq<u8>, from: int, n: nat) -> nat
    decreases n,
{
    if n == 0 {
        0
    } else {
        binary_number(bytes, from, (n - 1) as nat) * 256 + bytes[from + n - 1] as nat
    }
}

/// The number in a text field: its octal digits, up to a zero byte. In a field
/// that holds a number nothing else stands there but a sign and white space.
pub open spec fn octal_number(bytes: Seq<u8>, from: int, n: nat) -> nat
    decreases n,
{
    if n == 0 {
        0
    } else {
        let before = octal_number(bytes, from, (n - 1) as nat);
        let b = bytes[from + n - 1];
        if 48 <= b <= 55 && no_zero(bytes, from, from + n) {
            before * 8 + (b - 48) as nat
        } else {
            before
        }
    }
}

/// Whether no byte of a part is zero.
pub open spec fn no_zero(bytes: Seq<u8>, from: int, to: int) -> bool {
    forall|i: int| from <= i < to ==> #[trigger] bytes[i] != 0
}

/// The number in the size field of the header at `at`.
pub open spec fn field_size(bytes: Seq<u8>, at: int) -> nat {
    if bytes[at + 124] >= 128 {
        binary_number(bytes, at + 128, 8)
    } else {
        octal_number(bytes, at + 124, 12)
    }
}

/// Where the content of the member with the header at `at` ends.
pub open spec fn content_end(bytes: Seq<u8>, at: int) -> int {
    at + BLOCK_LEN + field_size(bytes, at)
}

/// Where the header behind the member with the header at `at` stands: its content
/// fills whole blocks.
pub open spec fn next_header(bytes: Seq<u8>, at: int) -> int {
    at + 512 * (1 + (field_size(bytes, at) + 511) / 512)
}

/// Whether a byte is a decimal digit.
pub open spec fn is_digit_byte(b: u8) -> bool {
    48 <= b <= 57
}

/// Where the digits begin if at `at` stands a value with or without a plus sign.
pub open spec fn digits_from(bytes: Seq<u8>, at: int) -> int {
    if 0 <= at < bytes.len() && bytes[at] == 43 {
        at + 1
    } else {
        at
    }
}

/// Whether at `at` stands the value of a record ` size=` behind a length, with
/// nineteen digits or more: a number of 2^63 or more has no fewer. The record
/// stands between `low` and `high`.
pub open spec fn is_huge_record(bytes: Seq<u8>, low: int, high: int, at: int) -> bool {
    let from = digits_from(bytes, at);
    &&& low + 7 <= at
    &&& from + 19 <= high
    &&& is_digit_byte(bytes[at - 7])
    &&& bytes.subrange(at - 6, at) == seq![32u8, 115u8, 105u8, 122u8, 101u8, 61u8]
    &&& forall|i: int| from <= i < from + 19 ==> is_digit_byte(#[trigger] bytes[i])
}

/// Whether at `at` stands a header of records about the next member, one of which
/// gives a size that may be 2^63 or more.
pub open spec fn has_huge_record(bytes: Seq<u8>, at: int) -> bool {
    &&& 0 <= at
    &&& at % BLOCK_LEN as int == 0
    &&& at + BLOCK_LEN <= bytes.len()
    &&& bytes[at + 156] == TAR_RECORDS
    &&& content_end(bytes, at) <= bytes.len()
    &&& exists|p: int| #[trigger]
        is_huge_record(bytes, at + BLOCK_LEN, content_end(bytes, at), p)
}

/// Whether the next member from `at` on, behind headers that only hold its long
/// name or target, has such a header of a sparse member.
pub open spec fn leads_to_extended(bytes: Seq<u8>, at: int) -> bool
    decreases
        (if at < bytes.len() {
            bytes.len() - at
        } else {
            0
        }),
{
    if at < 0 || at + BLOCK_LEN > bytes.len() {
        false
    } else if bytes[at + 156] == TAR_LONG_NAME || bytes[at + 156] == TAR_LONG_LINK {
        leads_to_extended(bytes, next_header(bytes, at))
    } else {
        is_extended_header(bytes, at)
    }
}

/// Whether the header at `at` may be that of a sparse member with further blocks
/// whose size is 2^63 or more, or hold the record that says so of the member that
/// it goes with.
pub open spec fn is_oversized_at(bytes: Seq<u8>, at: int) -> bool {
    ||| is_extended_header(bytes, at) && has_huge_field(bytes, at)
    ||| has_huge_record(bytes, at) && leads_to_extended(bytes, next_header(bytes, at))
}

/// Whether the bytes may hold a sparse member with further blocks whose size is
/// 2^63 or more, be it by its header or by a record that goes with it.
pub open spec fn may_overflow(bytes: Seq<u8>) -> bool {
    exists|at: int| #[trigger] is_oversized_at(bytes, at)
}

fn extended_header(bytes: &Vec<u8>, at: usize) -> (r: bool)
    requires
        at + BLOCK_LEN <= bytes@.len(),
        at % BLOCK_LEN == 0,
    ensures
        r == is_extended_header(bytes@, at as int),
{
    let marked: bool = bytes[at + 257] == 117 && bytes[at + 258] == 115 && bytes[at + 259] == 116
        && bytes[at + 260] == 97 && bytes[at + 261] == 114 && bytes[at + 262] == 32 && bytes[at
        + 263] == 32 && bytes[at + 264] == 0;
    proof {
        let mark = bytes@.subrange(at + 257, at + 265);
        if marked {
            assert(mark =~= gnu_mark());
        } else if mark == gnu_mark() {
            assert(mark[0] == 117 && mark[1] == 115 && mark[2] == 116 && mark[3] == 97 && mark[4]
                == 114 && mark[5] == 32 && mark[6] == 32 && mark[7] == 0);
        }
    }
    bytes[at + 156] == TAR_SPARSE && marked && bytes[at + 482] == 1
}

fn huge_record(bytes: &Vec<u8>, low: usize, high: usize, at: usize) -> (r: bool)
    requires
        low + 7 <= at < high <= bytes@.len(),
    ensures
        r == is_huge_record(bytes@, low as int, high as int, at as int),
{
    let named: bool = bytes[at - 6] == 32 && bytes[at - 5] == 115 && bytes[at - 4] == 105
        && bytes[at - 3] == 122 && bytes[at - 2] == 101 && bytes[at - 1] == 61;
    proof {
        let key = bytes@.subrange(at - 6, at as int);
        let want = seq![32u8, 115u8, 105u8, 122u8, 101u8, 61u8];
        if named {
            assert(key =~= want);
        } else if key == want {
            assert(key[0] == 32 && key[1] == 115 && key[2] == 105 && key[3] == 122 && key[4] == 101
                && key[5] == 61);
        }
    }
    if !named || bytes[at - 7] < 48 || bytes[at - 7] > 57 {
        return false;
    }
    let from: usize = if bytes[at] == 43 {
        at + 1
    } else {
        at
    };
    if high - from < 19 {
        return false;
    }
    let to: usize = from + 19;
    let mut i: usize = from;
    while i < to
        invariant
            from <= i <= to <= bytes@.len(),
            to == from + 19,
            from == digits_from(bytes@, at as int),
            forall|k: int| from <= k < i ==> is_digit_byte(#[trigger] bytes@[k]),
        decreases to - i,
    {
        if bytes[i] < 48 || bytes[i] > 57 {
            assert(!is_digit_byte(bytes@[i as int]));
            return false;
        }
        i += 1;
    }
    true
}

fn binary_field(bytes: &Vec<u8>, from: usize) -> (r: u64)
    requires
        from + 8 <= bytes@.len(),
    ensures
        r == binary_number(bytes@, from as int, 8),
{
    let len: usize = bytes.len();
    let mut r: u64 = 0;
    let mut n: usize = 0;
    let ghost mut bound: nat = 1;
    while n < 8
        invariant
            n <= 8,
            from + 8 <= len == bytes@.len(),
            r == binary_number(bytes@, from as int, n as nat),
            r < bound,
            bound == power(256, n as nat),
        decreases 8 - n,
    {
        proof {
            lemma_powers();
            assert(bound * 256 == power(256, (n + 1) as nat));
            assert(bound <= power(256, 7));
        }
        r = r * 256 + bytes[from + n] as u64;
        n += 1;
        proof {
            bound = bound * 256;
        }
    }
    r
}

/// A power of a number.
spec fn power(base: nat, n: nat) -> nat
    decreases n,
{
    if n == 0 {
        1
    } else {
        power(base, (n - 1) as nat) * base
    }
}

proof fn lemma_powers()
    ensures
        power(256, 0) == 1,
        power(256, 1) == 0x100,
        power(256, 2) == 0x1_0000,
        power(256, 3) == 0x100_0000,
        power(256, 4) == 0x1_0000_0000,
        power(256, 5) == 0x100_0000_0000,
        power(256, 6) == 0x1_0000_0000_0000,
        power(256, 7) == 0x100_0000_0000_0000,
        power(256, 8) == 0x1_0000_0000_0000_0000,
        power(8, 12) == 0x10_0000_0000,
{
    reveal_with_fuel(power, 13);
}

proof fn lemma_power_grows(base: nat, a: nat, b: nat)
    requires
        base >= 1,
        a <= b,
    ensures
        1 <= power(base, a) <= power(base, b),
    decreases b,
{
    if a < b {
        lemma_power_grows(base, a, (b - 1) as nat);
        let p = power(base, (b - 1) as nat);
        assert(p * base >= p) by (nonlinear_arith)
            requires
                base >= 1,
        ;
    } else if a > 0 {
        lemma_power_grows(base, (a - 1) as nat, (a - 1) as nat);
        let p = power(base, (a - 1) as nat);
        assert(p * base >= 1) by (nonlinear_arith)
            requires
                base >= 1,
                p >= 1,
        ;
    }
}

fn octal_field(bytes: &Vec<u8>, from: usize) -> (r: u64)
    requires
        from + 12 <= bytes@.len(),
    ensures
        r == octal_number(bytes@, from as int, 12),
{
    let len: usize = bytes.len();
    let mut r: u64 = 0;
    let mut n: usize = 0;
    let mut open: bool = true;
    while n < 12
        invariant
            n <= 12,
            from + 12 <= len == bytes@.len(),
            r == octal_number(bytes@, from as int, n as nat),
            r < power(8, n as nat),
            open == no_zero(bytes@, from as int, from + n),
        decreases 12 - n,
    {
        let b: u8 = bytes[from + n];
        proof {
            lemma_powers();
            lemma_power_grows(8, (n + 1) as nat, 12);
            assert(power(8, (n + 1) as nat) == power(8, n as nat) * 8);
            if b == 0 {
                assert(!no_zero(bytes@, from as int, from + n + 1));
            }
        }
        if b == 0 {
            open = false;
        }
        if open && 48 <= b && b <= 55 {
            r = r * 8 + (b - 48) as u64;
        }
        n += 1;
    }
    r
}

fn size_field(bytes: &Vec<u8>, at: usize) -> (r: u64)
    requires
        at + BLOCK_LEN <= bytes@.len(),
    ensures
        r == field_size(bytes@, at as int),
{
    let len: usize = bytes.len();
    assert(at + BLOCK_LEN <= len);
    if bytes[at + 124] >= 128 {
        binary_field(bytes, at + 128)
    } else {
        octal_field(bytes, at + 124)
    }
}

/// Where the next header stands, if that is not behind the end.
fn header_behind(bytes: &Vec<u8>, at: usize) -> (r: Option<usize>)
    requires
        at + BLOCK_LEN <= bytes@.len(),
    ensures
        match r {
            Some(next) => next == next_header(bytes@, at as int) && at < next <= bytes@.len(),
            None => next_header(bytes@, at as int) > bytes@.len(),
        },
{
    let size: u64 = size_field(bytes, at);
    let len: usize = bytes.len();
    let rest: usize = len - at - BLOCK_LEN;
    if size > rest as u64 {
        return None;
    }
    let whole: usize = (size as usize) / 512;
    let blocks: usize = if (size as usize) % 512 == 0 {
        whole
    } else {
        whole + 1
    };
    proof {
        let n = size as int;
        assert((n + 511) / 512 == blocks) by {
            if n % 512 == 0 {
                assert((n + 511) / 512 == n / 512);
            } else {
                assert((n + 511) / 512 == n / 512 + 1);
            }
        }
    }
    if blocks > rest / 512 {
        return None;
    }
    Some(at + BLOCK_LEN + blocks * 512)
}

fn huge_record_in(bytes: &Vec<u8>, at: usize) -> (r: bool)
    requires
        at + BLOCK_LEN <= bytes@.len(),
        at % BLOCK_LEN == 0,
    ensures
        r == has_huge_record(bytes@, at as int),
{
    if bytes[at + 156] != TAR_RECORDS {
        return false;
    }
    let size: u64 = size_field(bytes, at);
    let len: usize = bytes.len();
    let low: usize = at + BLOCK_LEN;
    if size > (len - low) as u64 {
        return false;
    }
    let high: usize = low + size as usize;
    if high - low < 7 {
        return false;
    }
    let mut p: usize = low + 7;
    while p < high
        invariant
            low + 7 <= p <= high <= bytes@.len(),
            low == at + BLOCK_LEN,
            high == content_end(bytes@, at as int),
            bytes@[at + 156] == TAR_RECORDS,
            at % BLOCK_LEN == 0,
            forall|k: int|
                k < p ==> !#[trigger] is_huge_record(bytes@, low as int, high as int, k),
        decreases high - p,
    {
        if huge_record(bytes, low, high, p) {
            return true;
        }
        p += 1;
    }
    false
}

fn reaches_extended(bytes: &Vec<u8>, at: usize) -> (r: bool)
    requires
        at <= bytes@.len(),
        at % BLOCK_LEN == 0,
    ensures
        r == leads_to_extended(bytes@, at as int),
{
    let mut from: usize = at;
    while bytes.len() - from >= BLOCK_LEN
        invariant
            from <= bytes@.len(),
            from % BLOCK_LEN == 0,
            leads_to_extended(bytes@, at as int) == leads_to_extended(bytes@, from as int),
        decreases bytes.len() - from,
    {
        let kind: u8 = bytes[from + 156];
        if kind != TAR_LONG_NAME && kind != TAR_LONG_LINK {
            return extended_header(bytes, from);
        }
        match header_behind(bytes, from) {
            Some(next) => {
                from = next;
            },
            None => {
                assert(!leads_to_extended(bytes@, next_header(bytes@, from as int)));
                return false;
            },
        }
    }
    false
}

/// Whether the bytes may hold a sparse member with further blocks whose size is
/// 2^63 or more.
pub fn sparse_may_overflow(bytes: &Vec<u8>) -> (r: bool)
    ensures
        r == may_overflow(bytes@),
{
    let mut at: usize = 0;
    while bytes.len() - at >= BLOCK_LEN
        invariant
            at <= bytes@.len(),
            at % BLOCK_LEN == 0,
            forall|k: int| k < at ==> !#[trigger] is_oversized_at(bytes@, k),
        decreases bytes.len() - at,
    {
        if extended_header(bytes, at) && bytes[at + 124] >= 128 && bytes[at + 128] >= 128 {
            assert(is_oversized_at(bytes@, at as int));
            return true;
        }
        if huge_record_in(bytes, at) {
            match header_behind(bytes, at) {
                Some(next) => {
                    if reaches_extended(bytes, next) {
                        assert(is_oversized_at(bytes@, at as int));
                        return true;
                    }
                },
                None => {},
            }
        }
        at += BLOCK_LEN;
    }
    false
}

/// Bytes in which no header is that of a sparse member with further blocks are never
/// taken for ones that overflow; nor are bytes in which no such header has a size in
/// the upper half of the range and nothing gives a record of its own.
pub proof fn law_ordinary_files_pass(bytes: Seq<u8>)
    ensures
        (forall|at: int|
            0 <= at && at + 512 <= bytes.len() ==> bytes[at + 156] != 83 || #[trigger] bytes[at
                + 482] != 1) ==> !may_overflow(bytes),
        (forall|at: int|
            0 <= at && at + 512 <= bytes.len() ==> #[trigger] bytes[at + 124] < 128 && bytes[at
                + 156] != 120) ==> !may_overflow(bytes),
{
    if may_overflow(bytes) {
        let at = choose|at: int| #[trigger] is_oversized_at(bytes, at);
        if forall|at: int|
            0 <= at && at + 512 <= bytes.len() ==> bytes[at + 156] != 83 || #[trigger] bytes[at
                + 482] != 1 {
            if is_extended_header(bytes, at) {
                assert(bytes[at + 482] == 1);
            } else {
                lemma_leads_nowhere(bytes, next_header(bytes, at));
            }
        }
        if forall|at: int|
            0 <= at && at + 512 <= bytes.len() ==> #[trigger] bytes[at + 124] < 128 && bytes[at
                + 156] != 120 {
            assert(bytes[at + 124] < 128);
        }
    }
}

proof fn lemma_leads_nowhere(bytes: Seq<u8>, at: int)
    requires
        forall|at: int|
            0 <= at && at + 512 <= bytes.len() ==> bytes[at + 156] != 83 || #[trigger] bytes[at
                + 482] != 1,
    ensures
        !leads_to_extended(bytes, at),
    decreases
        (if at < bytes.len() {
            bytes.len() - at
        } else {
            0
        }),
{
    if 0 <= at && at + BLOCK_LEN <= bytes.len() {
        assert(bytes[at + 482] == bytes[at + 482]);
        if bytes[at + 156] == TAR_LONG_NAME || bytes[at + 156] == TAR_LONG_LINK {
            lemma_leads_nowhere(bytes, next_header(bytes, at));
        }
    }
}

} // verus!
