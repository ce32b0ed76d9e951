//! The part partitioner: cuts a sealed archive into the numbered parts of a
//! multipart upload, within the limits that the store imposes.

use vstd::prelude::*;
use vstd::slice::slice_subrange;
use vstd::slice::slice_to_vec;

verus! {

/// Smallest part that S3 accepts anywhere but at the end of an upload.
pub const S3_MIN_PART_SIZE: u64 = 5_242_880;

/// Largest part that S3 accepts.
pub const S3_MAX_PART_SIZE: u64 = 5_368_709_120;

/// Largest number of parts that S3 accepts in one upload.
pub const S3_MAX_PART_COUNT: u32 = 10_000;

/// Part size used when nothing else is configured.
pub const DEFAULT_PART_SIZE: u64 = 6_000_000;

/// What the store imposes on a multipart upload.
#[derive(Clone, Copy, Debug, PartialEq, Eq, Structural)]
pub struct StoreLimits {
    /// Smallest size of any part but the last.
    pub min_part_size: u64,
    /// Largest size of any part.
    pub max_part_size: u64,
    /// Largest number of parts in one upload.
    pub max_part_count: u32,
}

/// Why an archive cannot be partitioned as asked.
#[derive(Clone, Copy, Debug, PartialEq, Eq, Structural)]
pub enum PartitionError {
    /// The target part size is below the store's minimum.
    PartSizeTooSmall,
    /// The target part size is above the store's maximum.
    PartSizeTooLarge,
    /// Even parts of the maximum size would be more than the store accepts.
    ArchiveTooLarge,
}

/// One part of a multipart upload. Parts are numbered from one.
#[derive(Debug)]
pub struct UploadPart {
    pub part_number: u32,
    pub bytes: Vec<u8>,
}

/// `n / d`, rounded up.
pub open spec fn ceil_div(n: int, d: int) -> int
    recommends
        n >= 0,
        d > 0,
{
    (n + d - 1) / d
}

/// The number of parts of `size` bytes that `len` bytes are cut into.
pub open spec fn part_count(len: int, size: int) -> int
    recommends
        len >= 0,
        size > 0,
{
    ceil_div(len, size)
}

/// The part size that is used for `len` bytes: the target, unless that
/// would give more than `max_count` parts; then the smallest size that
/// does not.
pub open spec fn effective_part_size(len: int, target: int, max_count: int) -> int
    recommends
        len >= 0,
        target > 0,
        max_count > 0,
{
    if ceil_div(len, max_count) > target {
        ceil_div(len, max_count)
    } else {
        target
    }
}

/// Where part `i` (counted from zero) ends in an archive of `len` bytes.
pub open spec fn part_end(len: int, size: int, i: int) -> int {
    if (i + 1) * size < len {
        (i + 1) * size
    } else {
        len
    }
}

/// The bytes of part `i` (counted from zero).
pub open spec fn part_bytes(archive: Seq<u8>, size: int, i: int) -> Seq<u8> {
    archive.subrange(i * size, part_end(archive.len() as int, size, i))
}

/// `parts` is the archive cut into parts of `size` bytes, numbered from one.
pub open spec fn is_partition(archive: Seq<u8>, size: int, parts: Seq<UploadPart>) -> bool {
    &&& parts.len() == part_count(archive.len() as int, size)
    &&& forall|i: int|
        0 <= i < parts.len() ==> (#[trigger] parts[i]).part_number == i + 1 && parts[i].bytes@
            == part_bytes(archive, size, i)
}

/// The bytes of all parts, one after the other.
pub open spec fn joined(parts: Seq<UploadPart>) -> Seq<u8>
    decreases parts.len(),
{
    if parts.len() == 0 {
        Seq::empty()
    } else {
        joined(parts.drop_last()) + parts.last().bytes@
    }
}

/// `ceil_div(n, d)` is the least `q` with `n <= q * d`.
pub proof fn lemma_ceil_div(n: int, d: int)
    requires
        n >= 0,
        d > 0,
    ensures
        ceil_div(n, d) >= 0,
        n == 0 <==> ceil_div(n, d) == 0,
        n <= ceil_div(n, d) * d,
        n > 0 ==> (ceil_div(n, d) - 1) * d < n,
{
    let c = ceil_div(n, d);
    let m = n + d - 1;
    vstd::arithmetic::div_mod::lemma_fundamental_div_mod(m, d);
    vstd::arithmetic::div_mod::lemma_mod_bound(m, d);
    assert(d * c == c * d) by (nonlinear_arith);
    assert((c - 1) * d == c * d - d) by (nonlinear_arith);
    assert(c >= 0) by (nonlinear_arith)
        requires
            c * d + m % d >= 0,
            m % d < d,
            d > 0,
    ;
    if c == 0 {
        assert(c * d == 0) by (nonlinear_arith)
            requires
                c == 0,
        ;
    }
}

/// Whatever lies between `(q - 1) * d` and `q * d` is divided into `q` parts.
pub proof fn lemma_ceil_div_unique(n: int, d: int, q: int)
    requires
        n >= 0,
        d > 0,
        (q - 1) * d < n <= q * d,
    ensures
        q == ceil_div(n, d),
{
    let c = ceil_div(n, d);
    lemma_ceil_div(n, d);
    assert(q <= c) by (nonlinear_arith)
        requires
            (q - 1) * d < n,
            n <= c * d,
            d > 0,
    ;
    assert(c <= q) by (nonlinear_arith)
        requires
            (c - 1) * d < n || c == 0,
            n <= q * d,
            (q - 1) * d < n,
            n >= 0,
            d > 0,
    ;
}

/// `n / d`, rounded up.
fn div_rounded_up(n: u64, d: u64) -> (q: u64)
    requires
        d > 0,
    ensures
        q == ceil_div(n as int, d as int),
{
    let whole: u64 = n / d;
    let rest: u64 = n % d;
    proof {
        vstd::arithmetic::div_mod::lemma_fundamental_div_mod(n as int, d as int);
        assert(d * whole == whole * d) by (nonlinear_arith);
        assert((whole - 1) * d == whole * d - d) by (nonlinear_arith);
        assert((whole + 1) * d == whole * d + d) by (nonlinear_arith);
        assert(whole * d >= whole) by (nonlinear_arith)
            requires
                d >= 1,
                whole >= 0,
        ;
    }
    if rest == 0 {
        proof {
            if n == 0 {
                lemma_ceil_div(0, d as int);
            } else {
                lemma_ceil_div_unique(n as int, d as int, whole as int);
            }
        }
        whole
    } else {
        proof {
            lemma_ceil_div_unique(n as int, d as int, whole + 1);
        }
        whole + 1
    }
}

impl StoreLimits {
    /// The limits make sense: sizes and count are positive, and the
    /// smallest size is not above the largest.
    pub open spec fn wf(self) -> bool {
        &&& 1 <= self.min_part_size <= self.max_part_size
        &&& 1 <= self.max_part_count
    }

    /// The store accepts `target` as the size of a part.
    pub open spec fn admits(self, target: u64) -> bool {
        self.min_part_size <= target <= self.max_part_size
    }

    /// An upload of `len` bytes is possible at all.
    pub open spec fn holds(self, len: int) -> bool {
        len <= self.max_part_size * self.max_part_count
    }

    /// The limits of S3.
    pub fn s3() -> (limits: StoreLimits)
        ensures
            limits.wf(),
            limits.min_part_size == S3_MIN_PART_SIZE,
            limits.max_part_size == S3_MAX_PART_SIZE,
            limits.max_part_count == S3_MAX_PART_COUNT,
    {
        StoreLimits {
            min_part_size: S3_MIN_PART_SIZE,
            max_part_size: S3_MAX_PART_SIZE,
            max_part_count: S3_MAX_PART_COUNT,
        }
    }

    /// Limits of the caller's choosing, if they make sense.
    pub fn new(min_part_size: u64, max_part_size: u64, max_part_count: u32) -> (limits: Option<
        StoreLimits,
    >)
        ensures
            limits is Some <==> 1 <= min_part_size <= max_part_size && 1 <= max_part_count,
            limits matches Some(l) ==> l.wf() && l.min_part_size == min_part_size
                && l.max_part_size == max_part_size && l.max_part_count == max_part_count,
    {
        if 1 <= min_part_size && min_part_size <= max_part_size && 1 <= max_part_count {
            Some(StoreLimits { min_part_size, max_part_size, max_part_count })
        } else {
            None
        }
    }

    /// Whether the limits make sense.
    pub fn is_wf(&self) -> (b: bool)
        ensures
            b == self.wf(),
    {
        1 <= self.min_part_size && self.min_part_size <= self.max_part_size && 1
            <= self.max_part_count
    }

    /// Tells whether the store accepts `target` as the size of a part.
    pub fn check_part_size(&self, target: u64) -> (res: Result<(), PartitionError>)
        ensures
            res is Ok <==> self.admits(target),
            res == Err::<(), PartitionError>(PartitionError::PartSizeTooSmall) <==> target
                < self.min_part_size,
            res == Err::<(), PartitionError>(PartitionError::PartSizeTooLarge) <==> self.min_part_size
                <= target && target > self.max_part_size,
            !(res == Err::<(), PartitionError>(PartitionError::ArchiveTooLarge)),
    {
        if target < self.min_part_size {
            Err(PartitionError::PartSizeTooSmall)
        } else if target > self.max_part_size {
            Err(PartitionError::PartSizeTooLarge)
        } else {
            Ok(())
        }
    }

    /// The part size to use for an archive of `len` bytes.
    pub fn effective_part_size(&self, len: u64, target: u64) -> (res: Result<u64, PartitionError>)
        requires
            self.wf(),
        ensures
            res is Ok <==> self.admits(target) && self.holds(len as int),
            res matches Ok(size) ==> size == effective_part_size(
                len as int,
                target as int,
                self.max_part_count as int,
            ),
            res matches Err(e) ==> e == self.refusal(len as int, target),
    {
        match self.check_part_size(target) {
            Err(e) => Err(e),
            Ok(()) => {
                let floor: u64 = div_rounded_up(len, self.max_part_count as u64);
                proof {
                    self.lemma_holds(len as int);
                }
                if floor > self.max_part_size {
                    Err(PartitionError::ArchiveTooLarge)
                } else if floor > target {
                    Ok(floor)
                } else {
                    Ok(target)
                }
            },
        }
    }

    /// The reason for which `len` bytes cannot be partitioned with `target`.
    pub open spec fn refusal(self, len: int, target: u64) -> PartitionError {
        if target < self.min_part_size {
            PartitionError::PartSizeTooSmall
        } else if target > self.max_part_size {
            PartitionError::PartSizeTooLarge
        } else {
            PartitionError::ArchiveTooLarge
        }
    }

    /// An upload is possible exactly if parts of the largest size are few
    /// enough.
    pub proof fn lemma_holds(self, len: int)
        requires
            self.wf(),
            len >= 0,
        ensures
            self.holds(len) <==> ceil_div(len, self.max_part_count as int) <= self.max_part_size,
    {
        let c = self.max_part_count as int;
        let m = self.max_part_size as int;
        let q = ceil_div(len, c);
        lemma_ceil_div(len, c);
        if q <= m {
            assert(q * c <= m * c) by (nonlinear_arith)
                requires
                    q <= m,
                    c > 0,
            ;
        } else {
            assert((q - 1) * c >= m * c) by (nonlinear_arith)
                requires
                    q - 1 >= m,
                    c > 0,
            ;
        }
    }
}

/// Cuts a sealed archive into the parts of a multipart upload.
///
/// Every part but the last has the effective part size, the last has what
/// is left, and the parts are numbered from one in the order of their bytes.
pub fn partition(archive: &[u8], limits: &StoreLimits, target: u64) -> (res: Result<
    Vec<UploadPart>,
    PartitionError,
>)
    requires
        limits.wf(),
    ensures
        res is Ok <==> limits.admits(target) && limits.holds(archive@.len() as int),
        res matches Ok(parts) ==> is_partition(
            archive@,
            effective_part_size(
                archive@.len() as int,
                target as int,
                limits.max_part_count as int,
            ),
            parts@,
        ),
        res matches Err(e) ==> e == limits.refusal(archive@.len() as int, target),
{
    let len: usize = archive.len();
    let size: u64 = match limits.effective_part_size(len as u64, target) {
        Ok(size) => size,
        Err(e) => {
            return Err(e);
        },
    };
    proof {
        limits.lemma_effective_part_size(len as int, target);
        lemma_ceil_div(len as int, size as int);
    }
    let ghost count = part_count(len as int, size as int);
    let mut parts: Vec<UploadPart> = Vec::new();
    let mut start: usize = 0;
    let mut number: u32 = 0;
    while start < len
        invariant
            len == archive@.len(),
            size > 0,
            count == part_count(len as int, size as int),
            count <= limits.max_part_count,
            start <= len,
            start < len ==> start == number * size && number < count,
            start == len ==> number == count,
            parts@.len() == number,
            forall|i: int|
                0 <= i < number ==> (#[trigger] parts@[i]).part_number == i + 1 && parts@[i].bytes@
                    == part_bytes(archive@, size as int, i),
        decreases len - start,
    {
        let left: usize = len - start;
        let take: usize = if left as u64 > size {
            size as usize
        } else {
            left
        };
        proof {
            assert((number + 1) * size == number * size + size) by (nonlinear_arith);
            if left > size {
                lemma_ceil_div(len as int, size as int);
                assert(number + 1 < count) by (nonlinear_arith)
                    requires
                        (number + 1) * size < len,
                        len <= count * size,
                        size > 0,
                ;
            } else {
                lemma_ceil_div_unique(len as int, size as int, number + 1);
            }
        }
        let bytes: Vec<u8> = slice_to_vec(slice_subrange(archive, start, start + take));
        number = number + 1;
        parts.push(UploadPart { part_number: number, bytes });
        start = start + take;
    }
    Ok(parts)
}

impl StoreLimits {
    /// The effective part size is a size that the store accepts, it is
    /// the target wherever the target gives few enough parts, and it gives
    /// few enough parts.
    pub proof fn lemma_effective_part_size(self, len: int, target: u64)
        requires
            self.wf(),
            self.admits(target),
            self.holds(len),
            len >= 0,
        ensures
            ({
                let size = effective_part_size(len, target as int, self.max_part_count as int);
                &&& target <= size
                &&& self.min_part_size <= size <= self.max_part_size
                &&& part_count(len, size) <= self.max_part_count
                &&& part_count(len, target as int) <= self.max_part_count ==> size == target
            }),
    {
        let c = self.max_part_count as int;
        let t = target as int;
        let f = ceil_div(len, c);
        let size = effective_part_size(len, t, c);
        self.lemma_holds(len);
        lemma_ceil_div(len, c);
        lemma_ceil_div(len, size);
        lemma_ceil_div(len, t);
        assert(size > 0);
        let k = part_count(len, size);
        assert(f * c <= size * c) by (nonlinear_arith)
            requires
                f <= size,
                c > 0,
        ;
        if len > 0 {
            assert(k - 1 < c) by (nonlinear_arith)
                requires
                    (k - 1) * size < size * c,
                    size > 0,
            ;
        }
        let kt = part_count(len, t);
        if kt <= c {
            assert(kt * t <= c * t) by (nonlinear_arith)
                requires
                    kt <= c,
                    t > 0,
            ;
            if len > 0 {
                assert(f - 1 < t) by (nonlinear_arith)
                    requires
                        (f - 1) * c < c * t,
                        c > 0,
                ;
            }
        }
    }

    /// No size between the target and the effective part size gives few
    /// enough parts: the size is increased no further than it must be.
    pub proof fn lemma_effective_part_size_least(self, len: int, target: u64, size: int)
        requires
            self.wf(),
            len >= 0,
            1 <= target <= size,
            size < effective_part_size(len, target as int, self.max_part_count as int),
        ensures
            part_count(len, size) > self.max_part_count,
    {
        let c = self.max_part_count as int;
        let f = ceil_div(len, c);
        lemma_ceil_div(len, c);
        lemma_ceil_div(len, size);
        let k = part_count(len, size);
        assert(k > c) by (nonlinear_arith)
            requires
                (f - 1) * c < len,
                size <= f - 1,
                len <= k * size,
                size > 0,
                c > 0,
        ;
    }
}

/// Every part but the last has exactly `size` bytes; the last has the
/// remainder, which is at least one byte and at most `size`.
pub proof fn lemma_part_lengths(archive: Seq<u8>, size: int, i: int)
    requires
        size > 0,
        0 <= i < part_count(archive.len() as int, size),
    ensures
        i + 1 < part_count(archive.len() as int, size) ==> part_bytes(archive, size, i).len()
            == size,
        i + 1 == part_count(archive.len() as int, size) ==> part_bytes(archive, size, i).len()
            == archive.len() - i * size,
        1 <= part_bytes(archive, size, i).len() <= size,
{
    let len = archive.len() as int;
    let n = part_count(len, size);
    lemma_ceil_div(len, size);
    assert((i + 1) * size == i * size + size) by (nonlinear_arith);
    assert((n - 1) * size == n * size - size) by (nonlinear_arith);
    assert(i * size <= (n - 1) * size) by (nonlinear_arith)
        requires
            i <= n - 1,
            size > 0,
    ;
    if i + 1 < n {
        assert((i + 1) * size <= (n - 1) * size) by (nonlinear_arith)
            requires
                i + 1 <= n - 1,
                size > 0,
        ;
    }
}

/// The parts of a partition, put one after the other, are the archive.
pub proof fn lemma_partition_joined(archive: Seq<u8>, size: int, parts: Seq<UploadPart>)
    requires
        size > 0,
        is_partition(archive, size, parts),
    ensures
        joined(parts) == archive,
{
    lemma_joined_prefix(archive, size, parts, parts.len() as int);
    lemma_ceil_div(archive.len() as int, size);
    assert(parts.take(parts.len() as int) =~= parts);
    assert(archive.subrange(0, archive.len() as int) =~= archive);
}

proof fn lemma_joined_prefix(archive: Seq<u8>, size: int, parts: Seq<UploadPart>, k: int)
    requires
        size > 0,
        is_partition(archive, size, parts),
        0 <= k <= parts.len(),
    ensures
        k * size <= archive.len() || k == parts.len(),
        joined(parts.take(k)) == archive.subrange(
            0,
            if k * size <= archive.len() {
                k * size
            } else {
                archive.len() as int
            },
        ),
    decreases k,
{
    let len = archive.len() as int;
    let n = parts.len() as int;
    lemma_ceil_div(len, size);
    assert((k - 1) * size == k * size - size) by (nonlinear_arith);
    assert((k - 1 + 1) * size == k * size) by (nonlinear_arith);
    if k == 0 {
        assert(k * size == 0) by (nonlinear_arith)
            requires
                k == 0,
        ;
        assert(joined(parts.take(0)) =~= archive.subrange(0, 0));
    } else {
        lemma_joined_prefix(archive, size, parts, k - 1);
        if k < n {
            assert(k * size <= (n - 1) * size) by (nonlinear_arith)
                requires
                    k <= n - 1,
                    size > 0,
            ;
        }
        let head = parts.take(k);
        assert(head.drop_last() =~= parts.take(k - 1));
        assert(head.last() == parts[k - 1]);
        assert((k - 1) * size <= (n - 1) * size) by (nonlinear_arith)
            requires
                k - 1 <= n - 1,
                size > 0,
        ;
        assert(joined(head) =~= archive.subrange(0, part_end(len, size, k - 1)));
    }
}

/// Partitioning is a function of the archive and the part size: two
/// partitions of one archive hold the same numbers and bytes.
pub proof fn lemma_partition_unique(
    archive: Seq<u8>,
    size: int,
    first: Seq<UploadPart>,
    second: Seq<UploadPart>,
)
    requires
        is_partition(archive, size, first),
        is_partition(archive, size, second),
    ensures
        first.len() == second.len(),
        forall|i: int|
            0 <= i < first.len() ==> (#[trigger] first[i]).part_number == second[i].part_number
                && first[i].bytes@ == second[i].bytes@,
{
    assert forall|i: int| 0 <= i < first.len() implies (#[trigger] first[i]).part_number
        == second[i].part_number && first[i].bytes@ == second[i].bytes@ by {
        assert(second[i].part_number == i + 1);
    }
}

} // verus!
