//! Sharing a batch's reads among workers, and putting what they read back
//! together.

use crate::error::FetchError;
use crate::fetch::FetchedRow;
use crate::fetch::RowBytes;
use crate::residency::Fault;
use vstd::prelude::*;

verus! {

/// The quotient, rounded up.
pub open spec fn ceil_div(a: int, b: int) -> int {
    (a + b - 1) / b
}

/// How many reads each worker gets when `want` workers share `n` reads, and at
/// least one does them.
pub open spec fn share_len(n: int, want: int) -> int {
    let workers = if want <= 1 {
        1
    } else if want < n {
        want
    } else {
        n
    };
    ceil_div(n, workers)
}

/// The quotient, rounded up.
pub fn div_ceil(a: usize, b: usize) -> (q: usize)
    requires
        b > 0,
    ensures
        q == ceil_div(a as int, b as int),
{
    let q: usize = a / b;
    let r: usize = a % b;
    proof {
        let (x, y) = (a as int, b as int);
        vstd::arithmetic::div_mod::lemma_fundamental_div_mod(x, y);
        if x % y == 0 {
            vstd::arithmetic::div_mod::lemma_fundamental_div_mod_converse(
                x + y - 1,
                y,
                x / y,
                y - 1,
            );
        } else {
            vstd::arithmetic::mul::lemma_mul_is_distributive_add(y, x / y, 1);
            vstd::arithmetic::div_mod::lemma_fundamental_div_mod_converse(
                x + y - 1,
                y,
                x / y + 1,
                x % y - 1,
            );
            assert(x / y < usize::MAX) by (nonlinear_arith)
                requires
                    x <= usize::MAX,
                    x == y * (x / y) + x % y,
                    x % y > 0,
                    y >= 1,
            ;
        }
    }
    if r == 0 {
        q
    } else {
        q + 1
    }
}

/// `q` is the quotient of `a` and `b`, rounded up: enough `b`s to reach `a`, and
/// no more.
pub proof fn ceil_div_is_tight(a: int, b: int)
    requires
        0 <= a,
        0 < b,
    ensures
        0 <= ceil_div(a, b),
        a <= ceil_div(a, b) * b,
        (ceil_div(a, b) - 1) * b < a,
        a > 0 ==> ceil_div(a, b) >= 1,
{
    let q = ceil_div(a, b);
    vstd::arithmetic::div_mod::lemma_fundamental_div_mod(a + b - 1, b);
    assert(a <= q * b && (q - 1) * b < a) by (nonlinear_arith)
        requires
            a + b - 1 == b * q + (a + b - 1) % b,
            0 <= (a + b - 1) % b < b,
    ;
    vstd::arithmetic::div_mod::lemma_div_pos_is_pos(a + b - 1, b);
    if a > 0 && q <= 0 {
        assert(q * b <= 0) by (nonlinear_arith)
            requires
                q <= 0,
                b > 0,
        ;
    }
}

/// Worker `i`'s part of `n` reads, where each worker gets `len`.
pub open spec fn share(n: int, len: int, i: int) -> (int, int) {
    (
        i * len,
        if (i + 1) * len < n {
            (i + 1) * len
        } else {
            n
        },
    )
}

/// `parts` are consecutive stretches of `0..n`, none of them empty, that cover it
/// from end to end.
pub open spec fn splits(parts: Seq<(usize, usize)>, n: int) -> bool {
    &&& parts.len() == 0 <==> n == 0
    &&& parts.len() > 0 ==> parts[0].0 == 0 && parts.last().1 == n
    &&& forall|i: int| 0 <= i < parts.len() ==> (#[trigger] parts[i]).0 < parts[i].1
    &&& forall|i: int, j: int|
        0 <= i < parts.len() - 1 && j == i + 1 ==> (#[trigger] parts[i]).1 == (
        #[trigger] parts[j]).0
}

/// Shares `n` independent reads out to `want` workers, as ranges of their
/// indices. The reads cost the same each, so each worker gets one stretch and
/// nothing has to be passed around later.
///
/// With `want` at most 1 one worker does them all, one after the other.
pub fn share_out(n: usize, want: usize) -> (parts: Vec<(usize, usize)>)
    ensures
        splits(parts@, n as int),
        n == 0 ==> parts@.len() == 0,
        n > 0 ==> parts@.len() == ceil_div(n as int, share_len(n as int, want as int)),
        forall|i: int|
            0 <= i < parts@.len() ==> (parts@[i].0 as int, (#[trigger] parts@[i]).1 as int) == share(
                n as int,
                share_len(n as int, want as int),
                i,
            ),
{
    let mut parts: Vec<(usize, usize)> = Vec::new();
    if n == 0 {
        return parts;
    }
    let workers: usize = if want <= 1 {
        1
    } else if want < n {
        want
    } else {
        n
    };
    let len: usize = div_ceil(n, workers);
    proof {
        ceil_div_is_tight(n as int, workers as int);
        ceil_div_is_tight(n as int, len as int);
    }
    let ghost total = ceil_div(n as int, len as int);
    let mut start: usize = 0;
    while start < n
        invariant
            0 < len == share_len(n as int, want as int),
            total == ceil_div(n as int, len as int),
            n <= total * len,
            (total - 1) * len < n,
            start < n ==> start == parts@.len() * len,
            start >= n ==> parts@.len() == total,
            start <= n,
            parts@.len() <= total,
            parts@.len() == 0 <==> start == 0,
            splits(parts@, start as int),
            forall|i: int|
                0 <= i < parts@.len() ==> (parts@[i].0 as int, (#[trigger] parts@[i]).1 as int)
                    == share(n as int, len as int, i),
        decreases n - start,
    {
        let end: usize = if n - start > len {
            start + len
        } else {
            n
        };
        proof {
            let k = parts@.len() as int;
            assert(k < total && (k + 1) * len == k * len + len && (end == n ==> k + 1 == total)
                && (end < n ==> k + 1 <= total)) by (nonlinear_arith)
                requires
                    start == k * len,
                    start < n,
                    n <= total * len,
                    (total - 1) * len < n,
                    len > 0,
                    end == n ==> n - start <= len,
                    end < n ==> n - start > len,
            ;
        }
        parts.push((start, end));
        start = end;
    }
    parts
}

/// Every read of a batch is in exactly one worker's part, no part is empty, and
/// no more workers are used than were wanted.
pub proof fn shares_split_the_reads(n: int, want: int, k: int)
    requires
        0 < n,
        0 <= k < n,
    ensures
        share_len(n, want) > 0,
        ceil_div(n, share_len(n, want)) <= if want <= 1 {
            1
        } else {
            want
        },
        ({
            let len = share_len(n, want);
            let i = k / len;
            &&& 0 <= i < ceil_div(n, len)
            &&& share(n, len, i).0 <= k < share(n, len, i).1
            &&& forall|j: int|
                j != i ==> !((#[trigger] share(n, len, j)).0 <= k < share(n, len, j).1)
        }),
{
    let workers = if want <= 1 {
        1
    } else if want < n {
        want
    } else {
        n
    };
    let len = share_len(n, want);
    ceil_div_is_tight(n, workers);
    ceil_div_is_tight(n, len);
    let parts = ceil_div(n, len);
    assert(parts <= workers) by (nonlinear_arith)
        requires
            (parts - 1) * len < n,
            n <= len * workers,
            len > 0,
    ;
    let i = k / len;
    vstd::arithmetic::div_mod::lemma_fundamental_div_mod(k, len);
    assert(0 <= i < parts && i * len <= k < (i + 1) * len) by (nonlinear_arith)
        requires
            0 <= k < n,
            k == len * i + k % len,
            0 <= k % len < len,
            n <= parts * len,
            len > 0,
    ;
    assert forall|j: int| j != i implies !((#[trigger] share(n, len, j)).0 <= k < share(
        n,
        len,
        j,
    ).1) by {
        if j < i {
            assert((j + 1) * len <= k) by (nonlinear_arith)
                requires
                    j < i,
                    i * len <= k,
                    len > 0,
            ;
        } else {
            assert(j * len > k) by (nonlinear_arith)
                requires
                    j > i,
                    k < (i + 1) * len,
                    len > 0,
            ;
        }
    }
}

// ---- putting the workers' rows together --------------------------------------
/// What a worker came back with.
pub open spec fn contents<T>(part: Result<Vec<T>, FetchError>) -> Result<Seq<T>, FetchError> {
    match part {
        Ok(rows) => Ok(rows@),
        Err(e) => Err(e),
    }
}

/// What each of the workers came back with.
pub open spec fn all_contents<T>(parts: Seq<Result<Vec<T>, FetchError>>) -> Seq<
    Result<Seq<T>, FetchError>,
> {
    Seq::new(parts.len(), |i: int| contents(parts[i]))
}

/// `first` and then `second`, unless one of them failed.
pub open spec fn followed_by<T>(
    first: Result<Seq<T>, FetchError>,
    second: Result<Seq<T>, FetchError>,
) -> Result<Seq<T>, FetchError> {
    match (first, second) {
        (Err(e), _) => Err(e),
        (Ok(_), Err(e)) => Err(e),
        (Ok(a), Ok(b)) => Ok(a + b),
    }
}

/// The rows of all workers, one worker's behind the other's; or the error of the
/// first worker that has one.
pub open spec fn joined<T>(parts: Seq<Result<Seq<T>, FetchError>>) -> Result<Seq<T>, FetchError>
    decreases parts.len(),
{
    if parts.len() == 0 {
        Ok(Seq::empty())
    } else {
        followed_by(joined(parts.drop_last()), parts.last())
    }
}

/// Once a worker has failed, so has the batch.
proof fn a_failure_is_final<T>(parts: Seq<Result<Seq<T>, FetchError>>, k: int)
    requires
        0 <= k <= parts.len(),
        joined(parts.take(k)) is Err,
    ensures
        joined(parts) == joined(parts.take(k)),
    decreases parts.len(),
{
    if k < parts.len() {
        assert(parts.drop_last().take(k) =~= parts.take(k));
        a_failure_is_final(parts.drop_last(), k);
    } else {
        assert(parts.take(k) =~= parts);
    }
}

/// Puts the rows that the workers have read back together, in the order of the
/// shares; or reports the error of the first share that failed.
pub fn join_parts(parts: Vec<Result<Vec<FetchedRow>, FetchError>>) -> (r: Result<
    Vec<FetchedRow>,
    FetchError,
>)
    ensures
        contents(r) == joined(all_contents(parts@)),
{
    let ghost all = all_contents(parts@);
    let mut rows: Vec<FetchedRow> = Vec::new();
    let ghost mut k: int = 0;
    assert(all.take(0) =~= Seq::empty());
    for part in it: parts
        invariant
            it.seq() == parts@,
            k == it.index(),
            all == all_contents(parts@),
            joined(all.take(k)) == Ok::<Seq<FetchedRow>, FetchError>(rows@),
    {
        proof {
            assert(all.take(k + 1).drop_last() =~= all.take(k));
            assert(all.take(k + 1).last() == contents(part));
            k = k + 1;
        }
        match part {
            Ok(more) => {
                let mut more: Vec<FetchedRow> = more;
                rows.append(&mut more);
            },
            Err(e) => {
                proof {
                    a_failure_is_final(all, k);
                }
                return Err(e);
            },
        }
    }
    assert(all.take(k) =~= all);
    Ok(rows)
}

// ---- how many workers there are does not matter ------------------------------
/// What comes of reading `faults` one after the other, up to the first read that
/// fails, where `read` is what comes of each read.
pub open spec fn read_in_order(
    read: spec_fn(Fault) -> Result<RowBytes, FetchError>,
    faults: Seq<Fault>,
) -> Result<Seq<RowBytes>, FetchError>
    decreases faults.len(),
{
    if faults.len() == 0 {
        Ok(Seq::empty())
    } else {
        followed_by(
            read_in_order(read, faults.drop_last()),
            match read(faults.last()) {
                Ok(row) => Ok(seq![row]),
                Err(e) => Err(e),
            },
        )
    }
}

/// The bytes of the rows that came of a worker's, or of all workers' reads.
pub open spec fn bytes_of(rows: Result<Seq<FetchedRow>, FetchError>) -> Result<
    Seq<RowBytes>,
    FetchError,
> {
    match rows {
        Ok(rows) => Ok(Seq::new(rows.len(), |i: int| rows[i]@)),
        Err(e) => Err(e),
    }
}

/// Each worker has read its part of `faults`, one after the other.
pub open spec fn read_by_parts(
    read: spec_fn(Fault) -> Result<RowBytes, FetchError>,
    faults: Seq<Fault>,
    parts: Seq<(usize, usize)>,
    got: Seq<Result<Seq<FetchedRow>, FetchError>>,
) -> bool {
    &&& got.len() == parts.len()
    &&& forall|i: int|
        0 <= i < parts.len() ==> bytes_of(#[trigger] got[i]) == read_in_order(
            read,
            faults.subrange(parts[i].0 as int, parts[i].1 as int),
        )
}

/// Reading two stretches, one after the other.
proof fn reading_on(
    read: spec_fn(Fault) -> Result<RowBytes, FetchError>,
    a: Seq<Fault>,
    b: Seq<Fault>,
)
    ensures
        read_in_order(read, a + b) == followed_by(read_in_order(read, a), read_in_order(read, b)),
    decreases b.len(),
{
    if b.len() == 0 {
        assert(a + b =~= a);
        if read_in_order(read, a) is Ok {
            let rows = read_in_order(read, a)->Ok_0;
            assert(rows + Seq::empty() =~= rows);
        }
    } else {
        let init = b.drop_last();
        assert((a + b).drop_last() =~= a + init);
        assert((a + b).last() == b.last());
        reading_on(read, a, init);
        if read_in_order(read, a) is Ok && read_in_order(read, init) is Ok && read(b.last()) is Ok {
            let x = read_in_order(read, a)->Ok_0;
            let y = read_in_order(read, init)->Ok_0;
            let z = seq![read(b.last())->Ok_0];
            assert((x + y) + z =~= x + (y + z));
        }
    }
}

/// Reading a batch in parts and putting the parts together comes to the same as
/// reading it in one go.
pub proof fn parts_come_to_the_whole(
    read: spec_fn(Fault) -> Result<RowBytes, FetchError>,
    faults: Seq<Fault>,
    parts: Seq<(usize, usize)>,
    got: Seq<Result<Seq<FetchedRow>, FetchError>>,
)
    requires
        splits(parts, faults.len() as int),
        read_by_parts(read, faults, parts, got),
    ensures
        bytes_of(joined(got)) == read_in_order(read, faults),
    decreases parts.len(),
{
    if parts.len() == 0 {
        assert(bytes_of(joined(got))->Ok_0 =~= Seq::<RowBytes>::empty());
        assert(faults =~= Seq::<Fault>::empty());
    } else {
        let last = parts.len() - 1;
        let from = parts[last].0 as int;
        let head = faults.take(from);
        let tail = faults.subrange(from, parts[last].1 as int);
        let init = parts.drop_last();
        assert(splits(init, head.len() as int)) by {
            if last > 0 {
                assert(parts[last - 1].1 == parts[last].0);
            }
        }
        assert forall|i: int| 0 <= i < init.len() implies bytes_of(#[trigger] got.drop_last()[i])
            == read_in_order(read, head.subrange(init[i].0 as int, init[i].1 as int)) by {
            stretches_end_in_order(parts, faults.len() as int, i);
            assert(bytes_of(got[i]) == read_in_order(
                read,
                faults.subrange(parts[i].0 as int, parts[i].1 as int),
            ));
            assert(head.subrange(init[i].0 as int, init[i].1 as int) =~= faults.subrange(
                parts[i].0 as int,
                parts[i].1 as int,
            ));
        }
        parts_come_to_the_whole(read, head, init, got.drop_last());
        assert(head + tail =~= faults);
        reading_on(read, head, tail);
        assert(bytes_of(got[last]) == read_in_order(read, tail));
        bytes_follow(joined(got.drop_last()), got.last());
    }
}

/// Every stretch but the last ends where the last begins, or before.
pub proof fn stretches_end_in_order(parts: Seq<(usize, usize)>, n: int, i: int)
    requires
        splits(parts, n),
        0 <= i < parts.len() - 1,
    ensures
        parts[i].0 < parts[i].1 <= parts.last().0,
    decreases parts.len() - i,
{
    assert(parts[i].1 == parts[i + 1].0);
    if i + 1 < parts.len() - 1 {
        stretches_end_in_order(parts, n, i + 1);
    }
}

/// The bytes of rows that follow each other follow each other.
proof fn bytes_follow(
    a: Result<Seq<FetchedRow>, FetchError>,
    b: Result<Seq<FetchedRow>, FetchError>,
)
    ensures
        bytes_of(followed_by(a, b)) == followed_by(bytes_of(a), bytes_of(b)),
{
    if a is Ok && b is Ok {
        assert(bytes_of(followed_by(a, b))->Ok_0 =~= followed_by(bytes_of(a), bytes_of(b))->Ok_0);
    }
}

} // verus!
