//! Placement of a freshly uploaded file's fragments on the online devices.
//!
//! Fragment `k` of file `f` is named `f * 100 + k`. With at most as many
//! fragments as devices, fragment `k` goes to device `(k + t) % size` for a
//! random start `t`. With more fragments than devices, every device takes
//! `num / size` fragments, the `num % size` devices from `t` on (wrapping)
//! take one more, and the fragments are dealt out in order, device by device.
use vstd::prelude::*;

use vstd::multiset::Multiset;

use vstd::arithmetic::div_mod::lemma_div_pos_is_pos;
use vstd::arithmetic::div_mod::lemma_fundamental_div_mod;
use vstd::arithmetic::div_mod::lemma_fundamental_div_mod_converse;
use vstd::arithmetic::div_mod::lemma_mod_pos_bound;
use vstd::seq_lib::lemma_multiset_commutative;
use vstd::seq_lib::to_multiset_build;
use vstd::seq_lib::to_multiset_len;

use rand::rngs::ThreadRng;
use rand::Rng;

use crate::records::RequestItem;
use crate::records::RequestView;
use crate::records::REQUEST_DOWNLOAD;
use crate::upload::fragment_name_spec;

verus! {

/// Whether device `j` is one of the `m` devices that take an extra fragment
/// when the extras start at device `t`.
pub open spec fn takes_extra(j: int, t: int, m: int, size: int) -> bool {
    (j - t) % size < m
}

/// How many fragments device `j` takes when `num > size`.
pub open spec fn share(j: int, num: int, size: int, t: int) -> int {
    num / size + if takes_extra(j, t, num % size, size) {
        1int
    } else {
        0int
    }
}

/// The number of fragments of each device when `num > size`.
pub open spec fn shares(num: int, size: int, t: int) -> Seq<int> {
    Seq::new(size as nat, |j: int| share(j, num, size, t))
}

/// Device indices laid out block by block: `c[0]` copies of 0, then `c[1]`
/// copies of 1, and so on.
pub open spec fn blocks(c: Seq<int>) -> Seq<int>
    decreases c.len(),
{
    if c.len() == 0 {
        Seq::empty()
    } else {
        blocks(c.drop_last()) + Seq::new(c.last() as nat, |k: int| c.len() - 1)
    }
}

pub open spec fn sum(c: Seq<int>) -> int
    decreases c.len(),
{
    if c.len() == 0 {
        0
    } else {
        sum(c.drop_last()) + c.last()
    }
}

/// For each fragment, in order, the index of the device that receives it.
pub open spec fn placement(num: int, size: int, t: int) -> Seq<int> {
    if num <= size {
        Seq::new(if num > 0 {
            num as nat
        } else {
            0
        }, |k: int| (k + t) % size)
    } else {
        blocks(shares(num, size, t))
    }
}

/// The download requests that place the fragments of `file_id`.
pub open spec fn planned(file_id: int, num: int, ids: Seq<i32>, t: int) -> Seq<RequestView> {
    let p = placement(num, ids.len() as int, t);
    Seq::new(
        p.len(),
        |k: int|
            RequestView {
                id: 0,
                type_: REQUEST_DOWNLOAD,
                fragment_id: fragment_name_spec(file_id, k) as i32,
                device_id: ids[p[k]],
            },
    )
}

/// The fragment names of a file with `num` fragments fit in an `i32` (a
/// file without fragments names none).
pub open spec fn names_fit(file_id: int, num: int) -> bool {
    num > 0 ==> {
        &&& i32::MIN <= file_id * 100
        &&& file_id * 100 + num - 1 <= i32::MAX
    }
}

// ---------------------------------------------------------------------------
// Lemmas
// ---------------------------------------------------------------------------

/// The residue of `x` when it lies within one period of `[0, size)`.
proof fn lemma_mod_near(x: int, size: int)
    requires
        size > 0,
        -size <= x < 2 * size,
    ensures
        0 <= x < size ==> x % size == x,
        x < 0 ==> x % size == x + size,
        x >= size ==> x % size == x - size,
{
    if 0 <= x < size {
        lemma_fundamental_div_mod_converse(x, size, 0, x);
    } else if x < 0 {
        lemma_fundamental_div_mod_converse(x, size, -1, x + size);
    } else {
        lemma_fundamental_div_mod_converse(x, size, 1, x - size);
    }
}

/// Device `j` is `i` steps after `t` exactly when it is `(t + i) % size`.
proof fn lemma_step_index(j: int, t: int, i: int, size: int)
    requires
        0 <= j < size,
        0 <= t < size,
        0 <= i < size,
    ensures
        ((j - t) % size == i) <==> (j == (t + i) % size),
        0 <= (t + i) % size < size,
{
    lemma_mod_near(j - t, size);
    lemma_mod_near(t + i, size);
}

proof fn lemma_sum_update(c: Seq<int>, idx: int, v: int)
    requires
        0 <= idx < c.len(),
    ensures
        sum(c.update(idx, v)) == sum(c) - c[idx] + v,
    decreases c.len(),
{
    let u = c.update(idx, v);
    if idx == c.len() - 1 {
        assert(u.drop_last() =~= c.drop_last());
    } else {
        assert(u.drop_last() =~= c.drop_last().update(idx, v));
        lemma_sum_update(c.drop_last(), idx, v);
    }
}

proof fn lemma_sum_const(n: nat, q: int)
    ensures
        sum(Seq::new(n, |j: int| q)) == n * q,
    decreases n,
{
    let s = Seq::new(n, |j: int| q);
    if n > 0 {
        assert(s.drop_last() =~= Seq::new((n - 1) as nat, |j: int| q));
        lemma_sum_const((n - 1) as nat, q);
        assert(s.last() == q);
        assert(sum(s) == sum(s.drop_last()) + s.last());
        assert(n * q == (n - 1) * q + q) by (nonlinear_arith);
    } else {
        assert(sum(s) == 0);
        assert(n * q == 0) by (nonlinear_arith)
            requires
                n == 0,
        ;
    }
}

/// The shares before the first `i` extras have been handed out.
spec fn partial_shares(q: int, size: int, t: int, i: int) -> Seq<int> {
    Seq::new(size as nat, |j: int| q + if takes_extra(j, t, i, size) {
        1int
    } else {
        0int
    })
}

proof fn lemma_partial_step(q: int, size: int, t: int, i: int)
    requires
        0 <= t < size,
        0 <= i < size,
    ensures
        0 <= (t + i) % size < size,
        partial_shares(q, size, t, i + 1) == partial_shares(q, size, t, i).update(
            (t + i) % size,
            partial_shares(q, size, t, i)[(t + i) % size] + 1,
        ),
{
    lemma_step_index(0, t, i, size);
    let a = partial_shares(q, size, t, i);
    let b = partial_shares(q, size, t, i + 1);
    let idx = (t + i) % size;
    assert forall|j: int| 0 <= j < size implies b[j] == a.update(idx, a[idx] + 1)[j] by {
        lemma_step_index(j, t, i, size);
        lemma_mod_near(j - t, size);
    }
    assert(b =~= a.update(idx, a[idx] + 1));
}

proof fn lemma_partial_sum(q: int, size: int, t: int, i: int)
    requires
        0 <= t < size,
        0 <= i <= size,
    ensures
        sum(partial_shares(q, size, t, i)) == size * q + i,
    decreases i,
{
    if i == 0 {
        assert forall|j: int| 0 <= j < size implies !takes_extra(j, t, 0, size) by {
            lemma_mod_near(j - t, size);
        }
        assert(partial_shares(q, size, t, 0) =~= Seq::new(size as nat, |j: int| q));
        lemma_sum_const(size as nat, q);
    } else {
        lemma_partial_sum(q, size, t, i - 1);
        lemma_partial_step(q, size, t, i - 1);
        let idx = (t + i - 1) % size;
        lemma_sum_update(partial_shares(q, size, t, i - 1), idx, partial_shares(q, size, t, i - 1)[idx] + 1);
    }
}

proof fn lemma_blocks_len(c: Seq<int>)
    requires
        forall|j: int| 0 <= j < c.len() ==> c[j] >= 0,
    ensures
        blocks(c).len() == sum(c),
        forall|k: int| 0 <= k < blocks(c).len() ==> 0 <= #[trigger] blocks(c)[k] < c.len(),
    decreases c.len(),
{
    if c.len() > 0 {
        let d = c.drop_last();
        assert forall|j: int| 0 <= j < d.len() implies d[j] >= 0 by {
            assert(d[j] == c[j]);
        }
        lemma_blocks_len(d);
        assert(c.last() >= 0) by {
            assert(c[c.len() - 1] >= 0);
        }
        let b = blocks(c);
        assert forall|k: int| 0 <= k < b.len() implies 0 <= #[trigger] b[k] < c.len() by {
            if k < blocks(d).len() {
                assert(b[k] == blocks(d)[k]);
            }
        }
    }
}

/// Every fragment is placed exactly once, on a device of the list: there are
/// `num` placements (none for `num <= 0`), each naming a device index in
/// `[0, size)`.
pub proof fn lemma_placement_covers(num: int, size: int, t: int)
    requires
        size > 0,
        0 <= t < size,
    ensures
        placement(num, size, t).len() == if num > 0 {
            num
        } else {
            0
        },
        forall|k: int|
            0 <= k < placement(num, size, t).len() ==> 0 <= #[trigger] placement(num, size, t)[k]
                < size,
{
    if num <= size {
        let p = placement(num, size, t);
        assert forall|k: int| 0 <= k < p.len() implies 0 <= #[trigger] p[k] < size by {
            lemma_step_index(0, t, k, size);
        }
    } else {
        lemma_spread_balanced(num, size, t);
        let c = shares(num, size, t);
        lemma_blocks_len(c);
    }
}

/// With more fragments than devices, each device takes `num / size` or one
/// more, and the shares add up to `num`.
pub proof fn lemma_spread_balanced(num: int, size: int, t: int)
    requires
        size > 0,
        0 <= t < size,
        num > size,
    ensures
        shares(num, size, t).len() == size,
        forall|j: int|
            0 <= j < size ==> #[trigger] shares(num, size, t)[j] == num / size
                || shares(num, size, t)[j] == num / size + 1,
        sum(shares(num, size, t)) == num,
{
    let q = num / size;
    let m = num % size;
    lemma_fundamental_div_mod(num, size);
    lemma_mod_pos_bound(num, size);
    assert(0 <= m < size);
    assert(shares(num, size, t) =~= partial_shares(q, size, t, m));
    lemma_partial_sum(q, size, t, m);
    assert(size * q + m == num) by (nonlinear_arith)
        requires
            q == num / size,
            m == num % size,
            size > 0,
    ;
}

proof fn lemma_const_count(n: nat, v: int, x: int)
    ensures
        Seq::new(n, |k: int| v).to_multiset().count(x) == if x == v {
            n
        } else {
            0
        },
    decreases n,
{
    broadcast use vstd::multiset::group_multiset_axioms;

    let s = Seq::new(n, |k: int| v);
    if n == 0 {
        to_multiset_len(s);
        assert(s.to_multiset() =~= Multiset::empty());
    } else {
        let d = Seq::new((n - 1) as nat, |k: int| v);
        lemma_const_count((n - 1) as nat, v, x);
        assert(s =~= d.push(v));
        to_multiset_build(d, v);
    }
}

proof fn lemma_blocks_count(c: Seq<int>, x: int)
    requires
        forall|j: int| 0 <= j < c.len() ==> c[j] >= 0,
    ensures
        blocks(c).to_multiset().count(x) == if 0 <= x < c.len() {
            c[x]
        } else {
            0
        },
    decreases c.len(),
{
    broadcast use vstd::multiset::group_multiset_axioms;

    if c.len() == 0 {
        to_multiset_len(blocks(c));
        assert(blocks(c).to_multiset() =~= Multiset::empty());
    } else {
        let d = c.drop_last();
        assert forall|j: int| 0 <= j < d.len() implies d[j] >= 0 by {
            assert(d[j] == c[j]);
        }
        lemma_blocks_count(d, x);
        assert(c.last() >= 0) by {
            assert(c[c.len() - 1] >= 0);
        }
        let tail = Seq::new(c.last() as nat, |k: int| c.len() - 1);
        lemma_const_count(c.last() as nat, c.len() - 1, x);
        lemma_multiset_commutative(blocks(d), tail);
        if 0 <= x < d.len() {
            assert(d[x] == c[x]);
        }
    }
}

proof fn lemma_blocks_sorted(c: Seq<int>)
    requires
        forall|j: int| 0 <= j < c.len() ==> c[j] >= 0,
    ensures
        forall|k1: int, k2: int|
            0 <= k1 <= k2 < blocks(c).len() ==> blocks(c)[k1] <= blocks(c)[k2],
    decreases c.len(),
{
    if c.len() > 0 {
        let d = c.drop_last();
        assert forall|j: int| 0 <= j < d.len() implies d[j] >= 0 by {
            assert(d[j] == c[j]);
        }
        lemma_blocks_sorted(d);
        lemma_blocks_len(d);
        let b = blocks(c);
        let bd = blocks(d);
        assert forall|k1: int, k2: int| 0 <= k1 <= k2 < b.len() implies b[k1] <= b[k2] by {
            if k2 < bd.len() {
                assert(b[k1] == bd[k1]);
                assert(b[k2] == bd[k2]);
            } else if k1 < bd.len() {
                assert(b[k1] == bd[k1]);
                assert(b[k2] == c.len() - 1);
            } else {
                assert(b[k1] == c.len() - 1);
                assert(b[k2] == c.len() - 1);
            }
        }
    }
}

/// With more fragments than devices, the fragments are dealt out device by
/// device in order (a later fragment never goes to an earlier device), and
/// device `j` receives `num / size` of them, one more exactly when it is one
/// of the `num % size` devices from the drawn device `t` on, wrapping round.
pub proof fn lemma_dealt_in_blocks(num: int, size: int, t: int)
    requires
        size > 0,
        0 <= t < size,
        num > size,
    ensures
        forall|k1: int, k2: int|
            0 <= k1 <= k2 < num ==> placement(num, size, t)[k1] <= placement(num, size, t)[k2],
        forall|j: int|
            0 <= j < size ==> #[trigger] placement(num, size, t).to_multiset().count(j) == num / size
                + if (j - t) % size < num % size {
                1int
            } else {
                0int
            },
{
    let c = shares(num, size, t);
    lemma_spread_balanced(num, size, t);
    lemma_placement_covers(num, size, t);
    lemma_div_pos_is_pos(num, size);
    assert forall|j: int| 0 <= j < c.len() implies c[j] >= 0 by {}
    lemma_blocks_sorted(c);
    assert forall|j: int| 0 <= j < size implies #[trigger] placement(num, size, t).to_multiset().count(j)
        == num / size + if (j - t) % size < num % size {
        1int
    } else {
        0int
    } by {
        lemma_blocks_count(c, j);
    }
}

/// With no more fragments than devices, the first fragment goes to the
/// drawn device `t` and each next one to the device after the previous one,
/// wrapping round after the last device.
pub proof fn lemma_rotation_steps(num: int, size: int, t: int)
    requires
        size > 0,
        0 <= t < size,
        0 < num <= size,
    ensures
        placement(num, size, t)[0] == t,
        forall|k: int|
            0 <= k < num - 1 ==> #[trigger] placement(num, size, t)[k + 1] == if placement(
                num,
                size,
                t,
            )[k] == size - 1 {
                0
            } else {
                placement(num, size, t)[k] + 1
            },
{
    lemma_mod_near(t, size);
    assert forall|k: int| 0 <= k < num - 1 implies #[trigger] placement(num, size, t)[k + 1] == if placement(
        num,
        size,
        t,
    )[k] == size - 1 {
        0
    } else {
        placement(num, size, t)[k] + 1
    } by {
        lemma_step_index(0, t, k, size);
        lemma_step_index(0, t, k + 1, size);
        let x = (t + k) % size;
        lemma_fundamental_div_mod(t + k, size);
        lemma_fundamental_div_mod(t + k + 1, size);
        if t + k < size {
            lemma_mod_near(t + k, size);
            lemma_mod_near(t + k + 1, size);
        } else {
            lemma_mod_near(t + k, size);
            lemma_mod_near(t + k + 1, size);
        }
    }
}

/// With no more fragments than devices, no device takes two fragments.
pub proof fn lemma_rotation_distinct(num: int, size: int, t: int, k1: int, k2: int)
    requires
        size > 0,
        0 <= t < size,
        num <= size,
        0 <= k1 < num,
        0 <= k2 < num,
        k1 != k2,
    ensures
        placement(num, size, t)[k1] != placement(num, size, t)[k2],
{
    lemma_step_index(0, t, k1, size);
    lemma_step_index(0, t, k2, size);
    let j = (t + k1) % size;
    lemma_step_index(j, t, k1, size);
    lemma_step_index(j, t, k2, size);
}

// ---------------------------------------------------------------------------
// Randomness
// ---------------------------------------------------------------------------

#[verifier::external_type_specification]
#[verifier::external_body]
pub struct ExThreadRng(ThreadRng);

/// `rand::thread_rng`: a handle on the thread-local generator. Nothing is
/// claimed of it.
#[verifier::external_body]
fn thread_rng() -> ThreadRng {
    rand::thread_rng()
}

/// `Rng::gen_range(low, high)` of rand 0.6: a value drawn from `[low, high)`.
/// The source asserts `low < high`, which `requires` demands; which value
/// comes back is left open.
#[verifier::external_body]
fn gen_range(rng: &mut ThreadRng, low: i32, high: i32) -> (r: i32)
    requires
        low < high,
    ensures
        low <= r < high,
{
    rng.gen_range(low, high)
}

// ---------------------------------------------------------------------------
// Executable placement
// ---------------------------------------------------------------------------

/// The download requests that place the `num` fragments of `file_id` on the
/// devices `ids`, starting from device `t`.
pub fn plan_placement(file_id: i32, num: i32, ids: &Vec<i32>, t: i32) -> (out: Vec<RequestItem>)
    requires
        0 < ids@.len() <= i32::MAX,
        0 <= t < ids@.len(),
        names_fit(file_id as int, num as int),
    ensures
        out@.len() == planned(file_id as int, num as int, ids@, t as int).len(),
        forall|k: int|
            0 <= k < out@.len() ==> #[trigger] out@[k]@ == planned(
                file_id as int,
                num as int,
                ids@,
                t as int,
            )[k],
{
    let size: i32 = ids.len() as i32;
    let ghost spec_out = planned(file_id as int, num as int, ids@, t as int);
    proof {
        lemma_placement_covers(num as int, size as int, t as int);
    }
    let mut out: Vec<RequestItem> = Vec::new();
    if num <= size {
        let mut i: i32 = 0;
        while i < num
            invariant
                0 <= i,
                num <= size,
                i <= num || num <= 0,
                num <= 0 ==> i == 0,
                size as int == ids@.len(),
                0 <= t < size,
                names_fit(file_id as int, num as int),
                spec_out == planned(file_id as int, num as int, ids@, t as int),
                spec_out.len() == if num > 0 {
                    num as int
                } else {
                    0
                },
                out@.len() == i,
                forall|k: int| 0 <= k < i ==> #[trigger] out@[k]@ == spec_out[k],
            decreases num - i,
        {
            let idx: i64 = (i as i64 + t as i64) % (size as i64);
            let did = ids[idx as usize];
            let item = RequestItem::init_2(REQUEST_DOWNLOAD, file_id * 100 + i, did);
            out.push(item);
            i = i + 1;
        }
        out
    } else {
        let q: i32 = num / size;
        let m: i32 = num % size;
        proof {
            lemma_spread_balanced(num as int, size as int, t as int);
            lemma_fundamental_div_mod(num as int, size as int);
            lemma_mod_pos_bound(num as int, size as int);
            lemma_div_pos_is_pos(num as int, size as int);
            if m > 0 {
                assert(q * 2 <= q * size) by (nonlinear_arith)
                    requires
                        q >= 0,
                        size >= 2,
                ;
            }
        }
        // Every device starts with `q` fragments ...
        let mut counts: Vec<i32> = Vec::new();
        let mut j: i32 = 0;
        while j < size
            invariant
                0 <= j <= size,
                counts@.len() == j,
                forall|x: int| 0 <= x < j ==> #[trigger] counts@[x] == q,
            decreases size - j,
        {
            counts.push(q);
            j = j + 1;
        }
        proof {
            assert forall|x: int| 0 <= x < size implies !takes_extra(x, t as int, 0, size as int) by {
                lemma_mod_near(x - t, size as int);
            }
        }
        // ... and the `m` devices from `t` on take one more.
        let mut i: i32 = 0;
        while i < m
            invariant
                0 <= i <= m,
                m < size,
                0 <= t < size,
                0 <= q,
                m > 0 ==> q < i32::MAX,
                counts@.len() == size,
                forall|x: int|
                    0 <= x < size ==> #[trigger] counts@[x] == partial_shares(
                        q as int,
                        size as int,
                        t as int,
                        i as int,
                    )[x],
            decreases m - i,
        {
            let idx: i64 = (t as i64 + i as i64) % (size as i64);
            proof {
                lemma_partial_step(q as int, size as int, t as int, i as int);
                lemma_step_index(idx as int, t as int, i as int, size as int);
                lemma_mod_near(idx - t, size as int);
            }
            let c = counts[idx as usize];
            counts.set(idx as usize, c + 1);
            i = i + 1;
        }
        let ghost c = shares(num as int, size as int, t as int);
        assert(c =~= partial_shares(q as int, size as int, t as int, m as int));
        // Deal the fragments out device by device.
        let mut k: i32 = 0;
        let mut d: i32 = 0;
        while d < size
            invariant
                0 <= d <= size,
                size as int == ids@.len(),
                counts@.len() == size,
                c.len() == size,
                forall|x: int| 0 <= x < size ==> #[trigger] counts@[x] == c[x],
                forall|x: int| 0 <= x < size ==> #[trigger] c[x] >= 0,
                sum(c) == num,
                names_fit(file_id as int, num as int),
                spec_out == planned(file_id as int, num as int, ids@, t as int),
                placement(num as int, size as int, t as int) == blocks(c),
                k == sum(c.take(d as int)),
                k == out@.len(),
                blocks(c.take(d as int)).len() == k,
                forall|y: int| 0 <= y < k ==> #[trigger] out@[y]@ == spec_out[y],
            decreases size - d,
        {
            let n_d = counts[d as usize];
            let ghost before = c.take(d as int);
            let ghost after = c.take(d + 1);
            proof {
                assert(after.drop_last() =~= before);
                assert(after.last() == c[d as int]);
                lemma_sum_prefix_le(c, d + 1);
            }
            let mut e: i32 = 0;
            while e < n_d
                invariant
                    0 <= e <= n_d,
                    n_d == c[d as int],
                    0 <= d < size,
                    c.len() == size,
                    size as int == ids@.len(),
                    names_fit(file_id as int, num as int),
                    spec_out == planned(file_id as int, num as int, ids@, t as int),
                    placement(num as int, size as int, t as int) == blocks(c),
                    sum(c) == num,
                    before == c.take(d as int),
                    after == c.take(d + 1),
                    after == before.push(c[d as int]),
                    sum(after) <= num,
                    sum(after) == sum(before) + n_d,
                    k == sum(before) + e,
                    k == out@.len(),
                    blocks(before).len() == sum(before),
                    forall|y: int| 0 <= y < k ==> #[trigger] out@[y]@ == spec_out[y],
                    blocks(after) == blocks(before) + Seq::new(n_d as nat, |z: int| d as int),
                    forall|x: int| 0 <= x < size ==> #[trigger] c[x] >= 0,
                decreases n_d - e,
            {
                proof {
                    lemma_blocks_prefix(c, d + 1);
                    assert(blocks(after)[k as int] == d);
                    assert(blocks(c)[k as int] == d);
                }
                let did = ids[d as usize];
                let item = RequestItem::init_2(REQUEST_DOWNLOAD, file_id * 100 + k, did);
                out.push(item);
                k = k + 1;
                e = e + 1;
            }
            d = d + 1;
        }
        assert(c.take(size as int) =~= c);
        out
    }
}

proof fn lemma_sum_prefix_le(c: Seq<int>, n: int)
    requires
        0 <= n <= c.len(),
        forall|x: int| 0 <= x < c.len() ==> #[trigger] c[x] >= 0,
    ensures
        sum(c.take(n)) <= sum(c),
        blocks(c.take(n)).len() == sum(c.take(n)),
    decreases c.len() - n,
{
    if n == c.len() {
        assert(c.take(n) =~= c);
    } else {
        lemma_sum_prefix_le(c, n + 1);
        assert(c.take(n + 1).drop_last() =~= c.take(n));
        assert(c.take(n + 1).last() == c[n]);
    }
    let p = c.take(n);
    assert forall|x: int| 0 <= x < p.len() implies p[x] >= 0 by {
        assert(p[x] == c[x]);
    }
    lemma_blocks_len(p);
}

/// The blocks of a prefix are a prefix of the blocks.
proof fn lemma_blocks_prefix(c: Seq<int>, n: int)
    requires
        0 <= n <= c.len(),
        forall|x: int| 0 <= x < c.len() ==> #[trigger] c[x] >= 0,
    ensures
        forall|y: int|
            0 <= y < blocks(c.take(n)).len() ==> #[trigger] blocks(c)[y] == blocks(c.take(n))[y],
        blocks(c.take(n)).len() <= blocks(c).len(),
    decreases c.len() - n,
{
    lemma_sum_prefix_le(c, n);
    if n == c.len() {
        assert(c.take(n) =~= c);
    } else {
        lemma_blocks_prefix(c, n + 1);
        let a = c.take(n + 1);
        assert(a.drop_last() =~= c.take(n));
        lemma_sum_prefix_le(c, n + 1);
    }
}

/// Places the fragments of a freshly uploaded file on the online devices
/// `ids`, from a randomly chosen starting device. `None` when no device is
/// online. Whatever start was drawn, the requests are those of
/// [`plan_placement`] for it.
pub fn confirm(file_id: i32, num: i32, ids: &Vec<i32>) -> (out: Option<Vec<RequestItem>>)
    requires
        ids@.len() <= i32::MAX,
        ids@.len() > 0 ==> names_fit(file_id as int, num as int),
    ensures
        out is None <==> ids@.len() == 0,
        out matches Some(v) ==> exists|t: int|
            0 <= t < ids@.len() && v@.len() == planned(file_id as int, num as int, ids@, t).len()
                && forall|k: int|
                0 <= k < v@.len() ==> #[trigger] v@[k]@ == planned(
                    file_id as int,
                    num as int,
                    ids@,
                    t,
                )[k],
{
    if ids.len() == 0 {
        return None;
    }
    let size: i32 = ids.len() as i32;
    let mut rng = thread_rng();
    let t = gen_range(&mut rng, 0, size);
    let v = plan_placement(file_id, num, ids, t);
    assert(0 <= t < ids@.len());
    Some(v)
}

} // verus!
