use vstd::prelude::*;

verus! {

/// Number of slab size classes (8 B up to 4 KiB).
pub const NUM_SIZE_CLASSES: usize = 10;

/// Smallest slab block, one machine word.
pub const MIN_SLAB_SIZE: usize = 8;

/// Largest request the slab tier serves.
pub const MAX_SLAB_SIZE: usize = 4096;

/// Smallest buddy block, one page.
pub const MIN_BLOCK_SIZE: usize = 4096;

/// Number of buddy orders (0 to 12, the largest block being 16 MiB).
pub const MAX_ORDER: usize = 13;

/// `2^n`.
pub open spec fn pow2(n: nat) -> nat
    decreases n,
{
    if n == 0 {
        1
    } else {
        2 * pow2((n - 1) as nat)
    }
}

/// Block size of slab class `c`: `8 · 2^c`.
pub open spec fn class_size(c: nat) -> nat {
    8 * pow2(c)
}

/// Block size of buddy order `k`: `4096 · 2^k`.
pub open spec fn block_size(k: nat) -> nat {
    4096 * pow2(k)
}

pub open spec fn spec_max(a: nat, b: nat) -> nat {
    if a >= b {
        a
    } else {
        b
    }
}

/// The slab class serving a request of `size` bytes: the smallest class whose
/// blocks hold it (class 0 for an empty request).
pub open spec fn is_class_for(size: nat, c: nat) -> bool {
    c < NUM_SIZE_CLASSES && size <= class_size(c) && (c == 0 || class_size((c - 1) as nat) < size)
}

/// The buddy order serving a request of `size` bytes: the smallest order whose
/// blocks hold it.
pub open spec fn is_order_for(size: nat, k: nat) -> bool {
    size <= block_size(k) && (k == 0 || block_size((k - 1) as nat) < size)
}

pub proof fn lemma_pow2_pos(n: nat)
    ensures
        pow2(n) >= 1,
    decreases n,
{
    if n > 0 {
        lemma_pow2_pos((n - 1) as nat);
    }
}

/// `2^a` divides `2^b` and is no larger, for `a ≤ b`.
pub proof fn lemma_pow2_mono(a: nat, b: nat)
    requires
        a <= b,
    ensures
        pow2(a) <= pow2(b),
        pow2(b) % pow2(a) == 0,
    decreases b,
{
    lemma_pow2_pos(a);
    if a == b {
        vstd::arithmetic::div_mod::lemma_mod_self_0(pow2(a) as int);
    } else {
        lemma_pow2_mono(a, (b - 1) as nat);
        let q = pow2((b - 1) as nat) / pow2(a);
        vstd::arithmetic::div_mod::lemma_fundamental_div_mod(pow2((b - 1) as nat) as int, pow2(a) as int);
        assert(pow2(b) == pow2(a) * (2 * q)) by (nonlinear_arith)
            requires
                pow2(b) == 2 * pow2((b - 1) as nat),
                pow2((b - 1) as nat) == pow2(a) * q + 0,
        ;
        vstd::arithmetic::div_mod::lemma_mod_multiples_basic((2 * q) as int, pow2(a) as int);
        assert((2 * q) * pow2(a) == pow2(a) * (2 * q)) by (nonlinear_arith);
    }
}

/// The concrete values of the ten slab classes and thirteen buddy orders.
pub proof fn lemma_size_table()
    ensures
        class_size(0) == 8,
        class_size(1) == 16,
        class_size(2) == 32,
        class_size(3) == 64,
        class_size(4) == 128,
        class_size(5) == 256,
        class_size(6) == 512,
        class_size(7) == 1024,
        class_size(8) == 2048,
        class_size(9) == 4096,
        block_size(0) == 4096,
        block_size(1) == 8192,
        block_size(12) == 0x100_0000,
        pow2(12) == 4096,
{
    reveal_with_fuel(pow2, 13);
}

/// An allocation request: `size` bytes aligned to `align`, a power of two.
#[derive(Debug, Clone, Copy, PartialEq, Eq, Structural)]
pub struct Layout {
    pub size: usize,
    pub align: usize,
}

impl Layout {
    pub open spec fn valid(self) -> bool {
        exists|n: nat| n < 64 && #[trigger] pow2(n) == self.align
    }

    /// The size a block must have to serve the request: `max(size, align)`.
    pub open spec fn effective(self) -> nat {
        spec_max(self.size as nat, self.align as nat)
    }

    pub fn from_size_align(size: usize, align: usize) -> (r: Layout)
        ensures
            r == (Layout { size, align }),
    {
        Layout { size, align }
    }
}

/// Smallest class at least `c` whose blocks hold `size` bytes (the last class
/// when none does).
pub open spec fn class_from(size: nat, c: nat) -> nat
    decreases NUM_SIZE_CLASSES - c,
{
    if c + 1 >= NUM_SIZE_CLASSES {
        (NUM_SIZE_CLASSES - 1) as nat
    } else if size <= class_size(c) {
        c
    } else {
        class_from(size, c + 1)
    }
}

/// The slab class serving a request of `size` bytes.
pub open spec fn class_of(size: nat) -> nat {
    class_from(size, 0)
}

/// Slab class index for a request of `size` bytes, or `None` above 4 KiB.
pub fn size_to_class(size: usize) -> (r: Option<usize>)
    ensures
        size <= MAX_SLAB_SIZE <==> r.is_some(),
        r matches Some(c) ==> c == class_of(size as nat) && is_class_for(size as nat, c as nat),
{
    proof {
        lemma_size_table();
    }
    if size > MAX_SLAB_SIZE {
        return None;
    }
    let mut c: usize = 0;
    let mut s: usize = MIN_SLAB_SIZE;
    while s < size
        invariant
            c < NUM_SIZE_CLASSES,
            s == class_size(c as nat),
            size <= MAX_SLAB_SIZE,
            c == 0 || class_size((c - 1) as nat) < size,
            class_of(size as nat) == class_from(size as nat, c as nat),
        decreases MAX_SLAB_SIZE - s,
    {
        proof {
            lemma_size_table();
            if c == 9 {
                assert(false);
            }
            lemma_pow2_mono(c as nat, 8);
        }
        s = s * 2;
        c = c + 1;
        assert(class_size(c as nat) == 2 * class_size((c - 1) as nat));
    }
    proof {
        lemma_size_table();
    }
    Some(c)
}

/// Smallest order at least `k` whose blocks hold `size` bytes (searched up
/// to order 64, beyond any size a machine word can express).
pub open spec fn order_from(size: nat, k: nat) -> nat
    decreases 64 - k,
{
    if k >= 64 {
        64
    } else if size <= block_size(k) {
        k
    } else {
        order_from(size, k + 1)
    }
}

/// Smallest order whose blocks hold `size` bytes: `ceil(log2(size)) − 12`,
/// and 0 for sizes up to a page.
pub open spec fn order_of(size: nat) -> nat {
    order_from(size, 0)
}

pub proof fn lemma_pow2_52()
    ensures
        pow2(52) == 0x10_0000_0000_0000,
{
    reveal_with_fuel(pow2, 53);
}

/// Buddy order for a request of `size` bytes: the smallest order whose blocks
/// hold it, which may be `MAX_ORDER` or more when no block is large enough.
pub fn size_to_order(size: usize) -> (r: usize)
    ensures
        r == order_of(size as nat),
        r < 64,
        is_order_for(size as nat, r as nat),
        r >= MAX_ORDER <==> block_size((MAX_ORDER - 1) as nat) < size,
{
    proof {
        lemma_size_table();
    }
    let mut k: usize = 0;
    let mut s: u128 = MIN_BLOCK_SIZE as u128;
    while s < size as u128
        invariant
            k < 64,
            s == block_size(k as nat),
            k == 0 || block_size((k - 1) as nat) < size,
            order_of(size as nat) == order_from(size as nat, k as nat),
            k >= 12 ==> block_size(11) < size,
        decreases 2 * (size as int) - s,
    {
        proof {
            lemma_size_table();
            if k >= 52 {
                lemma_pow2_52();
                lemma_pow2_mono(52, k as nat);
                assert(false);
            }
            lemma_pow2_pos(k as nat);
            if k >= 11 {
                lemma_pow2_mono(11, k as nat);
            }
        }
        s = s * 2;
        k = k + 1;
        assert(block_size(k as nat) == 2 * block_size((k - 1) as nat));
    }
    proof {
        if k < 12 {
            lemma_block_size_mono(k as nat, 12);
        } else {
            lemma_block_size_mono(12, k as nat);
        }
        if k >= 13 {
            lemma_block_size_mono(12, (k - 1) as nat);
        }
    }
    k
}

/// Block size of order `order`.
pub fn order_to_size(order: usize) -> (r: usize)
    requires
        order < MAX_ORDER,
    ensures
        r == block_size(order as nat),
{
    proof {
        lemma_size_table();
    }
    let mut k: usize = 0;
    let mut s: usize = MIN_BLOCK_SIZE;
    while k < order
        invariant
            k <= order < MAX_ORDER,
            s == block_size(k as nat),
        decreases order - k,
    {
        proof {
            lemma_size_table();
            lemma_pow2_mono(k as nat, 11);
        }
        s = s * 2;
        k = k + 1;
        assert(block_size(k as nat) == 2 * block_size((k - 1) as nat));
    }
    s
}


/// `[a, a + sa)` and `[b, b + sb)` share no byte.
pub open spec fn disjoint(a: int, sa: int, b: int, sb: int) -> bool {
    a + sa <= b || b + sb <= a
}

/// Block `a` of order `k` lies inside the region `[start, start + size)` at an
/// offset that is a multiple of its own size.
pub open spec fn block_ok(start: int, size: int, k: nat, a: int) -> bool {
    a >= start && (a - start) % (block_size(k) as int) == 0 && a - start + block_size(k) <= size
}

/// Every free block lies properly inside the region.
pub open spec fn all_ok(lists: Seq<Seq<usize>>, start: int, size: int) -> bool {
    forall|k: int, i: int|
        0 <= k < lists.len() && 0 <= i < lists[k].len() ==> block_ok(
            start,
            size,
            k as nat,
            #[trigger] lists[k][i] as int,
        )
}

/// No two free blocks overlap.
pub open spec fn all_disjoint(lists: Seq<Seq<usize>>) -> bool {
    forall|k1: int, i1: int, k2: int, i2: int|
        0 <= k1 < lists.len() && 0 <= i1 < lists[k1].len() && 0 <= k2 < lists.len() && 0 <= i2
            < lists[k2].len() && (k1 != k2 || i1 != i2) ==> disjoint(
            #[trigger] lists[k1][i1] as int,
            block_size(k1 as nat) as int,
            #[trigger] lists[k2][i2] as int,
            block_size(k2 as nat) as int,
        )
}

/// `[a, a + sa)` overlaps no free block.
pub open spec fn disjoint_from_all(lists: Seq<Seq<usize>>, a: int, sa: int) -> bool {
    forall|k: int, i: int|
        0 <= k < lists.len() && 0 <= i < lists[k].len() ==> disjoint(
            a,
            sa,
            #[trigger] lists[k][i] as int,
            block_size(k as nat) as int,
        )
}

/// Total bytes held by the first `n` free lists.
pub open spec fn lists_capacity(lists: Seq<Seq<usize>>, n: nat) -> nat
    decreases n,
{
    if n == 0 {
        0
    } else {
        lists_capacity(lists, (n - 1) as nat) + lists[n - 1].len() * block_size((n - 1) as nat)
    }
}

/// The buddy of the block at `a` of order `k` in a region starting at `base`:
/// the neighbour with which it forms an aligned block of order `k + 1`, above
/// it when its offset is an even multiple of the block size, below it otherwise.
pub open spec fn buddy_of(base: int, a: int, k: nat) -> int {
    if ((a - base) / (block_size(k) as int)) % 2 == 0 {
        a + block_size(k)
    } else {
        a - block_size(k)
    }
}

pub proof fn lemma_block_size_pos(k: nat)
    ensures
        block_size(k) >= 4096,
{
    lemma_pow2_pos(k);
}

/// A multiple of `m` is a multiple of every divisor of `m`.
pub proof fn lemma_mod_trans(a: int, m: int, b: int)
    requires
        a >= 0,
        m > 0,
        b > 0,
        a % m == 0,
        m % b == 0,
    ensures
        a % b == 0,
{
    vstd::arithmetic::div_mod::lemma_fundamental_div_mod(a, m);
    vstd::arithmetic::div_mod::lemma_fundamental_div_mod(m, b);
    let q1 = a / m;
    let q2 = m / b;
    assert(a == (q1 * q2) * b) by (nonlinear_arith)
        requires
            a == m * q1 + 0,
            m == b * q2 + 0,
    ;
    vstd::arithmetic::div_mod::lemma_mod_multiples_basic(q1 * q2, b);
}

/// Block sizes of lower orders divide those of higher ones.
pub proof fn lemma_block_size_mono(j: nat, k: nat)
    requires
        j <= k,
    ensures
        block_size(j) <= block_size(k),
        block_size(k) % block_size(j) == 0,
{
    lemma_pow2_mono(j, k);
    lemma_pow2_pos(j);
    vstd::arithmetic::div_mod::lemma_fundamental_div_mod(pow2(k) as int, pow2(j) as int);
    let q = pow2(k) / pow2(j);
    assert(block_size(k) == block_size(j) * q) by (nonlinear_arith)
        requires
            pow2(k) == pow2(j) * q + 0,
            block_size(k) == 4096 * pow2(k),
            block_size(j) == 4096 * pow2(j),
    ;
    vstd::arithmetic::div_mod::lemma_mod_multiples_basic(q as int, block_size(j) as int);
    assert(q * block_size(j) == block_size(j) * q) by (nonlinear_arith);
}

/// Adding `x` at order `k` keeps the free blocks in the region and apart.
pub proof fn lemma_push_block(lists: Seq<Seq<usize>>, start: int, size: int, k: int, x: usize)
    requires
        0 <= k < lists.len(),
        all_ok(lists, start, size),
        all_disjoint(lists),
        block_ok(start, size, k as nat, x as int),
        disjoint_from_all(lists, x as int, block_size(k as nat) as int),
    ensures
        all_ok(lists.update(k, lists[k].push(x)), start, size),
        all_disjoint(lists.update(k, lists[k].push(x))),
{
    let n = lists.update(k, lists[k].push(x));
    assert forall|k1: int, i1: int|
        0 <= k1 < n.len() && 0 <= i1 < n[k1].len() implies block_ok(
        start,
        size,
        k1 as nat,
        #[trigger] n[k1][i1] as int,
    ) by {
        if k1 == k && i1 == lists[k].len() {
        } else {
            assert(n[k1][i1] == lists[k1][i1]);
        }
    }
    assert forall|k1: int, i1: int, k2: int, i2: int|
        0 <= k1 < n.len() && 0 <= i1 < n[k1].len() && 0 <= k2 < n.len() && 0 <= i2 < n[k2].len()
            && (k1 != k2 || i1 != i2) implies disjoint(
        #[trigger] n[k1][i1] as int,
        block_size(k1 as nat) as int,
        #[trigger] n[k2][i2] as int,
        block_size(k2 as nat) as int,
    ) by {
        let new1 = k1 == k && i1 == lists[k].len();
        let new2 = k2 == k && i2 == lists[k].len();
        if new1 {
            assert(n[k2][i2] == lists[k2][i2]);
        } else if new2 {
            assert(n[k1][i1] == lists[k1][i1]);
        } else {
            assert(n[k1][i1] == lists[k1][i1]);
            assert(n[k2][i2] == lists[k2][i2]);
        }
    }
}

/// Taking the block at index `idx` of order `k` out of its list keeps the rest
/// in the region and apart, and that block overlaps none of the rest.
pub proof fn lemma_remove_block(lists: Seq<Seq<usize>>, start: int, size: int, k: int, idx: int)
    requires
        0 <= k < lists.len(),
        0 <= idx < lists[k].len(),
        all_ok(lists, start, size),
        all_disjoint(lists),
    ensures
        all_ok(lists.update(k, lists[k].remove(idx)), start, size),
        all_disjoint(lists.update(k, lists[k].remove(idx))),
        disjoint_from_all(
            lists.update(k, lists[k].remove(idx)),
            lists[k][idx] as int,
            block_size(k as nat) as int,
        ),
        forall|a: int, sa: int|
            disjoint_from_all(lists, a, sa) ==> disjoint_from_all(
                lists.update(k, lists[k].remove(idx)),
                a,
                sa,
            ),
{
    let n = lists.update(k, lists[k].remove(idx));
    let src = |k1: int, i1: int|
        if k1 == k && i1 >= idx {
            i1 + 1
        } else {
            i1
        };
    assert forall|k1: int, i1: int|
        0 <= k1 < n.len() && 0 <= i1 < n[k1].len() implies n[k1][i1] == lists[k1][src(k1, i1)]
        && 0 <= src(k1, i1) < lists[k1].len() by {}
    assert forall|k1: int, i1: int|
        0 <= k1 < n.len() && 0 <= i1 < n[k1].len() implies block_ok(
        start,
        size,
        k1 as nat,
        #[trigger] n[k1][i1] as int,
    ) by {
        assert(n[k1][i1] == lists[k1][src(k1, i1)]);
    }
    assert forall|k1: int, i1: int, k2: int, i2: int|
        0 <= k1 < n.len() && 0 <= i1 < n[k1].len() && 0 <= k2 < n.len() && 0 <= i2 < n[k2].len()
            && (k1 != k2 || i1 != i2) implies disjoint(
        #[trigger] n[k1][i1] as int,
        block_size(k1 as nat) as int,
        #[trigger] n[k2][i2] as int,
        block_size(k2 as nat) as int,
    ) by {
        assert(n[k1][i1] == lists[k1][src(k1, i1)]);
        assert(n[k2][i2] == lists[k2][src(k2, i2)]);
    }
    assert forall|k1: int, i1: int|
        0 <= k1 < n.len() && 0 <= i1 < n[k1].len() implies disjoint(
        lists[k][idx] as int,
        block_size(k as nat) as int,
        #[trigger] n[k1][i1] as int,
        block_size(k1 as nat) as int,
    ) by {
        assert(n[k1][i1] == lists[k1][src(k1, i1)]);
    }
    assert forall|a: int, sa: int| disjoint_from_all(lists, a, sa) implies disjoint_from_all(
        n,
        a,
        sa,
    ) by {
        assert forall|k1: int, i1: int| 0 <= k1 < n.len() && 0 <= i1 < n[k1].len() implies disjoint(
            a,
            sa,
            #[trigger] n[k1][i1] as int,
            block_size(k1 as nat) as int,
        ) by {
            assert(n[k1][i1] == lists[k1][src(k1, i1)]);
        }
    }
}

/// Empty lists hold nothing.
pub proof fn lemma_capacity_zero(lists: Seq<Seq<usize>>, n: nat)
    requires
        n <= lists.len(),
        forall|k: int| 0 <= k < n ==> #[trigger] lists[k].len() == 0,
    ensures
        lists_capacity(lists, n) == 0,
    decreases n,
{
    if n > 0 {
        lemma_capacity_zero(lists, (n - 1) as nat);
    }
}

/// Replacing list `k` changes the total by the difference of its two lengths.
pub proof fn lemma_capacity_update(lists: Seq<Seq<usize>>, k: int, l: Seq<usize>, n: nat)
    requires
        0 <= k < lists.len(),
        n <= lists.len(),
    ensures
        k < n ==> lists_capacity(lists.update(k, l), n) + lists[k].len() * block_size(k as nat)
            == lists_capacity(lists, n) + l.len() * block_size(k as nat),
        k >= n ==> lists_capacity(lists.update(k, l), n) == lists_capacity(lists, n),
    decreases n,
{
    if n > 0 {
        lemma_capacity_update(lists, k, l, (n - 1) as nat);
    }
}


/// First order at least `k` whose free list is not empty, or `MAX_ORDER`.
pub open spec fn first_nonempty(lists: Seq<Seq<usize>>, k: nat) -> nat
    decreases MAX_ORDER - k,
{
    if k >= MAX_ORDER {
        MAX_ORDER as nat
    } else if lists[k as int].len() > 0 {
        k
    } else {
        first_nonempty(lists, k + 1)
    }
}

/// The free lists after the last block of order `found` at address `b` was
/// taken and split down to order `req`: each split step frees the upper half,
/// `b + block_size(j)` at order `j`.
pub open spec fn split_result(lists: Seq<Seq<usize>>, req: nat, found: nat, b: usize) -> Seq<Seq<usize>> {
    Seq::new(
        lists.len(),
        |j: int|
            if j == found {
                lists[j].remove(lists[j].len() - 1)
            } else if req <= j < found {
                lists[j].push((b + block_size(j as nat)) as usize)
            } else {
                lists[j]
            },
    )
}

/// `lists` with block `a` pushed onto the list of order `k`.
pub open spec fn push_block(lists: Seq<Seq<usize>>, k: nat, a: int) -> Seq<Seq<usize>> {
    lists.update(k as int, lists[k as int].push(a as usize))
}

/// The free lists after block `a` of order `k` is freed into `lists`: while
/// its buddy lies in the region `[start, start + size)` and is free at the
/// same order (and a larger order exists), the buddy leaves its list and the
/// pair continues as one block at the lower address one order up; the block
/// is pushed at the order where merging stops.
pub open spec fn merge_result(lists: Seq<Seq<usize>>, start: int, size: int, a: int, k: nat) -> Seq<Seq<usize>>
    decreases MAX_ORDER - k,
{
    if k + 1 >= MAX_ORDER {
        push_block(lists, k, a)
    } else {
        let b = buddy_of(start, a, k);
        if start <= b < start + size && lists[k as int].contains(b as usize) {
            let m = if a < b { a } else { b };
            merge_result(
                lists.update(k as int, lists[k as int].remove(lists[k as int].index_of(b as usize))),
                start,
                size,
                m,
                k + 1,
            )
        } else {
            push_block(lists, k, a)
        }
    }
}

/// The buddy of an aligned block is a different aligned block of the same
/// order, its own buddy is the block again, and the lower of the two starts
/// an aligned block of the next order.
pub proof fn law_buddy_involution(start: int, k: nat, a: int)
    requires
        a >= start,
        (a - start) % (block_size(k) as int) == 0,
    ensures
        buddy_of(start, a, k) != a,
        buddy_of(start, a, k) >= start,
        (buddy_of(start, a, k) - start) % (block_size(k) as int) == 0,
        buddy_of(start, buddy_of(start, a, k), k) == a,
        ((if a < buddy_of(start, a, k) { a } else { buddy_of(start, a, k) }) - start) % (block_size(k + 1) as int) == 0,
{
    let bs = block_size(k) as int;
    lemma_block_size_pos(k);
    assert(block_size(k + 1) == 2 * bs);
    let rel = a - start;
    let q = rel / bs;
    vstd::arithmetic::div_mod::lemma_fundamental_div_mod(rel, bs);
    vstd::arithmetic::div_mod::lemma_fundamental_div_mod(q, 2);
    let t = q / 2;
    if q % 2 == 0 {
        assert(rel + bs == (q + 1) * bs) by (nonlinear_arith) requires rel == bs * q + 0;
        vstd::arithmetic::div_mod::lemma_fundamental_div_mod_converse(rel + bs, bs, q + 1, 0);
        vstd::arithmetic::div_mod::lemma_mod_multiples_basic(q + 1, bs);
        assert(rel == t * (2 * bs)) by (nonlinear_arith) requires rel == bs * q + 0, q == 2 * t + 0;
        vstd::arithmetic::div_mod::lemma_mod_multiples_basic(t, 2 * bs);
    } else {
        assert(rel >= bs) by (nonlinear_arith) requires rel == bs * q + 0, q % 2 != 0, rel >= 0, bs > 0, q == 2 * t + q % 2;
        assert(rel - bs == (q - 1) * bs) by (nonlinear_arith) requires rel == bs * q + 0;
        vstd::arithmetic::div_mod::lemma_fundamental_div_mod_converse(rel - bs, bs, q - 1, 0);
        vstd::arithmetic::div_mod::lemma_mod_multiples_basic(q - 1, bs);
        assert(rel - bs == t * (2 * bs)) by (nonlinear_arith) requires rel == bs * q + 0, q == 2 * t + 1;
        vstd::arithmetic::div_mod::lemma_mod_multiples_basic(t, 2 * bs);
    }
}

/// On an offset that is a multiple of the block size, stepping to the
/// neighbour block is flipping the block-size bit of the offset.
pub proof fn lemma_buddy_xor(rel: u64, k: u64)
    requires
        k < 13,
        rel % (4096u64 << k) == 0,
        rel + (4096u64 << k) <= u64::MAX,
    ensures
        (rel / (4096u64 << k)) % 2 == 0 ==> rel ^ (4096u64 << k) == rel + (4096u64 << k),
        (rel / (4096u64 << k)) % 2 != 0 ==> rel ^ (4096u64 << k) == rel - (4096u64 << k),
{
    assert((rel / (4096u64 << k)) % 2 == 0 ==> rel ^ (4096u64 << k) == rel + (4096u64 << k)) by (bit_vector)
        requires k < 13, rel % (4096u64 << k) == 0, rel + (4096u64 << k) <= 0xFFFF_FFFF_FFFF_FFFFu64;
    assert((rel / (4096u64 << k)) % 2 != 0 ==> rel ^ (4096u64 << k) == rel - (4096u64 << k)) by (bit_vector)
        requires k < 13, rel % (4096u64 << k) == 0, rel + (4096u64 << k) <= 0xFFFF_FFFF_FFFF_FFFFu64;
}

/// Block sizes are page sizes shifted left by the order.
pub proof fn lemma_block_size_shift(k: u64)
    requires
        k < 13,
    ensures
        block_size(k as nat) == (4096u64 << k) as nat,
    decreases k,
{
    if k == 0 {
        assert((4096u64 << 0u64) == 4096) by (bit_vector);
    } else {
        lemma_block_size_shift((k - 1) as u64);
        assert((4096u64 << k) == 2 * (4096u64 << ((k - 1) as u64))) by (bit_vector)
            requires 0 < k < 13;
    }
}

/// Freeing the first of four 1 MiB blocks of a 4 MiB block at the region
/// start, after the other three were freed (leaving the second on the
/// order-8 list and the upper half on the order-9 list), leaves one 4 MiB
/// block on the order-10 list and none on the order-8 and order-9 lists.
pub proof fn law_four_block_coalescing(lists: Seq<Seq<usize>>, start: usize, size: int)
    requires
        lists.len() == MAX_ORDER,
        start % 0x40_0000 == 0,
        start + 0x80_0000 <= usize::MAX,
        0x40_0000 <= size <= 0x80_0000,
        lists[8] == seq![(start + 0x10_0000) as usize],
        lists[9] == seq![(start + 0x20_0000) as usize],
        lists[10].len() == 0,
    ensures
        merge_result(lists, start as int, size, start as int, 8)[8].len() == 0,
        merge_result(lists, start as int, size, start as int, 8)[9].len() == 0,
        merge_result(lists, start as int, size, start as int, 8)[10] == seq![start],
{
    reveal_with_fuel(pow2, 11);
    assert(block_size(8) == 0x10_0000);
    assert(block_size(9) == 0x20_0000);
    assert(block_size(10) == 0x40_0000);
    let s = start as int;
    assert(buddy_of(s, s, 8) == s + 0x10_0000);
    assert(lists[8].contains((start + 0x10_0000) as usize)) by {
        assert(lists[8][0] == (start + 0x10_0000) as usize);
    }
    let l1 = lists.update(8, lists[8].remove(lists[8].index_of((start + 0x10_0000) as usize)));
    assert(l1[8].len() == 0);
    assert(buddy_of(s, s, 9) == s + 0x20_0000);
    assert(l1[9].contains((start + 0x20_0000) as usize)) by {
        assert(l1[9][0] == (start + 0x20_0000) as usize);
    }
    let l2 = l1.update(9, l1[9].remove(l1[9].index_of((start + 0x20_0000) as usize)));
    assert(l2[9].len() == 0);
    assert(buddy_of(s, s, 10) == s + 0x40_0000);
    assert(!l2[10].contains((start + 0x40_0000) as usize));
    assert(merge_result(l2, s, size, s, 10) == push_block(l2, 10, s));
    assert(merge_result(l1, s, size, s, 9) == merge_result(l2, s, size, s, 10));
    assert(merge_result(lists, s, size, s, 8) == merge_result(l1, s, size, s, 9));
    assert(push_block(l2, 10, s)[10] =~= seq![start]);
}

/// No free block has its buddy free at the same order as well.
pub open spec fn no_free_buddies(lists: Seq<Seq<usize>>, start: int, size: int) -> bool {
    forall|k: int, i: int|
        0 <= k < MAX_ORDER - 1 && 0 <= i < lists[k].len() && start <= #[trigger] buddy_of(start, lists[k][i] as int, k as nat) < start + size
            ==> !lists[k].contains(buddy_of(start, lists[k][i] as int, k as nat) as usize)
}

proof fn lemma_restore(lists: Seq<Seq<usize>>, start: int, size: int, j: nat, found: nat, p: usize)
    requires
        lists.len() == MAX_ORDER,
        0 <= start,
        start + size <= usize::MAX,
        all_ok(lists, start, size),
        all_disjoint(lists),
        no_free_buddies(lists, start, size),
        j <= found < MAX_ORDER,
        lists[found as int].len() > 0,
        p == lists[found as int].last(),
    ensures
        merge_result(split_result(lists, j, found, p), start, size, p as int, j) == lists,
    decreases found - j,
{
    let m = split_result(lists, j, found, p);
    let lf = lists[found as int];
    assert(block_ok(start, size, found, p as int)) by {
        assert(lists[found as int][lf.len() - 1] == p);
    }
    if j == found {
        let b = buddy_of(start, p as int, found);
        if found + 1 < MAX_ORDER && start <= b < start + size && m[found as int].contains(b as usize) {
            let i = choose|i: int| 0 <= i < m[found as int].len() && m[found as int][i] == b as usize;
            assert(lf[i] == b as usize);
            assert(lf.contains(b as usize));
            assert(buddy_of(start, lf[lf.len() - 1] as int, found) == b);
            assert(false);
        }
        assert(lf.remove(lf.len() - 1).push(p) =~= lf);
        assert(push_block(m, found, p as int) =~= lists);
    } else {
        let bs = block_size(j) as int;
        lemma_block_size_pos(j);
        lemma_block_size_mono(j + 1, found);
        assert(block_size(j + 1) == 2 * bs);
        let rel = p - start;
        lemma_mod_trans(rel, block_size(found) as int, 2 * bs);
        vstd::arithmetic::div_mod::lemma_fundamental_div_mod(rel, 2 * bs);
        let t = rel / (2 * bs);
        assert(rel == (2 * t) * bs) by (nonlinear_arith) requires rel == (2 * bs) * t + 0;
        vstd::arithmetic::div_mod::lemma_fundamental_div_mod_converse(rel, bs, 2 * t, 0);
        let b = buddy_of(start, p as int, j);
        assert(b == p + bs);
        lemma_block_size_mono(j, found);
        assert(bs < block_size(found)) by {
            lemma_pow2_mono(j + 1, found);
        }
        let lj = lists[j as int];
        assert(m[j as int] == lj.push(b as usize));
        // the split-off half is not listed already
        assert(b + bs <= start + size);
        assert forall|i: int| 0 <= i < lj.len() implies lj[i] != b as usize by {
            assert(disjoint(lists[j as int][i] as int, bs, lists[found as int][lf.len() - 1] as int, block_size(found) as int));
        }
        let mj = m[j as int];
        assert(mj.contains(b as usize)) by {
            assert(mj[lj.len() as int] == b as usize);
        }
        let idx = mj.index_of(b as usize);
        assert(0 <= idx < mj.len() && mj[idx] == b as usize);
        if idx < lj.len() {
            assert(lj[idx] == b as usize);
        }
        assert(idx == lj.len());
        assert(mj.remove(idx) =~= lj);
        let m2 = m.update(j as int, mj.remove(idx));
        assert(m2 =~= split_result(lists, j + 1, found, p));
        assert(merge_result(m, start, size, p as int, j) == merge_result(m2, start, size, p as int, j + 1));
        lemma_restore(lists, start, size, j + 1, found, p);
    }
}

/// Freeing a block right after it was allocated, with the same size, gives
/// back exactly the free lists from before the allocation, provided no two
/// free blocks were buddies (splitting and merging undo each other).
pub proof fn law_free_after_allocate_restores(lists: Seq<Seq<usize>>, start: int, size: int, req: nat, p: usize)
    requires
        lists.len() == MAX_ORDER,
        0 <= start,
        start + size <= usize::MAX,
        all_ok(lists, start, size),
        all_disjoint(lists),
        no_free_buddies(lists, start, size),
        req < MAX_ORDER,
        first_nonempty(lists, req) < MAX_ORDER,
        p == lists[first_nonempty(lists, req) as int].last(),
    ensures
        merge_result(split_result(lists, req, first_nonempty(lists, req), p), start, size, p as int, req) == lists,
{
    lemma_first_nonempty(lists, req);
    lemma_restore(lists, start, size, req, first_nonempty(lists, req), p);
}

/// The buddy tier: one free list per order, each holding the addresses of the
/// free blocks of that order, the most recently freed last.
pub struct BuddyAllocator {
    free_lists: Vec<Vec<usize>>,
    region_start: usize,
    region_size: usize,
}

impl BuddyAllocator {
    /// The free lists, order by order.
    pub closed spec fn lists(&self) -> Seq<Seq<usize>> {
        Seq::new(self.free_lists@.len(), |k: int| self.free_lists@[k]@)
    }

    pub closed spec fn start(&self) -> int {
        self.region_start as int
    }

    pub closed spec fn size(&self) -> int {
        self.region_size as int
    }

    pub open spec fn list(&self, k: int) -> Seq<usize> {
        self.lists()[k]
    }

    /// Bytes held by all free blocks.
    pub open spec fn capacity(&self) -> nat {
        lists_capacity(self.lists(), MAX_ORDER as nat)
    }

    pub open spec fn wf(&self) -> bool {
        &&& self.lists().len() == MAX_ORDER
        &&& self.start() % 4096 == 0
        &&& self.start() + self.size() <= usize::MAX
        &&& all_ok(self.lists(), self.start(), self.size())
        &&& all_disjoint(self.lists())
    }

    pub fn new() -> (r: BuddyAllocator)
        ensures
            r.wf(),
            r.start() == 0,
            r.size() == 0,
            forall|k: int| 0 <= k < MAX_ORDER ==> #[trigger] r.list(k).len() == 0,
    {
        let mut free_lists: Vec<Vec<usize>> = Vec::new();
        let mut k: usize = 0;
        while k < MAX_ORDER
            invariant
                k <= MAX_ORDER,
                free_lists@.len() == k,
                forall|j: int| 0 <= j < k ==> (#[trigger] free_lists@[j])@.len() == 0,
            decreases MAX_ORDER - k,
        {
            free_lists.push(Vec::new());
            k = k + 1;
        }
        let r = BuddyAllocator { free_lists, region_start: 0, region_size: 0 };
        assert(r.lists().len() == MAX_ORDER);
        r
    }

    /// Start of the buddy region.
    pub fn region_start(&self) -> (r: usize)
        ensures
            r == self.start(),
    {
        self.region_start
    }

    /// Length of the buddy region in bytes.
    pub fn region_size(&self) -> (r: usize)
        ensures
            r == self.size(),
    {
        self.region_size
    }

    /// Address of the buddy of block `addr` of order `order`:
    /// `start + ((addr − start) XOR block_size(order))`.
    pub fn buddy_address(&self, addr: usize, order: usize) -> (r: usize)
        requires
            self.wf(),
            order < MAX_ORDER,
            block_ok(self.start(), self.size(), order as nat, addr as int),
        ensures
            r == buddy_of(self.start(), addr as int, order as nat),
            r - self.start() == ((addr - self.start()) as u64 ^ (4096u64 << (order as u64))) as int,
    {
        let bs = order_to_size(order);
        let relative = addr - self.region_start;
        proof {
            lemma_block_size_pos(order as nat);
            lemma_block_size_shift(order as u64);
            assert(bs as u64 == (4096u64 << (order as u64)));
            lemma_buddy_xor(relative as u64, order as u64);
            assert((relative ^ bs) as u64 == (relative as u64) ^ (bs as u64));
            vstd::arithmetic::div_mod::lemma_fundamental_div_mod(relative as int, bs as int);
        }
        self.region_start + (relative ^ bs)
    }

    fn replace_list(&mut self, order: usize, l: Vec<usize>) -> (old_list: Vec<usize>)
        requires
            old(self).lists().len() == MAX_ORDER,
            order < MAX_ORDER,
        ensures
            old_list@ == old(self).list(order as int),
            final(self).lists() == old(self).lists().update(order as int, l@),
            final(self).start() == old(self).start(),
            final(self).size() == old(self).size(),
    {
        let ghost new_list = l@;
        let mut l = l;
        self.free_lists.set_and_swap(order, &mut l);
        assert(self.lists() =~= old(self).lists().update(order as int, new_list));
        l
    }

    /// Pushes block `addr` onto the free list of `order`.
    fn add_to_free_list(&mut self, addr: usize, order: usize)
        requires
            old(self).lists().len() == MAX_ORDER,
            order < MAX_ORDER,
        ensures
            final(self).lists() == old(self).lists().update(
                order as int,
                old(self).list(order as int).push(addr),
            ),
            final(self).start() == old(self).start(),
            final(self).size() == old(self).size(),
    {
        let mut l = self.replace_list(order, Vec::new());
        l.push(addr);
        let _ = self.replace_list(order, l);
        assert(self.lists() =~= old(self).lists().update(
            order as int,
            old(self).list(order as int).push(addr),
        ));
    }

    /// Pops the most recently freed block of `order`.
    fn remove_from_free_list(&mut self, order: usize) -> (r: Option<usize>)
        requires
            old(self).lists().len() == MAX_ORDER,
            order < MAX_ORDER,
        ensures
            old(self).list(order as int).len() == 0 ==> r is None && *final(self) == *old(self),
            old(self).list(order as int).len() > 0 ==> r == Some(
                old(self).list(order as int).last(),
            ) && final(self).lists() == old(self).lists().update(
                order as int,
                old(self).list(order as int).remove(old(self).list(order as int).len() - 1),
            ),
            final(self).start() == old(self).start(),
            final(self).size() == old(self).size(),
    {
        if self.free_lists[order].len() == 0 {
            return None;
        }
        let mut l = self.replace_list(order, Vec::new());
        let r = l.pop();
        let _ = self.replace_list(order, l);
        let ghost ol = old(self).list(order as int);
        assert(ol.remove(ol.len() - 1) =~= ol.subrange(0, ol.len() - 1));
        assert(self.lists() =~= old(self).lists().update(order as int, ol.remove(ol.len() - 1)));
        r
    }

    /// Whether `addr` is on the free list of `order`.
    fn is_in_free_list(&self, addr: usize, order: usize) -> (r: bool)
        requires
            self.lists().len() == MAX_ORDER,
            order < MAX_ORDER,
        ensures
            r == self.list(order as int).contains(addr),
    {
        let l = &self.free_lists[order];
        let mut i: usize = 0;
        while i < l.len()
            invariant
                i <= l@.len(),
                l@ == self.list(order as int),
                forall|j: int| 0 <= j < i ==> l@[j] != addr,
            decreases l@.len() - i,
        {
            if l[i] == addr {
                return true;
            }
            i = i + 1;
        }
        false
    }

    /// Unlinks block `addr` from the free list of `order`.
    fn remove_node_from_free_list(&mut self, addr: usize, order: usize) -> (ghost_idx: Ghost<int>)
        requires
            old(self).lists().len() == MAX_ORDER,
            order < MAX_ORDER,
            old(self).list(order as int).contains(addr),
        ensures
            0 <= ghost_idx@ < old(self).list(order as int).len(),
            old(self).list(order as int)[ghost_idx@] == addr,
            final(self).lists() == old(self).lists().update(
                order as int,
                old(self).list(order as int).remove(ghost_idx@),
            ),
            final(self).start() == old(self).start(),
            final(self).size() == old(self).size(),
    {
        let mut l = self.replace_list(order, Vec::new());
        let ghost ol = l@;
        let mut i: usize = 0;
        while i < l.len() && l[i] != addr
            invariant
                i <= l@.len(),
                l@ == ol,
                ol.contains(addr),
                forall|j: int| 0 <= j < i ==> l@[j] != addr,
            decreases l@.len() - i,
        {
            i = i + 1;
        }
        l.remove(i);
        let _ = self.replace_list(order, l);
        Ghost(i as int)
    }

    /// Takes a free block for `layout`: the most recently freed block of the
    /// smallest non-empty order that fits, split down to the order the request
    /// needs, each split freeing the upper half.
    pub fn allocate(&mut self, layout: Layout) -> (r: Option<usize>)
        requires
            old(self).wf(),
        ensures
            final(self).wf(),
            final(self).start() == old(self).start(),
            final(self).size() == old(self).size(),
            ({
                let req = order_of(spec_max(layout.effective(), MIN_BLOCK_SIZE as nat));
                let found = first_nonempty(old(self).lists(), req);
                &&& r is Some <==> req < MAX_ORDER && found < MAX_ORDER
                &&& r is None ==> *final(self) == *old(self)
                &&& r matches Some(p) ==> {
                    &&& p == old(self).list(found as int).last()
                    &&& final(self).lists() == split_result(old(self).lists(), req, found, p)
                    &&& block_ok(final(self).start(), final(self).size(), req, p as int)
                    &&& disjoint_from_all(final(self).lists(), p as int, block_size(req) as int)
                    &&& final(self).capacity() + block_size(req) == old(self).capacity()
                }
            }),
    {
        let size0 = if layout.size > layout.align {
            layout.size
        } else {
            layout.align
        };
        let size = if size0 > MIN_BLOCK_SIZE {
            size0
        } else {
            MIN_BLOCK_SIZE
        };
        let required = size_to_order(size);
        let ghost req = required as nat;
        if required >= MAX_ORDER {
            return None;
        }
        let mut found: usize = required;
        while found < MAX_ORDER && self.free_lists[found].len() == 0
            invariant
                required <= found <= MAX_ORDER,
                self.wf(),
                first_nonempty(self.lists(), req) == first_nonempty(self.lists(), found as nat),
            decreases MAX_ORDER - found,
        {
            assert(self.free_lists@[found as int]@ == self.list(found as int));
            found = found + 1;
        }
        if found >= MAX_ORDER {
            return None;
        }
        assert(self.free_lists@[found as int]@ == self.list(found as int));
        let ghost old_lists = self.lists();
        let ghost gfound = found as nat;
        let block = self.remove_from_free_list(found);
        let b = match block {
            Some(b) => b,
            None => {
                return None;
            },
        };
        proof {
            lemma_remove_block(old_lists, self.start(), self.size(), found as int, old_lists[found as int].len() - 1);
            lemma_capacity_update(old_lists, found as int, self.list(found as int), MAX_ORDER as nat);
            lemma_block_size_pos(gfound);
            let l0 = old_lists[found as int].len() as int;
            assert(l0 * block_size(gfound) == (l0 - 1) * block_size(gfound) + block_size(gfound)) by (nonlinear_arith);
            assert(self.lists() == old_lists.update(found as int, self.list(found as int)));
            assert(self.lists() =~= split_result(old_lists, gfound, gfound, b));
        }
        let mut order: usize = found;
        while order > required
            invariant
                required <= order <= found < MAX_ORDER,
                req == required,
                gfound == found,
                self.wf(),
                self.start() == old(self).start(),
                self.size() == old(self).size(),
                old_lists == old(self).lists(),
                block_ok(self.start(), self.size(), gfound, b as int),
                disjoint_from_all(self.lists(), b as int, block_size(order as nat) as int),
                self.lists() == split_result(old_lists, order as nat, gfound, b),
                self.capacity() + block_size(order as nat) == old(self).capacity(),
            decreases order,
        {
            order = order - 1;
            let bs = order_to_size(order);
            proof {
                lemma_block_size_mono(order as nat, gfound);
                lemma_block_size_pos(order as nat);
                assert(block_size((order + 1) as nat) == 2 * block_size(order as nat));
                lemma_block_size_mono((order + 1) as nat, gfound);
                lemma_mod_trans(b - self.start(), block_size(gfound) as int, bs as int);
                vstd::arithmetic::div_mod::lemma_mod_adds(b - self.start(), bs as int, bs as int);
                vstd::arithmetic::div_mod::lemma_mod_self_0(bs as int);
                lemma_disjoint_sub(self.lists(), b + bs, bs as int, b as int, block_size((order + 1) as nat) as int);
                lemma_push_block(self.lists(), self.start(), self.size(), order as int, (b + bs) as usize);
                lemma_capacity_update(self.lists(), order as int, self.list(order as int).push((b + bs) as usize), MAX_ORDER as nat);
                let l0 = self.list(order as int).len() as int;
                assert((l0 + 1) * bs == l0 * bs + bs) by (nonlinear_arith);
            }
            let ghost before = self.lists();
            self.add_to_free_list(b + bs, order);
            proof {
                assert(self.lists() =~= split_result(old_lists, order as nat, gfound, b));
                assert forall|k1: int, i1: int| 0 <= k1 < self.lists().len() && 0 <= i1 < self.lists()[k1].len() implies disjoint(
                    b as int,
                    bs as int,
                    #[trigger] self.lists()[k1][i1] as int,
                    block_size(k1 as nat) as int,
                ) by {
                    lemma_block_size_pos(k1 as nat);
                    if k1 == order && i1 == before[k1].len() {
                    } else {
                        assert(self.lists()[k1][i1] == before[k1][i1]);
                    }
                }
            }
        }
        proof {
            lemma_block_size_mono(req, gfound);
            lemma_mod_trans(b - self.start(), block_size(gfound) as int, block_size(req) as int);
        }
        Some(b)
    }

    /// Returns block `ptr` of `layout` to the free lists, merging it with its
    /// buddy, order by order, for as long as the buddy is free.
    pub fn deallocate(&mut self, ptr: usize, layout: Layout)
        requires
            old(self).wf(),
            order_of(spec_max(layout.effective(), MIN_BLOCK_SIZE as nat)) < MAX_ORDER,
            block_ok(
                old(self).start(),
                old(self).size(),
                order_of(spec_max(layout.effective(), MIN_BLOCK_SIZE as nat)),
                ptr as int,
            ),
            disjoint_from_all(
                old(self).lists(),
                ptr as int,
                block_size(order_of(spec_max(layout.effective(), MIN_BLOCK_SIZE as nat))) as int,
            ),
        ensures
            final(self).wf(),
            final(self).start() == old(self).start(),
            final(self).size() == old(self).size(),
            ({
                let req = order_of(spec_max(layout.effective(), MIN_BLOCK_SIZE as nat));
                let buddy = buddy_of(old(self).start(), ptr as int, req);
                &&& final(self).capacity() == old(self).capacity() + block_size(req)
                &&& (req + 1 < MAX_ORDER && old(self).list(req as int).contains(buddy as usize)) ==> {
                    &&& !final(self).list(req as int).contains(ptr)
                    &&& !final(self).list(req as int).contains(buddy as usize)
                }
                &&& !(req + 1 < MAX_ORDER && old(self).list(req as int).contains(buddy as usize))
                    ==> final(self).lists() == old(self).lists().update(
                    req as int,
                    old(self).list(req as int).push(ptr),
                )
                &&& final(self).lists() == merge_result(old(self).lists(), old(self).start(), old(self).size(), ptr as int, req)
            }),
    {
        let size0 = if layout.size > layout.align {
            layout.size
        } else {
            layout.align
        };
        let size = if size0 > MIN_BLOCK_SIZE {
            size0
        } else {
            MIN_BLOCK_SIZE
        };
        let required = size_to_order(size);
        let ghost req = required as nat;
        let ghost buddy0 = buddy_of(self.start(), ptr as int, req);
        let region_end = self.region_start + self.region_size;
        let mut order: usize = required;
        let mut block: usize = ptr;
        let mut done = false;
        let ghost target = merge_result(old(self).lists(), old(self).start(), old(self).size(), ptr as int, req);
        proof {
            lemma_not_listed(self.lists(), req as int, ptr as int);
        }
        while order < MAX_ORDER - 1 && !done
            invariant
                required <= order < MAX_ORDER,
                req == required,
                self.wf(),
                self.start() == old(self).start(),
                self.size() == old(self).size(),
                region_end == self.start() + self.size(),
                block_ok(self.start(), self.size(), order as nat, block as int),
                disjoint_from_all(self.lists(), block as int, block_size(order as nat) as int),
                self.capacity() + block_size(order as nat) == old(self).capacity() + block_size(req),
                order == required ==> self.lists() == old(self).lists() && block == ptr,
                done && order == required ==> !(req + 1 < MAX_ORDER && old(self).list(req as int).contains(buddy0 as usize)),
                order > required ==> !self.list(req as int).contains(ptr) && !self.list(req as int).contains(buddy0 as usize),
                order > required ==> req + 1 < MAX_ORDER && old(self).list(req as int).contains(buddy0 as usize),
                buddy0 == buddy_of(old(self).start(), ptr as int, req),
                forall|i: int| 0 <= i < old(self).list(req as int).len() ==> old(self).list(req as int)[i] != ptr,
                target == merge_result(old(self).lists(), old(self).start(), old(self).size(), ptr as int, req),
                !done ==> target == merge_result(self.lists(), self.start(), self.size(), block as int, order as nat),
                done ==> target == push_block(self.lists(), order as nat, block as int),
            decreases 2 * (MAX_ORDER - order) + (if done { 0int } else { 1int }),
        {
            let buddy = self.buddy_address(block, order);
            if buddy < self.region_start || buddy >= region_end {
                proof {
                    if order == required && old(self).list(req as int).contains(buddy0 as usize) {
                        let i = choose|i: int| 0 <= i < old(self).list(req as int).len() && old(self).list(req as int)[i] == buddy0 as usize;
                        assert(block_ok(self.start(), self.size(), req, old(self).list(req as int)[i] as int));
                    }
                }
                done = true;
            } else if !self.is_in_free_list(buddy, order) {
                done = true;
            } else {
                let ghost pre_lists = self.lists();
                let ghost pre_block = block;
                let ghost before = self.lists();
                let idx = self.remove_node_from_free_list(buddy, order);
                proof {
                    let i = idx@;
                    assert(before[order as int][i] == buddy);
                    assert(block_ok(self.start(), self.size(), order as nat, buddy as int));
                    lemma_remove_block(before, self.start(), self.size(), order as int, i);
                    lemma_merge(self.start(), self.size(), order as nat, block as int, buddy as int);
                    lemma_capacity_update(before, order as int, before[order as int].remove(i), MAX_ORDER as nat);
                    let l0 = before[order as int].len() as int;
                    assert(l0 * block_size(order as nat) == (l0 - 1) * block_size(order as nat) + block_size(order as nat)) by (nonlinear_arith);
                    assert(block_size((order + 1) as nat) == 2 * block_size(order as nat));
                    // the buddy was listed once only
                    assert forall|j: int| 0 <= j < self.list(order as int).len() implies self.list(order as int)[j] != buddy by {
                        let src = if j >= i { j + 1 } else { j };
                        assert(self.list(order as int)[j] == before[order as int][src]);
                        lemma_block_size_pos(order as nat);
                        assert(disjoint(before[order as int][src] as int, block_size(order as nat) as int, before[order as int][i] as int, block_size(order as nat) as int));
                    }
                    let ji = before[order as int].index_of(buddy);
                    assert(before[order as int].contains(buddy)) by {
                        assert(before[order as int][i] == buddy);
                    }
                    assert(0 <= ji < before[order as int].len() && before[order as int][ji] == buddy);
                    assert(all_disjoint(before));
                    lemma_block_size_pos(order as nat);
                    if ji != i {
                        assert(disjoint(before[order as int][ji] as int, block_size(order as nat) as int, before[order as int][i] as int, block_size(order as nat) as int));
                    }
                    assert(ji == i);
                    assert(self.lists() == before.update(order as int, before[order as int].remove(ji)));
                    assert(before == pre_lists);
                    assert(target == merge_result(before, self.start(), self.size(), block as int, order as nat));
                    assert((buddy as int) < self.start() + self.size());
                    assert(merge_result(before, self.start(), self.size(), block as int, order as nat) == merge_result(self.lists(), self.start(), self.size(),
                        if (block as int) < (buddy as int) { block as int } else { buddy as int }, (order + 1) as nat));
                    if order > required {
                        assert(self.list(req as int) == before[req as int]);
                    } else {
                        assert forall|j: int| 0 <= j < self.list(order as int).len() implies self.list(order as int)[j] != ptr by {
                            let src = if j >= i { j + 1 } else { j };
                            assert(self.list(order as int)[j] == before[order as int][src]);
                        }
                    }
                }
                block = if block < buddy {
                    block
                } else {
                    buddy
                };
                order = order + 1;
            }
        }
        proof {
            lemma_push_block(self.lists(), self.start(), self.size(), order as int, block);
            lemma_capacity_update(self.lists(), order as int, self.list(order as int).push(block), MAX_ORDER as nat);
            let l0 = self.list(order as int).len() as int;
            assert((l0 + 1) * block_size(order as nat) == l0 * block_size(order as nat) + block_size(order as nat)) by (nonlinear_arith);
        }
        let ghost before = self.lists();
        self.add_to_free_list(block, order);
        proof {
            if order > required {
                assert(self.list(req as int) == before[req as int]);
                assert(!self.list(req as int).contains(ptr));
                assert(!self.list(req as int).contains(buddy0 as usize));
            } else {
                assert(!(req + 1 < MAX_ORDER && old(self).list(req as int).contains(buddy0 as usize)));
                assert(self.lists() == old(self).lists().update(req as int, old(self).list(req as int).push(ptr)));
            }
            assert(self.capacity() == old(self).capacity() + block_size(req));
        }
    }

    /// Takes `[region_start, region_start + region_size)`, trimmed to whole
    /// pages, as the buddy region and frees all of it as the largest blocks
    /// that the offset from the region start and the remaining length allow.
    pub fn init(&mut self, region_start: usize, region_size: usize)
        requires
            old(self).lists().len() == MAX_ORDER,
            forall|k: int| 0 <= k < MAX_ORDER ==> #[trigger] old(self).list(k).len() == 0,
            region_start + region_size + MIN_BLOCK_SIZE <= usize::MAX,
        ensures
            final(self).wf(),
            final(self).start() == round_up(region_start as int, 4096),
            ({
                let end = (region_start + region_size) - (region_start + region_size) % 4096;
                final(self).size() == if end > final(self).start() { end - final(self).start() } else { 0 }
            }),
            final(self).lists() == carve(old(self).lists(), final(self).start(), 0, final(self).size() as nat),
            final(self).capacity() == final(self).size(),
    {
        let aligned_start = align_up(region_start, MIN_BLOCK_SIZE);
        let aligned_end = align_down(region_start + region_size, MIN_BLOCK_SIZE);
        let aligned_size = if aligned_end > aligned_start {
            aligned_end - aligned_start
        } else {
            0
        };
        self.region_start = aligned_start;
        self.region_size = aligned_size;
        proof {
            assert(self.lists() == old(self).lists());
            assert forall|k: int| 0 <= k < MAX_ORDER implies #[trigger] self.lists()[k].len() == 0 by {
                assert(old(self).list(k).len() == 0);
            }
            assert forall|k: int, i: int| 0 <= k < self.lists().len() && 0 <= i < self.lists()[k].len() implies #[trigger] self.lists()[k][i] != self.lists()[k][i] by {
                assert(self.lists()[k].len() == 0);
            }
            lemma_capacity_zero(self.lists(), MAX_ORDER as nat);
            vstd::arithmetic::div_mod::lemma_sub_mod_noop(aligned_end as int, aligned_start as int, 4096);
        }
        let mut current = aligned_start;
        let mut remaining = aligned_size;
        let ghost target = carve(old(self).lists(), aligned_start as int, 0, aligned_size as nat);
        proof {
            assert(self.lists() == old(self).lists());
        }
        while remaining >= MIN_BLOCK_SIZE
            invariant
                target == carve(old(self).lists(), aligned_start as int, 0, aligned_size as nat),
                target == carve(self.lists(), aligned_start as int, (current - aligned_start) as nat, remaining as nat),
                self.wf(),
                self.start() == aligned_start,
                self.size() == aligned_size,
                aligned_start % 4096 == 0,
                aligned_size % 4096 == 0,
                aligned_start + aligned_size <= usize::MAX,
                current - aligned_start + remaining == aligned_size,
                current >= aligned_start,
                (current - aligned_start) % 4096 == 0,
                remaining % 4096 == 0,
                self.capacity() == current - aligned_start,
                forall|k: int, i: int| 0 <= k < self.lists().len() && 0 <= i < self.lists()[k].len()
                    ==> #[trigger] self.lists()[k][i] + block_size(k as nat) <= current,
            decreases remaining,
        {
            let by_size = max_order_for_size(remaining);
            let relative = current - aligned_start;
            let by_align = max_order_for_offset(relative);
            let order = if by_size < by_align {
                by_size
            } else {
                by_align
            };
            let block_size_now = order_to_size(order);
            proof {
                lemma_block_size_mono(order as nat, by_align as nat);
                lemma_block_size_mono(0, order as nat);
                lemma_size_table();
                lemma_mod_trans(relative as int, block_size(by_align as nat) as int, block_size(order as nat) as int);
                lemma_mod_trans(block_size(order as nat) as int, block_size(order as nat) as int, 4096);
                assert(block_size(order as nat) as int % 4096 == 0) by {
                    lemma_block_size_mono(0, order as nat);
                }
                assert forall|k1: int, i1: int| 0 <= k1 < self.lists().len() && 0 <= i1 < self.lists()[k1].len() implies disjoint(
                    current as int,
                    block_size(order as nat) as int,
                    #[trigger] self.lists()[k1][i1] as int,
                    block_size(k1 as nat) as int,
                ) by {}
                lemma_push_block(self.lists(), self.start(), self.size(), order as int, current);
                lemma_capacity_update(self.lists(), order as int, self.list(order as int).push(current), MAX_ORDER as nat);
                let l0 = self.list(order as int).len() as int;
                assert((l0 + 1) * block_size_now == l0 * block_size_now + block_size_now) by (nonlinear_arith);
                vstd::arithmetic::div_mod::lemma_add_mod_noop(relative as int, block_size_now as int, 4096);
                vstd::arithmetic::div_mod::lemma_sub_mod_noop(remaining as int, block_size_now as int, 4096);
            }
            let ghost before = self.lists();
            proof {
                assert(block_size_now <= remaining);
                lemma_block_size_pos(order as nat);
                assert(carve(before, aligned_start as int, relative as nat, remaining as nat)
                    == carve(push_block(before, order as nat, aligned_start + relative), aligned_start as int,
                        (relative + block_size_now) as nat, (remaining - block_size_now) as nat));
            }
            self.add_to_free_list(current, order);
            proof {
                assert(self.lists() == push_block(before, order as nat, aligned_start + relative));
                assert forall|k: int, i: int| 0 <= k < self.lists().len() && 0 <= i < self.lists()[k].len()
                    implies #[trigger] self.lists()[k][i] + block_size(k as nat) <= current + block_size_now by {
                    if k == order && i == before[k].len() {
                    } else {
                        assert(self.lists()[k][i] == before[k][i]);
                    }
                }
            }
            current = current + block_size_now;
            remaining = remaining - block_size_now;
        }
    }

    /// The free blocks of `order`, the most recently freed last.
    pub fn free_blocks(&self, order: usize) -> (r: &Vec<usize>)
        requires
            self.wf(),
            order < MAX_ORDER,
        ensures
            r@ == self.list(order as int),
    {
        &self.free_lists[order]
    }

    /// Number of free blocks of `order`.
    pub fn count_free_blocks(&self, order: usize) -> (r: usize)
        requires
            self.wf(),
            order < MAX_ORDER,
        ensures
            r == self.list(order as int).len(),
    {
        self.free_lists[order].len()
    }
}


/// `addr` rounded up to a multiple of `align`.
pub open spec fn round_up(addr: int, align: int) -> int {
    if addr % align == 0 {
        addr
    } else {
        addr + (align - addr % align)
    }
}

/// The blocks that carving `remaining` bytes from offset `rel` of a region
/// at `base` adds to `lists`: each step takes the largest block that both
/// the offset's alignment and the remaining length allow.
pub open spec fn carve(lists: Seq<Seq<usize>>, base: int, rel: nat, remaining: nat) -> Seq<Seq<usize>>
    decreases remaining,
{
    let k = if max_order_for(remaining) < align_order(rel) { max_order_for(remaining) } else { align_order(rel) };
    if remaining < 4096 || block_size(k) == 0 || block_size(k) > remaining {
        lists
    } else {
        carve(push_block(lists, k, base + rel), base, rel + block_size(k), (remaining - block_size(k)) as nat)
    }
}

/// `addr` rounded up to a multiple of `align`.
pub fn align_up(addr: usize, align: usize) -> (r: usize)
    requires
        align > 0,
        addr + align <= usize::MAX,
    ensures
        r == round_up(addr as int, align as int),
        r % align == 0,
        addr <= r < addr + align,
{
    let rem = addr % align;
    if rem == 0 {
        addr
    } else {
        proof {
            vstd::arithmetic::div_mod::lemma_fundamental_div_mod(addr as int, align as int);
            vstd::arithmetic::div_mod::lemma_mod_multiples_basic(addr as int / align as int + 1, align as int);
            assert((addr as int / align as int + 1) * align as int == addr - rem + align) by (nonlinear_arith)
                requires addr == align * (addr as int / align as int) + rem;
        }
        addr + (align - rem)
    }
}

/// `addr` rounded down to a multiple of `align`.
pub fn align_down(addr: usize, align: usize) -> (r: usize)
    requires
        align > 0,
    ensures
        r == addr - addr % align,
        r % align == 0,
        r <= addr < r + align,
{
    proof {
        vstd::arithmetic::div_mod::lemma_fundamental_div_mod(addr as int, align as int);
        vstd::arithmetic::div_mod::lemma_mod_multiples_basic(addr as int / align as int, align as int);
        assert((addr as int / align as int) * align as int == addr - addr % align) by (nonlinear_arith)
            requires addr == align * (addr as int / align as int) + addr % align;
    }
    addr - addr % align
}

/// Largest order (at most 12) whose blocks fit in `size` bytes; 0 below one page.
/// Largest order from `k` on (at most 12) whose blocks fit in `size` bytes.
pub open spec fn size_order_from(size: nat, k: nat) -> nat
    decreases 12 - k,
{
    if k >= 12 || block_size(k + 1) > size {
        k
    } else {
        size_order_from(size, k + 1)
    }
}

/// Largest order (at most 12) whose blocks fit in `size` bytes; 0 below two pages.
pub open spec fn max_order_for(size: nat) -> nat {
    size_order_from(size, 0)
}

/// Largest order from `k` on (at most 12) whose block size divides `rel`.
pub open spec fn offset_order_from(rel: nat, k: nat) -> nat
    decreases 12 - k,
{
    if k >= 12 || rel % block_size(k + 1) != 0 {
        k
    } else {
        offset_order_from(rel, k + 1)
    }
}

/// Largest order (at most 12) at which a block may start `rel` bytes into the region.
pub open spec fn align_order(rel: nat) -> nat {
    offset_order_from(rel, 0)
}

pub fn max_order_for_size(size: usize) -> (r: usize)
    ensures
        r == max_order_for(size as nat),
        r < MAX_ORDER,
        size >= MIN_BLOCK_SIZE ==> block_size(r as nat) <= size,
        size >= MIN_BLOCK_SIZE && r + 1 < MAX_ORDER ==> size < block_size((r + 1) as nat),
        size < MIN_BLOCK_SIZE ==> r == 0,
{
    proof {
        lemma_size_table();
    }
    if size < MIN_BLOCK_SIZE {
        assert(block_size(1) == 2 * block_size(0));
        return 0;
    }
    let mut k: usize = 0;
    let mut s: usize = MIN_BLOCK_SIZE;
    while k + 1 < MAX_ORDER && s <= size / 2
        invariant
            k < MAX_ORDER,
            s == block_size(k as nat),
            s <= size,
            max_order_for(size as nat) == size_order_from(size as nat, k as nat),
        decreases MAX_ORDER - k,
    {
        proof {
            lemma_size_table();
            lemma_pow2_mono(k as nat, 11);
        }
        assert(block_size((k + 1) as nat) == 2 * block_size(k as nat));
        s = s * 2;
        k = k + 1;
    }
    assert(block_size((k + 1) as nat) == 2 * block_size(k as nat));
    k
}

/// Largest order (at most 12) at which a block may start `rel` bytes into the
/// region: the offset must be a multiple of the block size.
fn max_order_for_offset(rel: usize) -> (r: usize)
    requires
        rel % 4096 == 0,
    ensures
        r == align_order(rel as nat),
        r < MAX_ORDER,
        rel as int % block_size(r as nat) as int == 0,
        r + 1 < MAX_ORDER ==> rel as int % block_size((r + 1) as nat) as int != 0,
{
    proof {
        lemma_size_table();
    }
    let mut k: usize = 0;
    let mut s: usize = MIN_BLOCK_SIZE;
    while k + 1 < MAX_ORDER && rel % (s * 2) == 0
        invariant
            k < MAX_ORDER,
            s == block_size(k as nat),
            4096 <= s <= 0x100_0000,
            align_order(rel as nat) == offset_order_from(rel as nat, k as nat),
            rel as int % block_size(k as nat) as int == 0,
        decreases MAX_ORDER - k,
    {
        proof {
            lemma_size_table();
            lemma_pow2_mono(k as nat, 11);
        }
        s = s * 2;
        k = k + 1;
        assert(block_size(k as nat) == 2 * block_size((k - 1) as nat));
        proof {
            lemma_pow2_mono(k as nat, 12);
            lemma_pow2_pos(k as nat);
        }
    }
    proof {
        if k + 1 < MAX_ORDER {
            lemma_size_table();
            lemma_pow2_mono(k as nat, 11);
        }
    }
    assert(block_size((k + 1) as nat) == 2 * block_size(k as nat));
    k
}

/// Two buddies of order `k` form the block of order `k + 1` at the lower of the
/// two addresses, and that block overlaps only what one of them overlaps.
pub proof fn lemma_merge(start: int, size: int, k: nat, a: int, b: int)
    requires
        block_ok(start, size, k, a),
        block_ok(start, size, k, b),
        b == buddy_of(start, a, k),
    ensures
        block_ok(start, size, k + 1, if a < b { a } else { b }),
        forall|lists: Seq<Seq<usize>>|
            disjoint_from_all(lists, a, block_size(k) as int) && disjoint_from_all(
                lists,
                b,
                block_size(k) as int,
            ) ==> disjoint_from_all(
                lists,
                if a < b { a } else { b },
                block_size(k + 1) as int,
            ),
{
    let bs = block_size(k) as int;
    lemma_block_size_pos(k);
    assert(block_size(k + 1) == 2 * bs);
    let rel = a - start;
    let q = rel / bs;
    vstd::arithmetic::div_mod::lemma_fundamental_div_mod(rel, bs);
    vstd::arithmetic::div_mod::lemma_fundamental_div_mod(q, 2);
    let t = q / 2;
    if q % 2 == 0 {
        assert(rel == t * (2 * bs)) by (nonlinear_arith)
            requires rel == bs * q + 0, q == 2 * t + 0;
        vstd::arithmetic::div_mod::lemma_mod_multiples_basic(t, 2 * bs);
    } else {
        assert(b - start == t * (2 * bs)) by (nonlinear_arith)
            requires rel == bs * q + 0, q == 2 * t + 1, b == a - bs, rel == a - start;
        vstd::arithmetic::div_mod::lemma_mod_multiples_basic(t, 2 * bs);
    }
    let m = if a < b { a } else { b };
    assert forall|lists: Seq<Seq<usize>>|
        disjoint_from_all(lists, a, bs) && disjoint_from_all(lists, b, bs) implies disjoint_from_all(
        lists,
        m,
        block_size(k + 1) as int,
    ) by {
        assert forall|k1: int, i1: int| 0 <= k1 < lists.len() && 0 <= i1 < lists[k1].len() implies disjoint(
            m,
            block_size(k + 1) as int,
            #[trigger] lists[k1][i1] as int,
            block_size(k1 as nat) as int,
        ) by {
            assert(b == a + bs || b == a - bs);
            lemma_block_size_pos(k1 as nat);
            assert(disjoint(a, bs, lists[k1][i1] as int, block_size(k1 as nat) as int));
            assert(disjoint(b, bs, lists[k1][i1] as int, block_size(k1 as nat) as int));
        }
    }
}

/// A block overlaps none of the free blocks when a block containing it does not.
pub proof fn lemma_disjoint_sub(lists: Seq<Seq<usize>>, a: int, sa: int, b: int, sb: int)
    requires
        disjoint_from_all(lists, b, sb),
        b <= a,
        a + sa <= b + sb,
    ensures
        disjoint_from_all(lists, a, sa),
{
    assert forall|k1: int, i1: int| 0 <= k1 < lists.len() && 0 <= i1 < lists[k1].len() implies disjoint(
        a,
        sa,
        #[trigger] lists[k1][i1] as int,
        block_size(k1 as nat) as int,
    ) by {
        assert(disjoint(b, sb, lists[k1][i1] as int, block_size(k1 as nat) as int));
    }
}

/// No free block appears twice, and a block disjoint from all free blocks is
/// on no list.
pub proof fn lemma_not_listed(lists: Seq<Seq<usize>>, k: int, a: int)
    requires
        0 <= k < lists.len(),
        disjoint_from_all(lists, a, block_size(k as nat) as int),
    ensures
        forall|i: int| 0 <= i < lists[k].len() ==> lists[k][i] as int != a,
{
    lemma_block_size_pos(k as nat);
    assert forall|i: int| 0 <= i < lists[k].len() implies lists[k][i] as int != a by {
        assert(disjoint(a, block_size(k as nat) as int, lists[k][i] as int, block_size(k as nat) as int));
    }
}


/// One slab size class: a LIFO list of free blocks of one size, the most
/// recently freed last.
pub struct SlabCache {
    free_list: Vec<usize>,
    block_size: usize,
}

impl SlabCache {
    pub closed spec fn free(&self) -> Seq<usize> {
        self.free_list@
    }

    pub closed spec fn spec_block_size(&self) -> nat {
        self.block_size as nat
    }

    pub fn new(block_size: usize) -> (r: SlabCache)
        ensures
            r.free() == Seq::<usize>::empty(),
            r.spec_block_size() == block_size,
    {
        SlabCache { free_list: Vec::new(), block_size }
    }

    pub fn block_size(&self) -> (r: usize)
        ensures
            r == self.spec_block_size(),
    {
        self.block_size
    }

    /// Pops the most recently freed block.
    pub fn allocate(&mut self) -> (r: Option<usize>)
        ensures
            old(self).free().len() == 0 ==> r is None && final(self).free() == old(self).free(),
            old(self).free().len() > 0 ==> r == Some(old(self).free().last()) && final(self).free()
                == old(self).free().drop_last(),
            final(self).spec_block_size() == old(self).spec_block_size(),
    {
        let r = self.free_list.pop();
        proof {
            if old(self).free().len() == 0 {
                assert(self.free_list@ =~= old(self).free_list@);
            }
        }
        r
    }

    /// Pushes block `ptr` onto the free list.
    pub fn deallocate(&mut self, ptr: usize)
        ensures
            final(self).free() == old(self).free().push(ptr),
            final(self).spec_block_size() == old(self).spec_block_size(),
    {
        self.free_list.push(ptr);
    }

    /// Chops `[slab_start, slab_start + slab_size)` into blocks and frees
    /// them in address order.
    pub fn add_slab(&mut self, slab_start: usize, slab_size: usize)
        requires
            old(self).spec_block_size() > 0,
            slab_start + slab_size <= usize::MAX,
        ensures
            final(self).spec_block_size() == old(self).spec_block_size(),
            final(self).free() == old(self).free() + Seq::new(
                slab_size as nat / old(self).spec_block_size(),
                |i: int| (slab_start + i * old(self).spec_block_size()) as usize,
            ),
    {
        let num_blocks = slab_size / self.block_size;
        let ghost bs = self.block_size as int;
        let mut i: usize = 0;
        while i < num_blocks
            invariant
                i <= num_blocks,
                num_blocks == slab_size / self.block_size,
                self.block_size == bs,
                bs > 0,
                slab_start + slab_size <= usize::MAX,
                self.free() == old(self).free() + Seq::new(
                    i as nat,
                    |j: int| (slab_start + j * bs) as usize,
                ),
            decreases num_blocks - i,
        {
            proof {
                vstd::arithmetic::div_mod::lemma_fundamental_div_mod(slab_size as int, bs);
                assert(i * bs + bs <= slab_size) by (nonlinear_arith)
                    requires
                        i < num_blocks,
                        num_blocks == slab_size as int / bs,
                        slab_size == bs * (slab_size as int / bs) + slab_size as int % bs,
                        slab_size as int % bs >= 0,
                        bs > 0,
                ;
            }
            let addr = slab_start + i * self.block_size;
            self.free_list.push(addr);
            i = i + 1;
            assert(self.free() =~= old(self).free() + Seq::new(
                i as nat,
                |j: int| (slab_start + j * bs) as usize,
            ));
        }
    }
}


/// Total bytes held by the first `n` slab free lists.
pub open spec fn classes_capacity(lists: Seq<Seq<usize>>, n: nat) -> nat
    decreases n,
{
    if n == 0 {
        0
    } else {
        classes_capacity(lists, (n - 1) as nat) + lists[n - 1].len() * class_size((n - 1) as nat)
    }
}

pub proof fn lemma_classes_capacity_update(lists: Seq<Seq<usize>>, c: int, l: Seq<usize>, n: nat)
    requires
        0 <= c < lists.len(),
        n <= lists.len(),
    ensures
        c < n ==> classes_capacity(lists.update(c, l), n) + lists[c].len() * class_size(c as nat)
            == classes_capacity(lists, n) + l.len() * class_size(c as nat),
        c >= n ==> classes_capacity(lists.update(c, l), n) == classes_capacity(lists, n),
    decreases n,
{
    if n > 0 {
        lemma_classes_capacity_update(lists, c, l, (n - 1) as nat);
    }
}

pub proof fn lemma_classes_capacity_zero(lists: Seq<Seq<usize>>, n: nat)
    requires
        n <= lists.len(),
        forall|c: int| 0 <= c < n ==> #[trigger] lists[c].len() == 0,
    ensures
        classes_capacity(lists, n) == 0,
    decreases n,
{
    if n > 0 {
        lemma_classes_capacity_zero(lists, (n - 1) as nat);
    }
}

/// `2^n ≤ 2^m` only when `n ≤ m`.
pub proof fn lemma_pow2_le_inv(n: nat, m: nat)
    requires
        pow2(n) <= pow2(m),
    ensures
        n <= m,
{
    if n > m {
        lemma_pow2_mono(m + 1, n);
        lemma_pow2_pos(m);
    }
}

/// A power of two no larger than a block size divides it.
pub proof fn lemma_align_divides(align_log: nat, e: nat, size: nat)
    requires
        pow2(align_log) <= pow2(e),
        size == pow2(e),
    ensures
        size % pow2(align_log) == 0,
{
    lemma_pow2_le_inv(align_log, e);
    lemma_pow2_mono(align_log, e);
}

pub proof fn lemma_class_size_pow2(c: nat)
    ensures
        class_size(c) == pow2(c + 3),
{
    reveal_with_fuel(pow2, 4);
    assert(pow2(c + 3) == 2 * pow2(c + 2));
    assert(pow2(c + 2) == 2 * pow2(c + 1));
    assert(pow2(c + 1) == 2 * pow2(c));
}

pub proof fn lemma_block_size_pow2(k: nat)
    ensures
        block_size(k) == pow2(k + 12),
    decreases k,
{
    if k == 0 {
        lemma_size_table();
    } else {
        lemma_block_size_pow2((k - 1) as nat);
        assert(pow2(k + 12) == 2 * pow2((k + 11) as nat));
    }
}

/// The share of the heap each slab class gets: a tenth of the lower half.
pub open spec fn slab_share(heap_size: nat) -> nat {
    (heap_size / 2) / (NUM_SIZE_CLASSES as nat)
}

/// The free blocks slab class `c` starts with: its share of the lower half,
/// from the first address in it aligned to the class size, chopped into
/// whole blocks in address order.
pub open spec fn slab_class_blocks(heap_start: nat, heap_size: nat, c: nat) -> Seq<usize> {
    let cs = class_size(c) as int;
    let start = round_up((heap_start + c * slab_share(heap_size)) as int, cs);
    let end = heap_start + (c + 1) * slab_share(heap_size);
    let n = if end > start { (end - start) / cs } else { 0 };
    Seq::new(n as nat, |i: int| (start + i * cs) as usize)
}

/// The kernel heap: ten slab classes below the buddy region, and the buddy
/// tier above.
pub struct KernelAllocator {
    slab_caches: Vec<SlabCache>,
    buddy: BuddyAllocator,
}

impl KernelAllocator {
    /// The slab free lists, class by class.
    pub closed spec fn slab_lists(&self) -> Seq<Seq<usize>> {
        Seq::new(self.slab_caches@.len(), |c: int| self.slab_caches@[c].free())
    }

    pub open spec fn slab(&self, c: int) -> Seq<usize> {
        self.slab_lists()[c]
    }

    pub closed spec fn spec_buddy(&self) -> BuddyAllocator {
        self.buddy
    }

    pub closed spec fn classes_ok(&self) -> bool {
        &&& self.slab_caches@.len() == NUM_SIZE_CLASSES
        &&& forall|c: int|
            0 <= c < NUM_SIZE_CLASSES ==> (#[trigger] self.slab_caches@[c]).spec_block_size()
                == class_size(c as nat)
    }

    pub open spec fn wf(&self) -> bool {
        &&& self.classes_ok()
        &&& self.slab_lists().len() == NUM_SIZE_CLASSES
        &&& self.spec_buddy().wf()
        &&& self.spec_buddy().start() % (block_size((MAX_ORDER - 1) as nat) as int) == 0
        &&& forall|c: int, i: int|
            0 <= c < NUM_SIZE_CLASSES && 0 <= i < self.slab(c).len() ==> {
                &&& #[trigger] self.slab(c)[i] as int % class_size(c as nat) as int == 0
                &&& self.slab(c)[i] + class_size(c as nat) <= self.spec_buddy().start()
            }
    }

    /// Bytes held by all free blocks of both tiers.
    pub open spec fn capacity(&self) -> nat {
        classes_capacity(self.slab_lists(), NUM_SIZE_CLASSES as nat) + self.spec_buddy().capacity()
    }

    /// Whether `allocate(layout)` is served from a slab class.
    pub open spec fn uses_slab(&self, layout: Layout) -> bool {
        layout.effective() <= MAX_SLAB_SIZE && self.slab(class_of(layout.effective()) as int).len() > 0
    }

    /// Size of the block that `allocate(layout)` hands out.
    pub open spec fn served_size(&self, layout: Layout) -> nat {
        if self.uses_slab(layout) {
            class_size(class_of(layout.effective()))
        } else {
            block_size(buddy_order(layout))
        }
    }

    /// Whether `ptr` may be handed back with `layout`: it is a block that
    /// `allocate(layout)` could have returned and that is not free.
    pub open spec fn may_free(&self, ptr: usize, layout: Layout) -> bool {
        layout.size > 0 ==> if ptr >= self.spec_buddy().start() {
            &&& buddy_order(layout) < MAX_ORDER
            &&& block_ok(self.spec_buddy().start(), self.spec_buddy().size(), buddy_order(layout), ptr as int)
            &&& disjoint_from_all(self.spec_buddy().lists(), ptr as int, block_size(buddy_order(layout)) as int)
        } else {
            layout.effective() <= MAX_SLAB_SIZE ==> {
                &&& ptr as int % class_size(class_of(layout.effective())) as int == 0
                &&& ptr + class_size(class_of(layout.effective())) <= self.spec_buddy().start()
            }
        }
    }

    /// Bytes that `deallocate(ptr, layout)` returns to the free lists.
    pub open spec fn freed_size(&self, ptr: usize, layout: Layout) -> nat {
        if layout.size == 0 {
            0
        } else if ptr >= self.spec_buddy().start() {
            block_size(buddy_order(layout))
        } else if layout.effective() <= MAX_SLAB_SIZE {
            class_size(class_of(layout.effective()))
        } else {
            0
        }
    }

    /// What `allocate` does: the last freed block of the request's slab class if
    /// that class has one, else a block from the buddy tier; `None` when neither
    /// can serve.
    pub open spec fn allocate_post(self, layout: Layout, new: KernelAllocator, r: Option<usize>) -> bool {
        let c = class_of(layout.effective()) as int;
        let req = buddy_order(layout);
        let found = first_nonempty(self.spec_buddy().lists(), req);
        &&& new.wf()
        &&& new.spec_buddy().start() == self.spec_buddy().start()
        &&& self.uses_slab(layout) ==> {
            &&& r == Some(self.slab(c).last())
            &&& new.slab_lists() == self.slab_lists().update(c, self.slab(c).drop_last())
            &&& new.spec_buddy() == self.spec_buddy()
        }
        &&& !self.uses_slab(layout) ==> {
            &&& new.slab_lists() == self.slab_lists()
            &&& (r is Some <==> req < MAX_ORDER && found < MAX_ORDER)
            &&& r is None ==> new.spec_buddy() == self.spec_buddy()
            &&& r matches Some(p) ==> p == self.spec_buddy().list(found as int).last()
                && new.spec_buddy().lists() == split_result(self.spec_buddy().lists(), req, found, p)
        }
        &&& r is None ==> new.capacity() == self.capacity()
        &&& r is Some ==> new.capacity() + self.served_size(layout) == self.capacity()
        &&& r matches Some(p) ==> new.may_free(p, layout)
        &&& layout.valid() ==> (r matches Some(p) ==> p as int % layout.align as int == 0)
    }

    /// What `deallocate` does: a zero-size layout is ignored; an address in the
    /// buddy region goes back to the buddy tier; any other to the slab class
    /// of the layout.
    pub open spec fn deallocate_post(self, ptr: usize, layout: Layout, new: KernelAllocator) -> bool {
        let c = class_of(layout.effective()) as int;
        &&& new.wf()
        &&& new.spec_buddy().start() == self.spec_buddy().start()
        &&& new.capacity() == self.capacity() + self.freed_size(ptr, layout)
        &&& (layout.size > 0 && ptr < self.spec_buddy().start() && layout.effective() <= MAX_SLAB_SIZE)
            ==> new.slab_lists() == self.slab_lists().update(c, self.slab(c).push(ptr))
        &&& (layout.size == 0 || ptr >= self.spec_buddy().start() || layout.effective() > MAX_SLAB_SIZE)
            ==> new.slab_lists() == self.slab_lists()
        &&& (layout.size > 0 && ptr < self.spec_buddy().start()) ==> new.spec_buddy() == self.spec_buddy()
        &&& layout.size == 0 ==> new == self
    }

    pub fn new() -> (r: KernelAllocator)
        ensures
            r.wf(),
            r.capacity() == 0,
            forall|c: int| 0 <= c < NUM_SIZE_CLASSES ==> #[trigger] r.slab(c).len() == 0,
            forall|k: int| 0 <= k < MAX_ORDER ==> #[trigger] r.spec_buddy().list(k).len() == 0,
    {
        let mut slab_caches: Vec<SlabCache> = Vec::new();
        let mut c: usize = 0;
        let mut size: usize = MIN_SLAB_SIZE;
        while c < NUM_SIZE_CLASSES
            invariant
                c <= NUM_SIZE_CLASSES,
                slab_caches@.len() == c,
                c < NUM_SIZE_CLASSES ==> size == class_size(c as nat),
                forall|j: int| 0 <= j < c ==> (#[trigger] slab_caches@[j]).spec_block_size()
                    == class_size(j as nat) && slab_caches@[j].free().len() == 0,
            decreases NUM_SIZE_CLASSES - c,
        {
            proof {
                lemma_size_table();
                lemma_pow2_mono(c as nat, 9);
            }
            slab_caches.push(SlabCache::new(size));
            if c + 1 < NUM_SIZE_CLASSES {
                size = size * 2;
            }
            c = c + 1;
        }
        let r = KernelAllocator { slab_caches, buddy: BuddyAllocator::new() };
        proof {
            lemma_size_table();
            assert forall|c: int| 0 <= c < NUM_SIZE_CLASSES implies #[trigger] r.slab_lists()[c].len() == 0 by {
                assert(r.slab_caches@[c].free().len() == 0);
            }
            lemma_classes_capacity_zero(r.slab_lists(), NUM_SIZE_CLASSES as nat);
            assert forall|k: int| 0 <= k < MAX_ORDER implies #[trigger] r.buddy.lists()[k].len() == 0 by {
                assert(r.buddy.list(k).len() == 0);
            }
            lemma_capacity_zero(r.buddy.lists(), MAX_ORDER as nat);
        }
        r
    }

    /// Number of free blocks of slab class `c`.
    pub fn slab_free_count(&self, c: usize) -> (r: usize)
        requires
            self.wf(),
            c < NUM_SIZE_CLASSES,
        ensures
            r == self.slab(c as int).len(),
    {
        self.slab_caches[c].free_list.len()
    }

    /// The buddy tier.
    pub fn buddy(&self) -> (r: &BuddyAllocator)
        ensures
            *r == self.spec_buddy(),
    {
        &self.buddy
    }

    fn swap_cache(&mut self, c: usize, cache: &mut SlabCache)
        requires
            old(self).slab_caches@.len() == NUM_SIZE_CLASSES,
            c < NUM_SIZE_CLASSES,
        ensures
            final(self).slab_caches@ == old(self).slab_caches@.update(c as int, *old(cache)),
            *final(cache) == old(self).slab_caches@[c as int],
            final(self).buddy == old(self).buddy,
    {
        self.slab_caches.set_and_swap(c, cache);
    }

    /// Splits `[heap_start, heap_start + heap_size)` in two: the lower half is
    /// shared evenly by the ten slab classes, each chopping its share (from
    /// the first address aligned to its block size) into blocks; the upper
    /// half becomes the buddy region.
    pub fn init(&mut self, heap_start: usize, heap_size: usize)
        requires
            old(self).wf(),
            forall|c: int| 0 <= c < NUM_SIZE_CLASSES ==> #[trigger] old(self).slab(c).len() == 0,
            forall|k: int| 0 <= k < MAX_ORDER ==> #[trigger] old(self).spec_buddy().list(k).len() == 0,
            heap_start + heap_size + 0x200_0000 <= usize::MAX,
        ensures
            final(self).wf(),
            final(self).spec_buddy().start() == round_up(heap_start + heap_size / 2, 0x100_0000),
            ({
                let end = (heap_start + heap_size) - (heap_start + heap_size) % 4096;
                final(self).spec_buddy().size() == if end > final(self).spec_buddy().start() { end - final(self).spec_buddy().start() } else { 0 }
            }),
            final(self).spec_buddy().lists() == carve(old(self).spec_buddy().lists(), final(self).spec_buddy().start(), 0, final(self).spec_buddy().size() as nat),
            final(self).spec_buddy().capacity() == final(self).spec_buddy().size(),
            forall|c: int| 0 <= c < NUM_SIZE_CLASSES ==> #[trigger] final(self).slab(c) == slab_class_blocks(heap_start as nat, heap_size as nat, c as nat),
            forall|c: int, i: int|
                0 <= c < NUM_SIZE_CLASSES && 0 <= i < final(self).slab(c).len() ==> heap_start <= #[trigger] final(self).slab(c)[i],
    {
        let slab_region_size = heap_size / 2;
        let buddy_region_start = align_up(heap_start + slab_region_size, 0x100_0000);
        let heap_end = heap_start + heap_size;
        let buddy_region_size = if heap_end > buddy_region_start {
            heap_end - buddy_region_start
        } else {
            0
        };
        let slab_size = slab_region_size / NUM_SIZE_CLASSES;
        let mut c: usize = 0;
        let mut size: usize = MIN_SLAB_SIZE;
        let mut base: usize = heap_start;
        while c < NUM_SIZE_CLASSES
            invariant
                c <= NUM_SIZE_CLASSES,
                self.classes_ok(),
                self.slab_lists().len() == NUM_SIZE_CLASSES,
                self.buddy == old(self).buddy,
                c < NUM_SIZE_CLASSES ==> size == class_size(c as nat),
                base == heap_start + c * slab_size,
                slab_size * NUM_SIZE_CLASSES <= slab_region_size,
                slab_size == slab_share(heap_size as nat),
                heap_start + heap_size + 0x200_0000 <= usize::MAX,
                forall|c1: int| 0 <= c1 < c ==> #[trigger] self.slab(c1) == slab_class_blocks(heap_start as nat, heap_size as nat, c1 as nat),
                slab_region_size == heap_size / 2,
                forall|c1: int| c <= c1 < NUM_SIZE_CLASSES ==> #[trigger] self.slab(c1).len() == 0,
                forall|c1: int, i: int|
                    0 <= c1 < NUM_SIZE_CLASSES && 0 <= i < self.slab(c1).len() ==> {
                        &&& #[trigger] self.slab(c1)[i] as int % class_size(c1 as nat) as int == 0
                        &&& self.slab(c1)[i] + class_size(c1 as nat) <= base
                        &&& heap_start <= self.slab(c1)[i]
                    },
            decreases NUM_SIZE_CLASSES - c,
        {
            proof {
                lemma_size_table();
                lemma_pow2_mono(c as nat, 9);
                assert(base + slab_size <= heap_start + slab_region_size) by (nonlinear_arith)
                    requires
                        base == heap_start + c * slab_size,
                        c < NUM_SIZE_CLASSES,
                        slab_size * NUM_SIZE_CLASSES <= slab_region_size,
                ;
            }
            let start = align_up(base, size);
            let end = base + slab_size;
            let usable = if end > start {
                end - start
            } else {
                0
            };
            let aligned_size = align_down(usable, size);
            let ghost pre = self.slab_caches@;
            let ghost pre_lists = self.slab_lists();
            let ghost pre_self = *self;
            assert(pre_self.slab(c as int).len() == 0);
            let mut cache = SlabCache::new(0);
            self.swap_cache(c, &mut cache);
            let ghost before = cache;
            cache.add_slab(start, aligned_size);
            let ghost taken = cache;
            self.swap_cache(c, &mut cache);
            let ghost cache = taken;
            proof {
                assert(self.slab_caches@ == pre.update(c as int, cache));
                assert(before == pre[c as int]);
                assert(before.free() == pre_lists[c as int]);
                let n = aligned_size as nat / size as nat;
                vstd::arithmetic::div_mod::lemma_fundamental_div_mod(start as int, size as int);
                vstd::arithmetic::div_mod::lemma_fundamental_div_mod(aligned_size as int, size as int);
                vstd::arithmetic::div_mod::lemma_fundamental_div_mod(usable as int, size as int);
                let q = usable as int / size as int;
                assert(aligned_size as int == size as int * q + 0);
                vstd::arithmetic::div_mod::lemma_fundamental_div_mod_converse(aligned_size as int, size as int, q, 0);
                assert(end == heap_start + (c + 1) * slab_size) by (nonlinear_arith)
                    requires end == base + slab_size, base == heap_start + c * slab_size;
                assert(start as int == round_up(heap_start + c * slab_share(heap_size as nat), class_size(c as nat) as int));
                assert(cache.free() =~= slab_class_blocks(heap_start as nat, heap_size as nat, c as nat));
                assert forall|c1: int| 0 <= c1 < c + 1 implies #[trigger] self.slab(c1) == slab_class_blocks(heap_start as nat, heap_size as nat, c1 as nat) by {
                    if c1 < c {
                        assert(self.slab(c1) == pre_self.slab(c1));
                    }
                }
                assert forall|c1: int, i: int|
                    0 <= c1 < NUM_SIZE_CLASSES && 0 <= i < self.slab(c1).len() implies {
                        &&& #[trigger] self.slab(c1)[i] as int % class_size(c1 as nat) as int == 0
                        &&& self.slab(c1)[i] + class_size(c1 as nat) <= base + slab_size
                        &&& heap_start <= self.slab(c1)[i]
                    } by {
                    if c1 == c {
                        assert(self.slab(c1) == cache.free());
                        assert(before.free().len() == 0);
                        let q = start as int / size as int;
                        assert(self.slab(c1)[i] == (start + i * size) as usize);
                        assert(i < n);
                        assert(i * size + size <= aligned_size) by (nonlinear_arith)
                            requires
                                i < n,
                                n == aligned_size as int / size as int,
                                aligned_size == size * (aligned_size as int / size as int) + aligned_size as int % size as int,
                                aligned_size as int % size as int == 0,
                                size > 0,
                        ;
                        assert(start + i * size == (q + i) * size) by (nonlinear_arith)
                            requires start == size * q + 0;
                        vstd::arithmetic::div_mod::lemma_mod_multiples_basic(q + i, size as int);
                    } else {
                        assert(self.slab(c1) == pre_self.slab(c1));
                        assert(pre_self.slab(c1)[i] as int % class_size(c1 as nat) as int == 0);
                    }
                }
            }
            proof {
                assert(end == heap_start + (c + 1) * slab_size) by (nonlinear_arith)
                    requires end == base + slab_size, base == heap_start + c * slab_size;
                assert forall|c1: int| c < c1 < NUM_SIZE_CLASSES implies #[trigger] self.slab(c1).len() == 0 by {
                    assert(self.slab(c1) == pre_self.slab(c1));
                }
            }
            base = end;
            if c + 1 < NUM_SIZE_CLASSES {
                size = size * 2;
            }
            c = c + 1;
        }
        assert(base <= buddy_region_start) by (nonlinear_arith)
            requires
                base == heap_start + c * slab_size,
                c == NUM_SIZE_CLASSES,
                slab_size * NUM_SIZE_CLASSES <= slab_region_size,
                buddy_region_start >= heap_start + slab_region_size,
        ;
        let ghost pre_self = *self;
        proof {
            lemma_size_table();
            lemma_mod_trans(buddy_region_start as int, 0x100_0000, 4096);
            assert(round_up(buddy_region_start as int, 4096) == buddy_region_start);
            assert(base <= heap_start + slab_region_size);
        }
        self.buddy.init(buddy_region_start, buddy_region_size);
        proof {
            assert(self.slab_lists() == pre_self.slab_lists());
            assert forall|c1: int| 0 <= c1 < NUM_SIZE_CLASSES implies #[trigger] self.slab(c1) == slab_class_blocks(heap_start as nat, heap_size as nat, c1 as nat) by {
                assert(self.slab(c1) == pre_self.slab(c1));
            }
            assert forall|c1: int, i: int| 0 <= c1 < NUM_SIZE_CLASSES && 0 <= i < self.slab(c1).len() implies {
                &&& #[trigger] self.slab(c1)[i] as int % class_size(c1 as nat) as int == 0
                &&& self.slab(c1)[i] + class_size(c1 as nat) <= self.spec_buddy().start()
                &&& heap_start <= self.slab(c1)[i]
            } by {
                assert(pre_self.slab(c1)[i] as int % class_size(c1 as nat) as int == 0);
                assert(pre_self.slab(c1)[i] + class_size(c1 as nat) <= base);
            }
        }
    }

    /// Serves `layout`; `None` when the heap is exhausted.
    pub fn allocate(&mut self, layout: Layout) -> (r: Option<usize>)
        requires
            old(self).wf(),
        ensures
            old(self).allocate_post(layout, *final(self), r),
    {
        let size = if layout.size > layout.align {
            layout.size
        } else {
            layout.align
        };
        let class = size_to_class(size);
        if let Some(c) = class {
            let mut cache = SlabCache::new(0);
            self.swap_cache(c, &mut cache);
            let got = cache.allocate();
            let ghost taken = cache;
            self.swap_cache(c, &mut cache);
            let ghost cache = taken;
            proof {
                assert(self.slab_caches@ =~= old(self).slab_caches@.update(c as int, cache));
                assert(self.slab_lists() =~= old(self).slab_lists().update(c as int, cache.free()));
            }
            match got {
                Some(p) => {
                    proof {
                        let ol = old(self).slab(c as int);
                        assert(ol.drop_last() =~= ol.remove(ol.len() - 1));
                        lemma_classes_capacity_update(old(self).slab_lists(), c as int, cache.free(), NUM_SIZE_CLASSES as nat);
                        let l0 = ol.len() as int;
                        let cs = class_size(c as nat) as int;
                        assert(l0 * cs == (l0 - 1) * cs + cs) by (nonlinear_arith);
                        assert(ol[ol.len() - 1] as int % class_size(c as nat) as int == 0);
                        assert forall|c1: int, i: int| 0 <= c1 < NUM_SIZE_CLASSES && 0 <= i < self.slab(c1).len() implies {
                            &&& #[trigger] self.slab(c1)[i] as int % class_size(c1 as nat) as int == 0
                            &&& self.slab(c1)[i] + class_size(c1 as nat) <= self.spec_buddy().start()
                        } by {
                            assert(self.slab(c1)[i] == old(self).slab(c1)[i]);
                        }
                    }
                    proof {
                        if layout.valid() {
                            lemma_allocation_fits(*old(self), layout, p);
                        }
                    }
                    return Some(p);
                },
                None => {
                    proof {
                        assert(self.slab_lists() =~= old(self).slab_lists());
                    }
                },
            }
        }
        let got = self.buddy.allocate(layout);
        proof {
            assert(self.slab_lists() =~= old(self).slab_lists());
            assert(!old(self).uses_slab(layout));
            assert forall|c1: int, i: int| 0 <= c1 < NUM_SIZE_CLASSES && 0 <= i < self.slab(c1).len() implies {
                &&& #[trigger] self.slab(c1)[i] as int % class_size(c1 as nat) as int == 0
                &&& self.slab(c1)[i] + class_size(c1 as nat) <= self.spec_buddy().start()
            } by {
                assert(self.slab(c1)[i] == old(self).slab(c1)[i]);
            }
        }
        proof {
            lemma_block_size_pos(buddy_order(layout));
            if layout.valid() && got is Some {
                lemma_allocation_fits(*old(self), layout, got->0);
            }
        }
        got
    }

    /// Takes back block `ptr` of `layout`.
    pub fn deallocate(&mut self, ptr: usize, layout: Layout)
        requires
            old(self).wf(),
            old(self).may_free(ptr, layout),
        ensures
            old(self).deallocate_post(ptr, layout, *final(self)),
    {
        if layout.size == 0 {
            return;
        }
        if ptr >= self.buddy.region_start() {
            self.buddy.deallocate(ptr, layout);
            proof {
                assert(self.slab_lists() =~= old(self).slab_lists());
                assert forall|c1: int, i: int| 0 <= c1 < NUM_SIZE_CLASSES && 0 <= i < self.slab(c1).len() implies {
                    &&& #[trigger] self.slab(c1)[i] as int % class_size(c1 as nat) as int == 0
                    &&& self.slab(c1)[i] + class_size(c1 as nat) <= self.spec_buddy().start()
                } by {
                    assert(self.slab(c1)[i] == old(self).slab(c1)[i]);
                }
            }
        } else {
            let size = if layout.size > layout.align {
                layout.size
            } else {
                layout.align
            };
            if let Some(c) = size_to_class(size) {
                let mut cache = SlabCache::new(0);
                self.swap_cache(c, &mut cache);
                cache.deallocate(ptr);
                let ghost taken = cache;
                self.swap_cache(c, &mut cache);
                let ghost cache = taken;
                proof {
                    assert(self.slab_caches@ =~= old(self).slab_caches@.update(c as int, cache));
                    assert(self.slab_lists() =~= old(self).slab_lists().update(c as int, cache.free()));
                    lemma_classes_capacity_update(old(self).slab_lists(), c as int, cache.free(), NUM_SIZE_CLASSES as nat);
                    let l0 = old(self).slab(c as int).len() as int;
                    let cs = class_size(c as nat) as int;
                    assert((l0 + 1) * cs == l0 * cs + cs) by (nonlinear_arith);
                    assert forall|c1: int, i: int| 0 <= c1 < NUM_SIZE_CLASSES && 0 <= i < self.slab(c1).len() implies {
                        &&& #[trigger] self.slab(c1)[i] as int % class_size(c1 as nat) as int == 0
                        &&& self.slab(c1)[i] + class_size(c1 as nat) <= self.spec_buddy().start()
                    } by {
                        if c1 != c || i < old(self).slab(c1).len() {
                            assert(self.slab(c1)[i] == old(self).slab(c1)[i]);
                        }
                    }
                }
            } else {
                proof {
                    assert(self.slab_lists() =~= old(self).slab_lists());
                }
            }
        }
    }
}

/// Buddy order used for `layout`: blocks are at least one page.
pub open spec fn buddy_order(layout: Layout) -> nat {
    order_of(spec_max(layout.effective(), MIN_BLOCK_SIZE as nat))
}


pub proof fn lemma_class_from(size: nat, c: nat)
    requires
        c < NUM_SIZE_CLASSES,
        c == 0 || class_size((c - 1) as nat) < size,
        size <= MAX_SLAB_SIZE,
    ensures
        is_class_for(size, class_from(size, c)),
    decreases NUM_SIZE_CLASSES - c,
{
    lemma_size_table();
    if c + 1 < NUM_SIZE_CLASSES && size > class_size(c) {
        lemma_class_from(size, c + 1);
    }
}

pub proof fn lemma_order_from(size: nat, k: nat)
    requires
        k <= 64,
    ensures
        order_from(size, k) < 64 ==> size <= block_size(order_from(size, k)),
        k <= order_from(size, k) <= 64,
    decreases 64 - k,
{
    if k < 64 && size > block_size(k) {
        lemma_order_from(size, k + 1);
    }
}

/// Every request up to 4 KiB has exactly one slab class: the smallest whose
/// blocks hold it.
pub proof fn law_size_class_total(size: nat)
    requires
        size <= MAX_SLAB_SIZE,
    ensures
        is_class_for(size, class_of(size)),
        forall|c: nat| is_class_for(size, c) ==> c == class_of(size),
{
    lemma_class_from(size, 0);
    assert forall|c: nat| is_class_for(size, c) implies c == class_of(size) by {
        let d = class_of(size);
        if c < d {
            lemma_pow2_mono(c, (d - 1) as nat);
        } else if d < c {
            lemma_pow2_mono(d, (c - 1) as nat);
        }
    }
}

/// Pushing a block onto a slab free list and popping it again gives that
/// block back and leaves the list as it was.
pub proof fn law_slab_push_pop(free: Seq<usize>, p: usize)
    ensures
        free.push(p).len() > 0,
        free.push(p).last() == p,
        free.push(p).drop_last() == free,
{
    assert(free.push(p).drop_last() =~= free);
}

/// Every block the heap hands out holds the request, and its address is a
/// multiple of the requested alignment (for alignments up to a page, which
/// is what the buddy region's own alignment guarantees).
/// The block chosen for `layout` holds the request and its address is a
/// multiple of the requested alignment.
pub proof fn lemma_allocation_fits(h: KernelAllocator, layout: Layout, p: usize)
    requires
        h.wf(),
        layout.valid(),
        h.uses_slab(layout) ==> p == h.slab(class_of(layout.effective()) as int).last(),
        !h.uses_slab(layout) ==> ({
            let req = buddy_order(layout);
            let found = first_nonempty(h.spec_buddy().lists(), req);
            req < MAX_ORDER && found < MAX_ORDER && p == h.spec_buddy().list(found as int).last()
        }),
    ensures
        h.served_size(layout) >= layout.size,
        h.served_size(layout) >= layout.align,
        p as int % layout.align as int == 0,
{
    let eff = layout.effective();
    let n = choose|n: nat| n < 64 && #[trigger] pow2(n) == layout.align;
    lemma_size_table();
    lemma_pow2_pos(n);
    if h.uses_slab(layout) {
        let c = class_of(eff);
        lemma_class_from(eff, 0);
        lemma_class_size_pow2(c);
        lemma_align_divides(n, c + 3, class_size(c));
        let l = h.slab(c as int);
        assert(p == l[l.len() - 1]);
        assert(l[l.len() - 1] as int % class_size(c) as int == 0);
        lemma_mod_trans(p as int, class_size(c) as int, layout.align as int);
    } else {
        let e2 = spec_max(eff, MIN_BLOCK_SIZE as nat);
        let req = buddy_order(layout);
        lemma_order_from(e2, 0);
        let b = h.spec_buddy();
        let found = first_nonempty(b.lists(), req);
        lemma_first_nonempty(b.lists(), req);
        let l = b.list(found as int);
        assert(p == l[l.len() - 1]);
        assert(block_ok(b.start(), b.size(), found, p as int));
        let bs = block_size(found) as int;
        lemma_block_size_mono(req, found);
        lemma_block_size_mono(found, 12);
        lemma_block_size_pos(found);
        lemma_mod_trans(b.start(), block_size(12) as int, bs);
        vstd::arithmetic::div_mod::lemma_add_mod_noop(p - b.start(), b.start(), bs);
        assert((p as int) % bs == 0) by {
            vstd::arithmetic::div_mod::lemma_small_mod(0, bs as nat);
        }
        lemma_block_size_pow2(found);
        lemma_align_divides(n, found + 12, block_size(found));
        lemma_mod_trans(p as int, bs, layout.align as int);
    }
}

/// Every block the heap hands out holds the request, and its address is a
/// multiple of the requested alignment.
pub proof fn law_allocation_fits(h: KernelAllocator, layout: Layout, new: KernelAllocator, r: Option<usize>)
    requires
        h.wf(),
        layout.valid(),
        h.allocate_post(layout, new, r),
        r is Some,
    ensures
        h.served_size(layout) >= layout.size,
        h.served_size(layout) >= layout.align,
        r->0 as int % layout.align as int == 0,
{
    let req = buddy_order(layout);
    lemma_first_nonempty(h.spec_buddy().lists(), req);
    lemma_allocation_fits(h, layout, r->0);
}

pub proof fn lemma_first_nonempty(lists: Seq<Seq<usize>>, k: nat)
    requires
        lists.len() == MAX_ORDER,
    ensures
        first_nonempty(lists, k) < MAX_ORDER ==> lists[first_nonempty(lists, k) as int].len() > 0
            && k <= first_nonempty(lists, k),
    decreases MAX_ORDER - k,
{
    if k < MAX_ORDER && lists[k as int].len() == 0 {
        lemma_first_nonempty(lists, k + 1);
    }
}

/// Allocating a block and handing it back with the same layout leaves the
/// heap's free capacity where it was.
pub proof fn law_alloc_free_restores_capacity(
    h0: KernelAllocator,
    layout: Layout,
    h1: KernelAllocator,
    p: usize,
    h2: KernelAllocator,
)
    requires
        h0.wf(),
        layout.size > 0,
        h0.allocate_post(layout, h1, Some(p)),
        h1.deallocate_post(p, layout, h2),
    ensures
        h2.capacity() == h0.capacity(),
{
    let eff = layout.effective();
    if h0.uses_slab(layout) {
        let c = class_of(eff);
        let l = h0.slab(c as int);
        assert(p == l[l.len() - 1]);
        lemma_class_from(eff, 0);
        assert(l[l.len() - 1] as int % class_size(c) as int == 0);
        lemma_pow2_pos(c);
        assert(p < h1.spec_buddy().start());
    } else {
        let b = h0.spec_buddy();
        let found = first_nonempty(b.lists(), buddy_order(layout));
        lemma_first_nonempty(b.lists(), buddy_order(layout));
        let l = b.list(found as int);
        assert(p == l[l.len() - 1]);
        assert(block_ok(b.start(), b.size(), found, p as int));
    }
}

} // verus!
