use vstd::prelude::*;

verus! {

/// One step of the linear-congruential generator, modulo 2^32.
#[verifier::opaque]
pub open spec fn lcg_step(s: u32) -> u32 {
    ((s as nat * 1103515245 + 12345) % 0x1_0000_0000) as u32
}

/// Advances the generator state and returns its low 31 bits.
pub fn prng(state: &mut u32) -> (r: u32)
    ensures
        *final(state) == lcg_step(*old(state)),
        r == lcg_step(*old(state)) % 0x8000_0000,
{
    let new_state = state.wrapping_mul(1103515245).wrapping_add(12345);
    proof {
        reveal(lcg_step);
        vstd::arithmetic::div_mod::lemma_add_mod_noop(*old(state) as int * 1103515245, 12345, 0x1_0000_0000);
        assert(new_state & 0x7fff_ffff == new_state % 0x8000_0000) by (bit_vector);
    }
    *state = new_state;
    new_state & 0x7fff_ffff
}

} // verus!

verus! {

/// The sequence `s` with the elements at `i` and `j` exchanged.
pub open spec fn swapped<T>(s: Seq<T>, i: int, j: int) -> Seq<T> {
    s.update(i, s[j]).update(j, s[i])
}

/// The list and generator state after shuffling positions `i..` of `s` from state `st`.
#[verifier::opaque]
pub open spec fn shuffle_from<T>(s: Seq<T>, st: u32, i: int) -> (Seq<T>, u32)
    decreases s.len() - i,
{
    if i < 0 || i >= s.len() {
        (s, st)
    } else {
        let st2 = lcg_step(st);
        let j = i + (st2 % 0x8000_0000) as int % (s.len() - i);
        shuffle_from(swapped(s, i, j), st2, i + 1)
    }
}

/// `s` holds each of `0..n` exactly once.
pub open spec fn is_perm_of_range(s: Seq<usize>, n: int) -> bool {
    &&& s.len() == n
    &&& s.no_duplicates()
    &&& forall|i: int| 0 <= i < s.len() ==> #[trigger] s[i] < n
}

pub open spec fn range_seq(n: int) -> Seq<usize> {
    Seq::new(n as nat, |i: int| i as usize)
}

/// Relies on `<[T]>::swap`: exchanges the elements at `a` and `b`.
#[verifier::external_body]
fn swap_items<T>(list: &mut [T], a: usize, b: usize)
    requires
        a < old(list)@.len(),
        b < old(list)@.len(),
    ensures
        final(list)@ == swapped(old(list)@, a as int, b as int),
{
    list.swap(a, b)
}

/// Shuffles `list` in place: for each index `i` in turn it draws `r` and exchanges element
/// `i` with element `i + r % (len - i)`.
pub fn shuffle<T>(list: &mut [T], state: &mut u32)
    ensures
        (final(list)@, *final(state)) == shuffle_from(old(list)@, *old(state), 0),
{
    let len = list.len();
    let mut i: usize = 0;
    while i < len
        invariant
            len == list@.len(),
            i <= len,
            shuffle_from(old(list)@, *old(state), 0) == shuffle_from(list@, *state, i as int),
        decreases len - i,
    {
        let r = prng(state) as usize;
        swap_items(list, i, i + r % (len - i));
        i += 1;
        proof {
            reveal(shuffle_from);
        }
    }
    proof {
        reveal(shuffle_from);
    }
}

proof fn lemma_swap_keeps_perm(s: Seq<usize>, n: int, i: int, j: int)
    requires
        is_perm_of_range(s, n),
        0 <= i < s.len(),
        0 <= j < s.len(),
    ensures
        is_perm_of_range(swapped(s, i, j), n),
{
    let t = swapped(s, i, j);
    assert forall|a: int| 0 <= a < t.len() implies #[trigger] t[a] < n by {
        if a == j {
        } else if a == i {
        } else {
        }
    }
    assert forall|a: int, b: int| 0 <= a < t.len() && 0 <= b < t.len() && a != b implies t[a] != t[b] by {
        let sa = if a == j { i } else if a == i { j } else { a };
        let sb = if b == j { i } else if b == i { j } else { b };
        assert(t[a] == s[sa]);
        assert(t[b] == s[sb]);
    }
}

/// Shuffling keeps a permutation of `0..n` a permutation of `0..n`.
pub proof fn lemma_shuffle_keeps_perm(s: Seq<usize>, st: u32, i: int, n: int)
    requires
        is_perm_of_range(s, n),
        0 <= i,
    ensures
        is_perm_of_range(shuffle_from(s, st, i).0, n),
    decreases s.len() - i,
{
    reveal(shuffle_from);
    if i < s.len() {
        let st2 = lcg_step(st);
        let j = i + (st2 % 0x8000_0000) as int % (s.len() - i);
        lemma_swap_keeps_perm(s, n, i, j);
        lemma_shuffle_keeps_perm(swapped(s, i, j), st2, i + 1, n);
    }
}

} // verus!

verus! {

/// What a bag generator's behaviour depends on: its state, the number of types and the
/// queue of values left in the current bag (the last one comes out first).
pub type BagView = (u32, usize, Seq<usize>);

/// The bag after a refill: an empty queue is refilled with `0..type_count`, shuffled.
pub open spec fn bag_refill(v: BagView) -> BagView {
    if v.2.len() == 0 {
        let sh = shuffle_from(range_seq(v.1 as int), v.0, 0);
        (sh.1, v.1, sh.0)
    } else {
        v
    }
}

/// The value a bag yields next, and the bag afterwards.
pub open spec fn bag_next(v: BagView) -> (Option<usize>, BagView) {
    let w = bag_refill(v);
    if w.2.len() == 0 {
        (None, w)
    } else {
        (Some(w.2.last()), (w.0, w.1, w.2.drop_last()))
    }
}

/// The bag after `n` draws.
pub open spec fn bag_after(v: BagView, n: nat) -> BagView
    decreases n,
{
    if n == 0 {
        v
    } else {
        bag_after(bag_next(v).1, (n - 1) as nat)
    }
}

/// The next `n` values a bag yields, up to the first draw that yields nothing.
pub open spec fn bag_upcoming(v: BagView, n: nat) -> Seq<usize>
    decreases n,
{
    if n == 0 {
        seq![]
    } else {
        match bag_next(v).0 {
            Some(x) => seq![x] + bag_upcoming(bag_next(v).1, (n - 1) as nat),
            None => seq![],
        }
    }
}

/// A generator that deals every type once per bag, in shuffled order.
pub struct SevenBagGenerator {
    state: u32,
    type_count: usize,
    queue: Vec<usize>,
}

impl View for SevenBagGenerator {
    type V = BagView;

    closed spec fn view(&self) -> BagView {
        (self.state, self.type_count, self.queue@)
    }
}

impl SevenBagGenerator {
    pub fn new(seed: u32, type_count: usize) -> (r: Self)
        ensures
            r@ == (seed, type_count, Seq::<usize>::empty()),
    {
        SevenBagGenerator { state: seed, type_count, queue: Vec::with_capacity(type_count) }
    }

    /// The next type: when the bag is empty it is refilled with every type and shuffled;
    /// then its last value is taken.
    pub fn next(&mut self) -> (r: Option<usize>)
        ensures
            (r, final(self)@) == bag_next(old(self)@),
    {
        if self.queue.len() == 0 {
            let mut t: usize = 0;
            while t < self.type_count
                invariant
                    self.state == old(self).state,
                    self.type_count == old(self).type_count,
                    t <= self.type_count,
                    self.queue@ == range_seq(t as int),
                decreases self.type_count - t,
            {
                self.queue.push(t);
                t += 1;
                assert(self.queue@ =~= range_seq(t as int));
            }
            shuffle(self.queue.as_mut_slice(), &mut self.state);
        }
        let r = self.queue.pop();
        proof {
            let w = bag_refill(old(self)@);
            if w.2.len() > 0 {
                assert(self.queue@ =~= w.2.drop_last());
            }
        }
        r
    }
}

} // verus!

verus! {

/// Drawing from a bag with values queued yields them last first and leaves the queue empty.
proof fn lemma_bag_drain(v: BagView, n: nat)
    requires
        n == v.2.len(),
    ensures
        bag_upcoming(v, n).len() == n,
        forall|i: int| 0 <= i < n ==> #[trigger] bag_upcoming(v, n)[i] == v.2[n - 1 - i],
        bag_after(v, n) == (v.0, v.1, Seq::<usize>::empty()),
    decreases n,
{
    if n == 0 {
        assert(v.2 =~= Seq::<usize>::empty());
    } else {
        let w = (v.0, v.1, v.2.drop_last());
        assert(bag_next(v) == (Some(v.2.last()), w));
        lemma_bag_drain(w, (n - 1) as nat);
        let up = bag_upcoming(v, n);
        assert(up == seq![v.2.last()] + bag_upcoming(w, (n - 1) as nat));
        assert forall|i: int| 0 <= i < n implies #[trigger] up[i] == v.2[n - 1 - i] by {
            if i > 0 {
                assert(up[i] == bag_upcoming(w, (n - 1) as nat)[i - 1]);
            }
        }
    }
}

/// Draws are the same before and after a refill.
proof fn lemma_bag_refill_same(v: BagView, n: nat)
    requires
        n > 0,
        bag_refill(v).2.len() > 0,
    ensures
        bag_upcoming(v, n) == bag_upcoming(bag_refill(v), n),
        bag_after(v, n) == bag_after(bag_refill(v), n),
{
    assert(bag_refill(bag_refill(v)) == bag_refill(v));
    assert(bag_next(v) == bag_next(bag_refill(v)));
}

proof fn lemma_bag_after_add(v: BagView, a: nat, b: nat)
    ensures
        bag_after(v, a + b) == bag_after(bag_after(v, a), b),
    decreases a,
{
    if a > 0 {
        lemma_bag_after_add(bag_next(v).1, (a - 1) as nat, b);
        assert((a + b - 1) as nat == (a - 1) as nat + b);
    }
}

/// One bag from an empty queue: the next `type_count` draws hold each type once, and the
/// queue is empty again after them.
proof fn lemma_bag_one(v: BagView)
    requires
        v.2.len() == 0,
        v.1 > 0,
    ensures
        is_perm_of_range(bag_upcoming(v, v.1 as nat), v.1 as int),
        bag_after(v, v.1 as nat).2.len() == 0,
        bag_after(v, v.1 as nat).1 == v.1,
{
    let n = v.1 as nat;
    let r = bag_refill(v);
    assert(is_perm_of_range(range_seq(n as int), n as int)) by {
        assert forall|a: int, b: int|
            0 <= a < n && 0 <= b < n && a != b implies range_seq(n as int)[a] != range_seq(n as int)[b] by {}
    }
    lemma_shuffle_keeps_perm(range_seq(n as int), v.0, 0, n as int);
    lemma_bag_refill_same(v, n);
    lemma_bag_drain(r, n);
    let up = bag_upcoming(v, n);
    assert forall|a: int, b: int| 0 <= a < n && 0 <= b < n && a != b implies up[a] != up[b] by {
        assert(up[a] == r.2[n - 1 - a]);
        assert(up[b] == r.2[n - 1 - b]);
    }
    assert forall|a: int| 0 <= a < n implies #[trigger] up[a] < n by {
        assert(up[a] == r.2[n - 1 - a]);
    }
}

/// Bag fairness: from a fresh bag (empty queue, at least one type), every aligned block of
/// `type_count` draws, the `k`-th one, holds each of `0..type_count` exactly once.
pub proof fn lemma_bag_block(v: BagView, k: nat)
    requires
        v.2.len() == 0,
        v.1 > 0,
    ensures
        bag_after(v, (k * v.1) as nat).2.len() == 0,
        bag_after(v, (k * v.1) as nat).1 == v.1,
        is_perm_of_range(bag_upcoming(bag_after(v, (k * v.1) as nat), v.1 as nat), v.1 as int),
    decreases k,
{
    if k > 0 {
        lemma_bag_block(v, (k - 1) as nat);
        let w = bag_after(v, ((k - 1) * v.1) as nat);
        lemma_bag_one(w);
        assert(k * v.1 == (k - 1) * v.1 + v.1) by (nonlinear_arith);
        lemma_bag_after_add(v, ((k - 1) * v.1) as nat, v.1 as nat);
    } else {
        assert(k * v.1 == 0) by (nonlinear_arith)
            requires
                k == 0,
        ;
    }
    lemma_bag_one(bag_after(v, (k * v.1) as nat));
}

} // verus!

verus! {

/// The next `n` values of a preview generator holding `list` in front of `bag`.
#[verifier::opaque]
pub open spec fn preview_upcoming(list: Seq<usize>, bag: BagView, n: nat) -> Seq<usize> {
    if list.len() >= n {
        list.take(n as int)
    } else {
        list + bag_upcoming(bag, (n - list.len()) as nat)
    }
}

/// Pushing the bag's next value onto the buffered list keeps what is coming.
proof fn lemma_preview_pull(list: Seq<usize>, bag: BagView, x: usize)
    requires
        bag_next(bag).0 == Some(x),
    ensures
        forall|n: nat|
            #[trigger] preview_upcoming(list.push(x), bag_next(bag).1, n) == preview_upcoming(list, bag, n),
{
    reveal(preview_upcoming);
    assert forall|n: nat|
        #[trigger] preview_upcoming(list.push(x), bag_next(bag).1, n) == preview_upcoming(list, bag, n) by {
        if n > list.len() {
            let m = (n - list.len()) as nat;
            assert(bag_upcoming(bag, m) == seq![x] + bag_upcoming(bag_next(bag).1, (m - 1) as nat));
            if n == list.len() + 1 {
                assert(bag_upcoming(bag_next(bag).1, 0) =~= Seq::<usize>::empty());
                assert(preview_upcoming(list.push(x), bag_next(bag).1, n) =~= list.push(x));
            }
            assert(preview_upcoming(list.push(x), bag_next(bag).1, n) =~= preview_upcoming(list, bag, n));
        } else {
            assert(list.push(x).take(n as int) =~= list.take(n as int));
        }
    }
}

/// Taking the front of a non-empty buffer yields the first upcoming value and shifts the rest.
proof fn lemma_preview_pop(list: Seq<usize>, bag: BagView)
    requires
        list.len() > 0,
    ensures
        preview_upcoming(list, bag, 1) == seq![list[0]],
        forall|n: nat|
            #[trigger] preview_upcoming(list.drop_first(), bag, n) == preview_upcoming(list, bag, n + 1).drop_first(),
{
    reveal(preview_upcoming);
    assert(preview_upcoming(list, bag, 1) =~= seq![list[0]]);
    assert forall|n: nat|
        #[trigger] preview_upcoming(list.drop_first(), bag, n) == preview_upcoming(list, bag, n + 1).drop_first() by {
        assert(preview_upcoming(list.drop_first(), bag, n) =~= preview_upcoming(list, bag, n + 1).drop_first());
    }
}

/// With an empty buffer, a draw from the bag yields the first upcoming value and shifts the rest.
proof fn lemma_preview_draw(bag: BagView)
    ensures
        preview_upcoming(Seq::<usize>::empty(), bag, 1) == (match bag_next(bag).0 {
            Some(x) => seq![x],
            None => Seq::<usize>::empty(),
        }),
        bag_next(bag).0 is Some ==> forall|n: nat|
            #[trigger] preview_upcoming(Seq::<usize>::empty(), bag_next(bag).1, n) == preview_upcoming(
                Seq::<usize>::empty(),
                bag,
                n + 1,
            ).drop_first(),
{
    reveal(preview_upcoming);
    let e = Seq::<usize>::empty();
    assert(bag_upcoming(bag_next(bag).1, 0) =~= e);
    assert(preview_upcoming(e, bag, 1) =~= bag_upcoming(bag, 1));
    if bag_next(bag).0 is Some {
        assert forall|n: nat|
            #[trigger] preview_upcoming(e, bag_next(bag).1, n) == preview_upcoming(e, bag, n + 1).drop_first() by {
            assert(preview_upcoming(e, bag_next(bag).1, n) =~= bag_upcoming(bag_next(bag).1, n));
            assert(preview_upcoming(e, bag, n + 1) =~= bag_upcoming(bag, n + 1));
            assert(bag_upcoming(bag, n + 1) == seq![bag_next(bag).0->0] + bag_upcoming(bag_next(bag).1, n));
            assert(bag_upcoming(bag_next(bag).1, n) =~= bag_upcoming(bag, n + 1).drop_first());
        }
    }
}

proof fn lemma_shuffle_len<T>(s: Seq<T>, st: u32, i: int)
    ensures
        shuffle_from(s, st, i).0.len() == s.len(),
    decreases s.len() - i,
{
    reveal(shuffle_from);
    if 0 <= i < s.len() {
        let st2 = lcg_step(st);
        let j = i + (st2 % 0x8000_0000) as int % (s.len() - i);
        lemma_shuffle_len(swapped(s, i, j), st2, i + 1);
    }
}

/// A bag that yields nothing goes on yielding nothing.
proof fn lemma_bag_none_stays(v: BagView)
    requires
        bag_next(v).0 is None,
    ensures
        bag_next(bag_next(v).1).0 is None,
{
    lemma_shuffle_len(range_seq(v.1 as int), v.0, 0);
    let w = bag_next(v).1;
    lemma_shuffle_len(range_seq(w.1 as int), w.0, 0);
}

/// When the bag yields nothing, what is upcoming is the buffer alone.
proof fn lemma_preview_exhausted(list: Seq<usize>, bag: BagView)
    requires
        bag_next(bag).0 is None,
    ensures
        forall|n: nat| #[trigger] preview_upcoming(list, bag_next(bag).1, n) == preview_upcoming(list, bag, n),
        forall|n: nat| n >= list.len() ==> #[trigger] preview_upcoming(list, bag, n) == list,
{
    reveal(preview_upcoming);
    lemma_bag_none_stays(bag);
    assert forall|n: nat| n >= list.len() implies #[trigger] preview_upcoming(list, bag, n) == list by {
        assert(bag_upcoming(bag, (n - list.len()) as nat) =~= Seq::<usize>::empty());
        assert(preview_upcoming(list, bag, n) =~= list);
    }
    assert forall|n: nat| #[trigger] preview_upcoming(list, bag_next(bag).1, n) == preview_upcoming(list, bag, n) by {
        if n > list.len() {
            assert(bag_upcoming(bag_next(bag).1, (n - list.len()) as nat) =~= Seq::<usize>::empty());
            assert(bag_upcoming(bag, (n - list.len()) as nat) =~= Seq::<usize>::empty());
        }
    }
}

/// A buffer of exactly `n` values is all that the next `n` are.
proof fn lemma_preview_full(list: Seq<usize>, bag: BagView)
    ensures
        preview_upcoming(list, bag, list.len()) == list,
{
    reveal(preview_upcoming);
    assert(list.take(list.len() as int) =~= list);
}

/// Fewer draws are a prefix of more draws.
proof fn lemma_bag_upcoming_prefix(v: BagView, n: nat, m: nat)
    requires
        n <= m,
    ensures
        bag_upcoming(v, n).len() <= bag_upcoming(v, m).len(),
        forall|i: int| 0 <= i < bag_upcoming(v, n).len() ==> #[trigger] bag_upcoming(v, n)[i] == bag_upcoming(v, m)[i],
    decreases n,
{
    if n > 0 && bag_next(v).0 is Some {
        lemma_bag_upcoming_prefix(bag_next(v).1, (n - 1) as nat, (m - 1) as nat);
        let a = bag_upcoming(v, n);
        let b = bag_upcoming(v, m);
        assert forall|i: int| 0 <= i < a.len() implies #[trigger] a[i] == b[i] by {
            if i > 0 {
                assert(a[i] == bag_upcoming(bag_next(v).1, (n - 1) as nat)[i - 1]);
                assert(b[i] == bag_upcoming(bag_next(v).1, (m - 1) as nat)[i - 1]);
            }
        }
    }
}

/// What a preview generator will yield next is consistent across lengths: the next `n`
/// values are the first `n` of the next `m`, for `n <= m`.
pub proof fn lemma_preview_prefix(list: Seq<usize>, bag: BagView, n: nat, m: nat)
    requires
        n <= m,
    ensures
        preview_upcoming(list, bag, n).len() <= preview_upcoming(list, bag, m).len(),
        forall|i: int|
            0 <= i < preview_upcoming(list, bag, n).len() ==> #[trigger] preview_upcoming(list, bag, n)[i]
                == preview_upcoming(list, bag, m)[i],
{
    reveal(preview_upcoming);
    if n > list.len() {
        lemma_bag_upcoming_prefix(bag, (n - list.len()) as nat, (m - list.len()) as nat);
    }
}

/// A generator that buffers up to `preview_count` upcoming values of a bag generator
/// without changing the order in which they come out.
pub struct PreviewGenerator {
    rng: SevenBagGenerator,
    preview_count: usize,
    preview_list: std::collections::VecDeque<usize>,
}

impl View for PreviewGenerator {
    /// The buffered values, the bag behind them, and the preview size.
    type V = (Seq<usize>, BagView, usize);

    closed spec fn view(&self) -> (Seq<usize>, BagView, usize) {
        (self.preview_list@, self.rng@, self.preview_count)
    }
}

impl PreviewGenerator {
    /// The next `n` values that `next` will yield, in order.
    pub open spec fn upcoming(self, n: nat) -> Seq<usize> {
        preview_upcoming(self@.0, self@.1, n)
    }

    /// The buffer never holds more than the preview size.
    pub open spec fn wf(self) -> bool {
        self@.0.len() <= self@.2
    }

    pub fn new(rng: SevenBagGenerator, preview_count: usize) -> (r: Self)
        ensures
            r.wf(),
            r@ == (Seq::<usize>::empty(), rng@, preview_count),
    {
        PreviewGenerator {
            rng,
            preview_count,
            preview_list: std::collections::VecDeque::with_capacity(preview_count),
        }
    }

    /// Fills the buffer up to the preview size and shows it: exactly the next values that
    /// `next` will yield, which do not change.
    pub fn preview(&mut self) -> (r: &std::collections::VecDeque<usize>)
        requires
            old(self).wf(),
        ensures
            final(self).wf(),
            final(self)@.2 == old(self)@.2,
            r@ == old(self).upcoming(old(self)@.2 as nat),
            forall|n: nat| #[trigger] final(self).upcoming(n) == old(self).upcoming(n),
    {
        proof {
            lemma_preview_full(self@.0, self@.1);
        }
        while self.preview_list.len() < self.preview_count
            invariant
                self.wf(),
                self@.2 == old(self)@.2,
                forall|n: nat| #[trigger] self.upcoming(n) == old(self).upcoming(n),
                self@.0.len() == self@.2 ==> self.upcoming(self@.2 as nat) == self@.0,
            ensures
                self.wf(),
                self@.2 == old(self)@.2,
                forall|n: nat| #[trigger] self.upcoming(n) == old(self).upcoming(n),
                self.upcoming(self@.2 as nat) == self@.0,
            decreases self.preview_count - self.preview_list@.len(),
        {
            let ghost before = *self;
            if let Some(v) = self.rng.next() {
                self.preview_list.push_back(v);
                proof {
                    lemma_preview_pull(before@.0, before@.1, v);
                    assert(self@.0 == before@.0.push(v));
                    assert(self@.1 == bag_next(before@.1).1);
                    assert forall|n: nat| #[trigger] self.upcoming(n) == old(self).upcoming(n) by {
                        assert(self.upcoming(n) == before.upcoming(n));
                    }
                    if self@.0.len() == self@.2 {
                        lemma_preview_full(self@.0, self@.1);
                    }
                }
            } else {
                proof {
                    lemma_preview_exhausted(before@.0, before@.1);
                    assert(self@.0 == before@.0);
                    assert(self@.1 == bag_next(before@.1).1);
                    assert forall|n: nat| #[trigger] self.upcoming(n) == old(self).upcoming(n) by {
                        assert(self.upcoming(n) == before.upcoming(n));
                    }
                    assert(self.upcoming(self@.2 as nat) == self@.0);
                }
                break;
            }
        }
        &self.preview_list
    }

    /// The next value: the front of the buffer if it holds one, else a fresh draw.
    pub fn next(&mut self) -> (r: Option<usize>)
        requires
            old(self).wf(),
        ensures
            final(self).wf(),
            final(self)@.2 == old(self)@.2,
            old(self).upcoming(1) == (match r {
                Some(x) => seq![x],
                None => Seq::<usize>::empty(),
            }),
            r is Some ==> forall|n: nat| #[trigger] final(self).upcoming(n) == old(self).upcoming(n + 1).drop_first(),
    {
        let ghost o = *self;
        if let Some(v) = self.preview_list.pop_front() {
            proof {
                lemma_preview_pop(o@.0, o@.1);
                assert(self@.0 == o@.0.drop_first());
                assert(self@.1 == o@.1);
                assert forall|n: nat| #[trigger] self.upcoming(n) == o.upcoming(n + 1).drop_first() by {
                    assert(preview_upcoming(o@.0.drop_first(), o@.1, n) == preview_upcoming(o@.0, o@.1, n + 1).drop_first());
                }
            }
            Some(v)
        } else {
            let r = self.rng.next();
            proof {
                assert(o@.0 =~= Seq::<usize>::empty());
                lemma_preview_draw(o@.1);
                assert(self@.0 == o@.0);
                assert(self@.1 == bag_next(o@.1).1);
                if r is Some {
                    assert forall|n: nat| #[trigger] self.upcoming(n) == o.upcoming(n + 1).drop_first() by {
                        assert(preview_upcoming(Seq::<usize>::empty(), bag_next(o@.1).1, n) == preview_upcoming(
                            Seq::<usize>::empty(),
                            o@.1,
                            n + 1,
                        ).drop_first());
                    }
                }
            }
            r
        }
    }
}

} // verus!
