//! A pool of pre-allocated byte buffers that avoids a heap allocation per
//! request and falls back to a fresh zeroed buffer when it runs dry.

use vstd::prelude::*;

verus! {

/// The contents of a freshly allocated buffer: `size` zero bytes.
pub open spec fn zeroed(size: nat) -> Seq<u8> {
    Seq::new(size, |i: int| 0u8)
}

/// What `get` hands out from a pool whose spare buffers are `spare` and whose
/// buffers have `size` bytes: the most recently returned spare buffer, or a
/// fresh zeroed one when there is none.
pub open spec fn taken(spare: Seq<Seq<u8>>, size: nat) -> Seq<u8> {
    if spare.len() == 0 {
        zeroed(size)
    } else {
        spare.last()
    }
}

/// The spare buffers that remain after `get`.
pub open spec fn after_take(spare: Seq<Seq<u8>>) -> Seq<Seq<u8>> {
    if spare.len() == 0 {
        spare
    } else {
        spare.drop_last()
    }
}

/// Pre-allocated buffer pool. Buffers handed back with `return_buf` are the
/// next ones handed out by `get` (last in, first out).
pub struct BufferPool {
    buffers: Vec<Vec<u8>>,
    buf_size: usize,
}

impl BufferPool {
    /// The spare buffers currently held, oldest first.
    pub closed spec fn spare(&self) -> Seq<Seq<u8>> {
        self.buffers@.map_values(|b: Vec<u8>| b@)
    }

    /// The size of the buffers that the pool allocates.
    pub closed spec fn buf_size(&self) -> nat {
        self.buf_size as nat
    }

    fn zeroed_buffer(size: usize) -> (buf: Vec<u8>)
        ensures
            buf@ == zeroed(size as nat),
    {
        let mut buf: Vec<u8> = Vec::with_capacity(size);
        let mut i: usize = 0;
        while i < size
            invariant
                i <= size,
                buf@ == zeroed(i as nat),
            decreases size - i,
        {
            buf.push(0u8);
            i = i + 1;
            assert(buf@ =~= zeroed(i as nat));
        }
        buf
    }

    /// Creates a pool holding `count` zeroed buffers of `size` bytes each.
    pub fn new(size: usize, count: usize) -> (pool: Self)
        ensures
            pool.buf_size() == size,
            pool.spare() == Seq::new(count as nat, |i: int| zeroed(size as nat)),
    {
        let mut buffers: Vec<Vec<u8>> = Vec::new();
        let mut i: usize = 0;
        while i < count
            invariant
                i <= count,
                buffers@.len() == i,
                forall|j: int| 0 <= j < i ==> #[trigger] buffers@[j]@ == zeroed(size as nat),
            decreases count - i,
        {
            let buf = Self::zeroed_buffer(size);
            buffers.push(buf);
            i = i + 1;
        }
        let pool = BufferPool { buffers, buf_size: size };
        assert(pool.spare() =~= Seq::new(count as nat, |i: int| zeroed(size as nat)));
        pool
    }

    /// Hands out the most recently returned spare buffer, or a fresh zeroed
    /// buffer of the pool's size when no spare buffer is left.
    pub fn get(&mut self) -> (buf: Vec<u8>)
        ensures
            buf@ == taken(old(self).spare(), old(self).buf_size()),
            final(self).spare() == after_take(old(self).spare()),
            final(self).buf_size() == old(self).buf_size(),
    {
        match self.buffers.pop() {
            Some(buf) => {
                assert(self.spare() =~= old(self).spare().drop_last());
                buf
            },
            None => Self::zeroed_buffer(self.buf_size),
        }
    }

    /// Hands a buffer back to the pool; it is the next one `get` returns.
    pub fn return_buf(&mut self, buf: Vec<u8>)
        ensures
            final(self).spare() == old(self).spare().push(buf@),
            final(self).buf_size() == old(self).buf_size(),
    {
        self.buffers.push(buf);
        assert(self.spare() =~= old(self).spare().push(buf@));
    }
}

/// A buffer handed back with `return_buf` is the very buffer that the next
/// `get` hands out, and that `get` leaves the pool's spare buffers as they
/// were before the return.
pub proof fn law_return_then_get(spare: Seq<Seq<u8>>, size: nat, buf: Seq<u8>)
    ensures
        taken(spare.push(buf), size) == buf,
        after_take(spare.push(buf)) == spare,
{
    assert(spare.push(buf).drop_last() =~= spare);
}

/// Taking a spare buffer with `get` and handing it back with `return_buf`
/// leaves the pool's spare buffers as they were.
pub proof fn law_get_then_return(spare: Seq<Seq<u8>>, size: nat)
    requires
        spare.len() > 0,
    ensures
        after_take(spare).push(taken(spare, size)) == spare,
{
    assert(spare.drop_last().push(spare.last()) =~= spare);
}

/// An empty pool falls back to a fresh buffer of `size` zero bytes and
/// stays empty.
pub proof fn law_empty_pool_allocates(size: nat)
    ensures
        taken(Seq::empty(), size) == zeroed(size),
        taken(Seq::empty(), size).len() == size,
        after_take(Seq::<Seq<u8>>::empty()).len() == 0,
{
}

/// `get` removes one spare buffer when there is one and none otherwise;
/// `return_buf` adds exactly one.
pub proof fn law_spare_count(spare: Seq<Seq<u8>>, buf: Seq<u8>)
    ensures
        after_take(spare).len() == if spare.len() == 0 { 0 } else { spare.len() - 1 },
        spare.push(buf).len() == spare.len() + 1,
{
}

/// Every buffer of `spare` has `size` bytes.
pub open spec fn all_sized(spare: Seq<Seq<u8>>, size: nat) -> bool {
    forall|i: int| 0 <= i < spare.len() ==> #[trigger] spare[i].len() == size
}

/// The pool's buffers keep its fixed size: a new pool's buffers have it,
/// and as long as every returned buffer has it, so does every buffer that
/// `get` hands out, pooled or freshly allocated, and every buffer left.
pub proof fn law_fixed_size(spare: Seq<Seq<u8>>, size: nat, buf: Seq<u8>, count: nat)
    ensures
        all_sized(Seq::new(count, |i: int| zeroed(size)), size),
        all_sized(spare, size) ==> taken(spare, size).len() == size,
        all_sized(spare, size) ==> all_sized(after_take(spare), size),
        all_sized(spare, size) && buf.len() == size ==> all_sized(spare.push(buf), size),
{
    if all_sized(spare, size) && spare.len() > 0 {
        assert(spare.last() == spare[spare.len() - 1]);
        assert forall|i: int| 0 <= i < after_take(spare).len() implies #[trigger] after_take(
            spare,
        )[i].len() == size by {
            assert(after_take(spare)[i] == spare[i]);
        }
    }
    if all_sized(spare, size) && buf.len() == size {
        assert forall|i: int| 0 <= i < spare.push(buf).len() implies #[trigger] spare.push(
            buf,
        )[i].len() == size by {
            if i < spare.len() {
                assert(spare.push(buf)[i] == spare[i]);
            }
        }
    }
}

/// The spare buffers after the operations `ops` on a pool whose spare
/// buffers were `spare`: `None` stands for a `get`, `Some(b)` for a
/// `return_buf` of `b`.
pub open spec fn replay(spare: Seq<Seq<u8>>, ops: Seq<Option<Seq<u8>>>) -> Seq<Seq<u8>>
    decreases ops.len(),
{
    if ops.len() == 0 {
        spare
    } else {
        let before = replay(spare, ops.drop_last());
        match ops.last() {
            None => after_take(before),
            Some(b) => before.push(b),
        }
    }
}

/// The buffers that the `get`s among `ops` hand out, in order, on a pool of
/// `size`-byte buffers whose spare buffers were `spare`.
pub open spec fn handed_out(spare: Seq<Seq<u8>>, size: nat, ops: Seq<Option<Seq<u8>>>) -> Seq<
    Seq<u8>,
>
    decreases ops.len(),
{
    if ops.len() == 0 {
        Seq::empty()
    } else {
        let prev = handed_out(spare, size, ops.drop_last());
        match ops.last() {
            None => prev.push(taken(replay(spare, ops.drop_last()), size)),
            Some(_) => prev,
        }
    }
}

/// Every buffer that `ops` hands back has `size` bytes.
pub open spec fn returns_sized(ops: Seq<Option<Seq<u8>>>, size: nat) -> bool {
    forall|i: int| 0 <= i < ops.len() && #[trigger] ops[i] is Some ==> ops[i]->0.len() == size
}

proof fn lemma_sized_history(spare: Seq<Seq<u8>>, size: nat, ops: Seq<Option<Seq<u8>>>)
    requires
        all_sized(spare, size),
        returns_sized(ops, size),
    ensures
        all_sized(replay(spare, ops), size),
        all_sized(handed_out(spare, size, ops), size),
    decreases ops.len(),
{
    if ops.len() > 0 {
        let front = ops.drop_last();
        assert forall|i: int| 0 <= i < front.len() && #[trigger] front[i] is Some implies front[i]->0.len()
            == size by {
            assert(front[i] == ops[i]);
        }
        lemma_sized_history(spare, size, front);
        let before = replay(spare, front);
        let prev = handed_out(spare, size, front);
        match ops.last() {
            None => {
                law_fixed_size(before, size, Seq::empty(), 0);
                assert forall|j: int| 0 <= j < prev.push(taken(before, size)).len() implies #[trigger] prev.push(
                    taken(before, size),
                )[j].len() == size by {
                    if j < prev.len() {
                        assert(prev.push(taken(before, size))[j] == prev[j]);
                    }
                }
            },
            Some(b) => {
                assert(ops[ops.len() - 1] is Some);
                law_fixed_size(before, size, b, 0);
            },
        }
    }
}

/// Over any history of a pool made by `BufferPool::new(size, count)`, as
/// long as every buffer handed back with `return_buf` has `size` bytes,
/// every buffer that `get` hands out has `size` bytes, and so has every
/// spare buffer the pool holds.
pub proof fn law_fixed_size_history(size: nat, count: nat, ops: Seq<Option<Seq<u8>>>)
    requires
        returns_sized(ops, size),
    ensures
        all_sized(handed_out(Seq::new(count, |i: int| zeroed(size)), size, ops), size),
        all_sized(replay(Seq::new(count, |i: int| zeroed(size)), ops), size),
{
    law_fixed_size(Seq::new(count, |i: int| zeroed(size)), size, Seq::empty(), count);
    lemma_sized_history(Seq::new(count, |i: int| zeroed(size)), size, ops);
}

} // verus!
