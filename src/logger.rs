use vstd::prelude::*;
use vstd::string::StringSliceAdditionalSpecFns;

verus! {

/// Capacity of the ring log buffer, in bytes.
pub const SIZE: usize = 0xF00;

/// The last `n` elements of `s`; all of `s` when it holds no more than `n`.
pub open spec fn last_n(s: Seq<u8>, n: nat) -> Seq<u8> {
    if s.len() > n {
        s.subrange(s.len() - n, s.len() as int)
    } else {
        s
    }
}

/// `dst` with the bytes of `src` written from position `at` on, as many as fit.
pub open spec fn overwrite(dst: Seq<u8>, src: Seq<u8>, at: int) -> Seq<u8> {
    Seq::new(
        dst.len(),
        |i: int|
            if at <= i && i < at + src.len() {
                src[i - at]
            } else {
                dst[i]
            },
    )
}

/// `buf` with the `count` bytes that start at `from` moved to its front.
pub open spec fn shifted(buf: Seq<u8>, from: int, count: int) -> Seq<u8> {
    Seq::new(buf.len(), |i: int| if i < count { buf[from + i] } else { buf[i] })
}

/// A fixed-capacity byte log that keeps the newest bytes and evicts the oldest.
///
/// The valid content is `buffer[0..index)`; `updated` records that something was
/// appended since the flag was last cleared.
pub struct Logger {
    pub buffer: Vec<u8>,
    pub index: usize,
    pub updated: bool,
}

impl Logger {
    pub open spec fn wf(&self) -> bool {
        self.buffer@.len() == SIZE && self.index <= SIZE
    }

    /// The bytes the log currently holds, oldest first.
    pub open spec fn content(&self) -> Seq<u8> {
        self.buffer@.subrange(0, self.index as int)
    }

    /// An empty log over a zeroed buffer.
    pub fn new() -> (r: Logger)
        ensures
            r.wf(),
            r.index == 0,
            r.content() == Seq::<u8>::empty(),
            !r.updated,
            r.buffer@ == Seq::new(SIZE as nat, |i: int| 0u8),
    {
        let buffer = vec![0u8; SIZE];
        let r = Logger { buffer, index: 0, updated: false };
        assert(r.content() =~= Seq::<u8>::empty());
        assert(r.buffer@ =~= Seq::new(SIZE as nat, |i: int| 0u8));
        r
    }

    /// Appends the bytes of `message`; the log then holds the last `SIZE` bytes
    /// of its former content followed by `message`.
    pub fn log(&mut self, message: &str)
        requires
            old(self).wf(),
        ensures
            final(self).wf(),
            final(self).content() == last_n(old(self).content() + message.spec_bytes(), SIZE as nat),
            final(self).updated,
    {
        self.log_bytes(message.as_bytes());
    }

    /// Appends `message`; the log then holds the last `SIZE` bytes of its former
    /// content followed by `message`.
    pub fn log_bytes(&mut self, message: &[u8])
        requires
            old(self).wf(),
        ensures
            final(self).wf(),
            final(self).content() == last_n(old(self).content() + message@, SIZE as nat),
            final(self).updated,
    {
        let bytes = message;
        let mut length = bytes.len();
        let mut start: usize = 0;
        if length > SIZE {
            start = length - SIZE;
            length = SIZE;
        }
        let ghost before = self.content();
        let ghost msg = bytes@;
        if self.index + length > SIZE {
            let removing = self.index + length - SIZE;
            let kept = self.index - removing;
            Logger::shift_to_start(self.buffer.as_mut_slice(), removing, kept);
            self.index = kept;
            assert(self.content() =~= before.subrange(removing as int, before.len() as int));
        }
        let ghost mid = self.content();
        let at = self.index;
        Logger::write_bytes(self.buffer.as_mut_slice(), bytes, start, at);
        self.index = at + length;
        self.updated = true;
        assert(self.content() =~= mid + msg.subrange(start as int, msg.len() as int));
        assert(self.content() =~= last_n(before + msg, SIZE as nat));
    }

    /// The bytes the log holds, oldest first.
    pub fn contents(&self) -> (r: Vec<u8>)
        requires
            self.wf(),
        ensures
            r@ == self.content(),
    {
        let mut out: Vec<u8> = Vec::new();
        let mut i: usize = 0;
        while i < self.index
            invariant
                self.wf(),
                i <= self.index,
                out@ == self.buffer@.subrange(0, i as int),
            decreases self.index - i,
        {
            out.push(self.buffer[i]);
            i = i + 1;
            assert(out@ =~= self.buffer@.subrange(0, i as int));
        }
        out
    }

    /// Writes the bytes of `target` into `vec` from `index` on, as many as fit.
    pub fn copy(vec: &mut [u8], target: &str, index: usize)
        ensures
            final(vec)@ == overwrite(old(vec)@, target.spec_bytes(), index as int),
    {
        let bytes = target.as_bytes();
        Logger::write_bytes(vec, bytes, 0, index);
        assert(bytes@.subrange(0, bytes@.len() as int) =~= bytes@);
    }

    /// Moves the last `length` bytes of `vec` to its front.
    pub fn copy_to_start(vec: &mut [u8], length: usize)
        requires
            length <= old(vec)@.len(),
        ensures
            final(vec)@ == shifted(old(vec)@, old(vec)@.len() - length, length as int),
    {
        let n = vec.len();
        Logger::shift_to_start(vec, n - length, length);
    }

    /// Writes `src[from..]` into `dst` from position `at` on, as many bytes as fit.
    fn write_bytes(dst: &mut [u8], src: &[u8], from: usize, at: usize)
        requires
            from <= src@.len(),
        ensures
            final(dst)@ == overwrite(old(dst)@, src@.subrange(from as int, src@.len() as int), at as int),
    {
        let ghost part = src@.subrange(from as int, src@.len() as int);
        let n = dst.len();
        let m = src.len();
        if at >= n {
            assert(dst@ =~= overwrite(old(dst)@, part, at as int));
            return;
        }
        let mut i: usize = at;
        let mut j: usize = from;
        while i < n && j < m
            invariant
                at <= i <= n,
                from <= j <= m,
                i - at == j - from,
                n == dst@.len(),
                m == src@.len(),
                dst@.len() == old(dst)@.len(),
                part == src@.subrange(from as int, src@.len() as int),
                forall|k: int| 0 <= k < dst@.len() ==> #[trigger] dst@[k] == (
                    if at <= k && k < i {
                        part[k - at]
                    } else {
                        old(dst)@[k]
                    }),
            decreases n - i,
        {
            dst[i] = src[j];
            i = i + 1;
            j = j + 1;
        }
        assert(dst@ =~= overwrite(old(dst)@, part, at as int));
    }

    /// Moves the `count` bytes that start at `from` to the front of `buf`.
    fn shift_to_start(buf: &mut [u8], from: usize, count: usize)
        requires
            from + count <= old(buf)@.len(),
        ensures
            final(buf)@ == shifted(old(buf)@, from as int, count as int),
    {
        let n = buf.len();
        let mut i: usize = 0;
        while i < count
            invariant
                i <= count,
                n == buf@.len(),
                from + count <= n,
                buf@.len() == old(buf)@.len(),
                forall|k: int| 0 <= k < buf@.len() ==> #[trigger] buf@[k] == (
                    if k < i {
                        old(buf)@[from + k]
                    } else {
                        old(buf)@[k]
                    }),
            decreases count - i,
        {
            let b = buf[from + i];
            buf[i] = b;
            i = i + 1;
        }
        assert(buf@ =~= shifted(old(buf)@, from as int, count as int));
    }
}

/// A message of at most `SIZE` bytes appended to an empty log is all the log
/// holds, and the write position stands at its length.
pub proof fn lemma_fresh_append(fresh: Logger, after: Logger, m: Seq<u8>)
    requires
        fresh.wf(),
        fresh.index == 0,
        after.wf(),
        after.content() == last_n(fresh.content() + m, SIZE as nat),
        m.len() <= SIZE,
    ensures
        after.content() == m,
        after.index == m.len(),
{
    assert(fresh.content() + m =~= m);
}

/// The messages one after another.
pub open spec fn concat_all(ms: Seq<Seq<u8>>) -> Seq<u8>
    decreases ms.len(),
{
    if ms.len() == 0 {
        Seq::empty()
    } else {
        concat_all(ms.drop_last()) + ms.last()
    }
}

/// What an empty log holds after the messages are appended in order.
pub open spec fn after_appends(ms: Seq<Seq<u8>>) -> Seq<u8>
    decreases ms.len(),
{
    if ms.len() == 0 {
        Seq::empty()
    } else {
        last_n(after_appends(ms.drop_last()) + ms.last(), SIZE as nat)
    }
}

proof fn lemma_last_n_absorb(a: Seq<u8>, b: Seq<u8>, n: nat)
    ensures
        last_n(last_n(a, n) + b, n) == last_n(a + b, n),
{
    if a.len() > n {
        let t = a.subrange(a.len() - n, a.len() as int);
        let k = (a.len() - n) as int;
        assert forall|i: int| 0 <= i < (t + b).len() implies (t + b)[i] == (a + b)[i + k] by {
            if i < t.len() {
                assert((t + b)[i] == t[i]);
            } else {
                assert((t + b)[i] == b[i - t.len()]);
            }
        }
        if (t + b).len() > n {
            assert(last_n(t + b, n) =~= last_n(a + b, n));
        } else {
            assert((t + b).len() == n);
            assert(last_n(t + b, n) =~= last_n(a + b, n));
        }
    }
}

/// However many messages are appended to an empty log, it holds the last
/// `SIZE` bytes of all of them together, in order.
pub proof fn lemma_appends_keep_last(ms: Seq<Seq<u8>>)
    ensures
        after_appends(ms) == last_n(concat_all(ms), SIZE as nat),
    decreases ms.len(),
{
    if ms.len() == 0 {
        assert(last_n(Seq::<u8>::empty(), SIZE as nat) =~= Seq::<u8>::empty());
    } else {
        lemma_appends_keep_last(ms.drop_last());
        lemma_last_n_absorb(concat_all(ms.drop_last()), ms.last(), SIZE as nat);
    }
}

} // verus!
