//! Buffers around serialized messages: a fixed-capacity write buffer, a
//! size-bounded stream buffer, and the (pass-through) compression step.
//! The serialized bytes themselves are produced by the caller.

use vstd::prelude::*;
use crate::text::owned;

verus! {

/// Compression settings. Compression is not applied: encoded bytes equal
/// the serialized bytes.
pub struct HighPerformanceSerializer {
    compression_enabled: bool,
    compression_level: u8,
}

impl HighPerformanceSerializer {
    pub closed spec fn compression(&self) -> bool {
        self.compression_enabled
    }

    pub closed spec fn level(&self) -> u8 {
        self.compression_level
    }

    pub fn new(compression_enabled: bool, compression_level: u8) -> (s: Self)
        ensures
            s.compression() == compression_enabled,
            s.level() == compression_level,
    {
        HighPerformanceSerializer { compression_enabled, compression_level }
    }

    /// The bytes to store or send for `serialized`.
    pub fn encode(&self, serialized: &[u8]) -> (r: Vec<u8>)
        ensures
            r@ == serialized@,
    {
        vstd::slice::slice_to_vec(serialized)
    }

    /// The serialized bytes behind stored bytes `data`.
    pub fn decode(&self, data: &[u8]) -> (r: Vec<u8>)
        ensures
            r@ == data@,
    {
        vstd::slice::slice_to_vec(data)
    }
}

/// A zeroed buffer of fixed capacity filled from the front.
pub struct ZeroCopySerializer {
    buffer: Vec<u8>,
    position: usize,
}

impl ZeroCopySerializer {
    /// The buffer.
    pub closed spec fn bytes(&self) -> Seq<u8> {
        self.buffer@
    }

    /// The write position.
    pub closed spec fn pos(&self) -> nat {
        self.position as nat
    }

    pub closed spec fn wf(&self) -> bool {
        self.position <= self.buffer@.len()
    }

    /// A buffer of `capacity` zero bytes.
    pub fn new(capacity: usize) -> (s: Self)
        ensures
            s.wf(),
            s.bytes() == Seq::new(capacity as nat, |i: int| 0u8),
            s.pos() == 0,
    {
        let mut buffer: Vec<u8> = Vec::new();
        let mut i: usize = 0;
        while i < capacity
            invariant
                i <= capacity,
                buffer@ == Seq::new(i as nat, |j: int| 0u8),
            decreases capacity - i,
        {
            buffer.push(0);
            i = i + 1;
            assert(buffer@ =~= Seq::new(i as nat, |j: int| 0u8));
        }
        ZeroCopySerializer { buffer, position: 0 }
    }

    /// Copies `serialized` in at the write position and advances it;
    /// "Buffer overflow" when it does not fit.
    pub fn write(&mut self, serialized: &[u8]) -> (r: Result<(), String>)
        requires
            old(self).wf(),
        ensures
            final(self).wf(),
            old(self).pos() + serialized@.len() <= old(self).bytes().len() ==> {
                &&& r is Ok
                &&& final(self).pos() == old(self).pos() + serialized@.len()
                &&& final(self).bytes() == old(self).bytes().take(old(self).pos() as int) + serialized@
                    + old(self).bytes().skip(final(self).pos() as int)
            },
            old(self).pos() + serialized@.len() > old(self).bytes().len() ==> {
                &&& r matches Err(m) && m@ == "Buffer overflow"@
                &&& final(self).pos() == old(self).pos()
                &&& final(self).bytes() == old(self).bytes()
            },
    {
        if serialized.len() > self.buffer.len() - self.position {
            return Err(owned("Buffer overflow"));
        }
        let ghost before = self.buffer@;
        let start = self.position;
        let mut i: usize = 0;
        while i < serialized.len()
            invariant
                i <= serialized@.len(),
                start + serialized@.len() <= before.len(),
                before.len() <= usize::MAX,
                start == self.position,
                self.buffer@.len() == before.len(),
                self.buffer@ == before.take(start as int) + serialized@.take(i as int) + before.skip(start + i),
            decreases serialized@.len() - i,
        {
            self.buffer.set(start + i, serialized[i]);
            i = i + 1;
            assert(self.buffer@ =~= before.take(start as int) + serialized@.take(i as int) + before.skip(start + i));
        }
        self.position = start + serialized.len();
        assert(serialized@.take(i as int) =~= serialized@);
        Ok(())
    }

    /// The bytes written so far.
    pub fn read(&self) -> (r: &[u8])
        requires
            self.wf(),
        ensures
            r@ == self.bytes().take(self.pos() as int),
    {
        vstd::slice::slice_subrange(self.buffer.as_slice(), 0, self.position)
    }

    /// The write position.
    pub fn position(&self) -> (p: usize)
        ensures
            p == self.pos(),
    {
        self.position
    }

    /// Moves the write position back to the start (the bytes stay).
    pub fn reset(&mut self)
        ensures
            final(self).wf(),
            final(self).pos() == 0,
            final(self).bytes() == old(self).bytes(),
    {
        self.position = 0;
    }
}

/// Serializes items in batches of a configured size.
pub struct BatchSerializer {
    serializer: HighPerformanceSerializer,
    batch_size: usize,
}

impl BatchSerializer {
    pub closed spec fn size(&self) -> usize {
        self.batch_size
    }

    pub closed spec fn inner(&self) -> &HighPerformanceSerializer {
        &self.serializer
    }

    pub fn new(compression_enabled: bool, compression_level: u8, batch_size: usize) -> (s: Self)
        ensures
            s.size() == batch_size,
            s.inner().compression() == compression_enabled,
            s.inner().level() == compression_level,
    {
        BatchSerializer { serializer: HighPerformanceSerializer::new(compression_enabled, compression_level), batch_size }
    }

    /// The compression settings used for a batch.
    pub fn serializer(&self) -> (r: &HighPerformanceSerializer)
        ensures
            r == self.inner(),
    {
        &self.serializer
    }
}

/// Collects encoded items into one buffer of bounded size.
/// The pending bytes `q` after offering `item` under the bound `limit`: it
/// is appended when it fits, else nothing changes.
pub open spec fn add_step(q: Seq<u8>, limit: nat, item: Seq<u8>) -> Seq<u8> {
    if q.len() + item.len() <= limit { q + item } else { q }
}

/// The pending bytes after offering each of `items` in turn, from `p`.
pub open spec fn after_items(p: Seq<u8>, limit: nat, items: Seq<Seq<u8>>) -> Seq<u8>
    decreases items.len(),
{
    if items.len() == 0 { p } else { add_step(after_items(p, limit, items.drop_last()), limit, items.last()) }
}

/// The items of `items` that are taken when offered in turn from `p`.
pub open spec fn taken_items(p: Seq<u8>, limit: nat, items: Seq<Seq<u8>>) -> Seq<Seq<u8>>
    decreases items.len(),
{
    if items.len() == 0 {
        Seq::empty()
    } else {
        let k = taken_items(p, limit, items.drop_last());
        let q = after_items(p, limit, items.drop_last());
        if q.len() + items.last().len() <= limit { k.push(items.last()) } else { k }
    }
}

/// `parts` joined end to end.
pub open spec fn joined(parts: Seq<Seq<u8>>) -> Seq<u8>
    decreases parts.len(),
{
    if parts.len() == 0 { Seq::empty() } else { joined(parts.drop_last()) + parts.last() }
}

/// Whatever items are offered, the pending bytes are what was pending
/// followed by the taken items end to end, and never pass the bound.
pub proof fn lemma_stream_collects(p: Seq<u8>, limit: nat, items: Seq<Seq<u8>>)
    requires
        p.len() <= limit,
    ensures
        after_items(p, limit, items) == p + joined(taken_items(p, limit, items)),
        after_items(p, limit, items).len() <= limit,
    decreases items.len(),
{
    if items.len() > 0 {
        let rest = items.drop_last();
        lemma_stream_collects(p, limit, rest);
        let k = taken_items(p, limit, rest);
        let q = after_items(p, limit, rest);
        if q.len() + items.last().len() <= limit {
            assert(k.push(items.last()).drop_last() =~= k);
            assert(joined(k.push(items.last())) == joined(k) + items.last());
            assert(p + joined(k) + items.last() =~= p + (joined(k) + items.last()));
        }
    } else {
        assert(p + Seq::<u8>::empty() =~= p);
    }
}

pub struct StreamingSerializer {
    serializer: HighPerformanceSerializer,
    buffer: Vec<u8>,
    max_buffer_size: usize,
}

impl StreamingSerializer {
    /// The bytes collected so far.
    pub closed spec fn pending(&self) -> Seq<u8> {
        self.buffer@
    }

    /// The size bound.
    pub closed spec fn limit(&self) -> usize {
        self.max_buffer_size
    }

    /// The pending bytes stay within the bound.
    pub open spec fn wf(&self) -> bool {
        self.pending().len() <= self.limit()
    }

    pub closed spec fn inner(&self) -> &HighPerformanceSerializer {
        &self.serializer
    }

    pub fn new(compression_enabled: bool, compression_level: u8, max_buffer_size: usize) -> (s: Self)
        ensures
            s.wf(),
            s.pending().len() == 0,
            s.limit() == max_buffer_size,
            s.inner().compression() == compression_enabled,
            s.inner().level() == compression_level,
    {
        StreamingSerializer {
            serializer: HighPerformanceSerializer::new(compression_enabled, compression_level),
            buffer: Vec::new(),
            max_buffer_size,
        }
    }

    /// Appends the encoding of `serialized`; "Buffer overflow" when the
    /// buffer would pass its bound.
    pub fn add_item(&mut self, serialized: &[u8]) -> (r: Result<(), String>)
        requires
            old(self).wf(),
        ensures
            final(self).wf(),
            final(self).pending() == add_step(old(self).pending(), old(self).limit() as nat, serialized@),
            final(self).limit() == old(self).limit(),
            old(self).pending().len() + serialized@.len() <= old(self).limit() ==> r is Ok && final(self).pending()
                == old(self).pending() + serialized@,
            old(self).pending().len() + serialized@.len() > old(self).limit() ==> (r matches Err(m) && m@
                == "Buffer overflow"@) && final(self).pending() == old(self).pending(),
    {
        let encoded = self.serializer.encode(serialized);
        if encoded.len() > self.max_buffer_size || self.buffer.len() > self.max_buffer_size - encoded.len() {
            return Err(owned("Buffer overflow"));
        }
        let ghost before = self.buffer@;
        let mut i: usize = 0;
        while i < encoded.len()
            invariant
                i <= encoded@.len(),
                encoded@ == serialized@,
                self.max_buffer_size == old(self).max_buffer_size,
                self.buffer@ == before + encoded@.take(i as int),
            decreases encoded@.len() - i,
        {
            self.buffer.push(encoded[i]);
            i = i + 1;
            assert(self.buffer@ =~= before + encoded@.take(i as int));
        }
        assert(encoded@.take(i as int) =~= encoded@);
        Ok(())
    }

    /// Hands out the collected bytes and empties the buffer.
    pub fn flush(&mut self) -> (r: Vec<u8>)
        ensures
            final(self).wf(),
            r@ == old(self).pending(),
            final(self).pending().len() == 0,
            final(self).limit() == old(self).limit(),
    {
        let mut out: Vec<u8> = Vec::new();
        std::mem::swap(&mut out, &mut self.buffer);
        out
    }

    /// Number of collected bytes.
    pub fn buffer_size(&self) -> (n: usize)
        ensures
            n == self.pending().len(),
    {
        self.buffer.len()
    }
}

} // verus!
