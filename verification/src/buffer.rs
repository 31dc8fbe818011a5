//! Memory that is filled front to back.

use vstd::prelude::*;
use vstd::slice::slice_subrange;

verus! {

/// What a [`FastbootBuffer`] holds.
pub struct BufferView {
    /// The whole memory behind the buffer.
    pub memory: Seq<u8>,
    /// How much of the memory is in use.
    pub len: nat,
    /// Where the next write goes.
    pub offset: nat,
}

impl BufferView {
    /// The part in use lies inside the memory.
    pub open spec fn wf(self) -> bool {
        self.len <= self.memory.len()
    }

    /// The bytes in use.
    pub open spec fn bytes(self) -> Seq<u8> {
        self.memory.take(self.len as int)
    }

    /// There is room for `count` more bytes.
    pub open spec fn has_room(self, count: nat) -> bool {
        self.offset + count <= self.len
    }

    /// The buffer after `data` was written where there is room for it.
    pub open spec fn written(self, data: Seq<u8>) -> BufferView {
        BufferView {
            memory: self.memory.take(self.offset as int) + data + self.memory.skip(
                (self.offset + data.len()) as int,
            ),
            len: self.len,
            offset: self.offset + data.len(),
        }
    }
}

/// The buffer has no room for the data.
#[derive(Clone, Copy, Debug, PartialEq, Eq, Structural)]
pub struct OutOfResources;

/// Memory that is filled front to back.
pub struct FastbootBuffer<'a> {
    /// The memory behind the buffer.
    pub memory: &'a mut [u8],
    /// How much of the memory is in use.
    pub len: usize,
    /// Where the next write goes.
    pub offset: usize,
}

impl<'a> View for FastbootBuffer<'a> {
    type V = BufferView;

    open spec fn view(&self) -> BufferView {
        BufferView { memory: self.memory@, len: self.len as nat, offset: self.offset as nat }
    }
}

impl<'a> FastbootBuffer<'a> {
    /// A buffer over the whole of `memory`, with nothing written yet.
    pub fn new(memory: &'a mut [u8]) -> (buffer: FastbootBuffer<'a>)
        ensures
            buffer@ == (BufferView { memory: old(memory)@, len: old(memory)@.len(), offset: 0 }),
            buffer@.wf(),
            final(memory)@ == final(buffer.memory)@,
    {
        let len: usize = memory.len();
        FastbootBuffer { memory, len, offset: 0 }
    }

    /// How many bytes are in use.
    pub fn len(&self) -> (len: usize)
        ensures
            len == self@.len,
    {
        self.len
    }

    /// Takes the first `len` bytes as the ones in use.
    pub fn set_len(&mut self, len: usize)
        requires
            len <= old(self)@.memory.len(),
        ensures
            final(self)@ == (BufferView { len: len as nat, ..old(self)@ }),
            final(final(self).memory)@ == final(old(self).memory)@,
            final(self)@.wf(),
    {
        self.len = len;
    }

    /// Writes `data` behind what was written before.
    pub fn write(&mut self, data: &[u8]) -> (result: Result<(), OutOfResources>)
        requires
            old(self)@.wf(),
        ensures
            final(self)@.wf(),
            result is Ok <==> old(self)@.has_room(data@.len()),
            result is Ok ==> final(self)@ == old(self)@.written(data@),
            result is Err ==> final(self)@ == old(self)@,
            final(final(self).memory)@ == final(old(self).memory)@,
    {
        if data.len() > self.len || self.offset > self.len - data.len() {
            return Err(OutOfResources);
        }
        let ghost before = self@;
        let start: usize = self.offset;
        let mut i: usize = 0;
        while i < data.len()
            invariant
                i <= data@.len(),
                start + data@.len() <= before.len <= before.memory.len(),
                self@.len == before.len,
                self@.offset == before.offset == start,
                self@.memory.len() == before.memory.len(),
                final(self.memory)@ == final(old(self).memory)@,
                self@.memory.take(start as int) == before.memory.take(start as int),
                self@.memory.subrange(start as int, start + i) == data@.take(i as int),
                self@.memory.skip(start + data@.len()) == before.memory.skip(start + data@.len()),
            decreases data@.len() - i,
        {
            self.memory[start + i] = data[i];
            i += 1;
        }
        self.offset = start + data.len();
        proof {
            assert(data@.take(data@.len() as int) =~= data@);
            assert(self@.memory =~= before.written(data@).memory);
        }
        Ok(())
    }

    /// The bytes in use.
    pub fn as_slice(&self) -> (bytes: &[u8])
        requires
            self@.wf(),
        ensures
            bytes@ == self@.bytes(),
    {
        slice_subrange(self.memory, 0, self.len)
    }

    /// The bytes in use, to be changed in place.
    pub fn as_mut_slice(&mut self) -> (bytes: &mut [u8])
        requires
            old(self)@.wf(),
        ensures
            bytes@ == old(self)@.bytes(),
            final(self)@.len == old(self)@.len,
            final(self)@.offset == old(self)@.offset,
            final(final(self).memory)@ == final(old(self).memory)@,
            final(self)@.memory == final(bytes)@ + old(self)@.memory.skip(old(self)@.len as int),
    {
        let (used, _rest): (&mut [u8], &mut [u8]) = self.memory.split_at_mut(self.len);
        used
    }
}

/// What was written to a buffer is read back from it: each write adds its data behind the data
/// written before, and nothing else changes.
pub proof fn law_writes_are_read_back(buffer: BufferView, first: Seq<u8>, second: Seq<u8>)
    requires
        buffer.wf(),
        buffer.has_room((first + second).len()),
    ensures
        buffer.written(first).wf(),
        buffer.written(first).has_room(second.len()),
        buffer.written(first).written(second) == buffer.written(first + second),
        buffer.written(first).bytes().take(buffer.offset as int) == buffer.bytes().take(
            buffer.offset as int,
        ),
        buffer.written(first).bytes().subrange(
            buffer.offset as int,
            (buffer.offset + first.len()) as int,
        ) == first,
{
    let twice = buffer.written(first).written(second);
    let once = buffer.written(first + second);
    assert(twice.memory =~= once.memory);
}

/// A buffer that is as long as the data holds exactly the data once it was written.
pub proof fn law_exact_write_fills_buffer(buffer: BufferView, data: Seq<u8>)
    requires
        buffer.wf(),
        buffer.offset == 0,
        buffer.len == data.len(),
    ensures
        buffer.has_room(data.len()),
        buffer.written(data).bytes() == data,
        !buffer.written(data).has_room(1),
{
    assert(buffer.written(data).bytes() =~= data);
}

/// A buffer is what its fields say.
pub proof fn law_buffer_is_its_fields(buffer: FastbootBuffer)
    ensures
        buffer@.memory == old(buffer.memory)@,
        buffer@.len == buffer.len,
        buffer@.offset == buffer.offset,
{
}

/// A buffer takes as many more bytes as lie between the last byte written and the end of the part
/// in use, and the part in use is the first one of its memory.
pub proof fn law_buffer_has_room_up_to_its_end(buffer: BufferView, count: nat)
    ensures
        buffer.has_room(count) <==> buffer.offset + count <= buffer.len,
        buffer.wf() <==> buffer.len <= buffer.memory.len(),
        buffer.wf() ==> buffer.bytes().len() == buffer.len && forall|i: int|
            0 <= i < buffer.len ==> #[trigger] buffer.bytes()[i] == buffer.memory[i],
{
}

/// A write puts its bytes one by one where the last write ended, moves the place of the next write
/// behind them, and leaves every other byte as it was.
pub proof fn law_write_changes_only_its_place(buffer: BufferView, data: Seq<u8>)
    requires
        buffer.len <= buffer.memory.len(),
        buffer.offset + data.len() <= buffer.len,
    ensures
        ({
            let after = buffer.written(data);
            &&& after.len == buffer.len
            &&& after.offset == buffer.offset + data.len()
            &&& after.memory.len() == buffer.memory.len()
            &&& forall|i: int|
                0 <= i < data.len() ==> after.memory[buffer.offset + i] == #[trigger] data[i]
            &&& forall|i: int|
                0 <= i < buffer.offset || buffer.offset + data.len() <= i < buffer.memory.len()
                    ==> #[trigger] after.memory[i] == buffer.memory[i]
        }),
{
}

} // verus!
