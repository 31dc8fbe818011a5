//! Receiving a payload from the host.

use vstd::prelude::*;

use crate::buffer::{BufferView, FastbootBuffer};
use crate::response::plain_okay;
use crate::usb::UsbEvent;

verus! {

/// The most bytes that are received at once.
pub const MAX_CHUNK_SIZE: usize = 0x100_0000;

/// The smaller of two numbers.
pub open spec fn least(a: nat, b: nat) -> nat {
    if a <= b {
        a
    } else {
        b
    }
}

/// A download under way.
pub struct Download<'a> {
    /// Where the payload goes.
    pub target: FastbootBuffer<'a>,
    /// How much is received at once.
    pub chunk: usize,
}

/// What a download does next.
#[derive(Clone, Copy, Debug, PartialEq, Eq, Structural)]
pub enum DownloadStep {
    /// Wait for the next report.
    Wait,
    /// Receive this many bytes.
    Receive(usize),
    /// Stop receiving.
    Finish,
}

impl<'a> Download<'a> {
    /// The whole target is in use, and the next byte goes behind those received.
    pub open spec fn wf(&self) -> bool {
        &&& self.target@.wf()
        &&& self.target@.len == self.target@.memory.len()
        &&& self.target@.offset <= self.target@.len
        &&& self.chunk == least(self.target@.len, MAX_CHUNK_SIZE as nat)
    }

    /// All bytes were received.
    pub open spec fn is_complete(&self) -> bool {
        self.target@.offset == self.target@.len
    }

    /// The report can come up during this download: the host is already there, and it does not
    /// send more than it announced.
    pub open spec fn expects(&self, event: UsbEvent) -> bool {
        match event {
            UsbEvent::NoEvent => true,
            UsbEvent::Connected => false,
            UsbEvent::Disconnected => true,
            UsbEvent::OutData(data) => self.target@.has_room(data@.len()),
        }
    }

    /// Begins a download that fills `target`; the first transfer is for [`Download::chunk`] bytes.
    pub fn new(target: &'a mut [u8]) -> (download: Download<'a>)
        ensures
            download.wf(),
            download.target@ == (BufferView {
                memory: old(target)@,
                len: old(target)@.len(),
                offset: 0,
            }),
            final(target)@ == final(download.target.memory)@,
    {
        let target: FastbootBuffer<'a> = FastbootBuffer::new(target);
        let size: usize = target.len();
        let chunk: usize = if size <= MAX_CHUNK_SIZE {
            size
        } else {
            MAX_CHUNK_SIZE
        };
        Download { target, chunk }
    }

    /// Tells whether the report is one that [`Download::handle_event`] takes.
    pub fn takes(&self, event: &UsbEvent) -> (yes: bool)
        requires
            self.wf(),
        ensures
            yes == self.expects(*event),
    {
        match event {
            UsbEvent::NoEvent => true,
            UsbEvent::Connected => false,
            UsbEvent::Disconnected => true,
            UsbEvent::OutData(data) => data.len() <= self.target.len - self.target.offset,
        }
    }

    /// Takes in a report of the USB controller. Data goes behind the data received before; as
    /// long as bytes are missing, as many of them are received as are missing and fit a chunk.
    pub fn handle_event(&mut self, event: &UsbEvent) -> (step: DownloadStep)
        requires
            old(self).wf(),
            old(self).expects(*event),
        ensures
            final(self).wf(),
            final(self).chunk == old(self).chunk,
            final(final(self).target.memory)@ == final(old(self).target.memory)@,
            step matches DownloadStep::Receive(count) ==> {
                &&& 0 < count <= MAX_CHUNK_SIZE
                &&& final(self).target@.has_room(count as nat)
                &&& final(self).target.offset + count <= final(self).target.len
            },
            *event is OutData ==> (step is Finish <==> final(self).target.offset
                == final(self).target.len),
            match *event {
                UsbEvent::OutData(data) => {
                    &&& final(self).target@ == old(self).target@.written(data@)
                    &&& step == if final(self).is_complete() {
                        DownloadStep::Finish
                    } else {
                        DownloadStep::Receive(
                            least(
                                (final(self).target@.len - final(self).target@.offset) as nat,
                                old(self).chunk as nat,
                            ) as usize,
                        )
                    }
                },
                UsbEvent::Disconnected => final(self).target@ == old(self).target@ && step
                    is Finish,
                _ => final(self).target@ == old(self).target@ && step is Wait,
            },
    {
        match event {
            UsbEvent::OutData(data) => {
                let _ = self.target.write(data);
                if self.target.offset == self.target.len {
                    DownloadStep::Finish
                } else {
                    let missing: usize = self.target.len - self.target.offset;
                    DownloadStep::Receive(
                        if missing <= self.chunk {
                            missing
                        } else {
                            self.chunk
                        },
                    )
                }
            },
            UsbEvent::Disconnected => DownloadStep::Finish,
            _ => DownloadStep::Wait,
        }
    }

    /// The response at the end of a download: none unless all bytes were received.
    pub fn reply(&self) -> (reply: Option<String>)
        ensures
            reply is Some <==> self.is_complete(),
            reply is Some <==> self.target.offset == self.target.len,
            reply matches Some(text) ==> text@ == "OKAY"@,
    {
        if self.target.offset == self.target.len {
            Some(plain_okay())
        } else {
            None
        }
    }
}

/// The target after a row of transfers.
pub open spec fn received(target: BufferView, transfers: Seq<Seq<u8>>) -> BufferView
    decreases transfers.len(),
{
    if transfers.len() == 0 {
        target
    } else {
        received(target, transfers.drop_last()).written(transfers.last())
    }
}

/// A download whose transfers together are as long as the target fills it with exactly the bytes
/// that came, in the order in which they came, however they were cut into transfers.
pub proof fn law_download_keeps_every_byte(target: BufferView, transfers: Seq<Seq<u8>>)
    requires
        target.wf(),
        target.len == target.memory.len(),
        target.offset == 0,
        transfers.flatten().len() == target.len,
    ensures
        received(target, transfers).bytes() == transfers.flatten(),
        received(target, transfers).offset == target.len,
{
    lemma_received(target, transfers);
    assert(received(target, transfers).memory =~= transfers.flatten());
}

/// The bytes received so far stand at the start of the target.
proof fn lemma_received(target: BufferView, transfers: Seq<Seq<u8>>)
    requires
        target.wf(),
        target.len == target.memory.len(),
        target.offset == 0,
        transfers.flatten().len() <= target.len,
    ensures
        received(target, transfers).len == target.len,
        received(target, transfers).offset == transfers.flatten().len(),
        received(target, transfers).memory == transfers.flatten() + target.memory.skip(
            transfers.flatten().len() as int,
        ),
    decreases transfers.len(),
{
    let flat = transfers.flatten();
    if transfers.len() == 0 {
        assert(flat =~= Seq::<u8>::empty());
        assert(received(target, transfers).memory =~= flat + target.memory.skip(0));
    } else {
        let before = transfers.drop_last();
        transfers.lemma_flatten_and_flatten_alt_are_equivalent();
        before.lemma_flatten_and_flatten_alt_are_equivalent();
        assert(flat =~= before.flatten() + transfers.last());
        lemma_received(target, before);
        assert(received(target, transfers).memory =~= flat + target.memory.skip(
            flat.len() as int,
        ));
    }
}

/// A download is complete when as many bytes were received as its target is long, and not before;
/// until then it takes any transfer that is not longer than what is missing.
pub proof fn law_download_is_complete_when_full(download: Download, event: UsbEvent)
    ensures
        download.is_complete() <==> download.target.offset == download.target.len,
        download.expects(event) <==> match event {
            UsbEvent::Connected => false,
            UsbEvent::OutData(data) => download.target.offset + data@.len() <= download.target.len,
            _ => true,
        },
        download.wf() <==> {
            &&& download.target.len == old(download.target.memory)@.len()
            &&& download.target.offset <= download.target.len
            &&& download.chunk <= download.target.len
            &&& download.chunk <= 0x100_0000
            &&& download.chunk == download.target.len || download.chunk == 0x100_0000
        },
{
}

/// The smaller of two numbers is one of them, and not above either.
pub proof fn law_least_is_the_smaller(a: nat, b: nat)
    ensures
        least(a, b) <= a,
        least(a, b) <= b,
        least(a, b) == a || least(a, b) == b,
{
}

/// As long as the transfers together are shorter than the target, the download is not complete, and
/// exactly the bytes that came are counted.
pub proof fn law_short_download_is_not_complete(target: BufferView, transfers: Seq<Seq<u8>>)
    requires
        target.len == target.memory.len(),
        target.offset == 0,
        transfers.flatten().len() < target.len,
    ensures
        received(target, transfers).offset == transfers.flatten().len(),
        received(target, transfers).offset < received(target, transfers).len,
        received(target, transfers).len == target.len,
        received(target, transfers).bytes().take(transfers.flatten().len() as int)
            == transfers.flatten(),
{
    lemma_received(target, transfers);
    assert(received(target, transfers).bytes().take(transfers.flatten().len() as int)
        =~= transfers.flatten());
}

} // verus!
