//! The receiving half of a channel.
use crate::bpf;
use std::collections::VecDeque;
use vstd::prelude::*;

verus! {

/// What the receiving half is told.
pub enum NextEvent {
    /// The next packet is asked for.
    Called,
    /// The driver has been asked for packets. It answered `ret`, where zero stands
    /// for failure, and wrote `bytes` bytes into the read buffer.
    Received { ret: u8, bytes: u32 },
}

/// What is to be done next.
#[derive(Clone, Copy, Debug, PartialEq, Eq, Structural)]
pub enum NextAction {
    /// Ask the driver to fill the read buffer, and tell `NextEvent::Received`.
    Receive,
    /// Hand out the `len` bytes of the read buffer from `start` on.
    Deliver { start: usize, len: usize },
    /// Report the last error of the operating system.
    Fail,
    /// The driver did not write a sequence of records that fit the read buffer.
    Malformed,
}

/// The first of the queued packets, or a call of the driver where none is queued.
pub open spec fn take_next(queue: Seq<(usize, usize)>) -> (Seq<(usize, usize)>, NextAction) {
    if queue.len() == 0 {
        (queue, NextAction::Receive)
    } else {
        (queue.drop_first(), NextAction::Deliver { start: queue[0].0, len: queue[0].1 })
    }
}

/// The queue after an event, and what is to be done.
pub open spec fn next_step(
    queue: Seq<(usize, usize)>,
    buffer: Seq<u8>,
    event: NextEvent,
) -> (Seq<(usize, usize)>, NextAction) {
    match event {
        NextEvent::Called => take_next(queue),
        NextEvent::Received { ret, bytes } => if ret == 0 {
            (queue, NextAction::Fail)
        } else {
            match bpf::spans_from(buffer, 0, bytes as int) {
                Some(spans) => take_next(spans),
                None => (queue, NextAction::Malformed),
            }
        },
    }
}

/// The receiving half: the buffer that the driver fills, and the packets in it
/// that have not been handed out yet.
pub struct DataLinkReceiverImpl {
    read_buffer: Vec<u8>,
    packets: VecDeque<(usize, usize)>,
}

impl DataLinkReceiverImpl {
    /// The bytes of the read buffer.
    pub closed spec fn buffer(&self) -> Seq<u8> {
        self.read_buffer@
    }

    /// Start and length of the packets that wait in the read buffer.
    pub closed spec fn queue(&self) -> Seq<(usize, usize)> {
        self.packets@
    }

    /// Every waiting packet lies inside the read buffer.
    pub open spec fn wf(&self) -> bool {
        bpf::spans_inside(self.queue(), self.buffer().len())
    }

    /// A receiving half with nothing queued, for a driver packet of `length` bytes.
    pub fn new(read_buffer: Vec<u8>, length: u32) -> (receiver: Self)
        ensures
            receiver.wf(),
            receiver.buffer() == read_buffer@,
            receiver.queue() == Seq::<(usize, usize)>::empty(),
    {
        // Enough room for minimally sized packets without reallocating
        DataLinkReceiverImpl {
            read_buffer,
            packets: VecDeque::with_capacity(length as usize / 64),
        }
    }

    /// The buffer for the driver to fill. It is given out only while no packet in
    /// it waits to be handed out.
    pub fn buffer_mut(&mut self) -> (buffer: &mut [u8])
        requires
            old(self).queue().len() == 0,
        ensures
            buffer@ == old(self).buffer(),
            final(self).buffer() == final(buffer)@,
            final(self).queue() == old(self).queue(),
    {
        self.read_buffer.as_mut_slice()
    }

    /// Decides what comes next on the way to the next packet.
    ///
    /// A packet that waits is handed out first. The driver is asked only when none
    /// does, and asked again as long as it answers without a packet.
    pub fn next(&mut self, event: NextEvent) -> (action: NextAction)
        requires
            old(self).wf(),
            event is Received ==> old(self).queue().len() == 0,
        ensures
            final(self).wf(),
            final(self).buffer() == old(self).buffer(),
            (final(self).queue(), action) == next_step(
                old(self).queue(),
                old(self).buffer(),
                event,
            ),
            action matches NextAction::Deliver { start, len } ==> start + len
                <= final(self).buffer().len(),
            event is Called && old(self).queue().len() > 0 ==> {
                &&& action == (NextAction::Deliver {
                    start: old(self).queue()[0].0,
                    len: old(self).queue()[0].1,
                })
                &&& final(self).queue() == old(self).queue().drop_first()
            },
            event is Called && old(self).queue().len() == 0 ==> {
                &&& action == NextAction::Receive
                &&& final(self).queue().len() == 0
            },
            event matches NextEvent::Received { ret, .. } ==> ret == 0 ==> {
                &&& action == NextAction::Fail
                &&& final(self).queue().len() == 0
            },
            event matches NextEvent::Received { ret, bytes } ==> ret != 0 ==> {
                match bpf::spans_from(old(self).buffer(), 0, bytes as int) {
                    Some(spans) => if spans.len() > 0 {
                        &&& action == (NextAction::Deliver { start: spans[0].0, len: spans[0].1 })
                        &&& final(self).queue() == spans.drop_first()
                    } else {
                        &&& action == NextAction::Receive
                        &&& final(self).queue().len() == 0
                    },
                    None => {
                        &&& action == NextAction::Malformed
                        &&& final(self).queue().len() == 0
                    },
                }
            },
    {
        match event {
            NextEvent::Called => {},
            NextEvent::Received { ret, bytes } => {
                if ret == 0 {
                    return NextAction::Fail;
                }
                match bpf::scan(self.read_buffer.as_slice(), bytes as usize) {
                    None => {
                        return NextAction::Malformed;
                    },
                    Some(spans) => {
                        proof {
                            assert(self.read_buffer.len() <= usize::MAX);
                            bpf::spans_from_inside(self.read_buffer@, 0, bytes as int);
                        }
                        self.packets = spans;
                    },
                }
            },
        }
        match self.packets.pop_front() {
            None => NextAction::Receive,
            Some((start, len)) => NextAction::Deliver { start, len },
        }
    }

    /// The bytes of a packet that `next` has handed out.
    pub fn packet(&self, start: usize, len: usize) -> (packet: &[u8])
        requires
            start + len <= self.buffer().len(),
        ensures
            packet@ == self.buffer().subrange(start as int, start + len),
    {
        let buffer: &[u8] = self.read_buffer.as_slice();
        assert(start + len <= buffer.len());
        vstd::slice::slice_subrange(buffer, start, start + len)
    }
}

/// What is done over `calls` requests for a packet in a row.
pub open spec fn actions_of_calls(
    queue: Seq<(usize, usize)>,
    buffer: Seq<u8>,
    calls: nat,
) -> Seq<NextAction>
    decreases calls,
{
    if calls == 0 {
        Seq::empty()
    } else {
        let (left, action) = next_step(queue, buffer, NextEvent::Called);
        seq![action] + actions_of_calls(left, buffer, (calls - 1) as nat)
    }
}

/// Packets that wait are handed out in their order, each of them once, and only
/// then is the driver asked again.
pub proof fn queued_packets_come_in_order(queue: Seq<(usize, usize)>, buffer: Seq<u8>)
    ensures
        ({
            let actions = actions_of_calls(queue, buffer, queue.len() + 1);
            &&& actions.len() == queue.len() + 1
            &&& forall|i: int|
                0 <= i < queue.len() ==> #[trigger] actions[i] == (NextAction::Deliver {
                    start: queue[i].0,
                    len: queue[i].1,
                })
            &&& actions[queue.len() as int] == NextAction::Receive
        }),
    decreases queue.len(),
{
    reveal_with_fuel(actions_of_calls, 2);
    if queue.len() > 0 {
        queued_packets_come_in_order(queue.drop_first(), buffer);
    }
}

/// Whether the action hands out exactly these bytes.
pub open spec fn delivers(buffer: Seq<u8>, action: NextAction, packet: Seq<u8>) -> bool {
    match action {
        NextAction::Deliver { start, len } => {
            &&& start + len <= buffer.len()
            &&& buffer.subrange(start as int, start + len) == packet
        },
        _ => false,
    }
}

/// What the driver captured is what is handed out: when it has written records
/// into the read buffer, the packets of these records come out, whole, in their
/// order and once each, before the driver is asked again.
pub proof fn captured_packets_are_delivered(
    captures: Seq<bpf::Capture>,
    rest: Seq<u8>,
    ret: u8,
    bytes: u32,
)
    requires
        ret != 0,
        forall|i: int| 0 <= i < captures.len() ==> (#[trigger] captures[i]).well_formed(),
        (bpf::laid_out(captures) + rest).len() <= usize::MAX,
        bpf::laid_out(captures).len() - bpf::WORD < bytes <= bpf::laid_out(captures).len(),
    ensures
        ({
            let buffer = bpf::laid_out(captures) + rest;
            let (queue, first) = next_step(
                Seq::empty(),
                buffer,
                NextEvent::Received { ret, bytes },
            );
            let actions = seq![first] + actions_of_calls(queue, buffer, captures.len());
            &&& forall|i: int|
                0 <= i < captures.len() ==> delivers(
                    buffer,
                    #[trigger] actions[i],
                    captures[i].packet,
                )
            &&& actions[captures.len() as int] == NextAction::Receive
        }),
{
    let buffer = bpf::laid_out(captures) + rest;
    bpf::scan_finds_every_capture(captures, rest, bytes as int);
    let spans = bpf::spans_from(buffer, 0, bytes as int)->0;
    let (queue, first) = next_step(Seq::empty(), buffer, NextEvent::Received { ret, bytes });
    let actions = seq![first] + actions_of_calls(queue, buffer, captures.len());
    queued_packets_come_in_order(spans, buffer);
    if captures.len() == 0 {
        assert(actions[0] == first);
    } else {
        assert(actions =~= actions_of_calls(spans, buffer, spans.len() + 1));
        assert forall|i: int| 0 <= i < captures.len() implies delivers(
            buffer,
            #[trigger] actions[i],
            captures[i].packet,
        ) by {
            assert(spans[i].0 + spans[i].1 <= buffer.len());
        }
    }
}

/// An answer that stands for failure is reported, whatever the buffer holds, and
/// changes nothing.
pub proof fn failure_is_reported(queue: Seq<(usize, usize)>, buffer: Seq<u8>, bytes: u32)
    ensures
        next_step(queue, buffer, NextEvent::Received { ret: 0, bytes }) == (
            queue,
            NextAction::Fail,
        ),
{
}

/// An answer without a packet makes the driver be asked again.
pub proof fn empty_answer_asks_again(queue: Seq<(usize, usize)>, buffer: Seq<u8>, ret: u8)
    requires
        ret != 0,
    ensures
        next_step(queue, buffer, NextEvent::Received { ret, bytes: 0 }).1 == NextAction::Receive,
        next_step(queue, buffer, NextEvent::Received { ret, bytes: 0 }).0.len() == 0,
{
    bpf::scan_of_nothing(buffer, 0, 0);
}

/// The packets of the records that stand in the buffer are handed out one after the
/// other, each from behind its header on and as long as its header says, and then
/// the driver is asked again.
pub proof fn placed_packets_are_delivered(
    buffer: Seq<u8>,
    starts: Seq<int>,
    hdrlens: Seq<u16>,
    caplens: Seq<u32>,
    ret: u8,
    bytes: u32,
)
    requires
        ret != 0,
        buffer.len() <= usize::MAX,
        starts.len() == hdrlens.len() + 1,
        caplens.len() == hdrlens.len(),
        hdrlens.len() > 0,
        starts[0] == 0,
        forall|i: int|
            0 <= i < hdrlens.len() ==> #[trigger] bpf::record_placed(
                buffer,
                starts[i],
                hdrlens[i],
                caplens[i],
                starts[i + 1],
            ),
        forall|i: int| 0 <= i < hdrlens.len() ==> #[trigger] starts[i] < bytes,
        bytes <= starts[hdrlens.len() as int],
    ensures
        ({
            let (queue, first) = next_step(
                Seq::empty(),
                buffer,
                NextEvent::Received { ret, bytes },
            );
            let actions = seq![first] + actions_of_calls(queue, buffer, hdrlens.len());
            &&& actions.len() == hdrlens.len() + 1
            &&& forall|i: int|
                0 <= i < hdrlens.len() ==> #[trigger] actions[i] == (NextAction::Deliver {
                    start: (starts[i] + hdrlens[i]) as usize,
                    len: caplens[i] as usize,
                })
            &&& actions[hdrlens.len() as int] == NextAction::Receive
        }),
{
    bpf::scan_finds_placed_records(buffer, starts, hdrlens, caplens, bytes as int);
    let spans = bpf::spans_from(buffer, 0, bytes as int)->0;
    let (queue, first) = next_step(Seq::empty(), buffer, NextEvent::Received { ret, bytes });
    let actions = seq![first] + actions_of_calls(queue, buffer, hdrlens.len());
    queued_packets_come_in_order(spans, buffer);
    assert(actions =~= actions_of_calls(spans, buffer, spans.len() + 1));
    assert forall|i: int| 0 <= i < hdrlens.len() implies #[trigger] actions[i] == (
    NextAction::Deliver {
        start: (starts[i] + hdrlens[i]) as usize,
        len: caplens[i] as usize,
    }) by {
        assert(spans[i].0 == starts[i] + hdrlens[i]);
    }
}

} // verus!
