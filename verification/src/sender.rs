//! The sending half of a channel.
use vstd::prelude::*;

verus! {

/// What the sending half is told.
pub enum SendEvent {
    /// `num_packets` packets of `packet_size` bytes each are to be built and sent.
    Start { num_packets: usize, packet_size: usize },
    /// The packet asked for has been built.
    Built,
    /// The driver has been asked to send and answered `ret`, where zero stands for
    /// failure.
    Sent { ret: u8 },
}

/// What is to be done next.
#[derive(Clone, Copy, Debug, PartialEq, Eq, Structural)]
pub enum SendAction {
    /// Answer that the write buffer is too small for the packets.
    Reject,
    /// Let the caller build a packet in the bytes of the write buffer from `start`
    /// on and before `end`, and tell `SendEvent::Built`.
    Build { start: usize, end: usize },
    /// Ask the driver to send the first `length` bytes of the write buffer, and tell
    /// `SendEvent::Sent`. The driver sends from the start of the buffer, also where
    /// the packet was built further on.
    Transmit { length: u32 },
    /// Answer that all packets have been sent.
    Done,
    /// Report the last error of the operating system.
    Fail,
}

/// How far a batch of packets has come.
pub enum SendRun {
    /// No batch is under way.
    Idle,
    /// Packet `index` is being built.
    Building { num_packets: usize, packet_size: usize, index: usize },
    /// Packet `index` is being sent.
    Sending { num_packets: usize, packet_size: usize, index: usize },
}

/// Whether this packet belongs to a batch that the driver packet has room for.
pub open spec fn in_batch(
    num_packets: usize,
    packet_size: usize,
    index: usize,
    length: u32,
) -> bool {
    &&& index < num_packets
    &&& 0 < packet_size
    &&& num_packets * packet_size < length
}

impl SendRun {
    /// Whether the batch fits a driver packet of `length` bytes.
    pub open spec fn wf(self, length: u32) -> bool {
        match self {
            SendRun::Idle => true,
            SendRun::Building { num_packets, packet_size, index } => in_batch(
                num_packets,
                packet_size,
                index,
                length,
            ),
            SendRun::Sending { num_packets, packet_size, index } => in_batch(
                num_packets,
                packet_size,
                index,
                length,
            ),
        }
    }
}

/// Whether the event can come now. A batch may be started at any time, but its
/// size has to be a number of the machine, and its packets cannot be empty where
/// there is a buffer to cut up.
pub open spec fn accepts(run: SendRun, length: u32, event: SendEvent) -> bool {
    match event {
        SendEvent::Start { num_packets, packet_size } => {
            &&& num_packets * packet_size <= usize::MAX
            &&& packet_size == 0 ==> length == 0
        },
        SendEvent::Built => run is Building,
        SendEvent::Sent { .. } => run is Sending,
    }
}

/// The bytes of packet `index`.
pub open spec fn build_packet(packet_size: usize, index: int) -> SendAction {
    SendAction::Build {
        start: (index * packet_size) as usize,
        end: ((index + 1) * packet_size) as usize,
    }
}

/// The batch after an event, and what is to be done.
pub open spec fn send_step(run: SendRun, length: u32, event: SendEvent) -> (SendRun, SendAction) {
    match (run, event) {
        (_, SendEvent::Start { num_packets, packet_size }) => {
            if num_packets * packet_size >= length {
                (SendRun::Idle, SendAction::Reject)
            } else if num_packets == 0 {
                (SendRun::Idle, SendAction::Done)
            } else {
                (
                    SendRun::Building { num_packets, packet_size, index: 0 },
                    build_packet(packet_size, 0),
                )
            }
        },
        (SendRun::Building { num_packets, packet_size, index }, SendEvent::Built) => {
            (
                SendRun::Sending { num_packets, packet_size, index },
                SendAction::Transmit { length: packet_size as u32 },
            )
        },
        (SendRun::Sending { num_packets, packet_size, index }, SendEvent::Sent { ret }) => {
            if ret == 0 {
                (SendRun::Idle, SendAction::Fail)
            } else if index + 1 == num_packets {
                (SendRun::Idle, SendAction::Done)
            } else {
                (
                    SendRun::Building { num_packets, packet_size, index: (index + 1) as usize },
                    build_packet(packet_size, index + 1),
                )
            }
        },
        _ => (run, SendAction::Fail),
    }
}

/// The packets of a batch lie inside the batch, and a packet is no longer than
/// the driver packet.
proof fn packet_in_batch(num_packets: usize, packet_size: usize, index: usize, length: u32)
    requires
        in_batch(num_packets, packet_size, index, length),
    ensures
        0 <= index * packet_size < (index + 1) * packet_size <= num_packets * packet_size < length,
        packet_size < length,
{
    assert(0 <= index * packet_size < (index + 1) * packet_size <= num_packets * packet_size
        && packet_size <= num_packets * packet_size) by (nonlinear_arith)
        requires
            index < num_packets,
            0 < packet_size,
    ;
}

/// The sending half: the buffer that packets are built in, and the batch that is
/// under way.
pub struct DataLinkSenderImpl {
    write_buffer: Vec<u8>,
    length: u32,
    run: SendRun,
}

impl DataLinkSenderImpl {
    /// The bytes of the write buffer.
    pub closed spec fn buffer(&self) -> Seq<u8> {
        self.write_buffer@
    }

    /// The length of the driver packet for sending.
    pub closed spec fn length(&self) -> u32 {
        self.length
    }

    /// The batch that is under way.
    pub closed spec fn run(&self) -> SendRun {
        self.run
    }

    /// The driver packet is no longer than the write buffer, and the batch fits it.
    pub open spec fn wf(&self) -> bool {
        &&& self.length() <= self.buffer().len()
        &&& self.run().wf(self.length())
    }

    /// A sending half with nothing under way, for a driver packet of `length` bytes.
    pub fn new(write_buffer: Vec<u8>, length: u32) -> (sender: Self)
        requires
            length <= write_buffer@.len(),
        ensures
            sender.wf(),
            sender.buffer() == write_buffer@,
            sender.length() == length,
            sender.run() is Idle,
    {
        DataLinkSenderImpl { write_buffer, length, run: SendRun::Idle }
    }

    /// Decides what comes next on the way through a batch of packets.
    ///
    /// A batch that does not leave room in the driver packet is rejected. Otherwise
    /// the packets are built and sent one after the other, until all are sent or
    /// one cannot be sent.
    pub fn build_and_send(&mut self, event: SendEvent) -> (action: SendAction)
        requires
            old(self).wf(),
            accepts(old(self).run(), old(self).length(), event),
        ensures
            final(self).wf(),
            final(self).buffer() == old(self).buffer(),
            final(self).length() == old(self).length(),
            (final(self).run(), action) == send_step(old(self).run(), old(self).length(), event),
            event matches SendEvent::Start { num_packets, packet_size } ==> {
                if num_packets * packet_size >= old(self).length() {
                    action == SendAction::Reject && final(self).run() is Idle
                } else if num_packets == 0 {
                    action == SendAction::Done && final(self).run() is Idle
                } else {
                    &&& action == (SendAction::Build { start: 0, end: packet_size })
                    &&& final(self).run() == (SendRun::Building {
                        num_packets,
                        packet_size,
                        index: 0,
                    })
                }
            },
            event is Built ==> {
                &&& old(self).run() matches SendRun::Building { num_packets, packet_size, index }
                &&& action matches SendAction::Transmit { length }
                &&& length == packet_size
                &&& final(self).run() == (SendRun::Sending { num_packets, packet_size, index })
            },
            event matches SendEvent::Sent { ret } ==> {
                &&& old(self).run() matches SendRun::Sending { num_packets, packet_size, index }
                &&& if ret == 0 {
                    action == SendAction::Fail && final(self).run() is Idle
                } else if index + 1 == num_packets {
                    action == SendAction::Done && final(self).run() is Idle
                } else {
                    &&& action matches SendAction::Build { start, end }
                    &&& start == (index + 1) * packet_size
                    &&& end == (index + 2) * packet_size
                    &&& final(self).run() == (SendRun::Building {
                        num_packets,
                        packet_size,
                        index: (index + 1) as usize,
                    })
                }
            },
    {
        match event {
            SendEvent::Start { num_packets, packet_size } => {
                let len: usize = num_packets * packet_size;
                self.run = SendRun::Idle;
                if len >= self.length as usize {
                    SendAction::Reject
                } else if num_packets == 0 {
                    SendAction::Done
                } else {
                    self.build(num_packets, packet_size, 0)
                }
            },
            SendEvent::Built => match self.run {
                SendRun::Building { num_packets, packet_size, index } => {
                    proof {
                        packet_in_batch(num_packets, packet_size, index, self.length);
                    }
                    self.run = SendRun::Sending { num_packets, packet_size, index };
                    SendAction::Transmit { length: packet_size as u32 }
                },
                _ => SendAction::Fail,
            },
            SendEvent::Sent { ret } => match self.run {
                SendRun::Sending { num_packets, packet_size, index } => {
                    self.run = SendRun::Idle;
                    if ret == 0 {
                        SendAction::Fail
                    } else if index + 1 == num_packets {
                        SendAction::Done
                    } else {
                        self.build(num_packets, packet_size, index + 1)
                    }
                },
                _ => SendAction::Fail,
            },
        }
    }

    /// Turns to packet `index` of a batch.
    fn build(&mut self, num_packets: usize, packet_size: usize, index: usize) -> (action:
        SendAction)
        requires
            in_batch(num_packets, packet_size, index, old(self).length()),
        ensures
            final(self).buffer() == old(self).buffer(),
            final(self).length() == old(self).length(),
            final(self).run() == (SendRun::Building { num_packets, packet_size, index }),
            action == build_packet(packet_size, index as int),
            action matches SendAction::Build { start, end } && start == index * packet_size && end
                == (index + 1) * packet_size,
    {
        proof {
            packet_in_batch(num_packets, packet_size, index, self.length);
            assert((index + 1) * packet_size == index * packet_size + packet_size)
                by (nonlinear_arith);
        }
        let start: usize = index * packet_size;
        self.run = SendRun::Building { num_packets, packet_size, index };
        SendAction::Build { start, end: start + packet_size }
    }

    /// The bytes of the write buffer in which the packet asked for is to be built.
    pub fn chunk_mut(&mut self) -> (chunk: &mut [u8])
        requires
            old(self).wf(),
            old(self).run() is Building,
        ensures
            ({
                let size = old(self).run()->Building_packet_size;
                let start = old(self).run()->Building_index * size;
                &&& 0 <= start
                &&& start + size <= old(self).buffer().len()
                &&& chunk@ == old(self).buffer().subrange(start, start + size)
                &&& final(self).buffer() == old(self).buffer().take(start) + final(chunk)@
                    + old(self).buffer().skip(start + size)
            }),
            final(self).length() == old(self).length(),
            final(self).run() == old(self).run(),
    {
        let mut start: usize = 0;
        let mut end: usize = 0;
        match self.run {
            SendRun::Building { num_packets, packet_size, index } => {
                proof {
                    packet_in_batch(num_packets, packet_size, index, self.length);
                    assert((index + 1) * packet_size == index * packet_size + packet_size)
                        by (nonlinear_arith);
                }
                start = index * packet_size;
                end = start + packet_size;
            },
            _ => {},
        }
        let (head, _) = self.write_buffer.as_mut_slice().split_at_mut(end);
        let (_, chunk) = head.split_at_mut(start);
        chunk
    }

    /// Places `packet` at the start of the write buffer and asks the driver to send
    /// it. A packet that does not leave room in the driver packet is rejected.
    pub fn send_to(&mut self, packet: &[u8]) -> (action: SendAction)
        requires
            old(self).wf(),
            packet@.len() == 0 ==> old(self).length() == 0,
        ensures
            final(self).wf(),
            final(self).length() == old(self).length(),
            packet@.len() >= old(self).length() ==> {
                &&& action == SendAction::Reject
                &&& final(self).run() is Idle
                &&& final(self).buffer() == old(self).buffer()
            },
            packet@.len() < old(self).length() ==> {
                &&& action == (SendAction::Transmit { length: packet@.len() as u32 })
                &&& final(self).run() == (SendRun::Sending {
                    num_packets: 1,
                    packet_size: packet@.len() as usize,
                    index: 0,
                })
                &&& final(self).buffer() == packet@ + old(self).buffer().skip(
                    packet@.len() as int,
                )
                &&& final(self).buffer().take(packet@.len() as int) == packet@
            },
    {
        let size: usize = packet.len();
        match self.build_and_send(SendEvent::Start { num_packets: 1, packet_size: size }) {
            SendAction::Build { .. } => {
                let mut i: usize = 0;
                while i < size
                    invariant
                        size == packet@.len(),
                        size < self.length <= self.write_buffer@.len(),
                        self.length == old(self).length(),
                        self.run == (SendRun::Building {
                            num_packets: 1,
                            packet_size: size,
                            index: 0,
                        }),
                        0 < size,
                        i <= size,
                        self.write_buffer@ == packet@.take(i as int) + old(self).buffer().skip(
                            i as int,
                        ),
                        self.write_buffer@.len() == old(self).buffer().len(),
                    decreases size - i,
                {
                    self.write_buffer.set(i, packet[i]);
                    i = i + 1;
                    assert(self.write_buffer@ =~= packet@.take(i as int)
                        + old(self).buffer().skip(i as int));
                }
                self.build_and_send(SendEvent::Built)
            },
            other => other,
        }
    }
}

/// What is done from the building of a packet on, while the driver answers `rets`,
/// one answer for each packet.
pub open spec fn actions_from(run: SendRun, length: u32, rets: Seq<u8>) -> Seq<SendAction>
    decreases rets.len(),
{
    if rets.len() == 0 {
        Seq::empty()
    } else {
        let (sending, transmit) = send_step(run, length, SendEvent::Built);
        let (next, action) = send_step(sending, length, SendEvent::Sent { ret: rets[0] });
        seq![transmit, action] + if action is Build {
            actions_from(next, length, rets.drop_first())
        } else {
            Seq::empty()
        }
    }
}

/// What is done over a whole batch, while the driver answers `rets`, one answer for
/// each packet.
pub open spec fn actions_of_batch(
    num_packets: usize,
    packet_size: usize,
    length: u32,
    rets: Seq<u8>,
) -> Seq<SendAction> {
    let (run, action) = send_step(
        SendRun::Idle,
        length,
        SendEvent::Start { num_packets, packet_size },
    );
    seq![action] + if action is Build {
        actions_from(run, length, rets)
    } else {
        Seq::empty()
    }
}

/// Whether the actions build each of the first `count` packets, send as many bytes
/// after each, and end with `last`.
pub open spec fn builds_and_sends(
    actions: Seq<SendAction>,
    packet_size: usize,
    count: int,
    last: SendAction,
) -> bool {
    &&& actions.len() == 2 * count + 1
    &&& forall|i: int|
        #![trigger build_packet(packet_size, i)]
        0 <= i < count ==> {
            &&& actions[2 * i] == build_packet(packet_size, i)
            &&& actions[2 * i + 1] == (SendAction::Transmit { length: packet_size as u32 })
        }
    &&& actions[2 * count] == last
}

/// The actions that build and send stand at even and at odd places.
proof fn actions_alternate(
    actions: Seq<SendAction>,
    packet_size: usize,
    count: int,
    last: SendAction,
)
    requires
        builds_and_sends(actions, packet_size, count, last),
    ensures
        forall|j: int|
            0 <= j < 2 * count ==> #[trigger] actions[j] == if j % 2 == 0 {
                SendAction::Build {
                    start: (j / 2 * packet_size) as usize,
                    end: ((j / 2 + 1) * packet_size) as usize,
                }
            } else {
                SendAction::Transmit { length: packet_size as u32 }
            },
{
    assert forall|j: int| 0 <= j < 2 * count implies #[trigger] actions[j] == if j % 2 == 0 {
        SendAction::Build {
            start: (j / 2 * packet_size) as usize,
            end: ((j / 2 + 1) * packet_size) as usize,
        }
    } else {
        SendAction::Transmit { length: packet_size as u32 }
    } by {
        let i = j / 2;
        let built = build_packet(packet_size, i);
        assert(actions[2 * i] == built);
        assert(actions[2 * i + 1] == (SendAction::Transmit { length: packet_size as u32 }));
        assert(j == 2 * i || j == 2 * i + 1);
    }
}

/// Any batch of packets that are not empty may be started at any time, as long as
/// its size is a number of the machine.
pub proof fn any_batch_may_be_started(
    run: SendRun,
    length: u32,
    num_packets: usize,
    packet_size: usize,
)
    requires
        0 < packet_size,
        num_packets * packet_size <= usize::MAX,
    ensures
        accepts(run, length, SendEvent::Start { num_packets, packet_size }),
{
}

/// A packet is told to be built exactly while one is being built, and to be sent
/// exactly while one is being sent, whatever the driver answers.
pub proof fn answers_are_accepted(run: SendRun, length: u32, ret: u8)
    ensures
        accepts(run, length, SendEvent::Built) <==> run is Building,
        accepts(run, length, SendEvent::Sent { ret }) <==> run is Sending,
{
}

/// A batch that leaves no room in the driver packet is rejected, and nothing is built
/// or sent. Any smaller one is not rejected.
pub proof fn batch_is_rejected_for_its_size(
    num_packets: usize,
    packet_size: usize,
    length: u32,
    rets: Seq<u8>,
)
    ensures
        num_packets * packet_size >= length <==> actions_of_batch(
            num_packets,
            packet_size,
            length,
            rets,
        )[0] == SendAction::Reject,
        num_packets * packet_size >= length ==> actions_of_batch(
            num_packets,
            packet_size,
            length,
            rets,
        ).len() == 1,
{
}

/// A batch that the driver accepts is gone through completely: every packet is built,
/// each in its own part of the write buffer and these parts side by side, and right
/// after each the driver is asked to send as many bytes as a packet has.
pub proof fn accepted_batch_is_completed(
    num_packets: usize,
    packet_size: usize,
    length: u32,
    rets: Seq<u8>,
)
    requires
        0 < packet_size,
        num_packets * packet_size < length,
        rets.len() == num_packets,
        forall|i: int| 0 <= i < rets.len() ==> rets[i] != 0,
    ensures
        builds_and_sends(
            actions_of_batch(num_packets, packet_size, length, rets),
            packet_size,
            num_packets as int,
            SendAction::Done,
        ),
        actions_of_batch(num_packets, packet_size, length, rets).len() == 2 * num_packets + 1,
        forall|j: int|
            0 <= j < 2 * num_packets ==> #[trigger] actions_of_batch(
                num_packets,
                packet_size,
                length,
                rets,
            )[j] == if j % 2 == 0 {
                SendAction::Build {
                    start: (j / 2 * packet_size) as usize,
                    end: ((j / 2 + 1) * packet_size) as usize,
                }
            } else {
                SendAction::Transmit { length: packet_size as u32 }
            },
        actions_of_batch(num_packets, packet_size, length, rets).last() == SendAction::Done,
{
    if num_packets > 0 {
        batch_from(num_packets, packet_size, length, 0, num_packets as int, rets);
    }
    actions_alternate(
        actions_of_batch(num_packets, packet_size, length, rets),
        packet_size,
        num_packets as int,
        SendAction::Done,
    );
}

/// A batch ends at the first time that the driver fails to send: the packets up to
/// this one are built and tried, no other is built, and the error is reported.
pub proof fn batch_stops_at_first_failure(
    num_packets: usize,
    packet_size: usize,
    length: u32,
    rets: Seq<u8>,
    failed: int,
)
    requires
        0 < packet_size,
        num_packets * packet_size < length,
        0 <= failed < num_packets,
        failed < rets.len(),
        forall|i: int| 0 <= i < failed ==> rets[i] != 0,
        rets[failed] == 0,
    ensures
        builds_and_sends(
            actions_of_batch(num_packets, packet_size, length, rets),
            packet_size,
            failed + 1,
            SendAction::Fail,
        ),
        actions_of_batch(num_packets, packet_size, length, rets).len() == 2 * (failed + 1) + 1,
        forall|j: int|
            0 <= j < 2 * (failed + 1) ==> #[trigger] actions_of_batch(
                num_packets,
                packet_size,
                length,
                rets,
            )[j] == if j % 2 == 0 {
                SendAction::Build {
                    start: (j / 2 * packet_size) as usize,
                    end: ((j / 2 + 1) * packet_size) as usize,
                }
            } else {
                SendAction::Transmit { length: packet_size as u32 }
            },
        actions_of_batch(num_packets, packet_size, length, rets).last() == SendAction::Fail,
{
    batch_from(num_packets, packet_size, length, 0, failed, rets);
    actions_alternate(
        actions_of_batch(num_packets, packet_size, length, rets),
        packet_size,
        failed + 1,
        SendAction::Fail,
    );
}

/// From packet `index` on, with the first answer that stands for failure at
/// `failed`, or none where `failed` is the number of packets.
proof fn batch_from(
    num_packets: usize,
    packet_size: usize,
    length: u32,
    index: int,
    failed: int,
    rets: Seq<u8>,
)
    requires
        0 < packet_size,
        num_packets * packet_size < length,
        0 <= index < num_packets,
        index <= failed <= num_packets,
        rets.len() >= if failed < num_packets {
            failed - index + 1
        } else {
            num_packets - index
        },
        forall|i: int| 0 <= i < failed - index ==> rets[i] != 0,
        failed < num_packets ==> rets[failed - index] == 0,
    ensures
        ({
            let run = SendRun::Building { num_packets, packet_size, index: index as usize };
            let actions = seq![build_packet(packet_size, index)] + actions_from(run, length, rets);
            let count = if failed < num_packets {
                failed - index + 1
            } else {
                num_packets - index
            };
            &&& actions.len() == 2 * count + 1
            &&& forall|i: int|
                #![trigger build_packet(packet_size, i)]
                index <= i < index + count ==> {
                    &&& actions[2 * (i - index)] == build_packet(packet_size, i)
                    &&& actions[2 * (i - index) + 1] == (SendAction::Transmit {
                        length: packet_size as u32,
                    })
                }
            &&& actions[2 * count] == if failed < num_packets {
                SendAction::Fail
            } else {
                SendAction::Done
            }
        }),
    decreases num_packets - index,
{
    let run = SendRun::Building { num_packets, packet_size, index: index as usize };
    let actions = seq![build_packet(packet_size, index)] + actions_from(run, length, rets);
    if index < failed && index + 1 < num_packets {
        batch_from(num_packets, packet_size, length, index + 1, failed, rets.drop_first());
        let next = SendRun::Building { num_packets, packet_size, index: (index + 1) as usize };
        let later = seq![build_packet(packet_size, index + 1)] + actions_from(
            next,
            length,
            rets.drop_first(),
        );
        assert(actions =~= seq![
            build_packet(packet_size, index),
            SendAction::Transmit { length: packet_size as u32 },
        ] + later);
    } else {
        assert(actions_from(run, length, rets) =~= seq![
            SendAction::Transmit { length: packet_size as u32 },
            if failed < num_packets {
                SendAction::Fail
            } else {
                SendAction::Done
            },
        ]);
    }
}

} // verus!
