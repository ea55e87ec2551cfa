//! Setting a channel up.
use crate::config::Config;
use crate::interfaces::NetworkInterface;
use crate::receiver::DataLinkReceiverImpl;
use crate::sender::DataLinkSenderImpl;
use vstd::prelude::*;
use vstd::utf8::*;

verus! {

/// The hardware filter that lets every packet through.
pub const NDIS_PACKET_TYPE_PROMISCUOUS: u32 = 0x20;

/// A call that the set-up of a channel asks for.
#[derive(Clone, Copy, Debug, PartialEq, Eq, Structural)]
pub enum SetupCall {
    /// `PacketOpenAdapter`, with the name of the adapter. It fails with a null
    /// pointer.
    OpenAdapter,
    /// `PacketSetHwFilter`. It fails with zero.
    SetHwFilter { filter: u32 },
    /// `PacketSetBuff`, for the size of the kernel buffer. It fails with zero.
    SetBuff { size: i32 },
    /// `PacketSetMinToCopy`. It fails with zero.
    SetMinToCopy { bytes: i32 },
    /// `PacketAllocatePacket`, for reading. It fails with a null pointer.
    AllocateReadPacket,
    /// `PacketInitPacket` of the packet for reading, with the read buffer.
    InitReadPacket { length: u32 },
    /// `PacketAllocatePacket`, for writing. It fails with a null pointer.
    AllocateWritePacket,
    /// `PacketInitPacket` of the packet for writing, with the write buffer.
    InitWritePacket { length: u32 },
    /// `PacketFreePacket` of the packet for reading.
    FreeReadPacket,
    /// `PacketCloseAdapter`.
    CloseAdapter,
    /// The end: report the last error of the operating system.
    ReportLastError,
    /// The end: the two halves of the channel are ready.
    Complete,
}

impl SetupCall {
    /// Whether the set-up has ended.
    pub open spec fn is_end(self) -> bool {
        self is ReportLastError || self is Complete
    }
}

/// The call that follows `call`, after it has succeeded or not. The outcome of a
/// call that cannot fail does not matter.
pub open spec fn following_call(config: Config, call: SetupCall, succeeded: bool) -> SetupCall {
    match call {
        SetupCall::OpenAdapter => if succeeded {
            SetupCall::SetHwFilter { filter: NDIS_PACKET_TYPE_PROMISCUOUS }
        } else {
            SetupCall::ReportLastError
        },
        SetupCall::SetHwFilter { .. } => if succeeded {
            SetupCall::SetBuff { size: config.read_buffer_size as i32 }
        } else {
            SetupCall::ReportLastError
        },
        SetupCall::SetBuff { .. } => if succeeded {
            SetupCall::SetMinToCopy { bytes: 1 }
        } else {
            SetupCall::ReportLastError
        },
        SetupCall::SetMinToCopy { .. } => if succeeded {
            SetupCall::AllocateReadPacket
        } else {
            SetupCall::ReportLastError
        },
        SetupCall::AllocateReadPacket => if succeeded {
            SetupCall::InitReadPacket { length: config.read_buffer_size as u32 }
        } else {
            SetupCall::CloseAdapter
        },
        SetupCall::InitReadPacket { .. } => SetupCall::AllocateWritePacket,
        SetupCall::AllocateWritePacket => if succeeded {
            SetupCall::InitWritePacket { length: config.write_buffer_size as u32 }
        } else {
            SetupCall::FreeReadPacket
        },
        SetupCall::InitWritePacket { .. } => SetupCall::Complete,
        SetupCall::FreeReadPacket => SetupCall::CloseAdapter,
        SetupCall::CloseAdapter => SetupCall::ReportLastError,
        SetupCall::ReportLastError => SetupCall::ReportLastError,
        SetupCall::Complete => SetupCall::Complete,
    }
}

/// `size` bytes, all zero.
pub open spec fn zeros(size: int) -> Seq<u8> {
    Seq::new(size as nat, |i: int| 0u8)
}

/// A channel that is being set up.
pub struct ChannelSetup {
    name: Vec<u8>,
    config: Config,
    read_buffer: Vec<u8>,
    write_buffer: Vec<u8>,
    call: SetupCall,
}

/// Begins to set up a channel on an interface.
///
/// The buffers are ready from the start. The first call to make is the one that
/// opens the adapter.
pub fn channel(network_interface: &NetworkInterface, config: Config) -> (setup: ChannelSetup)
    requires
        !encode_utf8(network_interface.name@).contains(0),
    ensures
        setup.wf(),
        setup.name() == encode_utf8(network_interface.name@).push(0),
        setup.config() == config,
        setup.call() == SetupCall::OpenAdapter,
        setup.read_buffer() == zeros(config.read_buffer_size as int),
        setup.write_buffer() == zeros(config.write_buffer_size as int),
        setup.read_buffer().len() == config.read_buffer_size,
        setup.write_buffer().len() == config.write_buffer_size,
        forall|i: int| 0 <= i < setup.read_buffer().len() ==> setup.read_buffer()[i] == 0,
        forall|i: int| 0 <= i < setup.write_buffer().len() ==> setup.write_buffer()[i] == 0,
{
    let mut read_buffer: Vec<u8> = Vec::new();
    read_buffer.resize(config.read_buffer_size, 0u8);
    let mut write_buffer: Vec<u8> = Vec::new();
    write_buffer.resize(config.write_buffer_size, 0u8);
    let mut name: Vec<u8> = vstd::slice::slice_to_vec(network_interface.name.as_str().as_bytes());
    name.push(0);
    assert(read_buffer@ =~= zeros(config.read_buffer_size as int));
    assert(write_buffer@ =~= zeros(config.write_buffer_size as int));
    ChannelSetup { name, config, read_buffer, write_buffer, call: SetupCall::OpenAdapter }
}

impl ChannelSetup {
    /// The name of the adapter, with a terminating zero.
    pub closed spec fn name(&self) -> Seq<u8> {
        self.name@
    }

    /// The configuration of the channel.
    pub closed spec fn config(&self) -> Config {
        self.config
    }

    /// The buffer for the packets that are received.
    pub closed spec fn read_buffer(&self) -> Seq<u8> {
        self.read_buffer@
    }

    /// The buffer for the packets that are sent.
    pub closed spec fn write_buffer(&self) -> Seq<u8> {
        self.write_buffer@
    }

    /// The call to make.
    pub closed spec fn call(&self) -> SetupCall {
        self.call
    }

    /// The buffers have the sizes of the configuration.
    pub open spec fn wf(&self) -> bool {
        &&& self.read_buffer().len() == self.config().read_buffer_size
        &&& self.write_buffer().len() == self.config().write_buffer_size
    }

    /// Takes note of the outcome of the call and gives the call to make next.
    pub fn step(&mut self, succeeded: bool) -> (call: SetupCall)
        requires
            !old(self).call().is_end(),
        ensures
            call == following_call(old(self).config(), old(self).call(), succeeded),
            final(self).call() == call,
            final(self).name() == old(self).name(),
            final(self).config() == old(self).config(),
            final(self).read_buffer() == old(self).read_buffer(),
            final(self).write_buffer() == old(self).write_buffer(),
            !succeeded && (old(self).call() is OpenAdapter || old(self).call() is SetHwFilter
                || old(self).call() is SetBuff || old(self).call() is SetMinToCopy)
                ==> call is ReportLastError,
            !succeeded && old(self).call() is AllocateReadPacket ==> call is CloseAdapter,
            !succeeded && old(self).call() is AllocateWritePacket ==> call is FreeReadPacket,
            succeeded && old(self).call() is OpenAdapter ==> call == (SetupCall::SetHwFilter {
                filter: 0x20,
            }),
            succeeded && old(self).call() is SetHwFilter ==> {
                &&& call matches SetupCall::SetBuff { size }
                &&& old(self).config().read_buffer_size <= i32::MAX ==> size
                    == old(self).config().read_buffer_size
            },
            succeeded && old(self).call() is SetBuff ==> call == (SetupCall::SetMinToCopy {
                bytes: 1,
            }),
            succeeded && old(self).call() is SetMinToCopy ==> call is AllocateReadPacket,
            succeeded && old(self).call() is AllocateReadPacket ==> {
                &&& call matches SetupCall::InitReadPacket { length }
                &&& old(self).config().read_buffer_size <= u32::MAX ==> length
                    == old(self).config().read_buffer_size
            },
            old(self).call() is InitReadPacket ==> call is AllocateWritePacket,
            succeeded && old(self).call() is AllocateWritePacket ==> {
                &&& call matches SetupCall::InitWritePacket { length }
                &&& old(self).config().write_buffer_size <= u32::MAX ==> length
                    == old(self).config().write_buffer_size
            },
            old(self).call() is InitWritePacket ==> call is Complete,
            old(self).call() is FreeReadPacket ==> call is CloseAdapter,
            old(self).call() is CloseAdapter ==> call is ReportLastError,
    {
        let config = self.config;
        let next = match self.call {
            SetupCall::OpenAdapter => if succeeded {
                SetupCall::SetHwFilter { filter: NDIS_PACKET_TYPE_PROMISCUOUS }
            } else {
                SetupCall::ReportLastError
            },
            SetupCall::SetHwFilter { .. } => if succeeded {
                // Set kernel buffer size
                SetupCall::SetBuff { size: #[verifier::truncate] (config.read_buffer_size as i32) }
            } else {
                SetupCall::ReportLastError
            },
            SetupCall::SetBuff { .. } => if succeeded {
                // Immediate mode
                SetupCall::SetMinToCopy { bytes: 1 }
            } else {
                SetupCall::ReportLastError
            },
            SetupCall::SetMinToCopy { .. } => if succeeded {
                SetupCall::AllocateReadPacket
            } else {
                SetupCall::ReportLastError
            },
            SetupCall::AllocateReadPacket => if succeeded {
                SetupCall::InitReadPacket {
                    length: #[verifier::truncate] (config.read_buffer_size as u32),
                }
            } else {
                SetupCall::CloseAdapter
            },
            SetupCall::InitReadPacket { .. } => SetupCall::AllocateWritePacket,
            SetupCall::AllocateWritePacket => if succeeded {
                SetupCall::InitWritePacket {
                    length: #[verifier::truncate] (config.write_buffer_size as u32),
                }
            } else {
                SetupCall::FreeReadPacket
            },
            SetupCall::InitWritePacket { .. } => SetupCall::Complete,
            SetupCall::FreeReadPacket => SetupCall::CloseAdapter,
            SetupCall::CloseAdapter => SetupCall::ReportLastError,
            SetupCall::ReportLastError => SetupCall::ReportLastError,
            SetupCall::Complete => SetupCall::Complete,
        };
        self.call = next;
        next
    }

    /// The name to open the adapter with, with a terminating zero.
    pub fn adapter_name(&self) -> (name: &[u8])
        ensures
            name@ == self.name(),
    {
        self.name.as_slice()
    }

    /// The buffer to initialise the packet for reading with.
    pub fn read_buffer_mut(&mut self) -> (buffer: &mut [u8])
        ensures
            buffer@ == old(self).read_buffer(),
            final(self).read_buffer() == final(buffer)@,
            final(self).name() == old(self).name(),
            final(self).config() == old(self).config(),
            final(self).write_buffer() == old(self).write_buffer(),
            final(self).call() == old(self).call(),
    {
        self.read_buffer.as_mut_slice()
    }

    /// The buffer to initialise the packet for writing with.
    pub fn write_buffer_mut(&mut self) -> (buffer: &mut [u8])
        ensures
            buffer@ == old(self).write_buffer(),
            final(self).write_buffer() == final(buffer)@,
            final(self).name() == old(self).name(),
            final(self).config() == old(self).config(),
            final(self).read_buffer() == old(self).read_buffer(),
            final(self).call() == old(self).call(),
    {
        self.write_buffer.as_mut_slice()
    }

    /// The two halves of a channel that is set up.
    pub fn finish(self) -> (halves: (DataLinkSenderImpl, DataLinkReceiverImpl))
        requires
            self.wf(),
            self.call() is Complete,
        ensures
            halves.0.wf(),
            halves.0.buffer() == self.write_buffer(),
            halves.0.length() == self.config().write_buffer_size as u32,
            self.config().write_buffer_size <= u32::MAX ==> halves.0.length()
                == self.config().write_buffer_size,
            halves.0.run() is Idle,
            halves.1.wf(),
            halves.1.buffer() == self.read_buffer(),
            halves.1.queue() == Seq::<(usize, usize)>::empty(),
    {
        let read_size: usize = self.config.read_buffer_size;
        let write_size: usize = self.config.write_buffer_size;
        assert(write_size as u32 <= write_size) by (bit_vector);
        let sender = DataLinkSenderImpl::new(
            self.write_buffer,
            #[verifier::truncate] (write_size as u32),
        );
        let receiver = DataLinkReceiverImpl::new(
            self.read_buffer,
            #[verifier::truncate] (read_size as u32),
        );
        (sender, receiver)
    }
}

/// What of the driver's a channel that is being set up holds.
pub struct Held {
    pub adapter: bool,
    pub read_packet: bool,
    pub write_packet: bool,
}

/// What is held after a call.
pub open spec fn held_after(held: Held, call: SetupCall, succeeded: bool) -> Held {
    match call {
        SetupCall::OpenAdapter => Held { adapter: succeeded, ..held },
        SetupCall::AllocateReadPacket => Held { read_packet: succeeded, ..held },
        SetupCall::AllocateWritePacket => Held { write_packet: succeeded, ..held },
        SetupCall::FreeReadPacket => Held { read_packet: false, ..held },
        SetupCall::CloseAdapter => Held { adapter: false, ..held },
        _ => held,
    }
}

/// The calls of a set-up from `call` on, while their outcomes are `outcomes`.
pub open spec fn calls_from(config: Config, call: SetupCall, outcomes: Seq<bool>) -> Seq<SetupCall>
    decreases outcomes.len(),
{
    if outcomes.len() == 0 || call.is_end() {
        seq![call]
    } else {
        seq![call] + calls_from(
            config,
            following_call(config, call, outcomes[0]),
            outcomes.drop_first(),
        )
    }
}

/// What is held at the end of these calls.
pub open spec fn held_from(
    config: Config,
    held: Held,
    call: SetupCall,
    outcomes: Seq<bool>,
) -> Held
    decreases outcomes.len(),
{
    if outcomes.len() == 0 || call.is_end() {
        held
    } else {
        held_from(
            config,
            held_after(held, call, outcomes[0]),
            following_call(config, call, outcomes[0]),
            outcomes.drop_first(),
        )
    }
}

/// The calls of a whole set-up.
pub open spec fn setup_calls(config: Config, outcomes: Seq<bool>) -> Seq<SetupCall> {
    calls_from(config, SetupCall::OpenAdapter, outcomes)
}

/// What a whole set-up holds in the end.
pub open spec fn setup_held(config: Config, outcomes: Seq<bool>) -> Held {
    held_from(
        config,
        Held { adapter: false, read_packet: false, write_packet: false },
        SetupCall::OpenAdapter,
        outcomes,
    )
}

/// Whether the calls that can fail all succeed: the calls to initialise a packet,
/// the sixth and the eighth, have no outcome.
pub open spec fn all_succeed(outcomes: Seq<bool>) -> bool {
    outcomes[0] && outcomes[1] && outcomes[2] && outcomes[3] && outcomes[4] && outcomes[6]
}

/// Where every call succeeds, the adapter is opened and put into promiscuous and
/// immediate mode with a kernel buffer, then both packets are made, and the
/// channel is ready and holds all three.
pub proof fn successful_setup(config: Config, outcomes: Seq<bool>)
    requires
        outcomes.len() >= 8,
        all_succeed(outcomes),
    ensures
        setup_calls(config, outcomes) == seq![
            SetupCall::OpenAdapter,
            SetupCall::SetHwFilter { filter: NDIS_PACKET_TYPE_PROMISCUOUS },
            SetupCall::SetBuff { size: config.read_buffer_size as i32 },
            SetupCall::SetMinToCopy { bytes: 1 },
            SetupCall::AllocateReadPacket,
            SetupCall::InitReadPacket { length: config.read_buffer_size as u32 },
            SetupCall::AllocateWritePacket,
            SetupCall::InitWritePacket { length: config.write_buffer_size as u32 },
            SetupCall::Complete,
        ],
        setup_held(config, outcomes) == (Held {
            adapter: true,
            read_packet: true,
            write_packet: true,
        }),
{
    reveal_with_fuel(calls_from, 9);
    reveal_with_fuel(held_from, 9);
}

/// Where a call fails, the set-up ends with the report of an error. No packet is
/// held then. The adapter is not held either, unless it is the filter, the kernel
/// buffer or the immediate mode that could not be set: then it stays open.
pub proof fn failed_setup(config: Config, outcomes: Seq<bool>)
    requires
        outcomes.len() >= 9,
        !all_succeed(outcomes),
    ensures
        setup_calls(config, outcomes).last() == SetupCall::ReportLastError,
        !setup_held(config, outcomes).read_packet,
        !setup_held(config, outcomes).write_packet,
        setup_held(config, outcomes).adapter <==> outcomes[0] && !(outcomes[1] && outcomes[2]
            && outcomes[3]),
{
    reveal_with_fuel(calls_from, 10);
    reveal_with_fuel(held_from, 10);
}

/// The driver's codes and the sizes in the calls of a set-up are these: the filter
/// for every packet, one byte to copy at least, and the sizes of the configuration
/// wherever the driver's types hold them.
pub proof fn configured_sizes_reach_the_driver(config: Config, outcomes: Seq<bool>)
    requires
        outcomes.len() >= 8,
        all_succeed(outcomes),
    ensures
        setup_calls(config, outcomes)[1] == (SetupCall::SetHwFilter { filter: 0x20 }),
        setup_calls(config, outcomes)[3] == (SetupCall::SetMinToCopy { bytes: 1 }),
        config.read_buffer_size <= i32::MAX ==> {
            &&& setup_calls(config, outcomes)[2] matches SetupCall::SetBuff { size }
            &&& size == config.read_buffer_size
        },
        config.read_buffer_size <= u32::MAX ==> {
            &&& setup_calls(config, outcomes)[5] matches SetupCall::InitReadPacket { length }
            &&& length == config.read_buffer_size
        },
        config.write_buffer_size <= u32::MAX ==> {
            &&& setup_calls(config, outcomes)[7] matches SetupCall::InitWritePacket { length }
            &&& length == config.write_buffer_size
        },
{
    successful_setup(config, outcomes);
}

/// Which calls follow the first one that fails: none but the report of the error
/// before the packets are made, the release of the adapter where the packet for
/// reading cannot be made, and the release of that packet and of the adapter where
/// the packet for writing cannot be made.
pub proof fn calls_behind_a_failure(config: Config, outcomes: Seq<bool>, failed: int)
    requires
        outcomes.len() >= 9,
        failed == 0 || failed == 1 || failed == 2 || failed == 3 || failed == 4 || failed == 6,
        !outcomes[failed],
        forall|i: int| 0 <= i < failed && i != 5 ==> outcomes[i],
    ensures
        failed < 4 ==> {
            &&& setup_calls(config, outcomes).len() == failed + 2
            &&& setup_calls(config, outcomes)[failed + 1] == SetupCall::ReportLastError
        },
        failed == 4 ==> {
            &&& setup_calls(config, outcomes).len() == 7
            &&& setup_calls(config, outcomes)[4] == SetupCall::AllocateReadPacket
            &&& setup_calls(config, outcomes)[5] == SetupCall::CloseAdapter
            &&& setup_calls(config, outcomes)[6] == SetupCall::ReportLastError
        },
        failed == 6 ==> {
            &&& setup_calls(config, outcomes).len() == 10
            &&& setup_calls(config, outcomes)[6] == SetupCall::AllocateWritePacket
            &&& setup_calls(config, outcomes)[7] == SetupCall::FreeReadPacket
            &&& setup_calls(config, outcomes)[8] == SetupCall::CloseAdapter
            &&& setup_calls(config, outcomes)[9] == SetupCall::ReportLastError
        },
{
    reveal_with_fuel(calls_from, 10);
    assert(forall|i: int| 0 <= i < failed && i != 5 ==> #[trigger] outcomes[i]);
}

/// Whether the set-up succeeds does not depend on more than the outcomes of the
/// calls that can fail, and a set-up that has begun ends either way.
pub proof fn setup_completes_exactly_on_success(config: Config, outcomes: Seq<bool>)
    requires
        outcomes.len() >= 9,
    ensures
        setup_calls(config, outcomes).last() == SetupCall::Complete <==> outcomes[0] && outcomes[1]
            && outcomes[2] && outcomes[3] && outcomes[4] && outcomes[6],
        setup_calls(config, outcomes).last() == SetupCall::Complete || setup_calls(
            config,
            outcomes,
        ).last() == SetupCall::ReportLastError,
{
    reveal_with_fuel(calls_from, 10);
}

} // verus!
