use pnet_datalink::channel::{channel, ChannelSetup, SetupCall};
use pnet_datalink::config::{Config, DatalinkConfig};
use pnet_datalink::interfaces::NetworkInterface;
use pnet_datalink::receiver::{NextAction, NextEvent};
use pnet_datalink::sender::SendAction;

fn setup(config: Config) -> ChannelSetup {
    let interface = NetworkInterface {
        name: String::from("\\Device\\NPF_{1}"),
        description: String::new(),
        index: 0,
        mac: None,
        ips: vec![],
        flags: 0,
    };
    channel(&interface, config)
}

fn calls(outcomes: &[bool]) -> Vec<SetupCall> {
    let mut setup = setup(Config { write_buffer_size: 100, read_buffer_size: 200 });
    outcomes.iter().map(|&succeeded| setup.step(succeeded)).collect()
}

#[test]
fn config_defaults() {
    let config = Config::default();
    assert_eq!(config.write_buffer_size, 4096);
    assert_eq!(config.read_buffer_size, 4096);
}

#[test]
fn config_from_general_config() {
    let general = DatalinkConfig { write_buffer_size: 1, read_buffer_size: 2 };
    assert_eq!(Config::from(&general), Config { write_buffer_size: 1, read_buffer_size: 2 });
}

#[test]
fn name_is_terminated() {
    assert_eq!(setup(Config::default()).adapter_name(), b"\\Device\\NPF_{1}\0");
}

#[test]
fn all_calls_succeed() {
    assert_eq!(
        calls(&[true; 8]),
        vec![
            SetupCall::SetHwFilter { filter: 0x20 },
            SetupCall::SetBuff { size: 200 },
            SetupCall::SetMinToCopy { bytes: 1 },
            SetupCall::AllocateReadPacket,
            SetupCall::InitReadPacket { length: 200 },
            SetupCall::AllocateWritePacket,
            SetupCall::InitWritePacket { length: 100 },
            SetupCall::Complete,
        ]
    );
}

#[test]
fn early_failures_report_at_once() {
    assert_eq!(calls(&[false]), vec![SetupCall::ReportLastError]);
    for good in 1..4 {
        let mut outcomes = vec![true; good];
        outcomes.push(false);
        assert_eq!(calls(&outcomes).last(), Some(&SetupCall::ReportLastError));
    }
}

#[test]
fn failed_read_packet_closes_the_adapter() {
    let calls = calls(&[true, true, true, true, false, true]);
    assert_eq!(calls[4..], [SetupCall::CloseAdapter, SetupCall::ReportLastError]);
}

#[test]
fn failed_write_packet_frees_and_closes() {
    let calls = calls(&[true, true, true, true, true, true, false, true, true]);
    assert_eq!(
        calls[6..],
        [SetupCall::FreeReadPacket, SetupCall::CloseAdapter, SetupCall::ReportLastError]
    );
}

#[test]
fn sizes_are_cut_to_the_driver_types() {
    let mut setup = setup(Config { write_buffer_size: 0, read_buffer_size: 0x8000_0001 });
    setup.step(true);
    assert_eq!(setup.step(true), SetupCall::SetBuff { size: -0x7fff_ffff });
}

#[test]
fn halves_are_ready_to_use() {
    let mut setup = setup(Config { write_buffer_size: 3, read_buffer_size: 5 });
    assert_eq!(setup.read_buffer_mut(), &[0u8; 5]);
    assert_eq!(setup.write_buffer_mut(), &[0u8; 3]);
    for _ in 0..8 {
        setup.step(true);
    }
    let (mut sender, mut receiver) = setup.finish();
    assert_eq!(receiver.next(NextEvent::Called), NextAction::Receive);
    assert_eq!(receiver.packet(0, 5), &[0u8; 5]);
    assert_eq!(sender.send_to(b"ab"), SendAction::Transmit { length: 2 });
    assert_eq!(sender.send_to(b"abc"), SendAction::Reject);
}
