//! The list of the network interfaces.
use crate::names;
use crate::net::{self, IpNetwork, MacAddr, SocketAddress};
use crate::text;
use vstd::prelude::*;
use vstd::utf8::*;

verus! {

/// The size of the buffer that the driver is first asked to write the device names
/// into.
pub const NAMES_BUFFER: u32 = 4096;

/// The operating system's answer that stands for success.
pub const NO_ERROR: u32 = 0;

/// A network interface.
#[derive(Clone, Debug, PartialEq, Eq, Hash)]
pub struct NetworkInterface {
    /// The name to open the interface with.
    pub name: String,
    /// What the interface is, in words.
    pub description: String,
    /// The number of the interface.
    pub index: u32,
    /// The hardware address.
    pub mac: Option<MacAddr>,
    /// The networks that the interface belongs to.
    pub ips: Vec<IpNetwork>,
    /// The flags of the operating system.
    pub flags: u32,
}

/// What a network interface holds.
#[verifier::ext_equal]
pub struct InterfaceView {
    pub name: Seq<char>,
    pub description: Seq<char>,
    pub index: u32,
    pub mac: Option<MacAddr>,
    pub ips: Seq<IpNetwork>,
    pub flags: u32,
}

impl View for NetworkInterface {
    type V = InterfaceView;

    open spec fn view(&self) -> InterfaceView {
        InterfaceView {
            name: self.name@,
            description: self.description@,
            index: self.index,
            mac: self.mac,
            ips: self.ips@,
            flags: self.flags,
        }
    }
}

/// What each of the interfaces holds.
pub open spec fn views(interfaces: Seq<NetworkInterface>) -> Seq<InterfaceView> {
    interfaces.map_values(|interface: NetworkInterface| interface@)
}

/// An address of an adapter, with the length of its network's prefix.
pub struct UnicastAddress {
    pub address: SocketAddress,
    pub prefix: u8,
}

/// An adapter as the operating system lists it.
pub struct Adapter {
    /// The hardware address, of which the first six bytes count.
    pub physical_address: [u8; 8],
    /// The addresses of the adapter.
    pub unicast: Vec<UnicastAddress>,
    /// The name, without the terminating zero.
    pub name: Vec<u8>,
    /// The description in wide characters, without the terminating zero.
    pub description: Vec<u16>,
    /// The number of the interface.
    pub index: u32,
    /// The flags of the operating system.
    pub flags: u32,
}

impl Adapter {
    /// The adapter can be described: its addresses are of the two known families,
    /// and its name and its description are texts.
    pub open spec fn wf(&self) -> bool {
        &&& forall|i: int|
            0 <= i < self.unicast@.len() ==> (#[trigger] self.unicast@[i]).address.wf()
        &&& valid_utf8(self.name@)
        &&& text::decode_utf16(self.description@) is Some
    }

    /// The IPv4 addresses of the adapter are the octets that their texts spell.
    pub open spec fn reads_dotted_decimal(&self) -> bool {
        forall|i: int|
            0 <= i < self.unicast@.len()
                ==> (#[trigger] self.unicast@[i]).address.reads_dotted_decimal()
    }

    /// Tells whether the adapter can be described.
    pub fn is_wf(&self) -> (result: bool)
        ensures
            result == self.wf(),
    {
        let mut i: usize = 0;
        while i < self.unicast.len()
            invariant
                i <= self.unicast@.len(),
                forall|j: int| 0 <= j < i ==> (#[trigger] self.unicast@[j]).address.wf(),
            decreases self.unicast@.len() - i,
        {
            let family: i32 = self.unicast[i].address.family;
            if family != net::AF_INET && family != net::AF_INET6 {
                return false;
            }
            i = i + 1;
        }
        text::string_from_utf8(self.name.clone()).is_some() && text::string_from_utf16(
            self.description.as_slice(),
        ).is_some()
    }
}

/// The networks that can be read from the addresses, in their order. An address
/// that no network can be read from is left out.
pub open spec fn networks(unicast: Seq<UnicastAddress>) -> Seq<IpNetwork>
    decreases unicast.len(),
{
    if unicast.len() == 0 {
        Seq::empty()
    } else {
        let before = networks(unicast.drop_last());
        match net::network_of(unicast.last().address.address(), unicast.last().prefix) {
            Ok(network) => before.push(network),
            Err(_) => before,
        }
    }
}

/// The interface that an adapter is.
pub open spec fn described(adapter: Adapter) -> InterfaceView {
    InterfaceView {
        name: decode_utf8(adapter.name@),
        description: text::decode_utf16(adapter.description@)->0,
        index: adapter.index,
        mac: Some(
            MacAddr(
                adapter.physical_address[0],
                adapter.physical_address[1],
                adapter.physical_address[2],
                adapter.physical_address[3],
                adapter.physical_address[4],
                adapter.physical_address[5],
            ),
        ),
        ips: networks(adapter.unicast@),
        flags: adapter.flags,
    }
}

/// Every network that is listed has a prefix that fits its address.
pub proof fn networks_fit(unicast: Seq<UnicastAddress>)
    ensures
        networks(unicast).len() <= unicast.len(),
        forall|i: int| 0 <= i < networks(unicast).len() ==> (#[trigger] networks(unicast)[i]).wf(),
    decreases unicast.len(),
{
    if unicast.len() > 0 {
        networks_fit(unicast.drop_last());
    }
}

/// Without an address there is no network.
pub proof fn no_address_no_network()
    ensures
        networks(Seq::empty()) == Seq::<IpNetwork>::empty(),
{
}

/// An address that can be read, with a prefix that fits it, adds its network behind
/// those of the addresses before it, whatever these are.
pub proof fn readable_address_adds_its_network(
    unicast: Seq<UnicastAddress>,
    last: UnicastAddress,
    address: net::IpAddress,
)
    requires
        last.address.address() == Some(address),
        address is V4 && last.prefix <= 32 || address is V6 && last.prefix <= 128,
    ensures
        networks(unicast.push(last)) == networks(unicast).push(
            IpNetwork { address, prefix: last.prefix },
        ),
{
    assert(unicast.push(last).drop_last() =~= unicast);
}

/// An address that cannot be read, or with a prefix that does not fit it, adds
/// nothing.
pub proof fn unreadable_address_adds_nothing(unicast: Seq<UnicastAddress>, last: UnicastAddress)
    requires
        match last.address.address() {
            Some(net::IpAddress::V4(_)) => last.prefix > 32,
            Some(net::IpAddress::V6(_)) => last.prefix > 128,
            None => true,
        },
    ensures
        networks(unicast.push(last)) == networks(unicast),
{
    assert(unicast.push(last).drop_last() =~= unicast);
}

/// No address that can be read is lost.
pub proof fn readable_address_is_listed(
    unicast: Seq<UnicastAddress>,
    i: int,
    address: net::IpAddress,
)
    requires
        0 <= i < unicast.len(),
        unicast[i].address.address() == Some(address),
        address is V4 && unicast[i].prefix <= 32 || address is V6 && unicast[i].prefix <= 128,
    ensures
        networks(unicast).contains(IpNetwork { address, prefix: unicast[i].prefix }),
    decreases unicast.len(),
{
    let network = IpNetwork { address, prefix: unicast[i].prefix };
    let earlier = unicast.drop_last();
    assert(earlier.push(unicast.last()) =~= unicast);
    if i == unicast.len() - 1 {
        readable_address_adds_its_network(earlier, unicast.last(), address);
        assert(networks(unicast)[networks(unicast).len() - 1] == network);
    } else {
        readable_address_is_listed(earlier, i, address);
        let k = networks(earlier).index_of(network);
        assert(networks(unicast)[k] == network);
    }
}

/// Where every address can be read, the networks are those of the addresses, one for
/// each and in the order of the addresses.
pub proof fn readable_addresses_are_listed_in_order(
    unicast: Seq<UnicastAddress>,
    addresses: Seq<net::IpAddress>,
)
    requires
        addresses.len() == unicast.len(),
        forall|i: int|
            0 <= i < unicast.len() ==> (#[trigger] unicast[i]).address.address() == Some(
                addresses[i],
            ),
        forall|i: int|
            0 <= i < unicast.len() ==> ((#[trigger] addresses[i]) is V4 && unicast[i].prefix <= 32
                || addresses[i] is V6 && unicast[i].prefix <= 128),
    ensures
        networks(unicast).len() == unicast.len(),
        forall|i: int|
            0 <= i < unicast.len() ==> (#[trigger] networks(unicast)[i]).address == addresses[i]
                && networks(unicast)[i].prefix == unicast[i].prefix,
    decreases unicast.len(),
{
    if unicast.len() > 0 {
        let earlier = unicast.drop_last();
        readable_addresses_are_listed_in_order(earlier, addresses.drop_last());
        assert(earlier.push(unicast.last()) =~= unicast);
        assert(addresses[unicast.len() - 1] == addresses.last());
        readable_address_adds_its_network(earlier, unicast.last(), addresses.last());
    }
}

/// Every network that is listed is that of an address, with its prefix.
pub proof fn listed_network_is_of_an_address(unicast: Seq<UnicastAddress>, i: int)
    requires
        0 <= i < networks(unicast).len(),
    ensures
        exists|k: int|
            0 <= k < unicast.len() && (#[trigger] unicast[k]).address.address() == Some(
                networks(unicast)[i].address,
            ) && unicast[k].prefix == networks(unicast)[i].prefix,
    decreases unicast.len(),
{
    if unicast.len() > 0 {
        let earlier = unicast.drop_last();
        if i < networks(earlier).len() {
            listed_network_is_of_an_address(earlier, i);
            let k = choose|k: int|
                0 <= k < earlier.len() && (#[trigger] earlier[k]).address.address() == Some(
                    networks(earlier)[i].address,
                ) && earlier[k].prefix == networks(earlier)[i].prefix;
            assert(unicast[k] == earlier[k]);
        } else {
            assert(unicast[unicast.len() - 1] == unicast.last());
        }
    }
}

/// An interface has the name, the description, the number, the flags and the first
/// six bytes of the hardware address of its adapter, and the networks of its
/// addresses.
pub proof fn adapter_is_kept(adapter: Adapter)
    requires
        valid_utf8(adapter.name@),
        text::decode_utf16(adapter.description@) is Some,
    ensures
        encode_utf8(described(adapter).name) == adapter.name@,
        text::encode_utf16(described(adapter).description) == adapter.description@,
        described(adapter).index == adapter.index,
        described(adapter).flags == adapter.flags,
        described(adapter).ips == networks(adapter.unicast@),
        described(adapter).mac == Some(
            MacAddr(
                adapter.physical_address[0],
                adapter.physical_address[1],
                adapter.physical_address[2],
                adapter.physical_address[3],
                adapter.physical_address[4],
                adapter.physical_address[5],
            ),
        ),
{
    decode_utf8_encode_utf8(adapter.name@);
    text::read_utf16_has_these_units(adapter.description@);
}

/// An adapter whose name and description are texts can be described, whatever its
/// other properties are, as long as its addresses are IPv4 or IPv6 addresses.
pub proof fn adapter_with_texts_is_wf(adapter: Adapter, name: Seq<char>, description: Seq<char>)
    requires
        adapter.name@ == encode_utf8(name),
        adapter.description@ == text::encode_utf16(description),
        forall|i: int|
            0 <= i < adapter.unicast@.len() ==> ((#[trigger] adapter.unicast@[i]).address.family
                == 2 || adapter.unicast@[i].address.family == 23),
    ensures
        adapter.wf(),
        described(adapter).name == name,
        described(adapter).description == description,
{
    encode_utf8_valid_utf8(name);
    encode_utf8_decode_utf8(name);
    text::utf16_is_read_back(description);
    assert forall|i: int| 0 <= i < adapter.unicast@.len() implies (
    #[trigger] adapter.unicast@[i]).address.wf() by {
        net::both_families_are_read(adapter.unicast@[i].address);
    }
}

/// The other way round, an adapter that can be described has texts for its name and
/// its description, and its addresses are IPv4 or IPv6 addresses.
pub proof fn wf_adapter_has_texts(adapter: Adapter)
    requires
        adapter.wf(),
    ensures
        adapter.name@ == encode_utf8(described(adapter).name),
        adapter.description@ == text::encode_utf16(described(adapter).description),
        forall|i: int|
            0 <= i < adapter.unicast@.len() ==> ((#[trigger] adapter.unicast@[i]).address.family
                == 2 || adapter.unicast@[i].address.family == 23),
{
    adapter_is_kept(adapter);
    assert forall|i: int| 0 <= i < adapter.unicast@.len() implies (
    #[trigger] adapter.unicast@[i]).address.family == 2 || adapter.unicast@[i].address.family
        == 23 by {
        net::both_families_are_read(adapter.unicast@[i].address);
    }
}

/// What an interface is said to hold is what stands in its fields.
pub proof fn view_is_the_fields(interface: NetworkInterface)
    ensures
        interface@.name == interface.name@,
        interface@.description == interface.description@,
        interface@.index == interface.index,
        interface@.mac == interface.mac,
        interface@.ips == interface.ips@,
        interface@.flags == interface.flags,
{
}

/// What several interfaces hold is what each of them holds, in their order.
pub proof fn views_are_in_order(interfaces: Seq<NetworkInterface>)
    ensures
        views(interfaces).len() == interfaces.len(),
        forall|i: int|
            0 <= i < interfaces.len() ==> #[trigger] views(interfaces)[i] == interfaces[i]@,
{
}

/// Describes an adapter as a network interface.
pub fn describe(adapter: &Adapter) -> (interface: NetworkInterface)
    requires
        adapter.wf(),
    ensures
        interface@ == described(*adapter),
        forall|i: int| 0 <= i < interface.ips@.len() ==> (#[trigger] interface.ips@[i]).wf(),
        adapter.reads_dotted_decimal(),
        encode_utf8(interface.name@) == adapter.name@,
        text::encode_utf16(interface.description@) == adapter.description@,
        interface.index == adapter.index,
        interface.flags == adapter.flags,
        interface.mac matches Some(mac) && mac.0 == adapter.physical_address[0] && mac.1
            == adapter.physical_address[1] && mac.2 == adapter.physical_address[2] && mac.3
            == adapter.physical_address[3] && mac.4 == adapter.physical_address[4] && mac.5
            == adapter.physical_address[5],
        forall|i: int|
            0 <= i < adapter.unicast@.len() ==> match (
            #[trigger] adapter.unicast@[i]).address.address() {
                Some(address) => (address is V4 && adapter.unicast@[i].prefix <= 32 || address is V6
                    && adapter.unicast@[i].prefix <= 128) ==> interface.ips@.contains(
                    (IpNetwork { address, prefix: adapter.unicast@[i].prefix }),
                ),
                None => true,
            },
{
    let mac = MacAddr(
        adapter.physical_address[0],
        adapter.physical_address[1],
        adapter.physical_address[2],
        adapter.physical_address[3],
        adapter.physical_address[4],
        adapter.physical_address[5],
    );
    let mut ips: Vec<IpNetwork> = Vec::new();
    let mut i: usize = 0;
    while i < adapter.unicast.len()
        invariant
            i <= adapter.unicast@.len(),
            adapter.wf(),
            ips@ == networks(adapter.unicast@.take(i as int)),
            forall|j: int|
                0 <= j < i ==> (#[trigger] adapter.unicast@[j]).address.reads_dotted_decimal(),
        decreases adapter.unicast@.len() - i,
    {
        let entry: &UnicastAddress = &adapter.unicast[i];
        if let Ok(network) = net::parse_ip_network(&entry.address, entry.prefix) {
            ips.push(network);
        }
        i = i + 1;
        assert(adapter.unicast@.take(i as int).drop_last() =~= adapter.unicast@.take(i - 1));
    }
    proof {
        assert(adapter.unicast@.take(i as int) =~= adapter.unicast@);
        networks_fit(adapter.unicast@);
        adapter_is_kept(*adapter);
        assert forall|i: int| 0 <= i < adapter.unicast@.len() implies match (
        #[trigger] adapter.unicast@[i]).address.address() {
            Some(address) => (address is V4 && adapter.unicast@[i].prefix <= 32 || address is V6
                && adapter.unicast@[i].prefix <= 128) ==> ips@.contains(
                IpNetwork { address, prefix: adapter.unicast@[i].prefix },
            ),
            None => true,
        } by {
            if let Some(address) = adapter.unicast@[i].address.address() {
                if address is V4 && adapter.unicast@[i].prefix <= 32 || address is V6
                    && adapter.unicast@[i].prefix <= 128 {
                    readable_address_is_listed(adapter.unicast@, i, address);
                }
            }
        }
    }
    NetworkInterface {
        name: text::string_from_utf8(adapter.name.clone()).unwrap(),
        description: text::string_from_utf16(adapter.description.as_slice()).unwrap(),
        index: adapter.index,
        mac: Some(mac),
        ips,
        flags: adapter.flags,
    }
}

/// Whether `index` is the first interface with whose name the device's name ends.
pub open spec fn is_first_match(
    interfaces: Seq<InterfaceView>,
    name: Seq<char>,
    index: int,
) -> bool {
    &&& 0 <= index < interfaces.len()
    &&& text::ends_with_chars(name, interfaces[index].name)
    &&& forall|i: int|
        0 <= i < index ==> !text::ends_with_chars(name, (#[trigger] interfaces[i]).name)
}

/// Whether the device is one of the interfaces.
pub open spec fn has_match(interfaces: Seq<InterfaceView>, name: Seq<char>) -> bool {
    exists|index: int| is_first_match(interfaces, name, index)
}

/// The interface that the device is, under the device's name.
pub open spec fn matched(interfaces: Seq<InterfaceView>, name: Seq<char>) -> InterfaceView {
    let index = choose|index: int| is_first_match(interfaces, name, index);
    InterfaceView { name, ..interfaces[index] }
}

/// The devices that are interfaces, in the order of the devices and under the
/// names of the devices.
pub open spec fn supported(
    interfaces: Seq<InterfaceView>,
    devices: Seq<Seq<char>>,
) -> Seq<InterfaceView> {
    devices.filter(|name: Seq<char>| has_match(interfaces, name)).map_values(
        |name: Seq<char>| matched(interfaces, name),
    )
}

/// Finds the first interface with whose name the device's name ends.
fn find_match(interfaces: &Vec<NetworkInterface>, name: &String) -> (index: Option<usize>)
    ensures
        match index {
            Some(index) => is_first_match(views(interfaces@), name@, index as int),
            None => !has_match(views(interfaces@), name@),
        },
{
    let mut i: usize = 0;
    while i < interfaces.len()
        invariant
            i <= interfaces@.len(),
            forall|j: int|
                0 <= j < i ==> !text::ends_with_chars(
                    name@,
                    (#[trigger] views(interfaces@)[j]).name,
                ),
        decreases interfaces@.len() - i,
    {
        if text::ends_with(name.as_str(), interfaces[i].name.as_str()) {
            return Some(i);
        }
        i = i + 1;
    }
    None
}

/// The first match is the only one.
proof fn first_match_unique(interfaces: Seq<InterfaceView>, name: Seq<char>, i: int, j: int)
    requires
        is_first_match(interfaces, name, i),
        is_first_match(interfaces, name, j),
    ensures
        i == j,
{
}

/// Picks the supported ones among the interfaces.
///
/// A device in the list of names is the first interface with whose name the
/// device's name ends. The result has the interface's properties and the device's
/// name. Devices that are no interface, and interfaces that are no device, are left
/// out.
pub fn supported_interfaces(interfaces: &Vec<NetworkInterface>, buffer: &[u8]) -> (result: Vec<
    NetworkInterface,
>)
    requires
        valid_utf8(buffer@),
    ensures
        views(result@) == supported(views(interfaces@), names::names_in(buffer@)),
{
    let devices: Vec<String> = names::device_names(buffer);
    let ghost all = views(interfaces@);
    let ghost wanted = names::names_in(buffer@);
    let mut result: Vec<NetworkInterface> = Vec::new();
    let mut i: usize = 0;
    proof {
        reveal(Seq::filter);
        assert(views(result@) =~= supported(all, wanted.take(0)));
    }
    while i < devices.len()
        invariant
            i <= devices@.len(),
            all == views(interfaces@),
            wanted == names::texts(devices@),
            views(result@) == supported(all, wanted.take(i as int)),
        decreases devices@.len() - i,
    {
        let name: &String = &devices[i];
        let ghost before = result@;
        let found: Option<usize> = find_match(interfaces, name);
        if let Some(index) = found {
            let interface: &NetworkInterface = &interfaces[index];
            let entry = NetworkInterface {
                name: name.clone(),
                description: interface.description.clone(),
                index: interface.index,
                mac: interface.mac,
                ips: interface.ips.clone(),
                flags: interface.flags,
            };
            assert(entry.ips@ =~= interface.ips@);
            result.push(entry);
            proof {
                let chosen = choose|k: int| is_first_match(all, name@, k);
                first_match_unique(all, name@, chosen, index as int);
                assert(entry@ =~= matched(all, name@));
            }
        }
        i = i + 1;
        proof {
            reveal(Seq::filter);
            assert(wanted.take(i as int).drop_last() =~= wanted.take(i - 1));
            assert(wanted.take(i as int).last() == name@);
            if found is Some {
                assert(views(result@) =~= views(before).push(matched(all, name@)));
            }
            assert(views(result@) =~= supported(all, wanted.take(i as int)));
        }
    }
    proof {
        assert(wanted.take(i as int) =~= wanted);
    }
    result
}

/// The interfaces that the adapters are.
pub open spec fn all_described(adapters: Seq<Adapter>) -> Seq<InterfaceView> {
    adapters.map_values(|adapter: Adapter| described(adapter))
}

/// Describes every adapter.
pub fn describe_all(adapters: &Vec<Adapter>) -> (interfaces: Vec<NetworkInterface>)
    requires
        forall|i: int| 0 <= i < adapters@.len() ==> (#[trigger] adapters@[i]).wf(),
    ensures
        views(interfaces@) == all_described(adapters@),
        forall|i: int|
            0 <= i < adapters@.len() ==> (#[trigger] adapters@[i]).reads_dotted_decimal(),
{
    let mut interfaces: Vec<NetworkInterface> = Vec::new();
    let mut i: usize = 0;
    while i < adapters.len()
        invariant
            i <= adapters@.len(),
            forall|j: int| 0 <= j < adapters@.len() ==> (#[trigger] adapters@[j]).wf(),
            interfaces@.len() == i,
            forall|j: int| 0 <= j < i ==> (#[trigger] interfaces@[j])@ == described(adapters@[j]),
            forall|j: int| 0 <= j < i ==> (#[trigger] adapters@[j]).reads_dotted_decimal(),
        decreases adapters@.len() - i,
    {
        interfaces.push(describe(&adapters[i]));
        i = i + 1;
    }
    assert(views(interfaces@) =~= all_described(adapters@));
    interfaces
}

/// Get a list of available network interfaces for the current machine, from the
/// adapters that the operating system lists and the buffer with the names of the
/// devices that the driver supports.
pub fn interfaces(adapters: &Vec<Adapter>, buffer: &[u8]) -> (result: Vec<NetworkInterface>)
    requires
        forall|i: int| 0 <= i < adapters@.len() ==> (#[trigger] adapters@[i]).wf(),
        valid_utf8(buffer@),
    ensures
        views(result@) == supported(all_described(adapters@), names::names_in(buffer@)),
        forall|i: int|
            0 <= i < adapters@.len() ==> (#[trigger] adapters@[i]).reads_dotted_decimal(),
{
    let all: Vec<NetworkInterface> = describe_all(adapters);
    supported_interfaces(&all, buffer)
}

/// Every interface in the list is one of the devices, with the properties of the
/// first interface with whose name the device's name ends.
pub proof fn supported_are_devices(interfaces: Seq<InterfaceView>, devices: Seq<Seq<char>>)
    ensures
        supported(interfaces, devices).len() <= devices.len(),
        forall|i: int|
            0 <= i < supported(interfaces, devices).len() ==> {
                let entry = #[trigger] supported(interfaces, devices)[i];
                &&& devices.contains(entry.name)
                &&& exists|index: int| #[trigger]
                    is_first_match(interfaces, entry.name, index) && entry == (InterfaceView {
                        name: entry.name,
                        ..interfaces[index]
                    })
            },
    decreases devices.len(),
{
    reveal(Seq::filter);
    let result = supported(interfaces, devices);
    if devices.len() > 0 {
        let earlier = devices.drop_last();
        let name = devices.last();
        supported_are_devices(interfaces, earlier);
        assert forall|i: int| 0 <= i < result.len() implies {
            let entry = #[trigger] result[i];
            &&& devices.contains(entry.name)
            &&& exists|index: int| #[trigger]
                is_first_match(interfaces, entry.name, index) && entry == (InterfaceView {
                    name: entry.name,
                    ..interfaces[index]
                })
        } by {
            if i < supported(interfaces, earlier).len() {
                assert(result[i] == supported(interfaces, earlier)[i]);
                let k = earlier.index_of(result[i].name);
                assert(devices[k] == result[i].name);
            } else {
                assert(result[i] == matched(interfaces, name));
                assert(devices[devices.len() - 1] == name);
            }
        }
    }
}

/// Every device that is an interface is in the list.
pub proof fn devices_with_match_are_listed(
    interfaces: Seq<InterfaceView>,
    devices: Seq<Seq<char>>,
    device: int,
)
    requires
        0 <= device < devices.len(),
        has_match(interfaces, devices[device]),
    ensures
        supported(interfaces, devices).contains(matched(interfaces, devices[device])),
    decreases devices.len(),
{
    reveal(Seq::filter);
    let result = supported(interfaces, devices);
    let wanted = matched(interfaces, devices[device]);
    if device == devices.len() - 1 {
        assert(result[result.len() - 1] == wanted);
    } else {
        let earlier = supported(interfaces, devices.drop_last());
        devices_with_match_are_listed(interfaces, devices.drop_last(), device);
        let k = earlier.index_of(wanted);
        assert(result[k] == wanted);
    }
}

/// A device whose name is an interface's name behind some prefix has a match.
pub proof fn prefixed_name_has_match(interfaces: Seq<InterfaceView>, prefix: Seq<char>, index: int)
    requires
        0 <= index < interfaces.len(),
    ensures
        has_match(interfaces, prefix + interfaces[index].name),
{
    let name = prefix + interfaces[index].name;
    assert(name.skip(name.len() - interfaces[index].name.len()) =~= interfaces[index].name);
    match_at_or_before(interfaces, name, index);
}

/// Where there is a match, there is a first one.
proof fn match_at_or_before(interfaces: Seq<InterfaceView>, name: Seq<char>, index: int)
    requires
        0 <= index < interfaces.len(),
        text::ends_with_chars(name, interfaces[index].name),
    ensures
        has_match(interfaces, name),
    decreases index,
{
    if exists|i: int|
        0 <= i < index && text::ends_with_chars(name, (#[trigger] interfaces[i]).name) {
        let i = choose|i: int|
            0 <= i < index && text::ends_with_chars(name, (#[trigger] interfaces[i]).name);
        match_at_or_before(interfaces, name, i);
    } else {
        assert(is_first_match(interfaces, name, index));
    }
}

/// Every interface in the list has a name that a channel can be set up with.
pub proof fn listed_names_hold_no_zero(interfaces: Seq<InterfaceView>, buffer: Seq<u8>)
    requires
        valid_utf8(buffer),
    ensures
        forall|i: int|
            0 <= i < supported(interfaces, names::names_in(buffer)).len() ==> !encode_utf8(
                (#[trigger] supported(interfaces, names::names_in(buffer))[i]).name,
            ).contains(0),
{
    let devices = names::names_in(buffer);
    names::names_hold_no_zero(buffer);
    supported_are_devices(interfaces, devices);
    assert forall|i: int| 0 <= i < supported(interfaces, devices).len() implies !encode_utf8(
        (#[trigger] supported(interfaces, devices)[i]).name,
    ).contains(0) by {
        let name = supported(interfaces, devices)[i].name;
        let k = devices.index_of(name);
        assert(devices[k] == name);
    }
}

/// Without a device there is no interface.
pub proof fn no_device_no_interface(interfaces: Seq<InterfaceView>)
    ensures
        supported(interfaces, Seq::empty()).len() == 0,
{
    reveal(Seq::filter);
}

/// A device whose name is some prefix followed by an interface's name, and ends with
/// the name of no interface before that one, is added behind the others: with its own
/// name and the interface's other properties.
pub proof fn device_adds_its_interface(
    interfaces: Seq<InterfaceView>,
    devices: Seq<Seq<char>>,
    prefix: Seq<char>,
    index: int,
)
    requires
        0 <= index < interfaces.len(),
        forall|i: int, head: Seq<char>|
            #![trigger head + interfaces[i].name]
            0 <= i < index ==> head + interfaces[i].name != prefix + interfaces[index].name,
    ensures
        ({
            let before = supported(interfaces, devices);
            let after = supported(interfaces, devices.push(prefix + interfaces[index].name));
            &&& after.len() == before.len() + 1
            &&& after.drop_last() == before
            &&& after.last().name == prefix + interfaces[index].name
            &&& after.last().description == interfaces[index].description
            &&& after.last().index == interfaces[index].index
            &&& after.last().mac == interfaces[index].mac
            &&& after.last().ips == interfaces[index].ips
            &&& after.last().flags == interfaces[index].flags
        }),
{
    reveal(Seq::filter);
    let name = prefix + interfaces[index].name;
    let all = devices.push(name);
    assert(all.drop_last() =~= devices);
    text::ends_with_is_behind_a_head(name, interfaces[index].name);
    assert forall|i: int| 0 <= i < index implies !text::ends_with_chars(
        name,
        (#[trigger] interfaces[i]).name,
    ) by {
        text::ends_with_is_behind_a_head(name, interfaces[i].name);
    }
    assert(is_first_match(interfaces, name, index));
    let chosen = choose|k: int| is_first_match(interfaces, name, k);
    first_match_unique(interfaces, name, chosen, index);
    assert(supported(interfaces, all) =~= supported(interfaces, devices).push(
        matched(interfaces, name),
    ));
    assert(supported(interfaces, all).drop_last() =~= supported(interfaces, devices));
}

/// A device whose name ends with no interface's name adds nothing.
pub proof fn unknown_device_adds_nothing(
    interfaces: Seq<InterfaceView>,
    devices: Seq<Seq<char>>,
    name: Seq<char>,
)
    requires
        forall|i: int, head: Seq<char>|
            #![trigger head + interfaces[i].name]
            0 <= i < interfaces.len() ==> head + interfaces[i].name != name,
    ensures
        supported(interfaces, devices.push(name)) == supported(interfaces, devices),
{
    reveal(Seq::filter);
    assert(devices.push(name).drop_last() =~= devices);
    if has_match(interfaces, name) {
        let index = choose|k: int| is_first_match(interfaces, name, k);
        text::ends_with_is_behind_a_head(name, interfaces[index].name);
        let head = choose|head: Seq<char>| name == #[trigger] (head + interfaces[index].name);
        assert(head + interfaces[index].name == name);
    }
}

/// Every adapter is described, in the order of the adapters.
pub proof fn adapters_are_described_in_order(adapters: Seq<Adapter>)
    ensures
        all_described(adapters).len() == adapters.len(),
        forall|i: int|
            0 <= i < adapters.len() ==> #[trigger] all_described(adapters)[i] == described(
                adapters[i],
            ),
{
}

/// A device in the driver's list whose name is some prefix followed by the name of
/// an adapter, and ends with the name of no adapter before that one, is in the list
/// of interfaces: under its own name, and with the adapter's properties.
pub proof fn adapter_of_a_device_is_listed(
    adapters: Seq<Adapter>,
    buffer: Seq<u8>,
    device: int,
    prefix: Seq<char>,
    index: int,
)
    requires
        0 <= device < names::names_in(buffer).len(),
        0 <= index < adapters.len(),
        valid_utf8(adapters[index].name@),
        text::decode_utf16(adapters[index].description@) is Some,
        names::names_in(buffer)[device] == prefix + described(adapters[index]).name,
        forall|i: int, head: Seq<char>|
            #![trigger head + described(adapters[i]).name]
            0 <= i < index ==> head + described(adapters[i]).name != prefix + described(
                adapters[index],
            ).name,
    ensures
        ({
            let list = supported(all_described(adapters), names::names_in(buffer));
            exists|k: int|
                0 <= k < list.len() && (#[trigger] list[k]).name == names::names_in(buffer)[device]
                    && text::encode_utf16(list[k].description) == adapters[index].description@
                    && list[k].index == adapters[index].index && list[k].flags
                    == adapters[index].flags && list[k].ips == networks(adapters[index].unicast@)
                    && list[k].mac == described(adapters[index]).mac
        }),
{
    let all = all_described(adapters);
    let devices = names::names_in(buffer);
    let list = supported(all, devices);
    let name = devices[device];
    adapters_are_described_in_order(adapters);
    adapter_is_kept(adapters[index]);
    text::ends_with_is_behind_a_head(name, all[index].name);
    assert forall|i: int| 0 <= i < index implies !text::ends_with_chars(
        name,
        (#[trigger] all[i]).name,
    ) by {
        text::ends_with_is_behind_a_head(name, all[i].name);
        if text::ends_with_chars(name, all[i].name) {
            let head = choose|head: Seq<char>| name == #[trigger] (head + all[i].name);
            assert(head + described(adapters[i]).name == name);
        }
    }
    assert(is_first_match(all, name, index));
    let chosen = choose|k: int| is_first_match(all, name, k);
    first_match_unique(all, name, chosen, index);
    devices_with_match_are_listed(all, devices, device);
    let k = list.index_of(matched(all, name));
    assert(list[k] == matched(all, name));
}

/// The least number of entries of `entry_size` bytes that hold `size` bytes.
pub open spec fn slots_for(size: u32, entry_size: u32) -> int {
    (size + entry_size - 1) / (entry_size as int)
}

/// The room that is made holds the list, and one entry less would not.
pub proof fn slots_hold_the_list(size: u32, entry_size: u32)
    requires
        entry_size > 0,
    ensures
        0 <= slots_for(size, entry_size) <= size,
        slots_for(size, entry_size) * entry_size >= size,
        slots_for(size, entry_size) * entry_size < size + entry_size,
{
    let total = size + entry_size - 1;
    let entry = entry_size as int;
    let slots = slots_for(size, entry_size);
    vstd::arithmetic::div_mod::lemma_fundamental_div_mod(total, entry);
    vstd::arithmetic::div_mod::lemma_mod_bound(total, entry);
    assert(entry * slots == slots * entry) by (nonlinear_arith);
    assert(slots >= 0) by (nonlinear_arith)
        requires
            slots * entry > total - entry,
            total - entry >= -1,
            entry >= 1,
    ;
    assert(slots <= size) by (nonlinear_arith)
        requires
            slots * entry <= size + entry - 1,
            entry >= 1,
            size >= 0,
    ;
}

/// Finds how many entries to make room for when the operating system asks for
/// `adapters_size` bytes.
pub fn adapter_slots(adapters_size: u32, entry_size: u32) -> (slots: u32)
    requires
        entry_size > 0,
    ensures
        slots == slots_for(adapters_size, entry_size),
        slots * entry_size >= adapters_size,
        slots * entry_size < adapters_size + entry_size,
{
    let whole: u32 = adapters_size / entry_size;
    let over: u32 = adapters_size % entry_size;
    proof {
        let (size, entry) = (adapters_size as int, entry_size as int);
        vstd::arithmetic::div_mod::lemma_fundamental_div_mod(size, entry);
        assert(whole * entry >= whole) by (nonlinear_arith)
            requires
                entry >= 1,
                whole >= 0,
        ;
        assert(entry * whole == whole * entry) by (nonlinear_arith);
        assert((whole + 1) * entry == whole * entry + entry) by (nonlinear_arith);
        if over == 0 {
            vstd::arithmetic::div_mod::lemma_fundamental_div_mod_converse(
                size + entry - 1,
                entry,
                whole as int,
                entry - 1,
            );
        } else {
            vstd::arithmetic::div_mod::lemma_fundamental_div_mod_converse(
                size + entry - 1,
                entry,
                whole + 1,
                over - 1,
            );
        }
    }
    if over != 0 {
        whole + 1
    } else {
        whole
    }
}

} // verus!
