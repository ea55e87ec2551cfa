//! Hardware addresses, IP addresses and IP networks.
use crate::text;
use vstd::prelude::*;
use vstd::utf8::*;

verus! {

/// Address family of IPv4 addresses.
pub const AF_INET: i32 = 2;

/// Address family of IPv6 addresses.
pub const AF_INET6: i32 = 23;

/// The hardware address of an interface.
#[derive(Clone, Copy, Debug, PartialEq, Eq, Hash)]
pub struct MacAddr(pub u8, pub u8, pub u8, pub u8, pub u8, pub u8);

/// An IP address by its octets.
#[derive(Clone, Copy, Debug, PartialEq, Eq, Hash)]
pub enum IpAddress {
    V4([u8; 4]),
    V6([u8; 16]),
}

impl IpAddress {
    /// The number of bits of the address.
    pub open spec fn bits(self) -> int {
        match self {
            IpAddress::V4(_) => 32,
            IpAddress::V6(_) => 128,
        }
    }
}

/// An IP address with the length of the prefix that is common to its network.
#[derive(Clone, Copy, Debug, PartialEq, Eq, Hash)]
pub struct IpNetwork {
    pub address: IpAddress,
    pub prefix: u8,
}

impl IpNetwork {
    /// The prefix is no longer than the address.
    pub open spec fn wf(self) -> bool {
        self.prefix <= self.address.bits()
    }
}

/// An address of an interface: its family, and its text as the operating system
/// writes it, without the terminating zero.
pub struct SocketAddress {
    pub family: i32,
    pub text: Vec<u8>,
}

impl SocketAddress {
    /// The address is one of the two kinds that can be read.
    pub open spec fn wf(&self) -> bool {
        self.family == AF_INET || self.family == AF_INET6
    }

    /// The address that the text spells.
    pub open spec fn address(&self) -> Option<IpAddress> {
        if valid_utf8(self.text@) {
            parsed_address(decode_utf8(self.text@))
        } else {
            None
        }
    }

    /// Four octets in dotted decimal notation spell that IPv4 address.
    pub open spec fn reads_dotted_decimal(&self) -> bool {
        forall|octets: [u8; 4]|
            self.text@ == encode_utf8(#[trigger] dotted_decimal(octets)) ==> self.address() == Some(
                IpAddress::V4(octets),
            )
    }
}

/// The decimal digits of a number, without leading zeros.
pub open spec fn decimal(n: u8) -> Seq<char> {
    if n < 10 {
        seq![('0' as u8 + n) as char]
    } else if n < 100 {
        seq![('0' as u8 + n / 10) as char, ('0' as u8 + n % 10) as char]
    } else {
        seq![
            ('0' as u8 + n / 100) as char,
            ('0' as u8 + n / 10 % 10) as char,
            ('0' as u8 + n % 10) as char,
        ]
    }
}

/// Four octets in dotted decimal notation.
pub open spec fn dotted_decimal(octets: [u8; 4]) -> Seq<char> {
    decimal(octets[0]) + seq!['.'] + decimal(octets[1]) + seq!['.'] + decimal(octets[2]) + seq![
        '.',
    ] + decimal(octets[3])
}

/// What `str::parse` reads as an IP address in a text.
pub uninterp spec fn parsed_address(text: Seq<char>) -> Option<IpAddress>;

/// `str::parse` for `IpAddr`: what it reads depends on the text alone, and four
/// octets in dotted decimal notation are read as that IPv4 address.
#[verifier::external_body]
fn parse_address(text: &str) -> (address: Option<IpAddress>)
    ensures
        address == parsed_address(text@),
        forall|octets: [u8; 4]|
            text@ == #[trigger] dotted_decimal(octets) ==> address == Some(IpAddress::V4(octets)),
{
    match text.parse().ok()? {
        core::net::IpAddr::V4(v4) => Some(IpAddress::V4(v4.octets())),
        core::net::IpAddr::V6(v6) => Some(IpAddress::V6(v6.octets())),
    }
}

/// The error of the `ipnetwork` crate.
#[verifier::external_type_specification]
#[verifier::external_body]
pub struct ExIpNetworkError(ipnetwork::IpNetworkError);

/// `ipnetwork::IpNetwork::new`: a network of just this address and this prefix, and
/// an error where the prefix is longer than the address.
#[verifier::external_body]
fn new_network(address: IpAddress, prefix: u8) -> (network: Result<
    IpNetwork,
    ipnetwork::IpNetworkError,
>)
    ensures
        network is Ok <==> prefix <= address.bits(),
        network matches Ok(network) ==> network == (IpNetwork { address, prefix }),
{
    let network = match address {
        IpAddress::V4(octets) => ipnetwork::IpNetwork::new(octets.into(), prefix)?,
        IpAddress::V6(octets) => ipnetwork::IpNetwork::new(octets.into(), prefix)?,
    };
    let address = match network {
        ipnetwork::IpNetwork::V4(v4) => IpAddress::V4(v4.ip().octets()),
        ipnetwork::IpNetwork::V6(v6) => IpAddress::V6(v6.ip().octets()),
    };
    Ok(IpNetwork { address, prefix: network.prefix() })
}

/// The network of an address and a prefix.
pub open spec fn network_of(address: Option<IpAddress>, prefix: u8) -> Result<IpNetwork, ()> {
    match address {
        Some(address) => if prefix <= address.bits() {
            Ok(IpNetwork { address, prefix })
        } else {
            Err(())
        },
        None => Err(()),
    }
}

/// Makes a network of the address that was read, if any, and a prefix.
pub fn ip_network(address: Option<IpAddress>, prefix: u8) -> (network: Result<IpNetwork, ()>)
    ensures
        network == network_of(address, prefix),
        network matches Ok(network) ==> network.wf(),
        network matches Ok(network) ==> address == Some(network.address) && network.prefix
            == prefix,
        network is Ok <==> {
            ||| address matches Some(IpAddress::V4(_)) && prefix <= 32
            ||| address matches Some(IpAddress::V6(_)) && prefix <= 128
        },
{
    match address {
        Some(address) => match new_network(address, prefix) {
            Ok(network) => Ok(network),
            Err(_) => Err(()),
        },
        None => Err(()),
    }
}

/// Reads the network of an interface from an address of it and a prefix.
pub fn parse_ip_network(address: &SocketAddress, prefix: u8) -> (network: Result<IpNetwork, ()>)
    requires
        address.wf(),
    ensures
        network == network_of(address.address(), prefix),
        network matches Ok(network) ==> network.wf(),
        address.reads_dotted_decimal(),
        !valid_utf8(address.text@) ==> network is Err,
        forall|text: Seq<char>|
            address.text@ == #[trigger] encode_utf8(text) ==> {
                &&& network matches Ok(network) ==> parsed_address(text) == Some(network.address)
                    && network.prefix == prefix
                &&& network is Ok <==> {
                    ||| parsed_address(text) matches Some(IpAddress::V4(_)) && prefix <= 32
                    ||| parsed_address(text) matches Some(IpAddress::V6(_)) && prefix <= 128
                }
            },
{
    proof {
        broadcast use {encode_utf8_valid_utf8, encode_utf8_decode_utf8};

    }
    match text::string_from_utf8(address.text.clone()) {
        Some(text) => ip_network(parse_address(text.as_str()), prefix),
        None => Err(()),
    }
}

/// A network keeps the address and the prefix that it was made of, and there is one
/// for every prefix of up to 32 bits of an IPv4 address, and of up to 128 bits of an
/// IPv6 address.
pub proof fn network_keeps_address_and_prefix(address: IpAddress, prefix: u8)
    ensures
        address is V4 && prefix <= 32 || address is V6 && prefix <= 128 ==> network_of(
            Some(address),
            prefix,
        ) == Ok::<IpNetwork, ()>(IpNetwork { address, prefix }),
        address is V4 && prefix > 32 || address is V6 && prefix > 128 ==> network_of(
            Some(address),
            prefix,
        ) is Err,
        network_of(None, prefix) is Err,
{
}

/// The prefix of a network counts bits of its address.
pub proof fn network_fits_its_address(network: IpNetwork)
    ensures
        network.wf() <==> network.prefix <= if network.address is V4 {
            32int
        } else {
            128int
        },
{
}

/// The two families of addresses are the operating system's numbers for IPv4 and
/// IPv6, and the text of an address of either may be anything.
pub proof fn both_families_are_read(address: SocketAddress)
    ensures
        address.wf() <==> address.family == 2 || address.family == 23,
{
}

/// An address is read from the text that its bytes encode, whatever this text is,
/// and not from bytes that encode no text.
pub proof fn address_is_read_from_the_text(address: SocketAddress, text: Seq<char>)
    ensures
        address.text@ == encode_utf8(text) ==> address.address() == parsed_address(text),
        !valid_utf8(address.text@) ==> address.address() is None,
{
    broadcast use {encode_utf8_valid_utf8, encode_utf8_decode_utf8};

}

/// The digits of a number spell it, most significant first and without leading
/// zeros. The digit zero is the character 48.
pub proof fn decimal_spells_the_number(n: u8)
    ensures
        1 <= decimal(n).len() <= 3,
        forall|i: int| 0 <= i < decimal(n).len() ==> '0' <= #[trigger] decimal(n)[i] <= '9',
        decimal(n).len() > 1 ==> decimal(n)[0] != '0',
        decimal(n).len() == 1 ==> n + 48 == decimal(n)[0] as int,
        decimal(n).len() == 2 ==> n + 528 == 10 * (decimal(n)[0] as int) + decimal(n)[1] as int,
        decimal(n).len() == 3 ==> n + 5328 == 100 * (decimal(n)[0] as int) + 10 * (
        decimal(n)[1] as int) + decimal(n)[2] as int,
{
}

} // verus!
