//! The sizes of the buffers of a channel.
use vstd::prelude::*;

verus! {

/// The part of a channel's general configuration that the WinPcap driver takes
/// into account.
#[derive(Clone, Copy, Debug, PartialEq, Eq, Hash, Structural)]
pub struct DatalinkConfig {
    /// The size of buffer to use when writing packets.
    pub write_buffer_size: usize,
    /// The size of buffer to use when reading packets.
    pub read_buffer_size: usize,
}

/// The WinPcap's specific configuration.
#[derive(Clone, Copy, Debug, PartialEq, Eq, Hash, Structural)]
pub struct Config {
    /// The size of buffer to use when writing packets. Defaults to 4096.
    pub write_buffer_size: usize,
    /// The size of buffer to use when reading packets. Defaults to 4096.
    pub read_buffer_size: usize,
}

impl<'a> From<&'a DatalinkConfig> for Config {
    fn from(config: &'a DatalinkConfig) -> (result: Config) {
        Config {
            write_buffer_size: config.write_buffer_size,
            read_buffer_size: config.read_buffer_size,
        }
    }
}

impl<'a> vstd::std_specs::convert::FromSpecImpl<&'a DatalinkConfig> for Config {
    open spec fn obeys_from_spec() -> bool {
        true
    }

    open spec fn from_spec(config: &'a DatalinkConfig) -> Config {
        Config {
            write_buffer_size: config.write_buffer_size,
            read_buffer_size: config.read_buffer_size,
        }
    }
}

impl Default for Config {
    fn default() -> (config: Config)
        ensures
            config.write_buffer_size == 4096,
            config.read_buffer_size == 4096,
    {
        Config { write_buffer_size: 4096, read_buffer_size: 4096 }
    }
}

/// The general configuration's sizes are taken over as they are, each for its own
/// buffer.
pub proof fn general_sizes_are_kept(general: &DatalinkConfig)
    ensures
        <Config as vstd::std_specs::convert::FromSpec<&DatalinkConfig>>::obeys_from_spec(),
        <Config as vstd::std_specs::convert::FromSpec<&DatalinkConfig>>::from_spec(
            general,
        ).write_buffer_size == general.write_buffer_size,
        <Config as vstd::std_specs::convert::FromSpec<&DatalinkConfig>>::from_spec(
            general,
        ).read_buffer_size == general.read_buffer_size,
{
}

} // verus!
