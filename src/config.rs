use vstd::prelude::*;

use crate::error::ReconcileError;
use crate::hex::{is_hex_word, parse_hex_word};

verus! {

/// The settings of one run: the block range, the number of events asked for in
/// one page, the endpoints and the contract addresses of the chosen network,
/// and the L2 sender to filter on (empty for none).
pub struct Config {
    pub from_block: u32,
    pub to_block: u32,
    pub page_size: u64,
    pub starknet_rpc_url: String,
    pub eth_rpc_url: String,
    pub l2_sender: String,
    pub starkway_l1: String,
    pub starkway_l2: String,
    pub starknet_core: String,
}

/// The endpoints and contract addresses of one network.
pub struct NetworkConfig {
    pub starknet_rpc_url: String,
    pub eth_rpc_url: String,
    pub starkway_l1: String,
    pub starkway_l2: String,
    pub starknet_core: String,
}

/// Checks a block range, both ends included: it is refused with
/// `Configuration` when it starts after it ends.
pub fn check_block_range(from_block: u32, to_block: u32) -> (r: Result<(), ReconcileError>)
    ensures
        r is Ok <==> from_block <= to_block,
        r matches Err(e) ==> e == ReconcileError::Configuration,
{
    if from_block <= to_block {
        Ok(())
    } else {
        Err(ReconcileError::Configuration)
    }
}

/// Takes the settings read for a network: the three contract addresses must be
/// hexadecimal words, else the settings are refused with `Configuration`.
pub fn load_config(
    starknet_rpc_url: String,
    eth_rpc_url: String,
    starkway_l1: String,
    starkway_l2: String,
    starknet_core: String,
) -> (r: Result<NetworkConfig, ReconcileError>)
    ensures
        r is Ok <==> is_hex_word(starkway_l1@) && is_hex_word(starkway_l2@) && is_hex_word(
            starknet_core@,
        ),
        r matches Err(e) ==> e == ReconcileError::Configuration,
        r matches Ok(c) ==> {
            &&& c.starknet_rpc_url == starknet_rpc_url
            &&& c.eth_rpc_url == eth_rpc_url
            &&& c.starkway_l1 == starkway_l1
            &&& c.starkway_l2 == starkway_l2
            &&& c.starknet_core == starknet_core
        },
{
    if parse_hex_word(starkway_l1.as_str()).is_err() || parse_hex_word(
        starkway_l2.as_str(),
    ).is_err() || parse_hex_word(starknet_core.as_str()).is_err() {
        return Err(ReconcileError::Configuration);
    }
    Ok(NetworkConfig { starknet_rpc_url, eth_rpc_url, starkway_l1, starkway_l2, starknet_core })
}

} // verus!
