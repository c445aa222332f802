//! The settings of a validator, and what it switches on by them.

use vstd::prelude::*;
use vstd::string::*;

use crate::dispatch::{capped, capped_product, NeuronInfo};
use crate::text::{decimal, decimal_text, str_eq};
use crate::types::copy_text;

verus! {

/// What can be set on the command line.
#[derive(Debug)]
pub struct Cli {
    pub netuid: u16,
    pub network: String,
    pub subtensor_chain_endpoint: Option<String>,
    pub wallet_name: String,
    pub wallet_hotkey: String,
    pub wallet_path: Option<String>,
    pub log_level: String,
    pub api_miners_pct: u32,
    pub disable_benchmark: bool,
    pub relay_url: Option<String>,
    pub no_relay: bool,
    pub metrics_port: u16,
    pub no_auto_update: bool,
    pub proof_api_url: Option<String>,
    pub target_uid: Vec<u16>,
    pub circuit_api_url: Option<String>,
    pub circuit_cache_dir: Option<String>,
    pub verification_concurrency: Option<usize>,
    pub dispatch_ceiling: Option<usize>,
    pub disable_metric_logging: bool,
    pub loopback: bool,
    pub miner_address: String,
    pub additional_circuits: Vec<String>,
    pub external_ip: Option<String>,
    pub axon_port: u16,
    pub disable_axon_publish: bool,
}

/// The settings that a validator runs with.
#[derive(Debug)]
pub struct ValidatorConfig {
    pub netuid: u16,
    pub chain_endpoint: String,
    pub user_uid: u16,
    pub relay_enabled: bool,
    pub relay_url: String,
    pub relay_url_override: bool,
    pub api_miners_pct: u32,
    pub disable_benchmark: bool,
    pub metrics_port: u16,
    pub proof_api_url: Option<String>,
    pub target_uids: Option<Vec<u16>>,
    pub circuit_api_url: Option<String>,
    pub circuit_cache_dir: Option<String>,
    pub verification_concurrency: Option<usize>,
    pub dispatch_ceiling: Option<usize>,
    pub disable_metric_logging: bool,
    pub loopback: bool,
    pub additional_circuits: Vec<String>,
    pub external_ip: Option<String>,
    pub axon_port: u16,
    pub disable_axon_publish: bool,
}

/// The validator is not registered on its subnet.
#[derive(Clone, Copy, Debug, PartialEq, Eq, Structural)]
pub struct NotRegistered;

/// What who is not registered is told.
pub open spec fn registration_hint(hotkey: Seq<char>, netuid: u16, network: Seq<char>) -> Seq<char> {
    "hotkey "@ + hotkey + " is not registered on subnet "@ + decimal_text(netuid as nat)
        + ". Register with: btcli subnets register --netuid "@ + decimal_text(netuid as nat)
        + " --network "@ + network
}

/// Tells who is not registered how to be.
pub fn not_registered_text(hotkey: &str, netuid: u16, network: &str) -> (r: String)
    ensures
        r@ == registration_hint(hotkey@, netuid, network@),
{
    let n = decimal(netuid as u64);
    "hotkey ".to_owned().concat(hotkey).concat(" is not registered on subnet ").concat(
        n.as_str(),
    ).concat(". Register with: btcli subnets register --netuid ").concat(n.as_str()).concat(
        " --network ",
    ).concat(network)
}

/// The texts of a list, copied.
fn copy_texts(v: &Vec<String>) -> (r: Vec<String>)
    ensures
        r@ == v@,
{
    let mut r: Vec<String> = Vec::new();
    let mut i: usize = 0;
    while i < v.len()
        invariant
            i <= v@.len(),
            r@ == v@.take(i as int),
        decreases v@.len() - i,
    {
        r.push(v[i].clone());
        proof {
            assert(r@ =~= v@.take(i + 1));
        }
        i += 1;
    }
    proof {
        assert(v@.take(i as int) =~= v@);
    }
    r
}

/// What a command line sets, whatever mode the validator runs in.
pub open spec fn set_by(c: ValidatorConfig, cli: Cli) -> bool {
    &&& c.netuid == cli.netuid
    &&& c.disable_benchmark == cli.disable_benchmark
    &&& c.metrics_port == cli.metrics_port
    &&& c.circuit_api_url == cli.circuit_api_url
    &&& c.circuit_cache_dir == cli.circuit_cache_dir
    &&& c.verification_concurrency == cli.verification_concurrency
    &&& c.dispatch_ceiling == cli.dispatch_ceiling
    &&& c.additional_circuits@ == cli.additional_circuits@
    &&& c.external_ip == cli.external_ip
    &&& c.axon_port == cli.axon_port
    &&& c.disable_axon_publish == cli.disable_axon_publish
}

impl ValidatorConfig {
    /// The settings on a chain. `endpoint` is where the chain is reached, and
    /// `user_uid` where the validator is registered, if it is.
    pub fn from_cli(
        cli: &Cli,
        endpoint: String,
        user_uid: Option<u16>,
        default_relay_url: &str,
    ) -> (r: Result<ValidatorConfig, NotRegistered>)
        ensures
            r is Ok == user_uid is Some,
            r matches Ok(c) ==> {
                &&& set_by(c, *cli)
                &&& c.chain_endpoint == endpoint
                &&& Some(c.user_uid) == user_uid
                &&& c.relay_enabled == !cli.no_relay
                &&& c.relay_url@ == (match cli.relay_url {
                    Some(u) => u@,
                    None => default_relay_url@,
                })
                &&& c.relay_url_override == cli.relay_url is Some
                &&& c.api_miners_pct == cli.api_miners_pct
                &&& c.proof_api_url == cli.proof_api_url
                &&& c.target_uids is None == (cli.target_uid@.len() == 0)
                &&& c.target_uids matches Some(t) ==> t@ == cli.target_uid@
                &&& c.disable_metric_logging == cli.disable_metric_logging
                &&& !c.loopback
            },
    {
        let user_uid = match user_uid {
            Some(u) => u,
            None => {
                return Err(NotRegistered);
            },
        };
        let relay_url = match &cli.relay_url {
            Some(u) => u.clone(),
            None => default_relay_url.to_owned(),
        };
        let target_uids = if cli.target_uid.len() == 0 {
            None
        } else {
            Some(cli.target_uid.clone())
        };
        Ok(
            ValidatorConfig {
                netuid: cli.netuid,
                chain_endpoint: endpoint,
                user_uid,
                relay_enabled: !cli.no_relay,
                relay_url,
                relay_url_override: cli.relay_url.is_some(),
                api_miners_pct: cli.api_miners_pct,
                disable_benchmark: cli.disable_benchmark,
                metrics_port: cli.metrics_port,
                proof_api_url: copy_text(&cli.proof_api_url),
                target_uids,
                circuit_api_url: copy_text(&cli.circuit_api_url),
                circuit_cache_dir: copy_text(&cli.circuit_cache_dir),
                verification_concurrency: cli.verification_concurrency,
                dispatch_ceiling: cli.dispatch_ceiling,
                disable_metric_logging: cli.disable_metric_logging,
                loopback: false,
                additional_circuits: copy_texts(&cli.additional_circuits),
                external_ip: copy_text(&cli.external_ip),
                axon_port: cli.axon_port,
                disable_axon_publish: cli.disable_axon_publish,
            },
        )
    }

    /// The settings without a chain: a single miner at a given address, under the
    /// validator's own hotkey, and nothing is reported. The network that the
    /// validator then sees is handed back too.
    pub fn from_cli_loopback(cli: &Cli, hotkey: &str, miner_ip: &str, miner_port: u16) -> (r: (
        ValidatorConfig,
        NeuronInfo,
    ))
        ensures
            set_by(r.0, *cli),
            r.0.chain_endpoint@.len() == 0,
            r.0.user_uid == 1,
            !r.0.relay_enabled,
            r.0.relay_url@.len() == 0,
            !r.0.relay_url_override,
            r.0.api_miners_pct == 0,
            r.0.proof_api_url is None,
            r.0.target_uids matches Some(t) && t@ == seq![0u16],
            r.0.disable_metric_logging,
            r.0.loopback,
            r.1.uid == 0,
            r.1.hotkey@ == hotkey@,
            r.1.axon_ip@ == miner_ip@,
            r.1.axon_port == miner_port,
            !r.1.validator_permit,
    {
        let mut targets: Vec<u16> = Vec::new();
        targets.push(0);
        proof {
            assert(targets@ =~= seq![0u16]);
        }
        let config = ValidatorConfig {
            netuid: cli.netuid,
            chain_endpoint: String::new(),
            user_uid: 1,
            relay_enabled: false,
            relay_url: String::new(),
            relay_url_override: false,
            api_miners_pct: 0,
            disable_benchmark: cli.disable_benchmark,
            metrics_port: cli.metrics_port,
            proof_api_url: None,
            target_uids: Some(targets),
            circuit_api_url: copy_text(&cli.circuit_api_url),
            circuit_cache_dir: copy_text(&cli.circuit_cache_dir),
            verification_concurrency: cli.verification_concurrency,
            dispatch_ceiling: cli.dispatch_ceiling,
            disable_metric_logging: true,
            loopback: true,
            additional_circuits: copy_texts(&cli.additional_circuits),
            external_ip: copy_text(&cli.external_ip),
            axon_port: cli.axon_port,
            disable_axon_publish: cli.disable_axon_publish,
        };
        let neuron = NeuronInfo {
            uid: 0,
            hotkey: hotkey.to_owned(),
            axon_ip: miner_ip.to_owned(),
            axon_port: miner_port,
            validator_permit: false,
        };
        (config, neuron)
    }
}

/// What a validator reports to and takes requests from.
#[derive(Clone, Copy, Debug, PartialEq, Eq, Structural)]
pub struct Services {
    pub relay: bool,
    pub uploader: bool,
    pub stats: bool,
}

/// What a validator switches on. Customers and statistics are for validators on
/// the main network; a build that is no release only talks to services that were
/// named to it.
pub fn services(config: &ValidatorConfig, main_netuid: u16, permit: bool, release: bool) -> (r:
    Services)
    ensures
        ({
            let main = config.netuid == main_netuid && permit;
            let api = release || config.proof_api_url is Some;
            r == if config.loopback {
                Services { relay: false, uploader: false, stats: false }
            } else {
                Services {
                    relay: (release || config.relay_url_override) && main,
                    uploader: api,
                    stats: api && !config.disable_metric_logging && main,
                }
            }
        }),
{
    if config.loopback {
        return Services { relay: false, uploader: false, stats: false };
    }
    let main = config.netuid == main_netuid && permit;
    let api = release || config.proof_api_url.is_some();
    Services {
        relay: (release || config.relay_url_override) && main,
        uploader: api,
        stats: api && !config.disable_metric_logging && main,
    }
}

/// How many answers are checked at once: as many as was set, else two for each
/// core. Where the cores cannot be counted, eight are taken to be there.
pub fn verification_concurrency(set: Option<usize>, cores: Option<usize>) -> (r: usize)
    ensures
        r == (match set {
            Some(n) => n,
            None => capped(
                match cores {
                    Some(c) => c * 2,
                    None => 16,
                },
            ),
        }),
{
    match set {
        Some(n) => n,
        None => {
            let c: usize = match cores {
                Some(c) => c,
                None => 8,
            };
            capped_product(c, 2)
        },
    }
}

/// Whether circuits are only looked for on this host.
pub fn circuit_store_loopback(config: &ValidatorConfig) -> (r: bool)
    ensures
        r == (config.loopback && config.circuit_api_url is None),
{
    config.loopback && config.circuit_api_url.is_none()
}

/// Whether the validator looks for newer versions of itself.
pub fn auto_update(cli: &Cli, channel: Option<&str>) -> (r: bool)
    ensures
        r == (!cli.no_auto_update && (channel matches Some(c) && c@ == "mainnet"@)),
{
    if cli.no_auto_update {
        return false;
    }
    match channel {
        Some(c) => str_eq(c, "mainnet"),
        None => false,
    }
}

} // verus!
