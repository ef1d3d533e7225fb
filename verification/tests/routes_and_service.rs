//! The range query's defaults and emptiness rule, and the supervisor's plan.

use webb_relayer::routes::{default_u32_max, default_zero, leaves_in_range, OptionalRangeQuery};
use webb_relayer::service::{
    chain_id_value, plan_services, CommonContractConfig, ContractConfig, EventsWatcherConfig,
    EvmChainConfig, PalletConfig, RelayerConfig, ServiceTask, SubstrateNodeConfig,
    SubstrateRuntime,
};
use webb_relayer::store::{ResourceId, Store, TypedChainId};

#[test]
fn range_defaults_cover_everything() {
    assert_eq!(default_zero(), Some(0));
    assert_eq!(default_u32_max(), Some(u32::MAX));
    let q = OptionalRangeQuery::default();
    assert_eq!(q.start, Some(0));
    assert_eq!(q.end, Some(u32::MAX));
    let r: core::ops::Range<u32> = q.into();
    assert_eq!(r.start, 0);
    assert_eq!(r.end, u32::MAX);
    let half = OptionalRangeQuery { start: None, end: Some(9) };
    let r2: core::ops::Range<u32> = half.into();
    assert_eq!(r2.start, 0);
    assert_eq!(r2.end, 9);
}

#[test]
fn range_with_start_at_or_past_end_is_empty() {
    let mut store = Store::new();
    let rid = ResourceId::new(vec![1u8; 20], TypedChainId::Evm(1));
    store.insert_leaves_and_last_deposit_block_number(&rid, 0, &vec![3u8; 32], 1);
    store.insert_leaves_and_last_deposit_block_number(&rid, 1, &vec![4u8; 32], 2);

    let equal = OptionalRangeQuery { start: Some(1), end: Some(1) };
    assert!(leaves_in_range(&store, &rid, equal).is_empty());
    let inverted = OptionalRangeQuery { start: Some(5), end: Some(2) };
    assert!(leaves_in_range(&store, &rid, inverted).is_empty());
    // A proper window returns the leaves in index order.
    let window = OptionalRangeQuery { start: Some(0), end: Some(2) };
    assert_eq!(leaves_in_range(&store, &rid, window), vec![vec![3u8; 32], vec![4u8; 32]]);
    // A window past the stored prefix is clipped.
    let past = OptionalRangeQuery { start: Some(1), end: Some(100) };
    assert_eq!(leaves_in_range(&store, &rid, past), vec![vec![4u8; 32]]);
}

fn watcher_cfg(enabled: bool) -> EventsWatcherConfig {
    EventsWatcherConfig { enabled, polling_interval_ms: 1000 }
}

fn common(addr_fill: u8, enabled: bool) -> CommonContractConfig {
    CommonContractConfig {
        address: vec![addr_fill; 20],
        deployed_at: 0,
        events_watcher: watcher_cfg(enabled),
    }
}

#[test]
fn plan_spawns_watchers_then_queue_per_enabled_chain() {
    let cfg = RelayerConfig {
        evm: vec![
            EvmChainConfig {
                enabled: true,
                chain_id: 1,
                contracts: vec![
                    ContractConfig::Tornado(common(0x11, true)),
                    ContractConfig::AnchorOverDKG(common(0x22, false)),
                    ContractConfig::GovernanceBravoDelegate(common(0x33, true)),
                    ContractConfig::AnchorOverDKG(common(0x44, true)),
                ],
            },
            EvmChainConfig {
                enabled: false,
                chain_id: 2,
                contracts: vec![ContractConfig::Tornado(common(0x55, true))],
            },
        ],
        substrate: vec![
            SubstrateNodeConfig {
                enabled: true,
                chain_id: 9,
                runtime: SubstrateRuntime::Dkg,
                pallets: vec![
                    PalletConfig::DKGProposalHandler(watcher_cfg(true)),
                    PalletConfig::DKGProposals(watcher_cfg(true)),
                ],
            },
            SubstrateNodeConfig {
                enabled: true,
                chain_id: 10,
                runtime: SubstrateRuntime::WebbProtocol,
                pallets: vec![PalletConfig::DKGProposalHandler(watcher_cfg(true))],
            },
        ],
    };
    let plan = plan_services(&cfg);
    assert_eq!(plan.len(), 4);
    match &plan[0] {
        ServiceTask::TornadoWatcher { chain_id, address } => {
            assert_eq!(*chain_id, 1);
            assert_eq!(*address, vec![0x11u8; 20]);
        },
        _ => panic!("the watched tornado contract comes first"),
    }
    match &plan[1] {
        ServiceTask::AnchorOverDkgWatcher { chain_id, address } => {
            assert_eq!(*chain_id, 1);
            assert_eq!(*address, vec![0x44u8; 20]);
        },
        _ => panic!("the watched anchor contract comes second"),
    }
    assert!(matches!(&plan[2], ServiceTask::TxQueue { chain_id: 1 }));
    assert!(matches!(&plan[3], ServiceTask::DkgProposalHandler { chain_id: 9 }));
}

#[test]
fn disabled_everything_plans_nothing() {
    let cfg = RelayerConfig {
        evm: vec![EvmChainConfig {
            enabled: false,
            chain_id: 1,
            contracts: vec![ContractConfig::Tornado(common(0x11, true))],
        }],
        substrate: vec![SubstrateNodeConfig {
            enabled: false,
            chain_id: 9,
            runtime: SubstrateRuntime::Dkg,
            pallets: vec![PalletConfig::DKGProposalHandler(watcher_cfg(true))],
        }],
    };
    assert!(plan_services(&cfg).is_empty());
}

#[test]
fn chain_id_value_reads_every_variant() {
    assert_eq!(chain_id_value(TypedChainId::Unset), 0);
    assert_eq!(chain_id_value(TypedChainId::Evm(4)), 4);
    assert_eq!(chain_id_value(TypedChainId::Substrate(5)), 5);
    assert_eq!(chain_id_value(TypedChainId::PolkadotParachain(6)), 6);
    assert_eq!(chain_id_value(TypedChainId::KusamaParachain(7)), 7);
    assert_eq!(chain_id_value(TypedChainId::RococoParachain(8)), 8);
    assert_eq!(chain_id_value(TypedChainId::Cosmos(9)), 9);
    assert_eq!(chain_id_value(TypedChainId::Solana(10)), 10);
}
