//! Supervisor planning: which watcher and queue tasks to start for a given
//! configuration. Disabled chains and disabled watchers get nothing; every
//! enabled EVM chain gets one task per watched contract and one transaction
//! queue, after the contract watchers; every enabled substrate node on the
//! DKG runtime gets one task per watched proposal-handler pallet. Spawning,
//! networking and the shutdown broadcast live with the runtime around the
//! library; the decisions live here.

use vstd::prelude::*;
use crate::bytes::clone_bytes;
use crate::store::TypedChainId;

verus! {

/// Watcher settings shared by contracts and pallets.
#[derive(PartialEq, Eq, Structural, Clone, Copy, Debug)]
pub struct EventsWatcherConfig {
    pub enabled: bool,
    pub polling_interval_ms: u64,
}

/// What every contract configuration carries.
pub struct CommonContractConfig {
    pub address: Vec<u8>,
    pub deployed_at: u64,
    pub events_watcher: EventsWatcherConfig,
}

/// The contract variants a chain may list.
pub enum ContractConfig {
    Tornado(CommonContractConfig),
    AnchorOverDKG(CommonContractConfig),
    GovernanceBravoDelegate(CommonContractConfig),
}

pub struct EvmChainConfig {
    pub enabled: bool,
    pub chain_id: u32,
    pub contracts: Vec<ContractConfig>,
}

#[derive(PartialEq, Eq, Structural, Clone, Copy, Debug)]
pub enum SubstrateRuntime {
    Dkg,
    WebbProtocol,
}

/// The pallet variants a substrate node may list.
pub enum PalletConfig {
    DKGProposalHandler(EventsWatcherConfig),
    DKGProposals(EventsWatcherConfig),
}

pub struct SubstrateNodeConfig {
    pub enabled: bool,
    pub chain_id: u32,
    pub runtime: SubstrateRuntime,
    pub pallets: Vec<PalletConfig>,
}

/// Everything the supervisor reads.
pub struct RelayerConfig {
    pub evm: Vec<EvmChainConfig>,
    pub substrate: Vec<SubstrateNodeConfig>,
}

/// One background task the supervisor should spawn.
pub enum ServiceTask {
    TornadoWatcher { chain_id: u32, address: Vec<u8> },
    AnchorOverDkgWatcher { chain_id: u32, address: Vec<u8> },
    TxQueue { chain_id: u32 },
    DkgProposalHandler { chain_id: u32 },
}

/// A task as a specification value: addresses as byte sequences.
#[verifier::ext_equal]
pub enum TaskView {
    TornadoWatcher { chain_id: u32, address: Seq<u8> },
    AnchorOverDkgWatcher { chain_id: u32, address: Seq<u8> },
    TxQueue { chain_id: u32 },
    DkgProposalHandler { chain_id: u32 },
}

/// The specification value a task stands for.
pub open spec fn task_view(t: ServiceTask) -> TaskView {
    match t {
        ServiceTask::TornadoWatcher { chain_id, address } => TaskView::TornadoWatcher {
            chain_id,
            address: address@,
        },
        ServiceTask::AnchorOverDkgWatcher { chain_id, address } => TaskView::AnchorOverDkgWatcher {
            chain_id,
            address: address@,
        },
        ServiceTask::TxQueue { chain_id } => TaskView::TxQueue { chain_id },
        ServiceTask::DkgProposalHandler { chain_id } => TaskView::DkgProposalHandler { chain_id },
    }
}

/// The specification values of a task list.
pub open spec fn tasks_views(ts: Seq<ServiceTask>) -> Seq<TaskView> {
    ts.map_values(|t: ServiceTask| task_view(t))
}

/// The tasks one contract entry asks for: its watcher where enabled; a
/// governance delegate gets no watcher.
pub open spec fn contract_tasks(chain_id: u32, c: ContractConfig) -> Seq<TaskView> {
    match c {
        ContractConfig::Tornado(cfg) => if cfg.events_watcher.enabled {
            seq![TaskView::TornadoWatcher { chain_id, address: cfg.address@ }]
        } else {
            Seq::<TaskView>::empty()
        },
        ContractConfig::AnchorOverDKG(cfg) => if cfg.events_watcher.enabled {
            seq![TaskView::AnchorOverDkgWatcher { chain_id, address: cfg.address@ }]
        } else {
            Seq::<TaskView>::empty()
        },
        ContractConfig::GovernanceBravoDelegate(_) => Seq::<TaskView>::empty(),
    }
}

pub open spec fn contracts_tasks(chain_id: u32, cs: Seq<ContractConfig>) -> Seq<TaskView>
    decreases cs.len(),
{
    if cs.len() == 0 {
        Seq::<TaskView>::empty()
    } else {
        contract_tasks(chain_id, cs[0]) + contracts_tasks(chain_id, cs.drop_first())
    }
}

/// The tasks one chain asks for: its contract watchers, then its queue.
pub open spec fn chain_tasks(c: EvmChainConfig) -> Seq<TaskView> {
    if !c.enabled {
        Seq::<TaskView>::empty()
    } else {
        contracts_tasks(c.chain_id, c.contracts@) + seq![
            TaskView::TxQueue { chain_id: c.chain_id },
        ]
    }
}

pub open spec fn evm_tasks(chains: Seq<EvmChainConfig>) -> Seq<TaskView>
    decreases chains.len(),
{
    if chains.len() == 0 {
        Seq::<TaskView>::empty()
    } else {
        chain_tasks(chains[0]) + evm_tasks(chains.drop_first())
    }
}

pub open spec fn pallet_tasks(chain_id: u32, p: PalletConfig) -> Seq<TaskView> {
    match p {
        PalletConfig::DKGProposalHandler(w) => if w.enabled {
            seq![TaskView::DkgProposalHandler { chain_id }]
        } else {
            Seq::<TaskView>::empty()
        },
        PalletConfig::DKGProposals(_) => Seq::<TaskView>::empty(),
    }
}

pub open spec fn pallets_tasks(chain_id: u32, ps: Seq<PalletConfig>) -> Seq<TaskView>
    decreases ps.len(),
{
    if ps.len() == 0 {
        Seq::<TaskView>::empty()
    } else {
        pallet_tasks(chain_id, ps[0]) + pallets_tasks(chain_id, ps.drop_first())
    }
}

pub open spec fn node_tasks(n: SubstrateNodeConfig) -> Seq<TaskView> {
    if !n.enabled {
        Seq::<TaskView>::empty()
    } else {
        match n.runtime {
            SubstrateRuntime::Dkg => pallets_tasks(n.chain_id, n.pallets@),
            SubstrateRuntime::WebbProtocol => Seq::<TaskView>::empty(),
        }
    }
}

pub open spec fn substrate_tasks(ns: Seq<SubstrateNodeConfig>) -> Seq<TaskView>
    decreases ns.len(),
{
    if ns.len() == 0 {
        Seq::<TaskView>::empty()
    } else {
        node_tasks(ns[0]) + substrate_tasks(ns.drop_first())
    }
}

/// The full plan: every EVM chain's tasks in configuration order, then every
/// substrate node's.
pub open spec fn plan_spec(cfg: RelayerConfig) -> Seq<TaskView> {
    evm_tasks(cfg.evm@) + substrate_tasks(cfg.substrate@)
}

/// Mapping to views commutes with appending one task.
proof fn lemma_views_push(s: Seq<ServiceTask>, t: ServiceTask)
    ensures
        tasks_views(s.push(t)) == tasks_views(s).push(task_view(t)),
{
    assert(tasks_views(s.push(t)) =~~= tasks_views(s).push(task_view(t)));
}

proof fn lemma_contracts_tasks_push(chain_id: u32, cs: Seq<ContractConfig>, x: ContractConfig)
    ensures
        contracts_tasks(chain_id, cs.push(x)) == contracts_tasks(chain_id, cs) + contract_tasks(
            chain_id,
            x,
        ),
    decreases cs.len(),
{
    let grown = cs.push(x);
    if cs.len() == 0 {
        assert(grown.len() == 1);
        assert(grown[0] == x);
        assert(grown.drop_first() =~= Seq::<ContractConfig>::empty());
        assert(contracts_tasks(chain_id, grown.drop_first()) == Seq::<TaskView>::empty());
        assert(contracts_tasks(chain_id, grown) =~= contracts_tasks(chain_id, cs)
            + contract_tasks(chain_id, x));
    } else {
        lemma_contracts_tasks_push(chain_id, cs.drop_first(), x);
        assert(grown.drop_first() =~= cs.drop_first().push(x));
        assert(grown[0] == cs[0]);
        assert(contracts_tasks(chain_id, grown) =~= contracts_tasks(chain_id, cs)
            + contract_tasks(chain_id, x));
    }
}

proof fn lemma_evm_tasks_push(chains: Seq<EvmChainConfig>, x: EvmChainConfig)
    ensures
        evm_tasks(chains.push(x)) == evm_tasks(chains) + chain_tasks(x),
    decreases chains.len(),
{
    let grown = chains.push(x);
    if chains.len() == 0 {
        assert(grown.len() == 1);
        assert(grown[0] == x);
        assert(grown.drop_first() =~= Seq::<EvmChainConfig>::empty());
        assert(evm_tasks(grown.drop_first()) == Seq::<TaskView>::empty());
        assert(evm_tasks(grown) =~= evm_tasks(chains) + chain_tasks(x));
    } else {
        lemma_evm_tasks_push(chains.drop_first(), x);
        assert(grown.drop_first() =~= chains.drop_first().push(x));
        assert(grown[0] == chains[0]);
        assert(evm_tasks(grown) =~= evm_tasks(chains) + chain_tasks(x));
    }
}

proof fn lemma_pallets_tasks_push(chain_id: u32, ps: Seq<PalletConfig>, x: PalletConfig)
    ensures
        pallets_tasks(chain_id, ps.push(x)) == pallets_tasks(chain_id, ps) + pallet_tasks(
            chain_id,
            x,
        ),
    decreases ps.len(),
{
    let grown = ps.push(x);
    if ps.len() == 0 {
        assert(grown.len() == 1);
        assert(grown[0] == x);
        assert(grown.drop_first() =~= Seq::<PalletConfig>::empty());
        assert(pallets_tasks(chain_id, grown.drop_first()) == Seq::<TaskView>::empty());
        assert(pallets_tasks(chain_id, grown) =~= pallets_tasks(chain_id, ps) + pallet_tasks(
            chain_id,
            x,
        ));
    } else {
        lemma_pallets_tasks_push(chain_id, ps.drop_first(), x);
        assert(grown.drop_first() =~= ps.drop_first().push(x));
        assert(grown[0] == ps[0]);
        assert(pallets_tasks(chain_id, grown) =~= pallets_tasks(chain_id, ps) + pallet_tasks(
            chain_id,
            x,
        ));
    }
}

proof fn lemma_substrate_tasks_push(ns: Seq<SubstrateNodeConfig>, x: SubstrateNodeConfig)
    ensures
        substrate_tasks(ns.push(x)) == substrate_tasks(ns) + node_tasks(x),
    decreases ns.len(),
{
    let grown = ns.push(x);
    if ns.len() == 0 {
        assert(grown.len() == 1);
        assert(grown[0] == x);
        assert(grown.drop_first() =~= Seq::<SubstrateNodeConfig>::empty());
        assert(substrate_tasks(grown.drop_first()) == Seq::<TaskView>::empty());
        assert(substrate_tasks(grown) =~= substrate_tasks(ns) + node_tasks(x));
    } else {
        lemma_substrate_tasks_push(ns.drop_first(), x);
        assert(grown.drop_first() =~= ns.drop_first().push(x));
        assert(grown[0] == ns[0]);
        assert(substrate_tasks(grown) =~= substrate_tasks(ns) + node_tasks(x));
    }
}

/// The numeric value of a typed chain identifier, as the DKG runtime reports
/// it.
pub fn chain_id_value(c: TypedChainId) -> (r: u32)
    ensures
        r == (match c {
            TypedChainId::Unset => 0u32,
            TypedChainId::Evm(id) => id,
            TypedChainId::Substrate(id) => id,
            TypedChainId::PolkadotParachain(id) => id,
            TypedChainId::KusamaParachain(id) => id,
            TypedChainId::RococoParachain(id) => id,
            TypedChainId::Cosmos(id) => id,
            TypedChainId::Solana(id) => id,
        }),
{
    match c {
        TypedChainId::Unset => 0,
        TypedChainId::Evm(id) => id,
        TypedChainId::Substrate(id) => id,
        TypedChainId::PolkadotParachain(id) => id,
        TypedChainId::KusamaParachain(id) => id,
        TypedChainId::RococoParachain(id) => id,
        TypedChainId::Cosmos(id) => id,
        TypedChainId::Solana(id) => id,
    }
}

/// Every task the configuration asks for, in order: per enabled chain, the
/// watchers of its watch-enabled contracts and then its transaction queue;
/// per enabled DKG node, its watch-enabled proposal-handler pallets.
pub fn plan_services(cfg: &RelayerConfig) -> (r: Vec<ServiceTask>)
    ensures
        tasks_views(r@) == plan_spec(*cfg),
{
    let mut out: Vec<ServiceTask> = Vec::new();
    let mut i: usize = 0;
    while i < cfg.evm.len()
        invariant
            i <= cfg.evm@.len(),
            tasks_views(out@) == evm_tasks(cfg.evm@.take(i as int)),
        decreases cfg.evm@.len() - i,
    {
        let chain = &cfg.evm[i];
        if chain.enabled {
            let mut j: usize = 0;
            while j < chain.contracts.len()
                invariant
                    i < cfg.evm@.len(),
                    j <= chain.contracts@.len(),
                    chain == cfg.evm@[i as int],
                    chain.enabled,
                    tasks_views(out@) == evm_tasks(cfg.evm@.take(i as int)) + contracts_tasks(
                        chain.chain_id,
                        chain.contracts@.take(j as int),
                    ),
                decreases chain.contracts@.len() - j,
            {
                let c = &chain.contracts[j];
                match c {
                    ContractConfig::Tornado(common) => {
                        if common.events_watcher.enabled {
                            let t = ServiceTask::TornadoWatcher {
                                chain_id: chain.chain_id,
                                address: clone_bytes(&common.address),
                            };
                            proof {
                                lemma_views_push(out@, t);
                            }
                            out.push(t);
                        }
                    },
                    ContractConfig::AnchorOverDKG(common) => {
                        if common.events_watcher.enabled {
                            let t = ServiceTask::AnchorOverDkgWatcher {
                                chain_id: chain.chain_id,
                                address: clone_bytes(&common.address),
                            };
                            proof {
                                lemma_views_push(out@, t);
                            }
                            out.push(t);
                        }
                    },
                    ContractConfig::GovernanceBravoDelegate(_) => {},
                }
                proof {
                    lemma_contracts_tasks_push(
                        chain.chain_id,
                        chain.contracts@.take(j as int),
                        chain.contracts@[j as int],
                    );
                    assert(chain.contracts@.take(j + 1) =~= chain.contracts@.take(j as int).push(
                        chain.contracts@[j as int],
                    ));
                    assert(tasks_views(out@).len() == out@.len());
                    assert forall|k2: int| 0 <= k2 < out@.len() implies #[trigger] tasks_views(
                        out@,
                    )[k2] == task_view(out@[k2]) by {}
                    assert(tasks_views(out@) =~~= evm_tasks(cfg.evm@.take(i as int))
                        + contracts_tasks(chain.chain_id, chain.contracts@.take(j + 1)));
                }
                j = j + 1;
            }
            let tq = ServiceTask::TxQueue { chain_id: chain.chain_id };
            proof {
                lemma_views_push(out@, tq);
            }
            out.push(tq);
            proof {
                assert(chain.contracts@.take(chain.contracts@.len() as int)
                    =~= chain.contracts@);
            }
        }
        proof {
            lemma_evm_tasks_push(cfg.evm@.take(i as int), cfg.evm@[i as int]);
            assert(cfg.evm@.take(i + 1) =~= cfg.evm@.take(i as int).push(cfg.evm@[i as int]));
            assert(tasks_views(out@).len() == out@.len());
            assert forall|k2: int| 0 <= k2 < out@.len() implies #[trigger] tasks_views(
                out@,
            )[k2] == task_view(out@[k2]) by {}
            assert(tasks_views(out@) =~~= evm_tasks(cfg.evm@.take(i + 1)));
        }
        i = i + 1;
    }
    proof {
        assert(cfg.evm@.take(cfg.evm@.len() as int) =~= cfg.evm@);
    }
    let mut k: usize = 0;
    while k < cfg.substrate.len()
        invariant
            k <= cfg.substrate@.len(),
            tasks_views(out@) == evm_tasks(cfg.evm@) + substrate_tasks(cfg.substrate@.take(k as int)),
        decreases cfg.substrate@.len() - k,
    {
        let node = &cfg.substrate[k];
        if node.enabled && matches!(node.runtime, SubstrateRuntime::Dkg) {
            let mut j: usize = 0;
            while j < node.pallets.len()
                invariant
                    k < cfg.substrate@.len(),
                    j <= node.pallets@.len(),
                    node == cfg.substrate@[k as int],
                    node.enabled,
                    node.runtime == SubstrateRuntime::Dkg,
                    tasks_views(out@) == evm_tasks(cfg.evm@) + substrate_tasks(
                        cfg.substrate@.take(k as int),
                    ) + pallets_tasks(node.chain_id, node.pallets@.take(j as int)),
                decreases node.pallets@.len() - j,
            {
                let p = &node.pallets[j];
                match p {
                    PalletConfig::DKGProposalHandler(w) => {
                        if w.enabled {
                            let t = ServiceTask::DkgProposalHandler { chain_id: node.chain_id };
                            proof {
                                lemma_views_push(out@, t);
                            }
                            out.push(t);
                        }
                    },
                    PalletConfig::DKGProposals(_) => {},
                }
                proof {
                    lemma_pallets_tasks_push(
                        node.chain_id,
                        node.pallets@.take(j as int),
                        node.pallets@[j as int],
                    );
                    assert(node.pallets@.take(j + 1) =~= node.pallets@.take(j as int).push(
                        node.pallets@[j as int],
                    ));
                    assert(tasks_views(out@).len() == out@.len());
                    assert forall|k2: int| 0 <= k2 < out@.len() implies #[trigger] tasks_views(
                        out@,
                    )[k2] == task_view(out@[k2]) by {}
                    assert(tasks_views(out@) =~~= evm_tasks(cfg.evm@) + substrate_tasks(
                        cfg.substrate@.take(k as int),
                    ) + pallets_tasks(node.chain_id, node.pallets@.take(j + 1)));
                }
                j = j + 1;
            }
            proof {
                assert(node.pallets@.take(node.pallets@.len() as int) =~= node.pallets@);
            }
        }
        proof {
            lemma_substrate_tasks_push(cfg.substrate@.take(k as int), cfg.substrate@[k as int]);
            assert(cfg.substrate@.take(k + 1) =~= cfg.substrate@.take(k as int).push(
                cfg.substrate@[k as int],
            ));
            assert(tasks_views(out@).len() == out@.len());
            assert forall|k2: int| 0 <= k2 < out@.len() implies #[trigger] tasks_views(
                out@,
            )[k2] == task_view(out@[k2]) by {}
            assert(tasks_views(out@) =~~= evm_tasks(cfg.evm@) + substrate_tasks(
                cfg.substrate@.take(k + 1),
            ));
        }
        k = k + 1;
    }
    proof {
        assert(cfg.substrate@.take(cfg.substrate@.len() as int) =~= cfg.substrate@);
        assert(tasks_views(out@) =~~= plan_spec(*cfg));
    }
    out
}

} // verus!
