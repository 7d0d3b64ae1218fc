//! What a node starts, given its configuration: the decisions of the start-up, apart
//! from the services that carry them out.

use vstd::prelude::*;

verus! {

/// The degree of the gossip between validators.
pub const GOSSIP_DEGREE: usize = 4;

/// The number of transactions of a batch, at least.
pub const BATCH_MIN_SIZE: u64 = 1000;

/// The seconds after which a batch is closed at the latest.
pub const BATCH_MAX_DELAY_SECONDS: u64 = 1;

/// The capacity of the channel that tells consensus of a reconfiguration.
pub const RECONFIGURE_CHANNEL_CAPACITY: usize = 100;

/// What the start-up reads of the configuration of a node.
#[derive(Clone, Copy, Debug, PartialEq, Eq, Structural)]
pub struct NodeOptions {
    /// Whether the node is configured for consensus: it is a validator then, and a full
    /// node else.
    pub has_consensus_config: bool,
    pub enable_event_processing: bool,
    pub has_websocket_address: bool,
    pub enable_reconfig: bool,
    pub enable_gossip: bool,
    pub enable_checkpoint: bool,
}

/// How a node follows the others.
#[derive(Clone, Copy, Debug, PartialEq, Eq, Structural)]
pub enum FollowPlan {
    /// Catch up to the latest checkpoint, then keep in sync: what a full node does.
    SyncToLatestCheckpoint,
    /// Gossip with `degree` peers.
    Gossip { degree: usize },
    /// Follow nobody.
    Nothing,
}

/// What a node starts.
#[derive(Clone, Copy, Debug, PartialEq, Eq, Structural)]
pub struct StartupPlan {
    pub is_validator: bool,
    pub is_full_node: bool,
    pub open_index_store: bool,
    pub open_event_store: bool,
    pub start_transaction_streamer: bool,
    pub start_transaction_orchestrator: bool,
    pub start_post_processing: bool,
    pub follow: FollowPlan,
    pub start_checkpoint_process: bool,
    pub start_validator_service: bool,
}

/// What a node with the options `o` starts. A validator runs the validator service
/// and, where enabled, gossip and the checkpoint process; a full node keeps indexes,
/// runs the transaction orchestrator and follows the validators. Events are stored
/// where enabled, transactions are streamed where there is a websocket address, and
/// post-processing runs where there is an index or an event store to feed.
pub open spec fn spec_startup_plan(o: NodeOptions) -> StartupPlan {
    let is_validator = o.has_consensus_config;
    StartupPlan {
        is_validator,
        is_full_node: !is_validator,
        open_index_store: !is_validator,
        open_event_store: o.enable_event_processing,
        start_transaction_streamer: o.has_websocket_address,
        start_transaction_orchestrator: !is_validator,
        start_post_processing: !is_validator || o.enable_event_processing,
        follow: if !is_validator {
            FollowPlan::SyncToLatestCheckpoint
        } else if o.enable_gossip {
            FollowPlan::Gossip { degree: GOSSIP_DEGREE }
        } else {
            FollowPlan::Nothing
        },
        start_checkpoint_process: o.enable_checkpoint && is_validator,
        start_validator_service: is_validator,
    }
}

/// What a node with the options `options` starts.
pub fn startup_plan(options: &NodeOptions) -> (r: StartupPlan)
    ensures
        r == spec_startup_plan(*options),
{
    let is_validator = options.has_consensus_config;
    let is_full_node = !is_validator;
    let open_index_store = !is_validator;
    let follow = if is_full_node {
        FollowPlan::SyncToLatestCheckpoint
    } else if options.enable_gossip {
        FollowPlan::Gossip { degree: GOSSIP_DEGREE }
    } else {
        FollowPlan::Nothing
    };
    StartupPlan {
        is_validator,
        is_full_node,
        open_index_store,
        open_event_store: options.enable_event_processing,
        start_transaction_streamer: options.has_websocket_address,
        start_transaction_orchestrator: is_full_node,
        start_post_processing: open_index_store || options.enable_event_processing,
        follow,
        start_checkpoint_process: options.enable_checkpoint && is_validator,
        start_validator_service: is_validator,
    }
}

/// Whether the clients of the authorities are made from the system state rather than
/// from genesis: where reconfiguration is enabled and the first epoch is over.
pub fn clients_from_system_state(enable_reconfig: bool, system_state_epoch: u64) -> (r: bool)
    ensures
        r == (enable_reconfig && system_state_epoch > 0),
{
    enable_reconfig && system_state_epoch > 0
}

/// A module of the RPC interface.
#[derive(Clone, Copy, Debug, PartialEq, Eq, Structural)]
pub enum RpcModule {
    Read,
    FullNode,
    Bcs,
    TransactionBuilder,
    TransactionExecution,
    EventRead,
    TransactionStreaming,
    EventStreaming,
}

/// What the start-up reads to decide on the RPC servers of a node.
#[derive(Clone, Copy, Debug, PartialEq, Eq, Structural)]
pub struct RpcOptions {
    pub is_validator: bool,
    pub in_simulator: bool,
    pub has_transaction_orchestrator: bool,
    pub has_event_handler: bool,
    pub has_websocket_address: bool,
    pub has_transaction_streamer: bool,
}

/// The modules of the RPC servers of a node: those of the HTTP server, and those of
/// the websocket server where there is one.
#[derive(Debug, PartialEq, Eq)]
pub struct RpcPlan {
    pub http_modules: Vec<RpcModule>,
    pub websocket_modules: Option<Vec<RpcModule>>,
}

/// Why the RPC servers cannot be planned.
#[derive(Clone, Copy, Debug, PartialEq, Eq, Structural)]
pub enum RpcPlanError {
    /// There is a websocket address and no transaction streamer to serve on it.
    MissingTransactionStreamer,
}

/// The modules of the HTTP server of a full node.
pub open spec fn spec_http_modules(o: RpcOptions) -> Seq<RpcModule> {
    seq![RpcModule::Read, RpcModule::FullNode, RpcModule::Bcs, RpcModule::TransactionBuilder]
        + (if o.has_transaction_orchestrator {
        seq![RpcModule::TransactionExecution]
    } else {
        Seq::empty()
    }) + (if o.has_event_handler {
        seq![RpcModule::EventRead]
    } else {
        Seq::empty()
    })
}

/// The modules of the websocket server of a full node.
pub open spec fn spec_websocket_modules(o: RpcOptions) -> Seq<RpcModule> {
    seq![RpcModule::TransactionStreaming] + (if o.has_event_handler {
        seq![RpcModule::EventStreaming]
    } else {
        Seq::empty()
    })
}

/// The RPC servers of a node. A validator has none, nor has a node in the simulator. A
/// full node has an HTTP server, and a websocket server where it has an address for
/// it, which needs a transaction streamer.
pub fn build_http_servers(options: &RpcOptions) -> (r: Result<Option<RpcPlan>, RpcPlanError>)
    ensures
        options.is_validator || options.in_simulator ==> r matches Ok(None),
        !(options.is_validator || options.in_simulator) ==> {
            if options.has_websocket_address && !options.has_transaction_streamer {
                r == Err::<Option<RpcPlan>, RpcPlanError>(RpcPlanError::MissingTransactionStreamer)
            } else {
                r matches Ok(Some(plan)) && plan.http_modules@ == spec_http_modules(*options)
                    && (match plan.websocket_modules {
                        Some(modules) =>
                            options.has_websocket_address
                            && modules@ == spec_websocket_modules(*options),
                        None => !options.has_websocket_address,
                    })
            }
        },
{
    // Validators do not expose these interfaces.
    if options.is_validator {
        return Ok(None);
    }
    if options.in_simulator {
        return Ok(None);
    }
    let mut http_modules: Vec<RpcModule> = Vec::new();
    http_modules.push(RpcModule::Read);
    http_modules.push(RpcModule::FullNode);
    http_modules.push(RpcModule::Bcs);
    http_modules.push(RpcModule::TransactionBuilder);
    if options.has_transaction_orchestrator {
        http_modules.push(RpcModule::TransactionExecution);
    }
    if options.has_event_handler {
        http_modules.push(RpcModule::EventRead);
    }
    assert(http_modules@ =~= spec_http_modules(*options));
    let websocket_modules = if options.has_websocket_address {
        if !options.has_transaction_streamer {
            return Err(RpcPlanError::MissingTransactionStreamer);
        }
        let mut modules: Vec<RpcModule> = Vec::new();
        modules.push(RpcModule::TransactionStreaming);
        if options.has_event_handler {
            modules.push(RpcModule::EventStreaming);
        }
        assert(modules@ =~= spec_websocket_modules(*options));
        Some(modules)
    } else {
        None
    };
    Ok(Some(RpcPlan { http_modules, websocket_modules }))
}

} // verus!
