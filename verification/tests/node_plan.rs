use sui_types::node::{
    build_http_servers, clients_from_system_state, startup_plan, FollowPlan, NodeOptions,
    RpcModule, RpcOptions, RpcPlan, RpcPlanError, GOSSIP_DEGREE,
};

fn options(validator: bool) -> NodeOptions {
    NodeOptions {
        has_consensus_config: validator,
        enable_event_processing: false,
        has_websocket_address: false,
        enable_reconfig: false,
        enable_gossip: false,
        enable_checkpoint: false,
    }
}

fn rpc(validator: bool) -> RpcOptions {
    RpcOptions {
        is_validator: validator,
        in_simulator: false,
        has_transaction_orchestrator: false,
        has_event_handler: false,
        has_websocket_address: false,
        has_transaction_streamer: false,
    }
}

#[test]
fn a_validator_serves_and_gossips_where_enabled() {
    let plain = startup_plan(&options(true));
    assert!(plain.is_validator && !plain.is_full_node);
    assert!(plain.start_validator_service);
    assert!(!plain.open_index_store);
    assert!(!plain.start_transaction_orchestrator);
    assert!(!plain.start_post_processing);
    assert!(!plain.start_checkpoint_process);
    assert_eq!(plain.follow, FollowPlan::Nothing);

    let mut full = options(true);
    full.enable_gossip = true;
    full.enable_checkpoint = true;
    full.enable_event_processing = true;
    full.has_websocket_address = true;
    let plan = startup_plan(&full);
    assert_eq!(plan.follow, FollowPlan::Gossip { degree: 4 });
    assert_eq!(GOSSIP_DEGREE, 4);
    assert!(plan.start_checkpoint_process);
    assert!(plan.open_event_store);
    assert!(plan.start_post_processing);
    assert!(plan.start_transaction_streamer);
}

#[test]
fn a_full_node_follows_and_indexes() {
    let mut o = options(false);
    o.enable_gossip = true;
    o.enable_checkpoint = true;
    let plan = startup_plan(&o);
    assert!(plan.is_full_node && !plan.is_validator);
    assert!(plan.open_index_store);
    assert!(plan.start_transaction_orchestrator);
    assert!(plan.start_post_processing);
    assert_eq!(plan.follow, FollowPlan::SyncToLatestCheckpoint);
    assert!(!plan.start_checkpoint_process);
    assert!(!plan.start_validator_service);
    assert!(!plan.open_event_store);
}

#[test]
fn the_clients_come_from_the_system_state_after_the_first_epoch() {
    assert!(clients_from_system_state(true, 1));
    assert!(!clients_from_system_state(true, 0));
    assert!(!clients_from_system_state(false, 5));
}

#[test]
fn validators_and_simulated_nodes_have_no_rpc_servers() {
    assert_eq!(build_http_servers(&rpc(true)), Ok(None));
    let mut simulated = rpc(false);
    simulated.in_simulator = true;
    simulated.has_websocket_address = true;
    assert_eq!(build_http_servers(&simulated), Ok(None));
}

#[test]
fn a_full_node_serves_its_modules() {
    let base = vec![RpcModule::Read, RpcModule::FullNode, RpcModule::Bcs, RpcModule::TransactionBuilder];
    assert_eq!(
        build_http_servers(&rpc(false)),
        Ok(Some(RpcPlan { http_modules: base.clone(), websocket_modules: None }))
    );
    let mut all = rpc(false);
    all.has_transaction_orchestrator = true;
    all.has_event_handler = true;
    all.has_websocket_address = true;
    all.has_transaction_streamer = true;
    let mut http = base.clone();
    http.push(RpcModule::TransactionExecution);
    http.push(RpcModule::EventRead);
    assert_eq!(
        build_http_servers(&all),
        Ok(Some(RpcPlan {
            http_modules: http,
            websocket_modules: Some(vec![RpcModule::TransactionStreaming, RpcModule::EventStreaming]),
        }))
    );
    all.has_event_handler = false;
    all.has_transaction_orchestrator = false;
    assert_eq!(
        build_http_servers(&all),
        Ok(Some(RpcPlan {
            http_modules: base,
            websocket_modules: Some(vec![RpcModule::TransactionStreaming]),
        }))
    );
}

#[test]
fn a_websocket_address_needs_a_transaction_streamer() {
    let mut o = rpc(false);
    o.has_websocket_address = true;
    assert_eq!(build_http_servers(&o), Err(RpcPlanError::MissingTransactionStreamer));
}
