use quickwit::cluster_sandbox::{
    as_lines, collect_exit_statuses, transport_url, ClusterSandbox, ClusterSandboxBuilder,
    QuickwitService, RestEndpoint, SandboxCommonConfigs, SandboxError, ServiceSet, WaitStep,
};

fn common_configs() -> SandboxCommonConfigs {
    SandboxCommonConfigs::new("/data".to_string(), "ram-dir", "test-cluster".to_string())
}

/// Three nodes: a metastore, and two indexers of which the first one is also a searcher.
fn sandbox() -> ClusterSandbox<u32> {
    ClusterSandboxBuilder::default()
        .add_node("metastore".to_string(), vec![QuickwitService::Metastore])
        .add_node_with_otlp(
            "indexer-1".to_string(),
            vec![QuickwitService::Indexer, QuickwitService::Searcher, QuickwitService::Indexer],
        )
        .add_node("indexer-2".to_string(), vec![QuickwitService::Indexer])
        .build_config(common_configs(), &[(1001, 1002), (2001, 2002), (3001, 3002)])
        .start(vec![1, 2, 3])
}

#[test]
fn test_common_configs() {
    let configs = common_configs();
    assert_eq!(configs.metastore_uri, "ram:///ram-dir/metastore");
    assert_eq!(configs.default_index_root_uri, "ram:///ram-dir/indexes");
}

#[test]
fn test_services_are_a_set() {
    let services = ServiceSet::from_services(&vec![
        QuickwitService::Indexer,
        QuickwitService::Searcher,
        QuickwitService::Indexer,
    ]);
    assert_eq!(services.len(), 2);
    assert!(services.contains(QuickwitService::Indexer));
    assert!(!services.contains(QuickwitService::Janitor));
}

#[test]
fn test_node_configs() {
    let sandbox = sandbox();
    let configs = sandbox.node_configs();
    assert_eq!(configs.len(), 3);
    let config = configs[1];
    assert_eq!(config.cluster_id, "test-cluster");
    assert_eq!(config.node_id, "indexer-1");
    assert_eq!(config.data_dir_path, "/data/indexer-1");
    assert_eq!(config.metastore_uri, "ram:///ram-dir/metastore");
    assert!(config.enable_otlp_endpoint);
    assert!(config.enable_jaeger_endpoint);
    assert!(!configs[0].enable_otlp_endpoint);
    // The peer seeds of a node are the other nodes.
    assert_eq!(config.peer_seeds, ["127.0.0.1:1001", "127.0.0.1:3001"]);
    assert_eq!(configs[0].peer_seeds, ["127.0.0.1:2001", "127.0.0.1:3001"]);
}

#[test]
fn test_standalone_node_runs_everything() {
    let sandbox = ClusterSandboxBuilder::standalone("standalone".to_string())
        .build_config(common_configs(), &[(1, 2)])
        .start(vec![()]);
    for service in QuickwitService::supported_services() {
        assert_eq!(sandbox.find_node_for_service(service).node_id, "standalone");
    }
    assert!(sandbox.node_configs()[0].peer_seeds.is_empty());
}

#[test]
fn test_first_node_with_a_service_answers() {
    let sandbox = sandbox();
    assert_eq!(sandbox.find_node_for_service(QuickwitService::Indexer).node_id, "indexer-1");
    assert_eq!(sandbox.channel(QuickwitService::Metastore), "http://127.0.0.1:1002");
    assert_eq!(sandbox.jaeger_client(), "http://127.0.0.1:2002");
    assert_eq!(sandbox.logs_client(), "http://127.0.0.1:2002");
    assert_eq!(sandbox.trace_client(), "http://127.0.0.1:2002");
    assert_eq!(sandbox.position_for_service(QuickwitService::Janitor), None);
    assert_eq!(sandbox.position_of("indexer-2"), Some(2));
}

#[test]
fn test_rest_endpoints() {
    let sandbox = sandbox();
    assert_eq!(sandbox.endpoint_for_service(QuickwitService::Searcher).addr.port, 2001);
    let endpoint = sandbox.rest_endpoint("indexer-2").unwrap();
    assert_eq!(endpoint.addr.port, 3001);
    assert!(endpoint.tls_ca_path.is_none());
    assert!(sandbox.rest_endpoint("indexer-3").is_none());
    assert_eq!(transport_url(&endpoint), "http://127.0.0.1:3001");
    let secured = RestEndpoint { tls_ca_path: Some("/ca.pem".to_string()), ..endpoint };
    assert_eq!(transport_url(&secured), "https://127.0.0.1:3001");
}

#[test]
fn test_indexers_are_told_apart() {
    let sandbox = sandbox();
    assert_eq!(sandbox.indexer_position("indexer-2"), Ok(2));
    assert_eq!(sandbox.indexer_position("metastore"), Err(SandboxError::NotAnIndexer));
    assert_eq!(sandbox.indexer_position("indexer-3"), Err(SandboxError::NoSuchNode));
    assert_eq!(SandboxError::NoSuchNode.message(), "no node has that name");
}

#[test]
fn test_waiting_for_nodes() {
    let wait = sandbox().wait_for_cluster_num_ready_nodes(3);
    // The metastore is asked.
    assert_eq!(wait.endpoint.addr.port, 1001);
    assert_eq!(wait.on_reply::<()>(&Ok(3), 0), WaitStep::Done);
    assert_eq!(wait.on_reply::<()>(&Ok(2), 0), WaitStep::RetryAfter(100));
    assert_eq!(wait.on_reply(&Err("unreachable"), 9_999), WaitStep::RetryAfter(100));
    assert_eq!(wait.on_reply::<()>(&Ok(4), 10_000), WaitStep::TimedOut);
    assert_eq!(wait.on_reply::<()>(&Ok(3), 10_000), WaitStep::Done);
}

#[test]
fn test_waiting_for_pipelines() {
    let sandbox = sandbox();
    let wait = sandbox.wait_for_indexing_pipelines("indexer-2", 1).unwrap();
    assert_eq!(wait.endpoint.addr.port, 3001);
    assert_eq!(wait.on_reply::<()>(&Ok(1), 0), WaitStep::Done);
    assert_eq!(
        sandbox.wait_for_indexing_pipelines("metastore", 1).unwrap_err(),
        SandboxError::NotAnIndexer
    );
    assert_eq!(
        sandbox.wait_for_indexing_pipelines("indexer-3", 1).unwrap_err(),
        SandboxError::NoSuchNode
    );
}

#[test]
fn test_waiting_for_splits() {
    let wait = sandbox().wait_for_splits(2);
    assert_eq!(wait.endpoint.addr.port, 1001);
    assert_eq!(wait.on_reply::<()>(&Ok(2), 0), WaitStep::Done);
    assert_eq!(wait.on_reply::<()>(&Ok(0), 14_999), WaitStep::RetryAfter(500));
    assert_eq!(wait.on_reply::<()>(&Ok(0), 15_000), WaitStep::TimedOut);
}

#[test]
fn test_local_ingest_plan() {
    let mut sandbox = sandbox();
    let plan = sandbox.local_ingest_with_slug(42).unwrap();
    assert_eq!(plan.data_dir, "/data/indexer-1/42");
    assert_eq!(
        plan.node_config,
        r#"
                version: 0.8
                metastore_uri: ram:///ram-dir/metastore
                data_dir: "/data/indexer-1/42"
                "#
    );
    let plan = sandbox.local_ingest().unwrap();
    assert!(plan.data_dir.starts_with("/data/indexer-1/"));
    sandbox.shutdown_nodes(&vec!["indexer-1".to_string(), "indexer-2".to_string()]);
    assert_eq!(sandbox.local_ingest().unwrap_err(), SandboxError::NoIndexerNode);
    assert_eq!(SandboxError::NoIndexerNode.message(), "No indexer node found");
}

#[test]
fn test_quotes_in_a_path_are_escaped() {
    let common =
        SandboxCommonConfigs::new("/da\"ta".to_string(), "ram-dir", "test-cluster".to_string());
    let sandbox = ClusterSandboxBuilder::standalone("node".to_string())
        .build_config(common, &[(1, 2)])
        .start(vec![()]);
    let plan = sandbox.local_ingest_with_slug(7).unwrap();
    assert!(plan.node_config.contains(r#"data_dir: "/da\"ta/node/7""#));
}

#[test]
fn test_lines() {
    assert_eq!(as_lines(&["{}".to_string(), "[1]".to_string()]), "{}\n[1]\n");
    assert_eq!(as_lines(&[]), "");
}

#[test]
fn test_shutdown_of_some_nodes() {
    let mut sandbox = sandbox();
    let plan = sandbox.shutdown_nodes(&vec!["metastore".to_string(), "indexer-2".to_string()]);
    let indexers: Vec<u32> = plan.indexers.iter().map(|node| node.shutdown_handle).collect();
    let others: Vec<u32> = plan.others.iter().map(|node| node.shutdown_handle).collect();
    assert_eq!(indexers, [3]);
    assert_eq!(others, [1]);
    assert_eq!(sandbox.nodes.len(), 1);
    assert_eq!(sandbox.nodes[0].node_name, "indexer-1");
}

#[test]
fn test_shutdown_of_all_nodes() {
    let plan = sandbox().shutdown();
    let indexers: Vec<&str> = plan.indexers.iter().map(|node| node.node_name.as_str()).collect();
    let others: Vec<&str> = plan.others.iter().map(|node| node.node_name.as_str()).collect();
    assert_eq!(indexers, ["indexer-1", "indexer-2"]);
    assert_eq!(others, ["metastore"]);
}

#[test]
fn test_exit_statuses_are_collected() {
    let statuses: Result<Vec<u32>, &str> =
        collect_exit_statuses(vec![Ok(2), Ok(3)], vec![Ok(1)]);
    assert_eq!(statuses, Ok(vec![2, 3, 1]));
    let statuses: Result<Vec<u32>, &str> =
        collect_exit_statuses(vec![Ok(2), Err("first")], vec![Err("second")]);
    assert_eq!(statuses, Err("first"));
    let statuses: Result<Vec<u32>, &str> = collect_exit_statuses(vec![Ok(2)], vec![Err("other")]);
    assert_eq!(statuses, Err("other"));
}

#[test]
fn test_node_that_joins_knows_all_others() {
    let mut sandbox = sandbox();
    let config = sandbox.prepare_node(
        "janitor".to_string(),
        vec![QuickwitService::Janitor],
        4001,
        4002,
    );
    assert_eq!(config.peer_seeds, ["127.0.0.1:1001", "127.0.0.1:2001", "127.0.0.1:3001"]);
    assert_eq!(config.data_dir_path, "/data/janitor");
    assert!(!config.enable_otlp_endpoint);
    sandbox.add_node(config, 4);
    assert_eq!(sandbox.find_node_for_service(QuickwitService::Janitor).node_id, "janitor");
    assert_eq!(sandbox.nodes[3].shutdown_handle, 4);
}
