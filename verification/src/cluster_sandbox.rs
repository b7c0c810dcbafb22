//! Clusters of nodes that run on one machine, to try a cluster out.
//!
//! This is what each node is told when it starts, which node answers a request, and in which order
//! nodes stop. Nodes run elsewhere: a sandbox only holds a handle on each of them.
use crate::text;
use vstd::prelude::*;

verus! {

/// A service that a node can run.
#[derive(Clone, Copy, Debug, PartialEq, Eq, Hash, Structural)]
pub enum QuickwitService {
    ControlPlane,
    Indexer,
    Searcher,
    Janitor,
    Metastore,
}

impl QuickwitService {
    /// All services.
    pub fn supported_services() -> (services: Vec<QuickwitService>)
        ensures
            forall|service: QuickwitService| services@.contains(service),
            services@.no_duplicates(),
    {
        let services: Vec<QuickwitService> = vec![
            QuickwitService::ControlPlane,
            QuickwitService::Indexer,
            QuickwitService::Searcher,
            QuickwitService::Janitor,
            QuickwitService::Metastore,
        ];
        proof {
            assert(services@[0] == QuickwitService::ControlPlane);
            assert(services@[1] == QuickwitService::Indexer);
            assert(services@[2] == QuickwitService::Searcher);
            assert(services@[3] == QuickwitService::Janitor);
            assert(services@[4] == QuickwitService::Metastore);
        }
        services
    }
}

/// A set of services.
#[derive(Debug)]
pub struct ServiceSet {
    services: Vec<QuickwitService>,
}

impl View for ServiceSet {
    type V = Set<QuickwitService>;

    closed spec fn view(&self) -> Set<QuickwitService> {
        self.services@.to_set()
    }
}

impl Clone for ServiceSet {
    fn clone(&self) -> (copy: ServiceSet)
        ensures
            copy@ == self@,
    {
        ServiceSet::from_services(&self.services)
    }
}

impl ServiceSet {
    #[verifier::type_invariant]
    spec fn wf(self) -> bool {
        self.services@.no_duplicates()
    }

    /// The set of those services.
    pub fn from_services(services: &Vec<QuickwitService>) -> (set: ServiceSet)
        ensures
            set@ == services@.to_set(),
    {
        let mut kept: Vec<QuickwitService> = Vec::new();
        for i in 0..services.len()
            invariant
                kept@.no_duplicates(),
                forall|service: QuickwitService|
                    kept@.contains(service) <==> services@.take(i as int).contains(service),
        {
            let service: QuickwitService = services[i];
            let mut found = false;
            for j in 0..kept.len()
                invariant
                    found <==> kept@.take(j as int).contains(service),
            {
                proof {
                    assert(kept@.take(j + 1) =~= kept@.take(j as int).push(kept@[j as int]));
                    lemma_push_contains(kept@.take(j as int), kept@[j as int]);
                }
                if kept[j] == service {
                    found = true;
                }
            }
            proof {
                assert(kept@.take(kept@.len() as int) =~= kept@);
                assert(services@.take(i + 1) =~= services@.take(i as int).push(service));
                lemma_push_contains(services@.take(i as int), service);
                lemma_push_contains(kept@, service);
            }
            if !found {
                kept.push(service);
            }
        }
        proof {
            assert(services@.take(services@.len() as int) =~= services@);
            assert(kept@.to_set() =~= services@.to_set());
        }
        ServiceSet { services: kept }
    }

    /// Whether the service is in the set.
    pub fn contains(&self, service: QuickwitService) -> (found: bool)
        ensures
            found == self@.contains(service),
    {
        for i in 0..self.services.len()
            invariant
                !self.services@.take(i as int).contains(service),
        {
            proof {
                let before = self.services@.take(i as int);
                assert(self.services@.take(i + 1) =~= before.push(self.services@[i as int]));
                lemma_push_contains(before, self.services@[i as int]);
            }
            if self.services[i] == service {
                proof {
                    assert(self.services@[i as int] == service);
                }
                return true;
            }
        }
        proof {
            assert(self.services@.take(self.services@.len() as int) =~= self.services@);
        }
        false
    }

    /// The number of services in the set.
    pub fn len(&self) -> (len: usize)
        ensures
            len == self@.len(),
    {
        proof {
            use_type_invariant(self);
            self.services@.unique_seq_to_set();
        }
        self.services.len()
    }
}

proof fn lemma_push_contains(services: Seq<QuickwitService>, last: QuickwitService)
    ensures
        forall|service: QuickwitService| #[trigger]
            services.push(last).contains(service) <==> services.contains(service) || service
                == last,
{
    assert forall|service: QuickwitService| #[trigger]
        services.push(last).contains(service) <==> services.contains(service) || service
            == last by {
        if services.contains(service) {
            let i = choose|i: int| 0 <= i < services.len() && services[i] == service;
            assert(services.push(last)[i] == service);
        }
        if service == last {
            assert(services.push(last)[services.len() as int] == service);
        }
    }
}

/// An address on this machine.
#[derive(Clone, Copy, Debug, PartialEq, Eq, Structural)]
pub struct LocalAddr {
    pub port: u16,
}

impl LocalAddr {
    /// The address as a text.
    pub open spec fn as_text(self) -> Seq<char> {
        "127.0.0.1:"@ + text::decimal_digits(self.port as nat)
    }

    /// Returns the address as a text.
    pub fn to_text(&self) -> (address: String)
        ensures
            address@ == self.as_text(),
    {
        let port = text::decimal(self.port as u64);
        text::concat("127.0.0.1:", port.as_str())
    }
}

/// A node to be started.
#[derive(Debug)]
pub struct SandboxNodeConfig {
    pub node_name: String,
    pub services: ServiceSet,
    pub enable_otlp: bool,
}

/// What all nodes of a cluster share.
#[derive(Debug)]
pub struct SandboxCommonConfigs {
    pub root_data_dir: String,
    pub metastore_uri: String,
    pub default_index_root_uri: String,
    pub cluster_id: String,
}

impl SandboxCommonConfigs {
    /// A cluster with that name, whose data is in a directory and in a directory in RAM.
    pub fn new(
        root_data_dir: String,
        unique_ram_dir_name: &str,
        cluster_id: String,
    ) -> (configs: SandboxCommonConfigs)
        ensures
            configs.root_data_dir == root_data_dir,
            configs.metastore_uri@ == "ram:///"@ + unique_ram_dir_name@ + "/metastore"@,
            configs.default_index_root_uri@ == "ram:///"@ + unique_ram_dir_name@ + "/indexes"@,
            configs.cluster_id == cluster_id,
    {
        let ram_dir_uri = text::concat("ram:///", unique_ram_dir_name);
        SandboxCommonConfigs {
            root_data_dir,
            metastore_uri: text::concat(ram_dir_uri.as_str(), "/metastore"),
            default_index_root_uri: text::concat(ram_dir_uri.as_str(), "/indexes"),
            cluster_id,
        }
    }
}

/// The path of `path`, as seen from `directory`: the path itself if it is absolute, else the two
/// with one separator between them. Paths are those of Unix.
pub open spec fn joined_path(directory: Seq<char>, path: Seq<char>) -> Seq<char> {
    if path.len() > 0 && path[0] == '/' {
        path
    } else if directory.len() == 0 || directory.last() == '/' {
        directory + path
    } else {
        directory + seq!['/'] + path
    }
}

fn join_path(directory: &str, path: &str) -> (joined: String)
    ensures
        joined@ == joined_path(directory@, path@),
{
    let path_chars = text::characters(path);
    if path_chars.len() > 0 && path_chars[0] == '/' {
        return path.to_owned();
    }
    let directory_chars = text::characters(directory);
    let mut joined = directory.to_owned();
    if directory_chars.len() > 0 && directory_chars[directory_chars.len() - 1] != '/' {
        joined.push('/');
        proof {
            assert(joined@ =~= directory@ + seq!['/']);
        }
    }
    joined.append(path);
    joined
}

/// How a path is written in quotes, with escapes.
pub uninterp spec fn quoted_path(path: Seq<char>) -> Seq<char>;

/// The implementation of [`std::fmt::Debug`] for [`std::path::Path`]: the path in double quotes,
/// with escapes.
#[verifier::external_body]
fn quote_path(path: &str) -> (quoted: String)
    ensures
        quoted@ == quoted_path(path@),
{
    format!("{:?}", std::path::Path::new(path))
}

/// [`rand::random`]: a random number. Nothing is claimed of it.
#[verifier::external_body]
fn random_slug() -> u64 {
    rand::random::<u64>()
}

/// What a node is told when it starts.
#[derive(Debug)]
pub struct NodeConfig {
    pub cluster_id: String,
    pub node_id: String,
    pub enabled_services: ServiceSet,
    pub rest_listen_addr: LocalAddr,
    /// The certificate of the authority that signed the certificate of the REST API, if it uses
    /// TLS.
    pub rest_tls_ca_path: Option<String>,
    pub grpc_listen_addr: LocalAddr,
    pub gossip_advertise_addr: LocalAddr,
    /// Addresses at which other nodes are to be found.
    pub peer_seeds: Vec<String>,
    pub data_dir_path: String,
    pub metastore_uri: String,
    pub default_index_root_uri: String,
    pub enable_otlp_endpoint: bool,
    pub enable_jaeger_endpoint: bool,
}

/// The contents of some texts.
pub open spec fn texts(strings: Seq<String>) -> Seq<Seq<char>> {
    strings.map_values(|string: String| string@)
}

impl NodeConfig {
    /// Whether this is the configuration of a node, but for its peer seeds.
    pub open spec fn is_assembled_from(
        self,
        common_configs: SandboxCommonConfigs,
        node_name: Seq<char>,
        services: Set<QuickwitService>,
        enable_otlp: bool,
        rest_port: u16,
        grpc_port: u16,
    ) -> bool {
        &&& self.cluster_id@ == common_configs.cluster_id@
        &&& self.node_id@ == node_name
        &&& self.enabled_services@ == services
        &&& self.rest_listen_addr.port == rest_port
        &&& self.rest_tls_ca_path is None
        &&& self.grpc_listen_addr.port == grpc_port
        &&& self.gossip_advertise_addr.port == rest_port
        &&& self.data_dir_path@ == joined_path(common_configs.root_data_dir@, node_name)
        &&& self.metastore_uri@ == common_configs.metastore_uri@
        &&& self.default_index_root_uri@ == common_configs.default_index_root_uri@
        &&& self.enable_otlp_endpoint == enable_otlp
        &&& self.enable_jaeger_endpoint
    }

    /// Whether the node runs the service.
    pub fn is_service_enabled(&self, service: QuickwitService) -> (enabled: bool)
        ensures
            enabled == self.enabled_services@.contains(service),
    {
        self.enabled_services.contains(service)
    }
}

/// Creates the configuration of a node. It has no peer seeds yet.
pub fn assemble_node_config(
    common_configs: &SandboxCommonConfigs,
    test_node_config: &SandboxNodeConfig,
    rest_port: u16,
    grpc_port: u16,
) -> (config: NodeConfig)
    ensures
        config.is_assembled_from(
            *common_configs,
            test_node_config.node_name@,
            test_node_config.services@,
            test_node_config.enable_otlp,
            rest_port,
            grpc_port,
        ),
        config.peer_seeds@.len() == 0,
{
    let data_dir_path = join_path(
        common_configs.root_data_dir.as_str(),
        test_node_config.node_name.as_str(),
    );
    NodeConfig {
        cluster_id: common_configs.cluster_id.clone(),
        node_id: test_node_config.node_name.clone(),
        enabled_services: test_node_config.services.clone(),
        rest_listen_addr: LocalAddr { port: rest_port },
        rest_tls_ca_path: None,
        grpc_listen_addr: LocalAddr { port: grpc_port },
        gossip_advertise_addr: LocalAddr { port: rest_port },
        peer_seeds: Vec::new(),
        data_dir_path,
        metastore_uri: common_configs.metastore_uri.clone(),
        default_index_root_uri: common_configs.default_index_root_uri.clone(),
        enable_otlp_endpoint: test_node_config.enable_otlp,
        enable_jaeger_endpoint: true,
    }
}

/// The addresses at which nodes gossip.
pub open spec fn gossip_addresses(configs: Seq<NodeConfig>) -> Seq<Seq<char>> {
    configs.map_values(|config: NodeConfig| config.gossip_advertise_addr.as_text())
}

/// Whether an address is another one than `own`.
pub open spec fn is_not(own: Seq<char>) -> spec_fn(Seq<char>) -> bool {
    |address: Seq<char>| address != own
}

/// The addresses other than `own`, in their order.
pub open spec fn other_addresses(addresses: Seq<Seq<char>>, own: Seq<char>) -> Seq<Seq<char>> {
    addresses.filter(is_not(own))
}

/// Returns the texts other than `own`, in their order.
fn other_peers(peers: &Vec<String>, own: &String) -> (others: Vec<String>)
    ensures
        texts(others@) == other_addresses(texts(peers@), own@),
{
    let mut others: Vec<String> = Vec::new();
    proof {
        reveal(Seq::filter);
        assert(texts(peers@).take(0) =~= Seq::empty());
        assert(texts(others@) =~= other_addresses(texts(peers@).take(0), own@));
    }
    for i in 0..peers.len()
        invariant
            texts(others@) == other_addresses(texts(peers@).take(i as int), own@),
    {
        let ghost before = others@;
        if peers[i] != *own {
            others.push(peers[i].clone());
        }
        proof {
            reveal(Seq::filter);
            let prefix = texts(peers@).take(i + 1);
            assert(prefix.drop_last() =~= texts(peers@).take(i as int));
            assert(prefix.last() == peers@[i as int]@);
            if peers@[i as int]@ != own@ {
                assert(texts(others@) =~= texts(before).push(peers@[i as int]@));
            }
        }
    }
    proof {
        assert(texts(peers@).take(peers@.len() as int) =~= texts(peers@));
    }
    others
}

/// A cluster to be started.
#[derive(Debug)]
pub struct ClusterSandboxBuilder {
    pub node_configs: Vec<SandboxNodeConfig>,
}

impl Default for ClusterSandboxBuilder {
    /// No node.
    fn default() -> (builder: ClusterSandboxBuilder)
        ensures
            builder.node_configs@.len() == 0,
    {
        ClusterSandboxBuilder { node_configs: Vec::new() }
    }
}

impl ClusterSandboxBuilder {
    /// Adds a node that runs those services.
    pub fn add_node(self, node_name: String, services: Vec<QuickwitService>) -> (builder: Self)
        ensures
            builder.node_configs@.len() == self.node_configs@.len() + 1,
            builder.node_configs@.drop_last() == self.node_configs@,
            builder.node_configs@.last().node_name == node_name,
            builder.node_configs@.last().services@ == services@.to_set(),
            !builder.node_configs@.last().enable_otlp,
    {
        self.add(node_name, services, false)
    }

    /// Adds a node that runs those services, and has an endpoint for OpenTelemetry.
    pub fn add_node_with_otlp(
        self,
        node_name: String,
        services: Vec<QuickwitService>,
    ) -> (builder: Self)
        ensures
            builder.node_configs@.len() == self.node_configs@.len() + 1,
            builder.node_configs@.drop_last() == self.node_configs@,
            builder.node_configs@.last().node_name == node_name,
            builder.node_configs@.last().services@ == services@.to_set(),
            builder.node_configs@.last().enable_otlp,
    {
        self.add(node_name, services, true)
    }

    fn add(
        self,
        node_name: String,
        services: Vec<QuickwitService>,
        enable_otlp: bool,
    ) -> (builder: Self)
        ensures
            builder.node_configs@.len() == self.node_configs@.len() + 1,
            builder.node_configs@.drop_last() == self.node_configs@,
            builder.node_configs@.last().node_name == node_name,
            builder.node_configs@.last().services@ == services@.to_set(),
            builder.node_configs@.last().enable_otlp == enable_otlp,
    {
        let mut node_configs = self.node_configs;
        let ghost before = node_configs@;
        node_configs.push(
            SandboxNodeConfig {
                node_name,
                services: ServiceSet::from_services(&services),
                enable_otlp,
            },
        );
        proof {
            assert(node_configs@.drop_last() =~= before);
        }
        ClusterSandboxBuilder { node_configs }
    }

    /// One node that runs all services.
    pub fn standalone(node_name: String) -> (builder: Self)
        ensures
            builder.node_configs@.len() == 1,
            builder.node_configs@[0].node_name == node_name,
            forall|service: QuickwitService|
                builder.node_configs@[0].services@.contains(service),
            !builder.node_configs@[0].enable_otlp,
    {
        ClusterSandboxBuilder::default().add_node(node_name, QuickwitService::supported_services())
    }

    /// Builds the configuration of each node, given the ports that were reserved for its REST API
    /// and its gRPC services. The peer seeds of a node are the addresses of the others.
    pub fn build_config(
        self,
        common_configs: SandboxCommonConfigs,
        ports: &[(u16, u16)],
    ) -> (resolved: ResolvedClusterConfig)
        requires
            ports@.len() == self.node_configs@.len(),
        ensures
            resolved.common_sandbox_configs == common_configs,
            resolved.node_configs@.len() == self.node_configs@.len(),
            forall|i: int|
                0 <= i < self.node_configs@.len() ==> (
                #[trigger] resolved.node_configs@[i]).is_assembled_from(
                    common_configs,
                    self.node_configs@[i].node_name@,
                    self.node_configs@[i].services@,
                    self.node_configs@[i].enable_otlp,
                    ports@[i].0,
                    ports@[i].1,
                ),
            forall|i: int|
                0 <= i < self.node_configs@.len() ==> texts(
                    (#[trigger] resolved.node_configs@[i]).peer_seeds@,
                ) == other_addresses(
                    gossip_addresses(resolved.node_configs@),
                    resolved.node_configs@[i].gossip_advertise_addr.as_text(),
                ),
    {
        let mut peers: Vec<String> = Vec::new();
        for i in 0..ports.len()
            invariant
                peers@.len() == i,
                forall|k: int|
                    0 <= k < i ==> (#[trigger] peers@[k])@ == (LocalAddr {
                        port: ports@[k].0,
                    }).as_text(),
        {
            let address = LocalAddr { port: ports[i].0 };
            peers.push(address.to_text());
        }
        let mut node_configs: Vec<NodeConfig> = Vec::new();
        for i in 0..self.node_configs.len()
            invariant
                ports@.len() == self.node_configs@.len(),
                node_configs@.len() == i,
                forall|k: int|
                    0 <= k < i ==> (#[trigger] node_configs@[k]).is_assembled_from(
                        common_configs,
                        self.node_configs@[k].node_name@,
                        self.node_configs@[k].services@,
                        self.node_configs@[k].enable_otlp,
                        ports@[k].0,
                        ports@[k].1,
                    ),
                forall|k: int|
                    0 <= k < i ==> texts((#[trigger] node_configs@[k]).peer_seeds@)
                        == other_addresses(
                        texts(peers@),
                        node_configs@[k].gossip_advertise_addr.as_text(),
                    ),
        {
            let mut config = assemble_node_config(
                &common_configs,
                &self.node_configs[i],
                ports[i].0,
                ports[i].1,
            );
            let own = config.gossip_advertise_addr.to_text();
            config.peer_seeds = other_peers(&peers, &own);
            node_configs.push(config);
        }
        proof {
            assert(texts(peers@) =~= gossip_addresses(node_configs@));
        }
        ResolvedClusterConfig { node_configs, common_sandbox_configs: common_configs }
    }
}

/// Intermediate state where the ports of all the nodes have been reserved and the configurations
/// have been generated.
#[derive(Debug)]
pub struct ResolvedClusterConfig {
    pub node_configs: Vec<NodeConfig>,
    pub common_sandbox_configs: SandboxCommonConfigs,
}

/// A node that runs. `H` is the handle that stops it.
pub struct ClusterNode<H> {
    pub node_name: String,
    pub config: NodeConfig,
    pub shutdown_handle: H,
}

impl<H> ClusterNode<H> {
    /// Whether the node runs the service.
    pub open spec fn runs(self, service: QuickwitService) -> bool {
        self.config.enabled_services@.contains(service)
    }
}

/// A cluster that runs.
pub struct ClusterSandbox<H> {
    pub nodes: Vec<ClusterNode<H>>,
    pub common_sandbox_configs: SandboxCommonConfigs,
}

impl ResolvedClusterConfig {
    /// The cluster, once its nodes have started. The handles are in the order of the nodes. The
    /// cluster is ready once it has as many ready nodes as it has nodes.
    pub fn start<H>(self, shutdown_handles: Vec<H>) -> (sandbox: ClusterSandbox<H>)
        requires
            shutdown_handles@.len() == self.node_configs@.len(),
        ensures
            sandbox.wf(),
            sandbox.common_sandbox_configs == self.common_sandbox_configs,
            sandbox.nodes@.len() == self.node_configs@.len(),
            forall|i: int|
                0 <= i < self.node_configs@.len() ==> {
                    let node = #[trigger] sandbox.nodes@[i];
                    &&& node.node_name@ == self.node_configs@[i].node_id@
                    &&& node.config == self.node_configs@[i]
                    &&& node.shutdown_handle == shutdown_handles@[i]
                },
    {
        let mut nodes: Vec<ClusterNode<H>> = Vec::new();
        let mut configs = self.node_configs;
        let mut handles = shutdown_handles;
        let ghost all_configs = configs@;
        let ghost all_handles = handles@;
        while configs.len() > 0
            invariant
                configs@.len() == handles@.len(),
                all_configs.len() == all_handles.len(),
                nodes@.len() + configs@.len() == all_configs.len(),
                configs@ == all_configs.skip(nodes@.len() as int),
                handles@ == all_handles.skip(nodes@.len() as int),
                forall|i: int|
                    0 <= i < nodes@.len() ==> {
                        let node = #[trigger] nodes@[i];
                        &&& node.node_name@ == all_configs[i].node_id@
                        &&& node.config == all_configs[i]
                        &&& node.shutdown_handle == all_handles[i]
                    },
            decreases configs.len(),
        {
            let config = configs.remove(0);
            let shutdown_handle = handles.remove(0);
            nodes.push(
                ClusterNode { node_name: config.node_id.clone(), config, shutdown_handle },
            );
            proof {
                assert(configs@ =~= all_configs.skip(nodes@.len() as int));
                assert(handles@ =~= all_handles.skip(nodes@.len() as int));
            }
        }
        ClusterSandbox { nodes, common_sandbox_configs: self.common_sandbox_configs }
    }
}

/// Why a sandbox cannot do something.
#[derive(Clone, Copy, Debug, PartialEq, Eq, Structural)]
pub enum SandboxError {
    /// No node has that name.
    NoSuchNode,
    /// The node is not an indexer.
    NotAnIndexer,
    /// No node is an indexer.
    NoIndexerNode,
}

impl SandboxError {
    /// The error as a text.
    pub fn message(&self) -> (message: &'static str)
        ensures
            message@ == match self {
                SandboxError::NoSuchNode => "no node has that name"@,
                SandboxError::NotAnIndexer => "the node is not an indexer"@,
                SandboxError::NoIndexerNode => "No indexer node found"@,
            },
    {
        match self {
            SandboxError::NoSuchNode => "no node has that name",
            SandboxError::NotAnIndexer => "the node is not an indexer",
            SandboxError::NoIndexerNode => "No indexer node found",
        }
    }
}

/// Where the REST API of a node is.
#[derive(Debug)]
pub struct RestEndpoint {
    pub addr: LocalAddr,
    /// The certificate to trust, if the API uses TLS.
    pub tls_ca_path: Option<String>,
}

impl RestEndpoint {
    /// Whether this is where the REST API of a node is.
    pub open spec fn is_of(self, config: NodeConfig) -> bool {
        &&& self.addr == config.rest_listen_addr
        &&& self.tls_ca_path == config.rest_tls_ca_path
    }
}

/// Returns the URL of a REST API.
pub fn transport_url(endpoint: &RestEndpoint) -> (url: String)
    ensures
        url@ == (match endpoint.tls_ca_path {
            Some(_) => "https"@,
            None => "http"@,
        }) + "://127.0.0.1:"@ + text::decimal_digits(endpoint.addr.port as nat),
{
    let scheme = match &endpoint.tls_ca_path {
        Some(_) => "https",
        None => "http",
    };
    let port = text::decimal(endpoint.addr.port as u64);
    let mut url = text::concat(scheme, "://127.0.0.1:");
    url.append(port.as_str());
    url
}

/// How documents are ingested without a server.
#[derive(Debug)]
pub struct LocalIngestPlan {
    /// A directory to be created.
    pub data_dir: String,
    /// The configuration to ingest with.
    pub node_config: String,
}

/// Nodes that are to be stopped. Indexers are stopped first, and independently from the other nodes.
pub struct ShutdownPlan<H> {
    pub indexers: Vec<ClusterNode<H>>,
    pub others: Vec<ClusterNode<H>>,
}

/// How long to wait until something is the case, and how long between two tries.
#[derive(Clone, Copy, Debug, PartialEq, Eq, Structural)]
pub struct WaitPolicy {
    pub timeout_millis: u64,
    pub interval_millis: u64,
}

impl WaitPolicy {
    /// For nodes to be ready, and for indexing pipelines to start.
    pub open spec fn of_nodes() -> WaitPolicy {
        WaitPolicy { timeout_millis: 10_000, interval_millis: 100 }
    }

    /// For splits to be in a certain state.
    pub open spec fn of_splits() -> WaitPolicy {
        WaitPolicy { timeout_millis: 15_000, interval_millis: 500 }
    }
}

/// What to do next about a wait.
#[derive(Clone, Copy, Debug, PartialEq, Eq, Structural)]
pub enum WaitStep {
    /// What was waited for is the case.
    Done,
    /// Ask again after that many milliseconds.
    RetryAfter(u64),
    /// It took too long.
    TimedOut,
}

/// Waits until a node reports a number: of ready nodes, of running pipelines or of splits.
#[derive(Debug)]
pub struct Wait {
    /// Where to ask.
    pub endpoint: RestEndpoint,
    pub expected: usize,
    pub policy: WaitPolicy,
}

impl Wait {
    /// Decides what to do about a reply, once `elapsed_millis` milliseconds have passed since the
    /// wait started. A node that cannot be asked does not report the number.
    pub fn on_reply<E>(&self, reply: &Result<usize, E>, elapsed_millis: u64) -> (step: WaitStep)
        ensures
            step == if *reply == Ok::<usize, E>(self.expected) {
                WaitStep::Done
            } else if elapsed_millis < self.policy.timeout_millis {
                WaitStep::RetryAfter(self.policy.interval_millis)
            } else {
                WaitStep::TimedOut
            },
    {
        let reached = match reply {
            Ok(number) => *number == self.expected,
            Err(_) => false,
        };
        if reached {
            WaitStep::Done
        } else if elapsed_millis < self.policy.timeout_millis {
            WaitStep::RetryAfter(self.policy.interval_millis)
        } else {
            WaitStep::TimedOut
        }
    }
}

/// Whether `i` is the first node that runs the service.
pub open spec fn is_first_with_service<H>(
    nodes: Seq<ClusterNode<H>>,
    service: QuickwitService,
    i: int,
) -> bool {
    &&& 0 <= i < nodes.len()
    &&& nodes[i].runs(service)
    &&& forall|k: int| 0 <= k < i ==> !(#[trigger] nodes[k]).runs(service)
}

/// Whether `i` is the first node with that name.
pub open spec fn is_first_with_name<H>(
    nodes: Seq<ClusterNode<H>>,
    name: Seq<char>,
    i: int,
) -> bool {
    &&& 0 <= i < nodes.len()
    &&& nodes[i].node_name@ == name
    &&& forall|k: int| 0 <= k < i ==> (#[trigger] nodes[k]).node_name@ != name
}

/// The configuration to ingest documents with.
pub open spec fn local_ingest_config(metastore_uri: Seq<char>, data_dir: Seq<char>) -> Seq<char> {
    "\n                version: 0.8\n                metastore_uri: "@ + metastore_uri
        + "\n                data_dir: "@ + quoted_path(data_dir) + "\n                "@
}

/// Texts, each of which ends a line.
pub open spec fn lines(contents: Seq<Seq<char>>) -> Seq<char>
    decreases contents.len(),
{
    if contents.len() == 0 {
        Seq::empty()
    } else {
        lines(contents.drop_last()) + contents.last() + "\n"@
    }
}

/// Returns the texts, each of which ends a line.
pub fn as_lines(contents: &[String]) -> (all: String)
    ensures
        all@ == lines(texts(contents@)),
{
    let mut all = String::new();
    proof {
        assert(texts(contents@).take(0) =~= Seq::empty());
    }
    for i in 0..contents.len()
        invariant
            all@ == lines(texts(contents@).take(i as int)),
    {
        all.append(contents[i].as_str());
        all.append("\n");
        proof {
            let prefix = texts(contents@).take(i + 1);
            assert(prefix.drop_last() =~= texts(contents@).take(i as int));
            assert(prefix.last() == contents@[i as int]@);
        }
    }
    proof {
        assert(texts(contents@).take(contents@.len() as int) =~= texts(contents@));
    }
    all
}

/// Whether a node has one of the names.
pub open spec fn is_named<H>(node: ClusterNode<H>, names: Seq<Seq<char>>) -> bool {
    names.contains(node.node_name@)
}

/// The nodes that remain.
pub open spec fn remaining_nodes<H>(
    nodes: Seq<ClusterNode<H>>,
    names: Seq<Seq<char>>,
) -> Seq<ClusterNode<H>> {
    nodes.filter(|node: ClusterNode<H>| !is_named(node, names))
}

/// The indexers that stop.
pub open spec fn stopped_indexers<H>(
    nodes: Seq<ClusterNode<H>>,
    names: Seq<Seq<char>>,
) -> Seq<ClusterNode<H>> {
    nodes.filter(
        |node: ClusterNode<H>| is_named(node, names) && node.runs(QuickwitService::Indexer),
    )
}

/// The other nodes that stop.
pub open spec fn stopped_others<H>(
    nodes: Seq<ClusterNode<H>>,
    names: Seq<Seq<char>>,
) -> Seq<ClusterNode<H>> {
    nodes.filter(
        |node: ClusterNode<H>| is_named(node, names) && !node.runs(QuickwitService::Indexer),
    )
}

fn has_name(name: &String, names: &Vec<String>) -> (found: bool)
    ensures
        found == texts(names@).contains(name@),
{
    for i in 0..names.len()
        invariant
            forall|k: int| 0 <= k < i ==> (#[trigger] names@[k])@ != name@,
    {
        if names[i] == *name {
            proof {
                assert(texts(names@)[i as int] == name@);
            }
            return true;
        }
    }
    proof {
        if texts(names@).contains(name@) {
            let k = choose|k: int| 0 <= k < texts(names@).len() && texts(names@)[k] == name@;
            assert(names@[k]@ == name@);
        }
    }
    false
}

/// Whether each node goes by the name that it is configured with.
pub open spec fn are_named_by_config<H>(nodes: Seq<ClusterNode<H>>) -> bool {
    forall|i: int|
        0 <= i < nodes.len() ==> (#[trigger] nodes[i]).node_name@ == nodes[i].config.node_id@
}

/// Whether this is where the REST API of the first node that runs the service is.
pub open spec fn is_endpoint_for_service<H>(
    nodes: Seq<ClusterNode<H>>,
    service: QuickwitService,
    endpoint: RestEndpoint,
) -> bool {
    exists|i: int, j: int|
        {
            &&& #[trigger] is_first_with_service(nodes, service, i)
            &&& #[trigger] is_first_with_name(nodes, nodes[i].config.node_id@, j)
            &&& endpoint.is_of(nodes[j].config)
        }
}

impl<H> ClusterSandbox<H> {
    /// Each node goes by the name that it is configured with.
    pub open spec fn wf(self) -> bool {
        are_named_by_config(self.nodes@)
    }

    /// The configurations of the nodes.
    pub open spec fn configs(self) -> Seq<NodeConfig> {
        self.nodes@.map_values(|node: ClusterNode<H>| node.config)
    }

    /// Returns the configurations of the nodes.
    pub fn node_configs(&self) -> (configs: Vec<&NodeConfig>)
        ensures
            configs@.len() == self.nodes@.len(),
            forall|i: int| 0 <= i < self.nodes@.len() ==> *(#[trigger] configs@[i]) == self.configs()[i],
    {
        let mut configs: Vec<&NodeConfig> = Vec::new();
        for i in 0..self.nodes.len()
            invariant
                configs@.len() == i,
                forall|k: int| 0 <= k < i ==> *(#[trigger] configs@[k]) == self.nodes@[k].config,
        {
            configs.push(&self.nodes[i].config);
        }
        configs
    }

    /// Returns the position of the first node that runs the service.
    pub fn position_for_service(&self, service: QuickwitService) -> (position: Option<usize>)
        ensures
            position is Some ==> is_first_with_service(self.nodes@, service, position->0 as int),
            position is None ==> forall|k: int|
                0 <= k < self.nodes@.len() ==> !(#[trigger] self.nodes@[k]).runs(service),
    {
        for i in 0..self.nodes.len()
            invariant
                forall|k: int| 0 <= k < i ==> !(#[trigger] self.nodes@[k]).runs(service),
        {
            if self.nodes[i].config.is_service_enabled(service) {
                return Some(i);
            }
        }
        None
    }

    /// Returns the position of the first node with that name.
    pub fn position_of(&self, node_name: &str) -> (position: Option<usize>)
        ensures
            position is Some ==> is_first_with_name(
                self.nodes@,
                node_name@,
                position->0 as int,
            ),
            position is None ==> forall|k: int|
                0 <= k < self.nodes@.len() ==> (#[trigger] self.nodes@[k]).node_name@ != node_name@,
    {
        let name = node_name.to_owned();
        for i in 0..self.nodes.len()
            invariant
                name@ == node_name@,
                forall|k: int|
                    0 <= k < i ==> (#[trigger] self.nodes@[k]).node_name@ != node_name@,
        {
            if self.nodes[i].node_name == name {
                return Some(i);
            }
        }
        None
    }

    /// Returns the configuration of the first node that runs the service. There must be one.
    pub fn find_node_for_service(&self, service: QuickwitService) -> (config: &NodeConfig)
        requires
            exists|i: int| 0 <= i < self.nodes@.len() && (#[trigger] self.nodes@[i]).runs(service),
        ensures
            exists|i: int|
                #[trigger] is_first_with_service(self.nodes@, service, i) && *config
                    == self.nodes@[i].config,
    {
        let position = self.position_for_service(service);
        match position {
            Some(i) => &self.nodes[i].config,
            None => {
                proof {
                    assert(false);
                }
                &self.nodes[0].config
            },
        }
    }

    /// Returns the URL at which the gRPC services of the first node that runs the service are.
    /// There must be one.
    pub fn channel(&self, service: QuickwitService) -> (endpoint: String)
        requires
            exists|i: int| 0 <= i < self.nodes@.len() && (#[trigger] self.nodes@[i]).runs(service),
        ensures
            exists|i: int| #[trigger]
                is_first_with_service(self.nodes@, service, i) && endpoint@ == "http://"@
                    + self.nodes@[i].config.grpc_listen_addr.as_text(),
    {
        let node_config = self.find_node_for_service(service);
        let address = node_config.grpc_listen_addr.to_text();
        text::concat("http://", address.as_str())
    }

    /// Returns the URL that a client of Jaeger connects to: that of the first searcher. There must be
    /// one.
    pub fn jaeger_client(&self) -> (endpoint: String)
        requires
            exists|i: int|
                0 <= i < self.nodes@.len() && (#[trigger] self.nodes@[i]).runs(
                    QuickwitService::Searcher,
                ),
        ensures
            exists|i: int| #[trigger]
                is_first_with_service(self.nodes@, QuickwitService::Searcher, i) && endpoint@
                    == "http://"@ + self.nodes@[i].config.grpc_listen_addr.as_text(),
    {
        self.channel(QuickwitService::Searcher)
    }

    /// Returns the URL that a client of the logs service connects to: that of the first indexer. There must be
    /// one.
    pub fn logs_client(&self) -> (endpoint: String)
        requires
            exists|i: int|
                0 <= i < self.nodes@.len() && (#[trigger] self.nodes@[i]).runs(
                    QuickwitService::Indexer,
                ),
        ensures
            exists|i: int| #[trigger]
                is_first_with_service(self.nodes@, QuickwitService::Indexer, i) && endpoint@
                    == "http://"@ + self.nodes@[i].config.grpc_listen_addr.as_text(),
    {
        self.channel(QuickwitService::Indexer)
    }

    /// Returns the URL that a client of the trace service connects to: that of the first indexer. There must be
    /// one.
    pub fn trace_client(&self) -> (endpoint: String)
        requires
            exists|i: int|
                0 <= i < self.nodes@.len() && (#[trigger] self.nodes@[i]).runs(
                    QuickwitService::Indexer,
                ),
        ensures
            exists|i: int| #[trigger]
                is_first_with_service(self.nodes@, QuickwitService::Indexer, i) && endpoint@
                    == "http://"@ + self.nodes@[i].config.grpc_listen_addr.as_text(),
    {
        self.channel(QuickwitService::Indexer)
    }

    fn endpoint_at(&self, i: usize) -> (endpoint: RestEndpoint)
        requires
            i < self.nodes@.len(),
        ensures
            endpoint.is_of(self.nodes@[i as int].config),
    {
        let config = &self.nodes[i].config;
        let tls_ca_path: Option<String> = match &config.rest_tls_ca_path {
            None => None,
            Some(path) => Some(path.clone()),
        };
        RestEndpoint { addr: config.rest_listen_addr, tls_ca_path }
    }

    /// Returns where the REST API of the first node with that name is, if there is one.
    pub fn rest_endpoint(&self, node_name: &str) -> (endpoint: Option<RestEndpoint>)
        ensures
            endpoint is None <==> forall|k: int|
                0 <= k < self.nodes@.len() ==> (#[trigger] self.nodes@[k]).node_name@ != node_name@,
            endpoint is Some ==> exists|i: int|
                #[trigger] is_first_with_name(self.nodes@, node_name@, i)
                    && (endpoint->0).is_of(self.nodes@[i].config),
    {
        match self.position_of(node_name) {
            None => None,
            Some(i) => {
                proof {
                    assert(is_first_with_name(self.nodes@, node_name@, i as int));
                }
                Some(self.endpoint_at(i))
            },
        }
    }

    /// Returns where the REST API of the first node that runs the service is. There must be one.
    pub fn endpoint_for_service(&self, service: QuickwitService) -> (endpoint: RestEndpoint)
        requires
            self.wf(),
            exists|i: int| 0 <= i < self.nodes@.len() && (#[trigger] self.nodes@[i]).runs(service),
        ensures
            is_endpoint_for_service(self.nodes@, service, endpoint),
    {
        let node_config = self.find_node_for_service(service);
        let ghost i = choose|i: int| #[trigger]
            is_first_with_service(self.nodes@, service, i) && *node_config
                == self.nodes@[i].config;
        proof {
            assert(is_first_with_service(self.nodes@, service, i) && *node_config
                == self.nodes@[i].config);
            assert(self.nodes@[i].node_name@ == node_config.node_id@);
        }
        match self.rest_endpoint(node_config.node_id.as_str()) {
            Some(endpoint) => endpoint,
            None => {
                proof {
                    assert(false);
                }
                RestEndpoint { addr: node_config.rest_listen_addr, tls_ca_path: None }
            },
        }
    }

    /// Waits for a number of nodes to be ready. The first node that runs the metastore is asked,
    /// and there must be one.
    pub fn wait_for_cluster_num_ready_nodes(&self, expected_num_ready_nodes: usize) -> (wait: Wait)
        requires
            self.wf(),
            exists|i: int|
                0 <= i < self.nodes@.len() && (#[trigger] self.nodes@[i]).runs(
                    QuickwitService::Metastore,
                ),
        ensures
            is_endpoint_for_service(self.nodes@, QuickwitService::Metastore, wait.endpoint),
            wait.expected == expected_num_ready_nodes,
            wait.policy == WaitPolicy::of_nodes(),
    {
        Wait {
            endpoint: self.endpoint_for_service(QuickwitService::Metastore),
            expected: expected_num_ready_nodes,
            policy: WaitPolicy { timeout_millis: 10_000, interval_millis: 100 },
        }
    }

    /// Waits for the needed number of indexing pipelines to start on the given indexer.
    pub fn wait_for_indexing_pipelines(
        &self,
        node_name: &str,
        required_pipeline_num: usize,
    ) -> (wait: Result<Wait, SandboxError>)
        ensures
            match wait {
                Ok(wait) => {
                    &&& exists|i: int| #[trigger]
                        is_first_with_name(self.nodes@, node_name@, i) && self.nodes@[i].runs(
                            QuickwitService::Indexer,
                        ) && wait.endpoint.is_of(self.nodes@[i].config)
                    &&& wait.expected == required_pipeline_num
                    &&& wait.policy == WaitPolicy::of_nodes()
                },
                Err(SandboxError::NoSuchNode) => forall|k: int|
                    0 <= k < self.nodes@.len() ==> (#[trigger] self.nodes@[k]).node_name@
                        != node_name@,
                Err(SandboxError::NotAnIndexer) => exists|i: int|
                    #[trigger] is_first_with_name(self.nodes@, node_name@, i)
                        && !self.nodes@[i].runs(QuickwitService::Indexer),
                Err(SandboxError::NoIndexerNode) => false,
            },
    {
        match self.indexer_position(node_name) {
            Err(error) => Err(error),
            Ok(i) => {
                let endpoint = self.endpoint_at(i);
                proof {
                    assert(is_first_with_name(self.nodes@, node_name@, i as int));
                }
                Ok(
                    Wait {
                        endpoint,
                        expected: required_pipeline_num,
                        policy: WaitPolicy { timeout_millis: 10_000, interval_millis: 100 },
                    },
                )
            },
        }
    }

    /// Waits for the needed number of splits. The first node that runs the metastore is asked, and
    /// there must be one.
    pub fn wait_for_splits(&self, required_splits_num: usize) -> (wait: Wait)
        requires
            self.wf(),
            exists|i: int|
                0 <= i < self.nodes@.len() && (#[trigger] self.nodes@[i]).runs(
                    QuickwitService::Metastore,
                ),
        ensures
            is_endpoint_for_service(self.nodes@, QuickwitService::Metastore, wait.endpoint),
            wait.expected == required_splits_num,
            wait.policy == WaitPolicy::of_splits(),
    {
        Wait {
            endpoint: self.endpoint_for_service(QuickwitService::Metastore),
            expected: required_splits_num,
            policy: WaitPolicy { timeout_millis: 15_000, interval_millis: 500 },
        }
    }

    /// Returns the position of the first node with that name, which has to be an indexer.
    pub fn indexer_position(&self, node_name: &str) -> (position: Result<usize, SandboxError>)
        ensures
            match position {
                Ok(i) => is_first_with_name(self.nodes@, node_name@, i as int)
                    && self.nodes@[i as int].runs(QuickwitService::Indexer),
                Err(SandboxError::NoSuchNode) => forall|k: int|
                    0 <= k < self.nodes@.len() ==> (#[trigger] self.nodes@[k]).node_name@
                        != node_name@,
                Err(SandboxError::NotAnIndexer) => exists|i: int|
                    #[trigger] is_first_with_name(self.nodes@, node_name@, i)
                        && !self.nodes@[i].runs(QuickwitService::Indexer),
                Err(SandboxError::NoIndexerNode) => false,
            },
    {
        match self.position_of(node_name) {
            None => Err(SandboxError::NoSuchNode),
            Some(i) => {
                if self.nodes[i].config.is_service_enabled(QuickwitService::Indexer) {
                    Ok(i)
                } else {
                    proof {
                        assert(is_first_with_name(self.nodes@, node_name@, i as int));
                    }
                    Err(SandboxError::NotAnIndexer)
                }
            },
        }
    }

    /// Plans to ingest documents on the first indexer.
    ///
    /// The data directory has a slug in it, to save us from multiple local ingestions trying to
    /// concurrently do something, and clean the directory up to start a new ingestion.
    pub fn local_ingest_with_slug(&self, slug: u64) -> (plan: Result<LocalIngestPlan, SandboxError>)
        ensures
            match plan {
                Ok(plan) => exists|i: int|
                    {
                        &&& #[trigger] is_first_with_service(
                            self.nodes@,
                            QuickwitService::Indexer,
                            i,
                        )
                        &&& plan.data_dir@ == joined_path(
                            self.nodes@[i].config.data_dir_path@,
                            text::decimal_digits(slug as nat),
                        )
                        &&& plan.node_config@ == local_ingest_config(
                            self.nodes@[i].config.metastore_uri@,
                            plan.data_dir@,
                        )
                    },
                Err(error) => error == SandboxError::NoIndexerNode && forall|k: int|
                    0 <= k < self.nodes@.len() ==> !(#[trigger] self.nodes@[k]).runs(
                        QuickwitService::Indexer,
                    ),
            },
    {
        match self.position_for_service(QuickwitService::Indexer) {
            None => Err(SandboxError::NoIndexerNode),
            Some(i) => {
                let config = &self.nodes[i].config;
                let slug_text = text::decimal(slug);
                let data_dir = join_path(config.data_dir_path.as_str(), slug_text.as_str());
                let quoted = quote_path(data_dir.as_str());
                let mut node_config = text::concat(
                    "\n                version: 0.8\n                metastore_uri: ",
                    config.metastore_uri.as_str(),
                );
                node_config.append("\n                data_dir: ");
                node_config.append(quoted.as_str());
                node_config.append("\n                ");
                proof {
                    assert(is_first_with_service(
                        self.nodes@,
                        QuickwitService::Indexer,
                        i as int,
                    ));
                }
                Ok(LocalIngestPlan { data_dir, node_config })
            },
        }
    }

    /// Plans to ingest documents on the first indexer, in a data directory with a random name.
    pub fn local_ingest(&self) -> (plan: Result<LocalIngestPlan, SandboxError>)
        ensures
            match plan {
                Ok(plan) => exists|i: int, slug: u64|
                    {
                        &&& #[trigger] is_first_with_service(
                            self.nodes@,
                            QuickwitService::Indexer,
                            i,
                        )
                        &&& plan.data_dir@ == joined_path(
                            self.nodes@[i].config.data_dir_path@,
                            #[trigger] text::decimal_digits(slug as nat),
                        )
                        &&& plan.node_config@ == local_ingest_config(
                            self.nodes@[i].config.metastore_uri@,
                            plan.data_dir@,
                        )
                    },
                Err(error) => error == SandboxError::NoIndexerNode && forall|k: int|
                    0 <= k < self.nodes@.len() ==> !(#[trigger] self.nodes@[k]).runs(
                        QuickwitService::Indexer,
                    ),
            },
    {
        let slug: u64 = random_slug();
        self.local_ingest_with_slug(slug)
    }

    /// Takes the nodes with those names out of the cluster, to be stopped. All nodes keep their
    /// order.
    pub fn shutdown_nodes(&mut self, node_names: &Vec<String>) -> (plan: ShutdownPlan<H>)
        ensures
            old(self).wf() ==> final(self).wf(),
            final(self).common_sandbox_configs == old(self).common_sandbox_configs,
            final(self).nodes@ == remaining_nodes(old(self).nodes@, texts(node_names@)),
            plan.indexers@ == stopped_indexers(old(self).nodes@, texts(node_names@)),
            plan.others@ == stopped_others(old(self).nodes@, texts(node_names@)),
    {
        let ghost all = self.nodes@;
        let ghost names = texts(node_names@);
        let mut nodes: Vec<ClusterNode<H>> = Vec::new();
        std::mem::swap(&mut nodes, &mut self.nodes);
        let mut kept: Vec<ClusterNode<H>> = Vec::new();
        let mut indexers: Vec<ClusterNode<H>> = Vec::new();
        let mut others: Vec<ClusterNode<H>> = Vec::new();
        proof {
            reveal(Seq::filter);
            assert(all.take(0) =~= Seq::empty());
            assert(kept@ =~= remaining_nodes(all.take(0), names));
            assert(indexers@ =~= stopped_indexers(all.take(0), names));
            assert(others@ =~= stopped_others(all.take(0), names));
        }
        for node in iter: nodes
            invariant
                iter.seq() == all,
                names == texts(node_names@),
                kept@ == remaining_nodes(all.take(iter.index()), names),
                indexers@ == stopped_indexers(all.take(iter.index()), names),
                others@ == stopped_others(all.take(iter.index()), names),
        {
            let ghost i = iter.index();
            proof {
                reveal(Seq::filter);
                assert(all.take(i + 1).drop_last() =~= all.take(i));
                assert(all.take(i + 1).last() == node);
            }
            if !has_name(&node.node_name, node_names) {
                kept.push(node);
            } else if node.config.is_service_enabled(QuickwitService::Indexer) {
                indexers.push(node);
            } else {
                others.push(node);
            }
        }
        proof {
            assert(all.take(all.len() as int) =~= all);
            if are_named_by_config(all) {
                law_shutdown_keeps_names(all, names);
            }
        }
        self.nodes = kept;
        ShutdownPlan { indexers, others }
    }

    /// Takes all nodes out of the cluster, to be stopped.
    pub fn shutdown(self) -> (plan: ShutdownPlan<H>)
        ensures
            plan.indexers@ == self.nodes@.filter(
                |node: ClusterNode<H>| node.runs(QuickwitService::Indexer),
            ),
            plan.others@ == self.nodes@.filter(
                |node: ClusterNode<H>| !node.runs(QuickwitService::Indexer),
            ),
    {
        let mut node_names: Vec<String> = Vec::new();
        for i in 0..self.nodes.len()
            invariant
                node_names@.len() == i,
                forall|k: int| 0 <= k < i ==> (#[trigger] node_names@[k])@ == self.nodes@[k].node_name@,
        {
            node_names.push(self.nodes[i].node_name.clone());
        }
        let ghost names = texts(node_names@);
        proof {
            assert forall|k: int| 0 <= k < self.nodes@.len() implies is_named(
                #[trigger] self.nodes@[k],
                names,
            ) by {
                assert(names[k] == self.nodes@[k].node_name@);
            }
            lemma_filters_agree(
                self.nodes@,
                |node: ClusterNode<H>|
                    is_named(node, names) && node.runs(QuickwitService::Indexer),
                |node: ClusterNode<H>| node.runs(QuickwitService::Indexer),
            );
            lemma_filters_agree(
                self.nodes@,
                |node: ClusterNode<H>|
                    is_named(node, names) && !node.runs(QuickwitService::Indexer),
                |node: ClusterNode<H>| !node.runs(QuickwitService::Indexer),
            );
        }
        let mut sandbox = self;
        sandbox.shutdown_nodes(&node_names)
    }

    /// Creates the configuration of a node that joins the cluster. All nodes of the cluster are its
    /// peer seeds.
    pub fn prepare_node(
        &self,
        node_name: String,
        services: Vec<QuickwitService>,
        rest_port: u16,
        grpc_port: u16,
    ) -> (config: NodeConfig)
        ensures
            config.is_assembled_from(
                self.common_sandbox_configs,
                node_name@,
                services@.to_set(),
                false,
                rest_port,
                grpc_port,
            ),
            texts(config.peer_seeds@) == gossip_addresses(self.configs()),
    {
        let sandbox_node_config = SandboxNodeConfig {
            node_name,
            services: ServiceSet::from_services(&services),
            enable_otlp: false,
        };
        let mut config = assemble_node_config(
            &self.common_sandbox_configs,
            &sandbox_node_config,
            rest_port,
            grpc_port,
        );
        let mut peer_seeds: Vec<String> = Vec::new();
        for i in 0..self.nodes.len()
            invariant
                peer_seeds@.len() == i,
                forall|k: int|
                    0 <= k < i ==> (#[trigger] peer_seeds@[k])@
                        == self.nodes@[k].config.gossip_advertise_addr.as_text(),
        {
            peer_seeds.push(self.nodes[i].config.gossip_advertise_addr.to_text());
        }
        proof {
            assert(texts(peer_seeds@) =~= gossip_addresses(self.configs()));
        }
        config.peer_seeds = peer_seeds;
        config
    }

    /// Adds a node that has started.
    pub fn add_node(&mut self, config: NodeConfig, shutdown_handle: H)
        ensures
            old(self).wf() ==> final(self).wf(),
            final(self).common_sandbox_configs == old(self).common_sandbox_configs,
            final(self).nodes@.len() == old(self).nodes@.len() + 1,
            final(self).nodes@.drop_last() == old(self).nodes@,
            final(self).nodes@.last().node_name@ == config.node_id@,
            final(self).nodes@.last().config == config,
            final(self).nodes@.last().shutdown_handle == shutdown_handle,
    {
        self.nodes.push(ClusterNode { node_name: config.node_id.clone(), config, shutdown_handle });
        proof {
            assert(self.nodes@.drop_last() =~= old(self).nodes@);
        }
    }
}

/// The values of some results, all of which are `Ok`.
pub open spec fn ok_values<T, E>(results: Seq<Result<T, E>>) -> Seq<T> {
    results.map_values(|result: Result<T, E>| result->Ok_0)
}

/// Whether `i` is the first result that is an error.
pub open spec fn is_first_error<T, E>(results: Seq<Result<T, E>>, i: int) -> bool {
    &&& 0 <= i < results.len()
    &&& results[i] is Err
    &&& forall|k: int| 0 <= k < i ==> #[trigger] results[k] is Ok
}

/// Collects how nodes exited: indexers first. The first error is returned, if there is one.
#[verifier::loop_isolation(false)]
pub fn collect_exit_statuses<T, E>(
    indexers: Vec<Result<T, E>>,
    others: Vec<Result<T, E>>,
) -> (exit_statuses: Result<Vec<T>, E>)
    ensures
        match exit_statuses {
            Ok(statuses) => {
                &&& forall|k: int|
                    0 <= k < (indexers@ + others@).len() ==> #[trigger] (indexers@ + others@)[k] is Ok
                &&& statuses@ == ok_values(indexers@ + others@)
            },
            Err(error) => exists|i: int|
                #[trigger] is_first_error(indexers@ + others@, i) && (indexers@ + others@)[i]
                    == Err::<T, E>(error),
        },
{
    let ghost first = indexers@;
    let ghost results = indexers@ + others@;
    let mut statuses: Vec<T> = Vec::new();
    for result in iter: indexers
        invariant
            iter.seq() == first,
            results.len() >= first.len(),
            first == results.take(first.len() as int),
            statuses@.len() == iter.index(),
            forall|k: int|
                0 <= k < iter.index() ==> #[trigger] results[k] is Ok && statuses@[k]
                    == results[k]->Ok_0,
    {
        proof {
            assert(results[iter.index()] == first[iter.index()]);
        }
        match result {
            Ok(status) => {
                statuses.push(status);
            },
            Err(error) => {
                proof {
                    assert(is_first_error(results, iter.index()));
                }
                return Err(error);
            },
        }
    }
    let ghost second = others@;
    for result in iter: others
        invariant
            iter.seq() == second,
            results == first + second,
            statuses@.len() == first.len() + iter.index(),
            forall|k: int|
                0 <= k < first.len() + iter.index() ==> #[trigger] results[k] is Ok && statuses@[k]
                    == results[k]->Ok_0,
    {
        proof {
            assert(results[first.len() + iter.index()] == second[iter.index()]);
        }
        match result {
            Ok(status) => {
                statuses.push(status);
            },
            Err(error) => {
                proof {
                    assert(is_first_error(results, first.len() + iter.index()));
                }
                return Err(error);
            },
        }
    }
    proof {
        assert(statuses@ =~= ok_values(results));
    }
    Ok(statuses)
}

proof fn lemma_filters_agree<A>(
    items: Seq<A>,
    one: spec_fn(A) -> bool,
    other: spec_fn(A) -> bool,
)
    requires
        forall|k: int| 0 <= k < items.len() ==> one(#[trigger] items[k]) == other(items[k]),
    ensures
        items.filter(one) == items.filter(other),
    decreases items.len(),
{
    reveal(Seq::filter);
    if items.len() > 0 {
        assert forall|k: int| 0 <= k < items.drop_last().len() implies one(
            #[trigger] items.drop_last()[k],
        ) == other(items.drop_last()[k]) by {
            assert(items.drop_last()[k] == items[k]);
        }
        lemma_filters_agree(items.drop_last(), one, other);
    }
}

proof fn lemma_filter_holds<A>(items: Seq<A>, keep: spec_fn(A) -> bool, item: A)
    ensures
        items.filter(keep).contains(item) <==> items.contains(item) && keep(item),
    decreases items.len(),
{
    reveal(Seq::filter);
    if items.len() > 0 {
        let rest = items.drop_last();
        let last = items.last();
        lemma_filter_holds(rest, keep, item);
        assert(items =~= rest.push(last));
        assert(items.contains(item) <==> rest.contains(item) || item == last) by {
            if rest.contains(item) {
                let i = choose|i: int| 0 <= i < rest.len() && rest[i] == item;
                assert(items[i] == item);
            }
            if item == last {
                assert(items[items.len() - 1] == item);
            }
        }
        let kept = rest.filter(keep);
        assert(kept.push(last).contains(item) <==> kept.contains(item) || item == last) by {
            if kept.contains(item) {
                let i = choose|i: int| 0 <= i < kept.len() && kept[i] == item;
                assert(kept.push(last)[i] == item);
            }
            if item == last {
                assert(kept.push(last)[kept.len() as int] == item);
            }
        }
    }
}

proof fn lemma_other_addresses(addresses: Seq<Seq<char>>, own: Seq<char>, address: Seq<char>)
    ensures
        other_addresses(addresses, own).contains(address) <==> addresses.contains(address)
            && address != own,
{
    lemma_filter_holds(addresses, is_not(own), address);
}

/// In a cluster that starts, no node is its own peer seed, and the peer seeds of a node are the
/// addresses of all nodes that have another one.
pub proof fn law_peer_seeds_are_the_other_nodes(
    configs: Seq<NodeConfig>,
    i: int,
    address: Seq<char>,
)
    requires
        0 <= i < configs.len(),
    ensures
        ({
            let own = configs[i].gossip_advertise_addr.as_text();
            let seeds = other_addresses(gossip_addresses(configs), own);
            &&& !seeds.contains(own)
            &&& seeds.contains(address) <==> address != own && exists|k: int|
                0 <= k < configs.len() && (#[trigger] configs[k]).gossip_advertise_addr.as_text()
                    == address
        }),
{
    let own = configs[i].gossip_advertise_addr.as_text();
    let addresses = gossip_addresses(configs);
    lemma_other_addresses(addresses, own, own);
    lemma_other_addresses(addresses, own, address);
    if addresses.contains(address) {
        let k = choose|k: int| 0 <= k < addresses.len() && addresses[k] == address;
        assert(configs[k].gossip_advertise_addr.as_text() == address);
    }
    if exists|k: int|
        0 <= k < configs.len() && (#[trigger] configs[k]).gossip_advertise_addr.as_text()
            == address {
        let k = choose|k: int|
            0 <= k < configs.len() && (#[trigger] configs[k]).gossip_advertise_addr.as_text()
                == address;
        assert(addresses[k] == address);
    }
}

/// Nodes that reserved different ports have different addresses.
pub proof fn law_addresses_are_distinct(one: LocalAddr, other: LocalAddr)
    ensures
        one.as_text() == other.as_text() <==> one == other,
{
    if one.as_text() == other.as_text() {
        let prefix = "127.0.0.1:"@;
        let a = text::decimal_digits(one.port as nat);
        let b = text::decimal_digits(other.port as nat);
        assert(a =~= one.as_text().skip(prefix.len() as int));
        assert(b =~= other.as_text().skip(prefix.len() as int));
        text::lemma_decimal_injective(one.port as nat, other.port as nat);
    }
}

/// A shutdown loses no node, and stops none twice: each node is left in the cluster, or is among
/// the indexers that stop, or among the other nodes that stop.
pub proof fn law_shutdown_loses_no_node<H>(nodes: Seq<ClusterNode<H>>, names: Seq<Seq<char>>)
    ensures
        nodes.to_multiset() == remaining_nodes(nodes, names).to_multiset().add(
            stopped_indexers(nodes, names).to_multiset(),
        ).add(stopped_others(nodes, names).to_multiset()),
    decreases nodes.len(),
{
    broadcast use vstd::seq_lib::group_to_multiset_ensures;

    reveal(Seq::filter);
    let kept = remaining_nodes(nodes, names);
    let indexers = stopped_indexers(nodes, names);
    let others = stopped_others(nodes, names);
    if nodes.len() == 0 {
        assert(nodes.to_multiset() =~= kept.to_multiset().add(indexers.to_multiset()).add(
            others.to_multiset(),
        ));
    } else {
        let rest = nodes.drop_last();
        law_shutdown_loses_no_node(rest, names);
        assert(nodes =~= rest.push(nodes.last()));
        assert(nodes.to_multiset() =~= rest.to_multiset().insert(nodes.last()));
        assert(nodes.to_multiset() =~= kept.to_multiset().add(indexers.to_multiset()).add(
            others.to_multiset(),
        ));
    }
}

/// A shutdown leaves every node the name that it is configured with.
pub proof fn law_shutdown_keeps_names<H>(nodes: Seq<ClusterNode<H>>, names: Seq<Seq<char>>)
    requires
        are_named_by_config(nodes),
    ensures
        are_named_by_config(remaining_nodes(nodes, names)),
{
    let kept = remaining_nodes(nodes, names);
    assert forall|i: int| 0 <= i < kept.len() implies (#[trigger] kept[i]).node_name@
        == kept[i].config.node_id@ by {
        lemma_filter_holds(nodes, |n: ClusterNode<H>| !is_named(n, names), kept[i]);
        assert(kept.contains(kept[i]));
        let k = choose|k: int| 0 <= k < nodes.len() && nodes[k] == kept[i];
        assert(nodes[k].node_name@ == nodes[k].config.node_id@);
    }
}

/// Only nodes with one of the names stop, and only indexers are among those that stop first.
pub proof fn law_only_named_nodes_stop<H>(
    nodes: Seq<ClusterNode<H>>,
    names: Seq<Seq<char>>,
    node: ClusterNode<H>,
)
    ensures
        remaining_nodes(nodes, names).contains(node) <==> nodes.contains(node) && !is_named(
            node,
            names,
        ),
        stopped_indexers(nodes, names).contains(node) <==> nodes.contains(node) && is_named(
            node,
            names,
        ) && node.runs(QuickwitService::Indexer),
        stopped_others(nodes, names).contains(node) <==> nodes.contains(node) && is_named(
            node,
            names,
        ) && !node.runs(QuickwitService::Indexer),
{
    lemma_filter_holds(nodes, |n: ClusterNode<H>| !is_named(n, names), node);
    lemma_filter_holds(
        nodes,
        |n: ClusterNode<H>| is_named(n, names) && n.runs(QuickwitService::Indexer),
        node,
    );
    lemma_filter_holds(
        nodes,
        |n: ClusterNode<H>| is_named(n, names) && !n.runs(QuickwitService::Indexer),
        node,
    );
}

/// Each setting of a node is the one that the cluster or the node asks for. It gossips on the port of
/// its REST API, without TLS. Its data is below the directory of the cluster, under its own name.
pub proof fn law_node_is_configured_as_asked(
    config: NodeConfig,
    common_configs: SandboxCommonConfigs,
    node_name: Seq<char>,
    services: Set<QuickwitService>,
    enable_otlp: bool,
    rest_port: u16,
    grpc_port: u16,
)
    requires
        config.is_assembled_from(
            common_configs,
            node_name,
            services,
            enable_otlp,
            rest_port,
            grpc_port,
        ),
    ensures
        config.cluster_id@ == common_configs.cluster_id@,
        config.node_id@ == node_name,
        config.enabled_services@ == services,
        config.rest_listen_addr.port == rest_port,
        config.gossip_advertise_addr.port == rest_port,
        config.grpc_listen_addr.port == grpc_port,
        config.rest_tls_ca_path is None,
        config.metastore_uri@ == common_configs.metastore_uri@,
        config.default_index_root_uri@ == common_configs.default_index_root_uri@,
        config.enable_otlp_endpoint == enable_otlp,
        config.enable_jaeger_endpoint,
        node_name.len() > 0 && node_name[0] != '/' && common_configs.root_data_dir@.len() > 0
            && common_configs.root_data_dir@.last() != '/' ==> config.data_dir_path@
            == common_configs.root_data_dir@ + seq!['/'] + node_name,
{
}

/// A path in a directory is the directory, one separator and the path, whether or not the directory
/// ends with a separator. An absolute path is itself, and so is one in no directory.
pub proof fn law_one_separator_joins_paths(directory: Seq<char>, path: Seq<char>)
    requires
        path.len() > 0,
    ensures
        path[0] == '/' ==> joined_path(directory, path) == path,
        path[0] != '/' ==> {
            &&& joined_path(Seq::empty(), path) == path
            &&& joined_path(directory.push('/'), path) == directory + seq!['/'] + path
            &&& directory.len() > 0 && directory.last() != '/' ==> joined_path(directory, path)
                == directory + seq!['/'] + path
        },
{
    if path[0] != '/' {
        assert(joined_path(Seq::empty(), path) =~= path);
        assert(joined_path(directory.push('/'), path) =~= directory + seq!['/'] + path);
    }
}

/// The address of a node is that of this machine, with its port.
pub proof fn law_address_has_the_port(addr: LocalAddr)
    ensures
        addr.as_text().take(10) == "127.0.0.1:"@,
        text::decimal_value(addr.as_text().skip(10)) == addr.port,
{
    reveal_strlit("127.0.0.1:");
    text::law_decimal_digits_write_the_number(addr.port as nat);
    assert(addr.as_text().take(10) =~= "127.0.0.1:"@);
    assert(addr.as_text().skip(10) =~= text::decimal_digits(addr.port as nat));
}

/// The seeds of a node are the addresses of the cluster, in order, without its own.
pub proof fn law_seeds_keep_their_order(
    a: Seq<Seq<char>>,
    b: Seq<Seq<char>>,
    own: Seq<char>,
    address: Seq<char>,
)
    ensures
        other_addresses(a + b, own) == other_addresses(a, own) + other_addresses(b, own),
        address != own ==> other_addresses(seq![address], own) == seq![address],
        other_addresses(seq![own], own) == Seq::<Seq<char>>::empty(),
{
    reveal(Seq::filter);
    reveal_with_fuel(Seq::filter, 2);
    Seq::filter_distributes_over_add(a, b, is_not(own));
    assert(seq![address].drop_last() =~= Seq::empty());
    assert(seq![own].drop_last() =~= Seq::empty());
    assert(other_addresses(seq![own], own) =~= Seq::empty());
    if address != own {
        assert(other_addresses(seq![address], own) =~= seq![address]);
    }
}

/// The first node that runs a service, or has a name, is unique: it runs the service, or has the
/// name, and no node before it does.
pub proof fn law_first_node_answers<H>(
    nodes: Seq<ClusterNode<H>>,
    service: QuickwitService,
    name: Seq<char>,
    i: int,
    k: int,
)
    ensures
        is_first_with_service(nodes, service, i) ==> 0 <= i < nodes.len()
            && nodes[i].config.enabled_services@.contains(service) && (0 <= k < i
            ==> !nodes[k].config.enabled_services@.contains(service)),
        is_first_with_service(nodes, service, i) && is_first_with_service(nodes, service, k) ==> i
            == k,
        is_first_with_name(nodes, name, i) ==> 0 <= i < nodes.len() && nodes[i].node_name@ == name
            && (0 <= k < i ==> nodes[k].node_name@ != name),
        is_first_with_name(nodes, name, i) && is_first_with_name(nodes, name, k) ==> i == k,
        0 <= i < nodes.len() && nodes[i].config.enabled_services@.contains(service) && (forall|m: int|
            0 <= m < i ==> !(#[trigger] nodes[m]).config.enabled_services@.contains(service))
            ==> is_first_with_service(nodes, service, i),
        0 <= i < nodes.len() && nodes[i].node_name@ == name && (forall|m: int|
            0 <= m < i ==> (#[trigger] nodes[m]).node_name@ != name) ==> is_first_with_name(
            nodes,
            name,
            i,
        ),
{
    if is_first_with_service(nodes, service, i) && is_first_with_service(nodes, service, k) {
        if i < k {
            assert(!nodes[i].runs(service));
        }
        if k < i {
            assert(!nodes[k].runs(service));
        }
    }
    if is_first_with_service(nodes, service, i) && 0 <= k < i {
        assert(!nodes[k].runs(service));
    }
    if is_first_with_name(nodes, name, i) && is_first_with_name(nodes, name, k) {
        if i < k {
            assert(nodes[i].node_name@ != name);
        }
        if k < i {
            assert(nodes[k].node_name@ != name);
        }
    }
    if is_first_with_name(nodes, name, i) && 0 <= k < i {
        assert(nodes[k].node_name@ != name);
    }
}

/// A node stops if its name is one of those given: an indexer among the first, any other node among
/// the rest. All other nodes stay.
pub proof fn law_names_tell_which_nodes_stop<H>(
    nodes: Seq<ClusterNode<H>>,
    names: Seq<Seq<char>>,
    i: int,
)
    requires
        0 <= i < nodes.len(),
    ensures
        ({
            let node = nodes[i];
            let named = exists|k: int| 0 <= k < names.len() && #[trigger] names[k] == node.node_name@;
            let indexes = node.config.enabled_services@.contains(QuickwitService::Indexer);
            &&& remaining_nodes(nodes, names).contains(node) <==> !named
            &&& stopped_indexers(nodes, names).contains(node) <==> named && indexes
            &&& stopped_others(nodes, names).contains(node) <==> named && !indexes
        }),
{
    law_only_named_nodes_stop(nodes, names, nodes[i]);
    assert(nodes.contains(nodes[i]));
}

/// Nodes keep their order, whether they stay or stop.
pub proof fn law_nodes_keep_their_order<H>(
    a: Seq<ClusterNode<H>>,
    b: Seq<ClusterNode<H>>,
    names: Seq<Seq<char>>,
)
    ensures
        remaining_nodes(a + b, names) == remaining_nodes(a, names) + remaining_nodes(b, names),
        stopped_indexers(a + b, names) == stopped_indexers(a, names) + stopped_indexers(b, names),
        stopped_others(a + b, names) == stopped_others(a, names) + stopped_others(b, names),
{
    Seq::filter_distributes_over_add(a, b, |node: ClusterNode<H>| !is_named(node, names));
    Seq::filter_distributes_over_add(
        a,
        b,
        |node: ClusterNode<H>| is_named(node, names) && node.runs(QuickwitService::Indexer),
    );
    Seq::filter_distributes_over_add(
        a,
        b,
        |node: ClusterNode<H>| is_named(node, names) && !node.runs(QuickwitService::Indexer),
    );
}

/// Each text makes a line, which ends with a line feed. Lines follow each other.
pub proof fn law_each_text_makes_a_line(a: Seq<Seq<char>>, b: Seq<Seq<char>>, content: Seq<char>)
    ensures
        lines(a + b) == lines(a) + lines(b),
        lines(seq![content]) == content + seq!['\n'],
        lines(Seq::empty()) == Seq::<char>::empty(),
    decreases b.len(),
{
    reveal_with_fuel(lines, 2);
    reveal_strlit("\n");
    let single = seq![content];
    assert(single.drop_last() =~= Seq::empty());
    assert("\n"@ =~= seq!['\n']);
    assert(lines(single) =~= content + seq!['\n']);
    if b.len() == 0 {
        assert(a + b =~= a);
        assert(lines(a) + lines(b) =~= lines(a));
    } else {
        law_each_text_makes_a_line(a, b.drop_last(), content);
        assert((a + b).drop_last() =~= a + b.drop_last());
        assert((a + b).last() == b.last());
        assert(lines(a + b) =~= lines(a) + lines(b));
    }
}

/// Nodes and pipelines are waited for 10s, and asked every 100ms. Splits are waited for 15s, and
/// asked every 500ms.
pub proof fn law_waits()
    ensures
        WaitPolicy::of_nodes().timeout_millis == 10_000,
        WaitPolicy::of_nodes().interval_millis == 100,
        WaitPolicy::of_splits().timeout_millis == 15_000,
        WaitPolicy::of_splits().interval_millis == 500,
{
}

/// The configuration to ingest with has the URI of the metastore and the quoted data directory, each
/// on a line of its own after its key.
pub proof fn law_ingest_config_has_both_settings(metastore_uri: Seq<char>, data_dir: Seq<char>)
    ensures
        text::occurs_in(
            local_ingest_config(metastore_uri, data_dir),
            "metastore_uri: "@ + metastore_uri + "\n"@,
        ),
        text::occurs_in(
            local_ingest_config(metastore_uri, data_dir),
            "data_dir: "@ + quoted_path(data_dir) + "\n"@,
        ),
        text::occurs_in(local_ingest_config(metastore_uri, data_dir), "version: 0.8\n"@),
{
    reveal_strlit("\n                version: 0.8\n                metastore_uri: ");
    reveal_strlit("\n                data_dir: ");
    reveal_strlit("\n                ");
    reveal_strlit("metastore_uri: ");
    reveal_strlit("data_dir: ");
    reveal_strlit("version: 0.8\n");
    reveal_strlit("\n");
    let config = local_ingest_config(metastore_uri, data_dir);
    let head = "\n                version: 0.8\n                metastore_uri: "@;
    let middle = "\n                data_dir: "@;
    let key = "metastore_uri: "@;
    let first = key + metastore_uri + "\n"@;
    let at = head.len() - key.len();
    assert(config.subrange(at, at + first.len()) =~= first);
    assert(text::occurs_at(config, first, at));
    let data_key = "data_dir: "@;
    let second = data_key + quoted_path(data_dir) + "\n"@;
    let data_at = head.len() + metastore_uri.len() + middle.len() - data_key.len();
    assert(config.subrange(data_at, data_at + second.len()) =~= second);
    assert(text::occurs_at(config, second, data_at));
    let version = "version: 0.8\n"@;
    let version_at: int = 17;
    assert(config.subrange(version_at, version_at + version.len()) =~= version);
    assert(text::occurs_at(config, version, version_at));
}

/// The REST API of a node is where the node listens, with the certificate that it is configured with.
/// The one for a service is that of the node that goes by the name of the first node that runs it.
pub proof fn law_endpoint_is_where_the_node_listens<H>(
    endpoint: RestEndpoint,
    nodes: Seq<ClusterNode<H>>,
    service: QuickwitService,
)
    requires
        is_endpoint_for_service(nodes, service, endpoint),
    ensures
        exists|i: int, j: int|
            {
                &&& 0 <= i < nodes.len()
                &&& 0 <= j < nodes.len()
                &&& #[trigger] nodes[i].config.enabled_services@.contains(service)
                &&& forall|k: int|
                    0 <= k < i ==> !(#[trigger] nodes[k]).config.enabled_services@.contains(service)
                &&& #[trigger] nodes[j].node_name@ == nodes[i].config.node_id@
                &&& forall|k: int|
                    0 <= k < j ==> (#[trigger] nodes[k]).node_name@ != nodes[i].config.node_id@
                &&& endpoint.addr.port == nodes[j].config.rest_listen_addr.port
                &&& endpoint.tls_ca_path == nodes[j].config.rest_tls_ca_path
            },
{
    let (i, j) = choose|i: int, j: int|
        {
            &&& #[trigger] is_first_with_service(nodes, service, i)
            &&& #[trigger] is_first_with_name(nodes, nodes[i].config.node_id@, j)
            &&& endpoint.is_of(nodes[j].config)
        };
    assert(nodes[i].config.enabled_services@.contains(service));
    assert(nodes[j].node_name@ == nodes[i].config.node_id@);
    assert forall|k: int| 0 <= k < i implies !(
    #[trigger] nodes[k]).config.enabled_services@.contains(service) by {
        assert(!nodes[k].runs(service));
    }
}

/// The values of results are taken in order, and the first error is the one that no error precedes.
pub proof fn law_results_in_order<T, E>(results: Seq<Result<T, E>>, i: int, k: int)
    ensures
        ok_values(results).len() == results.len(),
        0 <= i < results.len() && results[i] is Ok ==> results[i] == Ok::<T, E>(
            ok_values(results)[i],
        ),
        is_first_error(results, i) <==> 0 <= i < results.len() && results[i] is Err && forall|j: int|
            0 <= j < i ==> !(#[trigger] results[j] is Err),
{
}

/// The gossip addresses of nodes, and their configurations, are listed node by node.
pub proof fn law_nodes_are_listed<H>(sandbox: ClusterSandbox<H>, configs: Seq<NodeConfig>, i: int)
    ensures
        gossip_addresses(configs).len() == configs.len(),
        0 <= i < configs.len() ==> gossip_addresses(configs)[i]
            == configs[i].gossip_advertise_addr.as_text(),
        sandbox.configs().len() == sandbox.nodes@.len(),
        0 <= i < sandbox.nodes@.len() ==> sandbox.configs()[i] == sandbox.nodes@[i].config,
{
}

} // verus!
