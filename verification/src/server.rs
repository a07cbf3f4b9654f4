use vstd::prelude::*;

use crate::handler::RequestHandler;
use crate::logging::LoggingService;
use crate::registry::ConnectionRegistry;

verus! {

/// Where the two listeners bind: the public HTTP port, the tunnel port, and
/// the host address both bind to.
#[derive(Debug, Clone)]
pub struct ServerConfig {
    pub http_port: u16,
    pub ws_port: u16,
    pub host: String,
}

impl Default for ServerConfig {
    /// The stock configuration: HTTP on 8889, tunnel on 9998, bound on all
    /// interfaces.
    fn default() -> (r: Self)
        ensures
            r.http_port == 8889,
            r.ws_port == 9998,
            r.host@ == "0.0.0.0"@,
    {
        ServerConfig { http_port: 8889, ws_port: 9998, host: "0.0.0.0".to_owned() }
    }
}

/// The assembled proxy: its configuration, its logger, and the request
/// handler (which owns the connection registry). Binding the listeners and
/// pumping the sockets is the embedding program's business.
pub struct ProxyServerSystem {
    pub config: ServerConfig,
    pub logger: LoggingService,
    pub request_handler: RequestHandler,
}

impl ProxyServerSystem {
    /// A fresh proxy over an empty registry, under the given configuration
    /// or the stock one.
    pub fn new(config: Option<ServerConfig>) -> (r: Self)
        ensures
            match config {
                Some(c) => r.config == c,
                None => r.config.http_port == 8889 && r.config.ws_port == 9998 && r.config.host@
                    == "0.0.0.0"@,
            },
            r.logger.service_name@ == "ProxyServer"@,
            r.request_handler.logger.service_name@ == "ProxyServer"@,
            r.request_handler.connection_registry.connections@ == Seq::<u64>::empty(),
            r.request_handler.connection_registry.message_queues@ == Seq::<
                crate::registry::QueueEntry,
            >::empty(),
            r.request_handler.connection_registry.wf(),
    {
        let config = match config {
            Some(c) => c,
            None => ServerConfig::default(),
        };
        let logger = LoggingService::new("ProxyServer");
        let connection_registry = ConnectionRegistry::new(LoggingService::new("ProxyServer"));
        let request_handler = RequestHandler::new(
            connection_registry,
            LoggingService::new("ProxyServer"),
        );
        ProxyServerSystem { config, logger, request_handler }
    }
}

} // verus!
