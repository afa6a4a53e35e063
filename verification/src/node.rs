//! A node: its settled configuration, and what its indexer publishes to its
//! request handlers.
use crate::config::Config;
use crate::deployment::{CompiledDeployment, DeploymentSpec};
use crate::storage::IndexerState;
use vstd::prelude::*;

verus! {

/// What the indexer publishes to request handlers.
#[derive(Debug, Clone, Copy, PartialEq, Eq, Structural)]
pub struct Published {
    /// Latest ledger of the network, zero while unknown.
    pub ledger_tip: u32,
    /// Oldest ledger that upstream reported, zero while unknown.
    pub oldest_ledger: u32,
    /// Whether indexing has once reached the retention cutoff.
    pub archive_ready: bool,
}

/// Shared runtime state for HTTP handlers and the background indexer.
#[derive(Debug)]
pub struct AppState {
    pub cfg: Config,
    pub contract_ids: Vec<String>,
    pub min_deployment_ledger: u32,
    /// What is published before the indexer has run.
    pub published: Published,
}

/// A node that is ready to serve.
#[derive(Debug)]
pub struct Bootnode {
    pub state: AppState,
}

impl Bootnode {
    /// The node over a deployment, going on from the stored progress of its indexer.
    pub open spec fn over(cfg: Config, indexer: IndexerState, deployment: DeploymentSpec) -> Self {
        Bootnode {
            state: AppState {
                cfg,
                contract_ids: deployment.contract_ids,
                min_deployment_ledger: deployment.min_deployment_ledger,
                published: Published {
                    ledger_tip: if cfg.initial_ledger_tip >= indexer.ledger_tip {
                        cfg.initial_ledger_tip
                    } else {
                        indexer.ledger_tip
                    },
                    oldest_ledger: indexer.oldest_ledger,
                    archive_ready: indexer.archive_ready,
                },
            },
        }
    }

    /// A node goes on from the larger of the configured and the stored tip, from
    /// the stored oldest ledger and the stored readiness, over the contracts and
    /// the first ledger of its deployment and with the configuration it got.
    pub proof fn node_goes_on_from_what_is_stored(
        cfg: Config,
        indexer: IndexerState,
        deployment: DeploymentSpec,
    )
        ensures
            ({
                let state = Self::over(cfg, indexer, deployment).state;
                let tip = state.published.ledger_tip;
                &&& tip >= indexer.ledger_tip
                &&& tip >= cfg.initial_ledger_tip
                &&& tip == indexer.ledger_tip || tip == cfg.initial_ledger_tip
                &&& state.published.oldest_ledger == indexer.oldest_ledger
                &&& state.published.archive_ready == indexer.archive_ready
                &&& state.cfg == cfg
                &&& state.contract_ids == deployment.contract_ids
                &&& state.min_deployment_ledger == deployment.min_deployment_ledger
            }),
    {
    }

    /// Sets up a node over the compiled-in deployment. `load` is asked for only
    /// where there is a deployment; here it is what the storage then answered.
    pub fn setup(
        cfg: Config,
        load: Result<IndexerState, String>,
        deployment: Result<CompiledDeployment, String>,
    ) -> (r: Result<Self, String>)
        ensures
            match deployment {
                Err(e) => r == Err::<Bootnode, String>(e),
                Ok(d) => match (d.min_deployment_ledger, load) {
                    (Err(e), _) => r == Err::<Bootnode, String>(e),
                    (Ok(_), Err(e)) => r == Err::<Bootnode, String>(e),
                    (Ok(min_deployment_ledger), Ok(indexer)) => r == Ok::<Bootnode, String>(
                        Self::over(
                            cfg,
                            indexer,
                            DeploymentSpec { contract_ids: d.contract_ids, min_deployment_ledger },
                        ),
                    ),
                },
            },
    {
        match DeploymentSpec::from_compiled(deployment) {
            Err(e) => Err(e),
            Ok(deployment) => Self::setup_with_deployment(cfg, load, deployment),
        }
    }

    /// Sets up a node over a deployment, with what the storage answered when
    /// asked for the progress of the indexer.
    pub fn setup_with_deployment(
        cfg: Config,
        load: Result<IndexerState, String>,
        deployment: DeploymentSpec,
    ) -> (r: Result<Self, String>)
        ensures
            r == match load {
                Err(e) => Err::<Bootnode, String>(e),
                Ok(indexer) => Ok(Self::over(cfg, indexer, deployment)),
            },
            load is Ok <==> r is Ok,
            r matches Ok(node) ==> {
                let tip = node.state.published.ledger_tip;
                &&& tip >= load->Ok_0.ledger_tip
                &&& tip >= cfg.initial_ledger_tip
                &&& tip == load->Ok_0.ledger_tip || tip == cfg.initial_ledger_tip
                &&& node.state.published.oldest_ledger == load->Ok_0.oldest_ledger
                &&& node.state.published.archive_ready == load->Ok_0.archive_ready
                &&& node.state.cfg == cfg
                &&& node.state.contract_ids == deployment.contract_ids
                &&& node.state.min_deployment_ledger == deployment.min_deployment_ledger
            },
    {
        match load {
            Err(e) => Err(e),
            Ok(indexer) => {
                let ledger_tip: u32 = if cfg.initial_ledger_tip >= indexer.ledger_tip {
                    cfg.initial_ledger_tip
                } else {
                    indexer.ledger_tip
                };
                Ok(
                    Bootnode {
                        state: AppState {
                            cfg,
                            contract_ids: deployment.contract_ids,
                            min_deployment_ledger: deployment.min_deployment_ledger,
                            published: Published {
                                ledger_tip,
                                oldest_ledger: indexer.oldest_ledger,
                                archive_ready: indexer.archive_ready,
                            },
                        },
                    },
                )
            },
        }
    }
}

/// What ends the service of a node.
#[derive(Debug)]
pub enum ServeEnd {
    /// The server stopped, or failed with this message.
    Server(Result<(), String>),
    /// The indexer stopped.
    Indexer,
    /// The user interrupted.
    Interrupt,
}

/// What is left to do when the service of a node ends.
#[derive(Debug)]
pub struct Shutdown {
    pub abort_indexer: bool,
    pub abort_server: bool,
    /// The result of the service.
    pub result: Result<(), String>,
}

impl Bootnode {
    /// How the service ends: with the server it succeeds or fails as that did,
    /// and the indexer is aborted; an indexer that stops is a failure, and the
    /// server is aborted; an interrupt is a success.
    pub fn serve(end: ServeEnd) -> (r: Shutdown)
        ensures
            match end {
                ServeEnd::Server(result) => r == (Shutdown {
                    abort_indexer: true,
                    abort_server: false,
                    result,
                }),
                ServeEnd::Indexer => !r.abort_indexer && r.abort_server && (r.result matches Err(e)
                    && e@ == "indexer task exited unexpectedly"@),
                ServeEnd::Interrupt => r == (Shutdown {
                    abort_indexer: false,
                    abort_server: false,
                    result: Ok(()),
                }),
            },
    {
        match end {
            ServeEnd::Server(result) => Shutdown {
                abort_indexer: true,
                abort_server: false,
                result,
            },
            ServeEnd::Indexer => Shutdown {
                abort_indexer: false,
                abort_server: true,
                result: Err("indexer task exited unexpectedly".to_owned()),
            },
            ServeEnd::Interrupt => Shutdown {
                abort_indexer: false,
                abort_server: false,
                result: Ok(()),
            },
        }
    }
}

} // verus!
