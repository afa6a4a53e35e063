//! The deployment that a node indexes and serves.
use vstd::prelude::*;

verus! {

/// What the configuration that was compiled in says of the deployment.
#[derive(Debug)]
pub struct CompiledDeployment {
    /// Every contract of the deployment.
    pub contract_ids: Vec<String>,
    /// The first ledger of the deployment, or why there is none.
    pub min_deployment_ledger: Result<u32, String>,
}

/// Contract set + genesis ledger the bootnode indexes and will serve.
#[derive(Debug)]
pub struct DeploymentSpec {
    pub contract_ids: Vec<String>,
    pub min_deployment_ledger: u32,
}

impl Clone for DeploymentSpec {
    fn clone(&self) -> (r: Self)
        ensures
            r.contract_ids@ == self.contract_ids@,
            r.min_deployment_ledger == self.min_deployment_ledger,
    {
        let contract_ids = self.contract_ids.clone();
        assert(contract_ids@ =~= self.contract_ids@);
        DeploymentSpec { contract_ids, min_deployment_ledger: self.min_deployment_ledger }
    }
}

impl DeploymentSpec {
    /// Reads the deployment out of the compiled-in configuration; where that
    /// cannot be had, or names no first ledger, says why.
    pub fn from_compiled(deployment: Result<CompiledDeployment, String>) -> (r: Result<
        Self,
        String,
    >)
        ensures
            match deployment {
                Err(e) => r == Err::<DeploymentSpec, String>(e),
                Ok(d) => match d.min_deployment_ledger {
                    Err(e) => r == Err::<DeploymentSpec, String>(e),
                    Ok(min_deployment_ledger) => r == Ok::<DeploymentSpec, String>(
                        DeploymentSpec { contract_ids: d.contract_ids, min_deployment_ledger },
                    ),
                },
            },
    {
        match deployment {
            Err(e) => Err(e),
            Ok(d) => match d.min_deployment_ledger {
                Err(e) => Err(e),
                Ok(min_deployment_ledger) => Ok(
                    DeploymentSpec { contract_ids: d.contract_ids, min_deployment_ledger },
                ),
            },
        }
    }
}

} // verus!
