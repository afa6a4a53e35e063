use bootnode::cli::{Cli, CliError};
use bootnode::config::SampleRatio;
use bootnode::deployment::CompiledDeployment;
use bootnode::indexer::{Indexer, RoundLimits};
use bootnode::node::{Published, ServeEnd};
use bootnode::rpc::BootnodeRpc;
use bootnode::storage::IndexerState;
use bootnode::{Bootnode, DeploymentSpec};
use std::path::PathBuf;
use url::Url;

fn settings() -> Cli {
    Cli {
        bind: "0.0.0.0:443".to_owned(),
        upstream_rpc_url: Url::parse("https://rpc.example/").unwrap(),
        database_url: "postgres://localhost/db".to_owned(),
        db_max_connections: 10,
        dev: false,
        insecure_http: false,
        domain: Some("node.example".to_owned()),
        acme_email: Some("ops@node.example".to_owned()),
        acme_cache_dir: PathBuf::from("./acme-cache"),
        acme_directory_url: Some(Url::parse("https://acme.example/dir").unwrap()),
        redirect_days: 5,
        ledger_seconds: 5,
        indexer_sleep_ms: 5_000,
        max_pages_per_round: 10,
        page_size: 1_000,
        rate_limit_rps: 50,
        rate_limit_burst: 100,
        otel_enabled: true,
        otel_otlp_endpoint: Some("http://otel:4317".to_owned()),
        otel_service_name: "svc".to_owned(),
        otel_sample_ratio: SampleRatio { bits: 0.05f64.to_bits() },
        delete_other_deployments: true,
    }
}

#[test]
fn settings_are_checked_in_order() {
    assert_eq!(settings().validate(), Ok(()));
    let mut s = settings();
    s.insecure_http = true;
    s.database_url = String::new();
    assert_eq!(s.validate(), Err(CliError::InsecureHttp));
    s.dev = true;
    assert_eq!(s.validate(), Err(CliError::DatabaseUrl));
    let mut s = settings();
    s.domain = Some(" \t".to_owned());
    s.acme_email = None;
    assert_eq!(s.validate(), Err(CliError::Domain));
    s.domain = None;
    assert_eq!(s.validate(), Err(CliError::Domain));
    s.domain = Some("d".to_owned());
    assert_eq!(s.validate(), Err(CliError::AcmeEmail));
    let mut s = settings();
    s.otel_sample_ratio = SampleRatio { bits: 1.5f64.to_bits() };
    assert_eq!(s.validate(), Err(CliError::SampleRatio));
    s.otel_enabled = false;
    assert_eq!(s.validate(), Ok(()));
    s.database_url = "  ".to_owned();
    assert_eq!(s.validate(), Err(CliError::DatabaseUrl));
}

#[test]
fn setting_errors_are_rendered() {
    assert_eq!(CliError::InsecureHttp.message(), "--insecure-http requires --dev");
    assert_eq!(CliError::Domain.message(), "--domain is required for HTTPS/ACME mode");
    assert_eq!(CliError::AcmeEmail.message(), "--acme-email is required for HTTPS/ACME mode");
    assert_eq!(CliError::SampleRatio.message(), "--otel-sample-ratio must be within 0.0..=1.0");
    assert_eq!(CliError::DatabaseUrl.message(), "--database-url must not be empty");
}

#[test]
fn settings_make_a_configuration() {
    let cfg = settings().into_config();
    assert_eq!(cfg.bind, "0.0.0.0:443");
    assert_eq!(cfg.upstream_rpc_url.as_str(), "https://rpc.example/");
    let tls = cfg.tls.as_ref().unwrap();
    assert_eq!(tls.domain, "node.example");
    assert_eq!(tls.acme_email, "ops@node.example");
    assert_eq!(tls.acme_cache_dir, PathBuf::from("./acme-cache"));
    assert_eq!(tls.acme_directory_url.as_ref().unwrap().as_str(), "https://acme.example/dir");
    let otel = cfg.otel.as_ref().unwrap();
    assert_eq!(otel.otlp_endpoint.as_deref(), Some("http://otel:4317"));
    assert_eq!(otel.service_name, "svc");
    assert_eq!(f64::from_bits(otel.sample_ratio.bits), 0.05);
    assert_eq!(cfg.initial_ledger_tip, 0);
    assert_eq!(cfg.page_size, 1_000);
    assert_eq!(cfg.cutoff_ledgers(), 86_400);
    assert!(cfg.delete_other_deployments);
    assert_eq!(format!("{:?}", cfg.clone()), format!("{cfg:?}"));
    let mut s = settings();
    s.insecure_http = true;
    s.dev = true;
    s.domain = None;
    s.otel_enabled = false;
    let cfg = s.into_config();
    assert!(cfg.tls.is_none());
    assert!(cfg.otel.is_none());
    assert!(cfg.dev);
}

#[test]
fn deployment_is_read_from_the_compiled_one() {
    let d = DeploymentSpec::from_compiled(Ok(CompiledDeployment {
        contract_ids: vec!["C1".to_owned(), "C2".to_owned()],
        min_deployment_ledger: Ok(77),
    }))
    .unwrap();
    assert_eq!(d.contract_ids, ["C1", "C2"]);
    assert_eq!(d.min_deployment_ledger, 77);
    let e = DeploymentSpec::from_compiled(Err("no config".to_owned())).unwrap_err();
    assert_eq!(e, "no config");
    let e = DeploymentSpec::from_compiled(Ok(CompiledDeployment {
        contract_ids: Vec::new(),
        min_deployment_ledger: Err("no ledger".to_owned()),
    }))
    .unwrap_err();
    assert_eq!(e, "no ledger");
}

fn loaded(ledger_tip: u32) -> IndexerState {
    IndexerState {
        last_upstream_cursor: None,
        ledger_tip,
        oldest_ledger: 4,
        archive_ready: true,
    }
}

#[test]
fn node_goes_on_from_stored_progress() {
    let spec = || DeploymentSpec { contract_ids: vec!["C".to_owned()], min_deployment_ledger: 3 };
    let node =
        Bootnode::setup_with_deployment(settings().into_config(), Ok(loaded(20)), spec()).unwrap();
    assert_eq!(
        node.state.published,
        Published { ledger_tip: 20, oldest_ledger: 4, archive_ready: true }
    );
    assert_eq!(node.state.contract_ids, ["C"]);
    assert_eq!(node.state.min_deployment_ledger, 3);
    let mut cfg = settings().into_config();
    cfg.initial_ledger_tip = 30;
    let node = Bootnode::setup_with_deployment(cfg, Ok(loaded(20)), spec()).unwrap();
    assert_eq!(node.state.published.ledger_tip, 30);
    let rpc = BootnodeRpc::new(&node.state, node.state.published);
    assert_eq!(rpc.cutoff_ledgers, 86_400);
    assert_eq!(rpc.min_deployment_ledger, 3);
    let limits = RoundLimits::new(&node.state.cfg, node.state.min_deployment_ledger);
    assert_eq!(limits.page_size, 1_000);
    assert_eq!(limits.max_pages_per_round, 10);
    assert_eq!(limits.cutoff_ledgers, 86_400);
    let indexer = Indexer::new(&node.state);
    assert_eq!(indexer.limits, limits);
    assert_eq!(indexer.contract_ids, &["C"]);
    assert_eq!(indexer.indexer_sleep_ms, 5_000);
    let e = Bootnode::setup_with_deployment(
        settings().into_config(),
        Err("storage is down".to_owned()),
        spec(),
    )
    .unwrap_err();
    assert_eq!(e, "storage is down");
}

#[test]
fn node_needs_a_compiled_deployment() {
    let e = Bootnode::setup(
        settings().into_config(),
        Err("storage is down".to_owned()),
        Err("no config".to_owned()),
    )
    .unwrap_err();
    assert_eq!(e, "no config");
    let node = Bootnode::setup(
        settings().into_config(),
        Ok(loaded(20)),
        Ok(CompiledDeployment { contract_ids: Vec::new(), min_deployment_ledger: Ok(8) }),
    )
    .unwrap();
    assert_eq!(node.state.min_deployment_ledger, 8);
}

#[test]
fn service_ends_as_its_parts_do() {
    let s = Bootnode::serve(ServeEnd::Server(Err("port taken".to_owned())));
    assert!(s.abort_indexer && !s.abort_server);
    assert_eq!(s.result, Err("port taken".to_owned()));
    let s = Bootnode::serve(ServeEnd::Server(Ok(())));
    assert_eq!(s.result, Ok(()));
    let s = Bootnode::serve(ServeEnd::Indexer);
    assert!(s.abort_server && !s.abort_indexer);
    assert_eq!(s.result, Err("indexer task exited unexpectedly".to_owned()));
    let s = Bootnode::serve(ServeEnd::Interrupt);
    assert!(!s.abort_indexer && !s.abort_server);
    assert_eq!(s.result, Ok(()));
}
