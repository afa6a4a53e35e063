//! Command-line settings: their checks and the configuration they make.
use crate::config::{Config, OtelConfig, SampleRatio, TlsConfig};
use crate::text;
use crate::text::is_blank;
use std::path::PathBuf;
use url::Url;
use vstd::prelude::*;

verus! {

/// The settings that the program was started with.
#[derive(Debug)]
pub struct Cli {
    /// Bind address for the main HTTPS listener, in its textual form.
    pub bind: String,
    /// Upstream Stellar RPC endpoint used by the background indexer.
    pub upstream_rpc_url: Url,
    /// Postgres connection string.
    pub database_url: String,
    /// Max DB connections in the pool.
    pub db_max_connections: u32,
    /// Enable dev-mode behaviors.
    pub dev: bool,
    /// Serve plain HTTP.
    pub insecure_http: bool,
    /// Domain name used for ACME (TLS-ALPN-01).
    pub domain: Option<String>,
    /// ACME account contact email.
    pub acme_email: Option<String>,
    /// ACME cache directory (cert/account cache).
    pub acme_cache_dir: PathBuf,
    /// ACME directory URL (LetsEncrypt staging/prod).
    pub acme_directory_url: Option<Url>,
    /// Redirect buffer in days before network tip.
    pub redirect_days: u32,
    /// Assumed ledger close time in seconds.
    pub ledger_seconds: u32,
    /// Indexing loop sleep when caught up (ms).
    pub indexer_sleep_ms: u64,
    /// Max pages per indexing round.
    pub max_pages_per_round: u32,
    /// Events page size.
    pub page_size: u32,
    /// Rate limit per IP (requests per second).
    pub rate_limit_rps: u32,
    /// Rate limit burst per IP.
    pub rate_limit_burst: u32,
    /// Enable OpenTelemetry tracing export.
    pub otel_enabled: bool,
    /// OTLP endpoint.
    pub otel_otlp_endpoint: Option<String>,
    /// OpenTelemetry service name.
    pub otel_service_name: String,
    /// Trace sampling ratio.
    pub otel_sample_ratio: SampleRatio,
    /// On startup, delete DB rows of other deployment namespaces.
    pub delete_other_deployments: bool,
}

/// What is wrong with the settings.
#[derive(Debug, Clone, Copy, PartialEq, Eq, Structural)]
pub enum CliError {
    /// Plain HTTP outside of dev mode.
    InsecureHttp,
    /// No domain where a certificate is needed.
    Domain,
    /// No contact email where a certificate is needed.
    AcmeEmail,
    /// A sampling ratio that is not from zero to one.
    SampleRatio,
    /// No connection string.
    DatabaseUrl,
}

impl CliError {
    /// The text of the error.
    pub open spec fn text(&self) -> Seq<char> {
        match self {
            CliError::InsecureHttp => "--insecure-http requires --dev"@,
            CliError::Domain => "--domain is required for HTTPS/ACME mode"@,
            CliError::AcmeEmail => "--acme-email is required for HTTPS/ACME mode"@,
            CliError::SampleRatio => "--otel-sample-ratio must be within 0.0..=1.0"@,
            CliError::DatabaseUrl => "--database-url must not be empty"@,
        }
    }

    /// Renders the error for people.
    pub fn message(&self) -> (r: String)
        ensures
            r@ == self.text(),
    {
        match self {
            CliError::InsecureHttp => "--insecure-http requires --dev".to_owned(),
            CliError::Domain => "--domain is required for HTTPS/ACME mode".to_owned(),
            CliError::AcmeEmail => "--acme-email is required for HTTPS/ACME mode".to_owned(),
            CliError::SampleRatio => "--otel-sample-ratio must be within 0.0..=1.0".to_owned(),
            CliError::DatabaseUrl => "--database-url must not be empty".to_owned(),
        }
    }
}

/// Whether an optional setting says nothing.
pub open spec fn unset(setting: Option<String>) -> bool {
    match setting {
        Some(value) => text::blank(value@),
        None => true,
    }
}

fn is_unset(setting: &Option<String>) -> (r: bool)
    ensures
        r == unset(*setting),
{
    match setting {
        Some(value) => is_blank(value.as_str()),
        None => true,
    }
}

impl Cli {
    /// The first thing that is wrong with the settings, in the order in which they are checked.
    pub open spec fn fault(&self) -> Option<CliError> {
        if self.insecure_http && !self.dev {
            Some(CliError::InsecureHttp)
        } else if !self.insecure_http && unset(self.domain) {
            Some(CliError::Domain)
        } else if !self.insecure_http && unset(self.acme_email) {
            Some(CliError::AcmeEmail)
        } else if self.otel_enabled && !self.otel_sample_ratio.within_unit() {
            Some(CliError::SampleRatio)
        } else if text::blank(self.database_url@) {
            Some(CliError::DatabaseUrl)
        } else {
            None
        }
    }

    /// Whether the settings say how to serve: in the clear, or with a certificate.
    pub open spec fn serving_is_settled(&self) -> bool {
        self.insecure_http || (self.domain is Some && self.acme_email is Some)
    }

    /// Checks the settings.
    pub fn validate(&self) -> (r: Result<(), CliError>)
        ensures
            r == match self.fault() {
                Some(e) => Err::<(), CliError>(e),
                None => Ok(()),
            },
            r is Ok ==> !text::blank(self.database_url@),
            r is Ok && !self.insecure_http ==> self.domain is Some && self.acme_email is Some,
            r is Ok && self.insecure_http ==> self.dev,
    {
        if self.insecure_http && !self.dev {
            return Err(CliError::InsecureHttp);
        } else if !self.insecure_http {
            if is_unset(&self.domain) {
                return Err(CliError::Domain);
            }
            if is_unset(&self.acme_email) {
                return Err(CliError::AcmeEmail);
            }
        }
        if self.otel_enabled && !self.otel_sample_ratio.is_within_unit() {
            return Err(CliError::SampleRatio);
        }
        if is_blank(self.database_url.as_str()) {
            return Err(CliError::DatabaseUrl);
        }
        Ok(())
    }

    /// The configuration that the settings make.
    pub open spec fn config(self) -> Config {
        Config {
            bind: self.bind,
            upstream_rpc_url: self.upstream_rpc_url,
            dev: self.dev,
            tls: if self.insecure_http {
                None
            } else {
                Some(
                    TlsConfig {
                        domain: self.domain->0,
                        acme_email: self.acme_email->0,
                        acme_cache_dir: self.acme_cache_dir,
                        acme_directory_url: self.acme_directory_url,
                    },
                )
            },
            redirect_days: self.redirect_days,
            ledger_seconds: self.ledger_seconds,
            indexer_sleep_ms: self.indexer_sleep_ms,
            max_pages_per_round: self.max_pages_per_round,
            page_size: self.page_size,
            rate_limit_rps: self.rate_limit_rps,
            rate_limit_burst: self.rate_limit_burst,
            otel: if self.otel_enabled {
                Some(
                    OtelConfig {
                        otlp_endpoint: self.otel_otlp_endpoint,
                        service_name: self.otel_service_name,
                        sample_ratio: self.otel_sample_ratio,
                    },
                )
            } else {
                None
            },
            initial_ledger_tip: 0,
            delete_other_deployments: self.delete_other_deployments,
        }
    }

    /// Makes the configuration out of the settings.
    pub fn into_config(self) -> (r: Config)
        requires
            self.serving_is_settled(),
        ensures
            r == self.config(),
            r.bind == self.bind,
            r.upstream_rpc_url == self.upstream_rpc_url,
            r.dev == self.dev,
            r.tls is None <==> self.insecure_http,
            r.tls matches Some(tls) ==> self.domain == Some(tls.domain) && self.acme_email == Some(
                tls.acme_email,
            ) && tls.acme_cache_dir == self.acme_cache_dir && tls.acme_directory_url
                == self.acme_directory_url,
            r.redirect_days == self.redirect_days,
            r.ledger_seconds == self.ledger_seconds,
            r.indexer_sleep_ms == self.indexer_sleep_ms,
            r.max_pages_per_round == self.max_pages_per_round,
            r.page_size == self.page_size,
            r.rate_limit_rps == self.rate_limit_rps,
            r.rate_limit_burst == self.rate_limit_burst,
            r.otel is Some <==> self.otel_enabled,
            r.otel matches Some(otel) ==> otel.otlp_endpoint == self.otel_otlp_endpoint
                && otel.service_name == self.otel_service_name && otel.sample_ratio
                == self.otel_sample_ratio,
            r.initial_ledger_tip == 0,
            r.delete_other_deployments == self.delete_other_deployments,
    {
        let tls = if self.insecure_http {
            None
        } else {
            Some(
                TlsConfig {
                    domain: self.domain.unwrap(),
                    acme_email: self.acme_email.unwrap(),
                    acme_cache_dir: self.acme_cache_dir,
                    acme_directory_url: self.acme_directory_url,
                },
            )
        };
        let otel = if self.otel_enabled {
            Some(
                OtelConfig {
                    otlp_endpoint: self.otel_otlp_endpoint,
                    service_name: self.otel_service_name,
                    sample_ratio: self.otel_sample_ratio,
                },
            )
        } else {
            None
        };
        Config {
            bind: self.bind,
            upstream_rpc_url: self.upstream_rpc_url,
            dev: self.dev,
            tls,
            redirect_days: self.redirect_days,
            ledger_seconds: self.ledger_seconds,
            indexer_sleep_ms: self.indexer_sleep_ms,
            max_pages_per_round: self.max_pages_per_round,
            page_size: self.page_size,
            rate_limit_rps: self.rate_limit_rps,
            rate_limit_burst: self.rate_limit_burst,
            otel,
            initial_ledger_tip: 0,
            delete_other_deployments: self.delete_other_deployments,
        }
    }

    /// Settings that pass the checks make a configuration, one that serves in
    /// the clear in dev mode only, and otherwise has a domain and a contact
    /// that say something.
    pub proof fn valid_settings_make_config(&self)
        requires
            self.fault() is None,
        ensures
            self.serving_is_settled(),
            self.config().tls is None ==> self.config().dev,
            self.config().tls matches Some(tls) ==> !text::blank(tls.domain@) && !text::blank(
                tls.acme_email@,
            ),
            self.config().otel matches Some(otel) ==> otel.sample_ratio.within_unit(),
    {
    }

    /// Each setting goes into the configuration under its own name, TLS is there
    /// unless plain HTTP is asked for, and trace export when it is enabled; so
    /// the redirect window is that of the days and the ledger seconds as set.
    pub proof fn settings_keep_their_names(self)
        requires
            self.insecure_http || (self.domain is Some && self.acme_email is Some),
        ensures
            self.serving_is_settled(),
            ({
                let r = self.config();
                &&& r.bind == self.bind
                &&& r.upstream_rpc_url == self.upstream_rpc_url
                &&& r.dev == self.dev
                &&& r.redirect_days == self.redirect_days
                &&& r.ledger_seconds == self.ledger_seconds
                &&& r.indexer_sleep_ms == self.indexer_sleep_ms
                &&& r.max_pages_per_round == self.max_pages_per_round
                &&& r.page_size == self.page_size
                &&& r.rate_limit_rps == self.rate_limit_rps
                &&& r.rate_limit_burst == self.rate_limit_burst
                &&& r.initial_ledger_tip == 0
                &&& r.delete_other_deployments == self.delete_other_deployments
                &&& crate::config::window_ledgers(r.redirect_days, r.ledger_seconds)
                    == crate::config::window_ledgers(self.redirect_days, self.ledger_seconds)
            }),
            self.insecure_http ==> self.config().tls is None,
            !self.insecure_http ==> self.config().tls is Some && self.config().tls->0.domain@
                == self.domain->0@ && self.config().tls->0.acme_email@ == self.acme_email->0@
                && self.config().tls->0.acme_cache_dir == self.acme_cache_dir
                && self.config().tls->0.acme_directory_url == self.acme_directory_url,
            !self.otel_enabled ==> self.config().otel is None,
            self.otel_enabled ==> self.config().otel is Some
                && self.config().otel->0.otlp_endpoint == self.otel_otlp_endpoint
                && self.config().otel->0.service_name@ == self.otel_service_name@
                && self.config().otel->0.sample_ratio.bits == self.otel_sample_ratio.bits,
    {
    }

    /// Settings pass exactly when plain HTTP is asked for in dev mode only, or a
    /// domain and a contact are given; traces, if enabled, have a ratio from zero
    /// to one; and there is a connection string. What is wrong is named, the
    /// first fault in this order.
    pub proof fn faults_are_named_in_order(&self)
        ensures
            ({
                let plain = self.insecure_http;
                let domain = self.domain is Some && !text::blank(self.domain->0@);
                let email = self.acme_email is Some && !text::blank(self.acme_email->0@);
                let serving = if plain {
                    self.dev
                } else {
                    domain && email
                };
                let traces = !self.otel_enabled || self.otel_sample_ratio.within_unit();
                let database = !text::blank(self.database_url@);
                &&& self.fault() is None <==> serving && traces && database
                &&& self.fault() == Some(CliError::InsecureHttp) <==> plain && !self.dev
                &&& self.fault() == Some(CliError::Domain) <==> !plain && !domain
                &&& self.fault() == Some(CliError::AcmeEmail) <==> !plain && domain && !email
                &&& self.fault() == Some(CliError::SampleRatio) <==> serving && !traces
                &&& self.fault() == Some(CliError::DatabaseUrl) <==> serving && traces && !database
            }),
    {
    }
}

} // verus!
