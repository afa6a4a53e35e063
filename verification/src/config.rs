//! Configuration of a node, and what follows from it.
use crate::text::copy_of;
use std::path::PathBuf;
use url::Url;
use vstd::prelude::*;

verus! {

/// [`url::Url`], carried and never looked into.
#[verifier::external_type_specification]
#[verifier::external_body]
pub struct ExUrl(url::Url);

/// [`std::path::PathBuf`], carried and never looked into.
#[verifier::external_type_specification]
#[verifier::external_body]
pub struct ExPathBuf(std::path::PathBuf);

/// `Clone` of [`url::Url`]. Taken on trust: the clone is the same URL.
pub assume_specification[ <url::Url as Clone>::clone ](url: &url::Url) -> (r: url::Url)
    ensures
        r == *url,
;

/// `Clone` of [`std::path::PathBuf`]. Taken on trust: the clone is the same path.
pub assume_specification[ <std::path::PathBuf as Clone>::clone ](path: &std::path::PathBuf) -> (r:
    std::path::PathBuf)
    ensures
        r == *path,
;

/// How the node gets its certificate.
#[derive(Debug)]
pub struct TlsConfig {
    /// Domain name used for ACME (TLS-ALPN-01).
    pub domain: String,
    /// ACME account contact email.
    pub acme_email: String,
    /// ACME cache directory (cert/account cache).
    pub acme_cache_dir: PathBuf,
    /// ACME directory URL (LetsEncrypt staging/prod).
    pub acme_directory_url: Option<Url>,
}

impl Clone for TlsConfig {
    fn clone(&self) -> (r: Self)
        ensures
            r == *self,
    {
        TlsConfig {
            domain: self.domain.clone(),
            acme_email: self.acme_email.clone(),
            acme_cache_dir: self.acme_cache_dir.clone(),
            acme_directory_url: match &self.acme_directory_url {
                Some(url) => Some(url.clone()),
                None => None,
            },
        }
    }
}

/// A trace sampling ratio, as the bits of its IEEE 754 binary64 number.
#[derive(Debug, Clone, Copy)]
pub struct SampleRatio {
    pub bits: u64,
}

impl SampleRatio {
    /// Whether the number lies from zero to one, both included. The bits of
    /// positive numbers grow with the numbers; those of one are
    /// `0x3ff0_0000_0000_0000`. Negative zero counts as zero. Negative numbers
    /// and what is no number lie outside.
    pub open spec fn within_unit(&self) -> bool {
        self.bits <= 0x3ff0_0000_0000_0000 || self.bits == 0x8000_0000_0000_0000
    }

    /// Tells whether the number lies from zero to one, both included.
    pub fn is_within_unit(&self) -> (r: bool)
        ensures
            r == self.within_unit(),
    {
        self.bits <= 0x3ff0_0000_0000_0000 || self.bits == 0x8000_0000_0000_0000
    }
}

/// Where traces are exported to.
#[derive(Debug)]
pub struct OtelConfig {
    pub otlp_endpoint: Option<String>,
    pub service_name: String,
    pub sample_ratio: SampleRatio,
}

impl Clone for OtelConfig {
    fn clone(&self) -> (r: Self)
        ensures
            r == *self,
    {
        OtelConfig {
            otlp_endpoint: copy_of(&self.otlp_endpoint),
            service_name: self.service_name.clone(),
            sample_ratio: self.sample_ratio,
        }
    }
}

/// Configuration of a node.
#[derive(Debug)]
pub struct Config {
    /// Address of the listener, in its textual form.
    pub bind: String,
    pub upstream_rpc_url: Url,
    pub dev: bool,
    pub tls: Option<TlsConfig>,
    pub redirect_days: u32,
    pub ledger_seconds: u32,
    pub indexer_sleep_ms: u64,
    pub max_pages_per_round: u32,
    pub page_size: u32,
    pub rate_limit_rps: u32,
    pub rate_limit_burst: u32,
    pub otel: Option<OtelConfig>,
    pub initial_ledger_tip: u32,
    pub delete_other_deployments: bool,
}

impl Clone for Config {
    fn clone(&self) -> (r: Self)
        ensures
            r == *self,
    {
        Config {
            bind: self.bind.clone(),
            upstream_rpc_url: self.upstream_rpc_url.clone(),
            dev: self.dev,
            tls: match &self.tls {
                Some(tls) => Some(tls.clone()),
                None => None,
            },
            redirect_days: self.redirect_days,
            ledger_seconds: self.ledger_seconds,
            indexer_sleep_ms: self.indexer_sleep_ms,
            max_pages_per_round: self.max_pages_per_round,
            page_size: self.page_size,
            rate_limit_rps: self.rate_limit_rps,
            rate_limit_burst: self.rate_limit_burst,
            otel: match &self.otel {
                Some(otel) => Some(otel.clone()),
                None => None,
            },
            initial_ledger_tip: self.initial_ledger_tip,
            delete_other_deployments: self.delete_other_deployments,
        }
    }
}

impl Config {
    /// Redirect-window size in ledgers under this configuration.
    pub fn cutoff_ledgers(&self) -> (r: u32)
        ensures
            r == window_ledgers(self.redirect_days, self.ledger_seconds),
    {
        cutoff_ledgers(self.redirect_days, self.ledger_seconds)
    }
}

/// The seconds in a number of days, at most `u32::MAX`.
pub open spec fn window_seconds(redirect_days: u32) -> int {
    if redirect_days * 86_400 <= u32::MAX {
        redirect_days * 86_400
    } else {
        u32::MAX as int
    }
}

/// How many ledgers close in the given number of days, when a ledger takes the
/// given seconds, at least one.
pub open spec fn window_ledgers(redirect_days: u32, ledger_seconds: u32) -> int {
    if ledger_seconds <= 1 {
        window_seconds(redirect_days)
    } else {
        window_seconds(redirect_days) / (ledger_seconds as int)
    }
}

/// Redirect-window size in ledgers (tip minus this = redirect threshold).
pub fn cutoff_ledgers(redirect_days: u32, ledger_seconds: u32) -> (r: u32)
    ensures
        r == window_ledgers(redirect_days, ledger_seconds),
{
    let total: u64 = redirect_days as u64 * 86_400;
    let seconds: u32 = if total <= u32::MAX as u64 {
        total as u32
    } else {
        u32::MAX
    };
    if ledger_seconds <= 1 {
        seconds
    } else {
        seconds / ledger_seconds
    }
}

/// Ledgers in one 24h day at the configured close interval.
pub fn ledgers_per_day(ledger_seconds: u32) -> (r: u32)
    ensures
        r == window_ledgers(1, ledger_seconds),
        ledger_seconds >= 1 ==> r == 86_400int / (ledger_seconds as int),
{
    cutoff_ledgers(1, ledger_seconds)
}

/// The first ledger that the node leaves to other endpoints: the tip less the
/// redirect window, not below zero.
pub open spec fn cutoff_of(tip: u32, window: u32) -> u32 {
    if tip >= window {
        (tip - window) as u32
    } else {
        0
    }
}

/// The cutoff never lies above the tip, and moves back neither with a later tip
/// nor with a smaller window.
pub proof fn cutoff_monotone(tip: u32, later_tip: u32, window: u32, smaller_window: u32)
    requires
        tip <= later_tip,
        smaller_window <= window,
    ensures
        cutoff_of(tip, window) <= tip,
        cutoff_of(tip, window) <= cutoff_of(later_tip, window),
        cutoff_of(tip, window) <= cutoff_of(tip, smaller_window),
{
}

/// More days make the window no smaller, and slower ledgers no larger.
pub proof fn window_monotone(days: u32, more_days: u32, seconds: u32, more_seconds: u32)
    requires
        days <= more_days,
        seconds <= more_seconds,
    ensures
        window_ledgers(days, seconds) <= window_ledgers(more_days, seconds),
        window_ledgers(days, more_seconds) <= window_ledgers(days, seconds),
        0 <= window_ledgers(days, seconds) <= u32::MAX,
{
    let d = if seconds == 0 {
        1int
    } else {
        seconds as int
    };
    let m = if more_seconds == 0 {
        1int
    } else {
        more_seconds as int
    };
    let a = window_seconds(days);
    let b = window_seconds(more_days);
    assert(a / d <= b / d) by (nonlinear_arith)
        requires
            0 <= a <= b,
            d >= 1,
    ;
    assert(a / m <= a / d) by (nonlinear_arith)
        requires
            0 <= a,
            1 <= d <= m,
    ;
    assert(0 <= a / d <= a) by (nonlinear_arith)
        requires
            0 <= a,
            d >= 1,
    ;
}

/// The window is as many whole ledgers as close in the days: it takes no more
/// seconds than they have, and one ledger more would take more. The seconds
/// stop at `u32::MAX`, and a ledger takes one second at least.
pub proof fn window_fills_the_days(redirect_days: u32, ledger_seconds: u32)
    ensures
        ({
            let r = window_ledgers(redirect_days, ledger_seconds);
            let d = if ledger_seconds == 0 {
                1int
            } else {
                ledger_seconds as int
            };
            let days = redirect_days * 24 * 60 * 60;
            &&& 0 <= r <= 4_294_967_295
            &&& days <= 4_294_967_295 ==> r * d <= days && days < (r + 1) * d
            &&& days > 4_294_967_295 ==> r * d <= 4_294_967_295 && 4_294_967_295 < (r + 1) * d
        }),
{
    let d = if ledger_seconds == 0 {
        1int
    } else {
        ledger_seconds as int
    };
    let a = window_seconds(redirect_days);
    window_monotone(redirect_days, redirect_days, ledger_seconds, ledger_seconds);
    assert((a / d) * d <= a && a < (a / d + 1) * d) by (nonlinear_arith)
        requires
            0 <= a,
            d >= 1,
    ;
    assert(d == 1 ==> a / d == a) by (nonlinear_arith)
        requires
            0 <= a,
    ;
    assert(window_ledgers(redirect_days, ledger_seconds) == a / d);
    assert(redirect_days * 24 * 60 * 60 == redirect_days * 86_400);
}

/// The cutoff lies a window below the tip, or at zero where the window reaches
/// further than that; so a ledger is at or above the cutoff exactly when it and
/// the window reach the tip.
pub proof fn cutoff_lies_a_window_below(tip: u32, window: u32, ledger: u32)
    ensures
        window <= tip ==> cutoff_of(tip, window) + window == tip,
        window >= tip ==> cutoff_of(tip, window) == 0,
        ledger >= cutoff_of(tip, window) <==> ledger + window >= tip,
{
}

/// A number lies from zero to one when, as sign, exponent and mantissa, it is
/// zero with either sign, or positive and below one, or one.
pub proof fn within_unit_as_number(ratio: SampleRatio)
    ensures
        ({
            let sign = ratio.bits >> 63u64;
            let exponent = (ratio.bits >> 52u64) & 0x7ff;
            let mantissa = ratio.bits & 0xf_ffff_ffff_ffff;
            ratio.within_unit() <==> (sign == 0 && exponent < 1023) || (sign == 0 && exponent
                == 1023 && mantissa == 0) || (exponent == 0 && mantissa == 0)
        }),
{
    let b = ratio.bits;
    assert((b <= 0x3ff0_0000_0000_0000u64 || b == 0x8000_0000_0000_0000u64) <==> ((b >> 63u64) == 0
        && ((b >> 52u64) & 0x7ff) < 1023) || ((b >> 63u64) == 0 && ((b >> 52u64) & 0x7ff) == 1023
        && (b & 0xf_ffff_ffff_ffff) == 0) || (((b >> 52u64) & 0x7ff) == 0 && (b
        & 0xf_ffff_ffff_ffff) == 0)) by (bit_vector);
}

} // verus!
