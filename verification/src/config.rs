//! Configuration for the blackbox exporter source: the base URL, the targets
//! to probe, the probe module, and the optional provenance labels.

use vstd::prelude::*;
use crate::enrich::{clone_opt_string, OptionalLabels};
use crate::tags::TagMap;

verus! {

/// Configuration for the blackbox exporter source.
///
/// The base URL names the exporter instance; one probe URL is derived from
/// it per target, all sharing the probe module.  The optional label fields
/// and the open label mapping are attached to every scraped measurement.
/// The scrape interval and timeout only drive the outside polling loop.
pub struct BlackboxExporterConfig {
    /// Base URL of the exporter instance.
    pub url: String,
    /// The entities to probe, each yielding one derived request URL.
    pub targets: Vec<String>,
    /// The exporter-side probe module shared by all targets.
    pub module: String,
    /// Seconds between scrapes of each target.
    pub interval_secs: u64,
    /// Seconds before one scrape request is given up.
    pub timeout_secs: u64,
    /// Geohash of the probe location.
    pub geohash: Option<String>,
    /// Probe region, such as `AMER` or `EMEA`.
    pub region: Option<String>,
    /// Probe location, a city or place name.
    pub location: Option<String>,
    /// Two-letter country code.
    pub country: Option<String>,
    /// Friendly name of the check.
    pub name: Option<String>,
    /// Infrastructure provider the probe runs on.
    pub provider: Option<String>,
    /// Ad-hoc labels added to all measurements, after the predefined ones.
    pub labels: Option<TagMap>,
}

impl BlackboxExporterConfig {
    /// The ad-hoc label mapping, if there is one, holds each key once.
    pub open spec fn wf(&self) -> bool {
        match self.labels {
            Option::Some(m) => m.wf(),
            Option::None => true,
        }
    }
}

impl OptionalLabels {
    /// The optional labels a configuration holds: the six predefined fields
    /// as they stand, and the ad-hoc mapping, empty where none is
    /// configured.
    pub fn from_config(config: &BlackboxExporterConfig) -> (r: OptionalLabels)
        ensures
            r.geohash == config.geohash,
            r.region == config.region,
            r.location == config.location,
            r.country == config.country,
            r.name == config.name,
            r.provider == config.provider,
            match config.labels {
                Option::Some(m) => r.custom.pairs() == m.pairs() && r.custom@ == m@,
                Option::None => r.custom.pairs() == Seq::<(Seq<char>, Seq<char>)>::empty()
                    && r.custom@ == Map::<Seq<char>, Seq<char>>::empty(),
            },
            config.wf() ==> r.wf(),
    {
        OptionalLabels {
            geohash: clone_opt_string(&config.geohash),
            region: clone_opt_string(&config.region),
            location: clone_opt_string(&config.location),
            country: clone_opt_string(&config.country),
            name: clone_opt_string(&config.name),
            provider: clone_opt_string(&config.provider),
            custom: match &config.labels {
                Some(m) => m.clone(),
                None => TagMap::new(),
            },
        }
    }
}

} // verus!
