//! Tag enrichment: attaching provenance to parsed measurements.
//!
//! For every measurement the engine sets the `target` and `module` tags, then
//! the configured optional labels, then the ad-hoc labels, in that order.
//! Each step renames an already-present tag of the same name to
//! `exported_<name>` before setting the new value, so nothing is dropped;
//! predefined labels that are absent or empty are skipped.

use vstd::prelude::*;
use vstd::string::StringExecFns;
use crate::probe::{extract_target, spec_extracted_target, ProbeUrl};
use crate::tags::{Measurement, TagMap};

verus! {

/// The key an overwritten tag is preserved under: `exported_` before the
/// original key.
pub open spec fn spec_exported_key(k: Seq<char>) -> Seq<char> {
    "exported_"@ + k
}

/// One rename-then-set step on a tag mapping: an existing entry under the key
/// moves to `exported_<key>`, then the key is set to the new value.
pub open spec fn spec_tag_applied(
    m: Map<Seq<char>, Seq<char>>,
    k: Seq<char>,
    v: Seq<char>,
) -> Map<Seq<char>, Seq<char>> {
    let renamed = if m.contains_key(k) {
        m.remove(k).insert(spec_exported_key(k), m[k])
    } else {
        m
    };
    renamed.insert(k, v)
}

/// The view of an optional string.
pub open spec fn spec_opt_view(o: Option<String>) -> Option<Seq<char>> {
    match o {
        Option::None => Option::None,
        Option::Some(s) => Option::Some(s@),
    }
}

/// An optional label step: absent or empty values leave the mapping alone,
/// any other value is applied as a rename-then-set.
pub open spec fn spec_opt_label_applied(
    m: Map<Seq<char>, Seq<char>>,
    k: Seq<char>,
    ov: Option<Seq<char>>,
) -> Map<Seq<char>, Seq<char>> {
    match ov {
        Option::None => m,
        Option::Some(v) => if v.len() == 0 {
            m
        } else {
            spec_tag_applied(m, k, v)
        },
    }
}

/// The ad-hoc label steps, applied pair by pair in order; empty values are
/// skipped as for predefined labels.
pub open spec fn spec_custom_applied(
    m: Map<Seq<char>, Seq<char>>,
    ps: Seq<(Seq<char>, Seq<char>)>,
) -> Map<Seq<char>, Seq<char>>
    decreases ps.len(),
{
    if ps.len() == 0 {
        m
    } else {
        spec_custom_applied(
            spec_opt_label_applied(m, ps[0].0, Option::Some(ps[0].1)),
            ps.drop_first(),
        )
    }
}

/// The optional labels shared by all of one configuration's targets: six
/// predefined fields and an open mapping of ad-hoc labels.
pub struct OptionalLabels {
    pub geohash: Option<String>,
    pub region: Option<String>,
    pub location: Option<String>,
    pub country: Option<String>,
    pub name: Option<String>,
    pub provider: Option<String>,
    pub custom: TagMap,
}

impl OptionalLabels {
    /// The ad-hoc label mapping holds each key once.
    pub open spec fn wf(&self) -> bool {
        self.custom.wf()
    }
}

/// Clone an optional string; the copy holds the same value.
pub(crate) fn clone_opt_string(o: &Option<String>) -> (r: Option<String>)
    ensures
        r == *o,
{
    match o {
        Option::Some(s) => Option::Some(s.clone()),
        Option::None => Option::None,
    }
}

impl Clone for OptionalLabels {
    /// A clone holds the same labels.
    fn clone(&self) -> (r: Self)
        ensures
            r.geohash == self.geohash,
            r.region == self.region,
            r.location == self.location,
            r.country == self.country,
            r.name == self.name,
            r.provider == self.provider,
            r.custom.pairs() == self.custom.pairs(),
            r.custom@ == self.custom@,
            r.wf() == self.wf(),
    {
        OptionalLabels {
            geohash: clone_opt_string(&self.geohash),
            region: clone_opt_string(&self.region),
            location: clone_opt_string(&self.location),
            country: clone_opt_string(&self.country),
            name: clone_opt_string(&self.name),
            provider: clone_opt_string(&self.provider),
            custom: self.custom.clone(),
        }
    }
}

/// Per-target context for enrichment: the decoded target, the module name and
/// the shared optional labels.
pub struct BlackboxExporterContext {
    pub target: String,
    pub module: String,
    pub optional_labels: OptionalLabels,
}

/// What one configuration contributes to every per-target context: the
/// module name and the shared optional labels.
pub struct BlackboxExporterBuilder {
    pub module: String,
    pub optional_labels: OptionalLabels,
}

impl BlackboxExporterBuilder {
    /// The ad-hoc label mapping holds each key once.
    pub open spec fn wf(&self) -> bool {
        self.optional_labels.wf()
    }

    /// Build the context for one probe URL: the target decoded from the
    /// URL's query, the configured module, and the shared labels.
    pub fn build(&self, url: &ProbeUrl) -> (r: BlackboxExporterContext)
        ensures
            r.target@ == spec_extracted_target(url.query@),
            r.module@ == self.module@,
            r.optional_labels.geohash == self.optional_labels.geohash,
            r.optional_labels.region == self.optional_labels.region,
            r.optional_labels.location == self.optional_labels.location,
            r.optional_labels.country == self.optional_labels.country,
            r.optional_labels.name == self.optional_labels.name,
            r.optional_labels.provider == self.optional_labels.provider,
            r.optional_labels.custom.pairs() == self.optional_labels.custom.pairs(),
            r.optional_labels.custom@ == self.optional_labels.custom@,
            r.wf() == self.wf(),
    {
        BlackboxExporterContext {
            target: extract_target(url.query().as_str()),
            module: self.module.clone(),
            optional_labels: self.optional_labels.clone(),
        }
    }
}

/// One rename-then-set step: an existing tag under the key moves to
/// `exported_<key>`, then the key is set to the given value.
fn apply_tag(metric: &mut Measurement, key: &str, value: String)
    requires
        old(metric).wf(),
    ensures
        final(metric).wf(),
        final(metric).tags@ == spec_tag_applied(old(metric).tags@, key@, value@),
        final(metric).name == old(metric).name,
        final(metric).kind == old(metric).kind,
        final(metric).value_bits == old(metric).value_bits,
{
    if let Some(existing) = metric.remove_tag(key) {
        let mut exported = String::from_str("exported_");
        exported.append(key);
        metric.replace_tag(exported, existing);
    }
    metric.replace_tag(String::from_str(key), value);
}

impl BlackboxExporterContext {
    /// The ad-hoc label mapping holds each key once.
    pub open spec fn wf(&self) -> bool {
        self.optional_labels.wf()
    }

    /// The tag mapping after enrichment: target, module, the predefined
    /// labels in fixed order, then the ad-hoc labels.
    pub open spec fn spec_enrich(&self, m: Map<Seq<char>, Seq<char>>) -> Map<Seq<char>, Seq<char>> {
        let m1 = spec_tag_applied(m, "target"@, self.target@);
        let m2 = spec_tag_applied(m1, "module"@, self.module@);
        let m3 = spec_opt_label_applied(m2, "geohash"@, spec_opt_view(self.optional_labels.geohash));
        let m4 = spec_opt_label_applied(m3, "region"@, spec_opt_view(self.optional_labels.region));
        let m5 = spec_opt_label_applied(
            m4,
            "location"@,
            spec_opt_view(self.optional_labels.location),
        );
        let m6 = spec_opt_label_applied(
            m5,
            "country"@,
            spec_opt_view(self.optional_labels.country),
        );
        let m7 = spec_opt_label_applied(m6, "name"@, spec_opt_view(self.optional_labels.name));
        let m8 = spec_opt_label_applied(
            m7,
            "provider"@,
            spec_opt_view(self.optional_labels.provider),
        );
        spec_custom_applied(m8, self.optional_labels.custom.pairs())
    }

    /// Add one optional label to a measurement if it is present and
    /// non-empty, renaming an existing tag of the same name to
    /// `exported_<name>` first.
    pub fn add_optional_label(&self, metric: &mut Measurement, key: &str, value: &Option<String>)
        requires
            old(metric).wf(),
        ensures
            final(metric).wf(),
            final(metric).tags@ == spec_opt_label_applied(
                old(metric).tags@,
                key@,
                spec_opt_view(*value),
            ),
            final(metric).name == old(metric).name,
            final(metric).kind == old(metric).kind,
            final(metric).value_bits == old(metric).value_bits,
    {
        if let Some(val) = value {
            if val.as_str().is_empty() {
                return ;
            }
            apply_tag(metric, key, val.clone());
        }
    }

    /// Enrich one measurement in place.
    fn enrich_one(&self, metric: &mut Measurement)
        requires
            old(metric).wf(),
            self.wf(),
        ensures
            final(metric).wf(),
            final(metric).tags@ == self.spec_enrich(old(metric).tags@),
            final(metric).name == old(metric).name,
            final(metric).kind == old(metric).kind,
            final(metric).value_bits == old(metric).value_bits,
    {
        apply_tag(metric, "target", self.target.clone());
        apply_tag(metric, "module", self.module.clone());
        self.add_optional_label(metric, "geohash", &self.optional_labels.geohash);
        self.add_optional_label(metric, "region", &self.optional_labels.region);
        self.add_optional_label(metric, "location", &self.optional_labels.location);
        self.add_optional_label(metric, "country", &self.optional_labels.country);
        self.add_optional_label(metric, "name", &self.optional_labels.name);
        self.add_optional_label(metric, "provider", &self.optional_labels.provider);
        let ghost m8 = metric.tags@;
        let ghost all_pairs = self.optional_labels.custom.pairs();
        let n = self.optional_labels.custom.len();
        let mut i: usize = 0;
        proof {
            assert(all_pairs.skip(0) =~= all_pairs);
        }
        while i < n
            invariant
                old(metric).wf(),
                metric.wf(),
                n == self.optional_labels.custom.pairs().len(),
                all_pairs == self.optional_labels.custom.pairs(),
                i <= n,
                metric.name == old(metric).name,
                metric.kind == old(metric).kind,
                metric.value_bits == old(metric).value_bits,
                spec_custom_applied(metric.tags@, all_pairs.skip(i as int)) == spec_custom_applied(
                    m8,
                    all_pairs,
                ),
            decreases n - i,
        {
            let key = self.optional_labels.custom.key_at(i);
            let value = self.optional_labels.custom.value_at(i).clone();
            proof {
                assert(all_pairs.skip(i as int)[0] == all_pairs[i as int]);
                assert(all_pairs.skip(i as int).drop_first() =~= all_pairs.skip(i + 1));
            }
            self.add_optional_label(metric, key.as_str(), &Some(value));
            i = i + 1;
        }
        proof {
            assert(all_pairs.skip(n as int) =~= Seq::<(Seq<char>, Seq<char>)>::empty());
        }
    }

    /// Enrich every measurement of a batch in place.  Each measurement keeps
    /// its name, kind and value; its tags become the enrichment of what they
    /// were.
    pub fn enrich_events(&mut self, events: &mut Vec<Measurement>)
        requires
            old(self).wf(),
            forall|i: int| 0 <= i < old(events)@.len() ==> (#[trigger] old(events)@[i]).wf(),
        ensures
            *final(self) == *old(self),
            final(events)@.len() == old(events)@.len(),
            forall|i: int|
                0 <= i < old(events)@.len() ==> {
                    let before = old(events)@[i];
                    let after = #[trigger] final(events)@[i];
                    after.wf() && after.name == before.name && after.kind == before.kind
                        && after.value_bits == before.value_bits && after.tags@ == old(
                        self,
                    ).spec_enrich(before.tags@)
                },
    {
        let n = events.len();
        let mut i: usize = 0;
        while i < n
            invariant
                *self == *old(self),
                self.wf(),
                n == events@.len(),
                events@.len() == old(events)@.len(),
                i <= n,
                forall|j: int| i <= j < n ==> events@[j] == (#[trigger] old(events)@[j]),
                forall|j: int| 0 <= j < old(events)@.len() ==> (#[trigger] old(events)@[j]).wf(),
                forall|j: int|
                    0 <= j < i ==> {
                        let before = old(events)@[j];
                        let after = #[trigger] events@[j];
                        after.wf() && after.name == before.name && after.kind == before.kind
                            && after.value_bits == before.value_bits && after.tags@
                            == self.spec_enrich(before.tags@)
                    },
            decreases n - i,
        {
            self.enrich_one(&mut events[i]);
            i = i + 1;
        }
    }
}

} // verus!
