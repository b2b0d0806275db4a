//! Turn-restriction rules built during tile generation, and the tally of restriction
//! relations that had to be skipped.

use vstd::prelude::*;
use vstd::string::*;
use crate::text::{decimal, u64_to_decimal};

verus! {

/// Whether a restriction allows only the listed turn or forbids it.
#[derive(Clone, Copy, Debug, PartialEq, Eq)]
pub enum GenerationRestrictionRuleType {
    OnlyAllowed,
    NotAllowed,
}

/// A turn restriction at one via node, in terms of tile-local line indices.
#[derive(Clone, Debug, PartialEq, Eq)]
pub struct GenerationRestrictionRule {
    pub relation_id: u64,
    pub via_node_id: u64,
    pub rule_type: GenerationRestrictionRuleType,
    pub from_line_indices: Vec<u32>,
    pub to_line_indices: Vec<u32>,
}

/// A restriction relation that was not turned into a rule: why, and the
/// explanation that names what was wrong with it.
#[derive(Clone, Debug, PartialEq, Eq)]
pub struct RestrictionSkip {
    pub reason: GenerationRestrictionSkipReason,
    pub explanation: String,
}

/// Why a restriction relation was not turned into a rule.
#[derive(Clone, Copy, Debug, PartialEq, Eq)]
pub enum GenerationRestrictionSkipReason {
    ViaWay,
    Conditional,
    Except,
    RestrictionVariant,
    MalformedOrUnresolved,
}

/// The label that logs use for a skip reason.
pub open spec fn reason_label(reason: GenerationRestrictionSkipReason) -> Seq<char> {
    match reason {
        GenerationRestrictionSkipReason::ViaWay => "via_way"@,
        GenerationRestrictionSkipReason::Conditional => "conditional"@,
        GenerationRestrictionSkipReason::Except => "except"@,
        GenerationRestrictionSkipReason::RestrictionVariant => "restriction_variant"@,
        GenerationRestrictionSkipReason::MalformedOrUnresolved => "malformed_or_unresolved"@,
    }
}

impl GenerationRestrictionSkipReason {
    /// The label that logs use for this reason.
    pub fn label(self) -> (res: &'static str)
        ensures
            res@ == reason_label(self),
    {
        match self {
            GenerationRestrictionSkipReason::ViaWay => "via_way",
            GenerationRestrictionSkipReason::Conditional => "conditional",
            GenerationRestrictionSkipReason::Except => "except",
            GenerationRestrictionSkipReason::RestrictionVariant => "restriction_variant",
            GenerationRestrictionSkipReason::MalformedOrUnresolved => "malformed_or_unresolved",
        }
    }
}

/// Counts of skipped restriction relations, one counter per skip reason.
#[derive(Clone, Debug, Default, PartialEq, Eq)]
pub struct GenerationRestrictionSkipStats {
    pub via_way_relations: u64,
    pub conditional_relations: u64,
    pub except_relations: u64,
    pub restriction_variant_relations: u64,
    pub malformed_or_unresolved_relations: u64,
}

/// The counter that a skip reason feeds.
pub open spec fn stats_count(
    stats: GenerationRestrictionSkipStats,
    reason: GenerationRestrictionSkipReason,
) -> u64 {
    match reason {
        GenerationRestrictionSkipReason::ViaWay => stats.via_way_relations,
        GenerationRestrictionSkipReason::Conditional => stats.conditional_relations,
        GenerationRestrictionSkipReason::Except => stats.except_relations,
        GenerationRestrictionSkipReason::RestrictionVariant => stats.restriction_variant_relations,
        GenerationRestrictionSkipReason::MalformedOrUnresolved => stats.malformed_or_unresolved_relations,
    }
}

/// No counter has reached `u64::MAX`, so any one of them can still be incremented.
pub open spec fn stats_can_count(stats: GenerationRestrictionSkipStats) -> bool {
    &&& stats.via_way_relations < u64::MAX
    &&& stats.conditional_relations < u64::MAX
    &&& stats.except_relations < u64::MAX
    &&& stats.restriction_variant_relations < u64::MAX
    &&& stats.malformed_or_unresolved_relations < u64::MAX
}

/// The total of all counters.
pub open spec fn stats_total(stats: GenerationRestrictionSkipStats) -> int {
    stats.via_way_relations + stats.conditional_relations + stats.except_relations
        + stats.restriction_variant_relations + stats.malformed_or_unresolved_relations
}

/// `new` is `old` with the counter of `reason` one higher and all others unchanged.
pub open spec fn stats_incremented(
    old: GenerationRestrictionSkipStats,
    new: GenerationRestrictionSkipStats,
    reason: GenerationRestrictionSkipReason,
) -> bool {
    forall|r: GenerationRestrictionSkipReason|
        #[trigger] stats_count(new, r) == stats_count(old, r) + (if r == reason {
            1int
        } else {
            0int
        })
}

/// One summary entry `label=count` when the count is positive, none otherwise.
pub open spec fn summary_part(label: Seq<char>, count: u64) -> Seq<Seq<char>> {
    if count > 0 {
        seq![label + "="@ + decimal(count as nat)]
    } else {
        Seq::empty()
    }
}

/// The summary entries of all positive counters, in the order of the reasons.
pub open spec fn stats_summary(stats: GenerationRestrictionSkipStats) -> Seq<Seq<char>> {
    summary_part("via_way"@, stats.via_way_relations) + summary_part(
        "conditional"@,
        stats.conditional_relations,
    ) + summary_part("except"@, stats.except_relations) + summary_part(
        "restriction_variant"@,
        stats.restriction_variant_relations,
    ) + summary_part("malformed_or_unresolved"@, stats.malformed_or_unresolved_relations)
}

/// The summary lists something exactly when a relation was skipped: it is
/// empty if and only if every counter is zero, and it holds one entry per
/// positive counter.
pub proof fn lemma_summary_empty_iff_nothing_skipped(stats: GenerationRestrictionSkipStats)
    ensures
        (stats_summary(stats).len() == 0) == (stats_total(stats) == 0),
        stats_summary(stats).len() == (if stats.via_way_relations > 0 { 1int } else { 0int }) + (
        if stats.conditional_relations > 0 {
            1int
        } else {
            0int
        }) + (if stats.except_relations > 0 {
            1int
        } else {
            0int
        }) + (if stats.restriction_variant_relations > 0 {
            1int
        } else {
            0int
        }) + (if stats.malformed_or_unresolved_relations > 0 {
            1int
        } else {
            0int
        }),
{
}

/// Appends `label=count` to `parts` when `count` is positive.
fn push_part(parts: &mut Vec<String>, label: &str, count: u64)
    ensures
        final(parts).deep_view() == old(parts).deep_view() + summary_part(label@, count),
{
    if count > 0 {
        let mut part = String::from_str(label);
        let eq = String::from_str("=");
        part.append(eq.as_str());
        let digits = u64_to_decimal(count);
        part.append(digits.as_str());
        let ghost before = parts.deep_view();
        parts.push(part);
        assert(parts.deep_view() =~= before + summary_part(label@, count));
    } else {
        assert(parts.deep_view() =~= old(parts).deep_view() + summary_part(label@, count));
    }
}

/// Whether a rule is stored at the via node `via` and names lines below `line_count`.
pub open spec fn rule_fits(rule: GenerationRestrictionRule, via: u64, line_count: int) -> bool {
    &&& rule.via_node_id == via
    &&& forall|k: int| 0 <= k < rule.from_line_indices@.len() ==> (#[trigger] rule.from_line_indices@[k]) < line_count
    &&& forall|k: int| 0 <= k < rule.to_line_indices@.len() ==> (#[trigger] rule.to_line_indices@[k]) < line_count
}

impl GenerationRestrictionSkipStats {
    /// All counters zero.
    pub open spec fn default_spec() -> Self {
        GenerationRestrictionSkipStats {
            via_way_relations: 0,
            conditional_relations: 0,
            except_relations: 0,
            restriction_variant_relations: 0,
            malformed_or_unresolved_relations: 0,
        }
    }

    /// All counters zero.
    pub fn zero() -> (res: Self)
        ensures
            res == Self::default_spec(),
    {
        GenerationRestrictionSkipStats {
            via_way_relations: 0,
            conditional_relations: 0,
            except_relations: 0,
            restriction_variant_relations: 0,
            malformed_or_unresolved_relations: 0,
        }
    }

    /// Adds one skipped relation under `reason`.
    pub fn increment(&mut self, reason: GenerationRestrictionSkipReason)
        requires
            stats_count(*old(self), reason) < u64::MAX,
        ensures
            stats_incremented(*old(self), *final(self), reason),
    {
        match reason {
            GenerationRestrictionSkipReason::ViaWay => self.via_way_relations += 1,
            GenerationRestrictionSkipReason::Conditional => self.conditional_relations += 1,
            GenerationRestrictionSkipReason::Except => self.except_relations += 1,
            GenerationRestrictionSkipReason::RestrictionVariant => {
                self.restriction_variant_relations += 1
            },
            GenerationRestrictionSkipReason::MalformedOrUnresolved => {
                self.malformed_or_unresolved_relations += 1
            },
        }
    }

    /// Whether no relation has been skipped.
    pub fn is_empty(&self) -> (res: bool)
        ensures
            res == (stats_total(*self) == 0),
    {
        self.via_way_relations == 0 && self.conditional_relations == 0 && self.except_relations
            == 0 && self.restriction_variant_relations == 0
            && self.malformed_or_unresolved_relations == 0
    }

    /// `label=count` for each reason with a positive count, in the order of the reasons.
    pub fn summary_parts(&self) -> (parts: Vec<String>)
        ensures
            parts.deep_view() == stats_summary(*self),
    {
        let mut parts: Vec<String> = Vec::new();
        assert(parts.deep_view() =~= Seq::<Seq<char>>::empty());
        push_part(&mut parts, "via_way", self.via_way_relations);
        push_part(&mut parts, "conditional", self.conditional_relations);
        push_part(&mut parts, "except", self.except_relations);
        push_part(&mut parts, "restriction_variant", self.restriction_variant_relations);
        push_part(&mut parts, "malformed_or_unresolved", self.malformed_or_unresolved_relations);
        assert(parts.deep_view() =~= stats_summary(*self));
        parts
    }
}

} // verus!
