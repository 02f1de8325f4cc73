//! Choosing a comparator by the name a user gives on the command line.
use vstd::prelude::*;

use crate::error::TvaError;
use crate::text::{chars_of, same_text, string_from_chars};

verus! {

/// The comparison metrics that can be chosen by name.
#[derive(Debug, Clone, Copy, PartialEq, Eq, Structural)]
pub enum MetricKind {
    Ssim,
    Hybrid,
    Mad,
}

/// The metric called `name`, if any.
pub open spec fn metric_named(name: Seq<char>) -> Option<MetricKind> {
    if name == "ssim"@ {
        Some(MetricKind::Ssim)
    } else if name == "hybrid"@ {
        Some(MetricKind::Hybrid)
    } else if name == "mad"@ {
        Some(MetricKind::Mad)
    } else {
        None
    }
}

/// The metric called `name` (`ssim`, `hybrid` or `mad`); any other name is
/// refused as unknown.
pub fn metric_by_name(name: &str) -> (r: Result<MetricKind, TvaError>)
    ensures
        metric_named(name@) matches Some(k) ==> r == Ok::<MetricKind, TvaError>(k),
        metric_named(name@) is None ==> (r matches Err(TvaError::UnknownMetric(m)) && m@
            == name@),
{
    let chars = chars_of(name);
    if same_text(&chars, "ssim") {
        Ok(MetricKind::Ssim)
    } else if same_text(&chars, "hybrid") {
        Ok(MetricKind::Hybrid)
    } else if same_text(&chars, "mad") {
        Ok(MetricKind::Mad)
    } else {
        Err(TvaError::UnknownMetric(string_from_chars(chars.as_slice())))
    }
}

/// Each comparator's own name (`ssim`, `hybrid`, `mad`) selects that
/// comparator's metric.
pub proof fn lemma_comparator_names_select_their_metric()
    ensures
        metric_named("ssim"@) == Some(MetricKind::Ssim),
        metric_named("hybrid"@) == Some(MetricKind::Hybrid),
        metric_named("mad"@) == Some(MetricKind::Mad),
{
    reveal_strlit("ssim");
    reveal_strlit("hybrid");
    reveal_strlit("mad");
    assert("hybrid"@.len() != "ssim"@.len());
    assert("mad"@.len() != "ssim"@.len());
    assert("mad"@.len() != "hybrid"@.len());
}


/// Only the three comparator names select a metric; every other name is
/// refused.
pub proof fn lemma_only_comparator_names_select_a_metric(name: Seq<char>)
    ensures
        metric_named(name) is Some <==> (name == "ssim"@ || name == "hybrid"@ || name
            == "mad"@),
        metric_named(name) == Some(MetricKind::Ssim) <==> name == "ssim"@,
        metric_named(name) == Some(MetricKind::Hybrid) <==> name == "hybrid"@,
        metric_named(name) == Some(MetricKind::Mad) <==> name == "mad"@,
{
    lemma_comparator_names_select_their_metric();
}

} // verus!
