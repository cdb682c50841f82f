//! The exposition of the metrics that the sampling loop keeps.

use vstd::prelude::*;
use prometheus::proto::{MetricFamily, MetricType};
use prometheus::{Registry, TextEncoder};
use crate::text::text_of;

verus! {

/// `prometheus::Registry`: the metrics that were registered. Nothing is
/// seen of what it holds.
#[verifier::external_type_specification]
#[verifier::external_body]
pub struct ExRegistry(prometheus::Registry);

/// `prometheus::proto::MetricFamily`: the state of one metric, as
/// gathered. Nothing is seen of what it holds.
#[verifier::external_type_specification]
#[verifier::external_body]
pub struct ExMetricFamily(prometheus::proto::MetricFamily);

/// `prometheus::proto::MetricType`, with its variants: the kinds of metric
/// that a family can hold.
#[verifier::external_type_specification]
pub struct ExMetricType(prometheus::proto::MetricType);

/// The kind of metric that a family holds.
pub uninterp spec fn family_type(family: MetricFamily) -> MetricType;

/// What the text encoder of `prometheus` makes of a list of metric
/// families: the text exposition format, or none where it refuses one of
/// them. The text depends on the families alone, not on when or where it
/// is made.
pub uninterp spec fn encoded_text(families: Seq<MetricFamily>) -> Option<Seq<char>>;

/// One of the families is untyped. The text encoder has no form for such
/// a family.
pub open spec fn has_untyped(families: Seq<MetricFamily>) -> bool {
    exists|i: int| 0 <= i < families.len() && family_type(#[trigger] families[i]) is UNTYPED
}

/// The exposition of a list of metric families: what the encoder makes of
/// them, and none where one of them is untyped.
pub open spec fn exposition_of(families: Seq<MetricFamily>) -> Option<Seq<char>> {
    if has_untyped(families) {
        None
    } else {
        encoded_text(families)
    }
}

/// `prometheus::Registry::gather`: the state of every metric registered,
/// at the moment of the call. It depends on what the process has counted,
/// so nothing is claimed of it.
#[verifier::external_body]
fn gather(registry: &Registry) -> Vec<MetricFamily> {
    registry.gather()
}

/// `prometheus::proto::MetricFamily::get_field_type`: the kind of metric
/// that the family holds.
#[verifier::external_body]
fn field_type(family: &MetricFamily) -> (kind: MetricType)
    ensures
        kind == family_type(*family),
{
    family.get_field_type()
}

/// `prometheus::TextEncoder::encode_to_string`: the metric families in the
/// text exposition format, or nothing where the encoder gives an error.
/// The text depends on the families alone: that is all that is claimed.
/// The encoder panics on an untyped family, so none may be handed to it.
#[verifier::external_body]
fn encode_text(families: &Vec<MetricFamily>) -> (text: Option<String>)
    requires
        !has_untyped(families@),
    ensures
        text_of(text) == encoded_text(families@),
{
    TextEncoder.encode_to_string(families).ok()
}

/// Tells whether one of the families is untyped.
fn any_untyped(families: &Vec<MetricFamily>) -> (found: bool)
    ensures
        found == has_untyped(families@),
{
    let mut i: usize = 0;
    while i < families.len()
        invariant
            i <= families.len(),
            forall|k: int| 0 <= k < i ==> !(family_type(#[trigger] families@[k]) is UNTYPED),
        decreases families.len() - i,
    {
        match field_type(&families[i]) {
            MetricType::UNTYPED => {
                return true;
            },
            _ => {},
        }
        i += 1;
    }
    false
}

/// The metric families in the text exposition format, or nothing where
/// they cannot be encoded: where one of them is untyped, or where the
/// encoder refuses one.
pub fn encode_families(families: &Vec<MetricFamily>) -> (text: Option<String>)
    ensures
        text_of(text) == exposition_of(families@),
{
    if any_untyped(families) {
        None
    } else {
        encode_text(families)
    }
}

/// The metrics of the registry in the text exposition format, or nothing
/// where they cannot be encoded: the exposition of the metric families,
/// whichever the registry holds at the moment.
pub fn exposition(registry: &Registry) -> (text: Option<String>)
    ensures
        exists|families: Seq<MetricFamily>| text_of(text) == exposition_of(families),
{
    let families = gather(registry);
    let text = encode_families(&families);
    assert(text_of(text) == exposition_of(families@));
    text
}

} // verus!
