//! Adding up the cost of each service from the records of a document.
//!
//! The arithmetic is the caller's: it hands in how the rating of a record
//! becomes a cost and how two costs are added. What is decided here is which
//! records count, under which service, and in which order: a record whose
//! rating is no number is skipped, and a service is listed where it first
//! brought a cost.

use crate::models::{all_resources, resources_of, CategoryCost, Resource, ResourceWrapper};
use vstd::prelude::*;

verus! {

/// A summary as plain values: each service with its accumulated cost.
pub type SummaryView = Seq<(Seq<char>, u64)>;

/// The views of the categories of a summary.
pub open spec fn summary_view(summary: Seq<CategoryCost>) -> SummaryView {
    summary.map_values(|category: CategoryCost| (category.service@, category.cost))
}

/// Whether `place` is the first that lists `service`.
pub open spec fn is_place_of(summary: SummaryView, service: Seq<char>, place: int) -> bool {
    &&& 0 <= place < summary.len()
    &&& summary[place].0 == service
    &&& forall|before: int| 0 <= before < place ==> (#[trigger] summary[before]).0 != service
}

/// Whether the summary lists `service`.
pub open spec fn lists_service(summary: SummaryView, service: Seq<char>) -> bool {
    exists|place: int| is_place_of(summary, service, place)
}

/// The first place that lists `service`.
pub open spec fn place_of(summary: SummaryView, service: Seq<char>) -> int {
    choose|place: int| is_place_of(summary, service, place)
}

/// The cost that the summary holds for `service`: the cost of nothing, whose
/// pattern is zero, where the service is not listed.
pub open spec fn sum_for(summary: SummaryView, service: Seq<char>) -> u64 {
    if lists_service(summary, service) {
        summary[place_of(summary, service)].1
    } else {
        0
    }
}

/// The summary with the cost of `service` set to `sum`: in place where the
/// service is listed, else as a new last category.
pub open spec fn with_sum(summary: SummaryView, service: Seq<char>, sum: u64) -> SummaryView {
    if lists_service(summary, service) {
        summary.update(place_of(summary, service), (service, sum))
    } else {
        summary.push((service, sum))
    }
}

/// Whether `after` is `before` with one record added up.
///
/// The record's rating is turned into a cost by `rate`; where `rate` gives
/// none, the record is skipped. Else the cost is added by `add` to what the
/// summary holds for the record's service.
pub open spec fn adds_record<R: Fn(&String) -> Option<u64>, A: Fn(u64, u64) -> u64>(
    rate: R,
    combine: A,
    record: Resource,
    before: SummaryView,
    after: SummaryView,
) -> bool {
    exists|cost: Option<u64>, sum: u64| #[trigger]
        record_effect(rate, combine, record, before, after, cost, sum)
}

/// Whether `after` is `before` with one record added up, where `rate` gave
/// `cost` and `add`, if it was called, gave `sum`.
pub open spec fn record_effect<R: Fn(&String) -> Option<u64>, A: Fn(u64, u64) -> u64>(
    rate: R,
    combine: A,
    record: Resource,
    before: SummaryView,
    after: SummaryView,
    cost: Option<u64>,
    sum: u64,
) -> bool {
    &&& call_ensures(rate, (&record.rating,), cost)
    &&& match cost {
        Some(amount) => {
            &&& call_ensures(combine, (sum_for(before, record.service@), amount), sum)
            &&& after == with_sum(before, record.service@, sum)
        },
        None => after == before,
    }
}

/// Whether `summary` is what the records add up to, taken in order from an
/// empty summary.
pub open spec fn aggregates<R: Fn(&String) -> Option<u64>, A: Fn(u64, u64) -> u64>(
    rate: R,
    combine: A,
    records: Seq<Resource>,
    summary: SummaryView,
) -> bool
    decreases records.len(),
{
    if records.len() == 0 {
        summary.len() == 0
    } else {
        exists|before: SummaryView|
            aggregates(rate, combine, records.drop_last(), before) && #[trigger] adds_record(
                rate,
                combine,
                records.last(),
                before,
                summary,
            )
    }
}

/// The index of the category of `service`, if the summary lists it.
fn find_service(summary: &Vec<CategoryCost>, service: &String) -> (found: Option<usize>)
    ensures
        match found {
            Some(place) => is_place_of(summary_view(summary@), service@, place as int),
            None => !lists_service(summary_view(summary@), service@),
        },
{
    let ghost view = summary_view(summary@);
    let mut i: usize = 0;
    while i < summary.len()
        invariant
            i <= summary@.len(),
            view == summary_view(summary@),
            forall|j: int| 0 <= j < i ==> (#[trigger] view[j]).0 != service@,
        decreases summary@.len() - i,
    {
        if summary[i].service == *service {
            assert(view[i as int].0 == service@);
            return Some(i);
        }
        i += 1;
    }
    assert forall|place: int| !is_place_of(view, service@, place) by {
        if 0 <= place < view.len() {
            assert(view[place].0 != service@);
        }
    }
    None
}

/// The place of a service is the one place that is its first.
proof fn lemma_place_is_unique(summary: SummaryView, service: Seq<char>, place: int)
    requires
        is_place_of(summary, service, place),
    ensures
        lists_service(summary, service),
        place_of(summary, service) == place,
{
    let chosen = place_of(summary, service);
    assert(is_place_of(summary, service, chosen));
    if chosen < place {
        assert(summary[chosen].0 != service);
    } else if place < chosen {
        assert(summary[place].0 != service);
    }
}

/// Records add up to `after` if all but the last add up to `before` and the
/// last leads from `before` to `after`.
proof fn lemma_aggregates_one_more<R: Fn(&String) -> Option<u64>, A: Fn(u64, u64) -> u64>(
    rate: R,
    combine: A,
    records: Seq<Resource>,
    before: SummaryView,
    after: SummaryView,
)
    requires
        records.len() > 0,
        aggregates(rate, combine, records.drop_last(), before),
        adds_record(rate, combine, records.last(), before, after),
    ensures
        aggregates(rate, combine, records, after),
{
}

/// Adds up the cost of each service over the resources of a document.
///
/// The resources are taken object after object, each object's in their
/// order. `rate` turns a rating into a cost, or into nothing where the
/// rating is no number; `add` adds a cost to a sum. A service enters the
/// summary with the first of its records that has a cost, which is added to
/// the cost of nothing.
pub fn process_resources<R: Fn(&String) -> Option<u64>, A: Fn(u64, u64) -> u64>(
    document: Vec<ResourceWrapper>,
    rate: R,
    combine: A,
) -> (summary: Vec<CategoryCost>)
    requires
        forall|rating: &String| call_requires(rate, (rating,)),
        forall|sum: u64, cost: u64| call_requires(combine, (sum, cost)),
    ensures
        aggregates(rate, combine, resources_of(document@), summary_view(summary@)),
{
    let records = all_resources(document);
    let mut summary: Vec<CategoryCost> = Vec::new();
    let mut i: usize = 0;
    assert(records@.take(0) =~= Seq::<Resource>::empty());
    assert(summary_view(summary@) =~= Seq::<(Seq<char>, u64)>::empty());
    while i < records.len()
        invariant
            i <= records@.len(),
            forall|rating: &String| call_requires(rate, (rating,)),
            forall|sum: u64, cost: u64| call_requires(combine, (sum, cost)),
            aggregates(rate, combine, records@.take(i as int), summary_view(summary@)),
        decreases records@.len() - i,
    {
        let record = &records[i];
        let ghost before = summary_view(summary@);
        let ghost upto = records@.take(i + 1);
        proof {
            assert(upto.drop_last() == records@.take(i as int));
            assert(upto.last() == *record);
        }
        let cost = rate(&record.rating);
        match cost {
            Some(amount) => {
                match find_service(&summary, &record.service) {
                    Some(place) => {
                        proof {
                            lemma_place_is_unique(before, record.service@, place as int);
                        }
                        let sum = combine(summary[place].cost, amount);
                        summary[place].cost = sum;
                        proof {
                            let after = summary_view(summary@);
                            assert(after =~= with_sum(before, record.service@, sum));
                            assert(record_effect(rate, combine, *record, before, after, cost, sum));
                        }
                    },
                    None => {
                        let sum = combine(0, amount);
                        summary.push(CategoryCost { service: record.service.clone(), cost: sum });
                        proof {
                            let after = summary_view(summary@);
                            assert(after =~= with_sum(before, record.service@, sum));
                            assert(record_effect(rate, combine, *record, before, after, cost, sum));
                        }
                    },
                }
            },
            None => {
                assert(record_effect(rate, combine, *record, before, before, cost, 0));
            },
        }
        proof {
            let after = summary_view(summary@);
            assert(adds_record(rate, combine, upto.last(), before, after));
            assert(aggregates(rate, combine, upto.drop_last(), before));
            lemma_aggregates_one_more(rate, combine, upto, before, after);
        }
        i += 1;
    }
    assert(records@.take(records@.len() as int) == records@);
    summary
}

/// Whether `rate` gives one answer for each rating.
pub open spec fn rates_as_a_function<R: Fn(&String) -> Option<u64>>(rate: R) -> bool {
    forall|rating: &String, one: Option<u64>, other: Option<u64>|
        #[trigger] call_ensures(rate, (rating,), one) && #[trigger] call_ensures(
            rate,
            (rating,),
            other,
        ) ==> one == other
}

/// Whether `combine` gives one answer for each sum and cost.
pub open spec fn combines_as_a_function<A: Fn(u64, u64) -> u64>(combine: A) -> bool {
    forall|sum: u64, cost: u64, one: u64, other: u64|
        #[trigger] call_ensures(combine, (sum, cost), one) && #[trigger] call_ensures(
            combine,
            (sum, cost),
            other,
        ) ==> one == other
}

/// Whether no service is listed twice.
pub open spec fn lists_each_service_once(summary: SummaryView) -> bool {
    forall|i: int, j: int|
        0 <= i < j < summary.len() ==> (#[trigger] summary[i]).0 != (#[trigger] summary[j]).0
}

/// A service that stands at some place of a summary is listed by it.
proof fn lemma_mentioned_is_listed(summary: SummaryView, service: Seq<char>, place: int)
    requires
        0 <= place < summary.len(),
        summary[place].0 == service,
    ensures
        lists_service(summary, service),
    decreases place,
{
    if exists|earlier: int| 0 <= earlier < place && (#[trigger] summary[earlier]).0 == service {
        let earlier = choose|earlier: int|
            0 <= earlier < place && (#[trigger] summary[earlier]).0 == service;
        lemma_mentioned_is_listed(summary, service, earlier);
    } else {
        assert(is_place_of(summary, service, place));
    }
}

/// Setting the sum of a service keeps each service listed once.
proof fn lemma_with_sum_keeps_services_apart(summary: SummaryView, service: Seq<char>, sum: u64)
    requires
        lists_each_service_once(summary),
    ensures
        lists_each_service_once(with_sum(summary, service, sum)),
{
    let after = with_sum(summary, service, sum);
    if lists_service(summary, service) {
        let place = place_of(summary, service);
        assert(is_place_of(summary, service, place));
        assert forall|i: int, j: int| 0 <= i < j < after.len() implies (#[trigger] after[i]).0
            != (#[trigger] after[j]).0 by {
            assert(after[i].0 == summary[i].0);
            assert(after[j].0 == summary[j].0);
        }
    } else {
        assert forall|i: int, j: int| 0 <= i < j < after.len() implies (#[trigger] after[i]).0
            != (#[trigger] after[j]).0 by {
            if j == summary.len() {
                assert(after[i] == summary[i]);
                if summary[i].0 == service {
                    lemma_mentioned_is_listed(summary, service, i);
                }
            } else {
                assert(after[i] == summary[i] && after[j] == summary[j]);
            }
        }
    }
}

/// Keys are unique: whatever the arithmetic, a summary that records add up
/// to lists each service once.
pub proof fn law_summary_lists_each_service_once<
    R: Fn(&String) -> Option<u64>,
    A: Fn(u64, u64) -> u64,
>(rate: R, combine: A, records: Seq<Resource>, summary: SummaryView)
    requires
        aggregates(rate, combine, records, summary),
    ensures
        lists_each_service_once(summary),
    decreases records.len(),
{
    if records.len() > 0 {
        let before = choose|before: SummaryView|
            aggregates(rate, combine, records.drop_last(), before) && #[trigger] adds_record(
                rate,
                combine,
                records.last(),
                before,
                summary,
            );
        law_summary_lists_each_service_once(rate, combine, records.drop_last(), before);
        let (cost, sum) = choose|cost: Option<u64>, sum: u64| #[trigger]
            record_effect(rate, combine, records.last(), before, summary, cost, sum);
        if cost is Some {
            lemma_with_sum_keeps_services_apart(before, records.last().service@, sum);
        }
    }
}

/// The arithmetic decides the summary: where `rate` and `combine` give one
/// answer for each input, the records add up to one summary and no other.
pub proof fn law_aggregate_is_unique<R: Fn(&String) -> Option<u64>, A: Fn(u64, u64) -> u64>(
    rate: R,
    combine: A,
    records: Seq<Resource>,
    one: SummaryView,
    other: SummaryView,
)
    requires
        rates_as_a_function(rate),
        combines_as_a_function(combine),
        aggregates(rate, combine, records, one),
        aggregates(rate, combine, records, other),
    ensures
        one == other,
    decreases records.len(),
{
    if records.len() == 0 {
        assert(one =~= other);
    } else {
        let last = records.last();
        let before_one = choose|before: SummaryView|
            aggregates(rate, combine, records.drop_last(), before) && #[trigger] adds_record(
                rate,
                combine,
                last,
                before,
                one,
            );
        let before_other = choose|before: SummaryView|
            aggregates(rate, combine, records.drop_last(), before) && #[trigger] adds_record(
                rate,
                combine,
                last,
                before,
                other,
            );
        law_aggregate_is_unique(rate, combine, records.drop_last(), before_one, before_other);
        let (cost_one, sum_one) = choose|cost: Option<u64>, sum: u64| #[trigger]
            record_effect(rate, combine, last, before_one, one, cost, sum);
        let (cost_other, sum_other) = choose|cost: Option<u64>, sum: u64| #[trigger]
            record_effect(rate, combine, last, before_other, other, cost, sum);
        assert(call_ensures(rate, (&last.rating,), cost_one));
        assert(call_ensures(rate, (&last.rating,), cost_other));
        assert(cost_one == cost_other);
        if let Some(amount) = cost_one {
            let held = sum_for(before_one, last.service@);
            assert(call_ensures(combine, (held, amount), sum_one));
            assert(call_ensures(combine, (held, amount), sum_other));
        }
    }
}

} // verus!
