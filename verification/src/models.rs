//! The data that the dashboard shows: the cost of each category, and the
//! chart that is drawn from them.
//!
//! A cost is a binary64 number. This library carries it as its bit pattern,
//! orders it by that pattern and never computes with it: how costs are added
//! and averaged is handed in by the caller.

use crate::ranking::{
    descending_order, is_descending_order, law_descending_order_is_unique, order_key,
    order_key_of, ranks_before,
};
use vstd::prelude::*;

verus! {

/// The accumulated cost of one category: the name of the service and the bit
/// pattern of the cost.
#[derive(Clone, Debug)]
pub struct CategoryCost {
    pub service: String,
    pub cost: u64,
}

/// The chart that is sent to the front end: the categories by descending
/// cost with their costs in a parallel list, the total, the number of
/// categories, the average, and the time of the last update. Costs are bit
/// patterns of binary64 numbers.
#[derive(Clone, Debug)]
pub struct ChartData {
    pub labels: Vec<String>,
    pub values: Vec<u64>,
    pub total_cost: u64,
    pub service_count: usize,
    pub average_cost: u64,
    pub last_updated: String,
}

/// The order keys of the costs of a summary.
pub open spec fn cost_keys(summary: Seq<CategoryCost>) -> Seq<u64> {
    summary.map_values(|category: CategoryCost| order_key_of(category.cost))
}

impl ChartData {
    /// A chart is well formed when it has one label and one value for each
    /// category and no value is followed by a higher one.
    pub open spec fn wf(&self) -> bool {
        &&& self.labels@.len() == self.service_count
        &&& self.values@.len() == self.service_count
        &&& forall|i: int, j: int|
            0 <= i < j < self.values@.len() ==> order_key_of(#[trigger] self.values@[i])
                >= order_key_of(#[trigger] self.values@[j])
    }

    /// Whether the chart lists the categories of `summary` in the order
    /// `order`: label and value number `i` are those of the category at
    /// position `order[i]`.
    pub open spec fn lists_in_order(&self, summary: Seq<CategoryCost>, order: Seq<usize>) -> bool {
        &&& self.labels@.len() == order.len()
        &&& self.values@.len() == order.len()
        &&& forall|i: int|
            0 <= i < order.len() ==> {
                &&& (#[trigger] self.labels@[i])@ == summary[order[i] as int].service@
                &&& self.values@[i] == summary[order[i] as int].cost
            }
    }

    /// The chart of no data: no category, a total and an average of zero, no
    /// time of update.
    pub fn empty() -> (chart: Self)
        ensures
            chart.wf(),
            chart.labels@.len() == 0,
            chart.values@.len() == 0,
            chart.total_cost == 0,
            chart.service_count == 0,
            chart.average_cost == 0,
            chart.last_updated@.len() == 0,
    {
        ChartData {
            labels: Vec::new(),
            values: Vec::new(),
            total_cost: 0,
            service_count: 0,
            average_cost: 0,
            last_updated: String::new(),
        }
    }
}

/// Whether `total` is what the values add up to, taken in order from the
/// cost of nothing, whose pattern is zero.
pub open spec fn totals<A: Fn(u64, u64) -> u64>(combine: A, values: Seq<u64>, total: u64) -> bool
    decreases values.len(),
{
    if values.len() == 0 {
        total == 0
    } else {
        exists|before: u64|
            totals(combine, values.drop_last(), before) && #[trigger] call_ensures(
                combine,
                (before, values.last()),
                total,
            )
    }
}

/// Whether `average` is the average of `count` values with the total
/// `total`: what `mean` makes of them, and zero where there is no value.
pub open spec fn averages<M: Fn(u64, usize) -> u64>(
    mean: M,
    total: u64,
    count: usize,
    average: u64,
) -> bool {
    if count == 0 {
        average == 0
    } else {
        call_ensures(mean, (total, count), average)
    }
}

/// Whether `chart` is the chart of `summary`: it is well formed, lists every
/// category of the summary once, by descending cost and, among equal costs,
/// in the order of the summary, and holds the total of its values and their
/// average.
pub open spec fn is_chart_of<A: Fn(u64, u64) -> u64, M: Fn(u64, usize) -> u64>(
    chart: ChartData,
    summary: Seq<CategoryCost>,
    combine: A,
    mean: M,
) -> bool {
    &&& chart.wf()
    &&& exists|order: Seq<usize>|
        #[trigger] is_descending_order(cost_keys(summary), order) && chart.lists_in_order(
            summary,
            order,
        )
    &&& chart.service_count == summary.len()
    &&& totals(combine, chart.values@, chart.total_cost)
    &&& averages(mean, chart.total_cost, chart.service_count, chart.average_cost)
}

/// Adds up values in order.
fn total_of<A: Fn(u64, u64) -> u64>(values: &Vec<u64>, combine: &A) -> (total: u64)
    requires
        forall|sum: u64, cost: u64| call_requires(*combine, (sum, cost)),
    ensures
        totals(*combine, values@, total),
{
    let mut total: u64 = 0;
    let mut i: usize = 0;
    assert(values@.take(0) =~= Seq::<u64>::empty());
    while i < values.len()
        invariant
            i <= values@.len(),
            forall|sum: u64, cost: u64| call_requires(*combine, (sum, cost)),
            totals(*combine, values@.take(i as int), total),
        decreases values@.len() - i,
    {
        let ghost before = total;
        let ghost upto = values@.take(i + 1);
        proof {
            assert(upto.drop_last() == values@.take(i as int));
            assert(upto.last() == values@[i as int]);
        }
        total = combine(total, values[i]);
        assert(call_ensures(*combine, (before, upto.last()), total));
        assert(totals(*combine, upto, total));
        i += 1;
    }
    assert(values@.take(values@.len() as int) == values@);
    total
}

/// Draws the chart of a summary.
///
/// The categories are listed by descending cost; categories of equal cost
/// stay in the order of the summary. The total is added up by `combine` over
/// the listed values in their order; the average is what `mean` makes of the
/// total and the number of categories, and zero for a summary without
/// categories. The time of the update is the caller's.
pub fn process_data_at<A: Fn(u64, u64) -> u64, M: Fn(u64, usize) -> u64>(
    summary: &Vec<CategoryCost>,
    combine: A,
    mean: M,
    last_updated: String,
) -> (chart: ChartData)
    requires
        forall|sum: u64, cost: u64| call_requires(combine, (sum, cost)),
        forall|total: u64, count: usize| count > 0 ==> call_requires(mean, (total, count)),
    ensures
        is_chart_of(chart, summary@, combine, mean),
        chart.last_updated == last_updated,
{
    let mut keys: Vec<u64> = Vec::new();
    let mut i: usize = 0;
    while i < summary.len()
        invariant
            i <= summary@.len(),
            keys@.len() == i,
            forall|j: int| 0 <= j < i ==> #[trigger] keys@[j] == order_key_of(summary@[j].cost),
        decreases summary@.len() - i,
    {
        keys.push(order_key(summary[i].cost));
        i += 1;
    }
    assert(keys@ =~= cost_keys(summary@));
    let order = descending_order(&keys);
    let mut labels: Vec<String> = Vec::new();
    let mut values: Vec<u64> = Vec::new();
    let mut rank: usize = 0;
    while rank < order.len()
        invariant
            rank <= order@.len(),
            keys@ == cost_keys(summary@),
            is_descending_order(keys@, order@),
            labels@.len() == rank,
            values@.len() == rank,
            forall|k: int|
                0 <= k < rank ==> {
                    &&& (#[trigger] labels@[k])@ == summary@[order@[k] as int].service@
                    &&& values@[k] == summary@[order@[k] as int].cost
                },
        decreases order@.len() - rank,
    {
        let position = order[rank];
        let category = &summary[position];
        let ghost listed = labels@;
        let ghost valued = values@;
        let label = category.service.clone();
        assert(label@ == summary@[order@[rank as int] as int].service@);
        labels.push(label);
        values.push(category.cost);
        assert forall|k: int| 0 <= k < rank + 1 implies {
            &&& (#[trigger] labels@[k])@ == summary@[order@[k] as int].service@
            &&& values@[k] == summary@[order@[k] as int].cost
        } by {
            if k < rank {
                assert(labels@[k] == listed[k]);
                assert(values@[k] == valued[k]);
            }
        }
        rank += 1;
    }
    let service_count = summary.len();
    let total_cost = total_of(&values, &combine);
    let average_cost = if service_count > 0 {
        mean(total_cost, service_count)
    } else {
        0
    };
    let chart = ChartData {
        labels,
        values,
        total_cost,
        service_count,
        average_cost,
        last_updated,
    };
    proof {
        assert forall|a: int, b: int| 0 <= a < b < chart.values@.len() implies order_key_of(
            #[trigger] chart.values@[a],
        ) >= order_key_of(#[trigger] chart.values@[b]) by {
            let pa = order@[a] as int;
            let pb = order@[b] as int;
            assert(chart.labels@[a]@ == summary@[pa].service@);
            assert(chart.labels@[b]@ == summary@[pb].service@);
            assert(ranks_before(keys@, pa, pb));
            assert(keys@[pa] == order_key_of(summary@[pa].cost));
            assert(keys@[pb] == order_key_of(summary@[pb].cost));
        }
        assert(chart.lists_in_order(summary@, order@));
        assert(is_descending_order(cost_keys(summary@), order@));
    }
    chart
}

/// Ties are broken by the summary alone: two charts that list the categories
/// of one summary by descending cost have the same labels and the same
/// values, rank by rank.
pub proof fn law_chart_order_is_decided(
    summary: Seq<CategoryCost>,
    one: ChartData,
    one_order: Seq<usize>,
    other: ChartData,
    other_order: Seq<usize>,
)
    requires
        is_descending_order(cost_keys(summary), one_order),
        one.lists_in_order(summary, one_order),
        is_descending_order(cost_keys(summary), other_order),
        other.lists_in_order(summary, other_order),
    ensures
        one.values@ == other.values@,
        one.labels@.len() == other.labels@.len(),
        forall|i: int| 0 <= i < one.labels@.len() ==> one.labels@[i]@ == other.labels@[i]@,
{
    law_descending_order_is_unique(cost_keys(summary), one_order, other_order);
    assert forall|i: int| 0 <= i < one.labels@.len() implies one.labels@[i]@
        == other.labels@[i]@ && one.values@[i] == other.values@[i] by {
        assert(one.labels@[i]@ == summary[one_order[i] as int].service@);
        assert(other.labels@[i]@ == summary[other_order[i] as int].service@);
    }
    assert(one.values@ =~= other.values@);
}

/// One rated resource of the external command's output: the rating, a
/// number written as text, and the service that it was rated for.
#[derive(Clone, Debug)]
pub struct Resource {
    pub rating: String,
    pub service: String,
}

/// One object of the external command's output: a list of rated resources.
#[derive(Debug)]
pub struct ResourceWrapper {
    pub resources: Vec<Resource>,
}

/// The resources of a document, object after object, each object's in their
/// order.
pub open spec fn resources_of(document: Seq<ResourceWrapper>) -> Seq<Resource>
    decreases document.len(),
{
    if document.len() == 0 {
        Seq::empty()
    } else {
        resources_of(document.drop_last()) + document.last().resources@
    }
}

/// Lays out the resources of a decoded document in the order in which their
/// costs are added up.
pub fn all_resources(document: Vec<ResourceWrapper>) -> (resources: Vec<Resource>)
    ensures
        resources@ == resources_of(document@),
{
    let ghost whole = document@;
    let mut resources: Vec<Resource> = Vec::new();
    for wrapper in objects: document
        invariant
            objects.seq() == whole,
            resources@ == resources_of(whole.take(objects.index() as int)),
    {
        let ghost index = objects.index() as int;
        let mut block = wrapper.resources;
        proof {
            let upto = whole.take(index + 1);
            assert(upto.drop_last() == whole.take(index));
            assert(upto.last() == wrapper);
        }
        resources.append(&mut block);
    }
    assert(whole.take(whole.len() as int) == whole);
    resources
}

} // verus!
