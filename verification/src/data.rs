//! The fetch pipeline: from a date range to the arguments of the external
//! command, through the cache, and back from the command's outcome to a
//! summary.
//!
//! Running the command and decoding its output are the caller's work. The
//! pipeline decides everything around them: what the command is asked,
//! whether it has to run at all, what is stored and what the caller is
//! handed.

use crate::aggregation::{aggregates, process_resources, summary_view};
use crate::cache::{lookup, CacheEntry, OpenStackCache};
use crate::clock::MonotonicClock;
use crate::command::{build_args, query_args, Config};
use crate::dates::{
    begin_stamp_on, date_string_for, date_string_on, end_stamp_on, now_local, text_of, timestamp,
    timestamp_for, today, today_stamp, CalendarDate, DateRange, LocalMoment,
};
use crate::fingerprint::{fingerprint, fingerprint_of, texts};
use crate::models::{
    is_chart_of, process_data_at, resources_of, CategoryCost, ChartData, ResourceWrapper,
};
use vstd::prelude::*;

verus! {

/// Why a fetch brought no summary.
#[derive(Clone, Copy, Debug, PartialEq, Eq, Structural)]
pub enum FetchError {
    /// The command could not be started.
    ProcessLaunchFailed,
    /// The command ran and reported a failure.
    ProcessExitedNonZero,
    /// The command's output is no document of the expected shape.
    MalformedOutput,
}

/// What running the external command came to.
pub enum FetchOutcome<V> {
    /// The command succeeded and its output was decoded: the summary added up
    /// from the document, and the number of objects that the document holds.
    Decoded { summary: V, objects: usize },
    /// The fetch failed.
    Failed(FetchError),
}

/// What came of running the external command, before it is judged.
pub enum CommandResult {
    /// The command could not be started.
    NotLaunched,
    /// The command ran to its end: whether it reported success, and the
    /// document decoded from its output, if the output was decoded and is
    /// one.
    Exited { success: bool, document: Option<Vec<ResourceWrapper>> },
}

/// What has to happen to answer a query.
pub enum FetchPlan<'a, V> {
    /// The cache holds a valid summary for the query: nothing is run.
    Cached(&'a V),
    /// The command has to run with `args`; its outcome belongs under `key`.
    Run { key: String, args: Vec<String> },
}

/// Whether the command has to run for the query with the fingerprint `key`:
/// it does unless the cache holds a valid entry for it.
pub open spec fn fetch_must_run<V>(
    entries: Map<Seq<char>, CacheEntry<V>>,
    key: Seq<char>,
    now: u128,
) -> bool {
    lookup(entries, key, now) is None
}

/// The summary that a caller is handed for the result of a fetch: the one
/// that was fetched, or the empty one in place of a failure.
pub open spec fn summary_or_empty<V>(result: Result<V, FetchError>, empty: V) -> V {
    match result {
        Ok(summary) => summary,
        Err(_) => empty,
    }
}

/// The fetch pipeline for one configuration.
pub struct DataService {
    pub config: Config,
}

impl DataService {
    /// Creates the pipeline for `config`.
    pub fn new(config: Config) -> (service: Self)
        ensures
            service.config == config,
    {
        DataService { config }
    }

    /// The arguments of the command for `range` on the day `today`.
    pub open spec fn descriptor_on(&self, range: DateRange, today: CalendarDate) -> Seq<
        Seq<char>,
    > {
        query_args(self.config, begin_stamp_on(range, today), end_stamp_on(range, today))
    }

    /// The fingerprint of the query for `range` on the day `today`.
    pub open spec fn key_on(&self, range: DateRange, today: CalendarDate) -> Seq<char> {
        fingerprint_of(self.config.openstack_command@, self.descriptor_on(range, today))
    }

    /// Whether `plan` is the plan for `range`, given what the cache holds, on
    /// the day `today` at the time `now`.
    pub open spec fn is_plan_for<V>(
        &self,
        plan: FetchPlan<'_, V>,
        entries: Map<Seq<char>, CacheEntry<V>>,
        range: DateRange,
        today: CalendarDate,
        now: u128,
    ) -> bool {
        match plan {
            FetchPlan::Cached(summary) => lookup(entries, self.key_on(range, today), now) == Some(
                *summary,
            ),
            FetchPlan::Run { key, args } => {
                &&& fetch_must_run(entries, self.key_on(range, today), now)
                &&& key@ == self.key_on(range, today)
                &&& texts(args@) == self.descriptor_on(range, today)
            },
        }
    }

    /// Writes the stamp of an optional date bound, read on the current day.
    ///
    /// The current day comes from the system's clock; the stamp is the one
    /// that `date_string_for` gives for the bound on some day of the
    /// calendar.
    pub fn get_date_string(&self, date: Option<String>) -> (stamp: String)
        ensures
            exists|day: CalendarDate|
                day.is_valid() && stamp@ == #[trigger] date_string_on(text_of(date), day),
    {
        let day = today();
        date_string_for(&date, &day)
    }

    /// Builds the descriptor of the query for `range` on the day `today`.
    pub fn build_descriptor(&self, range: &DateRange, today: &CalendarDate) -> (args: Vec<String>)
        requires
            today.is_valid(),
        ensures
            texts(args@) == self.descriptor_on(*range, *today),
    {
        let begin = date_string_for(&range.begin_at, today);
        let end = match &range.end_at {
            Some(_) => date_string_for(&range.end_at, today),
            None => today_stamp(today),
        };
        build_args(&self.config, begin, end)
    }

    /// Plans the fetch for `range` on the day `today` at the time `now`.
    ///
    /// The plan is the cached summary if the cache holds a valid entry under
    /// the query's fingerprint; else it is to run the command.
    pub fn plan_fetch<'a, V>(
        &self,
        cache: &'a OpenStackCache<V>,
        range: &DateRange,
        today: &CalendarDate,
        now: u128,
    ) -> (plan: FetchPlan<'a, V>)
        requires
            cache.wf(),
            today.is_valid(),
        ensures
            self.is_plan_for(plan, cache@, *range, *today, now),
    {
        let args = self.build_descriptor(range, today);
        let key = fingerprint(self.config.openstack_command.as_str(), args.as_slice());
        match cache.get(key.as_str(), now) {
            Some(summary) => FetchPlan::Cached(summary),
            None => FetchPlan::Run { key, args },
        }
    }

    /// Draws the chart of a summary and stamps it with the current time.
    ///
    /// The chart is the one that `process_data_at` draws; the stamp is that
    /// of some moment, which is read from the system's clock.
    pub fn process_data<A: Fn(u64, u64) -> u64, M: Fn(u64, usize) -> u64>(
        &self,
        summary: &Vec<CategoryCost>,
        combine: A,
        mean: M,
    ) -> (chart: ChartData)
        requires
            forall|sum: u64, cost: u64| call_requires(combine, (sum, cost)),
            forall|total: u64, count: usize| count > 0 ==> call_requires(mean, (total, count)),
        ensures
            is_chart_of(chart, summary@, combine, mean),
            exists|moment: LocalMoment|
                moment.is_valid() && chart.last_updated@ == #[trigger] timestamp(moment),
    {
        let moment = now_local();
        let chart = process_data_at(summary, combine, mean, timestamp_for(&moment));
        assert(chart.last_updated@ == timestamp(moment));
        chart
    }

    /// Plans the fetch for `range` now: reads the current day and the clock,
    /// and plans for them.
    ///
    /// The time of the plan is the clock's new reading, which is not below
    /// its earlier ones; the day is some day of the calendar.
    pub fn begin_fetch<'a, V>(
        &self,
        cache: &'a OpenStackCache<V>,
        range: &DateRange,
        clock: &mut MonotonicClock,
    ) -> (plan: FetchPlan<'a, V>)
        requires
            cache.wf(),
        ensures
            final(clock).floor() >= old(clock).floor(),
            exists|day: CalendarDate|
                day.is_valid() && #[trigger] self.is_plan_for(
                    plan,
                    cache@,
                    *range,
                    day,
                    final(clock).floor(),
                ),
    {
        let day = today();
        let now = clock.now();
        let plan = self.plan_fetch(cache, range, &day, now);
        assert(self.is_plan_for(plan, cache@, *range, day, now));
        plan
    }
}

/// Judges what came of running the command.
///
/// A command that was not started, one that reported a failure and one whose
/// output is no document are the three failures. The output of a command
/// that reported a failure is not looked at. A document is added up to its
/// summary, with the caller's arithmetic, and counted.
pub fn take_command_result<R: Fn(&String) -> Option<u64>, A: Fn(u64, u64) -> u64>(
    result: CommandResult,
    rate: R,
    combine: A,
) -> (outcome: FetchOutcome<Vec<CategoryCost>>)
    requires
        forall|rating: &String| call_requires(rate, (rating,)),
        forall|sum: u64, cost: u64| call_requires(combine, (sum, cost)),
    ensures
        match result {
            CommandResult::NotLaunched => outcome == FetchOutcome::<Vec<CategoryCost>>::Failed(
                FetchError::ProcessLaunchFailed,
            ),
            CommandResult::Exited { success: false, .. } => outcome == FetchOutcome::<
                Vec<CategoryCost>,
            >::Failed(FetchError::ProcessExitedNonZero),
            CommandResult::Exited { success: true, document: None } => outcome == FetchOutcome::<
                Vec<CategoryCost>,
            >::Failed(FetchError::MalformedOutput),
            CommandResult::Exited { success: true, document: Some(d) } => {
                &&& outcome matches FetchOutcome::Decoded { summary, objects }
                &&& objects == d@.len()
                &&& aggregates(rate, combine, resources_of(d@), summary_view(summary@))
            },
        },
{
    match result {
        CommandResult::NotLaunched => FetchOutcome::Failed(FetchError::ProcessLaunchFailed),
        CommandResult::Exited { success, document } => {
            if !success {
                FetchOutcome::Failed(FetchError::ProcessExitedNonZero)
            } else {
                match document {
                    None => FetchOutcome::Failed(FetchError::MalformedOutput),
                    Some(d) => {
                        let objects = d.len();
                        let summary = process_resources(d, rate, combine);
                        FetchOutcome::Decoded { summary, objects }
                    },
                }
            }
        },
    }
}

/// Takes the outcome of a fetch that ran for `key` at the time `now`.
///
/// A summary that was decoded from a document with at least one object is
/// stored under `key`, with the cache's default time to live, and handed
/// back. One from an empty document is handed back and not stored. A failure
/// is handed back and leaves the cache as it was, so that the next query
/// runs the command again.
pub fn finish_fetch<V: Clone>(
    cache: &mut OpenStackCache<V>,
    key: String,
    outcome: FetchOutcome<V>,
    now: u128,
) -> (result: Result<V, FetchError>)
    requires
        old(cache).wf(),
    ensures
        final(cache).wf(),
        final(cache).default_ttl() == old(cache).default_ttl(),
        match outcome {
            FetchOutcome::Decoded { summary, objects } => {
                &&& result == Ok::<V, FetchError>(summary)
                &&& if objects > 0 {
                    let stored = final(cache)@[key@];
                    &&& final(cache)@ == old(cache)@.insert(key@, stored)
                    &&& cloned(summary, stored.data)
                    &&& stored.created_at == now
                    &&& stored.ttl == old(cache).default_ttl()
                } else {
                    final(cache)@ == old(cache)@
                }
            },
            FetchOutcome::Failed(error) => {
                &&& result == Err::<V, FetchError>(error)
                &&& final(cache)@ == old(cache)@
            },
        },
{
    match outcome {
        FetchOutcome::Decoded { summary, objects } => {
            if objects > 0 {
                cache.set(key, summary.clone(), now);
            }
            Ok(summary)
        },
        FetchOutcome::Failed(error) => Err(error),
    }
}

/// Turns the result of a fetch into what a caller is handed: the summary, or
/// `empty` in place of a failure. No caller sees an error.
pub fn degrade<V>(result: Result<V, FetchError>, empty: V) -> (summary: V)
    ensures
        summary == summary_or_empty(result, empty),
{
    match result {
        Ok(summary) => summary,
        Err(_) => empty,
    }
}

/// No failure is cached. A failed fetch leaves the cache as it was; so where
/// the command had to run for a query and failed, it has to run again for the
/// same query at any later time.
pub proof fn law_failed_fetch_runs_again<V>(
    entries: Map<Seq<char>, CacheEntry<V>>,
    key: Seq<char>,
    first: u128,
    second: u128,
)
    requires
        first <= second,
        fetch_must_run(entries, key, first),
    ensures
        fetch_must_run(entries, key, second),
{
}

} // verus!
