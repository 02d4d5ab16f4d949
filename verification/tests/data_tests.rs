use openstack_cost_dashboard::cache::OpenStackCache;
use openstack_cost_dashboard::clock::MonotonicClock;
use openstack_cost_dashboard::command::{build_args, redact_sensitive_args, Config};
use openstack_cost_dashboard::data::{
    degrade, finish_fetch, take_command_result, CommandResult, DataService, FetchError,
    FetchOutcome, FetchPlan,
};
use openstack_cost_dashboard::dates::{CalendarDate, DateRange};
use openstack_cost_dashboard::fingerprint::fingerprint;
use openstack_cost_dashboard::models::{CategoryCost, Resource, ResourceWrapper};

const SECOND: u128 = 1_000_000_000;

fn strings(items: &[&str]) -> Vec<String> {
    items.iter().map(|s| s.to_string()).collect()
}

fn bare_config() -> Config {
    Config {
        openstack_command: "openstack".to_string(),
        os_auth_url: String::new(),
        os_username: String::new(),
        os_password: String::new(),
        os_project_id: String::new(),
        os_region_name: String::new(),
        os_user_domain_name: String::new(),
    }
}

fn full_config() -> Config {
    Config {
        openstack_command: "openstack".to_string(),
        os_auth_url: "https://keystone.example:5000/v3".to_string(),
        os_username: "alice".to_string(),
        os_password: "hunter2".to_string(),
        os_project_id: "p-42".to_string(),
        os_region_name: "rc3-a".to_string(),
        os_user_domain_name: "Default".to_string(),
    }
}

fn no_range() -> DateRange {
    DateRange { begin_at: None, end_at: None }
}

fn march_15() -> CalendarDate {
    CalendarDate { year: 2024, month: 3, day: 15 }
}

#[test]
fn args_without_credentials_are_the_query_alone() {
    let args = build_args(
        &bare_config(),
        "2024-03-01T00:00:00+00:00".to_string(),
        "2024-03-15T00:00:00+00:00".to_string(),
    );
    assert_eq!(
        args,
        strings(&[
            "rating",
            "dataframes",
            "get",
            "-b",
            "2024-03-01T00:00:00+00:00",
            "-e",
            "2024-03-15T00:00:00+00:00",
            "-c",
            "Resources",
            "-f",
            "json",
        ])
    );
}

#[test]
fn args_list_the_credentials_first_in_a_fixed_order() {
    let args = build_args(&full_config(), "B".to_string(), "E".to_string());
    assert_eq!(
        args,
        strings(&[
            "--os-auth-url",
            "https://keystone.example:5000/v3",
            "--os-username",
            "alice",
            "--os-password",
            "hunter2",
            "--os-project-id",
            "p-42",
            "--os-region-name",
            "rc3-a",
            "--os-user-domain-name",
            "Default",
            "rating",
            "dataframes",
            "get",
            "-b",
            "B",
            "-e",
            "E",
            "-c",
            "Resources",
            "-f",
            "json",
        ])
    );
}

#[test]
fn args_leave_out_each_empty_credential() {
    let mut config = bare_config();
    config.os_username = "bob".to_string();
    config.os_region_name = "rc3-a".to_string();
    let args = build_args(&config, "B".to_string(), "E".to_string());
    assert_eq!(
        args[..4],
        strings(&["--os-username", "bob", "--os-region-name", "rc3-a"])[..]
    );
    assert_eq!(args.len(), 15);
}

#[test]
fn descriptor_defaults_to_this_month_until_today() {
    let service = DataService::new(bare_config());
    let args = service.build_descriptor(&no_range(), &march_15());
    assert_eq!(args[4], "2024-03-01T00:00:00+00:00");
    assert_eq!(args[6], "2024-03-15T00:00:00+00:00");
}

#[test]
fn descriptor_takes_explicit_bounds() {
    let service = DataService::new(bare_config());
    let range = DateRange {
        begin_at: Some("2024-01-10".to_string()),
        end_at: Some("2024-02-20".to_string()),
    };
    let args = service.build_descriptor(&range, &march_15());
    assert_eq!(args[4], "2024-01-10T00:00:00+00:00");
    assert_eq!(args[6], "2024-02-20T00:00:00+00:00");
}

#[test]
fn descriptor_replaces_invalid_bounds_by_the_first_of_the_month() {
    let service = DataService::new(bare_config());
    let range =
        DateRange { begin_at: Some("yesterday".to_string()), end_at: Some("2024-02-31".to_string()) };
    let args = service.build_descriptor(&range, &march_15());
    assert_eq!(args[4], "2024-03-01T00:00:00+00:00");
    assert_eq!(args[6], "2024-03-01T00:00:00+00:00");
}

#[test]
fn redaction_hides_password_and_project_id() {
    let args = build_args(&full_config(), "B".to_string(), "E".to_string());
    let shown = redact_sensitive_args(&args);
    assert_eq!(shown.len(), args.len());
    assert_eq!(
        shown[..12],
        strings(&[
            "--os-auth-url",
            "https://keystone.example:5000/v3",
            "--os-username",
            "alice",
            "--os-password",
            "[REDACTED]",
            "--os-project-id",
            "[REDACTED]",
            "--os-region-name",
            "rc3-a",
            "--os-user-domain-name",
            "Default",
        ])[..]
    );
    assert_eq!(shown[12..], args[12..]);
    assert!(!shown.contains(&"hunter2".to_string()));
    assert!(!shown.contains(&"p-42".to_string()));
}

#[test]
fn redaction_of_a_trailing_flag_keeps_the_flag() {
    let shown = redact_sensitive_args(&strings(&["get", "--os-password"]));
    assert_eq!(shown, strings(&["get", "--os-password"]));
}

#[test]
fn redaction_treats_the_argument_after_a_flag_as_its_value() {
    let shown =
        redact_sensitive_args(&strings(&["--os-password", "--os-project-id", "x", "--os-project-id", "y"]));
    assert_eq!(
        shown,
        strings(&["--os-password", "[REDACTED]", "x", "--os-project-id", "[REDACTED]"])
    );
}

#[test]
fn redaction_leaves_other_arguments_alone() {
    let args = strings(&["--os-username", "alice", "--os-passwords", "x", "-f", "json"]);
    assert_eq!(redact_sensitive_args(&args), args);
    assert_eq!(redact_sensitive_args(&[]), Vec::<String>::new());
}

#[test]
fn plan_on_an_empty_cache_runs_the_command() {
    let service = DataService::new(full_config());
    let cache: OpenStackCache<u32> = OpenStackCache::new(300 * SECOND);
    match service.plan_fetch(&cache, &no_range(), &march_15(), 0) {
        FetchPlan::Run { key, args } => {
            assert_eq!(args, service.build_descriptor(&no_range(), &march_15()));
            assert_eq!(key, fingerprint("openstack", &args));
            assert_eq!(key, cache.generate_key("openstack", &args));
        }
        FetchPlan::Cached(_) => panic!("nothing is cached yet"),
    }
}

fn run_key(service: &DataService, cache: &OpenStackCache<u32>, now: u128) -> String {
    match service.plan_fetch(cache, &no_range(), &march_15(), now) {
        FetchPlan::Run { key, .. } => key,
        FetchPlan::Cached(_) => panic!("expected a miss"),
    }
}

#[test]
fn fetched_summary_is_cached_until_its_ttl_has_passed() {
    let service = DataService::new(bare_config());
    let mut cache: OpenStackCache<u32> = OpenStackCache::new(300 * SECOND);
    let key = run_key(&service, &cache, 1_000);
    let outcome = FetchOutcome::Decoded { summary: 77, objects: 1 };
    assert_eq!(finish_fetch(&mut cache, key, outcome, 1_000), Ok(77));
    match service.plan_fetch(&cache, &no_range(), &march_15(), 1_000 + 300 * SECOND - 1) {
        FetchPlan::Cached(summary) => assert_eq!(*summary, 77),
        FetchPlan::Run { .. } => panic!("the summary is still valid"),
    }
    run_key(&service, &cache, 1_000 + 300 * SECOND);
    assert_eq!(cache.stats(1_000 + 300 * SECOND).expired_entries, 1);
}

#[test]
fn cached_summary_answers_only_the_same_query() {
    let service = DataService::new(bare_config());
    let mut cache: OpenStackCache<u32> = OpenStackCache::new(300 * SECOND);
    let key = run_key(&service, &cache, 0);
    let outcome = FetchOutcome::Decoded { summary: 5, objects: 3 };
    assert_eq!(finish_fetch(&mut cache, key, outcome, 0), Ok(5));
    let other = DateRange { begin_at: Some("2024-02-01".to_string()), end_at: None };
    assert!(matches!(
        service.plan_fetch(&cache, &other, &march_15(), 1),
        FetchPlan::Run { .. }
    ));
    let next_day = CalendarDate { year: 2024, month: 3, day: 16 };
    assert!(matches!(
        service.plan_fetch(&cache, &no_range(), &next_day, 1),
        FetchPlan::Run { .. }
    ));
    assert!(matches!(
        service.plan_fetch(&cache, &no_range(), &march_15(), 1),
        FetchPlan::Cached(_)
    ));
}

#[test]
fn failed_fetch_is_never_cached() {
    let service = DataService::new(bare_config());
    let mut cache: OpenStackCache<u32> = OpenStackCache::new(300 * SECOND);
    for error in [
        FetchError::ProcessLaunchFailed,
        FetchError::ProcessExitedNonZero,
        FetchError::MalformedOutput,
    ] {
        let key = run_key(&service, &cache, 10);
        let result = finish_fetch(&mut cache, key, FetchOutcome::Failed(error), 10);
        assert_eq!(result, Err(error));
        assert_eq!(cache.stats(10).total_entries, 0);
    }
    // the next query runs the command again
    run_key(&service, &cache, 11);
}

#[test]
fn failed_fetch_keeps_what_the_cache_held() {
    let mut cache: OpenStackCache<u32> = OpenStackCache::new(100);
    cache.set("other".to_string(), 9, 0);
    let result = finish_fetch(
        &mut cache,
        "key".to_string(),
        FetchOutcome::Failed(FetchError::MalformedOutput),
        1,
    );
    assert_eq!(result, Err(FetchError::MalformedOutput));
    assert_eq!(cache.stats(1).total_entries, 1);
    assert_eq!(cache.get("other", 1), Some(&9));
    assert_eq!(cache.get("key", 1), None);
}

#[test]
fn summary_of_an_empty_document_is_returned_but_not_cached() {
    let mut cache: OpenStackCache<u32> = OpenStackCache::new(100);
    let outcome = FetchOutcome::Decoded { summary: 0, objects: 0 };
    assert_eq!(finish_fetch(&mut cache, "key".to_string(), outcome, 1), Ok(0));
    assert_eq!(cache.stats(1).total_entries, 0);
}

#[test]
fn fetched_summary_replaces_an_expired_entry() {
    let mut cache: OpenStackCache<u32> = OpenStackCache::new(100);
    cache.set("key".to_string(), 1, 0);
    let outcome = FetchOutcome::Decoded { summary: 2, objects: 4 };
    assert_eq!(finish_fetch(&mut cache, "key".to_string(), outcome, 150), Ok(2));
    assert_eq!(cache.stats(150).total_entries, 1);
    assert_eq!(cache.get("key", 249), Some(&2));
    assert_eq!(cache.get("key", 250), None);
}

#[test]
fn failure_degrades_to_the_empty_summary() {
    assert_eq!(degrade(Ok(vec![1, 2]), Vec::new()), vec![1, 2]);
    assert_eq!(degrade(Err(FetchError::ProcessLaunchFailed), Vec::<u8>::new()), Vec::<u8>::new());
    assert_eq!(degrade(Err(FetchError::ProcessExitedNonZero), 0u32), 0);
    assert_eq!(degrade(Err(FetchError::MalformedOutput), 0u32), 0);
}

#[test]
fn begin_fetch_plans_for_the_current_day() {
    let service = DataService::new(bare_config());
    let cache: OpenStackCache<u32> = OpenStackCache::new(300 * SECOND);
    let mut clock = MonotonicClock::start();
    match service.begin_fetch(&cache, &no_range(), &mut clock) {
        FetchPlan::Run { key, args } => {
            assert_eq!(args.len(), 11);
            assert!(args[4].ends_with("-01T00:00:00+00:00"));
            assert!(args[6].ends_with("T00:00:00+00:00"));
            assert_eq!(key, fingerprint("openstack", &args));
        }
        FetchPlan::Cached(_) => panic!("nothing is cached yet"),
    }
}

fn one_object(records: &[(&str, &str)]) -> ResourceWrapper {
    ResourceWrapper {
        resources: records
            .iter()
            .map(|(rating, service)| Resource {
                rating: rating.to_string(),
                service: service.to_string(),
            })
            .collect(),
    }
}

fn plain_rate(rating: &String) -> Option<u64> {
    rating.parse::<f64>().ok().map(f64::to_bits)
}

fn plain_sum(sum: u64, cost: u64) -> u64 {
    (f64::from_bits(sum) + f64::from_bits(cost)).to_bits()
}

fn failure_of(outcome: FetchOutcome<Vec<CategoryCost>>) -> Option<FetchError> {
    match outcome {
        FetchOutcome::Failed(error) => Some(error),
        FetchOutcome::Decoded { .. } => None,
    }
}

#[test]
fn command_that_did_not_start_is_a_launch_failure() {
    let outcome = take_command_result(CommandResult::NotLaunched, plain_rate, plain_sum);
    assert_eq!(failure_of(outcome), Some(FetchError::ProcessLaunchFailed));
}

#[test]
fn output_of_a_failed_command_is_not_added_up() {
    let with_output = CommandResult::Exited {
        success: false,
        document: Some(vec![one_object(&[("10", "compute")])]),
    };
    let outcome = take_command_result(with_output, plain_rate, plain_sum);
    assert_eq!(failure_of(outcome), Some(FetchError::ProcessExitedNonZero));
    let without = CommandResult::Exited { success: false, document: None };
    let outcome = take_command_result(without, plain_rate, plain_sum);
    assert_eq!(failure_of(outcome), Some(FetchError::ProcessExitedNonZero));
}

#[test]
fn output_that_is_no_document_is_malformed() {
    let result = CommandResult::Exited { success: true, document: None };
    let outcome = take_command_result(result, plain_rate, plain_sum);
    assert_eq!(failure_of(outcome), Some(FetchError::MalformedOutput));
}

#[test]
fn document_of_a_successful_command_is_added_up_and_counted() {
    let result = CommandResult::Exited {
        success: true,
        document: Some(vec![
            one_object(&[("10", "compute"), ("3", "storage")]),
            one_object(&[("5", "compute")]),
        ]),
    };
    match take_command_result(result, plain_rate, plain_sum) {
        FetchOutcome::Decoded { summary, objects } => {
            assert_eq!(objects, 2);
            assert_eq!(summary.len(), 2);
            assert_eq!(summary[0].service, "compute");
            assert_eq!(f64::from_bits(summary[0].cost), 15.0);
            assert_eq!(summary[1].service, "storage");
            assert_eq!(f64::from_bits(summary[1].cost), 3.0);
        }
        FetchOutcome::Failed(error) => panic!("unexpected failure {:?}", error),
    }
}

#[test]
fn empty_document_is_decoded_with_no_objects() {
    let result = CommandResult::Exited { success: true, document: Some(Vec::new()) };
    match take_command_result(result, plain_rate, plain_sum) {
        FetchOutcome::Decoded { summary, objects } => {
            assert_eq!(objects, 0);
            assert!(summary.is_empty());
        }
        FetchOutcome::Failed(error) => panic!("unexpected failure {:?}", error),
    }
}
