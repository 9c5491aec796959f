use punch::cron::{parse_cron_field, CronExpression};
use punch::duration::Duration;
use punch::gorilla_scheduler::{calculate_next_run, GorillaScheduler};
use punch::schedule::{parse_schedule, Schedule};

#[test]
fn parse_cron_field_star() {
    let result = parse_cron_field("*", 0, 59).unwrap();
    assert_eq!(result.len(), 60);
    assert_eq!(result[0], 0);
    assert_eq!(result[59], 59);
}

#[test]
fn parse_cron_field_step() {
    let result = parse_cron_field("*/5", 0, 59).unwrap();
    assert_eq!(result, vec![0, 5, 10, 15, 20, 25, 30, 35, 40, 45, 50, 55]);
}

#[test]
fn parse_cron_field_range() {
    assert_eq!(parse_cron_field("1-5", 0, 59).unwrap(), vec![1, 2, 3, 4, 5]);
}

#[test]
fn parse_cron_field_list() {
    assert_eq!(parse_cron_field("1,3,5", 0, 59).unwrap(), vec![1, 3, 5]);
}

#[test]
fn parse_cron_field_single() {
    assert_eq!(parse_cron_field("30", 0, 59).unwrap(), vec![30]);
}

#[test]
fn parse_cron_field_out_of_range() {
    assert!(parse_cron_field("60", 0, 59).is_err());
}

#[test]
fn parse_cron_field_zero_step() {
    assert!(parse_cron_field("*/0", 0, 59).is_err());
}

#[test]
fn parse_cron_expression_every_5_minutes() {
    let cron = CronExpression::parse("*/5 * * * *").unwrap();
    assert_eq!(cron.minutes.len(), 12);
    assert_eq!(cron.hours.len(), 24);
}

#[test]
fn parse_cron_expression_every_6_hours() {
    let cron = CronExpression::parse("0 */6 * * *").unwrap();
    assert_eq!(cron.minutes, vec![0]);
    assert_eq!(cron.hours, vec![0, 6, 12, 18]);
}

#[test]
fn parse_cron_expression_invalid_fields() {
    assert!(CronExpression::parse("*/5 * *").is_err());
}

#[test]
fn cron_next_after_basic() {
    let cron = CronExpression::parse("0 * * * *").unwrap();
    // 2025-01-01 12:30 UTC
    let next = cron.next_after(1_735_734_600_000).unwrap();
    // 2025-01-01 13:00 UTC
    assert_eq!(next, 1_735_736_400_000);
}

#[test]
fn cron_next_run_is_a_whole_minute() {
    let cron = CronExpression::parse("0 * * * *").unwrap();
    // 2025-01-01 12:30:45 UTC gives 13:00:00, not 13:00:45.
    assert_eq!(cron.next_after(1_735_734_645_000), Some(1_735_736_400_000));
    // A match right at the next minute: 12:30:45 with "31 * * * *" gives 12:31:00.
    let cron = CronExpression::parse("31 * * * *").unwrap();
    assert_eq!(cron.next_after(1_735_734_645_000), Some(1_735_734_660_000));
}

#[test]
fn cron_next_after_crosses_month_and_leap_day() {
    // "0 0 29 2 *": midnight on 29 February; from 2025-01-01 the next is 2028-02-29.
    let cron = CronExpression::parse("0 0 29 2 *").unwrap();
    assert_eq!(cron.next_after(1_735_734_600_000), Some(1_835_395_200_000));
}

#[test]
fn cron_next_after_specific_minute() {
    let cron = CronExpression::parse("30 * * * *").unwrap();
    // 2025-01-01 12:00 UTC
    let next = cron.next_after(1_735_732_800_000).unwrap();
    assert_eq!(next, 1_735_734_600_000);
}

#[test]
fn test_cron_parse_standard_expression() {
    let cron = CronExpression::parse("0 */6 * * *").expect("should parse");
    assert_eq!(cron.minutes, vec![0]);
    assert_eq!(cron.hours, vec![0, 6, 12, 18]);
    assert_eq!(cron.days_of_month.len(), 31);
    assert_eq!(cron.months.len(), 12);
    assert_eq!(cron.days_of_week.len(), 7);
}

#[test]
fn test_cron_next_after_is_in_future() {
    let cron = CronExpression::parse("*/5 * * * *").expect("should parse");
    let now = 1_735_734_612_345;
    let next = cron.next_after(now);
    assert!(next.is_some());
    assert!(next.unwrap() > now);
    assert_eq!(next.unwrap(), 1_735_734_900_000);
}

fn interval(s: &str) -> Duration {
    match parse_schedule(s).unwrap() {
        Schedule::Interval(d) => d,
        _ => panic!("expected interval"),
    }
}

#[test]
fn parse_schedule_every_5m() {
    assert_eq!(interval("@every 5m"), Duration::from_secs(300));
}

#[test]
fn parse_schedule_hourly() {
    assert_eq!(interval("@hourly"), Duration::from_secs(3600));
}

#[test]
fn parse_schedule_daily() {
    assert_eq!(interval("@daily"), Duration::from_secs(86400));
}

#[test]
fn parse_schedule_weekly() {
    assert_eq!(interval("@weekly"), Duration::from_secs(604800));
}

#[test]
fn parse_schedule_cron() {
    assert!(matches!(parse_schedule("0 */6 * * *").unwrap(), Schedule::Cron(_)));
}

#[test]
fn parse_schedule_every_prefix() {
    assert_eq!(interval("every 30s"), Duration::from_secs(30));
}

#[test]
fn parse_schedule_raw_duration() {
    assert_eq!(interval("10m"), Duration::from_secs(600));
}

#[test]
fn scheduler_parse_schedule_invalid() {
    assert!(parse_schedule("not a schedule").is_err());
}

const NOW: i64 = 1_700_000_000_000;

#[test]
fn calculate_next_run_interval() {
    let schedule = Schedule::Interval(Duration::from_secs(300));
    assert_eq!(calculate_next_run(&schedule, NOW), Some(NOW + 300_000));
}

#[test]
fn calculate_next_run_one_shot_future() {
    let future = NOW + 3_600_000;
    assert_eq!(calculate_next_run(&Schedule::OneShot(future), NOW), Some(future));
}

#[test]
fn calculate_next_run_one_shot_past() {
    let past = NOW - 3_600_000;
    assert!(calculate_next_run(&Schedule::OneShot(past), NOW).is_none());
}

#[test]
fn gorilla_scheduler_default() {
    let scheduler = GorillaScheduler::default();
    assert!(scheduler.list_entries().is_empty());
}
