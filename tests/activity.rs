use upyun::activity::{
    count_awards, pending_tasks, signin_due, signin_due_on, today_in_utc8, PrizeCategory,
    SigninDay, SigninHistory, Task, VoyageReply, Voyages,
};

fn task(id: u32, event_id: &str, finished: bool) -> Task {
    Task {
        id,
        cycle: "daily".to_string(),
        mileage: 5,
        description: format!("task {}", id),
        count: 1,
        event_id: event_id.to_string(),
        finished,
    }
}

fn day(date: &str, signed_in: bool) -> SigninDay {
    SigninDay { date: date.to_string(), signed_in }
}

fn category(name: &str, item_count: usize) -> PrizeCategory {
    PrizeCategory { name: name.to_string(), item_count }
}

/// Runs the redemption loop against the given replies and returns how many
/// voyages were tried.
fn drive(usable: u64, replies: &[VoyageReply]) -> usize {
    let mut v = Voyages::new(usable);
    let mut tried = 0;
    while v.next_voyage() {
        let reply = replies[tried];
        tried += 1;
        v.record(reply);
    }
    assert_eq!(v.attempted as usize, tried);
    tried
}

#[test]
fn pending_skips_finished_tasks_in_order() {
    let tasks = vec![
        task(1, "a", false),
        task(2, "b", true),
        task(3, "c", false),
        task(4, "d", true),
        task(5, "e", false),
    ];
    assert_eq!(pending_tasks(&tasks), vec![0, 2, 4]);
}

#[test]
fn pending_of_all_finished_is_empty() {
    let tasks = vec![task(1, "a", true), task(2, "b", true)];
    assert!(pending_tasks(&tasks).is_empty());
    assert!(pending_tasks(&Vec::new()).is_empty());
}

#[test]
fn award_count_of_example_map() {
    let map = vec![category("a", 1), category("b", 0), category("c", 2)];
    assert_eq!(count_awards(&map), 2);
}

#[test]
fn award_count_of_empty_map() {
    assert_eq!(count_awards(&Vec::new()), 0);
    assert_eq!(count_awards(&vec![category("wishes", 0)]), 0);
}

#[test]
fn usable_25_gives_two_voyages() {
    let replies = [VoyageReply::Accepted; 3];
    assert_eq!(drive(25, &replies), 2);
    assert_eq!(Voyages::new(25).remaining, 2);
}

#[test]
fn usable_below_ten_gives_no_voyage() {
    assert_eq!(drive(9, &[]), 0);
    assert_eq!(drive(0, &[]), 0);
}

#[test]
fn refusal_stops_redemption() {
    let replies = [
        VoyageReply::Accepted,
        VoyageReply::Refused,
        VoyageReply::Accepted,
        VoyageReply::Accepted,
        VoyageReply::Accepted,
    ];
    assert_eq!(drive(50, &replies), 2);
}

#[test]
fn unreadable_reply_does_not_stop_redemption() {
    let replies = [
        VoyageReply::Unreadable,
        VoyageReply::Accepted,
        VoyageReply::Unreadable,
    ];
    assert_eq!(drive(30, &replies), 3);
}

#[test]
fn voyage_counters_move_together() {
    let mut v = Voyages::new(20);
    assert!(v.next_voyage());
    assert_eq!((v.remaining, v.attempted, v.halted), (1, 1, false));
    v.record(VoyageReply::Refused);
    assert!(v.halted);
    assert!(!v.next_voyage());
    assert_eq!((v.remaining, v.attempted), (1, 1));
}

#[test]
fn signed_in_today_is_not_due() {
    let history = SigninHistory {
        days: vec![day("2024-05-01", true), day("2024-05-02", true)],
        continuous: 2,
    };
    assert!(!signin_due_on(&history, &"2024-05-02".to_string()));
}

#[test]
fn unsigned_or_absent_today_is_due() {
    let history = SigninHistory {
        days: vec![day("2024-05-01", true), day("2024-05-02", false)],
        continuous: 1,
    };
    assert!(signin_due_on(&history, &"2024-05-02".to_string()));
    assert!(signin_due_on(&history, &"2024-05-03".to_string()));
    let empty = SigninHistory { days: Vec::new(), continuous: 0 };
    assert!(signin_due_on(&empty, &"2024-05-03".to_string()));
}

#[test]
fn today_is_taken_in_utc8() {
    assert_eq!(today_in_utc8(0), Some("1970-01-01".to_string()));
    // 16:00 UTC on 1970-01-01 is midnight of the next day in UTC+8.
    assert_eq!(today_in_utc8(57_600), Some("1970-01-02".to_string()));
    assert_eq!(today_in_utc8(57_599), Some("1970-01-01".to_string()));
    assert_eq!(today_in_utc8(i64::MAX), None);
}

#[test]
fn signin_due_uses_the_utc8_day() {
    let history = SigninHistory { days: vec![day("1970-01-02", true)], continuous: 1 };
    assert!(!signin_due(&history, 57_600));
    assert!(signin_due(&history, 57_599));
}

#[test]
fn dates_are_written_across_the_whole_range() {
    let edge = 8_000_000_000_000 - 28_800;
    assert!(today_in_utc8(edge).is_some());
    assert!(today_in_utc8(-8_000_000_000_000 - 28_800).is_some());
    // 2024-05-01 21:46:40 UTC is 2024-05-02 in UTC+8.
    assert_eq!(today_in_utc8(1_714_600_000), Some("2024-05-02".to_string()));
}

#[test]
fn signed_in_day_is_not_due_at_a_present_time() {
    let history = SigninHistory {
        days: vec![day("2024-05-01", true), day("2024-05-02", true)],
        continuous: 2,
    };
    assert!(!signin_due(&history, 1_714_600_000));
    let unsigned = SigninHistory { days: vec![day("2024-05-02", false)], continuous: 0 };
    assert!(signin_due(&unsigned, 1_714_600_000));
}
