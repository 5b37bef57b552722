use quest_tracker::{Date, Profile, Quest};

fn day(y: i32, m: u32, d: u32) -> Date {
    Date { year: y, month: m, day: d }
}

#[test]
fn new_profile_is_empty() {
    let p = Profile::new();
    assert_eq!(p.exp, 0);
    assert_eq!(p.completed, 0);
    assert_eq!(p.quests.len(), 0);
}

#[test]
fn push_ups_scenario() {
    // Empty profile, add a daily quest, complete it once, same-day repeat fails.
    let mut p = Profile::new();
    assert!(p.add_quest(Quest::new("Push-ups", 10, true)));
    let today = day(2024, 3, 5);
    let open = p.get_open_on(&today);
    assert_eq!(open.len(), 1);
    assert_eq!(open[0].name, "Push-ups");
    assert!(p.complete_on("Push-ups", &today));
    assert_eq!(p.exp, 10);
    assert_eq!(p.completed, 1);
    assert!(!p.complete_on("Push-ups", &today));
    assert_eq!(p.exp, 10);
    assert_eq!(p.completed, 1);
}

#[test]
fn one_shot_completes_once() {
    // A one-shot quest completes once; any later day is refused.
    let mut p = Profile::new();
    assert!(p.add_quest(Quest::new("Read a book", 50, false)));
    assert!(p.complete_on("Read a book", &day(2024, 3, 5)));
    assert_eq!(p.exp, 50);
    assert_eq!(p.completed, 1);
    assert!(!p.complete_on("Read a book", &day(2024, 3, 6)));
    assert!(!p.complete_on("Read a book", &day(2031, 12, 31)));
    assert_eq!(p.exp, 50);
    assert_eq!(p.completed, 1);
}

#[test]
fn daily_resets_on_a_new_day() {
    let mut p = Profile::new();
    assert!(p.add_quest(Quest::new("Stretch", 7, true)));
    assert!(p.complete_on("Stretch", &day(2024, 3, 5)));
    assert!(!p.complete_on("Stretch", &day(2024, 3, 5)));
    assert!(p.complete_on("Stretch", &day(2024, 3, 6)));
    assert_eq!(p.exp, 14);
    assert_eq!(p.completed, 2);
}

#[test]
fn add_duplicate_changes_nothing() {
    let mut p = Profile::new();
    assert!(p.add_quest(Quest::new("Run", 20, false)));
    assert!(!p.add_quest(Quest::new("Run", 99, true)));
    assert_eq!(p.quests.len(), 1);
    assert_eq!(p.quests[0].exp, 20);
    assert_eq!(p.exp, 0);
    assert_eq!(p.completed, 0);
}

#[test]
fn remove_nonexistent_is_a_no_op() {
    let mut p = Profile::new();
    assert!(!p.remove_quest("Nonexistent"));
    assert_eq!(p.quests.len(), 0);
    assert!(p.add_quest(Quest::new("Run", 20, false)));
    assert!(!p.remove_quest("Nonexistent"));
    assert_eq!(p.quests.len(), 1);
    assert_eq!(p.exp, 0);
    assert_eq!(p.completed, 0);
}

#[test]
fn remove_existing_quest() {
    let mut p = Profile::new();
    assert!(p.add_quest(Quest::new("Run", 20, false)));
    assert!(p.add_quest(Quest::new("Swim", 30, true)));
    assert!(p.remove_quest("Run"));
    assert_eq!(p.quests.len(), 1);
    assert_eq!(p.quests[0].name, "Swim");
    assert!(!p.remove_quest("Run"));
}

#[test]
fn totals_survive_removal() {
    // The running totals are never recomputed from the collection.
    let mut p = Profile::new();
    assert!(p.add_quest(Quest::new("Run", 20, false)));
    assert!(p.complete_on("Run", &day(2024, 3, 5)));
    assert!(p.remove_quest("Run"));
    assert_eq!(p.quests.len(), 0);
    assert_eq!(p.exp, 20);
    assert_eq!(p.completed, 1);
}

#[test]
fn complete_unknown_name_fails() {
    let mut p = Profile::new();
    assert!(!p.complete_on("Missing", &day(2024, 3, 5)));
    assert_eq!(p.exp, 0);
    assert_eq!(p.completed, 0);
}

#[test]
fn complete_refuses_counter_overflow() {
    // The clock-driven entry point reports failure instead of overflowing.
    let mut p = Profile::new();
    assert!(p.add_quest(Quest::new("Big", 10, true)));
    p.exp = u32::MAX - 5;
    assert!(!p.complete("Big"));
    assert_eq!(p.exp, u32::MAX - 5);
    assert_eq!(p.completed, 0);
}

#[test]
fn complete_against_the_clock() {
    // The clock-driven operations agree with each other within one run.
    let mut p = Profile::new();
    assert!(p.add_quest(Quest::new("Sit-ups", 5, true)));
    assert!(p.complete("Sit-ups"));
    assert!(!p.complete("Sit-ups"));
    assert_eq!(p.exp, 5);
    assert_eq!(p.completed, 1);
    assert!(p.quests[0].completed());
    assert!(p.get_open().is_empty());
}
