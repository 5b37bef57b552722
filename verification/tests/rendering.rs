use quest_tracker::display::{display_line, status_line};
use quest_tracker::{Profile, Quest};

#[test]
fn daily_line_carries_the_marker() {
    let q = Quest::new("Push-ups", 10, true);
    assert_eq!(display_line(&q), "[Daily][10xp] Push-ups");
}

#[test]
fn one_shot_line_has_no_marker() {
    let q = Quest::new("Read a book", 50, false);
    assert_eq!(display_line(&q), "[50xp] Read a book");
}

#[test]
fn line_renders_edge_rewards() {
    assert_eq!(display_line(&Quest::new("Free", 0, false)), "[0xp] Free");
    assert_eq!(
        display_line(&Quest::new("Epic", u32::MAX, true)),
        "[Daily][4294967295xp] Epic"
    );
}

#[test]
fn status_line_shows_the_totals() {
    let mut p = Profile::new();
    assert_eq!(status_line(&p), "Quests Completed 0 | Exp: 0");
    p.exp = 30;
    p.completed = 2;
    assert_eq!(status_line(&p), "Quests Completed 2 | Exp: 30");
    p.exp = 1000;
    p.completed = 107;
    assert_eq!(status_line(&p), "Quests Completed 107 | Exp: 1000");
}
