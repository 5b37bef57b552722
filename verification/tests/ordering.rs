use quest_tracker::display::sort_for_display;
use quest_tracker::Quest;

fn named(name: &str, exp: u32, daily: bool) -> Quest {
    Quest::new(name, exp, daily)
}

fn names(v: &Vec<Quest>) -> Vec<&str> {
    v.iter().map(|q| q.name.as_str()).collect()
}

#[test]
fn daily_before_one_shot_higher_reward_first() {
    let mut v = vec![
        named("a", 10, false),
        named("b", 50, false),
        named("c", 5, true),
        named("d", 20, true),
    ];
    sort_for_display(&mut v);
    assert_eq!(names(&v), ["d", "c", "b", "a"]);
}

#[test]
fn ties_keep_their_relative_order() {
    let mut v = vec![
        named("first", 10, true),
        named("second", 10, true),
        named("third", 10, true),
        named("early", 10, false),
        named("late", 10, false),
    ];
    sort_for_display(&mut v);
    assert_eq!(names(&v), ["first", "second", "third", "early", "late"]);
}

#[test]
fn mixed_keys_and_ties() {
    let mut v = vec![
        named("x1", 5, false),
        named("y1", 5, true),
        named("x2", 5, false),
        named("z", 50, false),
        named("y2", 5, true),
    ];
    sort_for_display(&mut v);
    assert_eq!(names(&v), ["y1", "y2", "z", "x1", "x2"]);
}

#[test]
fn empty_and_singleton() {
    let mut v: Vec<Quest> = vec![];
    sort_for_display(&mut v);
    assert!(v.is_empty());
    let mut v = vec![named("only", 1, false)];
    sort_for_display(&mut v);
    assert_eq!(names(&v), ["only"]);
}

#[test]
fn pairwise_order_holds() {
    let mut v = vec![
        named("a", 3, false),
        named("b", 9, true),
        named("c", 9, false),
        named("d", 1, true),
        named("e", 9, true),
    ];
    sort_for_display(&mut v);
    for i in 0..v.len() {
        for j in (i + 1)..v.len() {
            let a = &v[i];
            let b = &v[j];
            assert!(
                (a.daily && !b.daily) || (a.daily == b.daily && a.exp >= b.exp),
                "pair {} {} out of order",
                a.name,
                b.name
            );
        }
    }
}
