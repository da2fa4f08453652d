use wiki_game::config::{LogLevel, SystemArgs};
use wiki_game::coordinator::{
    break_condition, count_target, immediate_match, is_target_page, Coordinator,
    CoordinatorMessage, GameArgs, LinksFoundContent, Step,
};

fn args(start: &str, target: &str, workers: u8) -> GameArgs {
    GameArgs {
        start: start.to_string(),
        target: target.to_string(),
        base_url: "https://x".to_string(),
        workers,
    }
}

fn links(v: &[&str]) -> CoordinatorMessage {
    CoordinatorMessage::Links(LinksFoundContent { links: v.iter().map(|s| s.to_string()).collect() })
}

#[test]
fn immediate_match_needs_no_fetch() {
    assert!(immediate_match(&args("Foo", "Foo", 5)));
    assert!(immediate_match(&args("Foo", "/wiki/Foo", 5)));
    assert!(!immediate_match(&args("Foo", "Bar", 5)));
}

#[test]
fn target_and_stop_tests() {
    assert!(is_target_page("/wiki/T", "/wiki/T"));
    assert!(!is_target_page("/wiki/T", "/wiki/Tx"));
    assert!(!is_target_page("/wiki/Tx", "/wiki/T"));
    let ga = args("a", "b", 1);
    assert!(!break_condition(0, &ga));
    assert!(break_condition(1, &ga));
    assert!(break_condition(7, &ga));
    let v: Vec<String> = vec!["/wiki/T".into(), "/wiki/U".into(), "/wiki/T".into()];
    assert_eq!(count_target(&v, "/wiki/T"), 2);
    assert_eq!(count_target(&v, "/wiki/V"), 0);
}

#[test]
fn round_splits_frontier_among_workers() {
    let ga = args("A", "Z", 2);
    let mut c = Coordinator::new(&ga);
    assert_eq!(c.frontier, vec!["https://x/wiki/A".to_string()]);
    assert_eq!(c.on_message(links(&["/wiki/B", "/wiki/C", "/wiki/D", "/wiki/E"]), "/wiki/Z", &ga), Step::Continue);
    assert_eq!(c.frontier.len(), 5);
    let chunks = c.plan_round(&ga);
    assert!(c.frontier.is_empty());
    assert_eq!(c.round, 1);
    assert_eq!(chunks.len(), 2);
    assert_eq!(chunks[0].len(), 3);
    assert_eq!(chunks[1].len(), 2);
    let mut all: Vec<String> = chunks.into_iter().flatten().collect();
    all.sort();
    let expected: Vec<String> = ["A", "B", "C", "D", "E"].iter().map(|t| format!("https://x/wiki/{t}")).collect();
    assert_eq!(all, expected);
}

#[test]
fn empty_round_has_no_chunks() {
    let ga = args("A", "Z", 3);
    let mut c = Coordinator::new(&ga);
    let _ = c.plan_round(&ga);
    assert!(c.plan_round(&ga).is_empty());
}

#[test]
fn sighting_of_target_stops_the_search() {
    let ga = args("A", "Z", 2);
    let mut c = Coordinator::new(&ga);
    let _ = c.plan_round(&ga);
    assert_eq!(c.on_message(links(&["/wiki/Q", "/wiki/Z"]), "/wiki/Z", &ga), Step::Found);
    assert_eq!(c.found, 1);
    assert!(c.frontier.is_empty());
    assert_eq!(c.on_worker_done(&ga), Step::Found);
    assert_eq!(c.dead, 1);
}

#[test]
fn empty_frontier_after_worker_exhausts() {
    let ga = args("A", "Z", 2);
    let mut c = Coordinator::new(&ga);
    let _ = c.plan_round(&ga);
    assert_eq!(c.on_message(links(&[]), "/wiki/Z", &ga), Step::Continue);
    assert_eq!(c.on_worker_done(&ga), Step::Exhausted);
    assert_eq!(c.found, 0);
}

#[test]
fn worker_done_with_frontier_continues() {
    let ga = args("A", "Z", 2);
    let mut c = Coordinator::new(&ga);
    assert_eq!(c.on_worker_done(&ga), Step::Continue);
}

#[test]
fn verbosity_levels() {
    assert_eq!(SystemArgs::from_verbosity(0).debug, LogLevel::Info);
    assert_eq!(SystemArgs::from_verbosity(1).debug, LogLevel::Debug);
    assert_eq!(SystemArgs::from_verbosity(3).debug, LogLevel::Debug);
}
