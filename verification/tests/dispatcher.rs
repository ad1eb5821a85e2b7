use pagewalk::dispatcher::{Admission, Dispatcher, SetupError};
use pagewalk::record::{FetchError, Item, ItemResult, Page, Record};
use pagewalk::walker::{PageRequest, WalkAction, WalkPhase, WalkerConfig};

const TARGET: i64 = 42;

fn items(count: usize) -> Vec<Item> {
    (0..count).map(|k| Item { id: 1_000 + k as i64, name: format!("song {}", k) }).collect()
}

fn record(record_id: i64, author_id: i64) -> Record {
    Record {
        record_id,
        author_id,
        author_name: format!("user {}", author_id),
        author_avatar: String::new(),
        content: format!("comment {}", record_id),
        timestamp: record_id,
        like_count: 0,
    }
}

/// A page of `count` records; the first `hits` are written by the target.
fn page(request: &PageRequest, count: usize, hits: usize) -> Page {
    let mut records = Vec::new();
    for k in 0..count {
        let id = request.item_id * 1_000_000 + i64::from(request.offset) + k as i64;
        records.push(record(id, if k < hits { TARGET } else { 7 }));
    }
    Page::new(records)
}

/// What the caller still has to do for one item.
#[derive(Debug, Clone, PartialEq)]
enum Pending {
    Sleep { item: usize, until: u64 },
    Fetch { item: usize, request: PageRequest },
}

/// Everything that was seen while a run was driven.
#[derive(Debug, Default)]
struct Seen {
    flushed: Vec<(usize, ItemResult)>,
    fetches: Vec<(usize, PageRequest)>,
    admitted: Vec<usize>,
    finished: Vec<(usize, WalkPhase)>,
    units: Vec<(usize, u32)>,
    max_holders: usize,
    completed: Vec<u64>,
    steps: usize,
}

fn schedule(pending: &mut Vec<Pending>, item: usize, action: WalkAction, now: u64) {
    match action {
        WalkAction::Sleep(ms) => pending.push(Pending::Sleep { item, until: now + ms }),
        WalkAction::Fetch(request) => pending.push(Pending::Fetch { item, request }),
        WalkAction::AwaitResponse => {}
        WalkAction::Finished => {}
    }
}

fn enqueue(pending: &mut Vec<Pending>, seen: &mut Seen, admitted: &[Admission], now: u64) {
    for admission in admitted {
        seen.admitted.push(admission.item);
        schedule(pending, admission.item, admission.action, now);
    }
}

/// Performs one pending action and hands the dispatcher what came of it.
fn perform(
    dispatcher: &mut Dispatcher,
    pending: &mut Vec<Pending>,
    seen: &mut Seen,
    now: &mut u64,
    choice: usize,
    remote: &dyn Fn(&PageRequest) -> Result<Page, FetchError>,
) {
    match pending.remove(choice) {
        Pending::Sleep { item, until } => {
            if *now < until {
                *now = until;
            }
            if let Some(action) = dispatcher.on_wake(item, *now) {
                schedule(pending, item, action, *now);
            }
        }
        Pending::Fetch { item, request } => {
            seen.fetches.push((item, request));
            *now += 3;
            let reaction = dispatcher.on_response(item, remote(&request), *now);
            if reaction.units > 0 {
                seen.units.push((item, reaction.units));
            }
            if let Some(conclusion) = reaction.conclusion {
                seen.finished.push((item, conclusion.outcome));
                if let Some(result) = conclusion.flush {
                    seen.flushed.push((item, result));
                }
            }
            if let Some(action) = reaction.next {
                schedule(pending, item, action, *now);
            }
            enqueue(pending, seen, &reaction.admitted, *now);
        }
    }
    seen.steps += 1;
    seen.max_holders = seen.max_holders.max(dispatcher.holders());
    seen.completed.push(dispatcher.progress().completed());
    assert!(dispatcher.holders() <= dispatcher.capacity());
}

/// Drives a run to its end. `pick` chooses which pending action is
/// performed next, given the step number and the number of pending
/// actions.
fn drive(
    count: usize,
    cap: usize,
    remote: &dyn Fn(&PageRequest) -> Result<Page, FetchError>,
    pick: &dyn Fn(usize, usize) -> usize,
) -> (Dispatcher, Seen) {
    let mut dispatcher =
        Dispatcher::new(items(count), TARGET, cap, WalkerConfig::standard(), 50).unwrap();
    let mut seen = Seen::default();
    let mut pending = Vec::new();
    let mut now = 0;
    let admitted = dispatcher.start(now);
    enqueue(&mut pending, &mut seen, &admitted, now);
    seen.max_holders = dispatcher.holders();
    while !pending.is_empty() {
        let choice = pick(seen.steps, pending.len());
        perform(&mut dispatcher, &mut pending, &mut seen, &mut now, choice, remote);
    }
    (dispatcher, seen)
}

fn oldest_first(_step: usize, _len: usize) -> usize {
    0
}

fn newest_first(_step: usize, len: usize) -> usize {
    len - 1
}

fn scattered(step: usize, len: usize) -> usize {
    (step * 7 + 3) % len
}

/// Two full pages and a short third one for every item; the number of
/// hits depends on the item and the page.
fn three_pages(request: &PageRequest) -> Result<Page, FetchError> {
    let hits = ((request.item_id + i64::from(request.offset) / 100) % 3) as usize;
    if request.offset < 200 {
        Ok(page(request, 100, hits))
    } else {
        Ok(page(request, 40, hits))
    }
}

fn one_short_page(request: &PageRequest) -> Result<Page, FetchError> {
    Ok(page(request, 10, 1))
}

#[test]
fn zero_cap_is_refused() {
    let made = Dispatcher::new(items(3), TARGET, 0, WalkerConfig::standard(), 50);
    assert!(matches!(made, Err(SetupError::ZeroConcurrency)));
}

#[test]
fn new_dispatcher_has_started_nothing() {
    let dispatcher = Dispatcher::new(items(3), TARGET, 2, WalkerConfig::standard(), 50).unwrap();
    assert_eq!(dispatcher.item_count(), 3);
    assert_eq!(dispatcher.started(), 0);
    assert_eq!(dispatcher.holders(), 0);
    assert_eq!(dispatcher.capacity(), 2);
    assert_eq!(dispatcher.progress().total(), 3);
    assert_eq!(dispatcher.progress().completed(), 0);
    assert_eq!(dispatcher.progress().item_count(), 0);
    assert!(!dispatcher.is_cancelled());
    assert!(!dispatcher.is_drained());
    assert_eq!(dispatcher.phase_of(0), None);
}

#[test]
fn empty_run_is_drained_at_once() {
    let mut dispatcher =
        Dispatcher::new(Vec::new(), TARGET, 50, WalkerConfig::standard(), 50).unwrap();
    assert!(dispatcher.is_drained());
    assert_eq!(dispatcher.start(0), Vec::new());
    assert!(dispatcher.is_drained());
}

#[test]
fn start_admits_up_to_the_cap_in_order() {
    let mut dispatcher =
        Dispatcher::new(items(5), TARGET, 2, WalkerConfig::standard(), 50).unwrap();
    let admitted = dispatcher.start(1_000);
    assert_eq!(
        admitted,
        vec![
            Admission { item: 0, action: WalkAction::Sleep(50) },
            Admission { item: 1, action: WalkAction::Sleep(50) },
        ]
    );
    assert_eq!(dispatcher.holders(), 2);
    assert_eq!(dispatcher.started(), 2);
    assert_eq!(dispatcher.phase_of(0), Some(WalkPhase::Throttling));
    assert_eq!(dispatcher.phase_of(1), Some(WalkPhase::Throttling));
    assert_eq!(dispatcher.phase_of(2), None);
    assert_eq!(dispatcher.start(1_001), Vec::new());
    assert_eq!(dispatcher.progress().item_count(), 2);
    let bar = dispatcher.progress().item(1).unwrap();
    assert_eq!(bar.label, "song 1");
    assert_eq!(bar.length, 100);
    assert_eq!(bar.position, 0);
}

#[test]
fn start_without_delay_fetches_at_once() {
    let mut dispatcher = Dispatcher::new(items(1), TARGET, 2, WalkerConfig::standard(), 0).unwrap();
    assert_eq!(
        dispatcher.start(1_000),
        vec![Admission {
            item: 0,
            action: WalkAction::Fetch(PageRequest { item_id: 1_000, limit: 100, offset: 0 }),
        }]
    );
    assert_eq!(dispatcher.phase_of(0), Some(WalkPhase::Fetching));
}

#[test]
fn wake_polls_the_walker() {
    let mut dispatcher =
        Dispatcher::new(items(2), TARGET, 1, WalkerConfig::standard(), 50).unwrap();
    dispatcher.start(1_000);
    assert_eq!(dispatcher.on_wake(0, 1_020), Some(WalkAction::Sleep(30)));
    assert_eq!(
        dispatcher.on_wake(0, 1_050),
        Some(WalkAction::Fetch(PageRequest { item_id: 1_000, limit: 100, offset: 0 }))
    );
    assert_eq!(dispatcher.on_wake(0, 1_060), Some(WalkAction::AwaitResponse));
    assert_eq!(dispatcher.on_wake(1, 1_060), None);
    assert_eq!(dispatcher.on_wake(2, 1_060), None);
    assert_eq!(dispatcher.on_wake(usize::MAX, 1_060), None);
}

#[test]
fn unexpected_answer_changes_nothing() {
    let mut dispatcher =
        Dispatcher::new(items(2), TARGET, 1, WalkerConfig::standard(), 50).unwrap();
    dispatcher.start(1_000);
    let request = PageRequest { item_id: 1_000, limit: 100, offset: 0 };
    for item in [0, 1, 2, 99] {
        let reaction = dispatcher.on_response(item, Ok(page(&request, 10, 10)), 1_010);
        assert_eq!(reaction.units, 0);
        assert_eq!(reaction.conclusion, None);
        assert_eq!(reaction.next, None);
        assert_eq!(reaction.admitted, Vec::new());
    }
    assert_eq!(dispatcher.phase_of(0), Some(WalkPhase::Throttling));
    assert_eq!(dispatcher.holders(), 1);
    assert_eq!(dispatcher.progress().completed(), 0);
}

#[test]
fn two_items_under_a_cap_of_one_run_one_after_the_other() {
    let remote = |request: &PageRequest| -> Result<Page, FetchError> {
        if request.item_id == 1_000 {
            if request.offset == 0 {
                Ok(page(request, 100, 0))
            } else {
                // 40 records, two of them by the target
                let mut short = page(request, 40, 0);
                short.records[7].author_id = TARGET;
                short.records[31].author_id = TARGET;
                Ok(short)
            }
        } else {
            Ok(page(request, 0, 0))
        }
    };
    let mut dispatcher =
        Dispatcher::new(items(2), TARGET, 1, WalkerConfig::standard(), 50).unwrap();
    let admitted = dispatcher.start(0);
    assert_eq!(admitted, vec![Admission { item: 0, action: WalkAction::Sleep(50) }]);
    assert_eq!(dispatcher.phase_of(1), None);

    let first = PageRequest { item_id: 1_000, limit: 100, offset: 0 };
    assert_eq!(dispatcher.on_wake(0, 50), Some(WalkAction::Fetch(first)));
    let reaction = dispatcher.on_response(0, remote(&first), 60);
    assert_eq!(reaction.units, 5);
    assert_eq!(reaction.conclusion, None);
    assert_eq!(reaction.next, Some(WalkAction::Sleep(40)));
    assert_eq!(reaction.admitted, Vec::new());
    assert_eq!(dispatcher.phase_of(1), None);
    assert_eq!(dispatcher.holders(), 1);

    let second = PageRequest { item_id: 1_000, limit: 100, offset: 100 };
    assert_eq!(dispatcher.on_wake(0, 100), Some(WalkAction::Fetch(second)));
    let reaction = dispatcher.on_response(0, remote(&second), 130);
    assert_eq!(reaction.units, 0);
    assert_eq!(reaction.next, None);
    let conclusion = reaction.conclusion.unwrap();
    assert_eq!(conclusion.outcome, WalkPhase::Exhausted);
    let result = conclusion.flush.unwrap();
    assert_eq!(result.item, items(2)[0]);
    assert_eq!(result.records.len(), 2);
    assert_eq!(result.records[0].record_id, 1_000_000_000 + 100 + 7);
    assert_eq!(result.records[1].record_id, 1_000_000_000 + 100 + 31);
    // the second item starts in the slot that the first gave back
    assert_eq!(reaction.admitted, vec![Admission { item: 1, action: WalkAction::Sleep(50) }]);
    assert_eq!(dispatcher.phase_of(0), Some(WalkPhase::Exhausted));
    assert_eq!(dispatcher.phase_of(1), Some(WalkPhase::Throttling));
    assert_eq!(dispatcher.holders(), 1);
    assert_eq!(dispatcher.progress().completed(), 1);
    assert!(!dispatcher.is_drained());

    // nothing more is asked for the first item
    assert_eq!(dispatcher.on_wake(0, 200), None);

    let third = PageRequest { item_id: 1_001, limit: 100, offset: 0 };
    assert_eq!(dispatcher.on_wake(1, 180), Some(WalkAction::Fetch(third)));
    let reaction = dispatcher.on_response(1, remote(&third), 190);
    assert_eq!(reaction.conclusion.unwrap().flush, None);
    assert_eq!(dispatcher.progress().completed(), 2);
    assert_eq!(dispatcher.holders(), 0);
    assert!(dispatcher.is_drained());
}

#[test]
fn the_same_run_driven_by_the_harness_makes_two_calls_for_the_first_item() {
    let remote = |request: &PageRequest| -> Result<Page, FetchError> {
        if request.item_id == 1_000 && request.offset == 0 {
            Ok(page(request, 100, 0))
        } else if request.item_id == 1_000 {
            Ok(page(request, 40, 2))
        } else {
            Ok(page(request, 0, 0))
        }
    };
    let (dispatcher, seen) = drive(2, 1, &remote, &oldest_first);
    let for_first: Vec<u32> =
        seen.fetches.iter().filter(|(item, _)| *item == 0).map(|(_, r)| r.offset).collect();
    assert_eq!(for_first, vec![0, 100]);
    assert_eq!(seen.fetches.len(), 3);
    assert_eq!(seen.fetches[2].0, 1);
    assert_eq!(seen.flushed.len(), 1);
    assert_eq!(seen.flushed[0].0, 0);
    assert_eq!(seen.flushed[0].1.records.len(), 2);
    assert_eq!(seen.max_holders, 1);
    assert!(dispatcher.is_drained());
}

#[test]
fn an_item_that_always_fails_is_counted_and_never_flushed() {
    let remote = |request: &PageRequest| -> Result<Page, FetchError> {
        if request.item_id == 1_001 {
            Err(FetchError::Transport)
        } else {
            one_short_page(request)
        }
    };
    let (dispatcher, seen) = drive(3, 2, &remote, &oldest_first);
    assert!(seen.flushed.iter().all(|(item, _)| *item != 1));
    assert_eq!(seen.flushed.len(), 2);
    assert!(seen.finished.contains(&(1, WalkPhase::Failed(FetchError::Transport))));
    assert_eq!(seen.fetches.iter().filter(|(item, _)| *item == 1).count(), 1);
    assert_eq!(dispatcher.progress().completed(), 3);
    assert_eq!(dispatcher.phase_of(1), Some(WalkPhase::Failed(FetchError::Transport)));
    assert!(dispatcher.progress().item(1).unwrap().finished);
    assert!(dispatcher.is_drained());
}

#[test]
fn a_failing_item_moves_the_overall_counter_by_one() {
    let mut dispatcher = Dispatcher::new(items(1), TARGET, 1, WalkerConfig::standard(), 0).unwrap();
    dispatcher.start(0);
    assert_eq!(dispatcher.progress().completed(), 0);
    let reaction = dispatcher.on_response(0, Err(FetchError::Decode), 10);
    let conclusion = reaction.conclusion.unwrap();
    assert_eq!(conclusion.outcome, WalkPhase::Failed(FetchError::Decode));
    assert_eq!(conclusion.flush, None);
    assert_eq!(reaction.units, 0);
    assert_eq!(dispatcher.progress().completed(), 1);
    assert!(dispatcher.is_drained());
}

#[test]
fn two_hundred_items_under_a_cap_of_fifty() {
    let (dispatcher, seen) = drive(200, 50, &three_pages, &scattered);
    assert_eq!(seen.max_holders, 50);
    assert_eq!(seen.admitted, (0..200).collect::<Vec<usize>>());
    assert_eq!(seen.finished.len(), 200);
    for pair in seen.completed.windows(2) {
        assert!(pair[0] <= pair[1]);
        assert!(pair[1] - pair[0] <= 1);
    }
    assert_eq!(seen.completed.last(), Some(&200));
    assert_eq!(dispatcher.progress().completed(), 200);
    assert_eq!(dispatcher.progress().total(), 200);
    assert_eq!(dispatcher.holders(), 0);
    assert!(dispatcher.is_drained());
    assert_eq!(seen.fetches.len(), 600);
}

#[test]
fn every_item_is_attempted_exactly_once() {
    let (_, seen) = drive(37, 4, &three_pages, &newest_first);
    let mut admitted = seen.admitted.clone();
    admitted.sort();
    assert_eq!(admitted, (0..37).collect::<Vec<usize>>());
    let mut finished: Vec<usize> = seen.finished.iter().map(|(item, _)| *item).collect();
    finished.sort();
    assert_eq!(finished, (0..37).collect::<Vec<usize>>());
    assert!(seen.max_holders <= 4);
}

#[test]
fn each_item_is_flushed_at_most_once() {
    let (_, seen) = drive(30, 7, &three_pages, &scattered);
    let mut flushed: Vec<usize> = seen.flushed.iter().map(|(item, _)| *item).collect();
    let before = flushed.len();
    flushed.sort();
    flushed.dedup();
    assert_eq!(flushed.len(), before);
}

#[test]
fn results_do_not_depend_on_cap_or_order() {
    let (_, mut reference) = drive(12, 1, &three_pages, &oldest_first);
    reference.flushed.sort_by_key(|(item, _)| *item);
    assert!(!reference.flushed.is_empty());
    let caps: [usize; 4] = [2, 3, 12, 50];
    for cap in caps {
        let (_, mut newest) = drive(12, cap, &three_pages, &newest_first);
        newest.flushed.sort_by_key(|(item, _)| *item);
        assert_eq!(newest.flushed, reference.flushed);
        let (_, mut mixed) = drive(12, cap, &three_pages, &scattered);
        mixed.flushed.sort_by_key(|(item, _)| *item);
        assert_eq!(mixed.flushed, reference.flushed);
    }
}

#[test]
fn offsets_of_each_item_increase_by_the_page_size() {
    let (_, seen) = drive(9, 3, &three_pages, &scattered);
    for item in 0..9 {
        let offsets: Vec<u32> =
            seen.fetches.iter().filter(|(i, _)| *i == item).map(|(_, r)| r.offset).collect();
        assert_eq!(offsets, vec![0, 100, 200]);
    }
    for (item, request) in &seen.fetches {
        assert_eq!(request.item_id, 1_000 + *item as i64);
        assert_eq!(request.limit, 100);
    }
}

#[test]
fn a_server_that_never_ends_is_cut_at_the_hard_stop() {
    let endless =
        |request: &PageRequest| -> Result<Page, FetchError> { Ok(page(request, 100, 1)) };
    let (dispatcher, seen) = drive(2, 2, &endless, &oldest_first);
    assert_eq!(seen.fetches.len(), 200);
    assert!(seen.fetches.iter().all(|(_, request)| request.offset < 10_000));
    assert_eq!(seen.finished, vec![(0, WalkPhase::HardStopped), (1, WalkPhase::HardStopped)]);
    assert_eq!(seen.flushed[0].1.records.len(), 100);
    // 20 strides of 5 pages each
    assert_eq!(dispatcher.progress().item(0).unwrap().position, 100);
    assert_eq!(seen.units.iter().filter(|(item, _)| *item == 0).count(), 20);
}

#[test]
fn per_item_counter_follows_the_answers() {
    let mut dispatcher = Dispatcher::new(items(1), TARGET, 1, WalkerConfig::standard(), 0).unwrap();
    let mut request = match dispatcher.start(0)[0].action {
        WalkAction::Fetch(request) => request,
        other => panic!("expected a fetch, got {:?}", other),
    };
    let mut positions = Vec::new();
    for _ in 0..7 {
        let reaction = dispatcher.on_response(0, Ok(page(&request, 100, 0)), 0);
        positions.push(dispatcher.progress().item(0).unwrap().position);
        request = match reaction.next {
            Some(WalkAction::Fetch(request)) => request,
            other => panic!("expected a fetch, got {:?}", other),
        };
    }
    assert_eq!(positions, vec![5, 5, 5, 5, 5, 10, 10]);
    assert_eq!(request.offset, 700);
}

#[test]
fn finished_item_closes_its_counter_with_its_name() {
    let (dispatcher, _) = drive(2, 2, &one_short_page, &oldest_first);
    let bar = dispatcher.progress().item(1).unwrap();
    assert!(bar.finished);
    assert_eq!(bar.message, Some(String::from("song 1")));
    assert_eq!(bar.position, 5);
}

#[test]
fn cancellation_stops_everything_and_flushes_nothing_more() {
    let mut dispatcher =
        Dispatcher::new(items(6), TARGET, 3, WalkerConfig::standard(), 50).unwrap();
    let mut seen = Seen::default();
    let mut pending = Vec::new();
    let mut now = 0;
    let admitted = dispatcher.start(now);
    enqueue(&mut pending, &mut seen, &admitted, now);
    // every item has hits on every page, so each active item holds records
    let remote = |request: &PageRequest| -> Result<Page, FetchError> {
        if request.item_id == 1_000 {
            Ok(page(request, 10, 4))
        } else {
            Ok(page(request, 100, 4))
        }
    };
    while seen.flushed.is_empty() {
        perform(&mut dispatcher, &mut pending, &mut seen, &mut now, 0, &remote);
    }
    assert_eq!(seen.flushed.len(), 1);
    assert_eq!(seen.flushed[0].0, 0);
    let completed = dispatcher.progress().completed();
    assert_eq!(completed, 1);
    assert_eq!(dispatcher.holders(), 3);

    dispatcher.cancel();
    assert!(dispatcher.is_cancelled());
    assert!(dispatcher.is_drained());
    assert_eq!(dispatcher.holders(), 0);
    assert_eq!(dispatcher.phase_of(0), Some(WalkPhase::Exhausted));
    assert_eq!(dispatcher.phase_of(1), Some(WalkPhase::Cancelled));
    assert_eq!(dispatcher.phase_of(2), Some(WalkPhase::Cancelled));
    assert_eq!(dispatcher.phase_of(3), Some(WalkPhase::Cancelled));
    assert_eq!(dispatcher.phase_of(4), None);

    // what was still pending is handed in after the signal
    assert!(!pending.is_empty());
    while !pending.is_empty() {
        perform(&mut dispatcher, &mut pending, &mut seen, &mut now, 0, &one_short_page);
    }
    assert_eq!(seen.flushed.len(), 1);
    assert_eq!(dispatcher.start(now), Vec::new());
    assert_eq!(dispatcher.started(), 4);
    assert_eq!(dispatcher.progress().completed(), completed);
    assert!(dispatcher.is_drained());
}

#[test]
fn cancelling_twice_is_the_same_as_once() {
    let mut dispatcher =
        Dispatcher::new(items(3), TARGET, 2, WalkerConfig::standard(), 50).unwrap();
    dispatcher.start(0);
    dispatcher.cancel();
    dispatcher.cancel();
    assert!(dispatcher.is_drained());
    assert_eq!(dispatcher.phase_of(0), Some(WalkPhase::Cancelled));
    assert_eq!(dispatcher.phase_of(2), None);
    assert_eq!(dispatcher.on_wake(0, 100), None);
}

#[test]
fn cancelling_before_the_start_starts_nothing() {
    let mut dispatcher =
        Dispatcher::new(items(3), TARGET, 2, WalkerConfig::standard(), 50).unwrap();
    dispatcher.cancel();
    assert_eq!(dispatcher.start(0), Vec::new());
    assert_eq!(dispatcher.started(), 0);
    assert!(dispatcher.is_drained());
}

#[test]
fn a_hard_stop_of_zero_completes_every_item_without_a_fetch() {
    let config = WalkerConfig::new(100, 0, 5).unwrap();
    let mut dispatcher = Dispatcher::new(items(4), TARGET, 1, config, 50).unwrap();
    let admitted = dispatcher.start(0);
    let expected: Vec<Admission> =
        (0..4).map(|item| Admission { item, action: WalkAction::Finished }).collect();
    assert_eq!(admitted, expected);
    assert_eq!(dispatcher.holders(), 0);
    assert_eq!(dispatcher.progress().completed(), 4);
    assert_eq!(dispatcher.phase_of(3), Some(WalkPhase::HardStopped));
    assert!(dispatcher.progress().item(2).unwrap().finished);
    assert!(dispatcher.is_drained());
}
