use teos::chain_monitor::{ChainError, ChainEvent, ChainMonitor, ChainWalk, Header, WalkNeed};
use teos::ids::BlockHash;

fn hash(branch: u8, height: u32) -> BlockHash {
    let mut bytes = [branch; 32];
    bytes[..4].copy_from_slice(&height.to_be_bytes());
    BlockHash::new(bytes)
}

/// The header at a height of a chain that leaves the main chain, branch 0,
/// above `fork`.
fn header(branch: u8, fork: u32, height: u32) -> Header {
    let on = |h: u32| if h <= fork { 0 } else { branch };
    Header {
        hash: hash(on(height), height),
        prev_hash: if height == 0 {
            BlockHash::new([0xff; 32])
        } else {
            hash(on(height - 1), height - 1)
        },
        height,
    }
}

fn describe(events: &[ChainEvent]) -> Vec<(bool, Header)> {
    events
        .iter()
        .map(|e| match e {
            ChainEvent::Connected(h) => (true, *h),
            ChainEvent::Disconnected(h) => (false, *h),
        })
        .collect()
}

fn same(a: &Header, b: &Header) -> bool {
    a.hash == b.hash && a.prev_hash == b.prev_hash && a.height == b.height
}

/// Walks to the end, reading headers from the two chains.
fn run(walk: &mut ChainWalk, old: (u8, u32), new: (u8, u32)) -> usize {
    let mut steps = 0;
    loop {
        let need = walk.need();
        if need == WalkNeed::Nothing {
            return steps;
        }
        let before_new = header(new.0, new.1, walk.lowest_new().height - 1);
        let before_old = header(old.0, old.1, walk.lowest_old().height - 1);
        walk.advance(Some(before_new), Some(before_old)).unwrap();
        steps += 1;
    }
}

#[test]
fn unchanged_tip_gives_no_event() {
    let tip = header(0, 0, 10);
    let mut monitor = ChainMonitor::new(tip);
    let walk = monitor.poll(tip);
    assert_eq!(walk.need(), WalkNeed::Nothing);
    assert!(walk.events().unwrap().is_empty());
    assert!(monitor.advance_tip(&walk));
    assert!(same(&monitor.last_known_tip(), &tip));
}

#[test]
fn direct_extension_connects_one_block() {
    let tip = header(0, 0, 10);
    let best = header(0, 0, 11);
    let mut monitor = ChainMonitor::new(tip);
    let mut walk = monitor.poll(best);
    assert_eq!(walk.need(), WalkNeed::PreviousOfNew);
    assert!(walk.events().is_none());
    assert!(!monitor.advance_tip(&walk));
    assert_eq!(walk.advance(Some(tip), None), Ok(()));
    assert_eq!(walk.need(), WalkNeed::Nothing);
    let events = describe(&walk.events().unwrap());
    assert_eq!(events.len(), 1);
    assert!(events[0].0 && same(&events[0].1, &best));
    assert!(monitor.advance_tip(&walk));
    assert!(same(&monitor.last_known_tip(), &best));
}

#[test]
fn backlog_connects_blocks_in_ascending_order() {
    let tip = header(0, 0, 10);
    let mut walk = ChainMonitor::new(tip).poll(header(0, 0, 14));
    assert_eq!(run(&mut walk, (0, 0), (0, 0)), 4);
    let events = describe(&walk.events().unwrap());
    assert_eq!(events.len(), 4);
    for (i, (connected, h)) in events.iter().enumerate() {
        assert!(*connected);
        assert!(same(h, &header(0, 0, 11 + i as u32)));
    }
}

#[test]
fn reorg_disconnects_downwards_then_connects_upwards() {
    // The tower is at height 12 of branch 1, which left the main chain
    // above height 9. The best block is at height 14 of branch 2, which left
    // it above height 10.
    let tip = header(1, 9, 12);
    let best = header(2, 10, 14);
    let mut monitor = ChainMonitor::new(tip);
    let mut walk = monitor.poll(best);
    let steps = run(&mut walk, (1, 9), (2, 10));
    assert_eq!(steps, 5);
    let events = describe(&walk.events().unwrap());
    let expected = [
        (false, header(1, 9, 12)),
        (false, header(1, 9, 11)),
        (false, header(1, 9, 10)),
        (true, header(2, 10, 10)),
        (true, header(2, 10, 11)),
        (true, header(2, 10, 12)),
        (true, header(2, 10, 13)),
        (true, header(2, 10, 14)),
    ];
    assert_eq!(events.len(), expected.len());
    for (event, wanted) in events.iter().zip(expected.iter()) {
        assert_eq!(event.0, wanted.0);
        assert!(same(&event.1, &wanted.1));
    }
    assert!(same(&walk.lowest_new(), &header(0, 0, 9)));
    assert!(same(&walk.lowest_old(), &header(0, 0, 9)));
    assert!(monitor.advance_tip(&walk));
    assert!(same(&monitor.last_known_tip(), &best));
}

#[test]
fn reorg_to_a_shorter_branch() {
    let tip = header(1, 9, 13);
    let best = header(2, 11, 12);
    let mut walk = ChainWalk::new(tip, best);
    assert_eq!(walk.need(), WalkNeed::PreviousOfOld);
    run(&mut walk, (1, 9), (2, 11));
    let events = describe(&walk.events().unwrap());
    let heights: Vec<(bool, u32)> = events.iter().map(|(c, h)| (*c, h.height)).collect();
    assert_eq!(
        heights,
        vec![
            (false, 13),
            (false, 12),
            (false, 11),
            (false, 10),
            (true, 10),
            (true, 11),
            (true, 12)
        ]
    );
}

#[test]
fn headers_that_do_not_fit_are_refused() {
    let tip = header(1, 9, 12);
    let best = header(2, 10, 12);
    let mut walk = ChainWalk::new(tip, best);
    assert_eq!(walk.need(), WalkNeed::PreviousOfBoth);
    assert_eq!(walk.advance(None, Some(header(1, 9, 11))), Err(ChainError::MissingHeader));
    assert_eq!(walk.advance(Some(header(2, 10, 11)), None), Err(ChainError::MissingHeader));
    assert_eq!(
        walk.advance(Some(header(1, 9, 11)), Some(header(1, 9, 11))),
        Err(ChainError::NotLinked)
    );
    assert_eq!(
        walk.advance(Some(header(2, 10, 11)), Some(header(1, 9, 10))),
        Err(ChainError::NotLinked)
    );
    let mut wrong_height = header(2, 10, 11);
    wrong_height.height = 12;
    assert_eq!(
        walk.advance(Some(wrong_height), Some(header(1, 9, 11))),
        Err(ChainError::NotLinked)
    );
    // Nothing was taken.
    assert!(same(&walk.lowest_new(), &best));
    assert!(same(&walk.lowest_old(), &tip));
    assert_eq!(walk.advance(Some(header(2, 10, 11)), Some(header(1, 9, 11))), Ok(()));
    assert!(same(&walk.lowest_new(), &header(2, 10, 11)));
}

#[test]
fn tip_moves_only_for_a_finished_walk_from_the_tip() {
    let tip = header(0, 0, 10);
    let mut monitor = ChainMonitor::new(tip);
    let mut elsewhere = ChainWalk::new(header(0, 0, 9), header(0, 0, 10));
    elsewhere.advance(Some(header(0, 0, 9)), None).unwrap();
    assert_eq!(elsewhere.need(), WalkNeed::Nothing);
    assert!(!monitor.advance_tip(&elsewhere));
    assert!(same(&monitor.last_known_tip(), &tip));
}

#[test]
fn reachability_is_kept() {
    let mut monitor = ChainMonitor::new(header(0, 0, 10));
    assert!(monitor.is_reachable());
    monitor.set_reachable(false);
    assert!(!monitor.is_reachable());
    assert!(same(&monitor.last_known_tip(), &header(0, 0, 10)));
    monitor.set_reachable(true);
    assert!(monitor.is_reachable());
}

#[test]
fn replay_applies_the_last_blocks_lowest_first() {
    let last = vec![header(0, 0, 12), header(0, 0, 11), header(0, 0, 10)];
    let events = describe(&ChainMonitor::replay(&last));
    let heights: Vec<(bool, u32)> = events.iter().map(|(c, h)| (*c, h.height)).collect();
    assert_eq!(heights, vec![(true, 10), (true, 11), (true, 12)]);
    assert!(ChainMonitor::replay(&vec![]).is_empty());
}
