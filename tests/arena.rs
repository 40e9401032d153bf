use solog::arena::{AllocatorHandler, EditRejection, ROOT};
use solog::kit::{heap_kit, BatchOutcome, CommandOutcome, HeapCommand, HeapKit};

fn word(a: &AllocatorHandler, off: usize) -> u64 {
    let mut b = [0u8; 8];
    b.copy_from_slice(&a.region()[off..off + 8]);
    u64::from_le_bytes(b)
}

fn three_blocks() -> AllocatorHandler {
    let mut a = AllocatorHandler::new(256);
    assert_eq!(a.allocate(0x10), Some(24));
    assert_eq!(a.allocate(0x10), Some(56));
    assert_eq!(a.allocate(0x10), Some(88));
    a
}

#[test]
fn fresh_arena_is_zeroed_and_unset() {
    let a = AllocatorHandler::new(64);
    assert_eq!(a.capacity(), 64);
    assert_eq!(a.frontier(), 0);
    assert!(a.region().iter().all(|b| *b == 0));
}

#[test]
fn allocation_lays_out_header_and_advances_frontier() {
    let mut a = AllocatorHandler::new(128);
    assert_eq!(a.allocate(5), Some(ROOT + 16));
    assert_eq!(a.frontier(), ROOT + 16 + 5);
    assert_eq!(word(&a, 8), 16);
    assert_eq!(word(&a, 16), 5);
    assert_eq!(a.allocate(3), Some(ROOT + 16 + 5 + 16));
    assert_eq!(a.frontier(), ROOT + 16 + 5 + 16 + 3);
    assert_eq!(word(&a, 29), 37);
    assert_eq!(word(&a, 37), 3);
}

#[test]
fn frontier_grows_by_header_and_size() {
    let mut a = AllocatorHandler::new(1024);
    let mut last = a.frontier();
    for size in [0u64, 1, 7, 16, 100] {
        let before = if last == 0 { ROOT } else { last };
        assert!(a.allocate(size).is_some());
        assert_eq!(a.frontier(), before + 16 + size);
        assert!(a.frontier() > last);
        last = a.frontier();
    }
}

#[test]
fn failed_allocation_keeps_frontier_but_writes_header() {
    let mut a = AllocatorHandler::new(64);
    assert_eq!(a.allocate(16), Some(24));
    assert_eq!(a.allocate(16), None);
    assert_eq!(a.frontier(), 40);
    assert_eq!(word(&a, 40), 48);
    assert_eq!(word(&a, 48), 16);
    assert_eq!(a.allocate(8), Some(56));
    assert_eq!(a.frontier(), 64);
}

#[test]
fn allocation_that_cannot_hold_a_header_fails() {
    let mut a = AllocatorHandler::new(12);
    assert_eq!(a.allocate(0), None);
    assert_eq!(a.frontier(), 0);
    assert!(a.region().iter().all(|b| *b == 0));
}

#[test]
fn search_follows_allocations() {
    let a = three_blocks();
    assert_eq!(a.search(1), (16, 24));
    assert_eq!(a.search(2), (16, 56));
    assert_eq!(a.search(3), (16, 88));
    assert_eq!(a.search(2).1 - a.search(1).1, 32);
    assert_eq!(a.search(3).1 - a.search(2).1, 32);
}

#[test]
fn search_index_zero_is_block_one() {
    let a = three_blocks();
    assert_eq!(a.search(0), a.search(1));
}

#[test]
fn search_past_the_chain_reports_null() {
    let a = three_blocks();
    assert_eq!(a.search(4), (0, 0));
    assert_eq!(a.search(5), (0, 0));
    assert_eq!(a.search(1000), (0, 0));
    let empty = AllocatorHandler::new(64);
    assert_eq!(empty.search(1), (0, 0));
}

#[test]
fn index_consistency_for_varied_sizes() {
    let sizes = [3u64, 0, 40, 1, 9];
    let mut a = AllocatorHandler::new(512);
    let mut ptrs = Vec::new();
    for s in sizes {
        ptrs.push(a.allocate(s).unwrap());
    }
    for (i, s) in sizes.iter().enumerate() {
        assert_eq!(a.search(i as u64 + 1), (*s, ptrs[i]));
    }
}

#[test]
fn truncating_edit_relinks_chain() {
    let mut a = three_blocks();
    let (_, p2) = a.search(2);
    assert_eq!(a.edit(p2, &[1, 2, 3, 4, 5, 6, 7, 8], true), Ok(()));
    assert_eq!(a.search(2), (8, 56));
    assert_eq!(a.search(3), (16, 88));
    assert_eq!(&a.region()[56..64], &[1, 2, 3, 4, 5, 6, 7, 8]);
    assert_eq!(word(&a, 64), 80);
}

#[test]
fn repeated_truncation_never_grows() {
    let mut a = three_blocks();
    let p = a.search(1).1;
    let mut len = a.search(1).0;
    for n in [12usize, 20, 5, 9, 1, 3] {
        let data = vec![0x11u8; n];
        let _ = a.edit(p, &data, true);
        let now = a.search(1).0;
        assert!(now <= len);
        len = now;
    }
    assert_eq!(len, 1);
}

#[test]
fn edit_at_least_length_keeps_length() {
    let mut a = three_blocks();
    assert_eq!(a.edit(24, &[9u8; 16], true), Ok(()));
    assert_eq!(a.search(1), (16, 24));
    assert_eq!(a.edit(24, &[7u8; 20], true), Ok(()));
    assert_eq!(a.search(1).0, 16);
}

#[test]
fn edit_without_resize_keeps_length() {
    let mut a = three_blocks();
    assert_eq!(a.edit(24, &[5u8; 4], false), Ok(()));
    assert_eq!(a.search(1), (16, 24));
    assert_eq!(&a.region()[24..28], &[5, 5, 5, 5]);
}

#[test]
fn oversized_edit_changes_nothing() {
    let mut a = three_blocks();
    let before = a.region().clone();
    assert_eq!(a.edit(24, &[1u8; 25], true), Err(EditRejection::TooLong));
    assert_eq!(a.region(), &before);
    let mut big = AllocatorHandler::new(256);
    let p = big.allocate(40).unwrap();
    let before = big.region().clone();
    assert_eq!(big.edit(p, &[1u8; 41], false), Err(EditRejection::TooLong));
    assert_eq!(big.region(), &before);
    assert_eq!(big.edit(p, &[1u8; 40], false), Ok(()));
}

#[test]
fn overflow_window_overwrites_next_self_locator() {
    let mut a = three_blocks();
    let mut data = vec![0xaau8; 16];
    data.extend_from_slice(&[1, 2, 3, 4, 5, 6, 7, 8]);
    let before = a.region().clone();
    assert_eq!(a.edit(56, &data, true), Ok(()));
    assert_eq!(&a.region()[72..80], &[1, 2, 3, 4, 5, 6, 7, 8]);
    assert_eq!(&a.region()[56..72], &[0xaa; 16]);
    assert_eq!(&a.region()[..56], &before[..56]);
    assert_eq!(&a.region()[80..], &before[80..]);
    assert_eq!(a.search(2), (16, 56));
    assert_eq!(a.search(3), (0, 0));
}

#[test]
fn overflow_window_can_redirect_the_chain() {
    let mut a = three_blocks();
    let mut data = vec![0u8; 16];
    data.extend_from_slice(&16u64.to_le_bytes());
    assert_eq!(a.edit(56, &data, false), Ok(()));
    assert_eq!(a.search(3), (16, 24));
}

#[test]
fn edit_of_empty_block_is_rejected() {
    let mut a = AllocatorHandler::new(128);
    let p = a.allocate(0).unwrap();
    assert_eq!(a.edit(p, &[], true), Err(EditRejection::EmptyBlock));
    assert_eq!(a.edit(p, &[1], false), Err(EditRejection::EmptyBlock));
}

#[test]
fn edit_with_corrupt_length_is_rejected() {
    let mut a = three_blocks();
    assert_eq!(a.edit(24, &[0xffu8; 8], false), Ok(()));
    let before = a.region().clone();
    assert_eq!(a.edit(32, &[1], false), Err(EditRejection::CorruptLength));
    assert_eq!(a.region(), &before);
}

#[test]
fn edit_outside_the_region_is_rejected() {
    let mut a = three_blocks();
    assert_eq!(a.edit(0, &[1], false), Err(EditRejection::OutOfRegion));
    assert_eq!(a.edit(4, &[1], false), Err(EditRejection::OutOfRegion));
    assert_eq!(a.edit(1000, &[1], false), Err(EditRejection::OutOfRegion));
    let mut tight = AllocatorHandler::new(40);
    let p = tight.allocate(16).unwrap();
    assert_eq!(tight.edit(p, &[1u8; 20], false), Err(EditRejection::OutOfRegion));
    assert_eq!(tight.edit(p, &[1u8; 4], true), Err(EditRejection::OutOfRegion));
    assert_eq!(tight.edit(p, &[1u8; 4], false), Ok(()));
}

#[test]
fn batch_runs_in_order() {
    let mut a = AllocatorHandler::new(256);
    let kit = HeapKit {
        commands: vec![
            HeapCommand::Allocate { size: 0x10 },
            HeapCommand::Allocate { size: 0x10 },
            HeapCommand::Allocate { size: 0x10 },
            HeapCommand::Edit { index: 2, data: vec![7u8; 8], resize: true },
            HeapCommand::Search { index: 2 },
            HeapCommand::Search { index: 3 },
        ],
    };
    let out = heap_kit(&mut a, &kit);
    assert_eq!(
        out,
        BatchOutcome::Executed(vec![
            CommandOutcome::Allocated(Some(24)),
            CommandOutcome::Allocated(Some(56)),
            CommandOutcome::Allocated(Some(88)),
            CommandOutcome::Edited(Ok(())),
            CommandOutcome::Found { index: 2, length: 8, payload: 56 },
            CommandOutcome::Found { index: 3, length: 16, payload: 88 },
        ])
    );
}

#[test]
fn batch_over_the_cap_runs_nothing() {
    let mut a = AllocatorHandler::new(256);
    let kit = HeapKit { commands: vec![HeapCommand::Allocate { size: 1 }; 7] };
    assert_eq!(heap_kit(&mut a, &kit), BatchOutcome::Skipped);
    assert_eq!(a.frontier(), 0);
    assert!(a.region().iter().all(|b| *b == 0));
}

#[test]
fn batch_keeps_going_after_rejections() {
    let mut a = AllocatorHandler::new(64);
    let kit = HeapKit {
        commands: vec![
            HeapCommand::Edit { index: 1, data: vec![1], resize: false },
            HeapCommand::Allocate { size: 100 },
            HeapCommand::Allocate { size: 8 },
            HeapCommand::Edit { index: 1, data: vec![1u8; 17], resize: false },
            HeapCommand::Search { index: 1 },
        ],
    };
    assert_eq!(
        heap_kit(&mut a, &kit),
        BatchOutcome::Executed(vec![
            CommandOutcome::Edited(Err(EditRejection::OutOfRegion)),
            CommandOutcome::Allocated(None),
            CommandOutcome::Allocated(Some(24)),
            CommandOutcome::Edited(Err(EditRejection::TooLong)),
            CommandOutcome::Found { index: 1, length: 8, payload: 24 },
        ])
    );
}

#[test]
fn empty_batch_runs() {
    let mut a = AllocatorHandler::new(32);
    assert_eq!(heap_kit(&mut a, &HeapKit { commands: vec![] }), BatchOutcome::Executed(vec![]));
}
