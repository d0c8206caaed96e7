use massa_execution::block_graph::{
    add_genesis, new_block_graph, process_block, recheck_block, BlockGraph, BlockStatus, DiscardReason,
};
use massa_execution::hash::Digest;
use massa_execution::slot::Slot;

const THREADS: u8 = 2;

fn id(b: u8) -> Digest {
    Digest([b; 32])
}

fn genesis_graph() -> (BlockGraph, Vec<Digest>) {
    let mut g = new_block_graph();
    let genesis = vec![id(0xA0), id(0xA1)];
    add_genesis(&mut g, genesis[0], 0, THREADS);
    add_genesis(&mut g, genesis[1], 1, THREADS);
    (g, genesis)
}

#[test]
fn test_parent_in_the_future() {
    let (mut g, genesis) = genesis_graph();
    let a = id(1);
    let b = id(2);
    let now = Slot::new(0, 0);
    assert_eq!(process_block(&mut g, a, Slot::new(4, 0), genesis.clone(), now, THREADS), BlockStatus::WaitingForSlot);
    assert_eq!(process_block(&mut g, b, Slot::new(5, 0), vec![a, genesis[1]], now, THREADS), BlockStatus::WaitingForSlot);
    // B's slot comes while A still waits: B must not become active.
    assert_eq!(recheck_block(&mut g, b, Slot::new(5, 0), THREADS), Some(BlockStatus::WaitingForDependencies));
    assert_eq!(recheck_block(&mut g, a, Slot::new(5, 0), THREADS), Some(BlockStatus::Active));
    assert_eq!(recheck_block(&mut g, b, Slot::new(5, 0), THREADS), Some(BlockStatus::Active));
}

#[test]
fn test_parents() {
    let (mut g, genesis) = genesis_graph();
    let now = Slot::new(10, 0);
    let a = id(1);
    assert_eq!(process_block(&mut g, a, Slot::new(1, 0), genesis.clone(), now, THREADS), BlockStatus::Active);
    assert_eq!(process_block(&mut g, id(2), Slot::new(1, 1), genesis.clone(), now, THREADS), BlockStatus::Active);
    assert_eq!(
        process_block(&mut g, id(3), Slot::new(3, 0), vec![a, genesis[0]], now, THREADS),
        BlockStatus::Discarded(DiscardReason::Invalid)
    );
}

#[test]
fn test_parents_in_incompatible_cliques() {
    let (mut g, genesis) = genesis_graph();
    let now = Slot::new(10, 0);
    let x = id(1);
    let y = id(2);
    assert_eq!(process_block(&mut g, x, Slot::new(1, 0), genesis.clone(), now, THREADS), BlockStatus::Active);
    assert_eq!(process_block(&mut g, y, Slot::new(2, 0), genesis.clone(), now, THREADS), BlockStatus::Active);
    assert_eq!(process_block(&mut g, id(3), Slot::new(1, 1), vec![x, genesis[1]], now, THREADS), BlockStatus::Active);
    assert_ne!(process_block(&mut g, id(4), Slot::new(2, 1), vec![x, y], now, THREADS), BlockStatus::Active);
}

#[test]
fn block_ingestion_rules() {
    let (mut g, genesis) = genesis_graph();
    let now = Slot::new(10, 0);
    assert_eq!(
        process_block(&mut g, id(1), Slot::new(1, 0), vec![genesis[0]], now, THREADS),
        BlockStatus::Discarded(DiscardReason::Invalid)
    );
    assert_eq!(
        process_block(&mut g, id(2), Slot::new(1, 5), genesis.clone(), now, THREADS),
        BlockStatus::Discarded(DiscardReason::Invalid)
    );
    assert_eq!(
        process_block(&mut g, id(3), Slot::new(2, 0), vec![id(99), genesis[1]], now, THREADS),
        BlockStatus::WaitingForDependencies
    );
    assert_eq!(
        process_block(&mut g, id(4), Slot::new(3, 0), vec![id(1), genesis[1]], now, THREADS),
        BlockStatus::Discarded(DiscardReason::Stale)
    );
    assert_eq!(
        process_block(&mut g, id(5), Slot::new(0, 1), genesis.clone(), now, THREADS),
        BlockStatus::Discarded(DiscardReason::Invalid)
    );
    // a known block keeps its status
    assert_eq!(
        process_block(&mut g, id(1), Slot::new(1, 0), genesis.clone(), now, THREADS),
        BlockStatus::Discarded(DiscardReason::Invalid)
    );
    assert_eq!(recheck_block(&mut g, id(77), now, THREADS), None);
    assert_eq!(recheck_block(&mut g, genesis[0], now, THREADS), Some(BlockStatus::Final));
}
