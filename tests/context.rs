use rand_xoshiro::rand_core::SeedableRng;
use rand_xoshiro::Xoshiro256PlusPlus;
use massa_execution::amount::Amount;
use massa_execution::async_pool::AsyncMessage;
use massa_execution::context::{
    ExecutionContext, ExecutionError, ExecutionStackElement, FinalState, StateChanges,
};
use massa_execution::hash::Digest;
use massa_execution::key_map::KeyMap;
use massa_execution::ledger_entry::LedgerEntry;
use massa_execution::slot::Slot;
use massa_execution::speculative_ledger::LedgerError;

fn addr(b: u8) -> Digest {
    Digest([b; 32])
}

fn entry(balance: u64) -> LedgerEntry {
    LedgerEntry { parallel_balance: Amount::from_raw(balance), bytecode: vec![0xB0], datastore: KeyMap::new() }
}

fn final_state(messages: Vec<AsyncMessage>, max_length: u64) -> FinalState {
    let mut ledger = KeyMap::new();
    ledger.insert(addr(1), entry(5));
    ledger.insert(addr(2), entry(100));
    FinalState { ledger, async_pool: messages, async_pool_max_length: max_length }
}

fn no_changes() -> StateChanges {
    StateChanges { ledger_changes: KeyMap::new(), async_pool_changes: Vec::new() }
}

fn frame(owner: u8) -> ExecutionStackElement {
    ExecutionStackElement { address: addr(owner), coins: Amount::from_raw(3), owned_addresses: vec![addr(owner)] }
}

fn active(slot: Slot, block: Option<Digest>) -> ExecutionContext {
    let mut ctx = ExecutionContext::active_slot(slot, block, no_changes(), final_state(Vec::new(), 10));
    ctx.stack.push(frame(1));
    ctx
}

fn message(index: u64, price: u64, gas: u64, start: u64, end: u64, coins: u64) -> AsyncMessage {
    AsyncMessage {
        emission_slot: Slot::new(0, 0),
        emission_index: index,
        sender: addr(2),
        destination: addr(1),
        handler: "run".to_string(),
        max_gas: gas,
        gas_price: Amount::from_raw(price),
        coins: Amount::from_raw(coins),
        validity_start: Slot::new(start, 0),
        validity_end: Slot::new(end, 0),
        data: vec![index as u8],
    }
}

#[test]
fn failed_transfer_changes_nothing() {
    let mut ctx = active(Slot::new(1, 0), None);
    let r = ctx.transfer_parallel_coins(Some(addr(1)), Some(addr(2)), Amount::from_raw(10));
    assert_eq!(r, Err(ExecutionError::Ledger(LedgerError::InsufficientBalance)));
    assert_eq!(ctx.get_parallel_balance(&addr(1)), Some(Amount::from_raw(5)));
    assert_eq!(ctx.get_parallel_balance(&addr(2)), Some(Amount::from_raw(100)));
    assert_eq!(ctx.speculative_ledger.added_changes.len(), 0);
}

#[test]
fn transfer_moves_coins() {
    let mut ctx = active(Slot::new(1, 0), None);
    assert_eq!(ctx.transfer_parallel_coins(Some(addr(1)), Some(addr(3)), Amount::from_raw(4)), Ok(()));
    assert_eq!(ctx.get_parallel_balance(&addr(1)), Some(Amount::from_raw(1)));
    assert_eq!(ctx.get_parallel_balance(&addr(3)), Some(Amount::from_raw(4)));
    assert_eq!(ctx.transfer_parallel_coins(Some(addr(2)), None, Amount::from_raw(1)), Err(ExecutionError::WriteNotAllowed));
    assert_eq!(ctx.transfer_parallel_coins(None, Some(addr(2)), Amount::from_raw(u64::MAX)), Err(ExecutionError::Ledger(LedgerError::BalanceOverflow)));
    assert_eq!(ctx.transfer_parallel_coins(Some(addr(1)), Some(addr(1)), Amount::from_raw(1)), Ok(()));
    assert_eq!(ctx.get_parallel_balance(&addr(1)), Some(Amount::from_raw(1)));
    ctx.stack.push(frame(9));
    assert_eq!(ctx.transfer_parallel_coins(Some(addr(9)), None, Amount::from_raw(1)), Err(ExecutionError::Ledger(LedgerError::MissingAddress)));
}

#[test]
fn address_creation_is_deterministic() {
    let block = Some(addr(7));
    let mut a = active(Slot::new(3, 1), block);
    let mut b = active(Slot::new(3, 1), block);
    let x = a.create_new_sc_address(vec![1]).unwrap();
    let y = b.create_new_sc_address(vec![2]).unwrap();
    assert_eq!(x, y);
    let mut ro = ExecutionContext::readonly(Slot::new(3, 1), 1000, Amount::zero(), vec![frame(1)], no_changes(), final_state(Vec::new(), 10));
    let z = ro.create_new_sc_address(vec![1]).unwrap();
    assert_ne!(x, z);
    let x2 = a.create_new_sc_address(vec![1]).unwrap();
    assert_ne!(x, x2);
    assert_eq!(a.created_addr_index, 2);
}

#[test]
fn created_address_is_owned_and_holds_bytecode() {
    let mut ctx = active(Slot::new(2, 0), None);
    let x = ctx.create_new_sc_address(vec![4, 2]).unwrap();
    assert_eq!(ctx.get_bytecode(&x), Some(vec![4, 2]));
    assert_eq!(ctx.get_parallel_balance(&x), Some(Amount::zero()));
    assert!(ctx.has_write_rights_on(&x));
    assert_eq!(ctx.get_current_owned_addresses().unwrap(), vec![addr(1), x]);
    let mut seed = Slot::new(2, 0).to_bytes_key().to_vec();
    seed.extend_from_slice(&0u64.to_be_bytes());
    seed.push(1);
    assert_eq!(x, Digest::compute_from(&seed));
    let mut empty = ExecutionContext::active_slot(Slot::new(2, 0), None, no_changes(), final_state(Vec::new(), 10));
    assert_eq!(empty.create_new_sc_address(vec![1]), Err(ExecutionError::EmptyCallStack));
}

#[test]
fn slot_key_layout() {
    assert_eq!(Slot::new(0x0102030405060708, 9).to_bytes_key(), [1, 2, 3, 4, 5, 6, 7, 8, 9]);
    assert!(Slot::new(1, 5).lt(&Slot::new(2, 0)));
    assert!(Slot::new(1, 0).lt(&Slot::new(1, 1)));
    assert!(!Slot::new(1, 1).lt(&Slot::new(1, 1)));
}

#[test]
fn write_rights_follow_the_top_frame() {
    let mut ctx = active(Slot::new(1, 0), None);
    assert!(ctx.has_write_rights_on(&addr(1)));
    assert!(!ctx.has_write_rights_on(&addr(2)));
    assert_eq!(ctx.set_data_entry(&addr(2), addr(5), vec![1]), Err(ExecutionError::WriteNotAllowed));
    assert_eq!(ctx.set_bytecode(&addr(2), vec![1]), Err(ExecutionError::WriteNotAllowed));
    assert_eq!(ctx.delete_data_entry(&addr(2), &addr(5)), Err(ExecutionError::WriteNotAllowed));
    assert_eq!(ctx.get_current_address(), Ok(addr(1)));
    assert_eq!(ctx.get_current_call_coins(), Ok(Amount::from_raw(3)));
    assert_eq!(ctx.get_call_stack(), vec![addr(1)]);
    ctx.stack.clear();
    assert!(!ctx.has_write_rights_on(&addr(1)));
    assert_eq!(ctx.get_current_address(), Err(ExecutionError::EmptyCallStack));
    assert_eq!(ctx.get_current_call_coins(), Err(ExecutionError::EmptyCallStack));
    assert_eq!(ctx.get_current_owned_addresses(), Err(ExecutionError::EmptyCallStack));
}

#[test]
fn datastore_operations() {
    let mut ctx = active(Slot::new(1, 0), None);
    assert_eq!(ctx.append_data_entry(&addr(1), addr(5), vec![1]), Err(ExecutionError::Ledger(LedgerError::MissingDataEntry)));
    assert_eq!(ctx.delete_data_entry(&addr(1), &addr(5)), Err(ExecutionError::Ledger(LedgerError::MissingDataEntry)));
    assert_eq!(ctx.set_data_entry(&addr(1), addr(5), vec![1, 2]), Ok(()));
    assert_eq!(ctx.append_data_entry(&addr(1), addr(5), vec![3]), Ok(()));
    assert_eq!(ctx.get_data_entry(&addr(1), &addr(5)), Some(vec![1, 2, 3]));
    assert!(ctx.has_data_entry(&addr(1), &addr(5)));
    assert_eq!(ctx.set_bytecode(&addr(1), vec![9, 9]), Ok(()));
    assert_eq!(ctx.get_bytecode(&addr(1)), Some(vec![9, 9]));
    assert_eq!(ctx.delete_data_entry(&addr(1), &addr(5)), Ok(()));
    assert!(!ctx.has_data_entry(&addr(1), &addr(5)));
    ctx.stack.push(frame(9));
    assert_eq!(ctx.set_data_entry(&addr(9), addr(5), vec![1]), Err(ExecutionError::Ledger(LedgerError::MissingAddress)));
    assert_eq!(ctx.set_bytecode(&addr(9), vec![1]), Err(ExecutionError::Ledger(LedgerError::MissingAddress)));
    assert_eq!(ctx.delete_data_entry(&addr(9), &addr(5)), Err(ExecutionError::Ledger(LedgerError::MissingAddress)));
}

#[test]
fn snapshot_rollback_restores_state() {
    let mut ctx = active(Slot::new(1, 0), Some(addr(4)));
    ctx.set_data_entry(&addr(1), addr(5), vec![1]).unwrap();
    let snapshot = ctx.get_snapshot();
    ctx.set_data_entry(&addr(1), addr(5), vec![2]).unwrap();
    ctx.transfer_parallel_coins(Some(addr(1)), Some(addr(2)), Amount::from_raw(5)).unwrap();
    ctx.generate_event("boom".to_string()).unwrap();
    ctx.create_new_sc_address(vec![1]).unwrap();
    ctx.push_new_message(message(0, 1, 1, 0, 9, 0));
    ctx.reset_to_snapshot(snapshot);
    assert_eq!(ctx.get_data_entry(&addr(1), &addr(5)), Some(vec![1]));
    assert_eq!(ctx.get_parallel_balance(&addr(1)), Some(Amount::from_raw(5)));
    assert_eq!(ctx.get_parallel_balance(&addr(2)), Some(Amount::from_raw(100)));
    assert!(ctx.events.is_empty());
    assert_eq!(ctx.created_event_index, 0);
    assert_eq!(ctx.created_addr_index, 0);
    assert_eq!(ctx.get_current_owned_addresses().unwrap(), vec![addr(1)]);
    assert!(ctx.speculative_async_pool.emitted().is_empty());
    assert_eq!(ctx.slot, Slot::new(1, 0));
    assert_eq!(ctx.opt_block_id, Some(addr(4)));
}

#[test]
fn events_are_stamped_and_counted() {
    let mut ctx = active(Slot::new(6, 2), Some(addr(4)));
    ctx.generate_event("first".to_string()).unwrap();
    ctx.generate_event("second".to_string()).unwrap();
    assert_eq!(ctx.events.len(), 2);
    let e = &ctx.events[1];
    assert_eq!(e.data, "second");
    assert_eq!(e.context.slot, Slot::new(6, 2));
    assert_eq!(e.context.block, Some(addr(4)));
    assert_eq!(e.context.call_stack, vec![addr(1)]);
    assert_eq!(e.context.index_in_slot, 1);
    assert!(!e.context.read_only);
    assert_eq!(ctx.created_event_index, 2);
}

#[test]
fn async_batch_respects_priority_validity_and_gas() {
    let messages = vec![
        message(0, 1, 10, 0, 10, 0),
        message(1, 5, 10, 0, 10, 0),
        message(2, 9, 10, 5, 10, 0),
        message(3, 3, 30, 0, 10, 0),
        message(4, 2, 5, 0, 10, 0),
    ];
    let mut ctx = ExecutionContext::active_slot(Slot::new(1, 0), None, no_changes(), final_state(messages, 10));
    let batch = ctx.take_async_batch(20);
    let taken: Vec<u64> = batch.iter().map(|(_, m)| m.emission_index).collect();
    assert_eq!(taken, vec![1, 4]);
    assert_eq!(batch[0].0, Some(vec![0xB0]));
    assert_eq!(ctx.speculative_async_pool.messages().len(), 3);
}

#[test]
fn settle_slot_skips_a_refund_that_overflows() {
    let mut rich = message(0, 1, 1, 0, 1, u64::MAX);
    rich.sender = addr(2);
    let mut small = message(1, 1, 1, 0, 1, 4);
    small.sender = addr(1);
    let mut ctx = ExecutionContext::active_slot(Slot::new(3, 0), None, no_changes(), final_state(vec![rich, small], 10));
    let out = ctx.settle_slot();
    assert_eq!(out.evicted_messages.len(), 2);
    assert_eq!(ctx.get_parallel_balance(&addr(2)), Some(Amount::from_raw(100)));
    assert_eq!(ctx.get_parallel_balance(&addr(1)), Some(Amount::from_raw(9)));
    assert!(ctx.speculative_async_pool.messages().is_empty());
}

#[test]
fn settle_slot_evicts_and_reimburses() {
    let messages = vec![message(0, 1, 1, 0, 2, 7), message(1, 5, 1, 0, 10, 0), message(2, 3, 1, 0, 10, 11)];
    let mut ctx = ExecutionContext::active_slot(Slot::new(3, 0), Some(addr(4)), no_changes(), final_state(messages, 1));
    ctx.push_new_message(message(3, 4, 1, 0, 10, 2));
    ctx.generate_event("e".to_string()).unwrap();
    let out = ctx.settle_slot();
    assert_eq!(out.slot, Slot::new(3, 0));
    assert_eq!(out.block_id, Some(addr(4)));
    assert_eq!(out.events.len(), 1);
    assert_eq!(out.state_changes.async_pool_changes.len(), 1);
    assert_eq!(ctx.opt_block_id, None);
    assert!(ctx.events.is_empty());
    let kept: Vec<u64> = ctx.speculative_async_pool.messages().iter().map(|m| m.emission_index).collect();
    assert_eq!(kept, vec![1]);
    let evicted: Vec<u64> = out.evicted_messages.iter().map(|m| m.emission_index).collect();
    assert_eq!(evicted, vec![0, 2, 3]);
    // the ledger changes carry forward: the refunds stay visible in the context
    assert_eq!(ctx.get_parallel_balance(&addr(2)), Some(Amount::from_raw(120)));
    let reimbursed = out.state_changes.ledger_changes.get(&addr(2)).is_some();
    assert!(reimbursed);
    let mut after = ExecutionContext::active_slot(Slot::new(3, 0), None, out.state_changes, final_state(Vec::new(), 1));
    after.stack.push(frame(1));
    assert_eq!(after.get_parallel_balance(&addr(2)), Some(Amount::from_raw(120)));
}

#[test]
fn generators_are_seeded_from_slot_mode_and_block() {
    let slot = Slot::new(4, 1);
    let mut ro_seed = slot.to_bytes_key().to_vec();
    ro_seed.push(0);
    let ro = ExecutionContext::readonly(slot, 10, Amount::zero(), vec![], no_changes(), final_state(Vec::new(), 10));
    assert_eq!(ro.unsafe_rng, Xoshiro256PlusPlus::from_seed(Digest::compute_from(&ro_seed).to_bytes()));
    let mut act_seed = slot.to_bytes_key().to_vec();
    act_seed.push(1);
    act_seed.extend_from_slice(&[7u8; 32]);
    let act = ExecutionContext::active_slot(slot, Some(addr(7)), no_changes(), final_state(Vec::new(), 10));
    assert_eq!(act.unsafe_rng, Xoshiro256PlusPlus::from_seed(Digest::compute_from(&act_seed).to_bytes()));
    assert_ne!(ro.unsafe_rng, act.unsafe_rng);
    let fresh = ExecutionContext::new(final_state(Vec::new(), 10), no_changes());
    assert_eq!(fresh.unsafe_rng, Xoshiro256PlusPlus::from_seed([0u8; 32]));
}
