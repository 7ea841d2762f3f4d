use mirror_pool::keeper::Keeper;
use solana_transaction::Transaction;

#[test]
fn keeper_batches_and_drains() {
    let mut k = Keeper::new();
    assert!(k.is_empty());
    k.enqueue(Transaction::default());
    k.enqueue(Transaction::default());
    assert_eq!(k.len(), 2);
    assert_eq!(k.drain().len(), 2);
    assert!(k.is_empty());
}

#[test]
fn drain_returns_transactions_in_queue_order() {
    let mut k = Keeper::default();
    let mut a = Transaction::default();
    a.signatures.push(Default::default());
    let b = Transaction::default();
    k.enqueue(a.clone());
    k.enqueue(b.clone());
    let batch = k.drain();
    assert_eq!(batch, vec![a, b]);
    assert_eq!(k.drain().len(), 0);
}
