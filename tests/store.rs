use fadroma::revertable::Revertable;
use fadroma::bank::Bank;
use fadroma::types::{coin, StdError};

fn get(s: &Revertable<Vec<u8>, Vec<u8>>, k: &[u8]) -> Option<Vec<u8>> {
    s.get(&k.to_vec()).cloned()
}

#[test]
fn nested_checkpoints_revert_and_commit() {
    let mut s: Revertable<Vec<u8>, Vec<u8>> = Revertable::new();
    s.set(b"a".to_vec(), b"1".to_vec());
    s.checkpoint();
    s.set(b"a".to_vec(), b"2".to_vec());
    s.set(b"b".to_vec(), b"x".to_vec());
    s.checkpoint();
    s.remove(b"a".to_vec());
    s.set(b"c".to_vec(), b"y".to_vec());
    assert_eq!(get(&s, b"a"), None);
    s.revert();
    assert_eq!(get(&s, b"a"), Some(b"2".to_vec()));
    assert_eq!(get(&s, b"c"), None);
    s.checkpoint();
    s.set(b"a".to_vec(), b"3".to_vec());
    s.commit();
    assert_eq!(get(&s, b"a"), Some(b"3".to_vec()));
    s.revert();
    assert_eq!(get(&s, b"a"), Some(b"1".to_vec()));
    assert_eq!(get(&s, b"b"), None);
    assert_eq!(s.keys().len(), 1);
}

#[test]
fn bank_transfer_is_all_or_nothing() {
    let mut bank = Bank::new();
    bank.add_funds("x", &vec![coin(50, "a"), coin(5, "b")]).unwrap();
    let err = bank.transfer("x", "y", &vec![coin(10, "a"), coin(6, "b")]).unwrap_err();
    assert!(matches!(err, StdError::InsufficientFunds { .. }));
    assert_eq!(bank.balance("x", "a"), 50);
    assert_eq!(bank.balance("y", "a"), 0);
    let res = bank.transfer("x", "y", &vec![coin(10, "a"), coin(5, "b")]).unwrap();
    assert_eq!(res.sender, "x");
    assert_eq!(res.receiver, "y");
    assert_eq!(bank.balance("x", "a"), 40);
    assert_eq!(bank.balance("y", "b"), 5);
}

#[test]
fn zero_transfer_succeeds_and_changes_nothing() {
    let mut bank = Bank::new();
    bank.transfer("nobody", "y", &vec![coin(0, "a")]).unwrap();
    assert!(bank.balances_of("y").is_none());
    assert!(bank.balances_of("nobody").is_none());
}
