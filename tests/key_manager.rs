use jottery::key_manager::KeyManager;

#[test]
fn test_key_manager_lock_unlock() {
    let mut manager = KeyManager::new();
    assert!(manager.is_locked());

    let key = [1u8; 32];
    manager.set_master_key(key);
    assert!(!manager.is_locked());

    let retrieved = manager.get_master_key().unwrap();
    assert_eq!(retrieved.key(), &key);

    manager.clear_master_key();
    assert!(manager.is_locked());
}

#[test]
fn test_auto_lock() {
    let mut manager = KeyManager::new_at(0);
    manager.set_auto_lock(0);

    let key = [1u8; 32];
    manager.set_master_key_at(key, 1_000);
    assert!(!manager.is_locked_at(1_000));

    // With auto-lock disabled, time passing does not lock.
    assert!(!manager.is_locked_at(1_100));

    // A 100 ms period, then 150 ms without activity.
    manager.auto_lock = Some(100);
    assert!(manager.is_locked_at(1_250));
}

#[test]
fn test_register_activity() {
    let mut manager = KeyManager::new_at(0);
    manager.auto_lock = Some(100);

    let key = [1u8; 32];
    manager.set_master_key_at(key, 0);

    manager.register_activity_at(50);
    assert!(!manager.is_locked_at(100));

    assert!(manager.is_locked_at(250));
}

#[test]
fn test_time_until_lock() {
    let mut manager = KeyManager::new();
    manager.set_auto_lock(1);

    let key = [1u8; 32];
    manager.set_master_key(key);

    let time_left = manager.time_until_lock().unwrap();
    assert!(time_left / 1000 <= 60);
    assert!(time_left / 1000 > 55);
}

#[test]
fn test_should_lock() {
    let mut manager = KeyManager::new_at(0);
    manager.auto_lock = Some(50);

    let key = [1u8; 32];
    manager.set_master_key_at(key, 0);

    assert!(!manager.should_lock_at(0));
    assert!(manager.should_lock_at(100));
}

#[test]
fn expired_key_is_dropped_on_read() {
    let mut manager = KeyManager::new_at(0);
    manager.set_auto_lock(1);
    manager.set_master_key_at([2u8; 32], 0);
    assert_eq!(manager.time_until_lock_at(20_000), Some(40_000));
    assert!(manager.get_master_key_at(60_000).is_some());
    assert!(manager.get_master_key_at(60_001).is_none());
    assert!(manager.master_key.is_none());
    assert_eq!(manager.time_until_lock_at(70_000), Some(0));
    assert!(!manager.should_lock_at(70_000));
}

#[test]
fn auto_lock_minutes_round_trip() {
    let mut manager = KeyManager::new_at(0);
    assert_eq!(manager.get_auto_lock_minutes(), None);
    manager.set_auto_lock(15);
    assert_eq!(manager.get_auto_lock_minutes(), Some(15));
    assert_eq!(manager.auto_lock, Some(900_000));
    assert_eq!(manager.time_since_activity_at(1_234), 1_234);
    assert_eq!(manager.time_since_activity_at(-5), 0);
}
