//! In-memory holder of the master key, with auto-lock after inactivity.
//! Times are milliseconds since the Unix epoch; durations are milliseconds.
use vstd::prelude::*;

use crate::system::now_millis;

verus! {

/// Milliseconds in a minute.
pub const MILLIS_PER_MINUTE: u64 = 60_000;

/// Milliseconds from `from` to `to`, or 0 if `to` is not later.
pub open spec fn elapsed(from: i64, to: i64) -> nat {
    if to > from { (to - from) as nat } else { 0 }
}

fn elapsed_millis(from: i64, to: i64) -> (r: u64)
    ensures
        r == elapsed(from, to),
{
    if to > from {
        (to as i128 - from as i128) as u64
    } else {
        0
    }
}

/// The master key, held in memory only.
#[derive(Debug)]
pub struct MasterKey {
    pub key: [u8; 32],
    pub derived_at: i64,
}

impl MasterKey {
    /// A master key derived at `now`.
    pub fn new_at(key: [u8; 32], now: i64) -> (r: MasterKey)
        ensures
            r.key == key,
            r.derived_at == now,
    {
        MasterKey { key, derived_at: now }
    }

    /// A master key derived now.
    pub fn new(key: [u8; 32]) -> (r: MasterKey)
        ensures
            r.key == key,
    {
        MasterKey::new_at(key, now_millis())
    }

    /// The key bytes.
    pub fn key(&self) -> (r: &[u8; 32])
        ensures
            *r == self.key,
    {
        &self.key
    }

    /// When the key was derived.
    pub fn derived_at(&self) -> (r: i64)
        ensures
            r == self.derived_at,
    {
        self.derived_at
    }

    /// Milliseconds since the key was derived, as of `now`.
    pub fn age_at(&self, now: i64) -> (r: u64)
        ensures
            r == elapsed(self.derived_at, now),
    {
        elapsed_millis(self.derived_at, now)
    }

    /// Milliseconds since the key was derived.
    pub fn age(&self) -> (r: u64) {
        self.age_at(now_millis())
    }

    /// A copy of this key.
    pub fn duplicate(&self) -> (r: MasterKey)
        ensures
            r.key == self.key,
            r.derived_at == self.derived_at,
    {
        MasterKey { key: self.key, derived_at: self.derived_at }
    }
}

/// Holds the master key while unlocked; a key left unused for longer than
/// the auto-lock period is dropped on the next read.
#[derive(Debug)]
pub struct KeyManager {
    pub master_key: Option<MasterKey>,
    pub last_activity: i64,
    /// Auto-lock period in milliseconds; `None` disables auto-lock.
    pub auto_lock: Option<u64>,
}

/// Whether the auto-lock period has run out at `now`.
pub open spec fn lock_expired(m: KeyManager, now: i64) -> bool {
    match m.auto_lock {
        Some(d) => elapsed(m.last_activity, now) > d,
        None => false,
    }
}

impl KeyManager {
    /// A locked manager without auto-lock, last active at `now`.
    pub fn new_at(now: i64) -> (r: KeyManager)
        ensures
            r.master_key is None,
            r.last_activity == now,
            r.auto_lock is None,
    {
        KeyManager { master_key: None, last_activity: now, auto_lock: None }
    }

    /// A locked manager without auto-lock.
    pub fn new() -> (r: KeyManager)
        ensures
            r.master_key is None,
            r.auto_lock is None,
    {
        KeyManager::new_at(now_millis())
    }

    /// The key as of `now`: none when locked, and none (dropping the key)
    /// when the auto-lock period has run out.
    pub fn get_master_key_at(&mut self, now: i64) -> (r: Option<MasterKey>)
        ensures
            final(self).last_activity == old(self).last_activity,
            final(self).auto_lock == old(self).auto_lock,
            lock_expired(*old(self), now) ==> r is None && final(self).master_key is None,
            !lock_expired(*old(self), now) ==> final(self).master_key == old(self).master_key && match (r, old(self).master_key) {
                (Some(k), Some(o)) => k.key == o.key && k.derived_at == o.derived_at,
                (None, None) => true,
                _ => false,
            },
    {
        match self.auto_lock {
            Some(d) => {
                if elapsed_millis(self.last_activity, now) > d {
                    self.clear_master_key();
                    return None;
                }
            },
            None => {},
        }
        match &self.master_key {
            Some(k) => Some(k.duplicate()),
            None => None,
        }
    }

    /// The key as of the current time.
    pub fn get_master_key(&mut self) -> (r: Option<MasterKey>)
        ensures
            final(self).last_activity == old(self).last_activity,
            final(self).auto_lock == old(self).auto_lock,
            r is Some ==> old(self).master_key is Some && r->0.key == old(self).master_key->0.key,
            old(self).auto_lock is None ==> final(self).master_key == old(self).master_key
                && (r is Some <==> old(self).master_key is Some),
    {
        self.get_master_key_at(now_millis())
    }

    /// Holds `key` (on unlock) and counts `now` as activity.
    pub fn set_master_key_at(&mut self, key: [u8; 32], now: i64)
        ensures
            final(self).master_key is Some,
            final(self).master_key->0.key == key,
            final(self).master_key->0.derived_at == now,
            final(self).last_activity == now,
            final(self).auto_lock == old(self).auto_lock,
    {
        self.master_key = Some(MasterKey::new_at(key, now));
        self.last_activity = now;
    }

    /// Holds `key` (on unlock) as of the current time.
    pub fn set_master_key(&mut self, key: [u8; 32])
        ensures
            final(self).master_key is Some,
            final(self).master_key->0.key == key,
            final(self).master_key->0.derived_at == final(self).last_activity,
            final(self).auto_lock == old(self).auto_lock,
    {
        self.set_master_key_at(key, now_millis());
    }

    /// Overwrites the key with zeros and drops it (on lock).
    pub fn clear_master_key(&mut self)
        ensures
            final(self).master_key is None,
            final(self).last_activity == old(self).last_activity,
            final(self).auto_lock == old(self).auto_lock,
    {
        match &mut self.master_key {
            Some(k) => {
                k.key = [0u8; 32];
            },
            None => {},
        }
        self.master_key = None;
    }

    /// Whether no usable key is held at `now`.
    pub fn is_locked_at(&mut self, now: i64) -> (r: bool)
        ensures
            r == (old(self).master_key is None || lock_expired(*old(self), now)),
            final(self).last_activity == old(self).last_activity,
            final(self).auto_lock == old(self).auto_lock,
            r ==> final(self).master_key is None,
            !r ==> final(self).master_key == old(self).master_key,
    {
        self.get_master_key_at(now).is_none()
    }

    /// Whether no usable key is held now.
    pub fn is_locked(&mut self) -> (r: bool)
        ensures
            old(self).master_key is None ==> r,
            old(self).auto_lock is None ==> r == old(self).master_key is None,
            r ==> final(self).master_key is None,
            !r ==> final(self).master_key == old(self).master_key,
            final(self).auto_lock == old(self).auto_lock,
            final(self).last_activity == old(self).last_activity,
    {
        self.is_locked_at(now_millis())
    }

    /// Counts `now` as user activity, restarting the auto-lock period.
    pub fn register_activity_at(&mut self, now: i64)
        ensures
            *final(self) == (KeyManager { last_activity: now, ..*old(self) }),
    {
        self.last_activity = now;
    }

    /// Counts the current time as user activity.
    pub fn register_activity(&mut self)
        ensures
            *final(self) == (KeyManager { last_activity: final(self).last_activity, ..*old(self) }),
    {
        self.register_activity_at(now_millis());
    }

    /// Sets the auto-lock period in minutes; 0 disables auto-lock.
    pub fn set_auto_lock(&mut self, timeout_minutes: u64)
        requires
            timeout_minutes <= u64::MAX / MILLIS_PER_MINUTE,
        ensures
            final(self).master_key == old(self).master_key,
            final(self).last_activity == old(self).last_activity,
            final(self).auto_lock == if timeout_minutes == 0 {
                None
            } else {
                Some((timeout_minutes * MILLIS_PER_MINUTE) as u64)
            },
    {
        if timeout_minutes == 0 {
            self.auto_lock = None;
        } else {
            self.auto_lock = Some(timeout_minutes * MILLIS_PER_MINUTE);
        }
    }

    /// The auto-lock period in whole minutes, if enabled.
    pub fn get_auto_lock_minutes(&self) -> (r: Option<u64>)
        ensures
            r == match self.auto_lock {
                Some(d) => Some((d / MILLIS_PER_MINUTE) as u64),
                None => None,
            },
    {
        match self.auto_lock {
            Some(d) => Some(d / MILLIS_PER_MINUTE),
            None => None,
        }
    }

    /// Milliseconds since the last activity, as of `now`.
    pub fn time_since_activity_at(&self, now: i64) -> (r: u64)
        ensures
            r == elapsed(self.last_activity, now),
    {
        elapsed_millis(self.last_activity, now)
    }

    /// Milliseconds since the last activity.
    pub fn time_since_activity(&self) -> (r: u64) {
        self.time_since_activity_at(now_millis())
    }

    /// Milliseconds left before auto-lock as of `now` (0 once run out), or
    /// `None` when auto-lock is off.
    pub fn time_until_lock_at(&self, now: i64) -> (r: Option<u64>)
        ensures
            r == match self.auto_lock {
                Some(d) => Some(
                    if elapsed(self.last_activity, now) < d {
                        (d - elapsed(self.last_activity, now)) as u64
                    } else {
                        0u64
                    },
                ),
                None => None,
            },
    {
        match self.auto_lock {
            Some(d) => {
                let e = elapsed_millis(self.last_activity, now);
                if e < d {
                    Some(d - e)
                } else {
                    Some(0)
                }
            },
            None => None,
        }
    }

    /// Milliseconds left before auto-lock, or `None` when it is off.
    pub fn time_until_lock(&self) -> (r: Option<u64>)
        ensures
            r is Some <==> self.auto_lock is Some,
            r is Some ==> r->0 <= self.auto_lock->0,
    {
        self.time_until_lock_at(now_millis())
    }

    /// Whether a held key should be dropped by auto-lock at `now`.
    pub fn should_lock_at(&self, now: i64) -> (r: bool)
        ensures
            r == (lock_expired(*self, now) && self.master_key is Some),
    {
        match self.auto_lock {
            Some(d) => elapsed_millis(self.last_activity, now) > d && self.master_key.is_some(),
            None => false,
        }
    }

    /// Whether a held key should be dropped by auto-lock now.
    pub fn should_lock(&self) -> (r: bool)
        ensures
            r ==> self.master_key is Some && self.auto_lock is Some,
    {
        self.should_lock_at(now_millis())
    }
}

} // verus!
