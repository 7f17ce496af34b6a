use vstd::prelude::*;
use crate::protocol::Key;

verus! {

/// The current value of each tracked key.
pub struct ValueStore {
    tracker: u8,
    bpm: u8,
    battery: u8,
}

impl ValueStore {
    pub closed spec fn value(&self, k: Key) -> u8 {
        match k {
            Key::Tracker => self.tracker,
            Key::Bpm => self.bpm,
            Key::Battery => self.battery,
        }
    }

    /// A store with every key at 0.
    pub fn new() -> (r: ValueStore)
        ensures
            forall|k: Key| r.value(k) == 0,
    {
        ValueStore { tracker: 0, bpm: 0, battery: 0 }
    }

    pub fn get(&self, k: Key) -> (r: u8)
        ensures
            r == self.value(k),
    {
        match k {
            Key::Tracker => self.tracker,
            Key::Bpm => self.bpm,
            Key::Battery => self.battery,
        }
    }

    /// Stores `val` under `k` and returns the value it had before.
    pub fn set(&mut self, k: Key, val: u8) -> (r: u8)
        ensures
            r == old(self).value(k),
            final(self).value(k) == val,
            forall|j: Key| j != k ==> final(self).value(j) == old(self).value(j),
    {
        match k {
            Key::Tracker => {
                let prev = self.tracker;
                self.tracker = val;
                prev
            },
            Key::Bpm => {
                let prev = self.bpm;
                self.bpm = val;
                prev
            },
            Key::Battery => {
                let prev = self.battery;
                self.battery = val;
                prev
            },
        }
    }
}

} // verus!
