//! What the store's operations mean, stated over the views of the data.

use vstd::prelude::*;
use crate::models::{names_unique, AircraftData, AircraftView, Entry, Settings, StateView};

verus! {

/// Length of the visibility window in nanoseconds: ten minutes.
pub const VISIBILITY_WINDOW: u64 = 600_000_000_000;

/// An observation last reported at `last_seen` is visible at `now` exactly
/// when it is strictly more recent than `now` minus the visibility window.
/// Both are readings of one monotonic clock, in nanoseconds.
pub open spec fn visible_at(last_seen: u64, now: u64) -> bool {
    last_seen > now - VISIBILITY_WINDOW
}

/// The views of a list of aircraft.
pub open spec fn aircraft_views(list: Seq<AircraftData>) -> Seq<AircraftView> {
    list.map_values(|a: AircraftData| a@)
}

/// The aircraft of the entries that are visible at `now`, in storage order.
pub open spec fn visible_aircraft(entries: Seq<Entry>, now: u64) -> Seq<AircraftView> {
    entries.filter(|e: Entry| visible_at(e.last_seen, now)).map_values(|e: Entry| e.aircraft)
}

/// Nothing is visible in an empty store.
pub proof fn lemma_visible_aircraft_empty(now: u64)
    ensures
        visible_aircraft(Seq::<Entry>::empty(), now) == Seq::<AircraftView>::empty(),
{
    let fresh = |e: Entry| visible_at(e.last_seen, now);
    Seq::<Entry>::empty().lemma_filter_len(fresh);
}

/// One more entry at the end adds its aircraft at the end of what is
/// visible, if the entry is visible, and changes nothing otherwise.
pub proof fn lemma_visible_aircraft_push(entries: Seq<Entry>, entry: Entry, now: u64)
    ensures
        visible_aircraft(entries.push(entry), now) == if visible_at(entry.last_seen, now) {
            visible_aircraft(entries, now).push(entry.aircraft)
        } else {
            visible_aircraft(entries, now)
        },
{
    let fresh = |e: Entry| visible_at(e.last_seen, now);
    let aircraft_of = |e: Entry| e.aircraft;
    entries.lemma_filter_push(entry, fresh);
    if visible_at(entry.last_seen, now) {
    }
}

/// `i` is the first index at which `entries` holds an aircraft called `name`.
pub open spec fn first_with_name(entries: Seq<Entry>, name: Seq<char>, i: int) -> bool {
    &&& 0 <= i < entries.len()
    &&& entries[i].aircraft.name == name
    &&& forall|j: int| 0 <= j < i ==> entries[j].aircraft.name != name
}

/// Some entry holds an aircraft called `name`.
pub open spec fn has_name(entries: Seq<Entry>, name: Seq<char>) -> bool {
    exists|i: int| 0 <= i < entries.len() && entries[i].aircraft.name == name
}

/// The first index at which `entries` holds an aircraft called `name`, if any.
pub open spec fn position_of(entries: Seq<Entry>, name: Seq<char>) -> Option<int> {
    if has_name(entries, name) {
        Some(choose|i: int| first_with_name(entries, name, i))
    } else {
        None
    }
}

/// The entries after `aircraft` was reported at `now`: the entry of that name
/// is replaced where it stands, or, if there is none, a new entry is appended.
pub open spec fn upsert(entries: Seq<Entry>, aircraft: AircraftView, now: u64) -> Seq<Entry> {
    let entry = Entry { aircraft, last_seen: now };
    match position_of(entries, aircraft.name) {
        Some(i) => entries.update(i, entry),
        None => entries.push(entry),
    }
}

/// `entries` holds `entry`, and holds nothing else under the same name.
pub open spec fn holds_once(entries: Seq<Entry>, entry: Entry) -> bool {
    exists|i: int|
        {
            &&& 0 <= i < entries.len()
            &&& #[trigger] entries[i] == entry
            &&& forall|j: int|
                0 <= j < entries.len() && #[trigger] entries[j].aircraft.name
                    == entry.aircraft.name ==> j == i
        }
}

impl StateView {
    /// The state after the settings were replaced by `settings`.
    pub open spec fn with_settings(self, settings: Settings) -> StateView {
        StateView { settings, aircraft: self.aircraft }
    }

    /// The state after `aircraft` was reported at `now`.
    pub open spec fn with_report(self, aircraft: AircraftView, now: u64) -> StateView {
        StateView { settings: self.settings, aircraft: upsert(self.aircraft, aircraft, now) }
    }
}

/// Whenever some entry is called `name`, a first such entry exists, and
/// `position_of` names it.
pub proof fn lemma_position_of(entries: Seq<Entry>, name: Seq<char>)
    ensures
        match position_of(entries, name) {
            Some(i) => first_with_name(entries, name, i),
            None => forall|j: int| 0 <= j < entries.len() ==> entries[j].aircraft.name != name,
        },
{
    if has_name(entries, name) {
        let k = choose|i: int| 0 <= i < entries.len() && entries[i].aircraft.name == name;
        lemma_first_exists(entries, name, k);
    }
}

/// Below any index that holds `name` there is a first one.
proof fn lemma_first_exists(entries: Seq<Entry>, name: Seq<char>, k: int)
    requires
        0 <= k < entries.len(),
        entries[k].aircraft.name == name,
    ensures
        exists|i: int| first_with_name(entries, name, i),
    decreases k,
{
    if exists|j: int| 0 <= j < k && entries[j].aircraft.name == name {
        let j = choose|j: int| 0 <= j < k && entries[j].aircraft.name == name;
        lemma_first_exists(entries, name, j);
    } else {
        assert(first_with_name(entries, name, k));
    }
}

/// The first index that holds `name` is the only index that `position_of`
/// can return.
pub proof fn lemma_position_is_first(entries: Seq<Entry>, name: Seq<char>, i: int)
    requires
        first_with_name(entries, name, i),
    ensures
        position_of(entries, name) == Some(i),
{
    lemma_position_of(entries, name);
}

/// An upsert keeps the names of the entries distinct.
pub proof fn lemma_upsert_keeps_names_unique(entries: Seq<Entry>, aircraft: AircraftView, now: u64)
    requires
        names_unique(entries),
    ensures
        names_unique(upsert(entries, aircraft, now)),
{
    lemma_position_of(entries, aircraft.name);
}

} // verus!
