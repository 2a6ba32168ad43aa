//! The data held by the store, and the mathematical view of each type.

use vstd::prelude::*;

verus! {

/// Display settings. There is exactly one record; the last write wins.
#[derive(Debug, Clone, Copy, PartialEq, Eq, Structural)]
pub struct Settings {
    pub show_tags: bool,
}

/// The last known position of one aircraft.
///
/// The three coordinates are carried as the bit patterns of 64-bit IEEE 754
/// numbers (`f64::to_bits`). The store never interprets them: it only keeps
/// and returns them, so every value, including NaN payloads, survives
/// unchanged.
#[derive(Debug, PartialEq, Eq)]
pub struct AircraftData {
    pub name: String,
    pub latitude: u64,
    pub longitude: u64,
    pub altitude: u64,
}

/// The view of an [`AircraftData`]: what contracts say of one.
pub ghost struct AircraftView {
    pub name: Seq<char>,
    pub latitude: u64,
    pub longitude: u64,
    pub altitude: u64,
}

impl View for AircraftData {
    type V = AircraftView;

    open spec fn view(&self) -> AircraftView {
        AircraftView {
            name: self.name@,
            latitude: self.latitude,
            longitude: self.longitude,
            altitude: self.altitude,
        }
    }
}

impl Clone for AircraftData {
    fn clone(&self) -> (copy: Self)
        ensures
            copy@ == self@,
    {
        AircraftData {
            name: self.name.clone(),
            latitude: self.latitude,
            longitude: self.longitude,
            altitude: self.altitude,
        }
    }
}

/// The view of one stored observation: the aircraft and the clock reading,
/// in nanoseconds, at which it was last reported.
pub ghost struct Entry {
    pub aircraft: AircraftView,
    pub last_seen: u64,
}

/// The view of a [`State`]: the settings record and the stored observations
/// in storage order.
pub ghost struct StateView {
    pub settings: Settings,
    pub aircraft: Seq<Entry>,
}

/// No two entries carry the same aircraft name.
pub open spec fn names_unique(entries: Seq<Entry>) -> bool {
    forall|i: int, j: int|
        0 <= i < j < entries.len() ==> entries[i].aircraft.name != entries[j].aircraft.name
}

/// The view of a stored list of observations.
pub open spec fn entries_view(stored: Seq<(AircraftData, u64)>) -> Seq<Entry> {
    stored.map_values(|e: (AircraftData, u64)| Entry { aircraft: e.0@, last_seen: e.1 })
}

/// The whole state of the store.
///
/// Invariant: no aircraft name occurs twice among the stored observations.
pub struct State {
    pub(crate) settings: Settings,
    pub(crate) aircraft: Vec<(AircraftData, u64)>,
}

impl View for State {
    type V = StateView;

    open(crate) spec fn view(&self) -> StateView {
        StateView { settings: self.settings, aircraft: entries_view(self.aircraft@) }
    }
}

impl State {
    #[verifier::type_invariant]
    pub open(crate) spec fn well_formed(&self) -> bool {
        names_unique(self@.aircraft)
    }

    /// Every stored observation with the clock reading of its last report,
    /// in storage order. Observations that are no longer visible are
    /// included: the store never drops one.
    pub fn aircraft(&self) -> (stored: &Vec<(AircraftData, u64)>)
        ensures
            entries_view(stored@) == self@.aircraft,
            names_unique(self@.aircraft),
    {
        proof {
            use_type_invariant(self);
        }
        &self.aircraft
    }
}

/// A fresh store: tags are shown and no aircraft has been observed.
pub fn blank_db() -> (state: State)
    ensures
        state@.settings == (Settings { show_tags: true }),
        state@.aircraft == Seq::<Entry>::empty(),
{
    State { settings: Settings { show_tags: true }, aircraft: Vec::new() }
}

} // verus!
