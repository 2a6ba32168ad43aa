//! The four operations of the store.
//!
//! Each one works on a [`State`] that the caller holds exclusively for the
//! length of the call, and takes the clock reading it needs as an argument.

use vstd::prelude::*;
use crate::models::{entries_view, names_unique, AircraftData, Entry, Settings, State};
use crate::semantics::{
    aircraft_views, holds_once, lemma_position_is_first, lemma_position_of,
    lemma_visible_aircraft_empty, lemma_visible_aircraft_push, position_of, visible_aircraft,
    visible_at, VISIBILITY_WINDOW,
};
use crate::theorems::theorem_report_stored_once;

verus! {

/// Whether an observation last reported at `last_seen` is visible at `now`.
pub fn is_visible(last_seen: u64, now: u64) -> (visible: bool)
    ensures
        visible == visible_at(last_seen, now),
{
    last_seen > now || now - last_seen < VISIBILITY_WINDOW
}

/// The current settings.
pub fn get_settings(state: &State) -> (settings: Settings)
    ensures
        settings == state@.settings,
{
    state.settings
}

/// Replaces the settings as a whole and returns the stored value. The
/// aircraft are left as they are.
pub fn set_settings(settings: Settings, state: &mut State) -> (stored: Settings)
    ensures
        final(state)@ == old(state)@.with_settings(settings),
        stored == settings,
{
    proof {
        use_type_invariant(&*state);
    }
    state.settings = settings;
    state.settings
}

/// Copies of the aircraft that are visible at `now`, in storage order.
pub fn get_aircraft(state: &State, now: u64) -> (visible: Vec<AircraftData>)
    ensures
        aircraft_views(visible@) == visible_aircraft(state@.aircraft, now),
{
    let ghost entries = state@.aircraft;
    let mut visible: Vec<AircraftData> = Vec::new();
    let mut i: usize = 0;
    proof {
        lemma_visible_aircraft_empty(now);
    }
    while i < state.aircraft.len()
        invariant
            i <= state.aircraft.len(),
            entries == state@.aircraft,
            entries.len() == state.aircraft.len(),
            aircraft_views(visible@) == visible_aircraft(entries.take(i as int), now),
        decreases state.aircraft.len() - i,
    {
        if is_visible(state.aircraft[i].1, now) {
            visible.push(state.aircraft[i].0.clone());
        }
        proof {
            lemma_visible_aircraft_push(entries.take(i as int), entries[i as int], now);
            assert(entries.take(i + 1) =~= entries.take(i as int).push(entries[i as int]));
        }
        i += 1;
    }
    assert(entries.take(i as int) =~= entries);
    visible
}

/// The index of the first stored observation called `name`, if there is one.
fn find_by_name(aircraft: &Vec<(AircraftData, u64)>, name: &String) -> (found: Option<usize>)
    ensures
        match found {
            Some(i) => i < aircraft.len() && position_of(entries_view(aircraft@), name@) == Some(
                i as int,
            ),
            None => position_of(entries_view(aircraft@), name@) is None,
        },
{
    let ghost entries = entries_view(aircraft@);
    let mut i: usize = 0;
    while i < aircraft.len()
        invariant
            i <= aircraft.len(),
            entries == entries_view(aircraft@),
            forall|j: int| 0 <= j < i ==> entries[j].aircraft.name != name@,
        decreases aircraft.len() - i,
    {
        if aircraft[i].0.name == *name {
            proof {
                lemma_position_is_first(entries, name@, i as int);
            }
            return Some(i);
        }
        i += 1;
    }
    proof {
        lemma_position_of(entries, name@);
    }
    None
}

/// Records `updated_ac` as observed at `now` and returns the current
/// settings. The observation of that name is replaced where it stands, with
/// its clock reading; if there is none, the new one is appended. The
/// settings are left as they are. Afterwards the store holds exactly one
/// observation of that name: the one just recorded.
pub fn set_aircraft(updated_ac: AircraftData, now: u64, state: &mut State) -> (settings: Settings)
    ensures
        final(state)@ == old(state)@.with_report(updated_ac@, now),
        settings == old(state)@.settings,
        names_unique(final(state)@.aircraft),
        holds_once(final(state)@.aircraft, Entry { aircraft: updated_ac@, last_seen: now }),
{
    proof {
        use_type_invariant(&*state);
        theorem_report_stored_once(state@.aircraft, updated_ac@, now);
    }
    let ghost entry = Entry { aircraft: updated_ac@, last_seen: now };
    // The list is taken out of the state while it is changed, so that the
    // state is well-formed at every point.
    let mut aircraft: Vec<(AircraftData, u64)> = Vec::new();
    std::mem::swap(&mut aircraft, &mut state.aircraft);
    let ghost entries = entries_view(aircraft@);
    match find_by_name(&aircraft, &updated_ac.name) {
        Some(i) => {
            aircraft[i] = (updated_ac, now);
            assert(entries_view(aircraft@) =~= entries.update(i as int, entry));
        },
        None => {
            aircraft.push((updated_ac, now));
            assert(entries_view(aircraft@) =~= entries.push(entry));
        },
    }
    state.aircraft = aircraft;
    state.settings
}

} // verus!
