//! What holds of the store over whole runs of operations.
//!
//! A run of reports is a sequence of entries: each one is an aircraft
//! together with the clock reading at which it was reported.

use vstd::prelude::*;
use crate::models::{names_unique, AircraftView, Entry, Settings, StateView};
use crate::semantics::{
    has_name, holds_once, lemma_position_of, lemma_upsert_keeps_names_unique,
    lemma_visible_aircraft_empty, lemma_visible_aircraft_push, position_of, upsert,
    visible_aircraft, visible_at, VISIBILITY_WINDOW,
};

verus! {

/// The entries after every report of `reports` was recorded, in order.
pub open spec fn upsert_all(entries: Seq<Entry>, reports: Seq<Entry>) -> Seq<Entry>
    decreases reports.len(),
{
    if reports.len() == 0 {
        entries
    } else {
        upsert(
            upsert_all(entries, reports.drop_last()),
            reports.last().aircraft,
            reports.last().last_seen,
        )
    }
}

/// Reading the settings right after they were set gives back exactly what
/// was set, and reports that come in between do not change them.
pub proof fn theorem_settings_read_back(
    state: StateView,
    settings: Settings,
    aircraft: AircraftView,
    now: u64,
)
    ensures
        state.with_settings(settings).settings == settings,
        state.with_settings(settings).with_report(aircraft, now).settings == settings,
        state.with_settings(settings).aircraft == state.aircraft,
{
}

/// After one report the store holds exactly one entry under the reported
/// name: the reported aircraft with the clock reading of the report. It
/// stands where the entry of that name stood, or at the end if there was
/// none, and every other entry is where and what it was.
pub proof fn theorem_report_stored_once(entries: Seq<Entry>, aircraft: AircraftView, now: u64)
    requires
        names_unique(entries),
    ensures
        names_unique(upsert(entries, aircraft, now)),
        holds_once(upsert(entries, aircraft, now), Entry { aircraft, last_seen: now }),
        upsert(entries, aircraft, now).len() == if has_name(entries, aircraft.name) {
            entries.len()
        } else {
            entries.len() + 1
        },
        forall|i: int|
            0 <= i < entries.len() && entries[i].aircraft.name != aircraft.name ==> upsert(
                entries,
                aircraft,
                now,
            )[i] == #[trigger] entries[i],
{
    lemma_position_of(entries, aircraft.name);
    lemma_upsert_keeps_names_unique(entries, aircraft, now);
    let at = match position_of(entries, aircraft.name) {
        Some(i) => i,
        None => entries.len() as int,
    };
    assert(upsert(entries, aircraft, now)[at] == (Entry { aircraft, last_seen: now }));
}

/// A report under another name does not disturb an entry that is held once.
proof fn lemma_other_report_keeps_entry(
    entries: Seq<Entry>,
    aircraft: AircraftView,
    now: u64,
    kept: Entry,
)
    requires
        holds_once(entries, kept),
        kept.aircraft.name != aircraft.name,
    ensures
        holds_once(upsert(entries, aircraft, now), kept),
{
    lemma_position_of(entries, aircraft.name);
    let i = choose|i: int|
        {
            &&& 0 <= i < entries.len()
            &&& #[trigger] entries[i] == kept
            &&& forall|j: int|
                0 <= j < entries.len() && #[trigger] entries[j].aircraft.name
                    == kept.aircraft.name ==> j == i
        };
    assert(upsert(entries, aircraft, now)[i] == kept);
}

/// A run of reports keeps the names of the entries distinct.
pub proof fn lemma_upsert_all_keeps_names_unique(entries: Seq<Entry>, reports: Seq<Entry>)
    requires
        names_unique(entries),
    ensures
        names_unique(upsert_all(entries, reports)),
    decreases reports.len(),
{
    if reports.len() > 0 {
        lemma_upsert_all_keeps_names_unique(entries, reports.drop_last());
        lemma_upsert_keeps_names_unique(
            upsert_all(entries, reports.drop_last()),
            reports.last().aircraft,
            reports.last().last_seen,
        );
    }
}

/// The last report under a name wins: after a run of reports, the store
/// holds exactly one entry under the name of any report that no later report
/// of the run repeats, and that entry is the report itself.
pub proof fn theorem_latest_report_wins(entries: Seq<Entry>, reports: Seq<Entry>, k: int)
    requires
        names_unique(entries),
        0 <= k < reports.len(),
        forall|l: int|
            k < l < reports.len() ==> reports[l].aircraft.name != reports[k].aircraft.name,
    ensures
        holds_once(upsert_all(entries, reports), reports[k]),
    decreases reports.len(),
{
    let earlier = reports.drop_last();
    let last = reports.last();
    lemma_upsert_all_keeps_names_unique(entries, earlier);
    if k == reports.len() - 1 {
        theorem_report_stored_once(upsert_all(entries, earlier), last.aircraft, last.last_seen);
    } else {
        theorem_latest_report_wins(entries, earlier, k);
        lemma_other_report_keeps_entry(
            upsert_all(entries, earlier),
            last.aircraft,
            last.last_seen,
            reports[k],
        );
    }
}

/// After any run of reports that all carry one name, the store holds exactly
/// one entry under that name: the aircraft and the clock reading of the last
/// report.
pub proof fn theorem_same_name_reports_leave_one_entry(
    entries: Seq<Entry>,
    reports: Seq<Entry>,
    name: Seq<char>,
)
    requires
        names_unique(entries),
        reports.len() > 0,
        forall|k: int| 0 <= k < reports.len() ==> reports[k].aircraft.name == name,
    ensures
        holds_once(upsert_all(entries, reports), reports.last()),
        reports.last().aircraft.name == name,
{
    theorem_latest_report_wins(entries, reports, reports.len() - 1);
}

/// A name is in the store after a run of reports exactly when it was there
/// before or one of the reports carries it. So a name that was never
/// reported to a blank store has no entry.
pub proof fn theorem_names_come_from_reports(
    entries: Seq<Entry>,
    reports: Seq<Entry>,
    name: Seq<char>,
)
    ensures
        has_name(upsert_all(entries, reports), name) <==> has_name(entries, name) || has_name(
            reports,
            name,
        ),
        has_name(upsert_all(Seq::<Entry>::empty(), reports), name) <==> has_name(reports, name),
{
    lemma_names_after_reports(entries, reports, name);
    lemma_names_after_reports(Seq::<Entry>::empty(), reports, name);
}

/// The first statement of `theorem_names_come_from_reports`.
proof fn lemma_names_after_reports(entries: Seq<Entry>, reports: Seq<Entry>, name: Seq<char>)
    ensures
        has_name(upsert_all(entries, reports), name) <==> has_name(entries, name) || has_name(
            reports,
            name,
        ),
    decreases reports.len(),
{
    if reports.len() > 0 {
        let earlier = reports.drop_last();
        let last = reports.last();
        let before = upsert_all(entries, earlier);
        let after = upsert_all(entries, reports);
        lemma_names_after_reports(entries, earlier, name);
        lemma_position_of(before, last.aircraft.name);
        let at = match position_of(before, last.aircraft.name) {
            Some(i) => i,
            None => before.len() as int,
        };
        assert(after[at].aircraft.name == last.aircraft.name);
        if has_name(reports, name) {
            let l = choose|l: int| 0 <= l < reports.len() && reports[l].aircraft.name == name;
            if l < reports.len() - 1 {
                assert(earlier[l].aircraft.name == name);
            }
        }
        if has_name(before, name) {
            let i = choose|i: int| 0 <= i < before.len() && before[i].aircraft.name == name;
            if i != at {
                assert(after[i].aircraft.name == name);
            }
        }
    }
}

/// Reports under names that are new and distinct are all stored, in the order
/// of their arrival: none replaces another and none is lost.
pub proof fn theorem_distinct_reports_all_stored(entries: Seq<Entry>, reports: Seq<Entry>)
    requires
        names_unique(entries + reports),
    ensures
        upsert_all(entries, reports) == entries + reports,
        upsert_all(entries, reports).len() == entries.len() + reports.len(),
    decreases reports.len(),
{
    if reports.len() > 0 {
        let earlier = reports.drop_last();
        let last = reports.last();
        let all = entries + reports;
        assert forall|i: int, j: int| 0 <= i < j < (entries + earlier).len() implies (entries
            + earlier)[i].aircraft.name != (entries + earlier)[j].aircraft.name by {
            assert((entries + earlier)[i] == all[i]);
            assert((entries + earlier)[j] == all[j]);
        }
        theorem_distinct_reports_all_stored(entries, earlier);
        let before = entries + earlier;
        lemma_position_of(before, last.aircraft.name);
        assert(all[all.len() - 1] == last);
        if position_of(before, last.aircraft.name) is Some {
            let i = position_of(before, last.aircraft.name)->0;
            assert(before[i] == all[i]);
        }
    }
}

/// The window is open at its far end: an observation is visible while less
/// than ten minutes have passed since its last report, and hidden from the
/// very nanosecond at which ten minutes have passed.
pub proof fn theorem_window_boundary(last_seen: u64, now: u64)
    ensures
        visible_at(last_seen, now) <==> now - last_seen < VISIBILITY_WINDOW,
        now - last_seen == VISIBILITY_WINDOW ==> !visible_at(last_seen, now),
        now - last_seen == VISIBILITY_WINDOW - 1 ==> visible_at(last_seen, now),
        VISIBILITY_WINDOW == 10 * 60 * 1_000_000_000,
{
}

/// What is visible keeps the storage order: what is visible of two lists put
/// end to end is what is visible of the first, followed by what is visible
/// of the second.
pub proof fn theorem_visible_keeps_order(first: Seq<Entry>, second: Seq<Entry>, now: u64)
    ensures
        visible_aircraft(first + second, now) == visible_aircraft(first, now) + visible_aircraft(
            second,
            now,
        ),
    decreases second.len(),
{
    if second.len() == 0 {
        lemma_visible_aircraft_empty(now);
    } else {
        let earlier = second.drop_last();
        let last = second.last();
        theorem_visible_keeps_order(first, earlier, now);
        lemma_visible_aircraft_push(first + earlier, last, now);
        lemma_visible_aircraft_push(earlier, last, now);
    }
}

/// What is visible at `now` are exactly the aircraft of the entries that
/// were last reported strictly less than the visibility window before `now`.
/// An entry that is exactly one window old is already hidden.
pub proof fn theorem_visible_iff_recent(entries: Seq<Entry>, now: u64, aircraft: AircraftView)
    ensures
        visible_aircraft(entries, now).contains(aircraft) <==> exists|i: int|
            0 <= i < entries.len() && #[trigger] entries[i].aircraft == aircraft && now
                - entries[i].last_seen < VISIBILITY_WINDOW,
    decreases entries.len(),
{
    if entries.len() == 0 {
        lemma_visible_aircraft_empty(now);
    } else {
        let earlier = entries.drop_last();
        let last = entries.last();
        assert(earlier.push(last) =~= entries);
        lemma_visible_aircraft_push(earlier, last, now);
        theorem_visible_iff_recent(earlier, now, aircraft);
        let shown = visible_aircraft(entries, now);
        let shown_earlier = visible_aircraft(earlier, now);
        if exists|i: int|
            0 <= i < entries.len() && #[trigger] entries[i].aircraft == aircraft && now
                - entries[i].last_seen < VISIBILITY_WINDOW {
            let i = choose|i: int|
                0 <= i < entries.len() && #[trigger] entries[i].aircraft == aircraft && now
                    - entries[i].last_seen < VISIBILITY_WINDOW;
            if i == entries.len() - 1 {
                assert(shown[shown.len() - 1] == aircraft);
            } else {
                let k = choose|k: int|
                    0 <= k < shown_earlier.len() && shown_earlier[k] == aircraft;
                assert(shown[k] == aircraft);
            }
        }
    }
}

} // verus!
