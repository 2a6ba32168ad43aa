use aircraft_store::handlers::{get_aircraft, set_aircraft};
use aircraft_store::models::{blank_db, AircraftData, State};
use std::sync::Arc;
use tokio::runtime::Builder;
use tokio::sync::Mutex;

fn report(name: String, value: f64) -> AircraftData {
    AircraftData {
        name,
        latitude: value.to_bits(),
        longitude: value.to_bits(),
        altitude: value.to_bits(),
    }
}

#[test]
fn parallel_reports_of_distinct_names_are_all_stored() {
    let workers: usize = 8;
    let per_worker: usize = 50;
    let runtime = Builder::new_multi_thread().worker_threads(4).build().unwrap();
    let db: Arc<Mutex<State>> = Arc::new(Mutex::new(blank_db()));
    runtime.block_on(async {
        let mut tasks = Vec::new();
        for w in 0..workers {
            let db = Arc::clone(&db);
            tasks.push(tokio::spawn(async move {
                for n in 0..per_worker {
                    let mut state = db.lock().await;
                    set_aircraft(report(format!("W{}-{}", w, n), n as f64), n as u64, &mut state);
                }
            }));
        }
        for task in tasks {
            task.await.unwrap();
        }
        let state = db.lock().await;
        assert_eq!(state.aircraft().len(), workers * per_worker);
        assert_eq!(get_aircraft(&state, per_worker as u64).len(), workers * per_worker);
        for w in 0..workers {
            for n in 0..per_worker {
                let name = format!("W{}-{}", w, n);
                let stored = state.aircraft();
                assert_eq!(stored.iter().filter(|(held, _)| held.name == name).count(), 1);
            }
        }
    });
}

#[test]
fn parallel_reports_of_one_name_leave_one_entry() {
    let workers: usize = 8;
    let runtime = Builder::new_multi_thread().worker_threads(4).build().unwrap();
    let db: Arc<Mutex<State>> = Arc::new(Mutex::new(blank_db()));
    runtime.block_on(async {
        let mut tasks = Vec::new();
        for w in 0..workers {
            let db = Arc::clone(&db);
            tasks.push(tokio::spawn(async move {
                for n in 0..100u64 {
                    let mut state = db.lock().await;
                    set_aircraft(report("SHARED".to_string(), w as f64), n, &mut state);
                }
            }));
        }
        for task in tasks {
            task.await.unwrap();
        }
        let state = db.lock().await;
        assert_eq!(state.aircraft().len(), 1);
        assert_eq!(state.aircraft()[0].0.name, "SHARED");
        assert_eq!(state.aircraft()[0].1, 99);
    });
}
