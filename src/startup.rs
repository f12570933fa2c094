//! The start-up sequence, as a state machine.

use vstd::prelude::*;
use vstd::string::*;

verus! {

/// Where application start-up stands.
#[derive(Debug, Clone, Copy, PartialEq, Eq, Structural)]
pub enum StartupScreenState {
    Start,
    CheckOllama,
    OllamaNotRunning,
    ListModels,
    RunningDatabaseMigrations,
    DatabaseMigrationsFailed,
    End,
}

/// What start-up learns as it goes.
#[derive(Debug, Clone, Copy, PartialEq, Eq, Structural)]
pub enum StartupEvent {
    /// Start-up begins.
    Begin,
    /// The backend's liveness probe answered (`true`) or did not.
    BackendChecked(bool),
    /// The retry interval has passed after the backend was found down.
    Retry,
    /// The local models have been listed and a model selected.
    ModelsListed,
    /// The schema migrations succeeded (`true`) or failed.
    MigrationsRan(bool),
}

/// The next start-up state: probe the backend (again after each retry while
/// it is down), list models, migrate the store, then finish; a failed
/// migration is final. An event that does not fit the state changes nothing.
pub open spec fn next_state(s: StartupScreenState, e: StartupEvent) -> StartupScreenState {
    match (s, e) {
        (StartupScreenState::Start, StartupEvent::Begin) => StartupScreenState::CheckOllama,
        (StartupScreenState::CheckOllama, StartupEvent::BackendChecked(up)) => if up {
            StartupScreenState::ListModels
        } else {
            StartupScreenState::OllamaNotRunning
        },
        (StartupScreenState::OllamaNotRunning, StartupEvent::Retry) => StartupScreenState::CheckOllama,
        (StartupScreenState::ListModels, StartupEvent::ModelsListed) => StartupScreenState::RunningDatabaseMigrations,
        (StartupScreenState::RunningDatabaseMigrations, StartupEvent::MigrationsRan(ok)) => if ok {
            StartupScreenState::End
        } else {
            StartupScreenState::DatabaseMigrationsFailed
        },
        _ => s,
    }
}

/// Takes one start-up step.
pub fn startup_step(state: StartupScreenState, event: StartupEvent) -> (r: StartupScreenState)
    ensures
        r == next_state(state, event),
{
    match (state, event) {
        (StartupScreenState::Start, StartupEvent::Begin) => StartupScreenState::CheckOllama,
        (StartupScreenState::CheckOllama, StartupEvent::BackendChecked(up)) => if up {
            StartupScreenState::ListModels
        } else {
            StartupScreenState::OllamaNotRunning
        },
        (StartupScreenState::OllamaNotRunning, StartupEvent::Retry) => StartupScreenState::CheckOllama,
        (StartupScreenState::ListModels, StartupEvent::ModelsListed) => StartupScreenState::RunningDatabaseMigrations,
        (StartupScreenState::RunningDatabaseMigrations, StartupEvent::MigrationsRan(ok)) => if ok {
            StartupScreenState::End
        } else {
            StartupScreenState::DatabaseMigrationsFailed
        },
        _ => state,
    }
}

/// The model used when the backend holds none locally.
pub const FALLBACK_MODEL: &'static str = "llama3.2:1b";

/// The model selected at start-up: the first one the backend lists, or the
/// fallback when it lists none.
pub fn default_model(models: &Vec<String>) -> (r: String)
    ensures
        models@.len() > 0 ==> r == models@[0],
        models@.len() == 0 ==> r@ == FALLBACK_MODEL@,
{
    if models.len() == 0 {
        String::from_str(FALLBACK_MODEL)
    } else {
        models[0].clone()
    }
}

} // verus!
