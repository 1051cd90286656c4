//! Engine-wide statistics and health reporting types.

use crate::str_map::StrMap;
use vstd::prelude::*;

verus! {

/// Engine statistics
#[derive(Debug, Clone)]
pub struct EngineStats {
    pub nodes: u64,
    pub relationships: u64,
    pub labels: u64,
    pub rel_types: u64,
    pub page_cache_hits: u64,
    pub page_cache_misses: u64,
    pub wal_entries: u64,
    pub active_transactions: u64,
}

/// Health of the engine and of each of its components
#[derive(Debug, Clone)]
pub struct HealthStatus {
    pub overall: HealthState,
    pub components: StrMap<HealthState>,
}

/// Health state
#[derive(Debug, Clone, Copy, PartialEq, Eq, Structural)]
pub enum HealthState {
    Healthy,
    Unhealthy,
    Degraded,
}

/// The state of a component whose own check succeeded or failed.
pub open spec fn state_of(ok: bool) -> HealthState {
    if ok {
        HealthState::Healthy
    } else {
        HealthState::Unhealthy
    }
}

fn component_state(ok: bool) -> (s: HealthState)
    ensures
        s == state_of(ok),
{
    if ok {
        HealthState::Healthy
    } else {
        HealthState::Unhealthy
    }
}

/// The engine's health from whether each component's own check succeeded:
/// each component healthy or unhealthy by its check, and the engine
/// unhealthy exactly when some component is.
pub fn engine_health(catalog_ok: bool, storage_ok: bool, page_cache_ok: bool, wal_ok: bool, indexes_ok: bool) -> (s:
    HealthStatus)
    ensures
        s.components.map() == Map::<Seq<char>, HealthState>::empty().insert("catalog"@, state_of(catalog_ok)).insert(
            "storage"@,
            state_of(storage_ok),
        ).insert("page_cache"@, state_of(page_cache_ok)).insert("wal"@, state_of(wal_ok)).insert(
            "indexes"@,
            state_of(indexes_ok),
        ),
        s.overall == if catalog_ok && storage_ok && page_cache_ok && wal_ok && indexes_ok {
            HealthState::Healthy
        } else {
            HealthState::Unhealthy
        },
{
    let mut components: StrMap<HealthState> = StrMap::new();
    components.insert(String::from_str("catalog"), component_state(catalog_ok));
    components.insert(String::from_str("storage"), component_state(storage_ok));
    components.insert(String::from_str("page_cache"), component_state(page_cache_ok));
    components.insert(String::from_str("wal"), component_state(wal_ok));
    components.insert(String::from_str("indexes"), component_state(indexes_ok));
    let overall = if catalog_ok && storage_ok && page_cache_ok && wal_ok && indexes_ok {
        HealthState::Healthy
    } else {
        HealthState::Unhealthy
    };
    HealthStatus { overall, components }
}

} // verus!
