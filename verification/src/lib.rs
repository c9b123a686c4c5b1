//! Verified bookkeeping for the gravity funnel: the bounded trails that
//! orbiting bodies leave, the registry that pairs each body with its trail,
//! the names given to bodies spawned at run time and the state of the
//! documentation tabs.
pub mod trail;
pub mod registry;
pub mod naming;
pub mod doc_tab;
