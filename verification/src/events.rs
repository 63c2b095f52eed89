//! Wrappers of a storage client that publish storage events or synchronise indexes.
//! They hold the wrapped client, the event hub or sync manager they report to, and
//! whether reporting is on.
use vstd::prelude::*;
use std::sync::Arc;

verus! {

/// A storage client whose changes are published as events while events are enabled.
/// Events start disabled.
#[derive(Debug, Clone)]
pub struct EventEmittingStorage<S, H> {
    inner: S,
    event_hub: Arc<H>,
    enabled: bool,
}

impl<S, H> EventEmittingStorage<S, H> {
    pub closed spec fn inner_spec(&self) -> S {
        self.inner
    }

    pub closed spec fn hub_spec(&self) -> Arc<H> {
        self.event_hub
    }

    pub closed spec fn enabled_spec(&self) -> bool {
        self.enabled
    }

    /// Wraps `storage`, publishing to `event_hub` once enabled.
    pub fn new(storage: S, event_hub: Arc<H>) -> (r: Self)
        ensures
            r.inner_spec() == storage,
            r.hub_spec() == event_hub,
            !r.enabled_spec(),
    {
        EventEmittingStorage { inner: storage, event_hub, enabled: false }
    }

    /// Turns publishing on or off.
    pub fn enable_events(&mut self, enabled: bool)
        ensures
            final(self).enabled_spec() == enabled,
            final(self).inner_spec() == old(self).inner_spec(),
            final(self).hub_spec() == old(self).hub_spec(),
    {
        self.enabled = enabled;
    }

    /// Whether publishing is on.
    pub fn is_enabled(&self) -> (r: bool)
        ensures
            r == self.enabled_spec(),
    {
        self.enabled
    }

    /// The wrapped client.
    pub fn inner(&self) -> (r: &S)
        ensures
            *r == self.inner_spec(),
    {
        &self.inner
    }

    /// The wrapped client, for changes.
    pub fn inner_mut(&mut self) -> (r: &mut S)
        ensures
            *r == old(self).inner_spec(),
            final(self).inner_spec() == *final(r),
            final(self).enabled_spec() == old(self).enabled_spec(),
            final(self).hub_spec() == old(self).hub_spec(),
    {
        &mut self.inner
    }
}

/// A storage client whose changes are handed to a sync manager while synchronisation
/// is enabled.
#[derive(Debug, Clone)]
pub struct SyncStorage<S, M> {
    inner: S,
    sync_manager: Option<Arc<M>>,
    enabled: bool,
}

impl<S, M> SyncStorage<S, M> {
    pub closed spec fn inner_spec(&self) -> S {
        self.inner
    }

    pub closed spec fn manager_spec(&self) -> Option<Arc<M>> {
        self.sync_manager
    }

    pub closed spec fn enabled_spec(&self) -> bool {
        self.enabled
    }

    /// Wraps `storage` without a sync manager; synchronisation is off.
    pub fn new(storage: S) -> (r: Self)
        ensures
            r.inner_spec() == storage,
            r.manager_spec() is None,
            !r.enabled_spec(),
    {
        SyncStorage { inner: storage, sync_manager: None, enabled: false }
    }

    /// Wraps `storage` with a sync manager; synchronisation is on.
    pub fn with_sync_manager(storage: S, sync_manager: Arc<M>) -> (r: Self)
        ensures
            r.inner_spec() == storage,
            r.manager_spec() == Some(sync_manager),
            r.enabled_spec(),
    {
        SyncStorage { inner: storage, sync_manager: Some(sync_manager), enabled: true }
    }

    /// Turns synchronisation on or off.
    pub fn enable_sync(&mut self, enabled: bool)
        ensures
            final(self).enabled_spec() == enabled,
            final(self).inner_spec() == old(self).inner_spec(),
            final(self).manager_spec() == old(self).manager_spec(),
    {
        self.enabled = enabled;
    }

    /// Whether synchronisation is on.
    pub fn is_enabled(&self) -> (r: bool)
        ensures
            r == self.enabled_spec(),
    {
        self.enabled
    }

    /// The sync manager, shared.
    pub fn get_sync_manager(&self) -> (r: Option<Arc<M>>)
        ensures
            r == self.manager_spec(),
    {
        match &self.sync_manager {
            Some(m) => Some(Arc::clone(m)),
            None => None,
        }
    }

    /// The wrapped client.
    pub fn inner(&self) -> (r: &S)
        ensures
            *r == self.inner_spec(),
    {
        &self.inner
    }

    /// The wrapped client, for changes.
    pub fn inner_mut(&mut self) -> (r: &mut S)
        ensures
            *r == old(self).inner_spec(),
            final(self).inner_spec() == *final(r),
            final(self).enabled_spec() == old(self).enabled_spec(),
            final(self).manager_spec() == old(self).manager_spec(),
    {
        &mut self.inner
    }
}

} // verus!
