//! The AI engine: the model cache and whether the engine has been started.

use vstd::prelude::*;
use crate::ai::model_manager::ModelManager;

verus! {

/// Main AI engine: manages models and gives access to the AI features.
pub struct AIEngine {
    model_manager: ModelManager,
    initialized: bool,
}

impl AIEngine {
    /// The model cache directory of the engine.
    pub closed spec fn cache(&self) -> Seq<char> {
        self.model_manager.dir()
    }

    /// Whether the engine has been marked initialized.
    pub closed spec fn ready(&self) -> bool {
        self.initialized
    }

    /// Create a new AI engine with the given cache directory; it starts
    /// uninitialized.
    pub fn new(cache_dir: String) -> (e: Self)
        ensures
            e.cache() == cache_dir@,
            !e.ready(),
    {
        AIEngine { model_manager: ModelManager::new(cache_dir), initialized: false }
    }

    /// Get a reference to the model manager.
    pub fn model_manager(&self) -> (m: &ModelManager)
        ensures
            m.dir() == self.cache(),
    {
        &self.model_manager
    }

    /// Check if the engine has been initialized.
    pub fn is_initialized(&self) -> (b: bool)
        ensures
            b == self.ready(),
    {
        self.initialized
    }

    /// Mark the engine as initialized; the cache directory stays.
    pub fn set_initialized(&mut self)
        ensures
            final(self).ready(),
            final(self).cache() == old(self).cache(),
    {
        self.initialized = true;
    }
}

} // verus!
