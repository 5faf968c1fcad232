//! Video effects: the built-in transitions and their settings.

pub mod transitions;
