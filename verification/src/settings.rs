//! What the prompt reads of the running program: its settings and its experiments.

use vstd::prelude::*;

verus! {

/// The state of the program as far as the prompt depends on it.
pub struct Os {
    /// The commands of the experiments that are switched on.
    pub experiment_commands: Vec<&'static str>,
    /// Whether the delegate experiment is switched on.
    pub delegate_enabled: bool,
    /// The setting for the edit mode.
    pub chat_edit_mode: Option<String>,
    /// The setting for hints from the history.
    pub chat_enable_history_hints: Option<bool>,
    /// The setting for the key that starts a delegate command.
    pub delegate_mode_key: Option<String>,
    /// The setting for the key that accepts a hint.
    pub autocompletion_key: Option<String>,
    /// The setting for the key that toggles tangent mode.
    pub tangent_mode_key: Option<String>,
}

} // verus!
