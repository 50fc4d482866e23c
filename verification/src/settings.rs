use vstd::prelude::*;

use vstd::string::StringExecFns;

verus! {

/// User preferences that the embedding program persists beside the store.
#[derive(Debug, Clone)]
pub struct Settings {
    pub auto_lock_minutes: u64,
    pub hotkey: String,
}

/// The settings file sits under the data directory, by a fixed name.
pub fn settings_path(app_dir: String) -> (r: String)
    ensures
        r@ == app_dir@ + "/settings.json"@,
{
    app_dir.concat("/settings.json")
}

} // verus!
