//! What is checked before the configuration is written to disk.
use vstd::prelude::*;

use crate::error::Error;
use crate::model::app_config::AppConfig;
use crate::model::validation::{config_issues, issues_of, validate_app_config, MachineFacts};

verus! {

/// Name of the configuration file inside the config directory.
pub const CONFIG_FILE: &'static str = "config.json";

/// Name of the temporary file a save writes before renaming it into place.
pub const TEMP_FILE: &'static str = "config.json.tmp";

/// A configuration may be written only when it is valid; otherwise the
/// problems come back as a validation error and nothing is written.
pub fn ready_to_save(config: &AppConfig, facts: &MachineFacts) -> (r: Result<(), Error>)
    ensures
        r is Ok <==> config_issues(config.tunnels@, config.tunnels@.len(), *facts).len() == 0,
        r matches Err(e) ==> e matches Error::Validation(v) && issues_of(v@) == config_issues(
            config.tunnels@,
            config.tunnels@.len(),
            *facts,
        ),
{
    match validate_app_config(config, facts) {
        Ok(()) => Ok(()),
        Err(v) => Err(Error::Validation(v)),
    }
}

} // verus!
