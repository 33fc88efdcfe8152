//! Where the application keeps its per-user data and configuration.

use vstd::prelude::*;

verus! {

/// Relies on `app_dirs::app_root` with the user-data type and this
/// application's identity: the per-user data directory, created when
/// missing. The place depends on the environment.
#[verifier::external_body]
pub(crate) fn user_data_root() -> Result<String, String> {
    let info = app_dirs::AppInfo { name: "hupa", author: "fourdotfiveg" };
    match app_dirs::app_root(app_dirs::AppDataType::UserData, &info) {
        Ok(p) => Ok(p.display().to_string()),
        Err(e) => Err(format!("{}", e)),
    }
}

/// Relies on `app_dirs::app_root` with the user-config type and this
/// application's identity: the per-user configuration directory, created
/// when missing. The place depends on the environment.
#[verifier::external_body]
pub(crate) fn user_config_root() -> Result<String, String> {
    let info = app_dirs::AppInfo { name: "hupa", author: "fourdotfiveg" };
    match app_dirs::app_root(app_dirs::AppDataType::UserConfig, &info) {
        Ok(p) => Ok(p.display().to_string()),
        Err(e) => Err(format!("{}", e)),
    }
}

} // verus!
