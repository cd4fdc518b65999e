use vstd::prelude::*;

verus! {

use crate::config::RsaveConfig;

/// Deletes the selected destination from the vault and reports whether it
/// was present; the confirmation dialog around it stays in the interactive
/// shell.
pub fn handle_delete_config(cfg: &mut RsaveConfig, selected: &str) -> (r: bool)
    requires
        old(cfg).wf(),
    ensures
        final(cfg).wf(),
        final(cfg).meta == old(cfg).meta,
        final(cfg).session_password == old(cfg).session_password,
        r == old(cfg).dests().contains_key(selected@),
        final(cfg).dests() == old(cfg).dests().remove(selected@),
        !r ==> *final(cfg) == *old(cfg),
{
    cfg.delete_destination_secure(selected)
}

/// How the command entry point gets hold of the master password.
pub enum AuthPath {
    /// The vault holds no check value yet: run first-time setup.
    Setup,
    /// A cached session supplied the password; it is used as is.
    CachedSession(String),
    /// The user must be prompted and the answer verified.
    Prompt,
}

/// The resolution policy: with no check value stored the vault was never
/// initialized and first-time setup runs; otherwise a cached session
/// password, when one exists, is used without re-verification; otherwise the
/// user is prompted.
pub fn choose_auth_path(check_present: bool, session_password: Option<String>) -> (r: AuthPath)
    ensures
        !check_present ==> r is Setup,
        check_present && session_password is Some ==> (r matches AuthPath::CachedSession(p)
            && session_password == Some(p)),
        check_present && session_password is None ==> r is Prompt,
{
    if !check_present {
        AuthPath::Setup
    } else {
        match session_password {
            Some(p) => AuthPath::CachedSession(p),
            None => AuthPath::Prompt,
        }
    }
}

} // verus!
