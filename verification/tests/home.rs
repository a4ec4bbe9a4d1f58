//! Where the per-user Libra state lives.

use libra_core::upgrade::home::{resolve_libra_home, LibraHomeError};

fn set(value: &str) -> Option<Vec<u8>> {
    Some(value.as_bytes().to_vec())
}

fn resolved(path: &str) -> Result<Vec<u8>, LibraHomeError> {
    Ok(path.as_bytes().to_vec())
}

#[test]
fn explicit_libra_home_wins() {
    assert_eq!(
        resolve_libra_home(set("/custom/libra-home"), set("/isolated/config.db"), None, None),
        resolved("/custom/libra-home")
    );
}

#[test]
fn global_db_isolation_hook_beats_home() {
    assert_eq!(
        resolve_libra_home(
            None,
            set("/isolated/store/config.db"),
            set("/tmp/should-not-be-used"),
            None
        ),
        resolved("/isolated/store")
    );
}

#[test]
fn bare_relative_global_db_override_stays_isolated() {
    assert_eq!(
        resolve_libra_home(None, set("config.db"), set("/tmp/should-not-be-used"), None),
        resolved(".")
    );
}

#[test]
fn empty_libra_home_is_treated_as_unset() {
    assert_eq!(
        resolve_libra_home(set(""), None, set("/tmp/upgrade-home-test"), None),
        resolved("/tmp/upgrade-home-test/.libra")
    );
}

#[test]
fn falls_back_to_home_dot_libra() {
    assert_eq!(
        resolve_libra_home(None, None, set("/tmp/upgrade-home-test2"), None),
        resolved("/tmp/upgrade-home-test2/.libra")
    );
}

#[test]
fn the_platform_home_is_the_last_resort() {
    assert_eq!(
        resolve_libra_home(None, set(""), set(""), set("/home/someone/")),
        resolved("/home/someone/.libra")
    );
    let error = resolve_libra_home(None, None, None, None).unwrap_err();
    assert_eq!(error, LibraHomeError::Unresolvable);
    assert!(error.message().contains("set LIBRA_HOME to an absolute path"));
}
