//! What is copied of the host's environment.

use bubbler_core::env::is_passthrough;

#[test]
fn passthrough_is_the_allowlist_plus_lc_prefix() {
    for ok in [
        "TERM",
        "LANG",
        "LANGUAGE",
        "COLORTERM",
        "TZ",
        "LC_ALL",
        "LC_",
    ] {
        assert!(is_passthrough(ok.as_bytes()), "{ok}");
    }
    for no in [
        "PATH", "HOME", "DISPLAY", "TERMINFO", "lc_all", "XLC_ALL", "",
    ] {
        assert!(!is_passthrough(no.as_bytes()), "{no}");
    }
    assert!(!is_passthrough(b"LC\xff"));
}
