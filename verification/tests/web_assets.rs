//! Embedded web assets.

use libra_core::web_assets::WebAssets;

#[test]
fn no_assets_are_embedded() {
    assert!(WebAssets::get("index.html").is_none());
    assert!(WebAssets::get("").is_none());
}
