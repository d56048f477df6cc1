use provision::config::AddonIndex;

#[test]
fn built_in_addon_index_versions() {
    let index = AddonIndex::default();
    assert_eq!(
        index.addons.python.versions,
        vec![
            "3.12.12".to_owned(),
            "3.13.11".to_owned(),
            "3.14.2".to_owned(),
        ]
    );
    assert_eq!(index.addons.python.uv.version, "0.9.21");
    assert_eq!(
        index.addons.nodejs.versions,
        vec![
            "20.19.6".to_owned(),
            "22.21.1".to_owned(),
            "24.12.0".to_owned(),
        ]
    );
}
