use geoengine_kernel::natur40::{
    band_indices, DatasetId, Natur40DataProvider, Natur40DataProviderDefinition, ProviderError,
    RasterDb,
};

fn provider() -> Natur40DataProvider {
    Natur40DataProviderDefinition {
        id: 42,
        name: "Natur 4.0".to_string(),
        base_url: "https://example.org".to_string(),
        user: "alice".to_string(),
        password: "pw".to_string(),
    }
    .initialize()
}

fn external(id: &str) -> DatasetId {
    DatasetId::External { provider_id: 42, dataset_id: id.to_string() }
}

fn db(name: &str) -> RasterDb {
    RasterDb {
        name: name.to_string(),
        title: format!("Title of {name}"),
        tags: vec!["a".to_string(), "b".to_string()],
    }
}

#[test]
fn a_definition_has_names() {
    let definition = Natur40DataProviderDefinition {
        id: 42,
        name: "Natur 4.0".to_string(),
        base_url: "https://example.org".to_string(),
        user: "alice".to_string(),
        password: "pw".to_string(),
    };
    assert_eq!(definition.provider_type(), "Natur4.0");
    assert_eq!(definition.name(), "Natur 4.0");
    assert_eq!(definition.id(), 42);
    let provider = definition.initialize();
    assert_eq!(provider.id, 42);
    assert_eq!(provider.base_url, "https://example.org");
}

#[test]
fn addresses_are_built() {
    assert_eq!(
        db("kili").url("https://example.org"),
        "WCS:https://example.org/rasterdb/kili/wcs?VERSION=1.0.0&COVERAGE=kili"
    );
    assert_eq!(provider().raster_dbs_url(), "https://example.org/rasterdbs.json");
    assert_eq!(
        provider().auth(),
        ["UserPwd=alice:pw".to_string(), "HttpAuth=BASIC".to_string()]
    );
}

#[test]
fn the_last_band_is_not_offered() {
    assert_eq!(band_indices(4), [1, 2, 3]);
    assert!(band_indices(1).is_empty());
    assert!(band_indices(0).is_empty());
    assert!(band_indices(-1).is_empty());
}

#[test]
fn bands_are_listed() {
    let dbs = vec![db("a"), db("b"), db("c")];
    let datasets = vec![
        Some(vec![Some("first"), None, Some("third")]),
        None,
        Some(vec![Some("only")]),
    ];
    let listing = provider().list(&dbs, datasets);
    let summary: Vec<(&str, &str, &str, &str)> = listing
        .iter()
        .map(|l| {
            (
                l.dataset_id.as_str(),
                l.name.as_str(),
                l.description.as_str(),
                l.result_descriptor,
            )
        })
        .collect();
    assert_eq!(
        summary,
        [
            ("a:1", "Title of a", "Band: 1", "first"),
            ("a:3", "Title of a", "Band: 3", "third"),
            ("c:1", "Title of c", "Band: 1", "only"),
        ]
    );
    for entry in &listing {
        assert_eq!(entry.provider_id, 42);
        assert_eq!(entry.tags, ["a", "b"]);
        assert_eq!(entry.source_operator, "GdalSource");
        assert_eq!(entry.symbology, None);
    }
}

#[test]
fn listed_bands_are_found() {
    let listing = provider().list(&vec![db("kili")], vec![Some(vec![Some(()), Some(())])]);
    let request = provider().meta_data(&external(&listing[1].dataset_id)).unwrap();
    assert_eq!(
        request.db_url,
        "WCS:https://example.org/rasterdb/kili/wcs?VERSION=1.0.0&COVERAGE=kili"
    );
    assert_eq!(request.band_index, 2);
}

#[test]
fn band_numbers_can_be_signed() {
    assert_eq!(provider().meta_data(&external("a:-3")).unwrap().band_index, -3);
    assert_eq!(provider().meta_data(&external("a:+3")).unwrap().band_index, 3);
    assert_eq!(provider().meta_data(&external(":003")).unwrap().band_index, 3);
    assert_eq!(
        provider().meta_data(&external("a:9223372036854775807")).unwrap().band_index,
        isize::MAX
    );
    assert_eq!(
        provider().meta_data(&external("a:-9223372036854775808")).unwrap().band_index,
        isize::MIN
    );
}

#[test]
fn other_identifiers_are_invalid() {
    let ids =
        ["", "a", "a:", "a:b", "a:1:2", "a::1", "a:1.5", "a:-", "a: 1", "a:9223372036854775808"];
    for id in ids {
        assert_eq!(
            provider().meta_data(&external(id)).unwrap_err(),
            ProviderError::InvalidExternalDatasetId { provider: 42 },
            "{}",
            id
        );
    }
    assert_eq!(
        provider().meta_data(&DatasetId::Internal { dataset_id: 1 }).unwrap_err(),
        ProviderError::InvalidExternalDatasetId { provider: 42 }
    );
}

#[test]
fn single_datasets_are_not_loaded() {
    assert_eq!(
        provider().load(&external("a:1")).unwrap_err(),
        ProviderError::NotYetImplemented
    );
}
