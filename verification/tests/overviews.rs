use geoengine_kernel::float_bits::Real;
use geoengine_kernel::netcdf::creation::{
    CreationAction, CreationEvent, InProgressFlag, OverviewCreation, OverviewGeneration,
    OverviewRemoval, RemovalAction, RemovalEvent, DELETE_OVERVIEWS, METADATA_FILE_NAME,
};
use geoengine_kernel::netcdf::groups::{
    array_names_options, ConversionMetadata, NetCdfArray, NetCdfGroup, SourceArray,
    SourceDimension, SourceGroup,
};
use geoengine_kernel::netcdf::indexing::{
    emit_subtask_status, IndexAction, IndexEvent, SubdatasetIndexing, LOADING_INFO_FILE_NAME,
};
use geoengine_kernel::netcdf::loading::{
    descriptor_source, generate_loading_info, DescriptorSource, FileNotFoundHandling,
    GdalDatasetGeoTransform, GdalDatasetParameters, GdalMetaDataList, TimeCoverage, TimeStep,
};
use geoengine_kernel::netcdf::metadata::{
    store_db_metadata, MetadataEntity, MetadataGroup, MetadataStatement, NetCdfMetadata,
    OverviewRow, INSERT_ENTITY, INSERT_GROUP, INSERT_OVERVIEW, INSERT_TIMESTAMP,
};
use geoengine_kernel::netcdf::stats::{StatsForGroup, ValueRange};
use geoengine_kernel::netcdf::tiff::{
    CogRasterCreationOptions, GdalConfig, RasterCreationOption, ResamplingMethod,
};
use std::collections::{BTreeMap, BTreeSet};

fn bits_of(value: f64) -> Real {
    Real { bits: value.to_bits() }
}

fn config() -> GdalConfig {
    GdalConfig {
        compression_num_threads: "ALL_CPUS".to_string(),
        compression_algorithm: Some("ZSTD".to_string()),
        compression_z_level: Some(9),
    }
}

fn steps(texts: &[(i64, &str)]) -> Vec<TimeStep> {
    texts
        .iter()
        .map(|(millis, text)| TimeStep { millis: *millis, text: text.to_string() })
        .collect()
}

fn years() -> Vec<TimeStep> {
    steps(&[
        (946_684_800_000, "2000-01-01T00:00:00.000Z"),
        (978_307_200_000, "2001-01-01T00:00:00.000Z"),
        (1_009_843_200_000, "2002-01-01T00:00:00.000Z"),
    ])
}

fn texts(strings: &[&str]) -> Vec<String> {
    strings.iter().map(|s| s.to_string()).collect()
}

fn pairs(options: &[RasterCreationOption]) -> Vec<(&str, &str)> {
    options.iter().map(|o| (o.key.as_str(), o.value.as_str())).collect()
}

fn array(name: &str, number_of_entities: usize) -> NetCdfArray {
    NetCdfArray { name: name.to_string(), number_of_entities }
}

fn group(name: &str, groups: Vec<NetCdfGroup>, arrays: Vec<NetCdfArray>) -> NetCdfGroup {
    NetCdfGroup { name: name.to_string(), groups, arrays }
}

fn dataset_m() -> NetCdfGroup {
    group(
        "/",
        vec![
            group("metric_1", vec![], vec![array("ebv_cube", 3)]),
            group("metric_2", vec![], vec![array("ebv_cube", 3)]),
        ],
        vec![],
    )
}

fn metric_1(base: &str) -> ConversionMetadata {
    ConversionMetadata {
        dataset_in: "NETCDF:\"netcdf4d/dataset_m.nc\"".to_string(),
        dataset_out_base: base.to_string(),
        array_path: "/metric_1/ebv_cube".to_string(),
        number_of_entities: 3,
    }
}

/// Runs the indexing of an array on a set of paths.
fn run_index(
    indexing: &mut SubdatasetIndexing,
    files: &mut BTreeSet<String>,
    stats: &mut StatsForGroup,
    values: &mut dyn FnMut(&str) -> (Option<(Real, Real)>, Option<String>),
) -> IndexAction {
    run_index_noting(indexing, files, stats, values, &mut BTreeMap::new())
}

/// Runs the indexing of an array on a set of paths, and notes of which overview each file tells
/// how to load it.
fn run_index_noting(
    indexing: &mut SubdatasetIndexing,
    files: &mut BTreeSet<String>,
    stats: &mut StatsForGroup,
    values: &mut dyn FnMut(&str) -> (Option<(Real, Real)>, Option<String>),
    overviews: &mut BTreeMap<String, String>,
) -> IndexAction {
    loop {
        let event = match indexing.action() {
            IndexAction::CheckOutput(path) => IndexEvent::OutputChecked(files.contains(&path)),
            IndexAction::OpenSubdataset(_) => IndexEvent::SubdatasetOpened(config()),
            IndexAction::ReportProgress(_) => IndexEvent::ProgressReported,
            IndexAction::CreateDirectory(path) => {
                files.insert(path);
                IndexEvent::DirectoryCreated
            }
            IndexAction::CreateTiff(job) => {
                let (min_max, sref_string) = values(&job.destination);
                assert!(files.insert(job.destination));
                IndexEvent::TiffCreated { min_max, sref_string }
            }
            IndexAction::WriteLoadingInfo { overview, file, .. } => {
                assert!(files.contains(&overview));
                assert!(files.insert(file.clone()));
                assert_eq!(overviews.insert(file, overview), None);
                IndexEvent::LoadingInfoWritten
            }
            end => return end,
        };
        indexing.advance(event, stats);
    }
}

/// How a small overview is read.
fn small_overview(file_path: &str) -> GdalDatasetParameters {
    GdalDatasetParameters {
        file_path: file_path.to_string(),
        rasterband_channel: 1,
        geo_transform: GdalDatasetGeoTransform {
            origin_coordinate: (bits_of(50.), bits_of(55.)),
            x_pixel_size: bits_of(1.),
            y_pixel_size: bits_of(-1.),
        },
        width: 5,
        height: 5,
        file_not_found_handling: FileNotFoundHandling::Error,
        no_data_value: Some(bits_of(-9999.0)),
        allow_alphaband_as_mask: true,
    }
}

#[test]
fn test_generate_loading_info() {
    let params = small_overview("foo/bar.tif");
    let coverage = TimeCoverage {
        time_stamps: steps(&[
            (1_577_836_800_000, "2020-01-01T00:00:00.000Z"),
            (1_580_515_200_000, "2020-02-01T00:00:00.000Z"),
        ]),
    };

    let loading_info = generate_loading_info("descriptor", &params, &coverage);

    assert_eq!(loading_info.result_descriptor, "descriptor");
    check_slices(
        &loading_info,
        &[
            (1_577_836_800_000, "foo/2020-01-01T00:00:00.000Z.tiff"),
            (1_580_515_200_000, "foo/2020-02-01T00:00:00.000Z.tiff"),
        ],
    );
}

/// Checks that there are slices for points in time with files of the small overview, and no
/// others.
fn check_slices(loading_info: &GdalMetaDataList<&str>, expected: &[(i64, &str)]) {
    assert_eq!(loading_info.params.len(), expected.len());
    for (slice, (time, file_path)) in loading_info.params.iter().zip(expected) {
        assert_eq!(slice.time, (*time, *time));
        assert_eq!(slice.cache_ttl, 0);
        let params = slice.params.as_ref().unwrap();
        assert_eq!(params.file_path, *file_path);
        assert_eq!(params.rasterband_channel, 1);
        assert_eq!(
            params.geo_transform,
            GdalDatasetGeoTransform {
                origin_coordinate: (bits_of(50.), bits_of(55.)),
                x_pixel_size: bits_of(1.),
                y_pixel_size: bits_of(-1.),
            }
        );
        assert_eq!(params.width, 5);
        assert_eq!(params.height, 5);
        assert_eq!(params.file_not_found_handling, FileNotFoundHandling::Error);
        assert_eq!(params.no_data_value, Some(bits_of(-9999.0)));
        assert!(params.allow_alphaband_as_mask);
    }
}

#[test]
fn a_reference_decides_on_the_description() {
    assert!(matches!(descriptor_source(None), DescriptorSource::Dataset));
    assert!(matches!(
        descriptor_source(Some("EPSG:4326".to_string())),
        DescriptorSource::WithReference(sref) if sref == "EPSG:4326"
    ));
}

#[test]
fn test_index_subdataset() {
    let mut indexing = SubdatasetIndexing::new(metric_1("tmp/metric_1"), years(), None, 0, 1);
    let mut files = BTreeSet::new();
    let mut stats = StatsForGroup::new();
    let mut overviews = BTreeMap::new();
    let end = run_index_noting(
        &mut indexing,
        &mut files,
        &mut stats,
        &mut |_| (None, None),
        &mut overviews,
    );
    assert!(matches!(end, IndexAction::Created));

    for entity in 0..3 {
        for year in 2000..=2002 {
            let path = format!("tmp/metric_1/{entity}/{year}-01-01T00:00:00.000Z.tiff");
            assert!(files.contains(&path), "{}", path);
        }
        let path = format!("tmp/metric_1/{entity}/loading_info.json");
        assert!(files.contains(&path), "{}", path);
    }
    // three directories, nine overviews and three files that tell how to load them
    assert_eq!(files.len(), 15);

    let overview = &overviews["tmp/metric_1/1/loading_info.json"];
    let coverage = TimeCoverage { time_stamps: years() };
    let loading_info = generate_loading_info("descriptor", &small_overview(overview), &coverage);
    assert_eq!(loading_info.result_descriptor, "descriptor");
    check_slices(
        &loading_info,
        &[
            (946_684_800_000, "tmp/metric_1/1/2000-01-01T00:00:00.000Z.tiff"),
            (978_307_200_000, "tmp/metric_1/1/2001-01-01T00:00:00.000Z.tiff"),
            (1_009_843_200_000, "tmp/metric_1/1/2002-01-01T00:00:00.000Z.tiff"),
        ],
    );
}

#[test]
fn indexing_takes_one_action_after_the_other() {
    let mut indexing = SubdatasetIndexing::new(
        metric_1("out/metric_1"),
        years(),
        Some(ResamplingMethod::CubicSpline),
        4,
        6,
    );
    let mut stats = StatsForGroup::new();

    assert!(matches!(
        indexing.action(),
        IndexAction::CheckOutput(path) if path == "out/metric_1"
    ));
    // an event that answers another action changes nothing
    indexing.advance(IndexEvent::LoadingInfoWritten, &mut stats);
    assert!(matches!(indexing.action(), IndexAction::CheckOutput(_)));

    indexing.advance(IndexEvent::OutputChecked(false), &mut stats);
    assert!(matches!(
        indexing.action(),
        IndexAction::OpenSubdataset(path) if path == "NETCDF:\"netcdf4d/dataset_m.nc\""
    ));
    indexing.advance(IndexEvent::SubdatasetOpened(config()), &mut stats);
    match indexing.action() {
        IndexAction::ReportProgress(status) => {
            assert_eq!(status.message, "Processing 5 of 6 subdatasets; Entity 0 of 3");
            assert_eq!(status.conversion_index, 4);
            assert_eq!(status.number_of_conversions, 6);
            assert_eq!(status.entity, 0);
            assert_eq!(status.number_of_other_entities, 3);
        }
        other => panic!("{:?}", other),
    }
    indexing.advance(IndexEvent::ProgressReported, &mut stats);
    assert!(matches!(
        indexing.action(),
        IndexAction::CreateDirectory(path) if path == "out/metric_1/0"
    ));
    indexing.advance(IndexEvent::DirectoryCreated, &mut stats);
    match indexing.action() {
        IndexAction::CreateTiff(job) => {
            assert_eq!(job.destination, "out/metric_1/0/2000-01-01T00:00:00.000Z.tiff");
            assert_eq!(
                job.sref_dataset,
                "NETCDF:\"netcdf4d/dataset_m.nc\":/metric_1/ebv_cube"
            );
            assert_eq!(
                job.options,
                texts(&[
                    "-array",
                    "name=//metric_1/ebv_cube,view=[0,0,:,:]",
                    "-of",
                    "COG",
                    "-co",
                    "COMPRESS=ZSTD",
                    "-co",
                    "LEVEL=9",
                    "-co",
                    "NUM_THREADS=ALL_CPUS",
                    "-co",
                    "BLOCKSIZE=512",
                    "-co",
                    "BIGTIFF=IF_SAFER",
                    "-co",
                    "RESAMPLING=CUBICSPLINE",
                ])
            );
        }
        other => panic!("{:?}", other),
    }
    for sref_string in [Some("EPSG:4326"), Some("EPSG:3857"), None] {
        indexing.advance(
            IndexEvent::TiffCreated {
                min_max: None,
                sref_string: sref_string.map(|s| s.to_string()),
            },
            &mut stats,
        );
    }
    match indexing.action() {
        IndexAction::WriteLoadingInfo { overview, sref_string, file } => {
            assert_eq!(overview, "out/metric_1/0/2000-01-01T00:00:00.000Z.tiff");
            assert_eq!(sref_string.as_deref(), Some("EPSG:3857"));
            assert_eq!(file, "out/metric_1/0/loading_info.json");
        }
        other => panic!("{:?}", other),
    }
    assert_eq!(stats.get("/metric_1"), None);
    indexing.advance(IndexEvent::LoadingInfoWritten, &mut stats);
    assert_eq!(stats.get("/metric_1"), Some(ValueRange::empty()));
    assert!(matches!(indexing.action(), IndexAction::ReportProgress(s) if s.entity == 1));

    indexing.advance(IndexEvent::Failed, &mut stats);
    assert!(matches!(indexing.action(), IndexAction::Failed));
    indexing.advance(IndexEvent::ProgressReported, &mut stats);
    assert!(matches!(indexing.action(), IndexAction::Failed));
}

#[test]
fn existing_output_is_skipped() {
    let mut indexing = SubdatasetIndexing::new(metric_1("out"), years(), None, 0, 1);
    let mut files = BTreeSet::from(["out".to_string()]);
    let end =
        run_index(&mut indexing, &mut files, &mut StatsForGroup::new(), &mut |_| (None, None));
    assert!(matches!(end, IndexAction::Skipped));
    assert_eq!(files.len(), 1);
}

#[test]
fn without_points_in_time_there_are_no_overviews() {
    let mut indexing = SubdatasetIndexing::new(metric_1("out"), vec![], None, 0, 1);
    let mut files = BTreeSet::new();
    let end =
        run_index(&mut indexing, &mut files, &mut StatsForGroup::new(), &mut |_| (None, None));
    assert!(matches!(end, IndexAction::NoOverviewsGeneratedForSource(path) if path == "out"));
    assert_eq!(files, BTreeSet::from(["out/0".to_string()]));
}

#[test]
fn without_entities_there_is_nothing_to_write() {
    let mut conversion = metric_1("out");
    conversion.number_of_entities = 0;
    let mut indexing = SubdatasetIndexing::new(conversion, vec![], None, 0, 1);
    let mut files = BTreeSet::new();
    let mut stats = StatsForGroup::new();
    let end = run_index(&mut indexing, &mut files, &mut stats, &mut |_| (None, None));
    assert!(matches!(end, IndexAction::Created));
    assert!(files.is_empty());
    assert_eq!(stats.get("/metric_1"), None);
}

#[test]
fn the_range_covers_all_overviews() {
    let mut indexing = SubdatasetIndexing::new(metric_1("out"), years(), None, 0, 1);
    let mut stats = StatsForGroup::new();
    stats.insert("other".to_string(), ValueRange::empty());
    let mut ranges = vec![
        Some((bits_of(3.0), bits_of(4.0))),
        None,
        Some((bits_of(f64::NAN), bits_of(7.5))),
        Some((bits_of(-2.0), bits_of(f64::NAN))),
        None,
        None,
        Some((bits_of(0.0), bits_of(1.0))),
        None,
        None,
    ]
    .into_iter();
    let end = run_index(&mut indexing, &mut BTreeSet::new(), &mut stats, &mut |_| {
        (ranges.next().unwrap(), None)
    });
    assert!(matches!(end, IndexAction::Created));
    assert_eq!(
        stats.get("/metric_1"),
        Some(ValueRange { min: bits_of(-2.0), max: bits_of(7.5) })
    );
    assert_eq!(stats.get("other"), Some(ValueRange::empty()));
}

#[test]
fn ranges_are_replaced() {
    let mut stats = StatsForGroup::new();
    assert_eq!(stats.get("a"), None);
    let first = ValueRange::empty().widen(bits_of(1.0), bits_of(2.0));
    let second = first.widen(bits_of(-1.0), bits_of(-1.0));
    stats.insert("a".to_string(), first);
    stats.insert("b".to_string(), second);
    assert_eq!(stats.get("a"), Some(ValueRange { min: bits_of(1.0), max: bits_of(2.0) }));
    stats.insert("a".to_string(), second);
    assert_eq!(stats.get("a"), Some(ValueRange { min: bits_of(-1.0), max: bits_of(2.0) }));
    assert_eq!(stats.get("b"), stats.get("a"));
}

#[test]
fn progress_is_reported() {
    assert_eq!(
        emit_subtask_status(0, 1, 2, 3).message,
        "Processing 1 of 1 subdatasets; Entity 2 of 3"
    );
}

#[test]
fn creation_options_have_defaults() {
    let config = GdalConfig {
        compression_num_threads: "4".to_string(),
        compression_algorithm: None,
        compression_z_level: None,
    };
    assert_eq!(
        pairs(&CogRasterCreationOptions::new(&config, None).options()),
        [
            ("COMPRESS", "LZW"),
            ("LEVEL", "6"),
            ("NUM_THREADS", "4"),
            ("BLOCKSIZE", "512"),
            ("BIGTIFF", "IF_SAFER"),
            ("RESAMPLING", "NEAREST"),
        ]
    );
}

#[test]
fn resampling_methods_have_names() {
    let all = [
        (ResamplingMethod::Nearest, "NEAREST"),
        (ResamplingMethod::Average, "AVERAGE"),
        (ResamplingMethod::Bilinear, "BILINEAR"),
        (ResamplingMethod::Cubic, "CUBIC"),
        (ResamplingMethod::CubicSpline, "CUBICSPLINE"),
        (ResamplingMethod::Lanczos, "LANCZOS"),
    ];
    for (method, name) in all {
        assert_eq!(method.to_string(), name);
    }
}

#[test]
fn groups_are_flattened() {
    let root = group(
        "root",
        vec![
            group(
                "a",
                vec![group("b", vec![], vec![array("deep", 1)])],
                vec![array("shallow", 2)],
            ),
            group("c", vec![], vec![]),
        ],
        vec![array("top", 3)],
    );
    let flat: Vec<(Vec<String>, String)> =
        root.flatten().into_iter().map(|(path, array)| (path, array.name)).collect();
    assert_eq!(
        flat,
        [
            (texts(&["a", "b"]), "deep".to_string()),
            (texts(&["a"]), "shallow".to_string()),
            (texts(&[]), "top".to_string()),
        ]
    );

    let conversions = root.conversion_metadata("/data/file.nc", "/overviews/file.nc");
    let summary: Vec<(&str, &str, &str, usize)> = conversions
        .iter()
        .map(|c| {
            (
                c.dataset_in.as_str(),
                c.dataset_out_base.as_str(),
                c.array_path.as_str(),
                c.number_of_entities,
            )
        })
        .collect();
    assert_eq!(
        summary,
        [
            ("NETCDF:\"/data/file.nc\"", "/overviews/file.nc/a/b", "a/b/deep", 1),
            ("NETCDF:\"/data/file.nc\"", "/overviews/file.nc/a", "a/shallow", 2),
            ("NETCDF:\"/data/file.nc\"", "/overviews/file.nc/", "top", 3),
        ]
    );
}

#[test]
fn dimensions_are_no_arrays() {
    let dimension =
        |name: &str, size: usize| SourceDimension { name: name.to_string(), size };
    let source = SourceGroup {
        name: "root".to_string(),
        groups: vec![],
        dimension_names: texts(&["time", "entity"]),
        arrays: vec![
            SourceArray { name: "time".to_string(), dimensions: vec![] },
            SourceArray {
                name: "cube".to_string(),
                dimensions: vec![dimension("entity", 4), dimension("time", 9)],
            },
            SourceArray { name: "flat".to_string(), dimensions: vec![dimension("time", 9)] },
        ],
    };
    let tree = source.group_tree();
    assert_eq!(tree.name, "root");
    let arrays: Vec<(&str, usize)> =
        tree.arrays.iter().map(|a| (a.name.as_str(), a.number_of_entities)).collect();
    assert_eq!(arrays, [("cube", 4), ("flat", 0)]);
}

#[test]
fn arrays_without_data_are_not_listed() {
    assert_eq!(
        array_names_options(),
        [
            ("SHOW_ZERO_DIM", "NO"),
            ("SHOW_COORDINATES", "NO"),
            ("SHOW_INDEXING", "NO"),
            ("SHOW_BOUNDS", "NO"),
            ("SHOW_TIME", "NO"),
            ("GROUP_BY", "SAME_DIMENSION"),
        ]
    );
}

/// Runs a creation on a set of paths. Rows of the database are paths too.
fn run_creation(files: &mut BTreeSet<String>, fail_at: &str) -> CreationAction {
    run_creation_noting("dataset_m.nc", &years, files, fail_at, &mut BTreeMap::new())
}

/// Creates the overviews of a file on a set of paths, and notes of which overview each file tells
/// how to load it. The action that is named fails.
fn run_creation_noting(
    file: &str,
    times: &dyn Fn() -> Vec<TimeStep>,
    files: &mut BTreeSet<String>,
    fail_at: &str,
    overviews: &mut BTreeMap<String, String>,
) -> CreationAction {
    let source = format!("netcdf4d/{file}");
    let folder = format!("overviews/{file}");
    let mut creation = OverviewCreation::new(&source, &folder);
    let mut stats = StatsForGroup::new();
    loop {
        let action = creation.action();
        let name = format!("{:?}", action);
        let event = if !fail_at.is_empty() && name.starts_with(fail_at) {
            CreationEvent::Failed
        } else {
            match action {
                CreationAction::CheckFolder(path) => {
                    CreationEvent::FolderChecked(files.contains(&path))
                }
                CreationAction::CreateFolder(path) => {
                    files.insert(path);
                    CreationEvent::FolderCreated
                }
                CreationAction::CheckDirectory(path) => {
                    CreationEvent::DirectoryChecked(files.contains(&path))
                }
                CreationAction::CreateFlag(path) => {
                    if files.insert(path) {
                        CreationEvent::FlagCreated
                    } else {
                        CreationEvent::Failed
                    }
                }
                CreationAction::OpenDataset(path) => {
                    assert_eq!(path, source);
                    CreationEvent::DatasetOpened(dataset_m())
                }
                CreationAction::IndexArray { conversion, index, number_of_conversions } => {
                    assert!(files.contains(&format!("{folder}/.in_progress")));
                    let mut indexing = SubdatasetIndexing::new(
                        conversion,
                        times(),
                        None,
                        index,
                        number_of_conversions,
                    );
                    match run_index_noting(
                        &mut indexing,
                        files,
                        &mut stats,
                        &mut |_| (None, None),
                        overviews,
                    ) {
                        IndexAction::Created => {
                            CreationEvent::ArrayIndexed(OverviewGeneration::Created)
                        }
                        IndexAction::Skipped => {
                            CreationEvent::ArrayIndexed(OverviewGeneration::Skipped)
                        }
                        _ => CreationEvent::Failed,
                    }
                }
                CreationAction::ReportStatus(message) => {
                    assert_eq!(message, "Collecting metadata");
                    CreationEvent::StatusReported
                }
                CreationAction::StoreMetadata => {
                    files.insert("row".to_string());
                    CreationEvent::MetadataStored(OverviewGeneration::Created)
                }
                CreationAction::RemoveFlag(path) => {
                    assert!(files.remove(&path));
                    CreationEvent::FlagRemoved
                }
                CreationAction::DropFlag(path) => {
                    files.remove(&path);
                    CreationEvent::FlagDropped
                }
                end => return end,
            }
        };
        creation.advance(event);
    }
}

#[test]
fn test_create_overviews() {
    let mut files = BTreeSet::new();
    assert!(matches!(run_creation(&mut files, ""), CreationAction::Created));

    for metric in ["metric_1", "metric_2"] {
        for entity in 0..3 {
            for year in ["2000", "2001", "2002"] {
                assert!(files.contains(&format!(
                    "overviews/dataset_m.nc/{metric}/{entity}/{year}-01-01T00:00:00.000Z.tiff"
                )));
            }
            assert!(files
                .contains(&format!("overviews/dataset_m.nc/{metric}/{entity}/loading_info.json")));
        }
    }
    assert!(files.contains("row"));
    assert!(!files.contains("overviews/dataset_m.nc/.in_progress"));
}

#[test]
fn test_create_overviews_irregular() {
    let times = || {
        steps(&[
            (-2_208_988_800_000, "1900-01-01T00:00:00.000Z"),
            (1_420_070_400_000, "2015-01-01T00:00:00.000Z"),
            (2_682_374_400_000, "2055-01-01T00:00:00.000Z"),
        ])
    };
    let mut files = BTreeSet::new();
    let mut overviews = BTreeMap::new();
    let end = run_creation_noting("dataset_irr_ts.nc", &times, &mut files, "", &mut overviews);
    assert!(matches!(end, CreationAction::Created));

    for metric in ["metric_1", "metric_2"] {
        for entity in 0..3 {
            let folder = format!("overviews/dataset_irr_ts.nc/{metric}/{entity}");
            for year in ["1900", "2015", "2055"] {
                assert!(files.contains(&format!("{folder}/{year}-01-01T00:00:00.000Z.tiff")));
            }
            assert!(files.contains(&format!("{folder}/loading_info.json")));
        }
    }

    let overview = &overviews["overviews/dataset_irr_ts.nc/metric_2/0/loading_info.json"];
    let coverage = TimeCoverage { time_stamps: times() };
    check_slices(
        &generate_loading_info("descriptor", &small_overview(overview), &coverage),
        &[
            (
                -2_208_988_800_000,
                "overviews/dataset_irr_ts.nc/metric_2/0/1900-01-01T00:00:00.000Z.tiff",
            ),
            (
                1_420_070_400_000,
                "overviews/dataset_irr_ts.nc/metric_2/0/2015-01-01T00:00:00.000Z.tiff",
            ),
            (
                2_682_374_400_000,
                "overviews/dataset_irr_ts.nc/metric_2/0/2055-01-01T00:00:00.000Z.tiff",
            ),
        ],
    );
}

#[test]
fn a_failed_creation_leaves_no_flag() {
    for action in
        ["OpenDataset", "IndexArray", "ReportStatus", "StoreMetadata", "RemoveFlag"]
    {
        let mut files = BTreeSet::new();
        assert!(matches!(run_creation(&mut files, action), CreationAction::Failed));
        assert!(!files.contains("overviews/dataset_m.nc/.in_progress"), "{}", action);
    }
    for action in ["CheckFolder", "CreateFolder", "CheckDirectory", "CreateFlag"] {
        let mut files = BTreeSet::new();
        assert!(matches!(run_creation(&mut files, action), CreationAction::Failed));
        assert!(files.len() <= 1, "{}", action);
    }
}

#[test]
fn the_flag_of_another_creation_is_kept() {
    let folder = "overviews/dataset_m.nc".to_string();
    let mut files = BTreeSet::from([folder.clone(), folder + "/.in_progress"]);
    let before = files.clone();
    assert!(matches!(run_creation(&mut files, ""), CreationAction::Failed));
    assert_eq!(files, before);
    // the other creation is still in progress
    assert!(matches!(
        run_removal(&mut files, false),
        RemovalAction::CannotRemoveOverviewsWhileCreationIsInProgress
    ));
}

#[test]
fn a_creation_that_is_given_up_has_a_flag_to_clean_up() {
    let mut creation = OverviewCreation::new("file.nc", "folder");
    assert_eq!(creation.held_flag(), None);
    creation.advance(CreationEvent::FolderChecked(true));
    creation.advance(CreationEvent::DirectoryChecked(true));
    assert_eq!(creation.held_flag(), None);
    creation.advance(CreationEvent::FlagCreated);
    assert_eq!(creation.held_flag().as_deref(), Some("folder/.in_progress"));
    creation.advance(CreationEvent::Failed);
    assert_eq!(creation.held_flag().as_deref(), Some("folder/.in_progress"));
    creation.advance(CreationEvent::FlagDropped);
    assert_eq!(creation.held_flag(), None);
}

#[test]
fn existing_overviews_are_kept() {
    let folder = "overviews/dataset_m.nc".to_string();
    let mut files = BTreeSet::from([folder.clone(), folder + "/metric_1"]);
    let before = files.clone();
    assert!(matches!(run_creation(&mut files, ""), CreationAction::Skipped));
    assert_eq!(files, before);
}

#[test]
fn a_folder_must_be_a_directory() {
    let mut creation = OverviewCreation::new("file.nc", "folder");
    creation.advance(CreationEvent::FolderChecked(true));
    creation.advance(CreationEvent::DirectoryChecked(false));
    assert!(matches!(
        creation.action(),
        CreationAction::InvalidDirectory(path) if path == "folder"
    ));
}

#[test]
fn skipped_metadata_skips_the_creation() {
    let mut creation = OverviewCreation::new("file.nc", "folder");
    creation.advance(CreationEvent::FolderChecked(true));
    creation.advance(CreationEvent::DirectoryChecked(true));
    creation.advance(CreationEvent::FlagCreated);
    creation.advance(CreationEvent::DatasetOpened(group("root", vec![], vec![])));
    assert!(matches!(creation.action(), CreationAction::ReportStatus(_)));
    creation.advance(CreationEvent::StatusReported);
    creation.advance(CreationEvent::MetadataStored(OverviewGeneration::Skipped));
    assert!(matches!(
        creation.action(),
        CreationAction::DropFlag(path) if path == "folder/.in_progress"
    ));
    creation.advance(CreationEvent::FlagDropped);
    assert!(matches!(creation.action(), CreationAction::Skipped));
}

#[test]
fn the_flag_lies_in_the_folder() {
    let flag = InProgressFlag::create("folder", true).unwrap();
    assert_eq!(flag.path(), "folder/.in_progress");
    assert_eq!(InProgressFlag::path_in("folder/"), "folder/.in_progress");
    assert_eq!(InProgressFlag::create("folder", false).unwrap_err().folder, "folder");
    assert!(InProgressFlag::is_in_progress(true, true));
    assert!(!InProgressFlag::is_in_progress(true, false));
    assert!(!InProgressFlag::is_in_progress(false, true));
    assert_eq!(METADATA_FILE_NAME, "metadata.json");
    assert_eq!(LOADING_INFO_FILE_NAME, "loading_info.json");
}

fn run_removal(files: &mut BTreeSet<String>, force: bool) -> RemovalAction {
    let mut removal = OverviewRemoval::new("dataset_m.nc", "overviews/dataset_m.nc", force);
    loop {
        let event = match removal.action() {
            RemovalAction::CheckFolder(path) => {
                RemovalEvent::FolderChecked(files.contains(&path))
            }
            RemovalAction::CheckProgress { folder, flag } => RemovalEvent::ProgressChecked {
                is_dir: files.contains(&folder),
                flag_exists: files.contains(&flag),
            },
            RemovalAction::DeleteRows { statement, file_name } => {
                assert_eq!(statement, "DELETE FROM overviews WHERE file_name = $1");
                assert_eq!(file_name, "dataset_m.nc");
                files.remove("row");
                RemovalEvent::RowsDeleted
            }
            RemovalAction::RemoveFolder(path) => {
                files.retain(|file| !file.starts_with(&path));
                RemovalEvent::FolderRemoved
            }
            end => return end,
        };
        removal.advance(event);
    }
}

#[test]
fn test_remove_overviews() {
    let mut files = BTreeSet::new();
    assert!(matches!(run_creation(&mut files, ""), CreationAction::Created));
    assert!(!files.is_empty());
    assert!(matches!(run_removal(&mut files, false), RemovalAction::Removed));
    assert!(files.is_empty());
    assert!(matches!(run_removal(&mut files, false), RemovalAction::Removed));
}

#[test]
fn overviews_in_progress_are_removed_by_force_only() {
    let folder = "overviews/dataset_m.nc".to_string();
    let mut files = BTreeSet::from([folder.clone(), folder + "/.in_progress"]);
    let before = files.clone();
    assert!(matches!(
        run_removal(&mut files, false),
        RemovalAction::CannotRemoveOverviewsWhileCreationIsInProgress
    ));
    assert_eq!(files, before);
    assert!(matches!(run_removal(&mut files, true), RemovalAction::Removed));
    assert!(files.is_empty());
}

#[test]
fn a_failed_removal_stops() {
    let mut removal = OverviewRemoval::new("a.nc", "folder", true);
    removal.advance(RemovalEvent::FolderChecked(true));
    assert!(matches!(removal.action(), RemovalAction::DeleteRows { .. }));
    removal.advance(RemovalEvent::Failed);
    assert!(matches!(removal.action(), RemovalAction::Failed));
    removal.advance(RemovalEvent::RowsDeleted);
    assert!(matches!(removal.action(), RemovalAction::Failed));
}

fn metadata_group(name: &str, groups: Vec<MetadataGroup>) -> MetadataGroup {
    MetadataGroup {
        name: name.to_string(),
        title: format!("title of {name}"),
        description: "description".to_string(),
        data_range: Some((bits_of(0.0), bits_of(1.0))),
        unit: "unit".to_string(),
        data_type: None,
        groups,
    }
}

#[test]
fn metadata_is_stored() {
    let metadata = NetCdfMetadata {
        overview: OverviewRow {
            file_name: "a.nc".to_string(),
            title: "A".to_string(),
            summary: "summary".to_string(),
            spatial_reference: "EPSG:4326".to_string(),
            colorizer: "{}".to_string(),
            creator_name: None,
            creator_email: Some("a@example.org".to_string()),
            creator_institution: None,
        },
        groups: vec![
            metadata_group("a", vec![metadata_group("b", vec![]), metadata_group("c", vec![])]),
            metadata_group("d", vec![]),
        ],
        entities: vec![
            MetadataEntity { id: 0, name: "first".to_string() },
            MetadataEntity { id: 1, name: "second".to_string() },
        ],
        time_steps: vec![10, 20],
    };
    let statements = store_db_metadata(&metadata);
    let sql: Vec<&str> = statements.iter().map(|statement| statement.sql()).collect();
    assert_eq!(
        sql,
        [
            DELETE_OVERVIEWS,
            INSERT_OVERVIEW,
            INSERT_GROUP,
            INSERT_GROUP,
            INSERT_GROUP,
            INSERT_GROUP,
            INSERT_ENTITY,
            INSERT_ENTITY,
            INSERT_TIMESTAMP,
            INSERT_TIMESTAMP,
        ]
    );
    assert!(matches!(
        &statements[0],
        MetadataStatement::DeleteOverview { file_name } if file_name == "a.nc"
    ));
    assert!(matches!(
        &statements[1],
        MetadataStatement::InsertOverview(row)
            if row.title == "A" && row.creator_email.as_deref() == Some("a@example.org")
    ));
    let expected =
        [vec!["d"], vec!["a"], vec!["a", "c"], vec!["a", "b"]];
    for (statement, path) in statements[2..6].iter().zip(&expected) {
        match statement {
            MetadataStatement::InsertGroup { file_name, name, title, data_range, .. } => {
                assert_eq!(file_name, "a.nc");
                assert_eq!(name, path);
                assert_eq!(title, &format!("title of {}", path[path.len() - 1]));
                assert_eq!(*data_range, Some((bits_of(0.0), bits_of(1.0))));
            }
            other => panic!("{:?}", other),
        }
    }
    assert!(matches!(
        &statements[7],
        MetadataStatement::InsertEntity { file_name, id: 1, name }
            if file_name == "a.nc" && name == "second"
    ));
    assert!(matches!(
        &statements[8],
        MetadataStatement::InsertTimestamp { file_name, time: 10 } if file_name == "a.nc"
    ));
}
