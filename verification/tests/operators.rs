use geoengine_kernel::float_bits::Real;
use geoengine_kernel::operator::{InputRange, Operator, OperatorError};
use geoengine_kernel::pixel::PixelValue;
use geoengine_kernel::plot::{
    time_interval_projection, MeanCalculator, TemporalRasterMeanPlot,
    TemporalRasterMeanPlotParams, TemporalRasterMeanPlotQueryProcessor,
    TemporalRasterMeanPlotTimePosition, TimeInterval,
};
use geoengine_kernel::reprojection::{
    query_rewrite_fn, CheckedReprojection, Column, QueryRectangle, Reprojection,
    ReprojectionParams, ReprojectionProcessor, SpatialReference, SpatialReferenceAuthority,
    SpatialReferenceOption, TypedVectorQueryProcessor, VectorDataType, VectorResultDescriptor,
};
use geoengine_kernel::segmentation::{image_batch, segment, BandTile, Scores};

fn bits_of(value: f64) -> Real {
    Real { bits: value.to_bits() }
}

fn value_of(value: PixelValue) -> f64 {
    match value {
        PixelValue::Integer(value) => value as f64,
        PixelValue::Floating(value) => f64::from_bits(value.bits),
    }
}

fn step(mean: f64, value: PixelValue, n: usize) -> f64 {
    mean + (value_of(value) - mean) / n as f64
}

fn integers(values: &[i128]) -> Vec<PixelValue> {
    values.iter().map(|value| PixelValue::Integer(*value)).collect()
}

const Y1990: i64 = 631_152_000_000;
const Y1995: i64 = 788_918_400_000;
const Y2000: i64 = 946_684_800_000;
const Y2005: i64 = 1_104_537_600_000;

#[test]
fn single_raster() {
    let mut processor = TemporalRasterMeanPlot::<(), ()> {
        operator: Operator {
            params: TemporalRasterMeanPlotParams {
                time_position: TemporalRasterMeanPlotTimePosition::Center,
            },
            raster_sources: vec![()],
            vector_sources: vec![],
        },
    }
    .initialize()
    .unwrap()
    .query_processor(0.0);
    processor.calculate_means(
        TimeInterval::new(Y1990, Y2000).unwrap(),
        &integers(&[1, 2, 3, 4, 5, 6]),
        None,
        &step,
    );
    let plot = processor.generate_plot();
    assert_eq!(plot.timestamps, [Y1995]);
    assert_eq!(plot.values, [3.5]);
}

#[test]
fn raster_series() {
    let mut processor = TemporalRasterMeanPlotQueryProcessor::new(
        TemporalRasterMeanPlotTimePosition::Start,
        0.0,
    );
    let tiles = [
        (Y1990, Y1995, [1, 2, 3, 4, 5, 6]),
        (Y1995, Y2000, [9, 9, 8, 8, 8, 9]),
        (Y2000, Y2005, [3, 4, 5, 6, 7, 8]),
    ];
    for (start, end, values) in tiles {
        let time = TimeInterval::new(start, end).unwrap();
        processor.calculate_means(time, &integers(&values), None, &step);
    }
    let plot = processor.generate_plot();
    assert_eq!(plot.timestamps, [Y1990, Y1995, Y2000]);
    assert_eq!(plot.values, [3.5, 8.5, 5.5]);
}

#[test]
fn tiles_of_one_time_share_a_mean() {
    let mut processor = TemporalRasterMeanPlotQueryProcessor::new(
        TemporalRasterMeanPlotTimePosition::End,
        0.0,
    );
    let time = TimeInterval::new(0, 10).unwrap();
    let other = TimeInterval::new(-10, -5).unwrap();
    processor.calculate_means(time, &integers(&[1, 2]), None, &step);
    processor.calculate_means(other, &integers(&[7]), Some(PixelValue::Integer(7)), &step);
    processor.calculate_means(time, &integers(&[3, 4]), None, &step);
    assert_eq!(processor.count_at(time), 4);
    assert_eq!(processor.count_at(other), 0);
    let plot = processor.generate_plot();
    assert_eq!(plot.timestamps, [-5, 10]);
    assert_eq!(plot.values, [0.0, 2.5]);
}

#[test]
fn a_mean_covers_all_tiles_of_its_time() {
    let no_data = Some(PixelValue::Integer(0));
    let tiles = [(0, 10, vec![4, 0, 8]), (5, 7, vec![1]), (2, 10, vec![15, 16]), (3, 10, vec![0])];
    let mut processor = TemporalRasterMeanPlotQueryProcessor::new(
        TemporalRasterMeanPlotTimePosition::End,
        0.0,
    );
    for (start, end, values) in tiles {
        let time = TimeInterval::new(start, end).unwrap();
        processor.calculate_means(time, &integers(&values), no_data, &step);
    }
    let mut at_ten = MeanCalculator::new(0.0);
    at_ten.add(&integers(&[4, 8, 15, 16]), None, &step);
    let plot = processor.generate_plot();
    assert_eq!(plot.timestamps, [7, 10]);
    assert_eq!(plot.values, [1.0, at_ten.mean()]);
    assert_eq!(at_ten.mean(), 10.75);
}

#[test]
fn missing_data_do_not_count() {
    let mut mean = MeanCalculator::new(0.0);
    mean.add(&integers(&[1, 0, 5, 0]), Some(PixelValue::Integer(0)), &step);
    assert_eq!(mean.mean(), 3.0);
    assert_eq!(mean.count(), 2);

    let floats: Vec<PixelValue> = [1.0, f64::NAN, -9999.0, 2.0]
        .iter()
        .map(|value| PixelValue::Floating(bits_of(*value)))
        .collect();
    let mut mean = MeanCalculator::new(0.0);
    mean.add(&floats, Some(PixelValue::Floating(bits_of(-9999.0))), &step);
    assert_eq!(mean.mean(), 1.5);
    assert_eq!(mean.count(), 2);

    // nothing is the same as what is not a number
    let mut mean = MeanCalculator::new(0.0);
    mean.add(&floats, Some(PixelValue::Floating(bits_of(f64::NAN))), &step);
    assert_eq!(mean.count(), 3);
}

#[test]
fn a_mean_can_be_taken_in_parts() {
    let mut whole = MeanCalculator::new(0.0);
    whole.add(&integers(&[4, 8, 15, 16, 23, 42]), None, &step);
    let mut parts = MeanCalculator::new(0.0);
    parts.add(&integers(&[4, 8]), None, &step);
    parts.add(&integers(&[]), None, &step);
    parts.add(&integers(&[15, 16, 23, 42]), None, &step);
    assert_eq!(whole.mean().to_bits(), parts.mean().to_bits());
    assert_eq!(whole.count(), parts.count());
    parts.add(&integers(&[]), Some(PixelValue::Integer(4)), &step);
    assert_eq!(whole.mean().to_bits(), parts.mean().to_bits());
    assert_eq!(whole.count(), parts.count());
}

#[test]
fn intervals_are_projected() {
    let project = |start: i64, end: i64, position| {
        time_interval_projection(TimeInterval::new(start, end).unwrap(), position)
    };
    assert_eq!(project(-3, 4, TemporalRasterMeanPlotTimePosition::Start), -3);
    assert_eq!(project(-3, 4, TemporalRasterMeanPlotTimePosition::End), 4);
    assert_eq!(project(-3, 4, TemporalRasterMeanPlotTimePosition::Center), 0);
    assert_eq!(project(-4, -3, TemporalRasterMeanPlotTimePosition::Center), -4);
    assert_eq!(project(i64::MIN, i64::MAX, TemporalRasterMeanPlotTimePosition::Center), -1);
    assert_eq!(
        project(i64::MAX, i64::MAX, TemporalRasterMeanPlotTimePosition::Center),
        i64::MAX
    );
    let error = TimeInterval::new(1, 0).unwrap_err();
    assert_eq!((error.start, error.end), (1, 0));
}

fn plot(
    rasters: usize,
    vectors: usize,
) -> TemporalRasterMeanPlot<usize, usize> {
    TemporalRasterMeanPlot {
        operator: Operator {
            params: TemporalRasterMeanPlotParams {
                time_position: TemporalRasterMeanPlotTimePosition::Start,
            },
            raster_sources: (10..10 + rasters).collect(),
            vector_sources: (20..20 + vectors).collect(),
        },
    }
}

#[test]
fn a_plot_takes_one_raster() {
    let initialized = plot(1, 0).initialize().unwrap();
    assert_eq!(initialized.raster_source, 10);
    assert_eq!(
        initialized.params.time_position,
        TemporalRasterMeanPlotTimePosition::Start
    );
    assert!(matches!(
        plot(1, 2).initialize(),
        Err(OperatorError::InvalidNumberOfVectorInputs {
            expected: InputRange { start: 0, end: 1 },
            found: 2,
        })
    ));
    for rasters in [0, 2] {
        assert!(matches!(
            plot(rasters, 0).initialize(),
            Err(OperatorError::InvalidNumberOfVectorInputs {
                expected: InputRange { start: 1, end: 2 },
                found,
            }) if found == rasters
        ));
    }
}

const WGS84: SpatialReference =
    SpatialReference { authority: SpatialReferenceAuthority::Epsg, code: 4326 };
const MERCATOR: SpatialReference =
    SpatialReference { authority: SpatialReferenceAuthority::Epsg, code: 900913 };

fn reprojection(rasters: usize, vectors: usize) -> Reprojection<usize, usize> {
    Reprojection {
        operator: Operator {
            params: ReprojectionParams { target_spatial_reference: MERCATOR },
            raster_sources: (10..10 + rasters).collect(),
            vector_sources: (20..20 + vectors).collect(),
        },
    }
}

#[test]
fn a_reprojection_takes_one_vector_source() {
    let checked = reprojection(0, 1).initialize().unwrap();
    assert_eq!(checked.vector_source, 20);
    for vectors in [0, 2] {
        assert!(matches!(
            reprojection(1, vectors).initialize(),
            Err(OperatorError::InvalidNumberOfVectorInputs {
                expected: InputRange { start: 1, end: 2 },
                found,
            }) if found == vectors
        ));
    }
    assert!(matches!(
        reprojection(3, 1).initialize(),
        Err(OperatorError::InvalidNumberOfRasterInputs {
            expected: InputRange { start: 0, end: 1 },
            found: 3,
        })
    ));
}

#[test]
fn a_reprojection_changes_the_reference_only() {
    let checked = CheckedReprojection {
        params: ReprojectionParams { target_spatial_reference: MERCATOR },
        vector_source: (),
    };
    let initialized = checked.with_descriptor(&VectorResultDescriptor {
        spatial_reference: SpatialReferenceOption::SpatialReference(WGS84),
        data_type: VectorDataType::MultiPoint,
        columns: vec![Column { name: "a".to_string(), data_type: "int".to_string() }],
    });
    assert_eq!(
        initialized.result_descriptor.spatial_reference,
        SpatialReferenceOption::SpatialReference(MERCATOR)
    );
    assert_eq!(initialized.result_descriptor.data_type, VectorDataType::MultiPoint);
    assert_eq!(initialized.result_descriptor.columns.len(), 1);
    assert_eq!(initialized.result_descriptor.columns[0].name, "a");
    assert_eq!(initialized.state, (WGS84, MERCATOR));

    type Source = TypedVectorQueryProcessor<u8, u8, u8, u8>;
    match initialized.query_processor(Source::Data(1)) {
        TypedVectorQueryProcessor::Data(map) => {
            assert_eq!((map.source, map.from, map.to), (1, WGS84, MERCATOR));
        }
        other => panic!("{:?}", other),
    }
    for source in [Source::MultiPoint(2), Source::MultiLineString(2), Source::MultiPolygon(2)] {
        match initialized.query_processor(source) {
            TypedVectorQueryProcessor::MultiPoint(p)
            | TypedVectorQueryProcessor::MultiLineString(p)
            | TypedVectorQueryProcessor::MultiPolygon(p) => {
                assert_eq!((p.source, p.from, p.to), (2, WGS84, MERCATOR));
            }
            other => panic!("{:?}", other),
        }
    }
}

#[test]
fn queries_go_back_and_results_forth() {
    let project = |from: SpatialReference, to: SpatialReference, at: f64| {
        if (from, to) == (WGS84, MERCATOR) {
            at * 100.0
        } else if (from, to) == (MERCATOR, WGS84) {
            at / 100.0
        } else {
            unreachable!()
        }
    };
    let processor = ReprojectionProcessor::new((), WGS84, MERCATOR);
    let query = QueryRectangle { bbox: 500.0, time_interval: 7, spatial_resolution: 0.1 };
    let rewritten = processor.rewrite_query(query, &project);
    assert_eq!(
        (rewritten.bbox, rewritten.time_interval, rewritten.spatial_resolution),
        (5.0, 7, 0.1)
    );
    assert_eq!(query_rewrite_fn(query, WGS84, MERCATOR, &project).bbox, 5.0);
    assert_eq!(processor.map_result(Ok::<f64, &str>(5.0), &project), Ok(500.0));
    assert_eq!(processor.map_result(Err::<f64, &str>("lost"), &project), Err("lost"));
}

fn band(values: &[i128]) -> BandTile {
    BandTile::Grid { rows: 2, columns: 2, data: integers(values) }
}

#[test]
fn bands_are_stacked() {
    let tiles: Vec<BandTile> =
        (0..7).map(|b| band(&[b * 10, b * 10 + 1, b * 10 + 2, b * 10 + 3])).collect();
    let batch = image_batch(tiles).unwrap();
    assert_eq!((batch.images, batch.rows, batch.columns, batch.bands), (1, 2, 2, 7));
    let values: Vec<f64> = batch.data.into_iter().map(value_of).collect();
    assert_eq!(values.len(), 28);
    for pixel in 0..4 {
        for band in 0..7 {
            assert_eq!(values[pixel * 7 + band], (band * 10 + pixel) as f64);
        }
    }
}

#[test]
fn every_band_must_have_a_grid() {
    for replace in 0..7 {
        let mut tiles: Vec<BandTile> = (0..7).map(|_| band(&[0, 0, 0, 0])).collect();
        tiles[replace] = BandTile::Empty;
        assert!(image_batch(tiles).is_none());
        let mut tiles: Vec<BandTile> = (0..7).map(|_| band(&[0, 0, 0, 0])).collect();
        tiles[replace] = BandTile::Failed;
        assert!(image_batch(tiles).is_none());
    }
}

#[test]
fn an_image_can_be_empty() {
    let tiles = (0..7)
        .map(|_| BandTile::Grid { rows: 0, columns: 5, data: vec![] })
        .collect();
    let batch = image_batch(tiles).unwrap();
    assert_eq!((batch.rows, batch.columns), (0, 5));
    assert!(batch.data.is_empty());
}

#[test]
fn the_largest_score_decides() {
    let mut data = vec![bits_of(0.0); 512 * 512 * 3];
    let cases: [([f64; 3], usize); 9] = [
        ([0.1, 0.7, 0.2], 1),
        ([0.5, 0.5, 0.1], 1),
        ([0.3, 0.3, 0.3], 2),
        ([0.9, 0.05, 0.05], 0),
        ([-1.0, -2.0, -3.0], 0),
        ([f64::NAN, 0.0, -0.5], 1),
        ([0.2, f64::NAN, 0.1], 0),
        ([f64::NAN, f64::NAN, f64::NAN], 0),
        ([-0.0, -1.0, -1.0], 0),
    ];
    for (i, (scores, _)) in cases.iter().enumerate() {
        for (t, score) in scores.iter().enumerate() {
            data[(511 * 512 + i) * 3 + t] = bits_of(*score);
        }
    }
    let segmap = segment(&Scores { rows: 512, columns: 512, classes: 3, data });
    assert_eq!(segmap.len(), 512 * 512);
    for (i, (_, class)) in cases.iter().enumerate() {
        assert_eq!(segmap[511 * 512 + i], *class, "{}", i);
    }
    assert_eq!(segmap[0], 2);
}
