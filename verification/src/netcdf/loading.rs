//! What a reader needs to load overviews: one slice per point in time.

use crate::float_bits::Real;
use crate::netcdf::{indexing, tiff};
use crate::text;
use crate::text::sibling;
use vstd::prelude::*;
use vstd::string::*;

verus! {

/// A point in time in milliseconds since the epoch, with its date and time as text.
#[derive(Debug)]
pub struct TimeStep {
    pub millis: i64,
    pub text: String,
}

/// The points in time that a dataset covers.
#[derive(Debug)]
pub struct TimeCoverage {
    pub time_stamps: Vec<TimeStep>,
}

/// The texts of points in time.
pub open spec fn time_texts(steps: Seq<TimeStep>) -> Seq<Seq<char>> {
    Seq::new(steps.len(), |i: int| steps[i].text@)
}

/// What is done if a file is missing.
#[derive(Debug, Clone, Copy, PartialEq, Eq, Structural)]
pub enum FileNotFoundHandling {
    NoData,
    Error,
}

/// Where pixels lie in space.
#[derive(Debug, Clone, Copy, PartialEq, Eq)]
pub struct GdalDatasetGeoTransform {
    pub origin_coordinate: (Real, Real),
    pub x_pixel_size: Real,
    pub y_pixel_size: Real,
}

/// How a raster file is read.
#[derive(Debug)]
pub struct GdalDatasetParameters {
    pub file_path: String,
    pub rasterband_channel: usize,
    pub geo_transform: GdalDatasetGeoTransform,
    pub width: usize,
    pub height: usize,
    pub file_not_found_handling: FileNotFoundHandling,
    pub no_data_value: Option<Real>,
    pub allow_alphaband_as_mask: bool,
}

impl GdalDatasetParameters {
    /// Whether both read alike, apart from the file.
    pub open spec fn reads_like(self, other: Self) -> bool {
        &&& self.rasterband_channel == other.rasterband_channel
        &&& self.geo_transform == other.geo_transform
        &&& self.width == other.width
        &&& self.height == other.height
        &&& self.file_not_found_handling == other.file_not_found_handling
        &&& self.no_data_value == other.no_data_value
        &&& self.allow_alphaband_as_mask == other.allow_alphaband_as_mask
    }

    /// The same parameters for another file.
    fn for_file(&self, file_path: String) -> (r: Self)
        ensures
            r.file_path == file_path,
            r.reads_like(*self),
    {
        Self {
            file_path,
            rasterband_channel: self.rasterband_channel,
            geo_transform: self.geo_transform,
            width: self.width,
            height: self.height,
            file_not_found_handling: self.file_not_found_handling,
            no_data_value: self.no_data_value,
            allow_alphaband_as_mask: self.allow_alphaband_as_mask,
        }
    }
}

/// What is loaded for a time interval, whose ends are in milliseconds since the epoch.
#[derive(Debug)]
pub struct GdalLoadingInfoTemporalSlice {
    pub time: (i64, i64),
    pub params: Option<GdalDatasetParameters>,
    pub cache_ttl: u32,
}

/// A list of slices with a description `D` of all of them.
#[derive(Debug)]
pub struct GdalMetaDataList<D> {
    pub result_descriptor: D,
    pub params: Vec<GdalLoadingInfoTemporalSlice>,
}

/// How the description of an overview is found.
#[derive(Debug)]
pub enum DescriptorSource {
    /// From the file, under the spatial reference that the text denotes.
    WithReference(String),
    /// From the file alone.
    Dataset,
}

/// Chooses how the description of an overview is found.
pub fn descriptor_source(sref_string: Option<String>) -> (r: DescriptorSource)
    ensures
        match sref_string {
            Some(sref) => r == DescriptorSource::WithReference(sref),
            None => r == DescriptorSource::Dataset,
        },
{
    match sref_string {
        Some(sref) => DescriptorSource::WithReference(sref),
        None => DescriptorSource::Dataset,
    }
}

/// Whether a slice loads the overview of one point in time: that instant, from the file next to
/// `params.file_path` that is named after it, and otherwise as `params` say.
pub open spec fn loads_step(
    slice: GdalLoadingInfoTemporalSlice,
    params: GdalDatasetParameters,
    step: TimeStep,
) -> bool {
    &&& slice.time == (step.millis, step.millis)
    &&& slice.cache_ttl == 0
    &&& slice.params matches Some(p) && p.reads_like(params) && p.file_path@ == text::sibling_path(
        params.file_path@,
        step.text@ + ".tiff"@,
    )
}

/// Lists one slice per point in time, in the order of the coverage.
pub fn generate_loading_info<D>(
    result_descriptor: D,
    params: &GdalDatasetParameters,
    time_coverage: &TimeCoverage,
) -> (r: GdalMetaDataList<D>)
    ensures
        r.result_descriptor == result_descriptor,
        r.params@.len() == time_coverage.time_stamps@.len(),
        forall|i: int|
            0 <= i < r.params@.len() ==> loads_step(
                #[trigger] r.params@[i],
                *params,
                time_coverage.time_stamps@[i],
            ),
{
    let mut slices: Vec<GdalLoadingInfoTemporalSlice> = Vec::new();
    for i in 0..time_coverage.time_stamps.len()
        invariant
            slices@.len() == i,
            forall|k: int|
                0 <= k < i ==> loads_step(
                    #[trigger] slices@[k],
                    *params,
                    time_coverage.time_stamps@[k],
                ),
    {
        let step = &time_coverage.time_stamps[i];
        let mut file_name = step.text.clone();
        file_name.append(".tiff");
        let file_path = sibling(params.file_path.as_str(), file_name.as_str());
        slices.push(
            GdalLoadingInfoTemporalSlice {
                time: (step.millis, step.millis),
                params: Some(params.for_file(file_path)),
                cache_ttl: 0,
            },
        );
    }
    GdalMetaDataList { result_descriptor, params: slices }
}

/// Parameters read like themselves, and parameters that read alike from the same file are the
/// same in everything.
pub proof fn law_reading_alike(a: GdalDatasetParameters, b: GdalDatasetParameters)
    ensures
        a.reads_like(a),
        a.reads_like(b) && a.file_path == b.file_path ==> a == b,
        a.reads_like(b) ==> b.reads_like(a),
{
}

/// What is loaded for a point in time is valid at that instant alone, and is the overview that was
/// written for it: of the same entity, and read like the first overview of the entity.
pub proof fn law_slice_loads_its_overview(
    slice: GdalLoadingInfoTemporalSlice,
    params: GdalDatasetParameters,
    step: TimeStep,
    base: Seq<char>,
    entity: nat,
    first: Seq<char>,
)
    requires
        loads_step(slice, params, step),
        params.file_path@ == tiff::overview_file(base, entity, first),
        !first.contains('/'),
        !step.text@.contains('/'),
    ensures
        slice.time.0 == step.millis,
        slice.time.1 == step.millis,
        slice.params matches Some(p) && {
            &&& p.file_path@ == tiff::overview_file(base, entity, step.text@)
            &&& p.rasterband_channel == params.rasterband_channel
            &&& p.geo_transform == params.geo_transform
            &&& (p.width, p.height) == (params.width, params.height)
            &&& p.file_not_found_handling == params.file_not_found_handling
            &&& p.no_data_value == params.no_data_value
            &&& p.allow_alphaband_as_mask == params.allow_alphaband_as_mask
        },
{
    indexing::law_loading_info_finds_overviews(base, entity, first, step.text@);
}

/// The text of a point in time stands where the point in time does.
pub proof fn law_texts_follow_times(steps: Seq<TimeStep>, i: int)
    requires
        0 <= i < steps.len(),
    ensures
        time_texts(steps).len() == steps.len(),
        time_texts(steps)[i] == steps[i].text@,
{
}

} // verus!
