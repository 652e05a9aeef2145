//! Writing the overviews of one array, as a machine that names the next action and takes its
//! outcome.

use crate::float_bits::Real;
use crate::netcdf::groups::{ConversionMetadata, ConversionView};
use crate::netcdf::loading;
use crate::netcdf::loading::TimeStep;
use crate::netcdf::stats::{StatsForGroup, ValueRange};
use crate::netcdf::tiff;
use crate::netcdf::tiff::{
    create_subdataset_tiff, entity_directory_of, overview_file_of, CogRasterCreationOptions,
    GdalConfig, RasterCreationOption, ResamplingMethod, TiffJob,
};
use crate::text;
use crate::text::{cut_last_slash, decimal_text, sibling};
use vstd::prelude::*;
use vstd::string::*;

verus! {

/// The name of the file next to the overviews of an entity that tells how to load them.
pub const LOADING_INFO_FILE_NAME: &'static str = "loading_info.json";

/// How far the work on an array is.
#[derive(Debug, Clone, Copy, PartialEq, Eq, Structural)]
pub enum IndexPhase {
    CheckOutput,
    OpenSubdataset,
    ReportProgress,
    CreateDirectory,
    CreateTiff,
    WriteLoadingInfo,
    /// All overviews are written.
    Created,
    /// There was output already.
    Skipped,
    /// There are entities, but no points in time to write overviews for.
    NoOverviews,
    /// An action failed.
    Failed,
}

impl IndexPhase {
    /// Whether nothing is left to do.
    pub open spec fn over(self) -> bool {
        self is Created || self is Skipped || self is NoOverviews || self is Failed
    }

    /// Whether the work is on one of the entities.
    pub open spec fn on_entity(self) -> bool {
        self is ReportProgress || self is CreateDirectory || self is CreateTiff
            || self is WriteLoadingInfo
    }
}

/// The outcome of an action.
#[derive(Debug)]
pub enum IndexEvent {
    /// Whether the output exists.
    OutputChecked(bool),
    /// The dataset is open and the settings are known.
    SubdatasetOpened(GdalConfig),
    ProgressReported,
    DirectoryCreated,
    /// An overview is written. It has a range of values and a spatial reference if they were found.
    TiffCreated { min_max: Option<(Real, Real)>, sref_string: Option<String> },
    LoadingInfoWritten,
    /// The action failed.
    Failed,
}

/// A message on the progress, and the numbers in it.
#[derive(Debug)]
pub struct SubtaskStatus {
    pub conversion_index: usize,
    pub number_of_conversions: usize,
    pub entity: u32,
    pub number_of_other_entities: u32,
    pub message: String,
}

/// What is to be done next.
#[derive(Debug)]
pub enum IndexAction {
    /// Find out whether the path exists.
    CheckOutput(String),
    /// Open the dataset for reading, and look up the settings.
    OpenSubdataset(String),
    ReportProgress(SubtaskStatus),
    /// Create the directory and its parents.
    CreateDirectory(String),
    CreateTiff(TiffJob),
    /// Write how to load the overviews of an entity.
    WriteLoadingInfo {
        /// The first overview of the entity.
        overview: String,
        /// The spatial reference that was found last.
        sref_string: Option<String>,
        /// The file to write.
        file: String,
    },
    /// All overviews are written.
    Created,
    /// There was output already.
    Skipped,
    /// No overviews could be generated for the path.
    NoOverviewsGeneratedForSource(String),
    /// An action failed.
    Failed,
}

/// The state of the work on an array.
#[verifier::ext_equal]
pub struct IndexView {
    pub conversion: ConversionView,
    pub times: Seq<Seq<char>>,
    pub resampling_method: Option<ResamplingMethod>,
    pub conversion_index: usize,
    pub number_of_conversions: usize,
    pub options: Seq<(Seq<char>, Seq<char>)>,
    pub phase: IndexPhase,
    pub entity: nat,
    pub time_idx: nat,
    pub range: ValueRange,
    pub sref: Option<Seq<char>>,
}

impl IndexView {
    /// The number of entities.
    pub open spec fn entities(self) -> nat {
        self.conversion.number_of_entities as nat
    }

    /// Whether the positions fit the phase.
    pub open spec fn valid(self) -> bool {
        &&& self.conversion_index < usize::MAX
        &&& self.phase is CheckOutput || self.phase is OpenSubdataset ==> self.entity == 0
            && self.time_idx == 0 && self.range == ValueRange::nothing()
        &&& self.phase.on_entity() ==> self.entity < self.entities()
        &&& self.phase is ReportProgress || self.phase is CreateDirectory ==> self.time_idx == 0
            && self.sref is None
        &&& self.phase is CreateTiff ==> self.time_idx < self.times.len()
        &&& self.phase is WriteLoadingInfo ==> self.time_idx == self.times.len()
            && self.times.len() > 0
        &&& self.phase is Created ==> self.entity == self.entities() && self.time_idx == 0
    }

    /// The state in which work on an entity begins, or ends if there is none of that number.
    pub open spec fn at_entity(self, entity: nat) -> IndexView {
        IndexView {
            phase: if entity < self.entities() {
                IndexPhase::ReportProgress
            } else {
                IndexPhase::Created
            },
            entity,
            time_idx: 0,
            sref: None,
            ..self
        }
    }

    /// The state after an event. An event that answers another action than the current one
    /// changes nothing.
    pub open spec fn next(self, event: IndexEvent) -> IndexView {
        match (self.phase, event) {
            (IndexPhase::CheckOutput, IndexEvent::OutputChecked(exists_already)) => IndexView {
                phase: if exists_already {
                    IndexPhase::Skipped
                } else {
                    IndexPhase::OpenSubdataset
                },
                ..self
            },
            (IndexPhase::OpenSubdataset, IndexEvent::SubdatasetOpened(config)) => IndexView {
                options: tiff::cog_options(tiff::configured(config, self.resampling_method)),
                ..self.at_entity(0)
            },
            (IndexPhase::ReportProgress, IndexEvent::ProgressReported) => IndexView {
                phase: IndexPhase::CreateDirectory,
                ..self
            },
            (IndexPhase::CreateDirectory, IndexEvent::DirectoryCreated) => IndexView {
                phase: if self.times.len() == 0 {
                    IndexPhase::NoOverviews
                } else {
                    IndexPhase::CreateTiff
                },
                ..self
            },
            (
                IndexPhase::CreateTiff,
                IndexEvent::TiffCreated { min_max, sref_string },
            ) => IndexView {
                phase: if self.time_idx + 1 < self.times.len() {
                    IndexPhase::CreateTiff
                } else {
                    IndexPhase::WriteLoadingInfo
                },
                time_idx: self.time_idx + 1,
                range: match min_max {
                    Some((min, max)) => self.range.widened(min, max),
                    None => self.range,
                },
                sref: match sref_string {
                    Some(sref) => Some(sref@),
                    None => self.sref,
                },
                ..self
            },
            (IndexPhase::WriteLoadingInfo, IndexEvent::LoadingInfoWritten) => self.at_entity(
                self.entity + 1,
            ),
            (phase, IndexEvent::Failed) => if phase.over() {
                self
            } else {
                IndexView { phase: IndexPhase::Failed, ..self }
            },
            _ => self,
        }
    }

    /// The ranges per group after an event: the range so far is recorded for the group of the
    /// array whenever an entity is done.
    pub open spec fn recorded(
        self,
        event: IndexEvent,
        stats: Map<Seq<char>, ValueRange>,
    ) -> Map<Seq<char>, ValueRange> {
        if self.phase is WriteLoadingInfo && event is LoadingInfoWritten {
            match text::before_last_slash(self.conversion.array_path) {
                Some(group) => stats.insert(group, self.range),
                None => stats,
            }
        } else {
            stats
        }
    }

    /// The first overview of the current entity.
    pub open spec fn first_overview(self) -> Seq<char> {
        tiff::overview_file(self.conversion.dataset_out_base, self.entity, self.times[0])
    }
}

/// The message on the progress.
pub open spec fn progress_message(
    conversion_index: nat,
    number_of_conversions: nat,
    entity: nat,
    number_of_other_entities: nat,
) -> Seq<char> {
    "Processing "@ + text::decimal(conversion_index + 1) + " of "@ + text::decimal(
        number_of_conversions,
    ) + " subdatasets; Entity "@ + text::decimal(entity) + " of "@ + text::decimal(
        number_of_other_entities,
    )
}

/// The message on the progress, with the numbers in it.
pub fn emit_subtask_status(
    conversion_index: usize,
    number_of_conversions: usize,
    entity: u32,
    number_of_other_entities: u32,
) -> (r: SubtaskStatus)
    requires
        conversion_index < usize::MAX,
    ensures
        r.conversion_index == conversion_index,
        r.number_of_conversions == number_of_conversions,
        r.entity == entity,
        r.number_of_other_entities == number_of_other_entities,
        r.message@ == progress_message(
            conversion_index as nat,
            number_of_conversions as nat,
            entity as nat,
            number_of_other_entities as nat,
        ),
{
    let mut message = "Processing ".to_string();
    message.append(decimal_text(conversion_index + 1).as_str());
    message.append(" of ");
    message.append(decimal_text(number_of_conversions).as_str());
    message.append(" subdatasets; Entity ");
    message.append(decimal_text(entity as usize).as_str());
    message.append(" of ");
    message.append(decimal_text(number_of_other_entities as usize).as_str());
    SubtaskStatus {
        conversion_index,
        number_of_conversions,
        entity,
        number_of_other_entities,
        message,
    }
}

/// Writes the overviews of one array: for each entity a directory with one file per point in
/// time, and a file that tells how to load them.
#[derive(Debug)]
pub struct SubdatasetIndexing {
    conversion: ConversionMetadata,
    time_steps: Vec<TimeStep>,
    resampling_method: Option<ResamplingMethod>,
    conversion_index: usize,
    number_of_conversions: usize,
    options: Vec<RasterCreationOption>,
    phase: IndexPhase,
    entity: usize,
    time_idx: usize,
    range: ValueRange,
    sref: Option<String>,
}

impl View for SubdatasetIndexing {
    type V = IndexView;

    closed spec fn view(&self) -> IndexView {
        IndexView {
            conversion: self.conversion@,
            times: loading::time_texts(self.time_steps@),
            resampling_method: self.resampling_method,
            conversion_index: self.conversion_index,
            number_of_conversions: self.number_of_conversions,
            options: tiff::option_views(self.options@),
            phase: self.phase,
            entity: self.entity as nat,
            time_idx: self.time_idx as nat,
            range: self.range,
            sref: text::option_text(self.sref),
        }
    }
}

/// Whether an action is the one to take in a state.
pub open spec fn is_action(state: IndexView, action: IndexAction) -> bool {
    let base = state.conversion.dataset_out_base;
    match state.phase {
        IndexPhase::CheckOutput => action matches IndexAction::CheckOutput(path) && path@ == base,
        IndexPhase::OpenSubdataset => action matches IndexAction::OpenSubdataset(path) && path@
            == state.conversion.dataset_in,
        IndexPhase::ReportProgress => {
            &&& action matches IndexAction::ReportProgress(status)
            &&& status.conversion_index == state.conversion_index
            &&& status.number_of_conversions == state.number_of_conversions
            &&& status.entity == state.entity as u32
            &&& status.number_of_other_entities == state.conversion.number_of_entities as u32
            &&& status.message@ == progress_message(
                state.conversion_index as nat,
                state.number_of_conversions as nat,
                status.entity as nat,
                status.number_of_other_entities as nat,
            )
        },
        IndexPhase::CreateDirectory => action matches IndexAction::CreateDirectory(path) && path@
            == tiff::entity_directory(base, state.entity),
        IndexPhase::CreateTiff => {
            &&& action matches IndexAction::CreateTiff(job)
            &&& job.destination@ == tiff::overview_file(
                base,
                state.entity,
                state.times[state.time_idx as int],
            )
            &&& job.sref_dataset@ == state.conversion.dataset_in + ":"@
                + state.conversion.array_path
            &&& text::texts(job.options@) == tiff::extraction_options(
                state.conversion.array_path,
                state.entity,
                state.time_idx,
                state.options,
            )
        },
        IndexPhase::WriteLoadingInfo => {
            &&& action matches IndexAction::WriteLoadingInfo { overview, sref_string, file }
            &&& overview@ == state.first_overview()
            &&& text::option_text(sref_string) == state.sref
            &&& file@ == text::sibling_path(state.first_overview(), LOADING_INFO_FILE_NAME@)
        },
        IndexPhase::Created => action is Created,
        IndexPhase::Skipped => action is Skipped,
        IndexPhase::NoOverviews => action matches IndexAction::NoOverviewsGeneratedForSource(path)
            && path@ == base,
        IndexPhase::Failed => action is Failed,
    }
}

impl SubdatasetIndexing {
    /// Whether the positions fit the phase.
    pub open spec fn wf(&self) -> bool {
        self@.valid()
    }

    /// Starts the work on an array.
    pub fn new(
        conversion: ConversionMetadata,
        time_steps: Vec<TimeStep>,
        resampling_method: Option<ResamplingMethod>,
        conversion_index: usize,
        number_of_conversions: usize,
    ) -> (r: Self)
        requires
            conversion_index < usize::MAX,
        ensures
            r.wf(),
            r@ == (IndexView {
                conversion: conversion@,
                times: loading::time_texts(time_steps@),
                resampling_method,
                conversion_index,
                number_of_conversions,
                options: Seq::empty(),
                phase: IndexPhase::CheckOutput,
                entity: 0,
                time_idx: 0,
                range: ValueRange::nothing(),
                sref: None,
            }),
    {
        let options: Vec<RasterCreationOption> = Vec::new();
        assert(tiff::option_views(options@) =~= Seq::empty());
        Self {
            conversion,
            time_steps,
            resampling_method,
            conversion_index,
            number_of_conversions,
            options,
            phase: IndexPhase::CheckOutput,
            entity: 0,
            time_idx: 0,
            range: ValueRange::empty(),
            sref: None,
        }
    }

    /// The action to take.
    pub fn action(&self) -> (r: IndexAction)
        requires
            self.wf(),
        ensures
            is_action(self@, r),
    {
        match self.phase {
            IndexPhase::CheckOutput => IndexAction::CheckOutput(
                self.conversion.dataset_out_base.clone(),
            ),
            IndexPhase::OpenSubdataset => IndexAction::OpenSubdataset(
                self.conversion.dataset_in.clone(),
            ),
            IndexPhase::ReportProgress => IndexAction::ReportProgress(
                emit_subtask_status(
                    self.conversion_index,
                    self.number_of_conversions,
                    #[verifier::truncate] (self.entity as u32),
                    #[verifier::truncate] (self.conversion.number_of_entities as u32),
                ),
            ),
            IndexPhase::CreateDirectory => IndexAction::CreateDirectory(
                entity_directory_of(&self.conversion, self.entity),
            ),
            IndexPhase::CreateTiff => {
                assert(self@.times[self.time_idx as int] == self.time_steps@[self.time_idx as int].text@);
                IndexAction::CreateTiff(
                    create_subdataset_tiff(
                        self.time_steps[self.time_idx].text.as_str(),
                        &self.conversion,
                        self.entity,
                        &self.options,
                        self.time_idx,
                    ),
                )
            },
            IndexPhase::WriteLoadingInfo => {
                assert(self@.times[0] == self.time_steps@[0].text@);
                let overview = overview_file_of(
                    &self.conversion,
                    self.entity,
                    self.time_steps[0].text.as_str(),
                );
                let file = sibling(overview.as_str(), LOADING_INFO_FILE_NAME);
                IndexAction::WriteLoadingInfo { overview, sref_string: self.sref.clone(), file }
            },
            IndexPhase::Created => IndexAction::Created,
            IndexPhase::Skipped => IndexAction::Skipped,
            IndexPhase::NoOverviews => IndexAction::NoOverviewsGeneratedForSource(
                self.conversion.dataset_out_base.clone(),
            ),
            IndexPhase::Failed => IndexAction::Failed,
        }
    }

    fn start_entity(&mut self, entity: usize)
        ensures
            final(self)@ == old(self)@.at_entity(entity as nat),
    {
        self.phase = if entity < self.conversion.number_of_entities {
            IndexPhase::ReportProgress
        } else {
            IndexPhase::Created
        };
        self.entity = entity;
        self.time_idx = 0;
        self.sref = None;
    }

    /// Takes the outcome of the action, and records the range of values of a group.
    pub fn advance(&mut self, event: IndexEvent, stats_for_group: &mut StatsForGroup)
        requires
            old(self).wf(),
            old(stats_for_group).wf(),
        ensures
            final(self).wf(),
            final(self)@ == old(self)@.next(event),
            final(stats_for_group).wf(),
            final(stats_for_group)@ == old(self)@.recorded(event, old(stats_for_group)@),
    {
        match (self.phase, event) {
            (IndexPhase::CheckOutput, IndexEvent::OutputChecked(exists_already)) => {
                self.phase = if exists_already {
                    IndexPhase::Skipped
                } else {
                    IndexPhase::OpenSubdataset
                };
            },
            (IndexPhase::OpenSubdataset, IndexEvent::SubdatasetOpened(config)) => {
                self.options = CogRasterCreationOptions::new(
                    &config,
                    self.resampling_method,
                ).options();
                self.start_entity(0);
            },
            (IndexPhase::ReportProgress, IndexEvent::ProgressReported) => {
                self.phase = IndexPhase::CreateDirectory;
            },
            (IndexPhase::CreateDirectory, IndexEvent::DirectoryCreated) => {
                self.phase = if self.time_steps.len() == 0 {
                    IndexPhase::NoOverviews
                } else {
                    IndexPhase::CreateTiff
                };
            },
            (IndexPhase::CreateTiff, IndexEvent::TiffCreated { min_max, sref_string }) => {
                if let Some((min, max)) = min_max {
                    self.range = self.range.widen(min, max);
                }
                if let Some(sref) = sref_string {
                    self.sref = Some(sref);
                }
                let number_of_steps: usize = self.time_steps.len();
                self.time_idx = self.time_idx + 1;
                self.phase = if self.time_idx < number_of_steps {
                    IndexPhase::CreateTiff
                } else {
                    IndexPhase::WriteLoadingInfo
                };
            },
            (IndexPhase::WriteLoadingInfo, IndexEvent::LoadingInfoWritten) => {
                if let Some(group) = cut_last_slash(self.conversion.array_path.as_str()) {
                    stats_for_group.insert(group, self.range);
                }
                self.start_entity(self.entity + 1);
            },
            (phase, IndexEvent::Failed) => {
                match phase {
                    IndexPhase::Created
                    | IndexPhase::Skipped
                    | IndexPhase::NoOverviews
                    | IndexPhase::Failed => {},
                    _ => {
                        self.phase = IndexPhase::Failed;
                    },
                }
            },
            _ => {},
        }
    }
}

/// The state after all events.
pub open spec fn run(state: IndexView, events: Seq<IndexEvent>) -> IndexView
    decreases events.len(),
{
    if events.len() == 0 {
        state
    } else {
        run(state, events.drop_last()).next(events.last())
    }
}

/// Whether an event brings an overview that was asked for.
pub open spec fn brings_overview(state: IndexView, event: IndexEvent) -> bool {
    state.phase is CreateTiff && event is TiffCreated
}

/// The entities and points in time of the overviews that were written, in their order.
pub open spec fn written(state: IndexView, events: Seq<IndexEvent>) -> Seq<(nat, nat)>
    decreases events.len(),
{
    if events.len() == 0 {
        Seq::empty()
    } else {
        let rest = events.drop_last();
        let before = run(state, rest);
        if brings_overview(before, events.last()) {
            written(state, rest).push((before.entity, before.time_idx))
        } else {
            written(state, rest)
        }
    }
}

/// The ranges of values of the overviews that were written, in their order.
pub open spec fn reported_ranges(state: IndexView, events: Seq<IndexEvent>) -> Seq<(Real, Real)>
    decreases events.len(),
{
    if events.len() == 0 {
        Seq::empty()
    } else {
        let rest = events.drop_last();
        match events.last() {
            IndexEvent::TiffCreated { min_max: Some(range), sref_string } if run(
                state,
                rest,
            ).phase is CreateTiff => reported_ranges(state, rest).push(range),
            _ => reported_ranges(state, rest),
        }
    }
}

/// Events keep the positions fitting the phase, and change neither the array nor the points in
/// time.
pub proof fn law_run_valid(state: IndexView, events: Seq<IndexEvent>)
    requires
        state.valid(),
    ensures
        run(state, events).valid(),
        run(state, events).conversion == state.conversion,
        run(state, events).times == state.times,
    decreases events.len(),
{
    if events.len() > 0 {
        law_run_valid(state, events.drop_last());
    }
}

/// The number of overviews that have been written in a state.
pub open spec fn overviews_done(state: IndexView) -> nat {
    state.entity * state.times.len() + state.time_idx
}

/// Overviews are written entity by entity, and for each entity in the order of time; when the
/// work is done, every entity has an overview for every point in time.
pub proof fn law_every_overview_is_written(start: IndexView, events: Seq<IndexEvent>)
    requires
        start.valid(),
        start.phase is CheckOutput,
    ensures
        ({
            let done = written(start, events);
            let steps = start.times.len() as int;
            &&& forall|k: int|
                0 <= k < done.len() ==> (#[trigger] done[k]).1 < steps && k == done[k].0 * steps
                    + done[k].1
            &&& run(start, events).phase is Created ==> done.len() == start.entities() * steps
        }),
{
    lemma_written(start, events);
}

/// What has been written agrees with the position.
proof fn lemma_written(start: IndexView, events: Seq<IndexEvent>)
    requires
        start.valid(),
        start.phase is CheckOutput,
    ensures
        written(start, events).len() == overviews_done(run(start, events)),
        forall|k: int|
            0 <= k < written(start, events).len() ==> {
                let at = #[trigger] written(start, events)[k];
                at.1 < start.times.len() && k == at.0 * start.times.len() + at.1
            },
        run(start, events).phase is Created ==> overviews_done(run(start, events))
            == start.entities() * start.times.len(),
    decreases events.len(),
{
    if events.len() > 0 {
        let rest = events.drop_last();
        lemma_written(start, rest);
        law_run_valid(start, rest);
        let before = run(start, rest);
        let after = run(start, events);
        let steps = start.times.len() as int;
        assert((before.entity + 1) * steps == before.entity * steps + steps) by (nonlinear_arith);
        assert(0 * steps == 0);
        law_run_valid(start, events);
        if brings_overview(before, events.last()) {
            assert(written(start, events) == written(start, rest).push(
                (before.entity, before.time_idx),
            ));
        }
    } else {
        assert(0 * start.times.len() == 0);
    }
}

/// The range of values covers the range of every overview that has one, and each of its ends is
/// an end of such a range, or the end of the range of no values.
pub proof fn law_range_covers_overviews(start: IndexView, events: Seq<IndexEvent>)
    requires
        start.valid(),
        start.phase is CheckOutput,
    ensures
        ({
            let ranges = reported_ranges(start, events);
            let range = run(start, events).range;
            &&& !range.min.nan() && !range.max.nan()
            &&& forall|k: int|
                0 <= k < ranges.len() ==> {
                    let (min, max) = #[trigger] ranges[k];
                    (min.nan() || range.min.le_spec(min)) && (max.nan() || max.le_spec(range.max))
                }
            &&& range.min == ValueRange::nothing().min || exists|k: int|
                0 <= k < ranges.len() && (#[trigger] ranges[k]).0 == range.min
            &&& range.max == ValueRange::nothing().max || exists|k: int|
                0 <= k < ranges.len() && (#[trigger] ranges[k]).1 == range.max
        }),
    decreases events.len(),
{
    if events.len() > 0 {
        let rest = events.drop_last();
        law_range_covers_overviews(start, rest);
        let before = run(start, rest);
        let after = run(start, events);
        let ranges = reported_ranges(start, events);
        let earlier = reported_ranges(start, rest);
        match events.last() {
            IndexEvent::TiffCreated { min_max: Some(range), sref_string } if before.phase
                is CreateTiff => {
                assert(ranges == earlier.push(range));
                assert(ranges.last() == range);
                assert forall|k: int| 0 <= k < ranges.len() implies {
                    let (min, max) = #[trigger] ranges[k];
                    (min.nan() || after.range.min.le_spec(min)) && (max.nan() || max.le_spec(
                        after.range.max,
                    ))
                } by {
                    if k < earlier.len() {
                        assert(ranges[k] == earlier[k]);
                    }
                }
                if before.range.min != ValueRange::nothing().min {
                    let k = choose|k: int|
                        0 <= k < earlier.len() && (#[trigger] earlier[k]).0 == before.range.min;
                    assert(ranges[k] == earlier[k]);
                }
                if before.range.max != ValueRange::nothing().max {
                    let k = choose|k: int|
                        0 <= k < earlier.len() && (#[trigger] earlier[k]).1 == before.range.max;
                    assert(ranges[k] == earlier[k]);
                }
            },
            _ => {
                assert(ranges == earlier);
                assert(after.range == before.range);
            },
        }
    }
}

/// The ranges per group after all events.
pub open spec fn run_stats(
    state: IndexView,
    events: Seq<IndexEvent>,
    stats: Map<Seq<char>, ValueRange>,
) -> Map<Seq<char>, ValueRange>
    decreases events.len(),
{
    if events.len() == 0 {
        stats
    } else {
        run(state, events.drop_last()).recorded(
            events.last(),
            run_stats(state, events.drop_last(), stats),
        )
    }
}

/// When the work on an array with entities is done, the range of its group is the range of its
/// overviews; the ranges of other groups stay as they are at any time.
pub proof fn law_group_has_range(
    start: IndexView,
    events: Seq<IndexEvent>,
    stats: Map<Seq<char>, ValueRange>,
)
    requires
        start.valid(),
        start.phase is CheckOutput,
    ensures
        ({
            let end = run(start, events);
            let after = run_stats(start, events, stats);
            let group = text::before_last_slash(start.conversion.array_path);
            &&& end.phase is Created && start.entities() > 0 && group is Some
                ==> after.contains_key(group->0) && after[group->0] == end.range
            &&& match group {
                Some(group) => after.remove(group) == stats.remove(group),
                None => after == stats,
            }
        }),
{
    lemma_group_range(start, events, stats);
    law_run_valid(start, events);
}

/// Between two entities the range of the group is up to date.
proof fn lemma_group_range(
    start: IndexView,
    events: Seq<IndexEvent>,
    stats: Map<Seq<char>, ValueRange>,
)
    requires
        start.valid(),
        start.phase is CheckOutput,
    ensures
        ({
            let end = run(start, events);
            let after = run_stats(start, events, stats);
            let group = text::before_last_slash(start.conversion.array_path);
            &&& (end.phase is ReportProgress || end.phase is CreateDirectory
                || end.phase is Created) && end.entity > 0 && group is Some ==> after.contains_key(
                group->0,
            ) && after[group->0] == end.range
            &&& match group {
                Some(group) => after.remove(group) == stats.remove(group),
                None => after == stats,
            }
        }),
    decreases events.len(),
{
    if events.len() > 0 {
        lemma_group_range(start, events.drop_last(), stats);
        law_run_valid(start, events.drop_last());
        if let Some(group) = text::before_last_slash(start.conversion.array_path) {
            assert(run_stats(start, events, stats).remove(group) =~= stats.remove(group));
        }
    }
    law_run_valid(start, events);
}

/// The number of actions that are left if all of them succeed and there is no output yet.
pub open spec fn actions_left(state: IndexView) -> int {
    let per_entity = state.times.len() + 3;
    let left = (state.entities() - state.entity) * per_entity;
    match state.phase {
        IndexPhase::CheckOutput => left + 2,
        IndexPhase::OpenSubdataset => left + 1,
        IndexPhase::ReportProgress => left,
        IndexPhase::CreateDirectory => left - 1,
        IndexPhase::CreateTiff | IndexPhase::WriteLoadingInfo => left - 2 - state.time_idx,
        _ => 0,
    }
}

/// Whether an event answers the current action.
pub open spec fn answers(state: IndexView, event: IndexEvent) -> bool {
    match event {
        IndexEvent::OutputChecked(_) => state.phase is CheckOutput,
        IndexEvent::SubdatasetOpened(_) => state.phase is OpenSubdataset,
        IndexEvent::ProgressReported => state.phase is ReportProgress,
        IndexEvent::DirectoryCreated => state.phase is CreateDirectory,
        IndexEvent::TiffCreated { .. } => state.phase is CreateTiff,
        IndexEvent::LoadingInfoWritten => state.phase is WriteLoadingInfo,
        IndexEvent::Failed => !state.phase.over(),
    }
}

/// The work comes to an end: nothing is left exactly if it is over; an answer to the current
/// action either takes one of the actions that are left, or ends the work; anything else changes
/// nothing.
pub proof fn law_work_ends(state: IndexView, event: IndexEvent)
    requires
        state.valid(),
    ensures
        actions_left(state) >= 0,
        state.phase.over() <==> actions_left(state) == 0,
        !answers(state, event) ==> state.next(event) == state,
        answers(state, event) ==> state.next(event).phase.over() || actions_left(state.next(event))
            == actions_left(state) - 1,
        answers(state, event) && state.next(event).phase is Created ==> actions_left(state) == 1,
{
    let per_entity = state.times.len() + 3;
    let n = state.entities() - state.entity;
    assert(n * per_entity == (n - 1) * per_entity + per_entity) by (nonlinear_arith);
    if n >= 0 {
        assert(n * per_entity >= 0) by (nonlinear_arith)
            requires
                n >= 0,
                per_entity >= 0,
        ;
    }
    if n >= 1 {
        assert((n - 1) * per_entity >= 0) by (nonlinear_arith)
            requires
                n >= 1,
                per_entity >= 0,
        ;
    }
    assert(0 * per_entity == 0);
}

/// The file that tells how to load the overviews of an entity lies in the directory of the
/// entity, and the files that it names are the overviews that were written: next to the overview
/// of one point in time lie those of the others.
pub proof fn law_loading_info_finds_overviews(
    base: Seq<char>,
    entity: nat,
    first: Seq<char>,
    time: Seq<char>,
)
    requires
        !first.contains('/'),
        !time.contains('/'),
    ensures
        text::sibling_path(tiff::overview_file(base, entity, first), time + ".tiff"@)
            == tiff::overview_file(base, entity, time),
        text::sibling_path(tiff::overview_file(base, entity, first), LOADING_INFO_FILE_NAME@)
            == text::joined_path(tiff::entity_directory(base, entity), LOADING_INFO_FILE_NAME@),
{
    reveal_strlit(".tiff");
    reveal_strlit("loading_info.json");
    let directory = tiff::entity_directory(base, entity);
    let number = text::decimal(entity);
    text::lemma_decimal_denotes(entity);
    assert(text::is_digit(number.last()) && text::is_digit(number[0]));
    assert(directory.len() > 0 && directory.last() == number.last());
    let name = first + ".tiff"@;
    let other = time + ".tiff"@;
    assert forall|i: int| 0 <= i < name.len() implies name[i] != '/' by {
        if i < first.len() {
            assert(first.contains(first[i]));
        }
    }
    assert(other[0] != '/') by {
        if time.len() > 0 {
            assert(time.contains(time[0]));
        }
    }
    let path = tiff::overview_file(base, entity, first);
    assert(path == directory.push('/') + name);
    let p = directory.len() as int;
    text::lemma_last_position_unique(path, '/', p);
    let start = text::body_start(path);
    assert(path.skip(p + 1) =~= name);
    assert(name.len() >= 5 && seq!['.'].len() == 1 && seq!['.', '.'].len() == 2);
    assert(text::trimmed_path(path, start) == path);
    assert(path.take(p) =~= directory);
    assert(directory.len() > start) by {
        assert(path[0] == directory[0]);
    }
    let (from, end) = text::last_segment(directory, start);
    text::lemma_last_position(directory, '/');
    assert(directory.skip(from).last() == directory.last());
    assert(text::trimmed_path(directory, start) == directory);
}

/// Whether an extraction takes one entity at one of the points in time into the file that is
/// theirs: both the view of the array and the destination, read back, tell the entity and the
/// point in time, and they agree.
pub open spec fn extracts(
    job: TiffJob,
    array_path: Seq<char>,
    times: Seq<Seq<char>>,
    entity: nat,
    time_idx: nat,
) -> bool {
    let selection = job.options@[1]@;
    let indices = tiff::view_indices(selection);
    let directory = text::before_last_slash(job.destination@);
    &&& job.options@.len() >= 2
    &&& job.options@[0]@ == "-array"@
    &&& tiff::selection_head(selection) == "name=/"@ + array_path + ",view="@
    &&& indices.len() == 4
    &&& text::parsed_integer(indices[0]) == Some(entity as int)
    &&& text::parsed_integer(indices[1]) == Some(time_idx as int)
    &&& directory is Some
    &&& text::parsed_integer(text::after_last(directory->0, '/')) == Some(entity as int)
    &&& text::after_last(job.destination@, '/') == times[time_idx as int] + ".tiff"@
}

/// An overview holds what its place says: into the directory of an entity, under the name of a
/// point in time, goes the slice of that entity at that point in time.
pub proof fn law_file_holds_its_slice(state: IndexView, action: IndexAction)
    requires
        state.valid(),
        state.phase is CreateTiff,
        is_action(state, action),
        !state.times[state.time_idx as int].contains('/'),
    ensures
        action matches IndexAction::CreateTiff(job) && extracts(
            job,
            state.conversion.array_path,
            state.times,
            state.entity,
            state.time_idx,
        ) && state.conversion.dataset_out_base.is_prefix_of(job.destination@),
{
    if let IndexAction::CreateTiff(job) = action {
        let base = state.conversion.dataset_out_base;
        let time = state.times[state.time_idx as int];
        let path = state.conversion.array_path;
        tiff::law_view_selects_slice(path, state.entity, state.time_idx);
        tiff::law_file_names_slice(base, state.entity, time);
        let arguments = text::texts(job.options@);
        assert(arguments.len() == job.options@.len());
        assert(arguments[0] == "-array"@);
        assert(arguments[1] == tiff::array_selection(path, state.entity, state.time_idx));
        let directory = tiff::entity_directory(base, state.entity);
        assert(text::last_position(job.destination@, '/') is Some);
        text::lemma_last_position(job.destination@, '/');
        assert(directory.is_prefix_of(job.destination@)) by {
            let p = text::last_position(job.destination@, '/')->0;
            assert(job.destination@.take(p) =~= job.destination@.subrange(0, directory.len() as int));
        }
        assert(base =~= job.destination@.subrange(0, base.len() as int));
    }
}

/// The overviews of an entity are written into the directory that was created for it, and what
/// tells how to load them names the overview that was written first, in the same directory.
pub proof fn law_entity_has_one_directory(
    state: IndexView,
    directory: IndexAction,
    first: IndexAction,
    info: IndexAction,
)
    requires
        state.times.len() > 0,
        !state.times[0].contains('/'),
        is_action(IndexView { phase: IndexPhase::CreateDirectory, ..state }, directory),
        is_action(IndexView { phase: IndexPhase::CreateTiff, time_idx: 0, ..state }, first),
        is_action(IndexView { phase: IndexPhase::WriteLoadingInfo, ..state }, info),
    ensures
        directory matches IndexAction::CreateDirectory(path)
            && first matches IndexAction::CreateTiff(job)
            && info matches IndexAction::WriteLoadingInfo { overview, sref_string, file } && {
            &&& text::before_last_slash(job.destination@) == Some(path@)
            &&& overview@ == job.destination@
            &&& text::before_last_slash(file@) == Some(path@)
            &&& text::after_last(file@, '/') == "loading_info.json"@
            &&& text::option_text(sref_string) == state.sref
        },
{
    reveal_strlit("loading_info.json");
    let base = state.conversion.dataset_out_base;
    let path = tiff::entity_directory(base, state.entity);
    let name = LOADING_INFO_FILE_NAME@;
    tiff::law_file_names_slice(base, state.entity, state.times[0]);
    law_loading_info_finds_overviews(base, state.entity, state.times[0], state.times[0]);
    let number = text::decimal(state.entity);
    text::lemma_decimal_denotes(state.entity);
    assert(text::is_digit(number.last()));
    assert(path.last() == number.last());
    text::lemma_last_part(path, '/', name);
    assert(text::joined_path(path, name) == path.push('/') + name);
}

/// The options stay as they are once they are known.
proof fn lemma_options_stay(state: IndexView, events: Seq<IndexEvent>)
    requires
        !(state.phase is CheckOutput),
        !(state.phase is OpenSubdataset),
    ensures
        run(state, events).options == state.options,
        !(run(state, events).phase is CheckOutput),
        !(run(state, events).phase is OpenSubdataset),
    decreases events.len(),
{
    if events.len() > 0 {
        lemma_options_stay(state, events.drop_last());
    }
}

/// Every overview is written under the settings that were found when the dataset was opened, and
/// with the resampling method that was asked for.
pub proof fn law_overviews_follow_settings(
    opening: IndexView,
    config: GdalConfig,
    events: Seq<IndexEvent>,
    action: IndexAction,
)
    requires
        opening.phase is OpenSubdataset,
        run(opening.next(IndexEvent::SubdatasetOpened(config)), events).phase is CreateTiff,
        is_action(run(opening.next(IndexEvent::SubdatasetOpened(config)), events), action),
    ensures
        action matches IndexAction::CreateTiff(job) && {
            let arguments = text::texts(job.options@);
            let method = opening.resampling_method;
            &&& arguments.len() == 16
            &&& arguments[2] == "-of"@
            &&& arguments[3] == "COG"@
            &&& config.compression_algorithm matches Some(algorithm) ==> tiff::sets(
                arguments,
                "COMPRESS"@,
                algorithm@,
            )
            &&& config.compression_z_level matches Some(level) ==> tiff::sets(
                arguments,
                "LEVEL"@,
                text::decimal(level as nat),
            )
            &&& tiff::sets(arguments, "NUM_THREADS"@, config.compression_num_threads@)
            &&& method matches Some(method) ==> tiff::sets(
                arguments,
                "RESAMPLING"@,
                method.gdal_name(),
            )
        },
{
    let opened = opening.next(IndexEvent::SubdatasetOpened(config));
    lemma_options_stay(opened, events);
    let state = run(opened, events);
    tiff::law_extraction_follows_settings(
        state.conversion.array_path,
        state.entity,
        state.time_idx,
        config,
        opening.resampling_method,
    );
}

/// Whether an event brings a spatial reference.
pub open spec fn brings_reference(event: IndexEvent) -> bool {
    event matches IndexEvent::TiffCreated { min_max, sref_string } && sref_string is Some
}

/// The spatial reference that is written for an entity is the one that was found last for it: one
/// that an overview brings replaces what was found before, overviews without one leave it, and
/// the next entity begins without any.
pub proof fn law_last_reference_counts(state: IndexView, event: IndexEvent)
    requires
        state.valid(),
        state.phase.on_entity(),
    ensures
        state.phase is CreateTiff && brings_reference(event) ==> (
        event matches IndexEvent::TiffCreated { min_max, sref_string } && state.next(event).sref
            == Some(sref_string->0@)),
        !(state.phase is CreateTiff && brings_reference(event)) && state.next(event).entity
            == state.entity ==> state.next(event).sref == state.sref,
        state.next(event).entity != state.entity ==> state.next(event).sref is None,
{
}

/// The message on the progress, read word by word, tells the number of the array, counted from one,
/// and how many there are, and the entity and how many there are.
pub proof fn law_progress_tells_numbers(
    conversion_index: nat,
    number_of_conversions: nat,
    entity: nat,
    number_of_other_entities: nat,
)
    ensures
        ({
            let words = text::split(
                progress_message(
                    conversion_index,
                    number_of_conversions,
                    entity,
                    number_of_other_entities,
                ),
                ' ',
            );
            &&& words.len() == 9
            &&& words[0] == "Processing"@
            &&& text::parsed_integer(words[1]) == Some(conversion_index as int + 1)
            &&& text::parsed_integer(words[3]) == Some(number_of_conversions as int)
            &&& words[4] == "subdatasets;"@
            &&& words[5] == "Entity"@
            &&& text::parsed_integer(words[6]) == Some(entity as int)
            &&& text::parsed_integer(words[8]) == Some(number_of_other_entities as int)
        }),
{
    let a = text::decimal(conversion_index + 1);
    let b = text::decimal(number_of_conversions);
    let c = text::decimal(entity);
    let d = text::decimal(number_of_other_entities);
    lemma_number_word(conversion_index + 1);
    lemma_number_word(number_of_conversions);
    lemma_number_word(entity);
    lemma_number_word(number_of_other_entities);
    lemma_message_words();
    let words = seq![
        "Processing"@,
        a,
        "of"@,
        b,
        "subdatasets;"@,
        "Entity"@,
        c,
        "of"@,
        d,
    ];
    assert forall|i: int| 0 <= i < words.len() implies !(#[trigger] words[i]).contains(' ') by {}
    text::law_joined_parts_split(words, ' ');
    lemma_joined_words(words, 1);
    lemma_joined_words(words, 2);
    lemma_joined_words(words, 3);
    lemma_joined_words(words, 4);
    lemma_joined_words(words, 5);
    lemma_joined_words(words, 6);
    lemma_joined_words(words, 7);
    lemma_joined_words(words, 8);
    assert(words.take(9) =~= words);
    lemma_spaced(
        "Processing"@,
        "of"@,
        "subdatasets;"@,
        "Entity"@,
        seq![' '],
        (a, b, c, d),
    );
}

/// The words of the message, and the spaces between them.
proof fn lemma_message_words()
    ensures
        "Processing "@ == "Processing"@ + seq![' '],
        " of "@ == seq![' '] + "of"@ + seq![' '],
        " subdatasets; Entity "@ == seq![' '] + "subdatasets;"@ + seq![' '] + "Entity"@ + seq![' '],
        !"Processing"@.contains(' '),
        !"of"@.contains(' '),
        !"subdatasets;"@.contains(' '),
        !"Entity"@.contains(' '),
{
    reveal_strlit("Processing ");
    reveal_strlit("Processing");
    reveal_strlit(" of ");
    reveal_strlit("of");
    reveal_strlit(" subdatasets; Entity ");
    reveal_strlit("subdatasets;");
    reveal_strlit("Entity");
    assert("Processing "@ =~= "Processing"@ + seq![' ']);
    assert(" of "@ =~= seq![' '] + "of"@ + seq![' ']);
    assert(" subdatasets; Entity "@ =~= seq![' '] + "subdatasets;"@ + seq![' '] + "Entity"@ + seq![
        ' ',
    ]);
}

/// Spaces can be counted to the words in front of them or behind them.
proof fn lemma_spaced(
    p: Seq<char>,
    o: Seq<char>,
    s: Seq<char>,
    e: Seq<char>,
    space: Seq<char>,
    n: (Seq<char>, Seq<char>, Seq<char>, Seq<char>),
)
    ensures
        (p + space) + n.0 + (space + o + space) + n.1 + (space + s + space + e + space) + n.2 + (
        space + o + space) + n.3 == p + space + n.0 + space + o + space + n.1 + space + s + space
            + e + space + n.2 + space + o + space + n.3,
{
    assert((p + space) + n.0 + (space + o + space) + n.1 + (space + s + space + e + space) + n.2 + (
    space + o + space) + n.3 =~= p + space + n.0 + space + o + space + n.1 + space + s + space + e
        + space + n.2 + space + o + space + n.3);
}

/// The decimal notation of a number is a word that parses as the number.
proof fn lemma_number_word(n: nat)
    ensures
        !text::decimal(n).contains(' '),
        text::parsed_integer(text::decimal(n)) == Some(n as int),
{
    text::lemma_decimal_denotes(n);
    text::lemma_decimal_parses(n);
    let word = text::decimal(n);
    assert forall|i: int| 0 <= i < word.len() implies word[i] != ' ' by {
        assert(text::is_digit(word[i]));
    }
}

/// Joining one more word appends it behind a space.
proof fn lemma_joined_words(words: Seq<Seq<char>>, n: int)
    requires
        0 < n < words.len(),
    ensures
        text::joined(words.take(n + 1), seq![' ']) == text::joined(words.take(n), seq![' '])
            + seq![' '] + words[n],
        text::joined(words.take(1), seq![' ']) == words[0],
{
    assert(words.take(n + 1).drop_last() =~= words.take(n));
}

/// The spatial reference is looked up where the array is: in the dataset that was opened, under the
/// path of the array that is selected.
pub proof fn law_reference_is_that_of_array(
    state: IndexView,
    opening: IndexAction,
    writing: IndexAction,
)
    requires
        is_action(IndexView { phase: IndexPhase::OpenSubdataset, ..state }, opening),
        is_action(IndexView { phase: IndexPhase::CreateTiff, ..state }, writing),
    ensures
        opening matches IndexAction::OpenSubdataset(dataset) && writing matches IndexAction::CreateTiff(
            job,
        ) && {
            let n = dataset@.len() as int;
            let path = job.sref_dataset@.skip(n + 1);
            &&& dataset@.is_prefix_of(job.sref_dataset@)
            &&& job.sref_dataset@.len() > n
            &&& job.sref_dataset@[n] == ':'
            &&& job.options@.len() > 1
            &&& tiff::selection_head(job.options@[1]@) == "name=/"@ + path + ",view="@
        },
{
    reveal_strlit(":");
    if let IndexAction::OpenSubdataset(dataset) = opening {
        if let IndexAction::CreateTiff(job) = writing {
            let n = dataset@.len() as int;
            let path = state.conversion.array_path;
            tiff::law_view_selects_slice(path, state.entity, state.time_idx);
            let arguments = text::texts(job.options@);
            assert(arguments.len() == job.options@.len());
            assert(arguments[1] == tiff::array_selection(path, state.entity, state.time_idx));
            assert(job.sref_dataset@.skip(n + 1) =~= path);
            assert(dataset@ =~= job.sref_dataset@.subrange(0, n));
        }
    }
}

/// Whether it was found that there is output already.
pub open spec fn output_found(state: IndexView, events: Seq<IndexEvent>) -> bool
    decreases events.len(),
{
    events.len() > 0 && (output_found(state, events.drop_last()) || (run(
        state,
        events.drop_last(),
    ).phase is CheckOutput && events.last() == IndexEvent::OutputChecked(true)))
}

/// Whether an action failed.
pub open spec fn action_failed(events: Seq<IndexEvent>) -> bool {
    exists|i: int| 0 <= i < events.len() && (#[trigger] events[i]) is Failed
}

/// Work ends for a reason: it is skipped only if there is output already, and then nothing is
/// written; it fails only if an action did; and it ends without overviews only if there is no
/// point in time for them.
pub proof fn law_work_ends_for_a_reason(start: IndexView, events: Seq<IndexEvent>)
    requires
        start.valid(),
        start.phase is CheckOutput,
    ensures
        ({
            let phase = run(start, events).phase;
            &&& phase is Skipped ==> output_found(start, events) && written(start, events).len()
                == 0
            &&& phase is Failed ==> action_failed(events)
            &&& phase is NoOverviews ==> start.times.len() == 0
            &&& phase is CheckOutput || phase is OpenSubdataset ==> written(start, events).len()
                == 0
        }),
    decreases events.len(),
{
    if events.len() > 0 {
        let rest = events.drop_last();
        law_work_ends_for_a_reason(start, rest);
        law_run_valid(start, rest);
        if run(start, rest).phase is Failed {
            let i = choose|i: int| 0 <= i < rest.len() && (#[trigger] rest[i]) is Failed;
            assert(events[i] is Failed);
        }
        assert(events.last() is Failed ==> events[events.len() - 1] is Failed);
    }
}

} // verus!
