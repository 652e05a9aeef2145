//! Creating the overviews of a file, and removing them again.

use crate::netcdf::groups;
use crate::netcdf::groups::{ConversionMetadata, ConversionView, NetCdfGroup};
use crate::netcdf::tiff;
use crate::text;
use crate::text::join_path;
use vstd::prelude::*;
use vstd::string::*;

verus! {

/// The name of the file that holds the metadata of a dataset.
pub const METADATA_FILE_NAME: &'static str = "metadata.json";

/// The name of the file that marks a folder whose overviews are being created.
pub const IN_PROGRESS_FLAG_NAME: &'static str = ".in_progress";

/// Whether overviews were created.
#[derive(Debug, Clone, Copy, PartialEq, Eq, Structural)]
pub enum OverviewGeneration {
    Created,
    Skipped,
}

/// A folder is missing, or is a file.
#[derive(Debug)]
pub struct InvalidDirectory {
    pub folder: String,
}

/// A flag that indicates the on-going creation of overviews in a folder.
#[derive(Debug)]
pub struct InProgressFlag {
    path: String,
}

/// The path of the flag of a folder.
pub open spec fn flag_path(folder: Seq<char>) -> Seq<char> {
    text::joined_path(folder, IN_PROGRESS_FLAG_NAME@)
}

impl View for InProgressFlag {
    type V = Seq<char>;

    closed spec fn view(&self) -> Seq<char> {
        self.path@
    }
}

impl InProgressFlag {
    /// The flag of a folder, if it is one.
    pub fn create(folder: &str, is_dir: bool) -> (r: Result<Self, InvalidDirectory>)
        ensures
            match r {
                Ok(flag) => is_dir && flag@ == flag_path(folder@),
                Err(e) => !is_dir && e.folder@ == folder@,
            },
    {
        if !is_dir {
            return Err(InvalidDirectory { folder: folder.to_string() });
        }
        Ok(Self { path: join_path(folder, IN_PROGRESS_FLAG_NAME) })
    }

    /// The path of the file that is the flag.
    pub fn path(&self) -> (r: &str)
        ensures
            r@ == self@,
    {
        self.path.as_str()
    }

    /// The path of the flag to look for in a folder.
    pub fn path_in(folder: &str) -> (r: String)
        ensures
            r@ == flag_path(folder@),
    {
        join_path(folder, IN_PROGRESS_FLAG_NAME)
    }

    /// Tells whether overviews are being created, given whether the folder is one and whether its
    /// flag exists.
    pub fn is_in_progress(is_dir: bool, flag_exists: bool) -> (r: bool)
        ensures
            r == (is_dir && flag_exists),
    {
        is_dir && flag_exists
    }
}

/// How far the creation is.
#[derive(Debug, Clone, Copy, PartialEq, Eq, Structural)]
pub enum CreationPhase {
    CheckFolder,
    CreateFolder,
    CheckDirectory,
    CreateFlag,
    OpenDataset,
    IndexArray,
    ReportStatus,
    StoreMetadata,
    RemoveFlag,
    /// The flag that was created is cleaned up before the work ends without overviews.
    DropFlag,
    Created,
    Skipped,
    /// The folder is no directory.
    InvalidDirectory,
    Failed,
}

impl CreationPhase {
    /// Whether nothing is left to do.
    pub open spec fn over(self) -> bool {
        self is Created || self is Skipped || self is InvalidDirectory || self is Failed
    }

    /// Whether the flag is known.
    pub open spec fn flagged(self) -> bool {
        self is CreateFlag || self is OpenDataset || self is IndexArray || self is ReportStatus
            || self is StoreMetadata || self is RemoveFlag || self is DropFlag
    }

    /// Whether the flag of this creation stands.
    pub open spec fn holds_flag(self) -> bool {
        self.flagged() && !(self is CreateFlag)
    }

    /// Whether the current action writes overviews or their metadata.
    pub open spec fn writes(self) -> bool {
        self is IndexArray || self is StoreMetadata
    }
}

/// The outcome of an action.
#[derive(Debug)]
pub enum CreationEvent {
    /// Whether the folder exists.
    FolderChecked(bool),
    FolderCreated,
    /// Whether the folder is a directory.
    DirectoryChecked(bool),
    FlagCreated,
    /// The groups of the file.
    DatasetOpened(NetCdfGroup),
    ArrayIndexed(OverviewGeneration),
    StatusReported,
    MetadataStored(OverviewGeneration),
    FlagRemoved,
    /// The flag was cleaned up as far as possible.
    FlagDropped,
    /// The action failed.
    Failed,
}

/// What is to be done next.
#[derive(Debug)]
pub enum CreationAction {
    /// Find out whether the folder exists.
    CheckFolder(String),
    /// Create the folder and its parents.
    CreateFolder(String),
    /// Find out whether the folder is a directory.
    CheckDirectory(String),
    /// Create the file, which must not exist yet.
    CreateFlag(String),
    /// Open the file for reading, and look up its groups.
    OpenDataset(String),
    /// Write the overviews of the array with this index of as many.
    IndexArray { conversion: ConversionMetadata, index: usize, number_of_conversions: usize },
    /// Report that most of the work is done.
    ReportStatus(String),
    StoreMetadata,
    /// Remove the file.
    RemoveFlag(String),
    /// Remove the file if it exists; that this fails is no error.
    DropFlag(String),
    Created,
    Skipped,
    /// The folder is no directory.
    InvalidDirectory(String),
    Failed,
}

/// The state of a creation.
#[verifier::ext_equal]
pub struct CreationView {
    pub file_path: Seq<char>,
    pub folder: Seq<char>,
    pub phase: CreationPhase,
    /// The path of the flag.
    pub flag: Option<Seq<char>>,
    /// The conversions of the arrays in the file.
    pub conversions: Seq<ConversionView>,
    /// The array that is to be worked on.
    pub index: nat,
    /// Whether a failure is the reason for cleaning up.
    pub failed: bool,
}

impl CreationView {
    /// Whether the position fits the phase.
    pub open spec fn valid(self) -> bool {
        &&& self.phase.flagged() ==> self.flag == Some(flag_path(self.folder))
        &&& self.index <= self.conversions.len()
        &&& self.phase is IndexArray ==> self.index < self.conversions.len()
        &&& self.phase is ReportStatus || self.phase is StoreMetadata || self.phase is RemoveFlag
            || self.phase is Created ==> self.index == self.conversions.len()
        &&& self.phase is CheckFolder || self.phase is CreateFolder || self.phase is CheckDirectory
            || self.phase is CreateFlag || self.phase is OpenDataset ==> self.index == 0
    }

    /// The state in which an array is to be worked on, or the metadata if there is none left.
    pub open spec fn at_array(self, index: nat) -> CreationView {
        CreationView {
            phase: if index < self.conversions.len() {
                CreationPhase::IndexArray
            } else {
                CreationPhase::ReportStatus
            },
            index,
            ..self
        }
    }

    /// The state in which the flag is to be cleaned up.
    pub open spec fn cleaning_up(self, failed: bool) -> CreationView {
        CreationView { phase: CreationPhase::DropFlag, failed, ..self }
    }

    /// The state after an event. An event that answers another action than the current one
    /// changes nothing.
    pub open spec fn next(self, event: CreationEvent) -> CreationView {
        match (self.phase, event) {
            (CreationPhase::CheckFolder, CreationEvent::FolderChecked(found)) => CreationView {
                phase: if found {
                    CreationPhase::CheckDirectory
                } else {
                    CreationPhase::CreateFolder
                },
                ..self
            },
            (CreationPhase::CreateFolder, CreationEvent::FolderCreated) => CreationView {
                phase: CreationPhase::CheckDirectory,
                ..self
            },
            (CreationPhase::CheckDirectory, CreationEvent::DirectoryChecked(is_dir)) => CreationView {
                phase: if is_dir {
                    CreationPhase::CreateFlag
                } else {
                    CreationPhase::InvalidDirectory
                },
                flag: if is_dir {
                    Some(flag_path(self.folder))
                } else {
                    self.flag
                },
                ..self
            },
            (CreationPhase::CreateFlag, CreationEvent::FlagCreated) => CreationView {
                phase: CreationPhase::OpenDataset,
                ..self
            },
            (CreationPhase::OpenDataset, CreationEvent::DatasetOpened(root)) => CreationView {
                conversions: groups::conversions_of(self.file_path, self.folder, root),
                ..self
            }.at_array(0),
            (CreationPhase::IndexArray, CreationEvent::ArrayIndexed(generation)) => {
                match generation {
                    OverviewGeneration::Created => self.at_array(self.index + 1),
                    OverviewGeneration::Skipped => self.cleaning_up(false),
                }
            },
            (CreationPhase::ReportStatus, CreationEvent::StatusReported) => CreationView {
                phase: CreationPhase::StoreMetadata,
                ..self
            },
            (CreationPhase::StoreMetadata, CreationEvent::MetadataStored(generation)) => {
                match generation {
                    OverviewGeneration::Created => CreationView {
                        phase: CreationPhase::RemoveFlag,
                        ..self
                    },
                    OverviewGeneration::Skipped => self.cleaning_up(false),
                }
            },
            (CreationPhase::RemoveFlag, CreationEvent::FlagRemoved) => CreationView {
                phase: CreationPhase::Created,
                ..self
            },
            (CreationPhase::DropFlag, CreationEvent::FlagDropped) => CreationView {
                phase: if self.failed {
                    CreationPhase::Failed
                } else {
                    CreationPhase::Skipped
                },
                ..self
            },
            (phase, CreationEvent::Failed) => match phase {
                CreationPhase::CheckFolder
                | CreationPhase::CreateFolder
                | CreationPhase::CheckDirectory
                | CreationPhase::CreateFlag => CreationView {
                    phase: CreationPhase::Failed,
                    ..self
                },
                CreationPhase::OpenDataset
                | CreationPhase::IndexArray
                | CreationPhase::ReportStatus
                | CreationPhase::StoreMetadata
                | CreationPhase::RemoveFlag => self.cleaning_up(true),
                _ => self,
            },
            _ => self,
        }
    }
}

/// Whether an action is the one to take in a state.
pub open spec fn is_creation_action(state: CreationView, action: CreationAction) -> bool {
    match state.phase {
        CreationPhase::CheckFolder => action matches CreationAction::CheckFolder(path) && path@
            == state.folder,
        CreationPhase::CreateFolder => action matches CreationAction::CreateFolder(path) && path@
            == state.folder,
        CreationPhase::CheckDirectory => action matches CreationAction::CheckDirectory(path)
            && path@ == state.folder,
        CreationPhase::CreateFlag => action matches CreationAction::CreateFlag(path) && path@
            == flag_path(state.folder),
        CreationPhase::OpenDataset => action matches CreationAction::OpenDataset(path) && path@
            == state.file_path,
        CreationPhase::IndexArray => {
            &&& action matches CreationAction::IndexArray { conversion, index, number_of_conversions }
            &&& conversion@ == state.conversions[state.index as int]
            &&& index == state.index
            &&& number_of_conversions == state.conversions.len()
        },
        CreationPhase::ReportStatus => action matches CreationAction::ReportStatus(message)
            && message@ == "Collecting metadata"@,
        CreationPhase::StoreMetadata => action is StoreMetadata,
        CreationPhase::RemoveFlag => action matches CreationAction::RemoveFlag(path) && path@
            == flag_path(state.folder),
        CreationPhase::DropFlag => action matches CreationAction::DropFlag(path) && path@
            == flag_path(state.folder),
        CreationPhase::Created => action is Created,
        CreationPhase::Skipped => action is Skipped,
        CreationPhase::InvalidDirectory => action matches CreationAction::InvalidDirectory(path)
            && path@ == state.folder,
        CreationPhase::Failed => action is Failed,
    }
}

/// Creates the overviews of a file in a folder: under the protection of a flag, the overviews of
/// each array and then the metadata are written.
#[derive(Debug)]
pub struct OverviewCreation {
    file_path: String,
    folder: String,
    phase: CreationPhase,
    flag: Option<InProgressFlag>,
    conversions: Vec<ConversionMetadata>,
    index: usize,
    failed: bool,
}

impl View for OverviewCreation {
    type V = CreationView;

    closed spec fn view(&self) -> CreationView {
        CreationView {
            file_path: self.file_path@,
            folder: self.folder@,
            phase: self.phase,
            flag: match self.flag {
                Some(flag) => Some(flag@),
                None => None,
            },
            conversions: groups::conversion_views(self.conversions@),
            index: self.index as nat,
            failed: self.failed,
        }
    }
}

impl OverviewCreation {
    /// Whether the position fits the phase.
    pub open spec fn wf(&self) -> bool {
        self@.valid()
    }

    /// Starts the creation of the overviews of a file in a folder.
    pub fn new(file_path: &str, folder: &str) -> (r: Self)
        ensures
            r.wf(),
            r@ == (CreationView {
                file_path: file_path@,
                folder: folder@,
                phase: CreationPhase::CheckFolder,
                flag: None,
                conversions: Seq::empty(),
                index: 0,
                failed: false,
            }),
    {
        let conversions: Vec<ConversionMetadata> = Vec::new();
        assert(groups::conversion_views(conversions@) =~= Seq::empty());
        Self {
            file_path: file_path.to_string(),
            folder: folder.to_string(),
            phase: CreationPhase::CheckFolder,
            flag: None,
            conversions,
            index: 0,
            failed: false,
        }
    }

    fn flag_file(&self) -> (r: String)
        requires
            self@.flag is Some,
        ensures
            self@.flag == Some(r@),
    {
        self.flag.as_ref().unwrap().path().to_string()
    }

    /// The action to take.
    pub fn action(&self) -> (r: CreationAction)
        requires
            self.wf(),
        ensures
            is_creation_action(self@, r),
    {
        match self.phase {
            CreationPhase::CheckFolder => CreationAction::CheckFolder(self.folder.clone()),
            CreationPhase::CreateFolder => CreationAction::CreateFolder(self.folder.clone()),
            CreationPhase::CheckDirectory => CreationAction::CheckDirectory(self.folder.clone()),
            CreationPhase::CreateFlag => CreationAction::CreateFlag(
                self.flag_file(),
            ),
            CreationPhase::OpenDataset => CreationAction::OpenDataset(self.file_path.clone()),
            CreationPhase::IndexArray => CreationAction::IndexArray {
                conversion: self.conversions[self.index].clone(),
                index: self.index,
                number_of_conversions: self.conversions.len(),
            },
            CreationPhase::ReportStatus => CreationAction::ReportStatus(
                "Collecting metadata".to_string(),
            ),
            CreationPhase::StoreMetadata => CreationAction::StoreMetadata,
            CreationPhase::RemoveFlag => CreationAction::RemoveFlag(
                self.flag_file(),
            ),
            CreationPhase::DropFlag => CreationAction::DropFlag(
                self.flag_file(),
            ),
            CreationPhase::Created => CreationAction::Created,
            CreationPhase::Skipped => CreationAction::Skipped,
            CreationPhase::InvalidDirectory => CreationAction::InvalidDirectory(
                self.folder.clone(),
            ),
            CreationPhase::Failed => CreationAction::Failed,
        }
    }

    /// The flag to clean up if the creation is given up now: the one that it created and has not
    /// removed.
    pub fn held_flag(&self) -> (r: Option<String>)
        requires
            self.wf(),
        ensures
            match r {
                Some(path) => self@.phase.holds_flag() && path@ == flag_path(self@.folder),
                None => !self@.phase.holds_flag(),
            },
    {
        match self.phase {
            CreationPhase::OpenDataset
            | CreationPhase::IndexArray
            | CreationPhase::ReportStatus
            | CreationPhase::StoreMetadata
            | CreationPhase::RemoveFlag
            | CreationPhase::DropFlag => Some(self.flag_file()),
            _ => None,
        }
    }

    fn start_array(&mut self, index: usize)
        ensures
            final(self)@ == old(self)@.at_array(index as nat),
    {
        self.phase = if index < self.conversions.len() {
            CreationPhase::IndexArray
        } else {
            CreationPhase::ReportStatus
        };
        self.index = index;
    }

    fn clean_up(&mut self, failed: bool)
        ensures
            final(self)@ == old(self)@.cleaning_up(failed),
    {
        self.phase = CreationPhase::DropFlag;
        self.failed = failed;
    }

    /// Takes the outcome of the action.
    pub fn advance(&mut self, event: CreationEvent)
        requires
            old(self).wf(),
        ensures
            final(self).wf(),
            final(self)@ == old(self)@.next(event),
    {
        match (self.phase, event) {
            (CreationPhase::CheckFolder, CreationEvent::FolderChecked(found)) => {
                self.phase = if found {
                    CreationPhase::CheckDirectory
                } else {
                    CreationPhase::CreateFolder
                };
            },
            (CreationPhase::CreateFolder, CreationEvent::FolderCreated) => {
                self.phase = CreationPhase::CheckDirectory;
            },
            (CreationPhase::CheckDirectory, CreationEvent::DirectoryChecked(is_dir)) => {
                match InProgressFlag::create(self.folder.as_str(), is_dir) {
                    Ok(flag) => {
                        self.flag = Some(flag);
                        self.phase = CreationPhase::CreateFlag;
                    },
                    Err(_) => {
                        self.phase = CreationPhase::InvalidDirectory;
                    },
                }
            },
            (CreationPhase::CreateFlag, CreationEvent::FlagCreated) => {
                self.phase = CreationPhase::OpenDataset;
            },
            (CreationPhase::OpenDataset, CreationEvent::DatasetOpened(root)) => {
                self.conversions = root.conversion_metadata(
                    self.file_path.as_str(),
                    self.folder.as_str(),
                );
                self.start_array(0);
            },
            (CreationPhase::IndexArray, CreationEvent::ArrayIndexed(generation)) => {
                match generation {
                    OverviewGeneration::Created => {
                        let number_of_conversions: usize = self.conversions.len();
                        assert(self.index < number_of_conversions);
                        self.start_array(self.index + 1);
                    },
                    OverviewGeneration::Skipped => self.clean_up(false),
                }
            },
            (CreationPhase::ReportStatus, CreationEvent::StatusReported) => {
                self.phase = CreationPhase::StoreMetadata;
            },
            (CreationPhase::StoreMetadata, CreationEvent::MetadataStored(generation)) => {
                match generation {
                    OverviewGeneration::Created => {
                        self.phase = CreationPhase::RemoveFlag;
                    },
                    OverviewGeneration::Skipped => self.clean_up(false),
                }
            },
            (CreationPhase::RemoveFlag, CreationEvent::FlagRemoved) => {
                self.phase = CreationPhase::Created;
            },
            (CreationPhase::DropFlag, CreationEvent::FlagDropped) => {
                self.phase = if self.failed {
                    CreationPhase::Failed
                } else {
                    CreationPhase::Skipped
                };
            },
            (phase, CreationEvent::Failed) => {
                match phase {
                    CreationPhase::CheckFolder
                    | CreationPhase::CreateFolder
                    | CreationPhase::CheckDirectory
                    | CreationPhase::CreateFlag => {
                        self.phase = CreationPhase::Failed;
                    },
                    CreationPhase::OpenDataset
                    | CreationPhase::IndexArray
                    | CreationPhase::ReportStatus
                    | CreationPhase::StoreMetadata
                    | CreationPhase::RemoveFlag => self.clean_up(true),
                    _ => {},
                }
            },
            _ => {},
        }
    }
}

/// The state after all events.
pub open spec fn run(state: CreationView, events: Seq<CreationEvent>) -> CreationView
    decreases events.len(),
{
    if events.len() == 0 {
        state
    } else {
        run(state, events.drop_last()).next(events.last())
    }
}

/// Whether the flag of a creation stands after all events: the creation made it, and neither
/// removed nor cleaned it up since.
pub open spec fn flag_stands(state: CreationView, events: Seq<CreationEvent>) -> bool
    decreases events.len(),
{
    if events.len() == 0 {
        false
    } else {
        let before = run(state, events.drop_last());
        match (before.phase, events.last()) {
            (CreationPhase::CreateFlag, CreationEvent::FlagCreated) => true,
            (CreationPhase::RemoveFlag, CreationEvent::FlagRemoved) => false,
            (CreationPhase::DropFlag, CreationEvent::FlagDropped) => false,
            _ => flag_stands(state, events.drop_last()),
        }
    }
}

/// Events keep the position fitting the phase, and change neither the file nor the folder.
pub proof fn law_run_valid(state: CreationView, events: Seq<CreationEvent>)
    requires
        state.valid(),
    ensures
        run(state, events).valid(),
        run(state, events).file_path == state.file_path,
        run(state, events).folder == state.folder,
    decreases events.len(),
{
    if events.len() > 0 {
        law_run_valid(state, events.drop_last());
    }
}

/// The flag stands before anything is written, and as long as anything is; once the work is
/// over, however it ended, the flag does not stand.
pub proof fn law_flag_guards_writes(start: CreationView, events: Seq<CreationEvent>)
    requires
        start.valid(),
        start.phase is CheckFolder,
    ensures
        run(start, events).phase.writes() ==> flag_stands(start, events),
        run(start, events).phase.over() ==> !flag_stands(start, events),
{
    law_held_flag_stands(start, events);
}

/// A creation removes or cleans up no flag but one that it created: where another creation is
/// going on and its flag keeps this one from being created, that flag is left alone.
pub proof fn law_only_own_flag_is_removed(start: CreationView, events: Seq<CreationEvent>)
    requires
        start.valid(),
        start.phase is CheckFolder,
    ensures
        run(start, events).phase is DropFlag || run(start, events).phase is RemoveFlag
            ==> flag_stands(start, events),
        run(start, events).phase is CreateFlag ==> run(
            start,
            events.push(CreationEvent::Failed),
        ).phase is Failed,
{
    law_held_flag_stands(start, events);
    assert(events.push(CreationEvent::Failed).drop_last() =~= events);
}

/// At any time, what `held_flag` tells to clean up is the flag that stands: giving up a creation
/// leaves no flag of its own behind.
pub proof fn law_held_flag_stands(start: CreationView, events: Seq<CreationEvent>)
    requires
        start.valid(),
        start.phase is CheckFolder,
    ensures
        run(start, events).phase.holds_flag() <==> flag_stands(start, events),
    decreases events.len(),
{
    if events.len() > 0 {
        law_held_flag_stands(start, events.drop_last());
    }
}

/// The conversions of the arrays whose overviews were written, in their order.
pub open spec fn indexed(state: CreationView, events: Seq<CreationEvent>) -> Seq<ConversionView>
    decreases events.len(),
{
    if events.len() == 0 {
        Seq::empty()
    } else {
        let rest = events.drop_last();
        let before = run(state, rest);
        if before.phase is IndexArray && events.last() == CreationEvent::ArrayIndexed(
            OverviewGeneration::Created,
        ) {
            indexed(state, rest).push(before.conversions[before.index as int])
        } else {
            indexed(state, rest)
        }
    }
}

/// Whether the metadata was stored.
pub open spec fn stored(state: CreationView, events: Seq<CreationEvent>) -> bool
    decreases events.len(),
{
    events.len() > 0 && (stored(state, events.drop_last()) || (run(
        state,
        events.drop_last(),
    ).phase is StoreMetadata && events.last() == CreationEvent::MetadataStored(
        OverviewGeneration::Created,
    )))
}

/// Overviews count as created only if those of every array were written, one after the other,
/// and the metadata was stored; the metadata is not stored before.
pub proof fn law_created_is_complete(start: CreationView, events: Seq<CreationEvent>)
    requires
        start.valid(),
        start.phase is CheckFolder,
    ensures
        ({
            let end = run(start, events);
            &&& end.phase is Created || end.phase is StoreMetadata ==> indexed(start, events)
                == end.conversions
            &&& end.phase is Created ==> stored(start, events)
        }),
{
    lemma_indexed(start, events);
    law_run_valid(start, events);
    let end = run(start, events);
    assert(end.conversions.take(end.conversions.len() as int) =~= end.conversions);
}

proof fn lemma_indexed(start: CreationView, events: Seq<CreationEvent>)
    requires
        start.valid(),
        start.phase is CheckFolder,
    ensures
        ({
            let end = run(start, events);
            &&& indexed(start, events) == end.conversions.take(end.index as int)
            &&& end.phase is RemoveFlag || end.phase is Created ==> stored(start, events)
        }),
    decreases events.len(),
{
    law_run_valid(start, events);
    if events.len() > 0 {
        let rest = events.drop_last();
        lemma_indexed(start, rest);
        law_run_valid(start, rest);
        let before = run(start, rest);
        let end = run(start, events);
        if before.phase is IndexArray && events.last() == CreationEvent::ArrayIndexed(
            OverviewGeneration::Created,
        ) {
            assert(end.conversions.take(end.index as int) =~= before.conversions.take(
                before.index as int,
            ).push(before.conversions[before.index as int]));
        } else {
            assert(end.index == before.index);
            assert(end.conversions.take(end.index as int) =~= before.conversions.take(
                before.index as int,
            ));
        }
    } else {
        assert(start.conversions.take(0) =~= Seq::empty());
    }
}

/// Whether an event answers the current action.
pub open spec fn answers(state: CreationView, event: CreationEvent) -> bool {
    match event {
        CreationEvent::FolderChecked(_) => state.phase is CheckFolder,
        CreationEvent::FolderCreated => state.phase is CreateFolder,
        CreationEvent::DirectoryChecked(_) => state.phase is CheckDirectory,
        CreationEvent::FlagCreated => state.phase is CreateFlag,
        CreationEvent::DatasetOpened(_) => state.phase is OpenDataset,
        CreationEvent::ArrayIndexed(_) => state.phase is IndexArray,
        CreationEvent::StatusReported => state.phase is ReportStatus,
        CreationEvent::MetadataStored(_) => state.phase is StoreMetadata,
        CreationEvent::FlagRemoved => state.phase is RemoveFlag,
        CreationEvent::FlagDropped => state.phase is DropFlag,
        CreationEvent::Failed => !state.phase.over() && !(state.phase is DropFlag),
    }
}

/// How many phases are left at most.
pub open spec fn phases_left(phase: CreationPhase) -> nat {
    match phase {
        CreationPhase::CheckFolder => 10,
        CreationPhase::CreateFolder => 9,
        CreationPhase::CheckDirectory => 8,
        CreationPhase::CreateFlag => 7,
        CreationPhase::OpenDataset => 6,
        CreationPhase::IndexArray => 5,
        CreationPhase::ReportStatus => 4,
        CreationPhase::StoreMetadata => 3,
        CreationPhase::RemoveFlag => 2,
        CreationPhase::DropFlag => 1,
        _ => 0,
    }
}

/// The creation comes to an end: an answer to the current action leads to a later phase, or to
/// the next one of the arrays; anything else changes nothing.
pub proof fn law_creation_advances(state: CreationView, event: CreationEvent)
    requires
        state.valid(),
    ensures
        state.phase.over() <==> phases_left(state.phase) == 0,
        !answers(state, event) ==> state.next(event) == state,
        answers(state, event) ==> {
            let next = state.next(event);
            phases_left(next.phase) < phases_left(state.phase) || (next.phase is IndexArray
                && state.phase is IndexArray && next.conversions == state.conversions && next.index
                == state.index + 1)
        },
{
}

/// What is written for an array lies in the folder that a removal removes, unless the name of a
/// group is that of an absolute path.
pub proof fn law_overviews_lie_in_folder(
    folder: Seq<char>,
    group: Seq<char>,
    entity: nat,
    time: Seq<char>,
)
    requires
        group.len() > 0 ==> group[0] != '/',
        time.len() > 0 ==> time[0] != '/',
    ensures
        ({
            let base = text::joined_path(folder, group);
            &&& folder.is_prefix_of(flag_path(folder))
            &&& folder.is_prefix_of(tiff::entity_directory(base, entity))
            &&& folder.is_prefix_of(tiff::overview_file(base, entity, time))
        }),
{
    reveal_strlit(".in_progress");
    reveal_strlit(".tiff");
    let base = text::joined_path(folder, group);
    let number = text::decimal(entity);
    text::lemma_decimal_denotes(entity);
    assert(text::is_digit(number[0]));
    let directory = tiff::entity_directory(base, entity);
    let file = tiff::overview_file(base, entity, time);
    lemma_below(folder, IN_PROGRESS_FLAG_NAME@);
    lemma_below(folder, group);
    lemma_below(base, number);
    lemma_below(directory, time + ".tiff"@);
    assert(folder =~= directory.subrange(0, folder.len() as int));
    assert(folder =~= file.subrange(0, folder.len() as int));
}

/// A relative path lies in the directory that it is resolved against.
proof fn lemma_below(base: Seq<char>, path: Seq<char>)
    requires
        path.len() > 0 ==> path[0] != '/',
    ensures
        base.is_prefix_of(text::joined_path(base, path)),
{
    let whole = text::joined_path(base, path);
    assert(base =~= whole.subrange(0, base.len() as int));
}

/// How far the removal is.
#[derive(Debug, Clone, Copy, PartialEq, Eq, Structural)]
pub enum RemovalPhase {
    CheckFolder,
    CheckProgress,
    DeleteRows,
    RemoveFolder,
    /// There are no overviews, or no longer.
    Removed,
    /// Overviews are being created.
    InProgress,
    Failed,
}

/// The outcome of an action.
#[derive(Debug)]
pub enum RemovalEvent {
    /// Whether the folder exists.
    FolderChecked(bool),
    /// Whether the folder is a directory, and whether its flag exists.
    ProgressChecked { is_dir: bool, flag_exists: bool },
    RowsDeleted,
    FolderRemoved,
    /// The action failed.
    Failed,
}

/// What is to be done next.
#[derive(Debug)]
pub enum RemovalAction {
    /// Find out whether the folder exists.
    CheckFolder(String),
    /// Find out whether the folder is a directory and the flag exists.
    CheckProgress { folder: String, flag: String },
    /// Execute the statement with the name of the file as its parameter.
    DeleteRows { statement: String, file_name: String },
    /// Remove the folder with all that it holds.
    RemoveFolder(String),
    Removed,
    /// Overviews cannot be removed while they are being created.
    CannotRemoveOverviewsWhileCreationIsInProgress,
    Failed,
}

/// The statement that deletes the rows of a file. Rows in other tables go with them.
pub const DELETE_OVERVIEWS: &'static str = "DELETE FROM overviews WHERE file_name = $1";

/// The state of a removal.
#[verifier::ext_equal]
pub struct RemovalView {
    pub dataset_path: Seq<char>,
    pub folder: Seq<char>,
    pub force: bool,
    pub phase: RemovalPhase,
}

impl RemovalView {
    /// The state after an event. An event that answers another action than the current one
    /// changes nothing.
    pub open spec fn next(self, event: RemovalEvent) -> RemovalView {
        let phase = match (self.phase, event) {
            (RemovalPhase::CheckFolder, RemovalEvent::FolderChecked(found)) => if !found {
                RemovalPhase::Removed
            } else if self.force {
                RemovalPhase::DeleteRows
            } else {
                RemovalPhase::CheckProgress
            },
            (RemovalPhase::CheckProgress, RemovalEvent::ProgressChecked { is_dir, flag_exists }) =>
                if is_dir && flag_exists {
                RemovalPhase::InProgress
            } else {
                RemovalPhase::DeleteRows
            },
            (RemovalPhase::DeleteRows, RemovalEvent::RowsDeleted) => RemovalPhase::RemoveFolder,
            (RemovalPhase::RemoveFolder, RemovalEvent::FolderRemoved) => RemovalPhase::Removed,
            (RemovalPhase::CheckFolder, RemovalEvent::Failed) => RemovalPhase::Failed,
            (RemovalPhase::CheckProgress, RemovalEvent::Failed) => RemovalPhase::Failed,
            (RemovalPhase::DeleteRows, RemovalEvent::Failed) => RemovalPhase::Failed,
            (RemovalPhase::RemoveFolder, RemovalEvent::Failed) => RemovalPhase::Failed,
            (phase, _) => phase,
        };
        RemovalView { phase, ..self }
    }
}

/// Whether an action is the one to take in a state.
pub open spec fn is_removal_action(state: RemovalView, action: RemovalAction) -> bool {
    match state.phase {
        RemovalPhase::CheckFolder => action matches RemovalAction::CheckFolder(path) && path@
            == state.folder,
        RemovalPhase::CheckProgress => action matches RemovalAction::CheckProgress { folder, flag }
            && folder@ == state.folder && flag@ == flag_path(state.folder),
        RemovalPhase::DeleteRows => action matches RemovalAction::DeleteRows { statement, file_name }
            && statement@ == DELETE_OVERVIEWS@ && file_name@ == state.dataset_path,
        RemovalPhase::RemoveFolder => action matches RemovalAction::RemoveFolder(path) && path@
            == state.folder,
        RemovalPhase::Removed => action is Removed,
        RemovalPhase::InProgress => action is CannotRemoveOverviewsWhileCreationIsInProgress,
        RemovalPhase::Failed => action is Failed,
    }
}

/// Removes the overviews of a file.
#[derive(Debug)]
pub struct OverviewRemoval {
    dataset_path: String,
    folder: String,
    force: bool,
    phase: RemovalPhase,
}

impl View for OverviewRemoval {
    type V = RemovalView;

    closed spec fn view(&self) -> RemovalView {
        RemovalView {
            dataset_path: self.dataset_path@,
            folder: self.folder@,
            force: self.force,
            phase: self.phase,
        }
    }
}

impl OverviewRemoval {
    /// Starts the removal of the overviews of a file from a folder; with force, also while they
    /// are being created.
    pub fn new(dataset_path: &str, folder: &str, force: bool) -> (r: Self)
        ensures
            r@ == (RemovalView {
                dataset_path: dataset_path@,
                folder: folder@,
                force,
                phase: RemovalPhase::CheckFolder,
            }),
    {
        Self {
            dataset_path: dataset_path.to_string(),
            folder: folder.to_string(),
            force,
            phase: RemovalPhase::CheckFolder,
        }
    }

    /// The action to take.
    pub fn action(&self) -> (r: RemovalAction)
        ensures
            is_removal_action(self@, r),
    {
        match self.phase {
            RemovalPhase::CheckFolder => RemovalAction::CheckFolder(self.folder.clone()),
            RemovalPhase::CheckProgress => RemovalAction::CheckProgress {
                folder: self.folder.clone(),
                flag: InProgressFlag::path_in(self.folder.as_str()),
            },
            RemovalPhase::DeleteRows => RemovalAction::DeleteRows {
                statement: DELETE_OVERVIEWS.to_string(),
                file_name: self.dataset_path.clone(),
            },
            RemovalPhase::RemoveFolder => RemovalAction::RemoveFolder(self.folder.clone()),
            RemovalPhase::Removed => RemovalAction::Removed,
            RemovalPhase::InProgress => {
                RemovalAction::CannotRemoveOverviewsWhileCreationIsInProgress
            },
            RemovalPhase::Failed => RemovalAction::Failed,
        }
    }

    /// Takes the outcome of the action.
    pub fn advance(&mut self, event: RemovalEvent)
        ensures
            final(self)@ == old(self)@.next(event),
    {
        self.phase = match (self.phase, event) {
            (RemovalPhase::CheckFolder, RemovalEvent::FolderChecked(found)) => {
                if !found {
                    RemovalPhase::Removed
                } else if self.force {
                    RemovalPhase::DeleteRows
                } else {
                    RemovalPhase::CheckProgress
                }
            },
            (RemovalPhase::CheckProgress, RemovalEvent::ProgressChecked { is_dir, flag_exists }) => {
                if InProgressFlag::is_in_progress(is_dir, flag_exists) {
                    RemovalPhase::InProgress
                } else {
                    RemovalPhase::DeleteRows
                }
            },
            (RemovalPhase::DeleteRows, RemovalEvent::RowsDeleted) => RemovalPhase::RemoveFolder,
            (RemovalPhase::RemoveFolder, RemovalEvent::FolderRemoved) => RemovalPhase::Removed,
            (RemovalPhase::CheckFolder, RemovalEvent::Failed) => RemovalPhase::Failed,
            (RemovalPhase::CheckProgress, RemovalEvent::Failed) => RemovalPhase::Failed,
            (RemovalPhase::DeleteRows, RemovalEvent::Failed) => RemovalPhase::Failed,
            (RemovalPhase::RemoveFolder, RemovalEvent::Failed) => RemovalPhase::Failed,
            (phase, _) => phase,
        };
    }
}

/// The state after all events.
pub open spec fn run_removal(state: RemovalView, events: Seq<RemovalEvent>) -> RemovalView
    decreases events.len(),
{
    if events.len() == 0 {
        state
    } else {
        run_removal(state, events.drop_last()).next(events.last())
    }
}

/// Whether it was found that no overviews are being created.
pub open spec fn found_idle(state: RemovalView, events: Seq<RemovalEvent>) -> bool
    decreases events.len(),
{
    events.len() > 0 && (found_idle(state, events.drop_last()) || (run_removal(
        state,
        events.drop_last(),
    ).phase is CheckProgress && (events.last() matches RemovalEvent::ProgressChecked {
        is_dir,
        flag_exists,
    } && !(is_dir && flag_exists))))
}

/// How many phases are left at most.
pub open spec fn removal_phases_left(phase: RemovalPhase) -> nat {
    match phase {
        RemovalPhase::CheckFolder => 4,
        RemovalPhase::CheckProgress => 3,
        RemovalPhase::DeleteRows => 2,
        RemovalPhase::RemoveFolder => 1,
        _ => 0,
    }
}

/// The removal comes to an end: an event leads to a later phase, or changes nothing; a failure
/// always ends it.
pub proof fn law_removal_advances(state: RemovalView, event: RemovalEvent)
    ensures
        state.next(event) == state || removal_phases_left(state.next(event).phase)
            < removal_phases_left(state.phase),
        removal_phases_left(state.next(RemovalEvent::Failed).phase) == 0,
{
}

/// Without force, nothing is deleted unless it was found that no overviews are being created.
pub proof fn law_removal_spares_creation(start: RemovalView, events: Seq<RemovalEvent>)
    requires
        start.phase is CheckFolder,
        !start.force,
    ensures
        ({
            let phase = run_removal(start, events).phase;
            phase is DeleteRows || phase is RemoveFolder ==> found_idle(start, events)
        }),
{
    lemma_removal(start, events);
}

proof fn lemma_removal(start: RemovalView, events: Seq<RemovalEvent>)
    requires
        start.phase is CheckFolder,
        !start.force,
    ensures
        ({
            let end = run_removal(start, events);
            &&& !end.force
            &&& end.phase is DeleteRows || end.phase is RemoveFolder ==> found_idle(start, events)
        }),
    decreases events.len(),
{
    if events.len() > 0 {
        lemma_removal(start, events.drop_last());
    }
}

/// The groups of the file that was opened, if it was.
pub open spec fn opened(state: CreationView, events: Seq<CreationEvent>) -> Option<NetCdfGroup>
    decreases events.len(),
{
    if events.len() == 0 {
        None
    } else {
        let rest = events.drop_last();
        match events.last() {
            CreationEvent::DatasetOpened(root) if run(state, rest).phase is OpenDataset => Some(
                root,
            ),
            _ => opened(state, rest),
        }
    }
}

/// Whether the file has been opened.
spec fn past_opening(phase: CreationPhase) -> bool {
    phase is IndexArray || phase is ReportStatus || phase is StoreMetadata || phase is RemoveFlag
        || phase is Created
}

proof fn lemma_opened(start: CreationView, events: Seq<CreationEvent>)
    requires
        start.valid(),
        start.phase is CheckFolder,
    ensures
        past_opening(run(start, events).phase) ==> opened(start, events) is Some && run(
            start,
            events,
        ).conversions == groups::conversions_of(
            start.file_path,
            start.folder,
            opened(start, events)->0,
        ),
    decreases events.len(),
{
    if events.len() > 0 {
        lemma_opened(start, events.drop_last());
        law_run_valid(start, events.drop_last());
    }
}

/// What is written are the overviews of the file that was opened: while arrays are worked on, the
/// conversions are those of its arrays, from this file into this folder, and once the overviews
/// count as created, all of them were written.
pub proof fn law_arrays_of_opened_file(start: CreationView, events: Seq<CreationEvent>)
    requires
        start.valid(),
        start.phase is CheckFolder,
    ensures
        ({
            let end = run(start, events);
            let root = opened(start, events);
            &&& end.phase is IndexArray || end.phase is Created ==> root is Some && end.conversions
                == groups::conversions_of(start.file_path, start.folder, root->0)
            &&& end.phase is Created ==> indexed(start, events) == groups::conversions_of(
                start.file_path,
                start.folder,
                root->0,
            )
        }),
{
    lemma_opened(start, events);
    law_created_is_complete(start, events);
}

/// A removal looks for the very flag that a creation in the same folder creates, removes and
/// cleans up, and removes that folder.
pub proof fn law_removal_knows_the_flag(
    creation: CreationView,
    creating: CreationAction,
    removal: RemovalView,
    removing: RemovalAction,
)
    requires
        creation.valid(),
        creation.folder == removal.folder,
        is_creation_action(creation, creating),
        is_removal_action(removal, removing),
    ensures
        match (creating, removing) {
            (CreationAction::CreateFlag(path), RemovalAction::CheckProgress { folder, flag }) => {
                path@ == flag@
            },
            (CreationAction::RemoveFlag(path), RemovalAction::CheckProgress { folder, flag }) => {
                path@ == flag@
            },
            (CreationAction::DropFlag(path), RemovalAction::CheckProgress { folder, flag }) => {
                path@ == flag@
            },
            (CreationAction::CreateFolder(path), RemovalAction::RemoveFolder(folder)) => {
                path@ == folder@
            },
            (CreationAction::CheckDirectory(path), RemovalAction::CheckProgress { folder, flag }) => {
                path@ == folder@
            },
            _ => true,
        },
{
}

/// Whether the rows of the file were deleted.
pub open spec fn rows_deleted(state: RemovalView, events: Seq<RemovalEvent>) -> bool
    decreases events.len(),
{
    events.len() > 0 && (rows_deleted(state, events.drop_last()) || (run_removal(
        state,
        events.drop_last(),
    ).phase is DeleteRows && events.last() is RowsDeleted))
}

/// Whether the folder was removed.
pub open spec fn folder_removed(state: RemovalView, events: Seq<RemovalEvent>) -> bool
    decreases events.len(),
{
    events.len() > 0 && (folder_removed(state, events.drop_last()) || (run_removal(
        state,
        events.drop_last(),
    ).phase is RemoveFolder && events.last() is FolderRemoved))
}

/// Whether it was found that there is no folder.
pub open spec fn folder_missing(state: RemovalView, events: Seq<RemovalEvent>) -> bool
    decreases events.len(),
{
    events.len() > 0 && (folder_missing(state, events.drop_last()) || (run_removal(
        state,
        events.drop_last(),
    ).phase is CheckFolder && events.last() == RemovalEvent::FolderChecked(false)))
}

/// Whether it was found that overviews are being created.
pub open spec fn found_busy(state: RemovalView, events: Seq<RemovalEvent>) -> bool
    decreases events.len(),
{
    events.len() > 0 && (found_busy(state, events.drop_last()) || (run_removal(
        state,
        events.drop_last(),
    ).phase is CheckProgress && (events.last() matches RemovalEvent::ProgressChecked {
        is_dir,
        flag_exists,
    } && is_dir && flag_exists)))
}

/// Overviews count as removed only if there were none, or both their rows and their folder are
/// gone, the rows first; and a removal is refused only without force, and only if overviews are
/// being created.
pub proof fn law_removed_is_complete(start: RemovalView, events: Seq<RemovalEvent>)
    requires
        start.phase is CheckFolder,
    ensures
        ({
            let end = run_removal(start, events);
            &&& end.phase is Removed ==> folder_missing(start, events) || (rows_deleted(
                start,
                events,
            ) && folder_removed(start, events))
            &&& end.phase is RemoveFolder ==> rows_deleted(start, events)
            &&& end.phase is InProgress ==> !start.force && found_busy(start, events)
            &&& end.phase is CheckProgress ==> !start.force
            &&& end.force == start.force
            &&& end.folder == start.folder
            &&& end.dataset_path == start.dataset_path
        }),
    decreases events.len(),
{
    if events.len() > 0 {
        law_removed_is_complete(start, events.drop_last());
    }
}

/// Whether the folder was found to be a directory.
pub open spec fn directory_found(state: CreationView, events: Seq<CreationEvent>) -> bool
    decreases events.len(),
{
    events.len() > 0 && (directory_found(state, events.drop_last()) || (run(
        state,
        events.drop_last(),
    ).phase is CheckDirectory && events.last() == CreationEvent::DirectoryChecked(true)))
}

/// Whether overviews or metadata were found to be there already.
pub open spec fn found_existing(state: CreationView, events: Seq<CreationEvent>) -> bool
    decreases events.len(),
{
    events.len() > 0 && (found_existing(state, events.drop_last()) || {
        let phase = run(state, events.drop_last()).phase;
        ||| phase is IndexArray && events.last() == CreationEvent::ArrayIndexed(
            OverviewGeneration::Skipped,
        )
        ||| phase is StoreMetadata && events.last() == CreationEvent::MetadataStored(
            OverviewGeneration::Skipped,
        )
    })
}

/// Whether an action failed.
pub open spec fn action_failed(events: Seq<CreationEvent>) -> bool {
    exists|i: int| 0 <= i < events.len() && (#[trigger] events[i]) is Failed
}

/// A creation ends for a reason: it is skipped only if something was there already, it fails only
/// if an action did, and nothing is written, not even the flag, unless the folder was found to be
/// a directory.
pub proof fn law_creation_ends_for_a_reason(start: CreationView, events: Seq<CreationEvent>)
    requires
        start.valid(),
        start.phase is CheckFolder,
        !start.failed,
    ensures
        ({
            let end = run(start, events);
            &&& end.phase is Skipped ==> found_existing(start, events)
            &&& end.phase is Failed ==> action_failed(events)
            &&& end.phase.flagged() ==> directory_found(start, events)
            &&& end.phase is DropFlag ==> if end.failed {
                action_failed(events)
            } else {
                found_existing(start, events)
            }
        }),
    decreases events.len(),
{
    if events.len() > 0 {
        let rest = events.drop_last();
        law_creation_ends_for_a_reason(start, rest);
        if action_failed(rest) {
            let i = choose|i: int| 0 <= i < rest.len() && (#[trigger] rest[i]) is Failed;
            assert(events[i] is Failed);
        }
        assert(events.last() is Failed ==> events[events.len() - 1] is Failed);
    }
}

} // verus!
