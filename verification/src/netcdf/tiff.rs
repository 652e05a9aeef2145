//! How a single overview is written: creation options of cloud-optimized GeoTIFFs and the
//! extraction of one array slice into one file.

use crate::netcdf::groups::{ConversionMetadata, ConversionView};
use crate::text;
use crate::text::{decimal_text, join_path};
use vstd::prelude::*;
use vstd::string::*;

verus! {

/// How pixels are combined when an overview is downsampled.
#[derive(Debug, Clone, Copy, PartialEq, Eq, Structural)]
pub enum ResamplingMethod {
    Nearest,
    Average,
    Bilinear,
    Cubic,
    CubicSpline,
    Lanczos,
}

impl ResamplingMethod {
    /// The name of the method as GDAL spells it.
    pub open spec fn gdal_name(self) -> Seq<char> {
        match self {
            ResamplingMethod::Nearest => "NEAREST"@,
            ResamplingMethod::Average => "AVERAGE"@,
            ResamplingMethod::Bilinear => "BILINEAR"@,
            ResamplingMethod::Cubic => "CUBIC"@,
            ResamplingMethod::CubicSpline => "CUBICSPLINE"@,
            ResamplingMethod::Lanczos => "LANCZOS"@,
        }
    }

    /// The name of the method as GDAL spells it.
    pub fn to_string(&self) -> (r: String)
        ensures
            r@ == self.gdal_name(),
    {
        let s = match self {
            Self::Nearest => "NEAREST",
            Self::Average => "AVERAGE",
            Self::Bilinear => "BILINEAR",
            Self::Cubic => "CUBIC",
            Self::CubicSpline => "CUBICSPLINE",
            Self::Lanczos => "LANCZOS",
        };
        s.to_string()
    }
}

/// The compression settings of the application.
#[derive(Debug)]
pub struct GdalConfig {
    pub compression_num_threads: String,
    pub compression_algorithm: Option<String>,
    pub compression_z_level: Option<u8>,
}

/// A creation option.
#[derive(Debug)]
pub struct RasterCreationOption {
    pub key: String,
    pub value: String,
}

impl View for RasterCreationOption {
    type V = (Seq<char>, Seq<char>);

    open spec fn view(&self) -> (Seq<char>, Seq<char>) {
        (self.key@, self.value@)
    }
}

/// The texts of a list of options.
pub open spec fn option_views(options: Seq<RasterCreationOption>) -> Seq<(Seq<char>, Seq<char>)> {
    Seq::new(options.len(), |i: int| options[i]@)
}

/// The settings of which the creation options consist.
#[derive(Debug)]
pub struct CogRasterCreationOptions {
    compression_format: String,
    compression_level: String,
    num_threads: String,
    resampling_method: String,
}

/// The texts of the settings.
pub struct CogView {
    pub compression_format: Seq<char>,
    pub compression_level: Seq<char>,
    pub num_threads: Seq<char>,
    pub resampling_method: Seq<char>,
}

impl View for CogRasterCreationOptions {
    type V = CogView;

    closed spec fn view(&self) -> CogView {
        CogView {
            compression_format: self.compression_format@,
            compression_level: self.compression_level@,
            num_threads: self.num_threads@,
            resampling_method: self.resampling_method@,
        }
    }
}

/// The settings under a configuration: without an algorithm LZW, without a level 6, and without a
/// method the nearest neighbor.
pub open spec fn configured(
    config: GdalConfig,
    resampling_method: Option<ResamplingMethod>,
) -> CogView {
    CogView {
        compression_format: match config.compression_algorithm {
            Some(algorithm) => algorithm@,
            None => "LZW"@,
        },
        compression_level: text::decimal(
            match config.compression_z_level {
                Some(level) => level as nat,
                None => 6,
            },
        ),
        num_threads: config.compression_num_threads@,
        resampling_method: match resampling_method {
            Some(method) => method.gdal_name(),
            None => ResamplingMethod::Nearest.gdal_name(),
        },
    }
}

/// The creation options: compression, threads, block size, file size and resampling.
pub open spec fn cog_options(cog: CogView) -> Seq<(Seq<char>, Seq<char>)> {
    seq![
        ("COMPRESS"@, cog.compression_format),
        ("LEVEL"@, cog.compression_level),
        ("NUM_THREADS"@, cog.num_threads),
        ("BLOCKSIZE"@, "512"@),
        ("BIGTIFF"@, "IF_SAFER"@),
        ("RESAMPLING"@, cog.resampling_method),
    ]
}

fn creation_option(key: &str, value: &str) -> (r: RasterCreationOption)
    ensures
        r@ == (key@, value@),
{
    RasterCreationOption { key: key.to_string(), value: value.to_string() }
}

impl CogRasterCreationOptions {
    /// The settings under a configuration: without an algorithm LZW, without a level 6, and
    /// without a method the nearest neighbor.
    pub fn new(gdal_options: &GdalConfig, resampling_method: Option<ResamplingMethod>) -> (r: Self)
        ensures
            r@ == configured(*gdal_options, resampling_method),
    {
        let compression_format = match &gdal_options.compression_algorithm {
            Some(algorithm) => algorithm.clone(),
            None => "LZW".to_string(),
        };
        let level: u8 = match gdal_options.compression_z_level {
            Some(level) => level,
            None => 6,
        };
        let method = match resampling_method {
            Some(method) => method,
            None => ResamplingMethod::Nearest,
        };
        Self {
            compression_format,
            compression_level: decimal_text(level as usize),
            num_threads: gdal_options.compression_num_threads.clone(),
            resampling_method: method.to_string(),
        }
    }

    /// The creation options.
    pub fn options(&self) -> (r: Vec<RasterCreationOption>)
        ensures
            option_views(r@) == cog_options(self@),
    {
        let r = vec![
            creation_option("COMPRESS", self.compression_format.as_str()),
            creation_option("LEVEL", self.compression_level.as_str()),
            creation_option("NUM_THREADS", self.num_threads.as_str()),
            creation_option("BLOCKSIZE", "512"),
            creation_option("BIGTIFF", "IF_SAFER"),
            creation_option("RESAMPLING", self.resampling_method.as_str()),
        ];
        assert(option_views(r@) =~= cog_options(self@));
        r
    }
}

/// The extraction of one slice of an array into one file.
#[derive(Debug)]
pub struct TiffJob {
    /// The file to write.
    pub destination: String,
    /// The dataset whose spatial reference the file has.
    pub sref_dataset: String,
    /// The options of the extraction.
    pub options: Vec<String>,
}

/// The directory of an entity's overviews.
pub open spec fn entity_directory(base: Seq<char>, entity: nat) -> Seq<char> {
    text::joined_path(base, text::decimal(entity))
}

/// The file of an entity's overview at a point in time.
pub open spec fn overview_file(base: Seq<char>, entity: nat, time: Seq<char>) -> Seq<char> {
    text::joined_path(entity_directory(base, entity), time + ".tiff"@)
}

/// Selects an entity and a time step of an array.
pub open spec fn array_selection(array_path: Seq<char>, entity: nat, time_idx: nat) -> Seq<char> {
    "name=/"@ + array_path + ",view=["@ + text::decimal(entity) + ","@ + text::decimal(time_idx)
        + ",:,:]"@
}

/// The arguments for the first `n` creation options.
pub open spec fn creation_arguments(
    options: Seq<(Seq<char>, Seq<char>)>,
    n: nat,
) -> Seq<Seq<char>>
    decreases n,
{
    if n == 0 || n > options.len() {
        Seq::empty()
    } else {
        creation_arguments(options, (n - 1) as nat).push("-co"@).push(
            options[n - 1].0 + "="@ + options[n - 1].1,
        )
    }
}

/// The options of an extraction.
pub open spec fn extraction_options(
    array_path: Seq<char>,
    entity: nat,
    time_idx: nat,
    options: Seq<(Seq<char>, Seq<char>)>,
) -> Seq<Seq<char>> {
    seq!["-array"@, array_selection(array_path, entity, time_idx), "-of"@, "COG"@]
        + creation_arguments(options, options.len())
}

fn array_selection_text(array_path: &str, entity: usize, time_idx: usize) -> (r: String)
    ensures
        r@ == array_selection(array_path@, entity as nat, time_idx as nat),
{
    let mut r = "name=/".to_string();
    r.append(array_path);
    r.append(",view=[");
    r.append(decimal_text(entity).as_str());
    r.append(",");
    r.append(decimal_text(time_idx).as_str());
    r.append(",:,:]");
    r
}

/// The directory of an entity's overviews.
pub fn entity_directory_of(conversion: &ConversionMetadata, entity: usize) -> (r: String)
    ensures
        r@ == entity_directory(conversion@.dataset_out_base, entity as nat),
{
    join_path(conversion.dataset_out_base.as_str(), decimal_text(entity).as_str())
}

/// The file of an entity's overview at a point in time.
pub fn overview_file_of(conversion: &ConversionMetadata, entity: usize, time: &str) -> (r: String)
    ensures
        r@ == overview_file(conversion@.dataset_out_base, entity as nat, time@),
{
    let mut file_name = time.to_string();
    file_name.append(".tiff");
    join_path(entity_directory_of(conversion, entity).as_str(), file_name.as_str())
}

/// The extraction of an entity at a point in time.
pub fn create_subdataset_tiff(
    time: &str,
    conversion: &ConversionMetadata,
    entity: usize,
    raster_creation_options: &Vec<RasterCreationOption>,
    time_idx: usize,
) -> (r: TiffJob)
    ensures
        r.destination@ == overview_file(conversion@.dataset_out_base, entity as nat, time@),
        r.sref_dataset@ == conversion@.dataset_in + ":"@ + conversion@.array_path,
        text::texts(r.options@) == extraction_options(
            conversion@.array_path,
            entity as nat,
            time_idx as nat,
            option_views(raster_creation_options@),
        ),
{
    let destination = overview_file_of(conversion, entity, time);
    let mut sref_dataset = conversion.dataset_in.clone();
    sref_dataset.append(":");
    sref_dataset.append(conversion.array_path.as_str());
    let ghost views = option_views(raster_creation_options@);
    let ghost start = seq![
        "-array"@,
        array_selection(conversion@.array_path, entity as nat, time_idx as nat),
        "-of"@,
        "COG"@,
    ];
    let mut options = vec![
        "-array".to_string(),
        array_selection_text(conversion.array_path.as_str(), entity, time_idx),
        "-of".to_string(),
        "COG".to_string(),
    ];
    assert(text::texts(options@) =~= start + creation_arguments(views, 0));
    for i in 0..raster_creation_options.len()
        invariant
            views == option_views(raster_creation_options@),
            text::texts(options@) == start + creation_arguments(views, i as nat),
    {
        let ghost before = text::texts(options@);
        let option = &raster_creation_options[i];
        let mut argument = option.key.clone();
        argument.append("=");
        argument.append(option.value.as_str());
        options.push("-co".to_string());
        options.push(argument);
        assert(text::texts(options@) =~= before.push("-co"@).push(argument@));
        assert(text::texts(options@) =~= start + creation_arguments(views, (i + 1) as nat));
    }
    TiffJob { destination, sref_dataset, options }
}

/// A path below a directory ends with what was appended to it, and begins with the same text for
/// everything that is appended.
proof fn lemma_joined_relative(base: Seq<char>, path: Seq<char>) -> (prefix: Seq<char>)
    requires
        path.len() > 0,
        path[0] != '/',
    ensures
        text::joined_path(base, path) == prefix + path,
        prefix == if base.len() == 0 || base.last() == '/' {
            base
        } else {
            base.push('/')
        },
{
    if base.len() == 0 || base.last() == '/' {
        base
    } else {
        base.push('/')
    }
}

/// No two slices of an array are written to the same file: different entities and different
/// points in time have different files.
pub proof fn law_overview_files_distinct(
    base: Seq<char>,
    entity_a: nat,
    time_a: Seq<char>,
    entity_b: nat,
    time_b: Seq<char>,
)
    requires
        !time_a.contains('/'),
        !time_b.contains('/'),
    ensures
        overview_file(base, entity_a, time_a) == overview_file(base, entity_b, time_b) <==> entity_a
            == entity_b && time_a == time_b,
{
    reveal_strlit(".tiff");
    let file_a = time_a + ".tiff"@;
    let file_b = time_b + ".tiff"@;
    let da = text::decimal(entity_a);
    let db = text::decimal(entity_b);
    text::lemma_decimal_denotes(entity_a);
    text::lemma_decimal_denotes(entity_b);
    assert(text::is_digit(da[0]) && text::is_digit(db[0]));
    let prefix = lemma_joined_relative(base, da);
    lemma_joined_relative(base, db);
    let dir_a = prefix + da;
    let dir_b = prefix + db;
    assert(text::is_digit(da.last()) && text::is_digit(db.last()));
    assert(dir_a.last() == da.last() && dir_b.last() == db.last());
    assert(file_a[0] != '/') by {
        if time_a.len() > 0 {
            assert(file_a[0] == time_a[0] && time_a.contains(time_a[0]));
        }
    }
    assert(file_b[0] != '/') by {
        if time_b.len() > 0 {
            assert(file_b[0] == time_b[0] && time_b.contains(time_b[0]));
        }
    }
    lemma_joined_relative(dir_a, file_a);
    lemma_joined_relative(dir_b, file_b);
    let a = overview_file(base, entity_a, time_a);
    let b = overview_file(base, entity_b, time_b);
    assert(a == dir_a.push('/') + file_a);
    assert(b == dir_b.push('/') + file_b);
    if a == b {
        let n = prefix.len() as int;
        if da.len() < db.len() {
            assert(a[n + da.len()] == '/');
            assert(b[n + da.len()] == db[da.len() as int]);
            assert(text::is_digit(db[da.len() as int]));
        } else if db.len() < da.len() {
            assert(b[n + db.len()] == '/');
            assert(a[n + db.len()] == da[db.len() as int]);
            assert(text::is_digit(da[db.len() as int]));
        }
        assert(da.len() == db.len());
        assert forall|i: int| 0 <= i < da.len() implies da[i] == db[i] by {
            assert(a[n + i] == da[i] && b[n + i] == db[i]);
        }
        assert(da =~= db);
        text::lemma_decimal_injective(entity_a, entity_b);
        let m = n + da.len() + 1;
        assert(a.len() == m + file_a.len() && b.len() == m + file_b.len());
        assert forall|i: int| 0 <= i < time_a.len() implies time_a[i] == time_b[i] by {
            assert(a[m + i] == file_a[i] && b[m + i] == file_b[i]);
        }
        assert(time_a =~= time_b);
    }
}

/// What a selection says in front of the indices of its view.
pub open spec fn selection_head(selection: Seq<char>) -> Seq<char> {
    match text::last_position(selection, '[') {
        Some(p) => selection.take(p),
        None => selection,
    }
}

/// The indices in the view of a selection: what stands between its last `[` and the `]` at its
/// end, cut at the commas.
pub open spec fn view_indices(selection: Seq<char>) -> Seq<Seq<char>> {
    text::split(text::after_last(selection, '[').drop_last(), ',')
}

/// The view of a selection, read back, takes one entity at one point in time, and all rows and
/// columns: its first index denotes the entity, its second one the point in time.
#[verifier::spinoff_prover]
#[verifier::rlimit(60)]
pub proof fn law_view_selects_slice(array_path: Seq<char>, entity: nat, time_idx: nat)
    ensures
        ({
            let selection = array_selection(array_path, entity, time_idx);
            let indices = view_indices(selection);
            &&& selection_head(selection) == "name=/"@ + array_path + ",view="@
            &&& selection.last() == ']'
            &&& indices.len() == 4
            &&& text::parsed_integer(indices[0]) == Some(entity as int)
            &&& text::parsed_integer(indices[1]) == Some(time_idx as int)
            &&& indices[2] == seq![':']
            &&& indices[3] == seq![':']
        }),
{
    reveal_strlit("name=/");
    reveal_strlit(",view=[");
    reveal_strlit(",view=");
    reveal_strlit(",");
    reveal_strlit(",:,:]");
    let first = text::decimal(entity);
    let second = text::decimal(time_idx);
    text::lemma_decimal_denotes(entity);
    text::lemma_decimal_denotes(time_idx);
    text::lemma_decimal_parses(entity);
    text::lemma_decimal_parses(time_idx);
    assert forall|i: int| 0 <= i < first.len() implies first[i] != ',' && first[i] != '[' by {
        assert(text::is_digit(first[i]));
    }
    assert forall|i: int| 0 <= i < second.len() implies second[i] != ',' && second[i] != '[' by {
        assert(text::is_digit(second[i]));
    }
    let selection = array_selection(array_path, entity, time_idx);
    let head = "name=/"@ + array_path + ",view="@;
    let colon = seq![':'];
    let two = first.push(',') + second;
    let three = two.push(',') + colon;
    let four = three.push(',') + colon;
    let inner = four.push(']');
    assert(selection =~= head.push('[') + inner);
    text::lemma_last_part(head, '[', inner);
    assert(inner.drop_last() =~= four);
    text::lemma_last_part(Seq::empty(), ',', first);
    text::lemma_last_part(first, ',', second);
    text::lemma_last_part(two, ',', colon);
    text::lemma_last_part(three, ',', colon);
}

/// The file of an overview, read back, lies in a directory whose name denotes the entity, and is
/// named after the point in time. The directory lies in that of the array.
#[verifier::spinoff_prover]
#[verifier::rlimit(60)]
pub proof fn law_file_names_slice(base: Seq<char>, entity: nat, time: Seq<char>)
    requires
        !time.contains('/'),
    ensures
        ({
            let file = overview_file(base, entity, time);
            &&& text::after_last(file, '/') == time + ".tiff"@
            &&& text::before_last_slash(file) == Some(entity_directory(base, entity))
            &&& text::parsed_integer(text::after_last(entity_directory(base, entity), '/')) == Some(
                entity as int,
            )
            &&& base.is_prefix_of(entity_directory(base, entity))
        }),
{
    reveal_strlit(".tiff");
    let number = text::decimal(entity);
    text::lemma_decimal_denotes(entity);
    text::lemma_decimal_parses(entity);
    assert(text::is_digit(number[0]) && text::is_digit(number.last()));
    assert forall|i: int| 0 <= i < number.len() implies number[i] != '/' by {
        assert(text::is_digit(number[i]));
    }
    let name = time + ".tiff"@;
    assert forall|i: int| 0 <= i < name.len() implies name[i] != '/' by {
        if i < time.len() {
            assert(time.contains(time[i]));
        }
    }
    let directory = entity_directory(base, entity);
    let prefix = lemma_joined_relative(base, number);
    assert(directory.last() == number.last());
    lemma_joined_relative(directory, name);
    text::lemma_last_part(directory, '/', name);
    text::lemma_last_part(Seq::empty(), '/', number);
    if prefix.len() > 0 {
        assert(prefix.last() == '/');
        text::lemma_last_part(prefix.drop_last(), '/', number);
        assert(prefix.drop_last().push('/') =~= prefix);
    } else {
        assert(directory =~= number);
    }
    assert(base =~= directory.subrange(0, base.len() as int));
}

/// Whether arguments set a creation option.
pub open spec fn sets(arguments: Seq<Seq<char>>, key: Seq<char>, value: Seq<char>) -> bool {
    exists|k: int|
        0 <= k < arguments.len() - 1 && #[trigger] arguments[k] == "-co"@ && arguments[k + 1] == key
            + "="@ + value
}

/// The arguments of an extraction select the array first, ask for a cloud-optimized GeoTIFF, and
/// set what the configuration and the resampling method say, and what is missing in them as GDAL
/// has it: compression with LZW, at level 6, and the nearest neighbor.
#[verifier::spinoff_prover]
#[verifier::rlimit(60)]
pub proof fn law_extraction_follows_settings(
    array_path: Seq<char>,
    entity: nat,
    time_idx: nat,
    config: GdalConfig,
    resampling_method: Option<ResamplingMethod>,
)
    ensures
        ({
            let arguments = extraction_options(
                array_path,
                entity,
                time_idx,
                cog_options(configured(config, resampling_method)),
            );
            &&& arguments.len() == 16
            &&& arguments[0] == "-array"@
            &&& arguments[1] == array_selection(array_path, entity, time_idx)
            &&& arguments[2] == "-of"@
            &&& arguments[3] == "COG"@
            &&& sets(
                arguments,
                "COMPRESS"@,
                if config.compression_algorithm is Some {
                    config.compression_algorithm->0@
                } else {
                    "LZW"@
                },
            )
            &&& sets(
                arguments,
                "LEVEL"@,
                if config.compression_z_level is Some {
                    text::decimal(config.compression_z_level->0 as nat)
                } else {
                    text::decimal(6)
                },
            )
            &&& sets(arguments, "NUM_THREADS"@, config.compression_num_threads@)
            &&& sets(arguments, "BLOCKSIZE"@, "512"@)
            &&& sets(arguments, "BIGTIFF"@, "IF_SAFER"@)
            &&& sets(
                arguments,
                "RESAMPLING"@,
                if resampling_method is Some {
                    resampling_method->0.gdal_name()
                } else {
                    "NEAREST"@
                },
            )
        }),
{
    reveal_with_fuel(creation_arguments, 7);
    let options = cog_options(configured(config, resampling_method));
    let arguments = extraction_options(array_path, entity, time_idx, options);
    assert(arguments[4] == "-co"@);
    assert(arguments[6] == "-co"@);
    assert(arguments[8] == "-co"@);
    assert(arguments[10] == "-co"@);
    assert(arguments[12] == "-co"@);
    assert(arguments[14] == "-co"@);
}

/// The method that a name stands for among the resampling methods of GDAL.
pub open spec fn named_method(name: Seq<char>) -> Option<ResamplingMethod> {
    if name == "NEAREST"@ {
        Some(ResamplingMethod::Nearest)
    } else if name == "AVERAGE"@ {
        Some(ResamplingMethod::Average)
    } else if name == "BILINEAR"@ {
        Some(ResamplingMethod::Bilinear)
    } else if name == "CUBIC"@ {
        Some(ResamplingMethod::Cubic)
    } else if name == "CUBICSPLINE"@ {
        Some(ResamplingMethod::CubicSpline)
    } else if name == "LANCZOS"@ {
        Some(ResamplingMethod::Lanczos)
    } else {
        None
    }
}

/// Every method is known to GDAL by its name.
pub proof fn law_method_names_denote(method: ResamplingMethod)
    ensures
        named_method(method.gdal_name()) == Some(method),
{
    reveal_strlit("NEAREST");
    reveal_strlit("AVERAGE");
    reveal_strlit("BILINEAR");
    reveal_strlit("CUBIC");
    reveal_strlit("CUBICSPLINE");
    reveal_strlit("LANCZOS");
    let name = method.gdal_name();
    assert(name[0] == 'N' || name[0] == 'A' || name[0] == 'B' || name[0] == 'C' || name[0] == 'L');
    assert("NEAREST"@[0] == 'N' && "AVERAGE"@[0] == 'A' && "BILINEAR"@[0] == 'B');
    assert("CUBIC"@.len() == 5 && "CUBICSPLINE"@.len() == 11);
}

} // verus!
