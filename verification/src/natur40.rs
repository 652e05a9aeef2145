//! The datasets of a Natur 4.0 server.

use crate::text;
use crate::text::{clone_strings, decimal_text, find_last, parse_isize};
use vstd::prelude::*;
use vstd::string::*;

verus! {

/// Where a server is, and who may access it.
#[derive(Debug)]
pub struct Natur40DataProviderDefinition {
    pub id: u128,
    pub name: String,
    pub base_url: String,
    pub user: String,
    pub password: String,
}

impl Natur40DataProviderDefinition {
    /// The provider of the datasets on the server.
    pub fn initialize(self) -> (r: Natur40DataProvider)
        ensures
            r.id == self.id,
            r.base_url == self.base_url,
            r.user == self.user,
            r.password == self.password,
    {
        Natur40DataProvider {
            id: self.id,
            base_url: self.base_url,
            user: self.user,
            password: self.password,
        }
    }

    /// The type of the provider.
    pub fn provider_type(&self) -> (r: String)
        ensures
            r@ == "Natur4.0"@,
    {
        "Natur4.0".to_string()
    }

    /// The name of the provider.
    pub fn name(&self) -> (r: String)
        ensures
            r == self.name,
    {
        self.name.clone()
    }

    /// The identifier of the provider.
    pub fn id(&self) -> (r: u128)
        ensures
            r == self.id,
    {
        self.id
    }
}

/// Provides the datasets on a server.
#[derive(Debug)]
pub struct Natur40DataProvider {
    pub id: u128,
    pub base_url: String,
    pub user: String,
    pub password: String,
}

/// A raster database on a server.
#[derive(Debug)]
pub struct RasterDb {
    pub name: String,
    pub title: String,
    pub tags: Vec<String>,
}

/// The address of the coverage of a raster database.
pub open spec fn coverage_url(base_url: Seq<char>, name: Seq<char>) -> Seq<char> {
    "WCS:"@ + base_url + "/rasterdb/"@ + name + "/wcs?VERSION=1.0.0&COVERAGE="@ + name
}

impl RasterDb {
    /// The address of the coverage of a raster database.
    pub fn url_from_name(base_url: &str, name: &str) -> (r: String)
        ensures
            r@ == coverage_url(base_url@, name@),
    {
        let mut r = "WCS:".to_string();
        r.append(base_url);
        r.append("/rasterdb/");
        r.append(name);
        r.append("/wcs?VERSION=1.0.0&COVERAGE=");
        r.append(name);
        r
    }

    /// The address of the coverage of this raster database.
    pub fn url(&self, base_url: &str) -> (r: String)
        ensures
            r@ == coverage_url(base_url@, self.name@),
    {
        Self::url_from_name(base_url, self.name.as_str())
    }
}

/// A dataset that is offered, with a description `D` of its data.
#[derive(Debug)]
pub struct DatasetListing<D> {
    pub provider_id: u128,
    pub dataset_id: String,
    pub name: String,
    pub description: String,
    pub tags: Vec<String>,
    pub source_operator: String,
    pub result_descriptor: D,
    pub symbology: Option<String>,
}

/// A dataset that is offered.
pub struct ListingView<D> {
    pub provider_id: u128,
    pub dataset_id: Seq<char>,
    pub name: Seq<char>,
    pub description: Seq<char>,
    pub tags: Seq<Seq<char>>,
    pub source_operator: Seq<char>,
    pub result_descriptor: D,
    pub symbology: Option<Seq<char>>,
}

impl<D> View for DatasetListing<D> {
    type V = ListingView<D>;

    open spec fn view(&self) -> ListingView<D> {
        ListingView {
            provider_id: self.provider_id,
            dataset_id: self.dataset_id@,
            name: self.name@,
            description: self.description@,
            tags: text::texts(self.tags@),
            source_operator: self.source_operator@,
            result_descriptor: self.result_descriptor,
            symbology: text::option_text(self.symbology),
        }
    }
}

/// The texts of listings.
pub open spec fn listing_views<D>(listings: Seq<DatasetListing<D>>) -> Seq<ListingView<D>> {
    Seq::new(listings.len(), |i: int| listings[i]@)
}

/// The identifier of a band of a raster database.
pub open spec fn band_id(name: Seq<char>, band_index: nat) -> Seq<char> {
    name + ":"@ + text::decimal(band_index)
}

/// The listing of a band of a raster database.
pub open spec fn listing_of<D>(
    provider_id: u128,
    db: RasterDb,
    band_index: nat,
    result_descriptor: D,
) -> ListingView<D> {
    ListingView {
        provider_id,
        dataset_id: band_id(db.name@, band_index),
        name: db.title@,
        description: "Band: "@ + text::decimal(band_index),
        tags: text::texts(db.tags@),
        source_operator: "GdalSource"@,
        result_descriptor,
        symbology: None,
    }
}

/// The listings of the first `n` bands of a raster database. The bands are numbered from one on;
/// those that could not be described are left out.
pub open spec fn band_listings<D>(
    provider_id: u128,
    db: RasterDb,
    descriptors: Seq<Option<D>>,
    n: nat,
) -> Seq<ListingView<D>>
    decreases n,
{
    if n == 0 || n > descriptors.len() {
        Seq::empty()
    } else {
        let rest = band_listings(provider_id, db, descriptors, (n - 1) as nat);
        match descriptors[n - 1] {
            Some(descriptor) => rest.push(listing_of(provider_id, db, n, descriptor)),
            None => rest,
        }
    }
}

/// The listings of the first `n` raster databases. Those that could not be opened are left out.
pub open spec fn db_listings<D>(
    provider_id: u128,
    dbs: Seq<RasterDb>,
    datasets: Seq<Option<Vec<Option<D>>>>,
    n: nat,
) -> Seq<ListingView<D>>
    decreases n,
{
    if n == 0 || n > dbs.len() || n > datasets.len() {
        Seq::empty()
    } else {
        let rest = db_listings(provider_id, dbs, datasets, (n - 1) as nat);
        match datasets[n - 1] {
            Some(descriptors) => rest + band_listings(
                provider_id,
                dbs[n - 1],
                descriptors@,
                descriptors@.len(),
            ),
            None => rest,
        }
    }
}

/// The bands of a dataset that are offered: from the first one up to, but without, the last one.
pub fn band_indices(raster_count: isize) -> (r: Vec<isize>)
    ensures
        r@.len() == if raster_count >= 1 {
            raster_count - 1
        } else {
            0
        },
        forall|i: int| 0 <= i < r@.len() ==> #[trigger] r@[i] == i + 1,
{
    let mut r: Vec<isize> = Vec::new();
    let mut band_index: isize = 1;
    while band_index < raster_count
        invariant
            1 <= band_index,
            if raster_count >= 1 {
                band_index <= raster_count
            } else {
                band_index == 1
            },
            r@.len() == band_index - 1,
            forall|i: int| 0 <= i < r@.len() ==> #[trigger] r@[i] == i + 1,
        decreases raster_count - band_index,
    {
        r.push(band_index);
        band_index = band_index + 1;
    }
    r
}

/// What identifies a dataset.
#[derive(Debug)]
pub enum DatasetId {
    Internal { dataset_id: u128 },
    External { provider_id: u128, dataset_id: String },
}

/// Why a request cannot be met.
#[derive(Debug, Clone, Copy, PartialEq, Eq, Structural)]
pub enum ProviderError {
    InvalidExternalDatasetId { provider: u128 },
    NotYetImplemented,
}

/// The raster database and the band that an identifier denotes: a name and an integer with one
/// colon between them.
pub open spec fn parsed_band_id(id: Seq<char>) -> Option<(Seq<char>, int)> {
    match text::last_position(id, ':') {
        Some(p) if !id.take(p).contains(':') => match text::parsed_integer(id.skip(p + 1)) {
            Some(band) if isize::MIN <= band <= isize::MAX => Some((id.take(p), band)),
            _ => None,
        },
        _ => None,
    }
}

/// The coverage to load, and the band of it.
#[derive(Debug)]
pub struct BandRequest {
    pub db_url: String,
    pub band_index: isize,
}

impl Natur40DataProvider {
    /// The options under which datasets are opened.
    pub fn auth(&self) -> (r: [String; 2])
        ensures
            r@[0]@ == "UserPwd="@ + self.user@ + ":"@ + self.password@,
            r@[1]@ == "HttpAuth=BASIC"@,
    {
        let mut user_pwd = "UserPwd=".to_string();
        user_pwd.append(self.user.as_str());
        user_pwd.append(":");
        user_pwd.append(self.password.as_str());
        [user_pwd, "HttpAuth=BASIC".to_string()]
    }

    /// The address of the list of raster databases.
    pub fn raster_dbs_url(&self) -> (r: String)
        ensures
            r@ == self.base_url@ + "/rasterdbs.json"@,
    {
        let mut r = self.base_url.clone();
        r.append("/rasterdbs.json");
        r
    }

    /// Appends the listings of the bands of a raster database.
    fn list_bands<D>(
        &self,
        listing: &mut Vec<DatasetListing<D>>,
        db: &RasterDb,
        descriptors: Vec<Option<D>>,
    )
        ensures
            listing_views(final(listing)@) == listing_views(old(listing)@) + band_listings(
                self.id,
                *db,
                descriptors@,
                descriptors@.len(),
            ),
    {
        let ghost start = listing_views(listing@);
        let ghost all = descriptors@;
        let number_of_bands: usize = descriptors.len();
        let mut band_index: usize = 0;
        assert(start =~= start + band_listings(self.id, *db, all, 0));
        for descriptor in it: descriptors
            invariant
                it.seq() == all,
                all.len() == number_of_bands,
                band_index == it.index(),
                listing_views(listing@) == start + band_listings(
                    self.id,
                    *db,
                    all,
                    band_index as nat,
                ),
        {
            let ghost before = listing_views(listing@);
            band_index = band_index + 1;
            if let Some(result_descriptor) = descriptor {
                let number = decimal_text(band_index);
                let mut dataset_id = db.name.clone();
                dataset_id.append(":");
                dataset_id.append(number.as_str());
                let mut description = "Band: ".to_string();
                description.append(number.as_str());
                listing.push(
                    DatasetListing {
                        provider_id: self.id,
                        dataset_id,
                        name: db.title.clone(),
                        description,
                        tags: clone_strings(&db.tags),
                        source_operator: "GdalSource".to_string(),
                        result_descriptor,
                        symbology: None,
                    },
                );
                assert(listing_views(listing@) =~= before.push(
                    listing_of(self.id, *db, band_index as nat, result_descriptor),
                ));
            }
            assert(listing_views(listing@) =~= start + band_listings(
                self.id,
                *db,
                all,
                band_index as nat,
            ));
        }
    }

    /// Lists the bands of raster databases. For each database there are the descriptions of the
    /// bands that `band_indices` tells, as far as they could be described, or nothing if the
    /// database could not be opened.
    pub fn list<D>(&self, dbs: &Vec<RasterDb>, datasets: Vec<Option<Vec<Option<D>>>>) -> (r: Vec<
        DatasetListing<D>,
    >)
        requires
            dbs@.len() == datasets@.len(),
        ensures
            listing_views(r@) == db_listings(self.id, dbs@, datasets@, dbs@.len()),
    {
        let ghost all = datasets@;
        let mut listing: Vec<DatasetListing<D>> = Vec::new();
        let number_of_dbs: usize = dbs.len();
        let mut index: usize = 0;
        assert(listing_views(listing@) =~= db_listings(self.id, dbs@, all, 0));
        for dataset in it: datasets
            invariant
                it.seq() == all,
                dbs@.len() == all.len() == number_of_dbs,
                index == it.index(),
                listing_views(listing@) == db_listings(self.id, dbs@, all, index as nat),
        {
            let db = &dbs[index];
            if let Some(descriptors) = dataset {
                self.list_bands(&mut listing, db, descriptors);
            }
            index = index + 1;
        }
        listing
    }

    /// Single datasets are not loaded yet.
    pub fn load(&self, _dataset: &DatasetId) -> (r: Result<(), ProviderError>)
        ensures
            r == Err::<(), ProviderError>(ProviderError::NotYetImplemented),
    {
        Err(ProviderError::NotYetImplemented)
    }

    /// The coverage and the band that an identifier denotes. An identifier that is not one of a
    /// band is an error.
    pub fn meta_data(&self, dataset: &DatasetId) -> (r: Result<BandRequest, ProviderError>)
        ensures
            match dataset {
                DatasetId::External { provider_id: _, dataset_id } => match parsed_band_id(
                    dataset_id@,
                ) {
                    Some((name, band)) => r matches Ok(request) && request.db_url@ == coverage_url(
                        self.base_url@,
                        name,
                    ) && request.band_index == band,
                    None => r == Err::<BandRequest, _>(
                        ProviderError::InvalidExternalDatasetId { provider: self.id },
                    ),
                },
                DatasetId::Internal { .. } => r == Err::<BandRequest, _>(
                    ProviderError::InvalidExternalDatasetId { provider: self.id },
                ),
            },
    {
        let invalid = ProviderError::InvalidExternalDatasetId { provider: self.id };
        let dataset_id = match dataset {
            DatasetId::External { provider_id: _, dataset_id } => dataset_id.as_str(),
            DatasetId::Internal { .. } => {
                return Err(invalid);
            },
        };
        let p: usize = match find_last(dataset_id, ':') {
            Some(p) => p,
            None => {
                return Err(invalid);
            },
        };
        let n: usize = dataset_id.unicode_len();
        let db_name = dataset_id.substring_char(0, p);
        let band = dataset_id.substring_char(p + 1, n);
        proof {
            assert(db_name@ =~= dataset_id@.take(p as int));
            assert(band@ =~= dataset_id@.skip(p + 1));
            text::lemma_last_position(db_name@, ':');
        }
        if find_last(db_name, ':').is_some() {
            return Err(invalid);
        }
        match parse_isize(band) {
            Some(band_index) => Ok(
                BandRequest {
                    db_url: RasterDb::url_from_name(self.base_url.as_str(), db_name),
                    band_index,
                },
            ),
            None => Err(invalid),
        }
    }
}

/// The identifier under which a band is listed denotes the band, if there is no colon in the
/// name of the raster database.
pub proof fn law_listed_id_denotes_band(name: Seq<char>, band_index: nat)
    requires
        !name.contains(':'),
        band_index <= isize::MAX,
    ensures
        parsed_band_id(band_id(name, band_index)) == Some((name, band_index as int)),
{
    reveal_strlit(":");
    let id = band_id(name, band_index);
    let number = text::decimal(band_index);
    let p = name.len() as int;
    text::lemma_decimal_denotes(band_index);
    text::lemma_decimal_parses(band_index);
    assert(id[p] == ':');
    assert forall|i: int| p < i < id.len() implies id[i] != ':' by {
        assert(id[i] == number[i - p - 1]);
        assert(text::is_digit(number[i - p - 1]));
    }
    text::lemma_last_position_unique(id, ':', p);
    assert(id.take(p) =~= name);
    assert(id.skip(p + 1) =~= number);
}

/// An identifier denotes a band exactly if it is a name without a colon, a colon, and an integer
/// that is in range: then it denotes the database of that name and the band of that number.
pub proof fn law_band_ids_have_one_colon(id: Seq<char>, name: Seq<char>, number: Seq<char>)
    ensures
        !name.contains(':') && !number.contains(':') ==> parsed_band_id(
            name.push(':') + number,
        ) == match text::parsed_integer(number) {
            Some(band) if isize::MIN <= band <= isize::MAX => Some((name, band)),
            _ => None,
        },
        text::split(id, ':').len() != 2 ==> parsed_band_id(id) is None,
{
    if !name.contains(':') && !number.contains(':') {
        text::lemma_last_part(name, ':', number);
        let whole = name.push(':') + number;
        assert(whole.skip(name.len() as int + 1) =~= number);
    }
    text::lemma_last_position(id, ':');
    match text::last_position(id, ':') {
        Some(p) => {
            if !id.take(p).contains(':') {
                text::lemma_last_part(Seq::empty(), ':', id.take(p));
                assert(text::split(id, ':').len() == 2);
            }
        },
        None => {},
    }
}

/// The address of a coverage leads to the server, and there to the raster database, of which it
/// asks for the coverage of the same name.
pub proof fn law_url_names_database(base_url: Seq<char>, name: Seq<char>)
    requires
        !name.contains('='),
    ensures
        ({
            let url = coverage_url(base_url, name);
            &&& ("WCS:"@ + base_url + "/rasterdb/"@ + name + "/wcs?"@).is_prefix_of(url)
            &&& text::after_last(url, '=') == name
        }),
{
    reveal_strlit("/wcs?VERSION=1.0.0&COVERAGE=");
    reveal_strlit("/wcs?VERSION=1.0.0&COVERAGE");
    reveal_strlit("/wcs?");
    let url = coverage_url(base_url, name);
    let middle = "/wcs?VERSION=1.0.0&COVERAGE="@;
    assert(middle =~= "/wcs?VERSION=1.0.0&COVERAGE"@.push('='));
    let head = "WCS:"@ + base_url + "/rasterdb/"@ + name + "/wcs?VERSION=1.0.0&COVERAGE"@;
    assert(url =~= head.push('=') + name);
    text::lemma_last_part(head, '=', name);
    let start = "WCS:"@ + base_url + "/rasterdb/"@ + name + "/wcs?"@;
    assert("/wcs?"@ =~= middle.subrange(0, 5));
    assert(start =~= url.subrange(0, start.len() as int));
}

/// Whether a band could be described: the one at position `j` of the database at position `i`.
pub open spec fn described<D>(
    datasets: Seq<Option<Vec<Option<D>>>>,
    i: int,
    j: int,
) -> bool {
    &&& 0 <= i < datasets.len()
    &&& datasets[i] is Some
    &&& 0 <= j < datasets[i]->0@.len()
    &&& datasets[i]->0@[j] is Some
}

/// Whether a listing offers a band of a raster database: its identifier denotes the band, its
/// description tells the number, and the rest is that of the provider and the database.
pub open spec fn offers<D>(
    listing: DatasetListing<D>,
    provider_id: u128,
    db: RasterDb,
    band_index: nat,
    result_descriptor: D,
) -> bool {
    &&& listing.provider_id == provider_id
    &&& listing.name@ == db.title@
    &&& listing.tags@.len() == db.tags@.len()
    &&& forall|t: int| 0 <= t < db.tags@.len() ==> (#[trigger] listing.tags@[t])@ == db.tags@[t]@
    &&& listing.source_operator@ == "GdalSource"@
    &&& listing.result_descriptor == result_descriptor
    &&& listing.symbology is None
    &&& text::parsed_integer(text::after_last(listing.description@, ' ')) == Some(band_index as int)
    &&& !db.name@.contains(':') && band_index <= isize::MAX ==> parsed_band_id(listing.dataset_id@)
        == Some((db.name@, band_index as int))
}

proof fn lemma_offers<D>(
    listing: DatasetListing<D>,
    provider_id: u128,
    db: RasterDb,
    band_index: nat,
    result_descriptor: D,
)
    requires
        listing@ == listing_of(provider_id, db, band_index, result_descriptor),
    ensures
        offers(listing, provider_id, db, band_index, result_descriptor),
{
    reveal_strlit("Band: ");
    reveal_strlit("Band:");
    let number = text::decimal(band_index);
    text::lemma_decimal_denotes(band_index);
    text::lemma_decimal_parses(band_index);
    assert forall|i: int| 0 <= i < number.len() implies number[i] != ' ' by {
        assert(text::is_digit(number[i]));
    }
    text::lemma_last_part("Band:"@, ' ', number);
    assert(listing.description@ =~= "Band:"@.push(' ') + number);
    if !db.name@.contains(':') && band_index <= isize::MAX {
        law_listed_id_denotes_band(db.name@, band_index);
    }
    let tags = text::texts(listing.tags@);
    assert(tags.len() == listing.tags@.len());
    assert forall|t: int| 0 <= t < db.tags@.len() implies (#[trigger] listing.tags@[t])@
        == db.tags@[t]@ by {
        assert(tags[t] == text::texts(db.tags@)[t]);
    }
}

/// Whether a band comes before another one: that of an earlier database, or an earlier one of the
/// same.
pub open spec fn band_before(a: (int, int), b: (int, int)) -> bool {
    a.0 < b.0 || (a.0 == b.0 && a.1 < b.1)
}

/// The positions of the bands that the listings of the first `n` bands of a database are about.
proof fn lemma_bands_listed<D>(
    provider_id: u128,
    db: RasterDb,
    descriptors: Seq<Option<D>>,
    n: nat,
) -> (from: Seq<int>)
    requires
        n <= descriptors.len(),
    ensures
        ({
            let listings = band_listings(provider_id, db, descriptors, n);
            &&& from.len() == listings.len()
            &&& forall|k: int|
                0 <= k < from.len() ==> {
                    &&& 0 <= #[trigger] from[k] < n
                    &&& descriptors[from[k]] is Some
                    &&& listings[k] == listing_of(
                        provider_id,
                        db,
                        (from[k] + 1) as nat,
                        descriptors[from[k]]->0,
                    )
                }
            &&& forall|k: int, m: int|
                0 <= k < m < from.len() ==> #[trigger] from[k] < #[trigger] from[m]
            &&& forall|j: int|
                0 <= j < n && (#[trigger] descriptors[j]) is Some ==> from.contains(j)
        }),
    decreases n,
{
    if n == 0 {
        Seq::empty()
    } else {
        let before = lemma_bands_listed(provider_id, db, descriptors, (n - 1) as nat);
        if descriptors[n - 1] is Some {
            let from = before.push(n - 1);
            assert forall|j: int| 0 <= j < n && (
            #[trigger] descriptors[j]) is Some implies from.contains(j) by {
                if j < n - 1 {
                    let k = choose|k: int| 0 <= k < before.len() && before[k] == j;
                    assert(from[k] == j);
                } else {
                    assert(from[from.len() - 1] == j);
                }
            }
            from
        } else {
            before
        }
    }
}

/// Whether listings are about the bands at the given positions: all that could be described in
/// the first `n` databases, in their order, and each of them once.
pub open spec fn lists_bands<D>(
    provider_id: u128,
    dbs: Seq<RasterDb>,
    datasets: Seq<Option<Vec<Option<D>>>>,
    n: nat,
    listings: Seq<ListingView<D>>,
    from: Seq<(int, int)>,
) -> bool {
    &&& from.len() == listings.len()
    &&& forall|k: int|
        0 <= k < from.len() ==> {
            let (i, j) = #[trigger] from[k];
            &&& i < n
            &&& described(datasets, i, j)
            &&& listings[k] == listing_of(
                provider_id,
                dbs[i],
                (j + 1) as nat,
                datasets[i]->0@[j]->0,
            )
        }
    &&& forall|k: int, m: int|
        0 <= k < m < from.len() ==> band_before(#[trigger] from[k], #[trigger] from[m])
    &&& forall|i: int, j: int|
        i < n && #[trigger] described(datasets, i, j) ==> from.contains((i, j))
}

proof fn lemma_dbs_listed<D>(
    provider_id: u128,
    dbs: Seq<RasterDb>,
    datasets: Seq<Option<Vec<Option<D>>>>,
    n: nat,
) -> (from: Seq<(int, int)>)
    requires
        n <= dbs.len(),
        dbs.len() == datasets.len(),
    ensures
        lists_bands(
            provider_id,
            dbs,
            datasets,
            n,
            db_listings(provider_id, dbs, datasets, n),
            from,
        ),
    decreases n,
{
    if n == 0 {
        Seq::empty()
    } else {
        let before = lemma_dbs_listed(provider_id, dbs, datasets, (n - 1) as nat);
        match datasets[n - 1] {
            Some(descriptors) => {
                let bands = lemma_bands_listed(
                    provider_id,
                    dbs[n - 1],
                    descriptors@,
                    descriptors@.len(),
                );
                let own = Seq::new(bands.len(), |k: int| (n - 1, bands[k]));
                let from = before + own;
                let listings = db_listings(provider_id, dbs, datasets, n);
                let earlier = db_listings(provider_id, dbs, datasets, (n - 1) as nat);
                let added = band_listings(
                    provider_id,
                    dbs[n - 1],
                    descriptors@,
                    descriptors@.len(),
                );
                assert(listings == earlier + added);
                assert forall|k: int| 0 <= k < from.len() implies {
                    let (i, j) = #[trigger] from[k];
                    &&& i < n
                    &&& described(datasets, i, j)
                    &&& listings[k] == listing_of(
                        provider_id,
                        dbs[i],
                        (j + 1) as nat,
                        datasets[i]->0@[j]->0,
                    )
                } by {
                    if k < before.len() {
                        assert(from[k] == before[k]);
                        assert(listings[k] == earlier[k]);
                    } else {
                        let m = k - before.len();
                        assert(from[k] == (n - 1, bands[m]));
                        assert(listings[k] == added[m]);
                    }
                }
                assert forall|k: int, m: int| 0 <= k < m < from.len() implies band_before(
                    #[trigger] from[k],
                    #[trigger] from[m],
                ) by {
                    if m < before.len() {
                        assert(from[k] == before[k] && from[m] == before[m]);
                    } else if k < before.len() {
                        assert(from[k] == before[k]);
                    } else {
                        assert(bands[k - before.len()] < bands[m - before.len()]);
                    }
                }
                assert forall|i: int, j: int| i < n && #[trigger] described(
                    datasets,
                    i,
                    j,
                ) implies from.contains((i, j)) by {
                    if i < n - 1 {
                        let k = choose|k: int| 0 <= k < before.len() && before[k] == (i, j);
                        assert(from[k] == (i, j));
                    } else {
                        assert(descriptors@[j] is Some);
                        let k = choose|k: int| 0 <= k < bands.len() && bands[k] == j;
                        assert(from[before.len() + k] == (i, j));
                    }
                }
                from
            },
            None => {
                assert forall|i: int, j: int| i < n && #[trigger] described(
                    datasets,
                    i,
                    j,
                ) implies before.contains((i, j)) by {
                    assert(i < n - 1);
                }
                before
            },
        }
    }
}

/// The bands that could be described are offered, all of them and nothing else, each of them once
/// and in the order of the databases and their bands.
pub proof fn law_described_bands_are_offered<D>(
    provider_id: u128,
    dbs: Seq<RasterDb>,
    datasets: Seq<Option<Vec<Option<D>>>>,
    listings: Seq<DatasetListing<D>>,
) -> (from: Seq<(int, int)>)
    requires
        dbs.len() == datasets.len(),
        listing_views(listings) == db_listings(provider_id, dbs, datasets, dbs.len()),
    ensures
        from.len() == listings.len(),
        forall|k: int|
            0 <= k < from.len() ==> {
                let (i, j) = #[trigger] from[k];
                described(datasets, i, j) && offers(
                    listings[k],
                    provider_id,
                    dbs[i],
                    (j + 1) as nat,
                    datasets[i]->0@[j]->0,
                )
            },
        forall|k: int, m: int|
            0 <= k < m < from.len() ==> band_before(#[trigger] from[k], #[trigger] from[m]),
        forall|i: int, j: int| #[trigger] described(datasets, i, j) ==> from.contains((i, j)),
{
    let from = lemma_dbs_listed(provider_id, dbs, datasets, dbs.len());
    let views = listing_views(listings);
    assert(views.len() == listings.len());
    assert forall|k: int| 0 <= k < from.len() implies {
        let (i, j) = #[trigger] from[k];
        described(datasets, i, j) && offers(
            listings[k],
            provider_id,
            dbs[i],
            (j + 1) as nat,
            datasets[i]->0@[j]->0,
        )
    } by {
        let (i, j) = from[k];
        assert(views[k] == listings[k]@);
        lemma_offers(
            listings[k],
            provider_id,
            dbs[i],
            (j + 1) as nat,
            datasets[i]->0@[j]->0,
        );
    }
    from
}

} // verus!
