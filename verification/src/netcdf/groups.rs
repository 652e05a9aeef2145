//! The groups and arrays of a NetCDF file, and the conversions that they call for.

use crate::text;
use crate::text::{clone_strings, join, join_path};
use vstd::prelude::*;
use vstd::string::*;

verus! {

/// A group of a NetCDF file with the arrays that hold data.
#[derive(Debug)]
pub struct NetCdfGroup {
    pub name: String,
    pub groups: Vec<NetCdfGroup>,
    pub arrays: Vec<NetCdfArray>,
}

/// An array with the number of its entities.
#[derive(Debug)]
pub struct NetCdfArray {
    pub name: String,
    pub number_of_entities: usize,
}

impl Clone for NetCdfArray {
    fn clone(&self) -> (r: Self)
        ensures
            r == *self,
    {
        NetCdfArray { name: self.name.clone(), number_of_entities: self.number_of_entities }
    }
}

/// The conversion of one array: where it is read from, below which directory its overviews are
/// written, its path in the file, and its number of entities.
#[derive(Debug)]
pub struct ConversionMetadata {
    pub dataset_in: String,
    pub dataset_out_base: String,
    pub array_path: String,
    pub number_of_entities: usize,
}

impl Clone for ConversionMetadata {
    fn clone(&self) -> (r: Self)
        ensures
            r == *self,
    {
        ConversionMetadata {
            dataset_in: self.dataset_in.clone(),
            dataset_out_base: self.dataset_out_base.clone(),
            array_path: self.array_path.clone(),
            number_of_entities: self.number_of_entities,
        }
    }
}

/// An array together with the names of the groups that lead to it.
pub struct Located {
    pub path: Seq<Seq<char>>,
    pub array: NetCdfArray,
}

/// The arrays of a group at the given path.
pub open spec fn located_arrays(path: Seq<Seq<char>>, arrays: Seq<NetCdfArray>) -> Seq<Located> {
    Seq::new(arrays.len(), |i: int| Located { path, array: arrays[i] })
}

/// The arrays of the first `n` groups below the given path, group by group.
pub open spec fn flat_groups(path: Seq<Seq<char>>, groups: Seq<NetCdfGroup>, n: nat) -> Seq<Located>
    decreases groups, n,
{
    if n == 0 || n > groups.len() {
        Seq::empty()
    } else {
        flat_groups(path, groups, (n - 1) as nat) + flat_group(path, groups[n - 1])
    }
}

/// The arrays below a group that stands at the given path: those of its subgroups, then its own.
pub open spec fn flat_group(path: Seq<Seq<char>>, group: NetCdfGroup) -> Seq<Located>
    decreases group, 0nat,
{
    flat_groups(path.push(group.name@), group.groups@, group.groups@.len()) + located_arrays(
        path.push(group.name@),
        group.arrays@,
    )
}

/// The arrays of a file whose root group is `root`. The name of the root leads to none of them.
pub open spec fn flat_root(root: NetCdfGroup) -> Seq<Located> {
    flat_groups(Seq::empty(), root.groups@, root.groups@.len()) + located_arrays(
        Seq::empty(),
        root.arrays@,
    )
}

/// A list of paths and arrays as it is spoken of in contracts.
pub open spec fn located(list: Seq<(Vec<String>, NetCdfArray)>) -> Seq<Located> {
    Seq::new(list.len(), |i: int| Located { path: text::texts(list[i].0@), array: list[i].1 })
}

fn flatten_groups(groups: &Vec<NetCdfGroup>, path: &Vec<String>) -> (r: Vec<
    (Vec<String>, NetCdfArray),
>)
    ensures
        located(r@) == flat_groups(text::texts(path@), groups@, groups@.len()),
    decreases groups,
{
    let mut out_paths: Vec<(Vec<String>, NetCdfArray)> = Vec::new();
    assert(located(out_paths@) =~= Seq::<Located>::empty());
    for i in 0..groups.len()
        invariant
            located(out_paths@) == flat_groups(text::texts(path@), groups@, i as nat),
    {
        let mut more = groups[i].flatten_mut(clone_strings(path));
        let ghost before = out_paths@;
        let ghost added = more@;
        out_paths.append(&mut more);
        assert(located(out_paths@) =~= located(before) + located(added));
    }
    out_paths
}

fn push_arrays(
    out_paths: &mut Vec<(Vec<String>, NetCdfArray)>,
    path: &Vec<String>,
    arrays: &Vec<NetCdfArray>,
)
    ensures
        located(final(out_paths)@) == located(old(out_paths)@) + located_arrays(
            text::texts(path@),
            arrays@,
        ),
{
    let ghost start = located(out_paths@);
    let ghost all = located_arrays(text::texts(path@), arrays@);
    assert(start + all.take(0) =~= start);
    for i in 0..arrays.len()
        invariant
            all == located_arrays(text::texts(path@), arrays@),
            located(out_paths@) == start + all.take(i as int),
    {
        let ghost before = out_paths@;
        out_paths.push((clone_strings(path), arrays[i].clone()));
        assert(located(out_paths@) =~= located(before).push(all[i as int]));
        assert(all.take(i + 1) =~= all.take(i as int).push(all[i as int]));
    }
    assert(all.take(arrays@.len() as int) =~= all);
}

impl NetCdfGroup {
    /// The arrays of the file whose root group this is, with the names that lead to them.
    pub fn flatten(&self) -> (r: Vec<(Vec<String>, NetCdfArray)>)
        ensures
            located(r@) == flat_root(*self),
    {
        let root: Vec<String> = Vec::new();
        assert(text::texts(root@) =~= Seq::<Seq<char>>::empty());
        let mut out_paths = flatten_groups(&self.groups, &root);
        push_arrays(&mut out_paths, &root, &self.arrays);
        out_paths
    }

    /// The arrays below this group, which stands at the path `path_vec`.
    pub fn flatten_mut(&self, path_vec: Vec<String>) -> (r: Vec<(Vec<String>, NetCdfArray)>)
        ensures
            located(r@) == flat_group(text::texts(path_vec@), *self),
        decreases self,
    {
        let mut path_vec = path_vec;
        let ghost parent = text::texts(path_vec@);
        path_vec.push(self.name.clone());
        assert(text::texts(path_vec@) =~= parent.push(self.name@));
        let mut out_paths = flatten_groups(&self.groups, &path_vec);
        push_arrays(&mut out_paths, &path_vec, &self.arrays);
        out_paths
    }

    /// The conversions of the file `file_path` whose root group this is, into the directory
    /// `out_root_path`.
    pub fn conversion_metadata(&self, file_path: &str, out_root_path: &str) -> (r: Vec<
        ConversionMetadata,
    >)
        ensures
            conversion_views(r@) == conversions_of(file_path@, out_root_path@, *self),
    {
        let arrays = self.flatten();
        let mut metadata: Vec<ConversionMetadata> = Vec::new();
        for i in 0..arrays.len()
            invariant
                located(arrays@) == flat_root(*self),
                metadata@.len() == i,
                forall|j: int|
                    0 <= j < i ==> (#[trigger] metadata@[j])@ == conversion_of(
                        file_path@,
                        out_root_path@,
                        flat_root(*self)[j],
                    ),
        {
            let data_path = &arrays[i].0;
            let array = &arrays[i].1;
            assert(flat_root(*self)[i as int] == located(arrays@)[i as int]);
            let dataset_out_base = join_path(out_root_path, join(data_path, "/").as_str());
            let mut full_path = clone_strings(data_path);
            full_path.push(array.name.clone());
            assert(text::texts(full_path@) =~= text::texts(data_path@).push(array.name@));
            let array_path = join(&full_path, "/");
            let mut dataset_in = "NETCDF:\"".to_string();
            dataset_in.append(file_path);
            dataset_in.append("\"");
            metadata.push(
                ConversionMetadata {
                    dataset_in,
                    dataset_out_base,
                    array_path,
                    number_of_entities: array.number_of_entities,
                },
            );
        }
        metadata
    }
}

/// The texts of a conversion.
pub struct ConversionView {
    pub dataset_in: Seq<char>,
    pub dataset_out_base: Seq<char>,
    pub array_path: Seq<char>,
    pub number_of_entities: usize,
}

impl View for ConversionMetadata {
    type V = ConversionView;

    open spec fn view(&self) -> ConversionView {
        ConversionView {
            dataset_in: self.dataset_in@,
            dataset_out_base: self.dataset_out_base@,
            array_path: self.array_path@,
            number_of_entities: self.number_of_entities,
        }
    }
}

/// The conversion of one array of a file.
pub open spec fn conversion_of(
    file_path: Seq<char>,
    out_root_path: Seq<char>,
    array: Located,
) -> ConversionView {
    ConversionView {
        dataset_in: "NETCDF:\""@ + file_path + "\""@,
        dataset_out_base: text::joined_path(out_root_path, text::joined(array.path, "/"@)),
        array_path: text::joined(array.path.push(array.array.name@), "/"@),
        number_of_entities: array.array.number_of_entities,
    }
}

/// The conversions of all arrays of a file whose root group is `root`, into directories below
/// `out_root_path`.
pub open spec fn conversions_of(
    file_path: Seq<char>,
    out_root_path: Seq<char>,
    root: NetCdfGroup,
) -> Seq<ConversionView> {
    Seq::new(
        flat_root(root).len(),
        |i: int| conversion_of(file_path, out_root_path, flat_root(root)[i]),
    )
}

/// The texts of conversions.
pub open spec fn conversion_views(conversions: Seq<ConversionMetadata>) -> Seq<ConversionView> {
    Seq::new(conversions.len(), |i: int| conversions[i]@)
}

/// The number of arrays in a group and below it.
pub open spec fn array_count(group: NetCdfGroup) -> nat
    decreases group, 0nat,
{
    group.arrays@.len() + array_counts(group.groups@, group.groups@.len())
}

/// The number of arrays in the first `n` groups.
pub open spec fn array_counts(groups: Seq<NetCdfGroup>, n: nat) -> nat
    decreases groups, n,
{
    if n == 0 || n > groups.len() {
        0
    } else {
        array_counts(groups, (n - 1) as nat) + array_count(groups[n - 1])
    }
}

proof fn lemma_flat_groups_len(path: Seq<Seq<char>>, groups: Seq<NetCdfGroup>, n: nat)
    ensures
        flat_groups(path, groups, n).len() == array_counts(groups, n),
    decreases groups, n,
{
    if 0 < n <= groups.len() {
        lemma_flat_groups_len(path, groups, (n - 1) as nat);
        lemma_flat_group_len(path, groups[n - 1]);
    }
}

proof fn lemma_flat_group_len(path: Seq<Seq<char>>, group: NetCdfGroup)
    ensures
        flat_group(path, group).len() == array_count(group),
    decreases group, 0nat,
{
    lemma_flat_groups_len(path.push(group.name@), group.groups@, group.groups@.len());
}

/// Every array of a file is converted once.
pub proof fn law_one_conversion_per_array(root: NetCdfGroup)
    ensures
        flat_root(root).len() == array_count(root),
{
    lemma_flat_groups_len(Seq::empty(), root.groups@, root.groups@.len());
}

/// The path of an array leads back to its group: cut off in front of its last `/`, it is the path
/// of the group, and an array of the root group has no such part.
pub proof fn law_array_path_names_group(path: Seq<Seq<char>>, name: Seq<char>)
    requires
        !name.contains('/'),
    ensures
        text::before_last_slash(text::joined(path.push(name), "/"@)) == if path.len() == 0 {
            None
        } else {
            Some(text::joined(path, "/"@))
        },
{
    reveal_strlit("/");
    text::lemma_joined_push(path, "/"@, name);
    let whole = text::joined(path.push(name), "/"@);
    if path.len() == 0 {
        text::lemma_last_position(name, '/');
        if text::last_position(name, '/') is Some {
            assert(name.contains(name[text::last_position(name, '/')->0]));
        }
    } else {
        let head = text::joined(path, "/"@);
        let p = head.len() as int;
        assert(whole =~= head + "/"@ + name);
        assert(whole[p] == '/');
        assert forall|i: int| p < i < whole.len() implies whole[i] != '/' by {
            assert(whole[i] == name[i - p - 1]);
            assert(name.contains(name[i - p - 1]));
        }
        text::lemma_last_position_unique(whole, '/', p);
        assert(whole.take(p) =~= head);
    }
}

/// The options under which the arrays and dimensions of a group are listed: arrays that hold no
/// data, but coordinates, indices, bounds or times, are left out.
pub open spec fn listing_options() -> Seq<(Seq<char>, Seq<char>)> {
    seq![
        ("SHOW_ZERO_DIM"@, "NO"@),
        ("SHOW_COORDINATES"@, "NO"@),
        ("SHOW_INDEXING"@, "NO"@),
        ("SHOW_BOUNDS"@, "NO"@),
        ("SHOW_TIME"@, "NO"@),
        ("GROUP_BY"@, "SAME_DIMENSION"@),
    ]
}

/// The names and values of the options under which the arrays and dimensions of a group are
/// listed.
pub fn array_names_options() -> (r: Vec<(&'static str, &'static str)>)
    ensures
        r@.len() == listing_options().len(),
        forall|i: int|
            0 <= i < r@.len() ==> ((#[trigger] r@[i]).0@, r@[i].1@) == listing_options()[i],
{
    vec![
        ("SHOW_ZERO_DIM", "NO"),
        ("SHOW_COORDINATES", "NO"),
        ("SHOW_INDEXING", "NO"),
        ("SHOW_BOUNDS", "NO"),
        ("SHOW_TIME", "NO"),
        ("GROUP_BY", "SAME_DIMENSION"),
    ]
}

/// A dimension of an array.
#[derive(Debug)]
pub struct SourceDimension {
    pub name: String,
    pub size: usize,
}

/// An array as it stands in a file.
#[derive(Debug)]
pub struct SourceArray {
    pub name: String,
    pub dimensions: Vec<SourceDimension>,
}

/// A group as it stands in a file.
#[derive(Debug)]
pub struct SourceGroup {
    pub name: String,
    pub groups: Vec<SourceGroup>,
    pub dimension_names: Vec<String>,
    pub arrays: Vec<SourceArray>,
}

/// The name and the number of entities of an array.
pub struct ArrayView {
    pub name: Seq<char>,
    pub number_of_entities: usize,
}

/// The contents of a group.
pub struct GroupView {
    pub name: Seq<char>,
    pub groups: Seq<GroupView>,
    pub arrays: Seq<ArrayView>,
}

impl View for NetCdfArray {
    type V = ArrayView;

    open spec fn view(&self) -> ArrayView {
        ArrayView { name: self.name@, number_of_entities: self.number_of_entities }
    }
}

/// The views of a list of arrays.
pub open spec fn array_views(arrays: Seq<NetCdfArray>) -> Seq<ArrayView> {
    Seq::new(arrays.len(), |i: int| arrays[i]@)
}

/// The contents of a group.
pub open spec fn group_view(group: NetCdfGroup) -> GroupView
    decreases group, 0nat,
{
    GroupView {
        name: group.name@,
        groups: group_views(group.groups@, group.groups@.len()),
        arrays: array_views(group.arrays@),
    }
}

/// The contents of the first `n` groups.
pub open spec fn group_views(groups: Seq<NetCdfGroup>, n: nat) -> Seq<GroupView>
    decreases groups, n,
{
    if n == 0 || n > groups.len() {
        Seq::empty()
    } else {
        group_views(groups, (n - 1) as nat).push(group_view(groups[n - 1]))
    }
}

/// The size of the last one of the first `n` dimensions that is called `entity`, or zero.
pub open spec fn entity_count(dimensions: Seq<SourceDimension>, n: nat) -> usize
    decreases n,
{
    if n == 0 || n > dimensions.len() {
        0
    } else if dimensions[n - 1].name@ == "entity"@ {
        dimensions[n - 1].size
    } else {
        entity_count(dimensions, (n - 1) as nat)
    }
}

/// Those of the first `n` arrays that are not actually dimensions.
pub open spec fn data_arrays(
    dimension_names: Seq<Seq<char>>,
    arrays: Seq<SourceArray>,
    n: nat,
) -> Seq<ArrayView>
    decreases n,
{
    if n == 0 || n > arrays.len() {
        Seq::empty()
    } else {
        let before = data_arrays(dimension_names, arrays, (n - 1) as nat);
        let array = arrays[n - 1];
        if dimension_names.contains(array.name@) {
            before
        } else {
            before.push(
                ArrayView {
                    name: array.name@,
                    number_of_entities: entity_count(array.dimensions@, array.dimensions@.len()),
                },
            )
        }
    }
}

/// The group tree of a group in a file.
pub open spec fn tree_of(source: SourceGroup) -> GroupView
    decreases source, 0nat,
{
    GroupView {
        name: source.name@,
        groups: trees_of(source.groups@, source.groups@.len()),
        arrays: data_arrays(
            text::texts(source.dimension_names@),
            source.arrays@,
            source.arrays@.len(),
        ),
    }
}

/// The group trees of the first `n` groups.
pub open spec fn trees_of(sources: Seq<SourceGroup>, n: nat) -> Seq<GroupView>
    decreases sources, n,
{
    if n == 0 || n > sources.len() {
        Seq::empty()
    } else {
        trees_of(sources, (n - 1) as nat).push(tree_of(sources[n - 1]))
    }
}

/// Tells whether an array of the given name is actually a dimension.
pub fn names_dimension(dimension_names: &Vec<String>, name: &String) -> (r: bool)
    ensures
        r == text::texts(dimension_names@).contains(name@),
{
    let ghost names = text::texts(dimension_names@);
    for i in 0..dimension_names.len()
        invariant
            names == text::texts(dimension_names@),
            forall|j: int| 0 <= j < i ==> names[j] != name@,
    {
        if dimension_names[i] == *name {
            assert(names[i as int] == name@);
            return true;
        }
    }
    false
}

fn number_of_entities(dimensions: &Vec<SourceDimension>) -> (r: usize)
    ensures
        r == entity_count(dimensions@, dimensions@.len()),
{
    let mut number_of_entities: usize = 0;
    for i in 0..dimensions.len()
        invariant
            number_of_entities == entity_count(dimensions@, i as nat),
    {
        if dimensions[i].name == "entity".to_string() {
            number_of_entities = dimensions[i].size;
        }
    }
    number_of_entities
}

fn group_trees(sources: &Vec<SourceGroup>) -> (r: Vec<NetCdfGroup>)
    ensures
        group_views(r@, r@.len()) == trees_of(sources@, sources@.len()),
    decreases sources,
{
    let mut groups: Vec<NetCdfGroup> = Vec::new();
    for i in 0..sources.len()
        invariant
            groups@.len() == i,
            group_views(groups@, i as nat) == trees_of(sources@, i as nat),
    {
        let ghost before = groups@;
        let group = sources[i].group_tree();
        groups.push(group);
        proof {
            lemma_group_views_prefix(before, groups@, i as nat);
        }
    }
    groups
}

/// Further groups do not change the contents of the first `n`.
proof fn lemma_group_views_prefix(a: Seq<NetCdfGroup>, b: Seq<NetCdfGroup>, n: nat)
    requires
        n <= a.len(),
        n <= b.len(),
        forall|i: int| 0 <= i < n ==> a[i] == b[i],
    ensures
        group_views(a, n) == group_views(b, n),
    decreases n,
{
    if n > 0 {
        lemma_group_views_prefix(a, b, (n - 1) as nat);
    }
}

impl SourceGroup {
    /// The group tree: the groups with their data arrays, without the arrays that are actually
    /// dimensions.
    pub fn group_tree(&self) -> (r: NetCdfGroup)
        ensures
            group_view(r) == tree_of(*self),
        decreases self,
    {
        let groups = group_trees(&self.groups);
        let mut arrays: Vec<NetCdfArray> = Vec::new();
        let ghost names = text::texts(self.dimension_names@);
        assert(array_views(arrays@) =~= data_arrays(names, self.arrays@, 0));
        for i in 0..self.arrays.len()
            invariant
                names == text::texts(self.dimension_names@),
                array_views(arrays@) == data_arrays(names, self.arrays@, i as nat),
        {
            let array = &self.arrays[i];
            if !names_dimension(&self.dimension_names, &array.name) {
                let ghost before = array_views(arrays@);
                arrays.push(
                    NetCdfArray {
                        name: array.name.clone(),
                        number_of_entities: number_of_entities(&array.dimensions),
                    },
                );
                assert(array_views(arrays@) =~= before.push(arrays@.last()@));
            }
        }
        NetCdfGroup { name: self.name.clone(), groups, arrays }
    }
}

/// The group that positions lead to, one below the other.
pub open spec fn group_at(root: NetCdfGroup, path: Seq<int>) -> Option<NetCdfGroup>
    decreases path.len(),
{
    if path.len() == 0 {
        Some(root)
    } else if 0 <= path[0] < root.groups@.len() {
        group_at(root.groups@[path[0]], path.skip(1))
    } else {
        None
    }
}

/// The names of the groups that positions lead through, without that of the root.
pub open spec fn names_along(root: NetCdfGroup, path: Seq<int>) -> Seq<Seq<char>>
    decreases path.len(),
{
    if path.len() == 0 {
        Seq::empty()
    } else {
        let next = root.groups@[path[0]];
        seq![next.name@] + names_along(next, path.skip(1))
    }
}

/// The group in a file that positions lead to, one below the other.
pub open spec fn source_at(root: SourceGroup, path: Seq<int>) -> Option<SourceGroup>
    decreases path.len(),
{
    if path.len() == 0 {
        Some(root)
    } else if 0 <= path[0] < root.groups@.len() {
        source_at(root.groups@[path[0]], path.skip(1))
    } else {
        None
    }
}

/// Whether a dimension of a group bears the name of one of its arrays.
pub open spec fn is_dimension(group: SourceGroup, i: int) -> bool {
    exists|d: int|
        0 <= d < group.dimension_names@.len() && #[trigger] group.dimension_names@[d]@
            == group.arrays@[i].name@
}

/// Whether dimensions give a number of entities: it is the size of the one that is called
/// `entity`, of several the last one, and zero without one.
pub open spec fn gives_entities(dimensions: Seq<SourceDimension>, number: usize) -> bool {
    if exists|d: int| 0 <= d < dimensions.len() && #[trigger] dimensions[d].name@ == "entity"@ {
        exists|d: int|
            {
                &&& 0 <= d < dimensions.len()
                &&& #[trigger] dimensions[d].name@ == "entity"@
                &&& number == dimensions[d].size
                &&& forall|e: int|
                    d < e < dimensions.len() ==> #[trigger] dimensions[e].name@ != "entity"@
            }
    } else {
        number == 0
    }
}

/// Whether arrays are those of a group in a file at ascending positions `from`: exactly the ones
/// that are no dimensions.
pub open spec fn taken_from(group: SourceGroup, arrays: Seq<ArrayView>, from: Seq<int>) -> bool {
    &&& from.len() == arrays.len()
    &&& forall|j: int|
        0 <= j < from.len() ==> {
            &&& 0 <= #[trigger] from[j] < group.arrays@.len()
            &&& !is_dimension(group, from[j])
            &&& arrays[j].name == group.arrays@[from[j]].name@
            &&& gives_entities(group.arrays@[from[j]].dimensions@, arrays[j].number_of_entities)
        }
    &&& forall|j: int, k: int| 0 <= j < k < from.len() ==> #[trigger] from[j] < #[trigger] from[k]
    &&& forall|i: int|
        0 <= i < group.arrays@.len() && !#[trigger] is_dimension(group, i) ==> from.contains(i)
}

/// Whether a group holds what a group in a file holds: its name, as many groups, and its arrays in
/// their order, without those that are dimensions.
pub open spec fn mirrors(source: SourceGroup, group: NetCdfGroup) -> bool {
    &&& group.name@ == source.name@
    &&& group.groups@.len() == source.groups@.len()
    &&& exists|from: Seq<int>| #[trigger] taken_from(source, array_views(group.arrays@), from)
}

proof fn lemma_entity_count(dimensions: Seq<SourceDimension>, n: nat)
    requires
        n <= dimensions.len(),
    ensures
        gives_entities(dimensions.take(n as int), entity_count(dimensions, n)),
    decreases n,
{
    let first = dimensions.take(n as int);
    if n > 0 {
        let rest = dimensions.take(n - 1);
        lemma_entity_count(dimensions, (n - 1) as nat);
        if dimensions[n - 1].name@ == "entity"@ {
            assert(first[n - 1].name@ == "entity"@);
        } else if exists|d: int| 0 <= d < first.len() && #[trigger] first[d].name@ == "entity"@ {
            let d = choose|d: int| 0 <= d < first.len() && #[trigger] first[d].name@ == "entity"@;
            assert(rest[d].name@ == "entity"@);
            let number = entity_count(dimensions, (n - 1) as nat);
            let last = choose|d: int|
                {
                    &&& 0 <= d < rest.len()
                    &&& #[trigger] rest[d].name@ == "entity"@
                    &&& number == rest[d].size
                    &&& forall|e: int| d < e < rest.len() ==> #[trigger] rest[e].name@ != "entity"@
                };
            assert(first[last].name@ == "entity"@);
            assert forall|e: int| last < e < first.len() implies #[trigger] first[e].name@
                != "entity"@ by {
                if e < n - 1 {
                    assert(rest[e].name@ != "entity"@);
                }
            }
        } else if exists|d: int| 0 <= d < rest.len() && #[trigger] rest[d].name@ == "entity"@ {
            let d = choose|d: int| 0 <= d < rest.len() && #[trigger] rest[d].name@ == "entity"@;
            assert(first[d].name@ == "entity"@);
        }
    }
}

/// Where the arrays of a group come from, among the first `n` in the file.
proof fn lemma_arrays_taken(source: SourceGroup, n: nat) -> (from: Seq<int>)
    requires
        n <= source.arrays@.len(),
    ensures
        ({
            let arrays = data_arrays(text::texts(source.dimension_names@), source.arrays@, n);
            &&& from.len() == arrays.len()
            &&& forall|j: int|
                0 <= j < from.len() ==> {
                    &&& 0 <= #[trigger] from[j] < n
                    &&& !is_dimension(source, from[j])
                    &&& arrays[j].name == source.arrays@[from[j]].name@
                    &&& gives_entities(
                        source.arrays@[from[j]].dimensions@,
                        arrays[j].number_of_entities,
                    )
                }
            &&& forall|j: int, k: int|
                0 <= j < k < from.len() ==> #[trigger] from[j] < #[trigger] from[k]
            &&& forall|i: int| 0 <= i < n && !#[trigger] is_dimension(source, i) ==> from.contains(i)
        }),
    decreases n,
{
    if n == 0 {
        Seq::empty()
    } else {
        let names = text::texts(source.dimension_names@);
        let before = lemma_arrays_taken(source, (n - 1) as nat);
        let array = source.arrays@[n - 1];
        if is_dimension(source, n - 1) {
            let d = choose|d: int|
                0 <= d < source.dimension_names@.len() && #[trigger] source.dimension_names@[d]@
                    == array.name@;
            assert(names[d] == array.name@);
            before
        } else {
            if names.contains(array.name@) {
                let d = choose|d: int| 0 <= d < names.len() && names[d] == array.name@;
                assert(source.dimension_names@[d]@ == array.name@);
            }
            lemma_entity_count(array.dimensions@, array.dimensions@.len());
            assert(array.dimensions@.take(array.dimensions@.len() as int) =~= array.dimensions@);
            let from = before.push(n - 1);
            assert forall|i: int| 0 <= i < n && !#[trigger] is_dimension(
                source,
                i,
            ) implies from.contains(i) by {
                if i < n - 1 {
                    let j = choose|j: int| 0 <= j < before.len() && before[j] == i;
                    assert(from[j] == i);
                } else {
                    assert(from[from.len() - 1] == i);
                }
            }
            from
        }
    }
}

proof fn lemma_group_views_at(groups: Seq<NetCdfGroup>, n: nat)
    requires
        n <= groups.len(),
    ensures
        group_views(groups, n).len() == n,
        forall|i: int|
            0 <= i < n ==> #[trigger] group_views(groups, n)[i] == group_view(groups[i]),
    decreases n,
{
    if n > 0 {
        lemma_group_views_at(groups, (n - 1) as nat);
    }
}

proof fn lemma_trees_at(sources: Seq<SourceGroup>, n: nat)
    requires
        n <= sources.len(),
    ensures
        trees_of(sources, n).len() == n,
        forall|i: int| 0 <= i < n ==> #[trigger] trees_of(sources, n)[i] == tree_of(sources[i]),
    decreases n,
{
    if n > 0 {
        lemma_trees_at(sources, (n - 1) as nat);
    }
}

/// The tree of a file is the file without the arrays that are dimensions: at every place there is
/// a group in the tree exactly if there is one in the file, and it holds the same.
pub proof fn law_tree_mirrors_file(source: SourceGroup, tree: NetCdfGroup, path: Seq<int>)
    requires
        group_view(tree) == tree_of(source),
    ensures
        match (source_at(source, path), group_at(tree, path)) {
            (Some(inner), Some(group)) => mirrors(inner, group),
            (None, None) => true,
            _ => false,
        },
    decreases path.len(),
{
    lemma_group_views_at(tree.groups@, tree.groups@.len());
    lemma_trees_at(source.groups@, source.groups@.len());
    assert(group_views(tree.groups@, tree.groups@.len()) == trees_of(
        source.groups@,
        source.groups@.len(),
    ));
    if path.len() == 0 {
        let from = lemma_arrays_taken(source, source.arrays@.len());
        assert(taken_from(source, array_views(tree.arrays@), from));
    } else if 0 <= path[0] < source.groups@.len() {
        let i = path[0];
        assert(group_views(tree.groups@, tree.groups@.len())[i] == group_view(tree.groups@[i]));
        assert(trees_of(source.groups@, source.groups@.len())[i] == tree_of(source.groups@[i]));
        law_tree_mirrors_file(source.groups@[i], tree.groups@[i], path.skip(1));
    }
}

/// Whether a name is one of a file or directory.
pub open spec fn is_segment(name: Seq<char>) -> bool {
    name.len() > 0 && !name.contains('/')
}

/// Whether a conversion is that of an array in a group with the given names on the way to it: it
/// reads the file, its array path, cut at the slashes, names the groups and the array, and its
/// directory lies below `out_root_path` under the names of the groups.
pub open spec fn converts(
    conversion: ConversionMetadata,
    file_path: Seq<char>,
    out_root_path: Seq<char>,
    names: Seq<Seq<char>>,
    array: NetCdfArray,
) -> bool {
    &&& conversion.dataset_in@ == "NETCDF:\""@ + file_path + "\""@
    &&& conversion.number_of_entities == array.number_of_entities
    &&& text::split(conversion.array_path@, '/') == names.push(array.name@)
    &&& out_root_path.is_prefix_of(conversion.dataset_out_base@)
    &&& {
        let below = conversion.dataset_out_base@.skip(out_root_path.len() as int);
        let relative = if below.len() > 0 && below[0] == '/' {
            below.skip(1)
        } else {
            below
        };
        if names.len() == 0 {
            relative.len() == 0
        } else {
            text::split(relative, '/') == names
        }
    }
}

proof fn lemma_converts(
    conversion: ConversionMetadata,
    file_path: Seq<char>,
    out_root_path: Seq<char>,
    array: Located,
)
    requires
        conversion@ == conversion_of(file_path, out_root_path, array),
        forall|i: int| 0 <= i < array.path.len() ==> is_segment(#[trigger] array.path[i]),
        is_segment(array.array.name@),
    ensures
        converts(conversion, file_path, out_root_path, array.path, array.array),
{
    reveal_strlit("/");
    assert("/"@ =~= seq!['/']);
    let names = array.path;
    let full = names.push(array.array.name@);
    assert forall|i: int| 0 <= i < full.len() implies !(#[trigger] full[i]).contains('/') by {
        if i < names.len() {
            assert(is_segment(names[i]));
        }
    }
    text::law_joined_parts_split(full, '/');
    let relative = text::joined(names, "/"@);
    let base = conversion.dataset_out_base@;
    if names.len() > 0 {
        assert forall|i: int| 0 <= i < names.len() implies !(#[trigger] names[i]).contains('/') by {
            assert(is_segment(names[i]));
        }
        text::law_joined_parts_split(names, '/');
        lemma_joined_begins(names);
        assert(relative[0] != '/');
    }
    assert(out_root_path =~= base.subrange(0, out_root_path.len() as int));
    let below = base.skip(out_root_path.len() as int);
    if out_root_path.len() == 0 || out_root_path.last() == '/' {
        assert(below =~= relative);
    } else {
        assert(below =~= seq!['/'] + relative);
        assert(below.skip(1) =~= relative);
    }
}

/// Joined names begin with the first one.
proof fn lemma_joined_begins(names: Seq<Seq<char>>)
    requires
        names.len() > 0,
        forall|i: int| 0 <= i < names.len() ==> is_segment(#[trigger] names[i]),
    ensures
        text::joined(names, "/"@).len() > 0,
        text::joined(names, "/"@)[0] != '/',
    decreases names.len(),
{
    assert(is_segment(names[0]));
    assert(names[0].contains(names[0][0]));
    if names.len() > 1 {
        let front = names.drop_last();
        assert forall|i: int| 0 <= i < front.len() implies is_segment(#[trigger] front[i]) by {
            assert(front[i] == names[i]);
        }
        lemma_joined_begins(front);
    }
}

/// The arrays in a group and below it, where names lead to the group.
spec fn arrays_below(names: Seq<Seq<char>>, group: NetCdfGroup) -> Seq<Located> {
    flat_groups(names, group.groups@, group.groups@.len()) + located_arrays(names, group.arrays@)
}

/// What lies below one of the groups lies below all of them.
proof fn lemma_flat_groups_contain(
    names: Seq<Seq<char>>,
    groups: Seq<NetCdfGroup>,
    n: nat,
    j: int,
    array: Located,
)
    requires
        0 <= j < n <= groups.len(),
        flat_group(names, groups[j]).contains(array),
    ensures
        flat_groups(names, groups, n).contains(array),
    decreases n,
{
    let before = flat_groups(names, groups, (n - 1) as nat);
    let own = flat_group(names, groups[n - 1]);
    let whole = flat_groups(names, groups, n);
    if j == n - 1 {
        let k = choose|k: int| 0 <= k < own.len() && own[k] == array;
        assert(whole[before.len() + k] == array);
    } else {
        lemma_flat_groups_contain(names, groups, (n - 1) as nat, j, array);
        let k = choose|k: int| 0 <= k < before.len() && before[k] == array;
        assert(whole[k] == array);
    }
}

proof fn lemma_arrays_below(names: Seq<Seq<char>>, root: NetCdfGroup, path: Seq<int>, i: int)
    requires
        group_at(root, path) is Some,
        0 <= i < group_at(root, path)->0.arrays@.len(),
    ensures
        arrays_below(names, root).contains(
            Located {
                path: names + names_along(root, path),
                array: group_at(root, path)->0.arrays@[i],
            },
        ),
    decreases path.len(),
{
    let array = Located {
        path: names + names_along(root, path),
        array: group_at(root, path)->0.arrays@[i],
    };
    let inner = flat_groups(names, root.groups@, root.groups@.len());
    let whole = arrays_below(names, root);
    if path.len() == 0 {
        assert(names + names_along(root, path) =~= names);
        assert(whole[inner.len() + i] == array);
    } else {
        let next = root.groups@[path[0]];
        let longer = names.push(next.name@);
        lemma_arrays_below(longer, next, path.skip(1), i);
        assert(longer + names_along(next, path.skip(1)) =~= names + names_along(root, path));
        assert(arrays_below(longer, next) == flat_group(names, next));
        lemma_flat_groups_contain(names, root.groups@, root.groups@.len(), path[0], array);
        let k = choose|k: int| 0 <= k < inner.len() && inner[k] == array;
        assert(whole[k] == array);
    }
}

/// Every array of a file, at any depth, is converted, under the names of the groups that lead to
/// it.
pub proof fn law_every_array_is_converted(
    file_path: Seq<char>,
    out_root_path: Seq<char>,
    root: NetCdfGroup,
    conversions: Seq<ConversionMetadata>,
    path: Seq<int>,
    i: int,
)
    requires
        conversion_views(conversions) == conversions_of(file_path, out_root_path, root),
        group_at(root, path) is Some,
        0 <= i < group_at(root, path)->0.arrays@.len(),
        forall|k: int|
            0 <= k < names_along(root, path).len() ==> is_segment(
                #[trigger] names_along(root, path)[k],
            ),
        is_segment(group_at(root, path)->0.arrays@[i].name@),
    ensures
        exists|k: int|
            0 <= k < conversions.len() && converts(
                #[trigger] conversions[k],
                file_path,
                out_root_path,
                names_along(root, path),
                group_at(root, path)->0.arrays@[i],
            ),
{
    let names = names_along(root, path);
    let array = Located { path: names, array: group_at(root, path)->0.arrays@[i] };
    lemma_arrays_below(Seq::empty(), root, path, i);
    assert(Seq::<Seq<char>>::empty() + names =~= names);
    let all = flat_root(root);
    assert(all == arrays_below(Seq::empty(), root));
    let k = choose|k: int| 0 <= k < all.len() && all[k] == array;
    assert(conversions_of(file_path, out_root_path, root).len() == all.len());
    assert(conversion_views(conversions).len() == conversions.len());
    assert(conversion_views(conversions)[k] == conversions[k]@);
    lemma_converts(conversions[k], file_path, out_root_path, array);
}

/// Where an array below groups comes from.
proof fn lemma_origin_in_groups(
    names: Seq<Seq<char>>,
    groups: Seq<NetCdfGroup>,
    n: nat,
    k: int,
) -> (r: (int, Seq<int>, int))
    requires
        n <= groups.len(),
        0 <= k < flat_groups(names, groups, n).len(),
    ensures
        0 <= r.0 < n,
        group_at(groups[r.0], r.1) is Some,
        0 <= r.2 < group_at(groups[r.0], r.1)->0.arrays@.len(),
        flat_groups(names, groups, n)[k] == (Located {
            path: names.push(groups[r.0].name@) + names_along(groups[r.0], r.1),
            array: group_at(groups[r.0], r.1)->0.arrays@[r.2],
        }),
    decreases groups, n,
{
    assert(n > 0);
    let before = flat_groups(names, groups, (n - 1) as nat);
    if k < before.len() {
        lemma_origin_in_groups(names, groups, (n - 1) as nat, k)
    } else {
        let last = groups[n - 1];
        assert(flat_groups(names, groups, n) == before + flat_group(names, last));
        assert(flat_group(names, last) == arrays_below(names.push(last.name@), last));
        let (path, i) = lemma_origin(names.push(last.name@), last, k - before.len());
        assert(flat_groups(names, groups, n)[k] == flat_group(names, last)[k - before.len()]);
        (n - 1, path, i)
    }
}

proof fn lemma_origin(names: Seq<Seq<char>>, group: NetCdfGroup, k: int) -> (r: (Seq<int>, int))
    requires
        0 <= k < arrays_below(names, group).len(),
    ensures
        group_at(group, r.0) is Some,
        0 <= r.1 < group_at(group, r.0)->0.arrays@.len(),
        arrays_below(names, group)[k] == (Located {
            path: names + names_along(group, r.0),
            array: group_at(group, r.0)->0.arrays@[r.1],
        }),
    decreases group, 0nat,
{
    let inner = flat_groups(names, group.groups@, group.groups@.len());
    if k < inner.len() {
        let (j, path, i) = lemma_origin_in_groups(names, group.groups@, group.groups@.len(), k);
        let whole = seq![j] + path;
        assert(whole.skip(1) =~= path);
        let next = group.groups@[j];
        assert(names.push(next.name@) + names_along(next, path) =~= names + names_along(
            group,
            whole,
        ));
        (whole, i)
    } else {
        assert(names + names_along(group, Seq::empty()) =~= names);
        (Seq::empty(), k - inner.len())
    }
}

/// Nothing else is converted: every conversion is that of an array of the file.
pub proof fn law_every_conversion_has_an_array(
    file_path: Seq<char>,
    out_root_path: Seq<char>,
    root: NetCdfGroup,
    conversions: Seq<ConversionMetadata>,
    k: int,
) -> (r: (Seq<int>, int))
    requires
        conversion_views(conversions) == conversions_of(file_path, out_root_path, root),
        0 <= k < conversions.len(),
    ensures
        group_at(root, r.0) is Some,
        0 <= r.1 < group_at(root, r.0)->0.arrays@.len(),
        ({
            let names = names_along(root, r.0);
            let array = group_at(root, r.0)->0.arrays@[r.1];
            (forall|j: int| 0 <= j < names.len() ==> is_segment(#[trigger] names[j])) && is_segment(
                array.name@,
            ) ==> converts(conversions[k], file_path, out_root_path, names, array)
        }),
{
    assert(conversion_views(conversions).len() == conversions.len());
    assert(conversion_views(conversions)[k] == conversions[k]@);
    assert(flat_root(root) == arrays_below(Seq::empty(), root));
    assert(conversions_of(file_path, out_root_path, root).len() == flat_root(root).len());
    let (path, i) = lemma_origin(Seq::empty(), root, k);
    let names = names_along(root, path);
    let array = group_at(root, path)->0.arrays@[i];
    assert(Seq::<Seq<char>>::empty() + names =~= names);
    if (forall|j: int| 0 <= j < names.len() ==> is_segment(#[trigger] names[j])) && is_segment(
        array.name@,
    ) {
        lemma_converts(
            conversions[k],
            file_path,
            out_root_path,
            Located { path: names, array },
        );
    }
    (path, i)
}

/// The options keep apart the arrays that hold data: nothing but data is shown, and arrays are
/// grouped by their dimensions.
pub proof fn law_listing_shows_data_only(options: Seq<(Seq<char>, Seq<char>)>, i: int)
    requires
        options == listing_options(),
        0 <= i < options.len(),
    ensures
        options[i].1 == "NO"@ <==> "SHOW_"@.is_prefix_of(options[i].0),
        options[i].1 != "NO"@ ==> options[i] == ("GROUP_BY"@, "SAME_DIMENSION"@),
{
    reveal_strlit("NO");
    reveal_strlit("SHOW_");
    reveal_strlit("SHOW_ZERO_DIM");
    reveal_strlit("SHOW_COORDINATES");
    reveal_strlit("SHOW_INDEXING");
    reveal_strlit("SHOW_BOUNDS");
    reveal_strlit("SHOW_TIME");
    reveal_strlit("GROUP_BY");
    reveal_strlit("SAME_DIMENSION");
    assert("NO"@.len() == 2 && "SAME_DIMENSION"@.len() == 14);
    let key = options[i].0;
    if i < 5 {
        assert("SHOW_"@ =~= key.subrange(0, 5));
    } else {
        assert(key[0] == 'G');
        assert("SHOW_"@[0] == 'S');
    }
}

/// Whether an array, given by the positions of its group and its own, comes before another one: the
/// arrays of earlier groups come first, and those of a group behind all that are below it.
pub open spec fn array_before(a: (Seq<int>, int), b: (Seq<int>, int)) -> bool
    decreases a.0.len(),
{
    if a.0.len() == 0 {
        b.0.len() == 0 && a.1 < b.1
    } else if b.0.len() == 0 {
        true
    } else if a.0[0] == b.0[0] {
        array_before((a.0.skip(1), a.1), (b.0.skip(1), b.1))
    } else {
        a.0[0] < b.0[0]
    }
}

/// Whether arrays are those at the given places, one after the other.
spec fn placed(
    names: Seq<Seq<char>>,
    root: NetCdfGroup,
    arrays: Seq<Located>,
    places: Seq<(Seq<int>, int)>,
) -> bool {
    &&& places.len() == arrays.len()
    &&& forall|k: int|
        0 <= k < places.len() ==> {
            let (path, i) = #[trigger] places[k];
            &&& group_at(root, path) is Some
            &&& 0 <= i < group_at(root, path)->0.arrays@.len()
            &&& arrays[k] == (Located {
                path: names + names_along(root, path),
                array: group_at(root, path)->0.arrays@[i],
            })
        }
    &&& forall|k: int, m: int|
        0 <= k < m < places.len() ==> array_before(#[trigger] places[k], #[trigger] places[m])
}

/// The places of the arrays of the first `n` groups of a group.
proof fn lemma_places_in_groups(
    names: Seq<Seq<char>>,
    root: NetCdfGroup,
    groups: Seq<NetCdfGroup>,
    n: nat,
) -> (places: Seq<(Seq<int>, int)>)
    requires
        groups == root.groups@,
        n <= groups.len(),
    ensures
        placed(names, root, flat_groups(names, groups, n), places),
        forall|k: int|
            0 <= k < places.len() ==> (#[trigger] places[k]).0.len() > 0 && places[k].0[0] < n,
    decreases groups, n,
{
    if n == 0 {
        Seq::empty()
    } else {
        let before = lemma_places_in_groups(names, root, groups, (n - 1) as nat);
        let last = groups[n - 1];
        let longer = names.push(last.name@);
        let inner = lemma_places(longer, last);
        let own = Seq::new(inner.len(), |k: int| (seq![n - 1] + inner[k].0, inner[k].1));
        let places = before + own;
        let earlier = flat_groups(names, groups, (n - 1) as nat);
        let added = flat_group(names, last);
        let whole = flat_groups(names, groups, n);
        assert(whole == earlier + added);
        assert(added == arrays_below(longer, last));
        assert forall|k: int| 0 <= k < places.len() implies ({
            let (path, i) = #[trigger] places[k];
            &&& group_at(root, path) is Some
            &&& 0 <= i < group_at(root, path)->0.arrays@.len()
            &&& whole[k] == (Located {
                path: names + names_along(root, path),
                array: group_at(root, path)->0.arrays@[i],
            })
        }) && places[k].0.len() > 0 && places[k].0[0] < n by {
            if k < before.len() {
                assert(places[k] == before[k]);
                assert(whole[k] == earlier[k]);
            } else {
                let m = k - before.len();
                let (path, i) = inner[m];
                assert(places[k] == own[m]);
                assert(places[k].0.skip(1) =~= path);
                assert(whole[k] == added[m]);
                assert(longer + names_along(last, path) =~= names + names_along(root, places[k].0));
            }
        }
        assert forall|k: int, m: int| 0 <= k < m < places.len() implies array_before(
            #[trigger] places[k],
            #[trigger] places[m],
        ) by {
            if m < before.len() {
                assert(places[k] == before[k] && places[m] == before[m]);
            } else if k < before.len() {
                assert(places[k] == before[k]);
                assert(places[m] == own[m - before.len()]);
                assert(before[k].0[0] < n - 1);
            } else {
                let a = k - before.len();
                let b = m - before.len();
                assert(places[k] == own[a] && places[m] == own[b]);
                assert(places[k].0.skip(1) =~= inner[a].0);
                assert(places[m].0.skip(1) =~= inner[b].0);
                assert(array_before(inner[a], inner[b]));
            }
        }
        places
    }
}

/// The places of the arrays in a group and below it.
proof fn lemma_places(names: Seq<Seq<char>>, group: NetCdfGroup) -> (places: Seq<(Seq<int>, int)>)
    ensures
        placed(names, group, arrays_below(names, group), places),
    decreases group, 0nat,
{
    let below = lemma_places_in_groups(names, group, group.groups@, group.groups@.len());
    let own = Seq::new(group.arrays@.len(), |i: int| (Seq::<int>::empty(), i));
    let places = below + own;
    let inner = flat_groups(names, group.groups@, group.groups@.len());
    let whole = arrays_below(names, group);
    assert forall|k: int| 0 <= k < places.len() implies {
        let (path, i) = #[trigger] places[k];
        &&& group_at(group, path) is Some
        &&& 0 <= i < group_at(group, path)->0.arrays@.len()
        &&& whole[k] == (Located {
            path: names + names_along(group, path),
            array: group_at(group, path)->0.arrays@[i],
        })
    } by {
        if k < below.len() {
            assert(places[k] == below[k]);
            assert(whole[k] == inner[k]);
        } else {
            assert(places[k] == own[k - below.len()]);
            assert(names + names_along(group, Seq::empty()) =~= names);
        }
    }
    assert forall|k: int, m: int| 0 <= k < m < places.len() implies array_before(
        #[trigger] places[k],
        #[trigger] places[m],
    ) by {
        if m < below.len() {
            assert(places[k] == below[k] && places[m] == below[m]);
        } else if k < below.len() {
            assert(places[k] == below[k]);
            assert(places[m] == own[m - below.len()]);
        } else {
            assert(places[k] == own[k - below.len()]);
            assert(places[m] == own[m - below.len()]);
        }
    }
    places
}

/// Arrays are converted in the order of the tree, each of them once: those of earlier groups first,
/// and those of a group behind all that are below it.
pub proof fn law_conversions_follow_tree(
    file_path: Seq<char>,
    out_root_path: Seq<char>,
    root: NetCdfGroup,
    conversions: Seq<ConversionMetadata>,
) -> (places: Seq<(Seq<int>, int)>)
    requires
        conversion_views(conversions) == conversions_of(file_path, out_root_path, root),
    ensures
        places.len() == conversions.len(),
        forall|k: int|
            0 <= k < places.len() ==> {
                let (path, i) = #[trigger] places[k];
                &&& group_at(root, path) is Some
                &&& 0 <= i < group_at(root, path)->0.arrays@.len()
                &&& conversions[k].number_of_entities == group_at(
                    root,
                    path,
                )->0.arrays@[i].number_of_entities
                &&& conversions[k].array_path@ == text::joined(
                    names_along(root, path).push(group_at(root, path)->0.arrays@[i].name@),
                    "/"@,
                )
            },
        forall|k: int, m: int|
            0 <= k < m < places.len() ==> array_before(#[trigger] places[k], #[trigger] places[m]),
{
    let places = lemma_places(Seq::empty(), root);
    let all = flat_root(root);
    assert(all == arrays_below(Seq::empty(), root));
    let views = conversion_views(conversions);
    assert(views.len() == conversions.len());
    assert(conversions_of(file_path, out_root_path, root).len() == all.len());
    assert forall|k: int| 0 <= k < places.len() implies {
        let (path, i) = #[trigger] places[k];
        &&& group_at(root, path) is Some
        &&& 0 <= i < group_at(root, path)->0.arrays@.len()
        &&& conversions[k].number_of_entities == group_at(
            root,
            path,
        )->0.arrays@[i].number_of_entities
        &&& conversions[k].array_path@ == text::joined(
            names_along(root, path).push(group_at(root, path)->0.arrays@[i].name@),
            "/"@,
        )
    } by {
        let (path, i) = places[k];
        assert(views[k] == conversions[k]@);
        assert(Seq::<Seq<char>>::empty() + names_along(root, path) =~= names_along(root, path));
        assert(views[k] == conversion_of(file_path, out_root_path, all[k]));
    }
    places
}

} // verus!
