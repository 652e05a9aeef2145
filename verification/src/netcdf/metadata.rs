//! The statements that store the metadata of a file.

use crate::float_bits::Real;
use crate::netcdf::creation::DELETE_OVERVIEWS;
use crate::text;
use crate::text::clone_strings;
use vstd::prelude::*;
use vstd::string::*;

verus! {

/// A group with what is known of it.
#[derive(Debug)]
pub struct MetadataGroup {
    pub name: String,
    pub title: String,
    pub description: String,
    pub data_range: Option<(Real, Real)>,
    pub unit: String,
    pub data_type: Option<String>,
    pub groups: Vec<MetadataGroup>,
}

/// An entity.
#[derive(Debug)]
pub struct MetadataEntity {
    pub id: usize,
    pub name: String,
}

/// What is known of a file as a whole.
#[derive(Debug)]
pub struct OverviewRow {
    pub file_name: String,
    pub title: String,
    pub summary: String,
    pub spatial_reference: String,
    pub colorizer: String,
    pub creator_name: Option<String>,
    pub creator_email: Option<String>,
    pub creator_institution: Option<String>,
}

impl Clone for OverviewRow {
    fn clone(&self) -> (r: Self)
        ensures
            r == *self,
    {
        OverviewRow {
            file_name: self.file_name.clone(),
            title: self.title.clone(),
            summary: self.summary.clone(),
            spatial_reference: self.spatial_reference.clone(),
            colorizer: self.colorizer.clone(),
            creator_name: self.creator_name.clone(),
            creator_email: self.creator_email.clone(),
            creator_institution: self.creator_institution.clone(),
        }
    }
}

/// The metadata of a file.
#[derive(Debug)]
pub struct NetCdfMetadata {
    pub overview: OverviewRow,
    pub groups: Vec<MetadataGroup>,
    pub entities: Vec<MetadataEntity>,
    /// The points in time in milliseconds since the epoch.
    pub time_steps: Vec<i64>,
}

/// A statement with its parameters.
#[derive(Debug)]
pub enum MetadataStatement {
    DeleteOverview { file_name: String },
    InsertOverview(OverviewRow),
    InsertGroup {
        file_name: String,
        /// The names of the groups that lead to the group, and its own.
        name: Vec<String>,
        title: String,
        description: String,
        data_range: Option<(Real, Real)>,
        unit: String,
        data_type: Option<String>,
    },
    InsertEntity { file_name: String, id: i64, name: String },
    InsertTimestamp { file_name: String, time: i64 },
}

/// The row of a group: its path and what is known of it.
pub struct GroupRow {
    pub name: Seq<Seq<char>>,
    pub title: Seq<char>,
    pub description: Seq<char>,
    pub data_range: Option<(Real, Real)>,
    pub unit: Seq<char>,
    pub data_type: Option<Seq<char>>,
}

/// A statement with the texts of its parameters.
pub enum StatementView {
    DeleteOverview(Seq<char>),
    InsertOverview(OverviewRow),
    InsertGroup(Seq<char>, GroupRow),
    InsertEntity(Seq<char>, i64, Seq<char>),
    InsertTimestamp(Seq<char>, i64),
}

impl View for MetadataStatement {
    type V = StatementView;

    open spec fn view(&self) -> StatementView {
        match *self {
            MetadataStatement::DeleteOverview { file_name } => StatementView::DeleteOverview(
                file_name@,
            ),
            MetadataStatement::InsertOverview(row) => StatementView::InsertOverview(row),
            MetadataStatement::InsertGroup {
                file_name,
                name,
                title,
                description,
                data_range,
                unit,
                data_type,
            } => StatementView::InsertGroup(
                file_name@,
                GroupRow {
                    name: text::texts(name@),
                    title: title@,
                    description: description@,
                    data_range,
                    unit: unit@,
                    data_type: text::option_text(data_type),
                },
            ),
            MetadataStatement::InsertEntity { file_name, id, name } => StatementView::InsertEntity(
                file_name@,
                id,
                name@,
            ),
            MetadataStatement::InsertTimestamp { file_name, time } => {
                StatementView::InsertTimestamp(file_name@, time)
            },
        }
    }
}

/// Inserts what is known of a file as a whole.
pub const INSERT_OVERVIEW: &'static str =
    "INSERT INTO overviews (file_name, title, summary, spatial_reference, colorizer, creator_name, creator_email, creator_institution) VALUES ($1, $2, $3, $4, $5, $6, $7, $8);";

/// Inserts a group.
pub const INSERT_GROUP: &'static str =
    "INSERT INTO groups (file_name, name, title, description, data_range, unit, data_type) VALUES ($1, $2, $3, $4, $5, $6, $7);";

/// Inserts an entity.
pub const INSERT_ENTITY: &'static str =
    "INSERT INTO entities (file_name, id, name) VALUES ($1, $2, $3);";

/// Inserts a point in time.
pub const INSERT_TIMESTAMP: &'static str =
    "INSERT INTO timestamps (file_name, \"time\") VALUES ($1, $2);";

/// The text of a statement.
pub open spec fn sql_of(statement: MetadataStatement) -> Seq<char> {
    match statement {
        MetadataStatement::DeleteOverview { .. } => DELETE_OVERVIEWS@,
        MetadataStatement::InsertOverview(_) => INSERT_OVERVIEW@,
        MetadataStatement::InsertGroup { .. } => INSERT_GROUP@,
        MetadataStatement::InsertEntity { .. } => INSERT_ENTITY@,
        MetadataStatement::InsertTimestamp { .. } => INSERT_TIMESTAMP@,
    }
}

impl MetadataStatement {
    /// The statement as text, with places for its parameters in the order of its fields.
    pub fn sql(&self) -> (r: &'static str)
        ensures
            r@ == sql_of(*self),
    {
        match self {
            MetadataStatement::DeleteOverview { .. } => DELETE_OVERVIEWS,
            MetadataStatement::InsertOverview(_) => INSERT_OVERVIEW,
            MetadataStatement::InsertGroup { .. } => INSERT_GROUP,
            MetadataStatement::InsertEntity { .. } => INSERT_ENTITY,
            MetadataStatement::InsertTimestamp { .. } => INSERT_TIMESTAMP,
        }
    }
}

/// The texts of statements.
pub open spec fn statement_views(statements: Seq<MetadataStatement>) -> Seq<StatementView> {
    Seq::new(statements.len(), |i: int| statements[i]@)
}

/// The row of a group that stands at the given path.
pub open spec fn group_row(path: Seq<Seq<char>>, group: MetadataGroup) -> GroupRow {
    GroupRow {
        name: path,
        title: group.title@,
        description: group.description@,
        data_range: group.data_range,
        unit: group.unit@,
        data_type: text::option_text(group.data_type),
    }
}

/// The rows of a group that stands at the given path, and of the groups below it.
pub open spec fn rows_at(path: Seq<Seq<char>>, group: MetadataGroup) -> Seq<GroupRow>
    decreases group, 0nat,
{
    seq![group_row(path, group)] + rows_below(path, group.groups@, group.groups@.len())
}

/// The rows of the first `n` groups below the given path: of two groups, the later one comes
/// first.
pub open spec fn rows_below(path: Seq<Seq<char>>, groups: Seq<MetadataGroup>, n: nat) -> Seq<
    GroupRow,
>
    decreases groups, n,
{
    if n == 0 || n > groups.len() {
        Seq::empty()
    } else {
        rows_at(path.push(groups[n - 1].name@), groups[n - 1]) + rows_below(
            path,
            groups,
            (n - 1) as nat,
        )
    }
}

/// The rows of all groups of a file.
pub open spec fn group_rows(groups: Seq<MetadataGroup>) -> Seq<GroupRow> {
    rows_below(Seq::empty(), groups, groups.len())
}

/// The statements that insert rows of groups.
pub open spec fn group_statements(file_name: Seq<char>, rows: Seq<GroupRow>) -> Seq<StatementView> {
    Seq::new(rows.len(), |i: int| StatementView::InsertGroup(file_name, rows[i]))
}

/// The statements that insert entities.
pub open spec fn entity_statements(
    file_name: Seq<char>,
    entities: Seq<MetadataEntity>,
) -> Seq<StatementView> {
    Seq::new(
        entities.len(),
        |i: int| StatementView::InsertEntity(file_name, entities[i].id as i64, entities[i].name@),
    )
}

/// The statements that insert points in time.
pub open spec fn timestamp_statements(file_name: Seq<char>, times: Seq<i64>) -> Seq<StatementView> {
    Seq::new(times.len(), |i: int| StatementView::InsertTimestamp(file_name, times[i]))
}

/// The statements that store the metadata of a file: what was stored before is deleted, and the
/// file, its groups, its entities and its points in time are inserted.
pub open spec fn statements_of(metadata: NetCdfMetadata) -> Seq<StatementView> {
    let file_name = metadata.overview.file_name@;
    seq![
        StatementView::DeleteOverview(file_name),
        StatementView::InsertOverview(metadata.overview),
    ] + group_statements(file_name, group_rows(metadata.groups@)) + entity_statements(
        file_name,
        metadata.entities@,
    ) + timestamp_statements(file_name, metadata.time_steps@)
}

/// The paths and groups on a stack.
spec fn stack_view(stack: Seq<(Vec<String>, &MetadataGroup)>) -> Seq<
    (Seq<Seq<char>>, MetadataGroup),
> {
    Seq::new(stack.len(), |i: int| (text::texts(stack[i].0@), *stack[i].1))
}

/// The rows of what is on a stack, from its top down.
spec fn pending(stack: Seq<(Seq<Seq<char>>, MetadataGroup)>) -> Seq<GroupRow>
    decreases stack.len(),
{
    if stack.len() == 0 {
        Seq::empty()
    } else {
        rows_at(stack.last().0, stack.last().1) + pending(stack.drop_last())
    }
}

fn path_to(path: &Vec<String>, name: &String) -> (r: Vec<String>)
    ensures
        text::texts(r@) == text::texts(path@).push(name@),
{
    let mut r = clone_strings(path);
    r.push(name.clone());
    assert(text::texts(r@) =~= text::texts(path@).push(name@));
    r
}

/// Puts groups below a path on a stack. They are worked on before what was there.
fn push_groups<'a>(
    stack: &mut Vec<(Vec<String>, &'a MetadataGroup)>,
    path: &Vec<String>,
    groups: &'a Vec<MetadataGroup>,
)
    ensures
        pending(stack_view(final(stack)@)) == rows_below(text::texts(path@), groups@, groups@.len())
            + pending(stack_view(old(stack)@)),
{
    let ghost start = pending(stack_view(stack@));
    let ghost prefix = text::texts(path@);
    assert(start =~= rows_below(prefix, groups@, 0) + start);
    for i in 0..groups.len()
        invariant
            prefix == text::texts(path@),
            pending(stack_view(stack@)) == rows_below(prefix, groups@, i as nat) + start,
    {
        let ghost before = stack_view(stack@);
        let subgroup_path = path_to(path, &groups[i].name);
        stack.push((subgroup_path, &groups[i]));
        let ghost pushed = (prefix.push(groups@[i as int].name@), groups@[i as int]);
        assert(stack_view(stack@) =~= before.push(pushed));
        assert(stack_view(stack@).drop_last() =~= before);
        assert(pending(stack_view(stack@)) =~= rows_below(prefix, groups@, (i + 1) as nat) + start);
    }
}

fn insert_group(file_name: &String, path: Vec<String>, group: &MetadataGroup) -> (r:
    MetadataStatement)
    ensures
        r@ == StatementView::InsertGroup(file_name@, group_row(text::texts(path@), *group)),
{
    MetadataStatement::InsertGroup {
        file_name: file_name.clone(),
        name: path,
        title: group.title.clone(),
        description: group.description.clone(),
        data_range: group.data_range,
        unit: group.unit.clone(),
        data_type: group.data_type.clone(),
    }
}

/// Appends the statements that insert groups.
fn insert_groups(
    statements: &mut Vec<MetadataStatement>,
    file_name: &String,
    groups: &Vec<MetadataGroup>,
)
    ensures
        statement_views(final(statements)@) == statement_views(old(statements)@)
            + group_statements(file_name@, group_rows(groups@)),
{
    let ghost start = statement_views(statements@);
    let ghost total = group_rows(groups@);
    let root: Vec<String> = Vec::new();
    let mut group_stack: Vec<(Vec<String>, &MetadataGroup)> = Vec::new();
    assert(text::texts(root@) =~= Seq::empty());
    push_groups(&mut group_stack, &root, groups);
    let ghost mut emitted: Seq<GroupRow> = Seq::empty();
    assert(pending(stack_view(group_stack@)) =~= total);
    assert(start =~= start + group_statements(file_name@, emitted));
    assert(emitted + pending(stack_view(group_stack@)) =~= total);
    while group_stack.len() > 0
        invariant
            emitted + pending(stack_view(group_stack@)) == total,
            statement_views(statements@) == start + group_statements(file_name@, emitted),
        decreases pending(stack_view(group_stack@)).len(),
    {
        let ghost before = stack_view(group_stack@);
        let ghost earlier = statement_views(statements@);
        let ghost left = pending(before);
        let (group_path, group) = group_stack.pop().unwrap();
        let ghost path = text::texts(group_path@);
        assert(before.last() == (path, *group));
        assert(stack_view(group_stack@) =~= before.drop_last());
        push_groups(&mut group_stack, &group_path, &group.groups);
        statements.push(insert_group(file_name, group_path, group));
        proof {
            let row = group_row(path, *group);
            assert(left =~= seq![row] + pending(stack_view(group_stack@)));
            assert(statement_views(statements@) =~= earlier.push(
                StatementView::InsertGroup(file_name@, row),
            ));
            assert(group_statements(file_name@, emitted.push(row)) =~= group_statements(
                file_name@,
                emitted,
            ).push(StatementView::InsertGroup(file_name@, row)));
            emitted = emitted.push(row);
            assert(emitted + pending(stack_view(group_stack@)) =~= total);
            assert(statement_views(statements@) =~= start + group_statements(file_name@, emitted));
        }
    }
    assert(stack_view(group_stack@).len() == 0);
    assert(emitted =~= total);
}

/// The statements that store the metadata of a file, in the order in which they are executed.
pub fn store_db_metadata(metadata: &NetCdfMetadata) -> (r: Vec<MetadataStatement>)
    ensures
        statement_views(r@) == statements_of(*metadata),
{
    let file_name = &metadata.overview.file_name;
    let mut statements: Vec<MetadataStatement> = Vec::new();
    statements.push(MetadataStatement::DeleteOverview { file_name: file_name.clone() });
    statements.push(MetadataStatement::InsertOverview(metadata.overview.clone()));
    let ghost first = seq![
        StatementView::DeleteOverview(file_name@),
        StatementView::InsertOverview(metadata.overview),
    ];
    assert(statement_views(statements@) =~= first);
    insert_groups(&mut statements, file_name, &metadata.groups);
    let ghost second = statement_views(statements@);
    let ghost entities = entity_statements(file_name@, metadata.entities@);
    assert(second =~= second + entities.take(0));
    for i in 0..metadata.entities.len()
        invariant
            file_name == metadata.overview.file_name,
            entities == entity_statements(file_name@, metadata.entities@),
            statement_views(statements@) == second + entities.take(i as int),
    {
        let entity = &metadata.entities[i];
        let ghost before = statement_views(statements@);
        statements.push(
            MetadataStatement::InsertEntity {
                file_name: file_name.clone(),
                id: #[verifier::truncate] (entity.id as i64),
                name: entity.name.clone(),
            },
        );
        assert(statement_views(statements@) =~= before.push(entities[i as int]));
        assert(statement_views(statements@) =~= second + entities.take(i + 1));
    }
    let ghost third = statement_views(statements@);
    assert(third =~= second + entities);
    let ghost times = timestamp_statements(file_name@, metadata.time_steps@);
    assert(third =~= third + times.take(0));
    for i in 0..metadata.time_steps.len()
        invariant
            file_name == metadata.overview.file_name,
            times == timestamp_statements(file_name@, metadata.time_steps@),
            statement_views(statements@) == third + times.take(i as int),
    {
        let ghost before = statement_views(statements@);
        statements.push(
            MetadataStatement::InsertTimestamp {
                file_name: file_name.clone(),
                time: metadata.time_steps[i],
            },
        );
        assert(statement_views(statements@) =~= before.push(times[i as int]));
        assert(statement_views(statements@) =~= third + times.take(i + 1));
    }
    assert(third + times.take(times.len() as int) =~= third + times);
    statements
}

/// The name of the file that a statement is about.
pub open spec fn file_of(statement: StatementView) -> Seq<char> {
    match statement {
        StatementView::DeleteOverview(file_name) => file_name,
        StatementView::InsertOverview(row) => row.file_name@,
        StatementView::InsertGroup(file_name, _) => file_name,
        StatementView::InsertEntity(file_name, _, _) => file_name,
        StatementView::InsertTimestamp(file_name, _) => file_name,
    }
}

/// Storing the metadata of a file begins with deleting what is stored of it, deletes nothing
/// afterwards, and touches the rows of no other file.
pub proof fn law_statements_replace_rows_of_file(metadata: NetCdfMetadata)
    ensures
        ({
            let statements = statements_of(metadata);
            &&& statements.len() > 0
            &&& forall|i: int|
                0 <= i < statements.len() ==> file_of(#[trigger] statements[i])
                    == metadata.overview.file_name@ && (statements[i] is DeleteOverview <==> i == 0)
        }),
{
}

/// The number of groups in a list and below it.
pub open spec fn group_count(groups: Seq<MetadataGroup>, n: nat) -> nat
    decreases groups, n,
{
    if n == 0 || n > groups.len() {
        0
    } else {
        1 + group_count(groups[n - 1].groups@, groups[n - 1].groups@.len()) + group_count(
            groups,
            (n - 1) as nat,
        )
    }
}

proof fn lemma_row_count(path: Seq<Seq<char>>, groups: Seq<MetadataGroup>, n: nat)
    ensures
        rows_below(path, groups, n).len() == group_count(groups, n),
    decreases groups, n,
{
    if 0 < n <= groups.len() {
        let last = groups[n - 1];
        lemma_row_count(path.push(last.name@), last.groups@, last.groups@.len());
        lemma_row_count(path, groups, (n - 1) as nat);
        let own = path.push(last.name@);
        assert(rows_at(own, last) == seq![group_row(own, last)] + rows_below(
            own,
            last.groups@,
            last.groups@.len(),
        ));
    }
}

/// Every group of a file has one row.
pub proof fn law_one_row_per_group(groups: Seq<MetadataGroup>)
    ensures
        group_rows(groups).len() == group_count(groups, groups.len()),
{
    lemma_row_count(Seq::empty(), groups, groups.len());
}

/// Whether, below a path, every row stands behind that of the group it belongs to.
pub open spec fn parents_first(path: Seq<Seq<char>>, rows: Seq<GroupRow>) -> bool {
    forall|k: int|
        0 <= k < rows.len() ==> {
            let name = (#[trigger] rows[k]).name;
            name.len() > path.len() && (name.len() == path.len() + 1 || exists|j: int|
                0 <= j < k && (#[trigger] rows[j]).name == name.drop_last())
        }
}

proof fn lemma_parents_first(path: Seq<Seq<char>>, groups: Seq<MetadataGroup>, n: nat)
    ensures
        parents_first(path, rows_below(path, groups, n)),
    decreases groups, n,
{
    if 0 < n <= groups.len() {
        let last = groups[n - 1];
        let own = path.push(last.name@);
        let inner = rows_below(own, last.groups@, last.groups@.len());
        let top = rows_at(own, last);
        let rest = rows_below(path, groups, (n - 1) as nat);
        let rows = rows_below(path, groups, n);
        lemma_parents_first(own, last.groups@, last.groups@.len());
        lemma_parents_first(path, groups, (n - 1) as nat);
        assert(rows =~= seq![group_row(own, last)] + inner + rest);
        assert(rows[0].name == own);
        assert forall|k: int| 0 <= k < rows.len() implies {
            let name = (#[trigger] rows[k]).name;
            name.len() > path.len() && (name.len() == path.len() + 1 || exists|j: int|
                0 <= j < k && (#[trigger] rows[j]).name == name.drop_last())
        } by {
            if 0 < k <= inner.len() {
                assert(rows[k] == inner[k - 1]);
                let name = inner[k - 1].name;
                if name.len() == own.len() + 1 {
                    lemma_direct_child(own, last.groups@, last.groups@.len(), k - 1);
                    assert(name.drop_last() =~= own);
                } else {
                    let j = choose|j: int|
                        0 <= j < k - 1 && (#[trigger] inner[j]).name == name.drop_last();
                    assert(rows[j + 1] == inner[j]);
                }
            } else if k > inner.len() {
                let m = k - 1 - inner.len();
                assert(rows[k] == rest[m]);
                let name = rest[m].name;
                if name.len() != path.len() + 1 {
                    let j = choose|j: int|
                        0 <= j < m && (#[trigger] rest[j]).name == name.drop_last();
                    assert(rows[j + 1 + inner.len()] == rest[j]);
                }
            }
        }
    }
}

/// Rows below a path have names that begin with the path.
proof fn lemma_direct_child(path: Seq<Seq<char>>, groups: Seq<MetadataGroup>, n: nat, k: int)
    requires
        0 <= k < rows_below(path, groups, n).len(),
    ensures
        rows_below(path, groups, n)[k].name.len() > path.len(),
        rows_below(path, groups, n)[k].name.take(path.len() as int) == path,
    decreases groups, n,
{
    let last = groups[n - 1];
    let own = path.push(last.name@);
    let inner = rows_below(own, last.groups@, last.groups@.len());
    let rest = rows_below(path, groups, (n - 1) as nat);
    let rows = rows_below(path, groups, n);
    assert(rows_at(own, last) == seq![group_row(own, last)] + inner);
    assert(0 < n <= groups.len());
    assert(rows =~= seq![group_row(own, last)] + inner + rest);
    if k == 0 {
        assert(own.take(path.len() as int) =~= path);
    } else if k <= inner.len() {
        lemma_direct_child(own, last.groups@, last.groups@.len(), k - 1);
        let name = inner[k - 1].name;
        assert(rows[k] == inner[k - 1]);
        assert(name.take(path.len() as int) =~= name.take(own.len() as int).take(path.len() as int));
        assert(own.take(path.len() as int) =~= path);
    } else {
        lemma_direct_child(path, groups, (n - 1) as nat, k - 1 - inner.len());
        assert(rows[k] == rest[k - 1 - inner.len()]);
    }
}

/// A group is stored before the groups below it.
pub proof fn law_groups_before_subgroups(groups: Seq<MetadataGroup>)
    ensures
        parents_first(Seq::empty(), group_rows(groups)),
{
    lemma_parents_first(Seq::empty(), groups, groups.len());
}

/// The group that positions lead to, one below the other.
pub open spec fn group_below(groups: Seq<MetadataGroup>, path: Seq<int>) -> Option<MetadataGroup>
    decreases path.len(),
{
    if path.len() == 0 || !(0 <= path[0] < groups.len()) {
        None
    } else if path.len() == 1 {
        Some(groups[path[0]])
    } else {
        group_below(groups[path[0]].groups@, path.skip(1))
    }
}

/// The names of the groups that positions lead through.
pub open spec fn names_through(groups: Seq<MetadataGroup>, path: Seq<int>) -> Seq<Seq<char>>
    decreases path.len(),
{
    if path.len() == 0 {
        Seq::empty()
    } else {
        let next = groups[path[0]];
        seq![next.name@] + names_through(next.groups@, path.skip(1))
    }
}

/// Whether a statement stores what is known of a group of a file, field by field, under the names
/// that lead to it.
pub open spec fn stores_group(
    statement: MetadataStatement,
    file: Seq<char>,
    names: Seq<Seq<char>>,
    group: MetadataGroup,
) -> bool {
    &&& statement matches MetadataStatement::InsertGroup {
        file_name,
        name,
        title,
        description,
        data_range,
        unit,
        data_type,
    }
    &&& file_name@ == file
    &&& name@.len() == names.len()
    &&& forall|i: int| 0 <= i < names.len() ==> (#[trigger] name@[i])@ == names[i]
    &&& title@ == group.title@
    &&& description@ == group.description@
    &&& data_range == group.data_range
    &&& unit@ == group.unit@
    &&& data_type is Some <==> group.data_type is Some
    &&& data_type is Some ==> data_type->0@ == group.data_type->0@
}

proof fn lemma_row_of_group(
    prefix: Seq<Seq<char>>,
    groups: Seq<MetadataGroup>,
    n: nat,
    path: Seq<int>,
)
    requires
        n <= groups.len(),
        group_below(groups, path) is Some,
        path[0] < n,
    ensures
        rows_below(prefix, groups, n).contains(
            group_row(prefix + names_through(groups, path), group_below(groups, path)->0),
        ),
    decreases path.len(), n,
{
    let row = group_row(prefix + names_through(groups, path), group_below(groups, path)->0);
    let last = groups[n - 1];
    let own = prefix.push(last.name@);
    let inner = rows_below(own, last.groups@, last.groups@.len());
    let rest = rows_below(prefix, groups, (n - 1) as nat);
    let rows = rows_below(prefix, groups, n);
    assert(rows_at(own, last) == seq![group_row(own, last)] + inner);
    assert(rows =~= seq![group_row(own, last)] + inner + rest);
    if path[0] < n - 1 {
        lemma_row_of_group(prefix, groups, (n - 1) as nat, path);
        let k = choose|k: int| 0 <= k < rest.len() && rest[k] == row;
        assert(rows[1 + inner.len() + k] == row);
    } else if path.len() == 1 {
        assert(names_through(last.groups@, path.skip(1)) =~= Seq::empty());
        assert(prefix + names_through(groups, path) =~= own);
        assert(rows[0] == row);
    } else {
        let deeper = path.skip(1);
        lemma_row_of_group(own, last.groups@, last.groups@.len(), deeper);
        assert(own + names_through(last.groups@, deeper) =~= prefix + names_through(groups, path));
        let k = choose|k: int| 0 <= k < inner.len() && inner[k] == row;
        assert(rows[1 + k] == row);
    }
}

proof fn lemma_stores(
    statement: MetadataStatement,
    file: Seq<char>,
    names: Seq<Seq<char>>,
    group: MetadataGroup,
)
    requires
        statement@ == StatementView::InsertGroup(file, group_row(names, group)),
    ensures
        stores_group(statement, file, names, group),
{
    if let MetadataStatement::InsertGroup {
        file_name,
        name,
        title,
        description,
        data_range,
        unit,
        data_type,
    } = statement {
        let texts = text::texts(name@);
        assert(texts == names);
        assert forall|i: int| 0 <= i < names.len() implies (#[trigger] name@[i])@ == names[i] by {
            assert(texts[i] == name@[i]@);
        }
    }
}

/// Every group of a file, at any depth, is stored with its own title, description, range, unit and
/// type, under the names of the groups that lead to it.
pub proof fn law_every_group_is_stored(
    metadata: NetCdfMetadata,
    statements: Seq<MetadataStatement>,
    path: Seq<int>,
)
    requires
        statement_views(statements) == statements_of(metadata),
        group_below(metadata.groups@, path) is Some,
    ensures
        exists|k: int|
            0 <= k < statements.len() && stores_group(
                #[trigger] statements[k],
                metadata.overview.file_name@,
                names_through(metadata.groups@, path),
                group_below(metadata.groups@, path)->0,
            ),
{
    let groups = metadata.groups@;
    let names = names_through(groups, path);
    let group = group_below(groups, path)->0;
    lemma_row_of_group(Seq::empty(), groups, groups.len(), path);
    assert(Seq::<Seq<char>>::empty() + names =~= names);
    let rows = group_rows(groups);
    let k = choose|k: int| 0 <= k < rows.len() && rows[k] == group_row(names, group);
    let views = statement_views(statements);
    assert(views.len() == statements.len());
    assert(views[2 + k] == StatementView::InsertGroup(metadata.overview.file_name@, rows[k]));
    assert(statements[2 + k]@ == views[2 + k]);
    lemma_stores(statements[2 + k], metadata.overview.file_name@, names, group);
}

proof fn lemma_group_of_row(
    prefix: Seq<Seq<char>>,
    groups: Seq<MetadataGroup>,
    n: nat,
    k: int,
) -> (path: Seq<int>)
    requires
        n <= groups.len(),
        0 <= k < rows_below(prefix, groups, n).len(),
    ensures
        group_below(groups, path) is Some,
        rows_below(prefix, groups, n)[k] == group_row(
            prefix + names_through(groups, path),
            group_below(groups, path)->0,
        ),
    decreases groups, n,
{
    assert(n > 0);
    let last = groups[n - 1];
    let own = prefix.push(last.name@);
    let inner = rows_below(own, last.groups@, last.groups@.len());
    let rest = rows_below(prefix, groups, (n - 1) as nat);
    let rows = rows_below(prefix, groups, n);
    assert(rows_at(own, last) == seq![group_row(own, last)] + inner);
    assert(rows =~= seq![group_row(own, last)] + inner + rest);
    if k == 0 {
        let path = seq![n - 1];
        assert(names_through(last.groups@, path.skip(1)) =~= Seq::empty());
        assert(prefix + names_through(groups, path) =~= own);
        path
    } else if k <= inner.len() {
        let deeper = lemma_group_of_row(own, last.groups@, last.groups@.len(), k - 1);
        let path = seq![n - 1] + deeper;
        assert(path.skip(1) =~= deeper);
        assert(own + names_through(last.groups@, deeper) =~= prefix + names_through(groups, path));
        assert(deeper.len() > 0);
        assert(group_below(groups, path) == group_below(last.groups@, deeper));
        path
    } else {
        assert(rows[k] == rest[k - 1 - inner.len()]);
        lemma_group_of_row(prefix, groups, (n - 1) as nat, k - 1 - inner.len())
    }
}

/// No other groups are stored: every statement that stores a group stores one of the file.
pub proof fn law_every_stored_group_exists(
    metadata: NetCdfMetadata,
    statements: Seq<MetadataStatement>,
    k: int,
) -> (path: Seq<int>)
    requires
        statement_views(statements) == statements_of(metadata),
        0 <= k < statements.len(),
        statements[k] is InsertGroup,
    ensures
        group_below(metadata.groups@, path) is Some,
        stores_group(
            statements[k],
            metadata.overview.file_name@,
            names_through(metadata.groups@, path),
            group_below(metadata.groups@, path)->0,
        ),
{
    let groups = metadata.groups@;
    let rows = group_rows(groups);
    let views = statement_views(statements);
    assert(views.len() == statements.len());
    assert(statements[k]@ == views[k]);
    assert(views[k] is InsertGroup);
    assert(2 <= k < 2 + rows.len());
    let path = lemma_group_of_row(Seq::empty(), groups, groups.len(), k - 2);
    let names = names_through(groups, path);
    assert(Seq::<Seq<char>>::empty() + names =~= names);
    assert(views[k] == StatementView::InsertGroup(metadata.overview.file_name@, rows[k - 2]));
    lemma_stores(
        statements[k],
        metadata.overview.file_name@,
        names,
        group_below(groups, path)->0,
    );
    path
}

/// Whether a statement stores an entity of a file.
pub open spec fn stores_entity(
    statement: MetadataStatement,
    file: Seq<char>,
    entity: MetadataEntity,
) -> bool {
    &&& statement matches MetadataStatement::InsertEntity { file_name, id, name }
    &&& file_name@ == file
    &&& entity.id <= i64::MAX ==> id == entity.id
    &&& name@ == entity.name@
}

/// Whether a statement stores a point in time of a file.
pub open spec fn stores_time(statement: MetadataStatement, file: Seq<char>, step: i64) -> bool {
    &&& statement matches MetadataStatement::InsertTimestamp { file_name, time }
    &&& file_name@ == file
    &&& time == step
}

/// What is known of a file as a whole is stored as it is, and so are its entities with their
/// numbers and names, and its points in time, each of them once and in their order: nothing else
/// comes behind the groups.
pub proof fn law_entities_and_times_are_stored(
    metadata: NetCdfMetadata,
    statements: Seq<MetadataStatement>,
)
    requires
        statement_views(statements) == statements_of(metadata),
    ensures
        ({
            let file = metadata.overview.file_name@;
            let entities = metadata.entities@;
            let times = metadata.time_steps@;
            let first_time = statements.len() - times.len();
            let first_entity = first_time - entities.len();
            &&& first_entity >= 2
            &&& statements[0] matches MetadataStatement::DeleteOverview { file_name }
                && file_name@ == file
            &&& statements[1] == MetadataStatement::InsertOverview(metadata.overview)
            &&& forall|k: int|
                2 <= k < first_entity ==> (#[trigger] statements[k]) is InsertGroup
            &&& forall|i: int|
                0 <= i < entities.len() ==> stores_entity(
                    statements[first_entity + i],
                    file,
                    #[trigger] entities[i],
                )
            &&& forall|i: int|
                0 <= i < times.len() ==> stores_time(
                    statements[first_time + i],
                    file,
                    #[trigger] times[i],
                )
        }),
{
    let file = metadata.overview.file_name@;
    let entities = metadata.entities@;
    let times = metadata.time_steps@;
    let rows = group_rows(metadata.groups@);
    let views = statement_views(statements);
    assert(views.len() == statements.len());
    assert(views.len() == 2 + rows.len() + entities.len() + times.len());
    let first_time = statements.len() - times.len();
    let first_entity = first_time - entities.len();
    assert(statements[0]@ == views[0]);
    assert(statements[1]@ == views[1]);
    assert forall|k: int| 2 <= k < first_entity implies (#[trigger] statements[k]) is InsertGroup by {
        assert(statements[k]@ == views[k]);
        assert(views[k] == StatementView::InsertGroup(file, rows[k - 2]));
    }
    assert forall|i: int| 0 <= i < entities.len() implies stores_entity(
        statements[first_entity + i],
        file,
        #[trigger] entities[i],
    ) by {
        assert(statements[first_entity + i]@ == views[first_entity + i]);
        assert(views[first_entity + i] == entity_statements(file, entities)[i]);
    }
    assert forall|i: int| 0 <= i < times.len() implies stores_time(
        statements[first_time + i],
        file,
        #[trigger] times[i],
    ) by {
        assert(statements[first_time + i]@ == views[first_time + i]);
        assert(views[first_time + i] == timestamp_statements(file, times)[i]);
    }
}

/// The places of the first `n` parameters of a statement, numbered from one on.
pub open spec fn places(n: nat) -> Seq<Seq<char>> {
    Seq::new(n, |i: int| seq!['$'] + text::decimal((i + 1) as nat))
}

/// The statement that inserts a row with the given columns into a table, each column with the
/// parameter at its position.
pub open spec fn insertion(table: Seq<char>, columns: Seq<Seq<char>>) -> Seq<char> {
    "INSERT INTO "@ + table + " ("@ + text::joined(columns, ", "@) + ") VALUES ("@ + text::joined(
        places(columns.len()),
        ", "@,
    ) + ");"@
}

/// The places are the dollar sign with the number of the parameter.
proof fn lemma_places(n: nat)
    requires
        n <= 8,
    ensures
        places(n).len() == n,
        forall|i: int|
            0 <= i < n ==> #[trigger] places(n)[i] == seq!['$', text::digit_char((i + 1) as nat)],
{
    assert forall|i: int| 0 <= i < n implies #[trigger] places(n)[i] == seq![
        '$',
        text::digit_char((i + 1) as nat),
    ] by {
        assert(text::decimal((i + 1) as nat) =~= seq![text::digit_char((i + 1) as nat)]);
        assert(places(n)[i] =~= seq!['$', text::digit_char((i + 1) as nat)]);
    }
}

/// Joining further texts appends each of them behind a separator.
proof fn lemma_joined_next(parts: Seq<Seq<char>>, n: int)
    requires
        0 < n < parts.len(),
    ensures
        text::joined(parts.take(n + 1), ", "@) == text::joined(parts.take(n), ", "@) + ", "@
            + parts[n],
        text::joined(parts.take(1), ", "@) == parts[0],
{
    assert(parts.take(n + 1).drop_last() =~= parts.take(n));
}

#[verifier::spinoff_prover]
#[verifier::rlimit(60)]
proof fn lemma_insert_timestamp(columns: Seq<Seq<char>>)
    requires
        columns == seq![
            "file_name"@,
            "\"time\""@,
        ],
    ensures
        INSERT_TIMESTAMP@ == insertion("timestamps"@, columns),
{
    reveal_strlit("INSERT INTO timestamps (file_name, \"time\") VALUES ($1, $2);");
    reveal_strlit("INSERT INTO ");
    reveal_strlit("timestamps");
    reveal_strlit("file_name");
    reveal_strlit("\"time\"");
    reveal_strlit(" (");
    reveal_strlit(", ");
    reveal_strlit(") VALUES (");
    reveal_strlit(");");
    lemma_places(2);
    let marks = places(2);
    lemma_joined_next(columns, 1);
    lemma_joined_next(marks, 1);
    assert(columns.take(2) =~= columns);
    assert(marks.take(2) =~= marks);
    assert(INSERT_TIMESTAMP@ =~= insertion("timestamps"@, columns));
}

#[verifier::spinoff_prover]
#[verifier::rlimit(60)]
proof fn lemma_insert_entity(columns: Seq<Seq<char>>)
    requires
        columns == seq![
            "file_name"@,
            "id"@,
            "name"@,
        ],
    ensures
        INSERT_ENTITY@ == insertion("entities"@, columns),
{
    reveal_strlit("INSERT INTO entities (file_name, id, name) VALUES ($1, $2, $3);");
    reveal_strlit("INSERT INTO ");
    reveal_strlit("entities");
    reveal_strlit("file_name");
    reveal_strlit("id");
    reveal_strlit("name");
    reveal_strlit(" (");
    reveal_strlit(", ");
    reveal_strlit(") VALUES (");
    reveal_strlit(");");
    lemma_places(3);
    let marks = places(3);
    lemma_joined_next(columns, 1);
    lemma_joined_next(marks, 1);
    lemma_joined_next(columns, 2);
    lemma_joined_next(marks, 2);
    assert(columns.take(3) =~= columns);
    assert(marks.take(3) =~= marks);
    assert(INSERT_ENTITY@ =~= insertion("entities"@, columns));
}

#[verifier::spinoff_prover]
#[verifier::rlimit(40)]
proof fn lemma_group_literals()
    ensures
        INSERT_GROUP@ == "INSERT INTO groups (file_name, name, title, description, "@ + "data_range, unit, data_type) VALUES ("@ + "$1, $2, $3, $4, $5, $6, $7);"@,
{
    reveal_strlit("INSERT INTO groups (file_name, name, title, description, data_range, unit, data_type) VALUES ($1, $2, $3, $4, $5, $6, $7);");
    reveal_strlit("INSERT INTO groups (file_name, name, title, description, ");
    reveal_strlit("data_range, unit, data_type) VALUES (");
    reveal_strlit("$1, $2, $3, $4, $5, $6, $7);");
    assert(INSERT_GROUP@ =~= "INSERT INTO groups (file_name, name, title, description, "@ + "data_range, unit, data_type) VALUES ("@ + "$1, $2, $3, $4, $5, $6, $7);"@);
}

#[verifier::spinoff_prover]
#[verifier::rlimit(40)]
proof fn lemma_group_front()
    ensures
        "INSERT INTO groups (file_name, name, title, description, "@ == "INSERT INTO "@ + "groups"@ + " ("@ + "file_name"@ + ", "@ + "name"@ + ", "@ + "title"@ + ", "@ + "description"@ + ", "@,
{
    reveal_strlit("INSERT INTO groups (file_name, name, title, description, ");
    reveal_strlit("INSERT INTO ");
    reveal_strlit("groups");
    reveal_strlit(" (");
    reveal_strlit(", ");
    reveal_strlit("file_name");
    reveal_strlit("name");
    reveal_strlit("title");
    reveal_strlit("description");
    assert("INSERT INTO groups (file_name, name, title, description, "@ =~= "INSERT INTO "@ + "groups"@ + " ("@ + "file_name"@ + ", "@ + "name"@ + ", "@ + "title"@ + ", "@ + "description"@ + ", "@);
}

#[verifier::spinoff_prover]
#[verifier::rlimit(40)]
proof fn lemma_group_middle()
    ensures
        "data_range, unit, data_type) VALUES ("@ == "data_range"@ + ", "@ + "unit"@ + ", "@ + "data_type"@ + ") VALUES ("@,
{
    reveal_strlit("data_range, unit, data_type) VALUES (");
    reveal_strlit(", ");
    reveal_strlit(") VALUES (");
    reveal_strlit("data_range");
    reveal_strlit("unit");
    reveal_strlit("data_type");
    assert("data_range, unit, data_type) VALUES ("@ =~= "data_range"@ + ", "@ + "unit"@ + ", "@ + "data_type"@ + ") VALUES ("@);
}

#[verifier::spinoff_prover]
#[verifier::rlimit(40)]
proof fn lemma_group_places()
    ensures
        "$1, $2, $3, $4, $5, $6, $7);"@ == text::joined(places(7), ", "@) + ");"@,
{
    reveal_strlit("$1, $2, $3, $4, $5, $6, $7);");
    reveal_strlit(", ");
    reveal_strlit(");");
    lemma_places(7);
    let marks = places(7);
    lemma_joined_next(marks, 1);
    lemma_joined_next(marks, 2);
    lemma_joined_next(marks, 3);
    lemma_joined_next(marks, 4);
    lemma_joined_next(marks, 5);
    lemma_joined_next(marks, 6);
    assert(marks.take(7) =~= marks);
    assert("$1, $2, $3, $4, $5, $6, $7);"@ =~= text::joined(marks, ", "@) + ");"@);
}

#[verifier::spinoff_prover]
#[verifier::rlimit(60)]
proof fn lemma_insert_group(columns: Seq<Seq<char>>)
    requires
        columns == seq![
            "file_name"@,
            "name"@,
            "title"@,
            "description"@,
            "data_range"@,
            "unit"@,
            "data_type"@,
        ],
    ensures
        INSERT_GROUP@ == insertion("groups"@, columns),
{
    lemma_group_literals();
    lemma_group_front();
    lemma_group_middle();
    lemma_group_places();
    lemma_joined_next(columns, 1);
    lemma_joined_next(columns, 2);
    lemma_joined_next(columns, 3);
    lemma_joined_next(columns, 4);
    lemma_joined_next(columns, 5);
    lemma_joined_next(columns, 6);
    assert(columns.take(7) =~= columns);
    assert(INSERT_GROUP@ =~= insertion("groups"@, columns));
}

#[verifier::spinoff_prover]
#[verifier::rlimit(40)]
proof fn lemma_overview_literals()
    ensures
        INSERT_OVERVIEW@ == "INSERT INTO overviews (file_name, title, summary, spatial_reference, "@ + "colorizer, creator_name, creator_email, creator_institution) VALUES ("@ + "$1, $2, $3, $4, $5, $6, $7, $8);"@,
{
    reveal_strlit("INSERT INTO overviews (file_name, title, summary, spatial_reference, colorizer, creator_name, creator_email, creator_institution) VALUES ($1, $2, $3, $4, $5, $6, $7, $8);");
    reveal_strlit("INSERT INTO overviews (file_name, title, summary, spatial_reference, ");
    reveal_strlit("colorizer, creator_name, creator_email, creator_institution) VALUES (");
    reveal_strlit("$1, $2, $3, $4, $5, $6, $7, $8);");
    assert(INSERT_OVERVIEW@ =~= "INSERT INTO overviews (file_name, title, summary, spatial_reference, "@ + "colorizer, creator_name, creator_email, creator_institution) VALUES ("@ + "$1, $2, $3, $4, $5, $6, $7, $8);"@);
}

#[verifier::spinoff_prover]
#[verifier::rlimit(40)]
proof fn lemma_overview_front()
    ensures
        "INSERT INTO overviews (file_name, title, summary, spatial_reference, "@ == "INSERT INTO "@ + "overviews"@ + " ("@ + "file_name"@ + ", "@ + "title"@ + ", "@ + "summary"@ + ", "@ + "spatial_reference"@ + ", "@,
{
    reveal_strlit("INSERT INTO overviews (file_name, title, summary, spatial_reference, ");
    reveal_strlit("INSERT INTO ");
    reveal_strlit("overviews");
    reveal_strlit(" (");
    reveal_strlit(", ");
    reveal_strlit("file_name");
    reveal_strlit("title");
    reveal_strlit("summary");
    reveal_strlit("spatial_reference");
    assert("INSERT INTO overviews (file_name, title, summary, spatial_reference, "@ =~= "INSERT INTO "@ + "overviews"@ + " ("@ + "file_name"@ + ", "@ + "title"@ + ", "@ + "summary"@ + ", "@ + "spatial_reference"@ + ", "@);
}

#[verifier::spinoff_prover]
#[verifier::rlimit(40)]
proof fn lemma_overview_middle()
    ensures
        "colorizer, creator_name, creator_email, creator_institution) VALUES ("@ == "colorizer"@ + ", "@ + "creator_name"@ + ", "@ + "creator_email"@ + ", "@ + "creator_institution"@ + ") VALUES ("@,
{
    reveal_strlit("colorizer, creator_name, creator_email, creator_institution) VALUES (");
    reveal_strlit(", ");
    reveal_strlit(") VALUES (");
    reveal_strlit("colorizer");
    reveal_strlit("creator_name");
    reveal_strlit("creator_email");
    reveal_strlit("creator_institution");
    assert("colorizer, creator_name, creator_email, creator_institution) VALUES ("@ =~= "colorizer"@ + ", "@ + "creator_name"@ + ", "@ + "creator_email"@ + ", "@ + "creator_institution"@ + ") VALUES ("@);
}

#[verifier::spinoff_prover]
#[verifier::rlimit(40)]
proof fn lemma_overview_places()
    ensures
        "$1, $2, $3, $4, $5, $6, $7, $8);"@ == text::joined(places(8), ", "@) + ");"@,
{
    reveal_strlit("$1, $2, $3, $4, $5, $6, $7, $8);");
    reveal_strlit(", ");
    reveal_strlit(");");
    lemma_places(8);
    let marks = places(8);
    lemma_joined_next(marks, 1);
    lemma_joined_next(marks, 2);
    lemma_joined_next(marks, 3);
    lemma_joined_next(marks, 4);
    lemma_joined_next(marks, 5);
    lemma_joined_next(marks, 6);
    lemma_joined_next(marks, 7);
    assert(marks.take(8) =~= marks);
    assert("$1, $2, $3, $4, $5, $6, $7, $8);"@ =~= text::joined(marks, ", "@) + ");"@);
}

#[verifier::spinoff_prover]
#[verifier::rlimit(60)]
proof fn lemma_insert_overview(columns: Seq<Seq<char>>)
    requires
        columns == seq![
            "file_name"@,
            "title"@,
            "summary"@,
            "spatial_reference"@,
            "colorizer"@,
            "creator_name"@,
            "creator_email"@,
            "creator_institution"@,
        ],
    ensures
        INSERT_OVERVIEW@ == insertion("overviews"@, columns),
{
    lemma_overview_literals();
    lemma_overview_front();
    lemma_overview_middle();
    lemma_overview_places();
    lemma_joined_next(columns, 1);
    lemma_joined_next(columns, 2);
    lemma_joined_next(columns, 3);
    lemma_joined_next(columns, 4);
    lemma_joined_next(columns, 5);
    lemma_joined_next(columns, 6);
    lemma_joined_next(columns, 7);
    assert(columns.take(8) =~= columns);
    assert(INSERT_OVERVIEW@ =~= insertion("overviews"@, columns));
}

/// Every statement names as columns what its fields are called, in their order, and takes each of
/// them from the parameter at the same position. What is deleted is what the row of the file as a
/// whole is inserted under.
pub proof fn law_statements_name_their_fields(statement: MetadataStatement)
    ensures
        match statement {
            MetadataStatement::DeleteOverview { file_name } => sql_of(statement)
                == "DELETE FROM "@ + "overviews"@ + " WHERE "@ + "file_name"@ + " = "@
                + places(1)[0],
            MetadataStatement::InsertOverview(row) => sql_of(statement) == insertion(
                "overviews"@,
                seq![
                    "file_name"@,
                    "title"@,
                    "summary"@,
                    "spatial_reference"@,
                    "colorizer"@,
                    "creator_name"@,
                    "creator_email"@,
                    "creator_institution"@,
                ],
            ),
            MetadataStatement::InsertGroup { .. } => sql_of(statement) == insertion(
                "groups"@,
                seq![
                    "file_name"@,
                    "name"@,
                    "title"@,
                    "description"@,
                    "data_range"@,
                    "unit"@,
                    "data_type"@,
                ],
            ),
            MetadataStatement::InsertEntity { .. } => sql_of(statement) == insertion(
                "entities"@,
                seq!["file_name"@, "id"@, "name"@],
            ),
            MetadataStatement::InsertTimestamp { .. } => sql_of(statement) == insertion(
                "timestamps"@,
                seq!["file_name"@, "\"time\""@],
            ),
        },
{
    match statement {
        MetadataStatement::DeleteOverview { file_name } => {
            reveal_strlit("DELETE FROM overviews WHERE file_name = $1");
            reveal_strlit("DELETE FROM ");
            reveal_strlit("overviews");
            reveal_strlit(" WHERE ");
            reveal_strlit("file_name");
            reveal_strlit(" = ");
            lemma_places(1);
            assert(sql_of(statement) =~= "DELETE FROM "@ + "overviews"@ + " WHERE "@ + "file_name"@
                + " = "@ + places(1)[0]);
        },
        MetadataStatement::InsertOverview(row) => {
            lemma_insert_overview(
                seq![
                    "file_name"@,
                    "title"@,
                    "summary"@,
                    "spatial_reference"@,
                    "colorizer"@,
                    "creator_name"@,
                    "creator_email"@,
                    "creator_institution"@,
                ],
            );
        },
        MetadataStatement::InsertGroup { .. } => {
            lemma_insert_group(
                seq![
                    "file_name"@,
                    "name"@,
                    "title"@,
                    "description"@,
                    "data_range"@,
                    "unit"@,
                    "data_type"@,
                ],
            );
        },
        MetadataStatement::InsertEntity { .. } => {
            lemma_insert_entity(seq!["file_name"@, "id"@, "name"@]);
        },
        MetadataStatement::InsertTimestamp { .. } => {
            lemma_insert_timestamp(seq!["file_name"@, "\"time\""@]);
        },
    }
}

} // verus!
