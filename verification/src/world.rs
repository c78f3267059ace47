//! The mathematical model of the data store.
//!
//! Every executable store type in [`crate::datalayer`] has a view into the
//! types of this module, and every contract of the store speaks over them:
//! entities are a sequence of records, a record holds at most one value per
//! component type, resources are process-wide singletons, and a command
//! describes one structural edit that the runner commits after an operation
//! returns.

use vstd::prelude::*;

verus! {

/// The model of one typed component value.
#[verifier::ext_equal]
pub enum ComponentModel {
    FileName(Seq<char>),
    FilePath(Seq<char>),
    MarkdownBody(Seq<char>),
    Html(Seq<char>),
    Label(Seq<char>),
    Marker(u32),
}

/// The model of one process-wide singleton value.
#[verifier::ext_equal]
pub enum ResourceModel {
    SiteName(Seq<char>),
    Counter(u64),
    MarkdownDirectories(Seq<Seq<char>>),
    RonDirectories(Seq<Seq<char>>),
}

/// The resource types the store can hold, at most one value each.
#[derive(Clone, Copy, PartialEq, Eq, Structural, Debug)]
pub enum ResourceKind {
    SiteName,
    Counter,
    MarkdownDirectories,
    RonDirectories,
}

/// The component types an entity can hold. Each marker key is its own
/// component type carrying no further value.
#[derive(Clone, Copy, PartialEq, Eq, Structural, Debug)]
pub enum ComponentKind {
    FileName,
    FilePath,
    MarkdownBody,
    Html,
    Label,
    Marker(u32),
}

/// The resource type a value belongs to.
pub open spec fn resource_kind(r: ResourceModel) -> ResourceKind {
    match r {
        ResourceModel::SiteName(_) => ResourceKind::SiteName,
        ResourceModel::Counter(_) => ResourceKind::Counter,
        ResourceModel::MarkdownDirectories(_) => ResourceKind::MarkdownDirectories,
        ResourceModel::RonDirectories(_) => ResourceKind::RonDirectories,
    }
}

/// The model of one entity: at most one value per component type.
#[verifier::ext_equal]
pub struct EntityModel {
    pub file_name: Option<Seq<char>>,
    pub file_path: Option<Seq<char>>,
    pub markdown_body: Option<Seq<char>>,
    pub html: Option<Seq<char>>,
    pub label: Option<Seq<char>>,
    pub markers: Seq<u32>,
}

/// The model of the singleton table: at most one value per resource type.
#[verifier::ext_equal]
pub struct ResourceTableModel {
    pub site_name: Option<Seq<char>>,
    pub counter: Option<u64>,
    pub markdown_directories: Option<Seq<Seq<char>>>,
    pub ron_directories: Option<Seq<Seq<char>>>,
}

/// The model of the whole store.
#[verifier::ext_equal]
pub struct StoreModel {
    pub resources: ResourceTableModel,
    pub entities: Seq<EntityModel>,
}

/// The model of one buffered structural edit.
#[verifier::ext_equal]
pub enum CommandModel {
    Spawn(Seq<ComponentModel>),
    Insert(int, ComponentModel),
    InsertResource(ResourceModel),
}

/// An entity with no components attached.
pub open spec fn empty_entity() -> EntityModel {
    EntityModel {
        file_name: None,
        file_path: None,
        markdown_body: None,
        html: None,
        label: None,
        markers: Seq::empty(),
    }
}

/// The store right after creation: no entities, no resources.
pub open spec fn empty_store() -> StoreModel {
    StoreModel {
        resources: ResourceTableModel {
            site_name: None,
            counter: None,
            markdown_directories: None,
            ron_directories: None,
        },
        entities: Seq::empty(),
    }
}

/// Attach `c` to the entity, replacing any previous value of the same
/// component type. Attaching a marker twice leaves the entity unchanged.
pub open spec fn entity_insert(e: EntityModel, c: ComponentModel) -> EntityModel {
    match c {
        ComponentModel::FileName(v) => EntityModel { file_name: Some(v), ..e },
        ComponentModel::FilePath(v) => EntityModel { file_path: Some(v), ..e },
        ComponentModel::MarkdownBody(v) => EntityModel { markdown_body: Some(v), ..e },
        ComponentModel::Html(v) => EntityModel { html: Some(v), ..e },
        ComponentModel::Label(v) => EntityModel { label: Some(v), ..e },
        ComponentModel::Marker(k) => if e.markers.contains(k) {
            e
        } else {
            EntityModel { markers: e.markers.push(k), ..e }
        },
    }
}

/// The value of component type `kind` on the entity, if attached.
pub open spec fn entity_component(e: EntityModel, kind: ComponentKind) -> Option<ComponentModel> {
    match kind {
        ComponentKind::FileName => match e.file_name {
            Some(v) => Some(ComponentModel::FileName(v)),
            None => None,
        },
        ComponentKind::FilePath => match e.file_path {
            Some(v) => Some(ComponentModel::FilePath(v)),
            None => None,
        },
        ComponentKind::MarkdownBody => match e.markdown_body {
            Some(v) => Some(ComponentModel::MarkdownBody(v)),
            None => None,
        },
        ComponentKind::Html => match e.html {
            Some(v) => Some(ComponentModel::Html(v)),
            None => None,
        },
        ComponentKind::Label => match e.label {
            Some(v) => Some(ComponentModel::Label(v)),
            None => None,
        },
        ComponentKind::Marker(k) => if e.markers.contains(k) {
            Some(ComponentModel::Marker(k))
        } else {
            None
        },
    }
}

/// An entity freshly spawned from a bundle: the components attached in
/// order to an empty record, a later value replacing an earlier one of the
/// same type.
pub open spec fn spawned_entity(bundle: Seq<ComponentModel>) -> EntityModel
    decreases bundle.len(),
{
    if bundle.len() == 0 {
        empty_entity()
    } else {
        entity_insert(spawned_entity(bundle.drop_last()), bundle.last())
    }
}

/// Replace the singleton of `r`'s resource type: last write wins.
pub open spec fn table_insert(t: ResourceTableModel, r: ResourceModel) -> ResourceTableModel {
    match r {
        ResourceModel::SiteName(v) => ResourceTableModel { site_name: Some(v), ..t },
        ResourceModel::Counter(v) => ResourceTableModel { counter: Some(v), ..t },
        ResourceModel::MarkdownDirectories(v) => ResourceTableModel {
            markdown_directories: Some(v),
            ..t
        },
        ResourceModel::RonDirectories(v) => ResourceTableModel { ron_directories: Some(v), ..t },
    }
}

/// The current singleton of resource type `kind`, if one was ever inserted.
pub open spec fn table_get(t: ResourceTableModel, kind: ResourceKind) -> Option<ResourceModel> {
    match kind {
        ResourceKind::SiteName => match t.site_name {
            Some(v) => Some(ResourceModel::SiteName(v)),
            None => None,
        },
        ResourceKind::Counter => match t.counter {
            Some(v) => Some(ResourceModel::Counter(v)),
            None => None,
        },
        ResourceKind::MarkdownDirectories => match t.markdown_directories {
            Some(v) => Some(ResourceModel::MarkdownDirectories(v)),
            None => None,
        },
        ResourceKind::RonDirectories => match t.ron_directories {
            Some(v) => Some(ResourceModel::RonDirectories(v)),
            None => None,
        },
    }
}

/// Replace the singleton of `r`'s type in the store.
pub open spec fn store_insert_resource(s: StoreModel, r: ResourceModel) -> StoreModel {
    StoreModel { resources: table_insert(s.resources, r), ..s }
}

/// The current singleton of resource type `kind` in the store.
pub open spec fn store_resource(s: StoreModel, kind: ResourceKind) -> Option<ResourceModel> {
    table_get(s.resources, kind)
}

/// Append a freshly spawned entity; its identifier is the previous entity
/// count, so identifiers are stable and never reused.
pub open spec fn store_spawn(s: StoreModel, bundle: Seq<ComponentModel>) -> StoreModel {
    StoreModel { entities: s.entities.push(spawned_entity(bundle)), ..s }
}

/// Apply one structural edit. Inserting on an identifier that names no
/// entity leaves the store unchanged.
pub open spec fn apply_command(s: StoreModel, c: CommandModel) -> StoreModel {
    match c {
        CommandModel::Spawn(bundle) => store_spawn(s, bundle),
        CommandModel::Insert(e, comp) => if 0 <= e < s.entities.len() {
            StoreModel {
                entities: s.entities.update(e, entity_insert(s.entities[e], comp)),
                ..s
            }
        } else {
            s
        },
        CommandModel::InsertResource(r) => store_insert_resource(s, r),
    }
}

/// Apply a whole batch of edits in order, as one step.
pub open spec fn apply_commands(s: StoreModel, cmds: Seq<CommandModel>) -> StoreModel
    decreases cmds.len(),
{
    if cmds.len() == 0 {
        s
    } else {
        apply_commands(apply_command(s, cmds.first()), cmds.drop_first())
    }
}

/// The value of the shared counter resource, zero if none was ever
/// inserted.
pub open spec fn counter_of(s: StoreModel) -> u64 {
    match store_resource(s, ResourceKind::Counter) {
        Some(ResourceModel::Counter(v)) => v,
        _ => 0,
    }
}

/// Inserting a singleton makes exactly that value retrievable under its
/// type, and leaves every other type's singleton untouched.
pub proof fn lemma_insert_get(s: StoreModel, r: ResourceModel)
    ensures
        store_resource(store_insert_resource(s, r), resource_kind(r)) == Some(r),
        forall|k: ResourceKind|
            k != resource_kind(r) ==> #[trigger] store_resource(store_insert_resource(s, r), k)
                == store_resource(s, k),
        store_insert_resource(s, r).entities == s.entities,
{
}

/// Last write wins: inserting two singletons of the same resource type
/// leaves only the second retrievable.
pub proof fn lemma_last_write_wins(s: StoreModel, first: ResourceModel, second: ResourceModel)
    requires
        resource_kind(first) == resource_kind(second),
    ensures
        store_resource(
            store_insert_resource(store_insert_resource(s, first), second),
            resource_kind(second),
        ) == Some(second),
{
}

/// Apply a sequence of whole batches in order: how the store evolves over
/// several operation executions, each committing atomically.
pub open spec fn apply_batches(s: StoreModel, batches: Seq<Seq<CommandModel>>) -> StoreModel
    decreases batches.len(),
{
    if batches.len() == 0 {
        s
    } else {
        apply_batches(apply_commands(s, batches.first()), batches.drop_first())
    }
}

/// Extending a run of batches by one applies that batch last.
pub proof fn lemma_apply_batches_snoc(
    s: StoreModel,
    batches: Seq<Seq<CommandModel>>,
    b: Seq<CommandModel>,
)
    ensures
        apply_batches(s, batches.push(b)) == apply_commands(apply_batches(s, batches), b),
    decreases batches.len(),
{
    if batches.len() == 0 {
        reveal_with_fuel(apply_batches, 3);
        assert(batches.push(b).first() == b);
        assert(batches.push(b).drop_first() =~= Seq::<Seq<CommandModel>>::empty());
    } else {
        assert(batches.push(b).first() == batches.first());
        assert(batches.push(b).drop_first() =~= batches.drop_first().push(b));
        lemma_apply_batches_snoc(apply_commands(s, batches.first()), batches.drop_first(), b);
    }
}

/// Splitting a batch applies the two halves in order.
pub proof fn lemma_apply_commands_append(s: StoreModel, a: Seq<CommandModel>, b: Seq<CommandModel>)
    ensures
        apply_commands(s, a + b) == apply_commands(apply_commands(s, a), b),
    decreases a.len(),
{
    if a.len() == 0 {
        assert(a + b =~= b);
    } else {
        assert((a + b).drop_first() =~= a.drop_first() + b);
        lemma_apply_commands_append(apply_command(s, a.first()), a.drop_first(), b);
    }
}

/// Extending a batch by one command applies that command last.
pub proof fn lemma_apply_commands_snoc(s: StoreModel, a: Seq<CommandModel>, c: CommandModel)
    ensures
        apply_commands(s, a.push(c)) == apply_command(apply_commands(s, a), c),
{
    assert(a.push(c) =~= a + seq![c]);
    lemma_apply_commands_append(s, a, seq![c]);
    let y = apply_commands(s, a);
    assert(seq![c].first() == c);
    assert(seq![c].drop_first() =~= Seq::<CommandModel>::empty());
    assert(apply_commands(y, seq![c]) == apply_commands(
        apply_command(y, c),
        seq![c].drop_first(),
    ));
    assert(apply_commands(apply_command(y, c), Seq::<CommandModel>::empty()) == apply_command(
        y,
        c,
    ));
}

/// How many entities a batch spawns.
pub open spec fn spawn_count(cmds: Seq<CommandModel>) -> nat
    decreases cmds.len(),
{
    if cmds.len() == 0 {
        0
    } else {
        (match cmds.first() {
            CommandModel::Spawn(_) => 1nat,
            _ => 0nat,
        }) + spawn_count(cmds.drop_first())
    }
}

/// Applying a batch grows the entity list by exactly the number of spawn
/// commands in it; identifiers of existing entities never move.
pub proof fn lemma_apply_entity_count(s: StoreModel, cmds: Seq<CommandModel>)
    ensures
        apply_commands(s, cmds).entities.len() == s.entities.len() + spawn_count(cmds),
    decreases cmds.len(),
{
    if cmds.len() > 0 {
        lemma_apply_entity_count(apply_command(s, cmds.first()), cmds.drop_first());
    }
}

/// Whether any command of the batch attaches a component to entity `id`.
pub open spec fn touches(cmds: Seq<CommandModel>, id: int) -> bool {
    exists|j: int|
        0 <= j < cmds.len() && (#[trigger] cmds[j] matches CommandModel::Insert(e, _) && e == id)
}

/// An entity already present, and not written to by the batch, is exactly
/// as the snapshot had it after the batch commits.
pub proof fn lemma_untouched_entity(s: StoreModel, cmds: Seq<CommandModel>, id: int)
    requires
        0 <= id < s.entities.len(),
        !touches(cmds, id),
    ensures
        id < apply_commands(s, cmds).entities.len(),
        apply_commands(s, cmds).entities[id] == s.entities[id],
    decreases cmds.len(),
{
    lemma_apply_entity_count(s, cmds);
    if cmds.len() > 0 {
        assert(!touches(cmds.drop_first(), id)) by {
            if touches(cmds.drop_first(), id) {
                let j = choose|j: int|
                    0 <= j < cmds.drop_first().len() && (#[trigger] cmds.drop_first()[j] matches
                    CommandModel::Insert(e, _) && e == id);
                assert(cmds[j + 1] == cmds.drop_first()[j]);
            }
        }
        assert(!(cmds[0] matches CommandModel::Insert(e, _) && e == id));
        lemma_untouched_entity(apply_command(s, cmds.first()), cmds.drop_first(), id);
    }
}

/// Read-after-write: an entity spawned by a command of the batch does not
/// exist in the snapshot the requesting operation read — its identifier
/// lies beyond every entity the snapshot holds — and after the batch
/// commits it exists, carrying exactly the components it was spawned with,
/// provided no later command of the batch wrote to it. Every operation run
/// strictly afterwards therefore observes it.
pub proof fn lemma_read_after_write(s: StoreModel, cmds: Seq<CommandModel>, i: int)
    requires
        0 <= i < cmds.len(),
        cmds[i] is Spawn,
        !touches(cmds.skip(i + 1), (s.entities.len() + spawn_count(cmds.take(i))) as int),
    ensures
        ({
            let id = (s.entities.len() + spawn_count(cmds.take(i))) as int;
            &&& id >= s.entities.len()
            &&& id < apply_commands(s, cmds).entities.len()
            &&& apply_commands(s, cmds).entities[id] == spawned_entity(cmds[i]->Spawn_0)
        }),
    decreases i,
{
    let id = (s.entities.len() + spawn_count(cmds.take(i))) as int;
    if i == 0 {
        assert(cmds.take(0) =~= Seq::<CommandModel>::empty());
        let s1 = apply_command(s, cmds.first());
        assert(s1.entities[id] == spawned_entity(cmds[0]->Spawn_0));
        assert(cmds.drop_first() =~= cmds.skip(1));
        lemma_untouched_entity(s1, cmds.drop_first(), id);
    } else {
        let s1 = apply_command(s, cmds.first());
        let rest = cmds.drop_first();
        assert(cmds.take(i).first() == cmds.first());
        assert(cmds.take(i).drop_first() =~= rest.take(i - 1));
        assert(s.entities.len() + spawn_count(cmds.take(i)) == s1.entities.len() + spawn_count(
            rest.take(i - 1),
        ));
        assert(rest.skip(i) =~= cmds.skip(i + 1));
        assert(rest[i - 1] == cmds[i]);
        lemma_read_after_write(s1, rest, i - 1);
    }
}

/// No lost updates: increment batches applied in the runner's total order,
/// each computed from the snapshot its operation observed, advance the
/// counter by exactly the number of batches.
pub proof fn lemma_counter_advances(s: StoreModel, batches: Seq<Seq<CommandModel>>)
    requires
        counter_of(s) + batches.len() <= u64::MAX,
        forall|i: int|
            0 <= i < batches.len() ==> #[trigger] batches[i] == seq![
                CommandModel::InsertResource(
                    ResourceModel::Counter(
                        (counter_of(apply_batches(s, batches.take(i))) + 1) as u64,
                    ),
                ),
            ],
    ensures
        counter_of(apply_batches(s, batches)) == counter_of(s) + batches.len(),
    decreases batches.len(),
{
    if batches.len() > 0 {
        let n = batches.len() as int;
        let prefix = batches.drop_last();
        assert forall|i: int| 0 <= i < prefix.len() implies #[trigger] prefix[i] == seq![
            CommandModel::InsertResource(
                ResourceModel::Counter((counter_of(apply_batches(s, prefix.take(i))) + 1) as u64),
            ),
        ] by {
            assert(prefix.take(i) =~= batches.take(i));
            assert(prefix[i] == batches[i]);
        }
        lemma_counter_advances(s, prefix);
        lemma_apply_batches_snoc(s, prefix, batches.last());
        assert(prefix.push(batches.last()) =~= batches);
        let mid = apply_batches(s, prefix);
        assert(batches.take(n - 1) =~= prefix);
        let last = batches[n - 1];
        let value = (counter_of(mid) + 1) as u64;
        assert(last == seq![
            CommandModel::InsertResource(ResourceModel::Counter(value)),
        ]);
        assert(apply_commands(mid, last) == apply_command(
            mid,
            CommandModel::InsertResource(ResourceModel::Counter(value)),
        )) by {
            reveal_with_fuel(apply_commands, 3);
            assert(last.first() == CommandModel::InsertResource(ResourceModel::Counter(value)));
            assert(last.drop_first() =~= Seq::<CommandModel>::empty());
        }
        assert(counter_of(apply_commands(mid, last)) == value);
    }
}

} // verus!
