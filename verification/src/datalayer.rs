//! The data store and its operation runner.
//!
//! A [`Datalayer`] holds entities with typed components and process-wide
//! singleton resources. Registered operations execute against it through
//! [`Datalayer::run`]: the operation reads one consistent snapshot of the
//! store, buffers every structural edit it wants in a [`CommandBuffer`], and
//! the runner commits the buffer as one atomic batch after the operation
//! returns. An operation therefore never observes its own edits; every
//! later operation observes all of them.

use vstd::prelude::*;

verus! {

use crate::loaders::markdown::{Html, MarkdownBody};
use crate::world::{
    apply_command, apply_commands, empty_store, entity_component, entity_insert,
    lemma_apply_commands_snoc, spawned_entity, store_insert_resource, store_resource, store_spawn,
    CommandModel, ComponentKind, ComponentModel, EntityModel, ResourceKind, ResourceModel,
    ResourceTableModel, StoreModel,
};
use crate::{FileName, FilePath};

/// A stable identifier for one entity in the store.
///
/// Identifiers are indices into the spawn order: they are never reused while
/// the store is alive.
#[derive(Clone, Copy, PartialEq, Eq, Structural, Debug)]
pub struct Entity(pub usize);

/// One typed component value, ready to be attached to an entity.
pub enum Component {
    FileName(FileName),
    FilePath(FilePath),
    MarkdownBody(MarkdownBody),
    Html(Html),
    Label(String),
    Marker(u32),
}

impl View for Component {
    type V = ComponentModel;

    open spec fn view(&self) -> ComponentModel {
        match self {
            Component::FileName(v) => ComponentModel::FileName(v@),
            Component::FilePath(v) => ComponentModel::FilePath(v@),
            Component::MarkdownBody(v) => ComponentModel::MarkdownBody(v@),
            Component::Html(v) => ComponentModel::Html(v@),
            Component::Label(v) => ComponentModel::Label(v@),
            Component::Marker(k) => ComponentModel::Marker(*k),
        }
    }
}

/// One process-wide singleton value.
pub enum Resource {
    SiteName(String),
    Counter(u64),
    MarkdownDirectories(Vec<String>),
    RonDirectories(Vec<String>),
}

impl View for Resource {
    type V = ResourceModel;

    open spec fn view(&self) -> ResourceModel {
        match self {
            Resource::SiteName(v) => ResourceModel::SiteName(v@),
            Resource::Counter(v) => ResourceModel::Counter(*v),
            Resource::MarkdownDirectories(v) => ResourceModel::MarkdownDirectories(
                v@.map_values(|s: String| s@),
            ),
            Resource::RonDirectories(v) => ResourceModel::RonDirectories(
                v@.map_values(|s: String| s@),
            ),
        }
    }
}

/// One entity's attached components: at most one value per component type.
struct EntityRecord {
    file_name: Option<FileName>,
    file_path: Option<FilePath>,
    markdown_body: Option<MarkdownBody>,
    html: Option<Html>,
    label: Option<String>,
    markers: Vec<u32>,
}

impl View for EntityRecord {
    type V = EntityModel;

    closed spec fn view(&self) -> EntityModel {
        EntityModel {
            file_name: match self.file_name {
                Some(ref v) => Some(v@),
                None => None,
            },
            file_path: match self.file_path {
                Some(ref v) => Some(v@),
                None => None,
            },
            markdown_body: match self.markdown_body {
                Some(ref v) => Some(v@),
                None => None,
            },
            html: match self.html {
                Some(ref v) => Some(v@),
                None => None,
            },
            label: match self.label {
                Some(ref v) => Some(v@),
                None => None,
            },
            markers: self.markers@,
        }
    }
}

/// The singleton table: at most one value per resource type.
struct ResourceTable {
    site_name: Option<String>,
    counter: Option<u64>,
    markdown_directories: Option<Vec<String>>,
    ron_directories: Option<Vec<String>>,
}

impl View for ResourceTable {
    type V = ResourceTableModel;

    closed spec fn view(&self) -> ResourceTableModel {
        ResourceTableModel {
            site_name: match self.site_name {
                Some(ref v) => Some(v@),
                None => None,
            },
            counter: self.counter,
            markdown_directories: match self.markdown_directories {
                Some(ref v) => Some(v@.map_values(|s: String| s@)),
                None => None,
            },
            ron_directories: match self.ron_directories {
                Some(ref v) => Some(v@.map_values(|s: String| s@)),
                None => None,
            },
        }
    }
}

/// The data store: entities with typed components, plus singleton resources.
pub struct Datalayer {
    resources: ResourceTable,
    entities: Vec<EntityRecord>,
}

impl View for Datalayer {
    type V = StoreModel;

    closed spec fn view(&self) -> StoreModel {
        StoreModel {
            resources: self.resources@,
            entities: self.entities@.map_values(|e: EntityRecord| e@),
        }
    }
}

/// Components gathered for one entity about to be spawned.
pub struct EntityCommands {
    components: Vec<Component>,
}

impl View for EntityCommands {
    type V = Seq<ComponentModel>;

    closed spec fn view(&self) -> Seq<ComponentModel> {
        self.components@.map_values(|c: Component| c@)
    }
}

impl EntityCommands {
    /// Start gathering components for a new entity.
    pub fn new() -> (r: Self)
        ensures
            r@ =~= Seq::<ComponentModel>::empty(),
    {
        EntityCommands { components: Vec::new() }
    }

    /// Add one component to the entity being gathered.
    pub fn insert(&mut self, c: Component)
        ensures
            final(self)@ =~= old(self)@.push(c@),
    {
        self.components.push(c);
    }
}

/// A buffer of structural edits requested by one operation execution.
///
/// Nothing in the buffer touches the store until the runner applies it,
/// immediately after the operation returns, as one atomic batch.
pub struct CommandBuffer {
    commands: Vec<Command>,
}

enum Command {
    Spawn(EntityCommands),
    Insert(Entity, Component),
    InsertResource(Resource),
}

impl View for Command {
    type V = CommandModel;

    closed spec fn view(&self) -> CommandModel {
        match self {
            Command::Spawn(b) => CommandModel::Spawn(b@),
            Command::Insert(e, c) => CommandModel::Insert(e.0 as int, c@),
            Command::InsertResource(r) => CommandModel::InsertResource(r@),
        }
    }
}

impl View for CommandBuffer {
    type V = Seq<CommandModel>;

    closed spec fn view(&self) -> Seq<CommandModel> {
        self.commands@.map_values(|c: Command| c@)
    }
}

impl CommandBuffer {
    /// An empty buffer.
    pub fn new() -> (r: Self)
        ensures
            r@ =~= Seq::<CommandModel>::empty(),
    {
        CommandBuffer { commands: Vec::new() }
    }

    /// Request a new entity spawned from the gathered components.
    pub fn spawn(&mut self, bundle: EntityCommands)
        ensures
            final(self)@ =~= old(self)@.push(CommandModel::Spawn(bundle@)),
    {
        self.commands.push(Command::Spawn(bundle));
    }

    /// Request one component attached to an existing entity.
    pub fn insert(&mut self, entity: Entity, c: Component)
        ensures
            final(self)@ =~= old(self)@.push(CommandModel::Insert(entity.0 as int, c@)),
    {
        self.commands.push(Command::Insert(entity, c));
    }

    /// Request the singleton of the value's resource type replaced.
    pub fn insert_resource(&mut self, r: Resource)
        ensures
            final(self)@ =~= old(self)@.push(CommandModel::InsertResource(r@)),
    {
        self.commands.push(Command::InsertResource(r));
    }
}

/// One registered unit of logic run against the store.
///
/// An operation declares its contract explicitly: `pre` says which store
/// snapshots and inputs it accepts, and `post` relates the snapshot it read
/// and its input to its output and the edits it buffered. The runner holds
/// every execution to this interface: the operation reads the snapshot only,
/// and its edits are committed after it returns.
pub trait Operation {
    /// The input handed to one execution.
    type Input;

    /// The output of one execution, which the caller must inspect for
    /// failure-carrying types.
    type Output;

    /// Which snapshots and inputs the operation accepts.
    spec fn pre(&self, store: StoreModel, input: Self::Input) -> bool;

    /// How output and buffered edits relate to the snapshot and input.
    spec fn post(
        &self,
        store: StoreModel,
        input: Self::Input,
        output: Self::Output,
        commands: Seq<CommandModel>,
    ) -> bool;

    /// Execute once against one consistent snapshot, buffering edits.
    fn execute(&self, store: &Datalayer, input: Self::Input, commands: &mut CommandBuffer) -> (
        output: Self::Output)
        requires
            old(commands)@.len() == 0,
            self.pre(store@, input),
        ensures
            self.post(store@, input, output, final(commands)@),
    ;
}

impl crate::Ingest for Component {
    open spec fn components(&self) -> Seq<ComponentModel> {
        seq![self@]
    }

    fn ingest(self, commands: &mut EntityCommands) {
        commands.insert(self);
    }
}

impl crate::Ingest for EntityCommands {
    open spec fn components(&self) -> Seq<ComponentModel> {
        self@
    }

    fn ingest(self, commands: &mut EntityCommands) {
        let EntityCommands { components } = self;
        let ghost all = components@.map_values(|c: Component| c@);
        let n = components.len();
        let mut components = components;
        let mut i: usize = 0;
        while components.len() > 0
            invariant
                i + components@.len() == n,
                all.len() == n,
                forall|j: int| 0 <= j < components@.len() ==> components@[j]@ == all[i + j],
                commands@ =~= old(commands)@ + all.take(i as int),
            decreases components@.len(),
        {
            let c = components.remove(0);
            commands.insert(c);
            proof {
                assert((old(commands)@ + all.take(i as int)).push(all[i as int]) =~= old(
                    commands,
                )@ + all.take(i + 1));
            }
            i = i + 1;
        }
        proof {
            assert(all.take(n as int) =~= all);
        }
    }
}

impl Datalayer {
    /// A store with no entities and no resources.
    pub fn new() -> (r: Datalayer)
        ensures
            r@ =~= empty_store(),
    {
        Datalayer {
            resources: ResourceTable {
                site_name: None,
                counter: None,
                markdown_directories: None,
                ron_directories: None,
            },
            entities: Vec::new(),
        }
    }

    /// Replace the singleton for this value's resource type: last write wins.
    pub fn insert_resource(&mut self, value: Resource)
        ensures
            final(self)@ =~= store_insert_resource(old(self)@, value@),
    {
        match value {
            Resource::SiteName(v) => self.resources.site_name = Some(v),
            Resource::Counter(v) => self.resources.counter = Some(v),
            Resource::MarkdownDirectories(v) => self.resources.markdown_directories = Some(v),
            Resource::RonDirectories(v) => self.resources.ron_directories = Some(v),
        }
    }

    /// A copy of the current singleton of resource type `kind`, or `None`
    /// if none was ever inserted.
    pub fn get_resource(&self, kind: ResourceKind) -> (r: Option<Resource>)
        ensures
            match r {
                Some(v) => store_resource(self@, kind) == Some(v@),
                None => store_resource(self@, kind) is None,
            },
    {
        match kind {
            ResourceKind::SiteName => match &self.resources.site_name {
                Some(v) => Some(Resource::SiteName(v.clone())),
                None => None,
            },
            ResourceKind::Counter => match &self.resources.counter {
                Some(v) => Some(Resource::Counter(*v)),
                None => None,
            },
            ResourceKind::MarkdownDirectories => match &self.resources.markdown_directories {
                Some(v) => Some(Resource::MarkdownDirectories(clone_strings(v))),
                None => None,
            },
            ResourceKind::RonDirectories => match &self.resources.ron_directories {
                Some(v) => Some(Resource::RonDirectories(clone_strings(v))),
                None => None,
            },
        }
    }

    /// Spawn a new entity with the given initial components, committed
    /// immediately; its identifier is returned for further attachment.
    pub fn spawn(&mut self, bundle: EntityCommands) -> (e: Entity)
        ensures
            final(self)@ =~= store_spawn(old(self)@, bundle@),
            e.0 == old(self)@.entities.len(),
    {
        let e = Entity(self.entities.len());
        let record = spawn_record(bundle);
        self.entities.push(record);
        proof {
            assert(self@.entities =~= old(self)@.entities.push(record@));
        }
        e
    }

    /// The number of entities spawned so far.
    pub fn entity_count(&self) -> (n: usize)
        ensures
            n == self@.entities.len(),
    {
        self.entities.len()
    }

    /// A copy of the component of type `kind` on `entity`, if the entity
    /// exists and has one attached.
    pub fn get_component(&self, entity: Entity, kind: ComponentKind) -> (r: Option<Component>)
        ensures
            match r {
                Some(c) => 0 <= entity.0 < self@.entities.len() && entity_component(
                    self@.entities[entity.0 as int],
                    kind,
                ) == Some(c@),
                None => entity.0 >= self@.entities.len() || entity_component(
                    self@.entities[entity.0 as int],
                    kind,
                ) is None,
            },
    {
        if entity.0 >= self.entities.len() {
            return None;
        }
        let record = &self.entities[entity.0];
        match kind {
            ComponentKind::FileName => match &record.file_name {
                Some(v) => Some(Component::FileName(FileName(v.0.clone()))),
                None => None,
            },
            ComponentKind::FilePath => match &record.file_path {
                Some(v) => Some(Component::FilePath(FilePath(v.0.clone()))),
                None => None,
            },
            ComponentKind::MarkdownBody => match &record.markdown_body {
                Some(v) => Some(Component::MarkdownBody(MarkdownBody(v.0.clone()))),
                None => None,
            },
            ComponentKind::Html => match &record.html {
                Some(v) => Some(Component::Html(Html(v.0.clone()))),
                None => None,
            },
            ComponentKind::Label => match &record.label {
                Some(v) => Some(Component::Label(v.clone())),
                None => None,
            },
            ComponentKind::Marker(k) => if contains_key(&record.markers, k) {
                Some(Component::Marker(k))
            } else {
                None
            },
        }
    }

    /// Execute one operation against the store: resolve a snapshot, run the
    /// operation once, then commit its buffered edits as one atomic batch.
    ///
    /// The operation's postcondition holds of the snapshot taken *before*
    /// the call — its own edits are invisible to it — and the store
    /// afterwards is exactly that snapshot with the whole batch applied.
    pub fn run<Op: Operation>(&mut self, operation: &Op, input: Op::Input) -> (output: Op::Output)
        requires
            operation.pre(old(self)@, input),
        ensures
            exists|cmds: Seq<CommandModel>|
                operation.post(old(self)@, input, output, cmds) && final(self)@
                    == apply_commands(old(self)@, cmds),
    {
        let mut buffer = CommandBuffer::new();
        let output = operation.execute(self, input, &mut buffer);
        let ghost cmds = buffer@;
        self.apply(buffer);
        proof {
            assert(operation.post(old(self)@, input, output, cmds));
            assert(self@ == apply_commands(old(self)@, cmds));
        }
        output
    }

    /// Commit a batch of buffered edits to the store, in order, as one step.
    pub fn apply(&mut self, buffer: CommandBuffer)
        ensures
            final(self)@ =~= apply_commands(old(self)@, buffer@),
    {
        let CommandBuffer { commands } = buffer;
        let ghost all = commands@.map_values(|c: Command| c@);
        let mut commands = commands;
        let n = commands.len();
        let mut i: usize = 0;
        while commands.len() > 0
            invariant
                i + commands@.len() == n,
                all.len() == n,
                forall|j: int| 0 <= j < commands@.len() ==> commands@[j]@ == all[i + j],
                self@ == apply_commands(old(self)@, all.take(i as int)),
            decreases commands@.len(),
        {
            let cmd = commands.remove(0);
            proof {
                lemma_apply_commands_snoc(old(self)@, all.take(i as int), all[i as int]);
                assert(all.take(i as int).push(all[i as int]) =~= all.take(i + 1));
            }
            self.apply_one(cmd);
            i = i + 1;
        }
        proof {
            assert(all.take(n as int) =~= all);
        }
    }

    /// Commit one structural edit.
    fn apply_one(&mut self, cmd: Command)
        ensures
            final(self)@ =~= apply_command(old(self)@, cmd@),
    {
        match cmd {
            Command::Spawn(bundle) => {
                let record = spawn_record(bundle);
                self.entities.push(record);
            },
            Command::Insert(entity, c) => {
                if entity.0 < self.entities.len() {
                    let record = &mut self.entities[entity.0];
                    insert_into_record(record, c);
                    proof {
                        assert(final(self)@.entities =~= apply_command(
                            old(self)@,
                            cmd@,
                        ).entities);
                    }
                }
            },
            Command::InsertResource(r) => {
                self.insert_resource(r);
            },
        }
    }
}

/// Attach one component to a record, replacing any previous value of the
/// same component type.
fn insert_into_record(record: &mut EntityRecord, c: Component)
    ensures
        final(record)@ =~= entity_insert(old(record)@, c@),
{
    match c {
        Component::FileName(v) => record.file_name = Some(v),
        Component::FilePath(v) => record.file_path = Some(v),
        Component::MarkdownBody(v) => record.markdown_body = Some(v),
        Component::Html(v) => record.html = Some(v),
        Component::Label(v) => record.label = Some(v),
        Component::Marker(k) => if !contains_key(&record.markers, k) {
            record.markers.push(k);
        },
    }
}

/// Build the record for a freshly spawned entity from its bundle.
fn spawn_record(bundle: EntityCommands) -> (r: EntityRecord)
    ensures
        r@ =~= spawned_entity(bundle@),
{
    let EntityCommands { components } = bundle;
    let ghost all = components@.map_values(|c: Component| c@);
    let mut record = EntityRecord {
        file_name: None,
        file_path: None,
        markdown_body: None,
        html: None,
        label: None,
        markers: Vec::new(),
    };
    let mut components = components;
    let n = components.len();
    let mut i: usize = 0;
    while components.len() > 0
        invariant
            i + components@.len() == n,
            all.len() == n,
            forall|j: int| 0 <= j < components@.len() ==> components@[j]@ == all[i + j],
            record@ == spawned_entity(all.take(i as int)),
        decreases components@.len(),
    {
        let c = components.remove(0);
        proof {
            assert(all.take(i + 1).drop_last() =~= all.take(i as int));
        }
        insert_into_record(&mut record, c);
        i = i + 1;
    }
    proof {
        assert(all.take(n as int) =~= all);
    }
    record
}

/// Whether `key` occurs in the vector.
fn contains_key(v: &Vec<u32>, key: u32) -> (r: bool)
    ensures
        r == v@.contains(key),
{
    let mut i: usize = 0;
    while i < v.len()
        invariant
            i <= v@.len(),
            forall|j: int| 0 <= j < i ==> v@[j] != key,
        decreases v@.len() - i,
    {
        if v[i] == key {
            return true;
        }
        i = i + 1;
    }
    false
}

/// An exact copy of a vector of strings.
fn clone_strings(v: &Vec<String>) -> (r: Vec<String>)
    ensures
        r@.map_values(|s: String| s@) =~= v@.map_values(|s: String| s@),
        r@.len() == v@.len(),
{
    let mut r: Vec<String> = Vec::new();
    let mut i: usize = 0;
    while i < v.len()
        invariant
            i <= v@.len(),
            r@.len() == i,
            forall|j: int| 0 <= j < i ==> r@[j]@ == v@[j]@,
        decreases v@.len() - i,
    {
        r.push(v[i].clone());
        i = i + 1;
    }
    r
}

} // verus!
