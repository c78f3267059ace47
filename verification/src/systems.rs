//! Ready-made operations for common store work: reading and replacing
//! singletons, advancing a counter, and producing route-parameter values
//! from marked entities.

use vstd::prelude::*;

verus! {

use crate::datalayer::{CommandBuffer, Component, Datalayer, Entity, Operation, Resource};
use crate::static_routes::{ParamEntryModel, StaticParamsMap};
use crate::world::{counter_of, store_resource, CommandModel, ComponentKind, EntityModel,
    ResourceKind, ResourceModel, StoreModel};

/// An exact copy of a resource value.
pub fn clone_resource(r: &Resource) -> (out: Resource)
    ensures
        out@ == r@,
{
    match r {
        Resource::SiteName(v) => Resource::SiteName(v.clone()),
        Resource::Counter(v) => Resource::Counter(*v),
        Resource::MarkdownDirectories(v) => Resource::MarkdownDirectories(
            crate::static_routes::clone_strings(v),
        ),
        Resource::RonDirectories(v) => Resource::RonDirectories(
            crate::static_routes::clone_strings(v),
        ),
    }
}

/// Replace the singleton of the held value's resource type, deferred: the
/// write is buffered and committed after this operation returns.
pub struct InsertResourceOperation {
    /// The value to insert.
    pub value: Resource,
}

impl Operation for InsertResourceOperation {
    type Input = ();

    type Output = ();

    open spec fn pre(&self, store: StoreModel, input: ()) -> bool {
        true
    }

    open spec fn post(
        &self,
        store: StoreModel,
        input: (),
        output: (),
        commands: Seq<CommandModel>,
    ) -> bool {
        commands == seq![CommandModel::InsertResource(self.value@)]
    }

    fn execute(&self, store: &Datalayer, input: (), commands: &mut CommandBuffer) -> (output: ()) {
        commands.insert_resource(clone_resource(&self.value));
        proof {
            assert(commands@ =~= seq![CommandModel::InsertResource(self.value@)]);
        }
    }
}

/// Read the current singleton of a resource type, mutating nothing.
pub struct GetResourceOperation {
    /// The resource type to read.
    pub kind: ResourceKind,
}

impl Operation for GetResourceOperation {
    type Input = ();

    type Output = Option<Resource>;

    open spec fn pre(&self, store: StoreModel, input: ()) -> bool {
        true
    }

    open spec fn post(
        &self,
        store: StoreModel,
        input: (),
        output: Option<Resource>,
        commands: Seq<CommandModel>,
    ) -> bool {
        &&& commands == Seq::<CommandModel>::empty()
        &&& (match output {
            Some(v) => store_resource(store, self.kind) == Some(v@),
            None => store_resource(store, self.kind) is None,
        })
    }

    fn execute(&self, store: &Datalayer, input: (), commands: &mut CommandBuffer) -> (output:
        Option<Resource>) {
        proof {
            assert(commands@ =~= Seq::<CommandModel>::empty());
        }
        store.get_resource(self.kind)
    }
}

/// Advance the shared counter resource by one: read the snapshot's value
/// (zero if none was ever inserted) and buffer the incremented value. Runs
/// serialized through the runner, so concurrent tasks never lose an update.
pub struct IncrementCounter;

impl Operation for IncrementCounter {
    type Input = ();

    type Output = u64;

    open spec fn pre(&self, store: StoreModel, input: ()) -> bool {
        counter_of(store) < u64::MAX
    }

    open spec fn post(
        &self,
        store: StoreModel,
        input: (),
        output: u64,
        commands: Seq<CommandModel>,
    ) -> bool {
        &&& output == counter_of(store) + 1
        &&& commands == seq![
            CommandModel::InsertResource(ResourceModel::Counter((counter_of(store) + 1) as u64)),
        ]
    }

    fn execute(&self, store: &Datalayer, input: (), commands: &mut CommandBuffer) -> (output: u64)
    {
        let current = match store.get_resource(ResourceKind::Counter) {
            Some(Resource::Counter(v)) => v,
            _ => 0,
        };
        let next = current + 1;
        commands.insert_resource(Resource::Counter(next));
        proof {
            assert(next == counter_of(store@) + 1);
            assert(commands@ =~= seq![
                CommandModel::InsertResource(ResourceModel::Counter(next)),
            ]);
        }
        next
    }
}

/// The labels of the entities carrying both the marker and a label, in
/// entity order: the legal values a marker-based producer returns.
pub open spec fn labels_upto(entities: Seq<EntityModel>, marker: u32, n: int) -> Seq<Seq<char>>
    decreases n,
{
    if n <= 0 {
        Seq::empty()
    } else {
        labels_upto(entities, marker, n - 1) + (match entities[n - 1].label {
            Some(label) => if entities[n - 1].markers.contains(marker) {
                seq![label]
            } else {
                Seq::empty()
            },
            None => Seq::empty(),
        })
    }
}

/// A route-parameter producer: binds one segment name to the labels of
/// every entity carrying the marker, in entity order.
pub struct LabelsForMarker {
    /// The dynamic segment name to bind.
    pub name: String,
    /// The marker whose entities' labels are the legal values.
    pub marker: u32,
}

impl Operation for LabelsForMarker {
    type Input = ();

    type Output = StaticParamsMap;

    open spec fn pre(&self, store: StoreModel, input: ()) -> bool {
        true
    }

    open spec fn post(
        &self,
        store: StoreModel,
        input: (),
        output: StaticParamsMap,
        commands: Seq<CommandModel>,
    ) -> bool {
        &&& commands == Seq::<CommandModel>::empty()
        &&& output@ == seq![
            ParamEntryModel {
                name: self.name@,
                values: labels_upto(store.entities, self.marker, store.entities.len() as int),
            },
        ]
    }

    fn execute(&self, store: &Datalayer, input: (), commands: &mut CommandBuffer) -> (output:
        StaticParamsMap) {
        let n = store.entity_count();
        let mut values: Vec<String> = Vec::new();
        let mut i: usize = 0;
        while i < n
            invariant
                n == store@.entities.len(),
                i <= n,
                values@.map_values(|s: String| s@) =~= labels_upto(
                    store@.entities,
                    self.marker,
                    i as int,
                ),
            decreases n - i,
        {
            match store.get_component(Entity(i), ComponentKind::Label) {
                Some(c) => match c {
                    Component::Label(label) => {
                        match store.get_component(Entity(i), ComponentKind::Marker(self.marker)) {
                            Some(_) => {
                                values.push(label);
                            },
                            None => {},
                        }
                    },
                    _ => {
                        proof {
                            assert(false);
                        }
                    },
                },
                None => {},
            }
            i = i + 1;
        }
        let mut output = StaticParamsMap::new();
        output.insert(self.name.clone(), values);
        proof {
            assert(commands@ =~= Seq::<CommandModel>::empty());
            assert(output@ =~= seq![
                ParamEntryModel {
                    name: self.name@,
                    values: labels_upto(
                        store@.entities,
                        self.marker,
                        store@.entities.len() as int,
                    ),
                },
            ]);
        }
        output
    }
}

} // verus!
