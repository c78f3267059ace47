//! Ingestion of records decoded from ron files.

use vstd::prelude::*;

verus! {

use crate::datalayer::{CommandBuffer, Datalayer, Resource};
use crate::world::{store_insert_resource, store_resource, CommandModel, ComponentModel,
    ResourceKind, ResourceModel, StoreModel};
use crate::{spec_file_name, spec_file_stem, Ingest};

/// System sets for ron related systems.
#[derive(Clone, Copy, PartialEq, Eq, Structural, Debug)]
pub enum RonSystems {
    /// The stage in which ron files are read and ingested.
    Read,
}

/// The bundle of components a ron record spawns with: the standard
/// file-path components followed by the record's own.
pub open spec fn ron_bundle(path: Seq<char>, components: Seq<ComponentModel>) -> Seq<
    ComponentModel,
> {
    seq![
        ComponentModel::FileName(spec_file_stem(spec_file_name(path))),
        ComponentModel::FilePath(path),
    ] + components
}

/// Request one entity spawned for a record decoded from the ron file under
/// `path`.
pub fn read_ron<R: Ingest>(commands: &mut CommandBuffer, path: &str, record: R)
    requires
        spec_file_name(path@).len() > 0,
    ensures
        final(commands)@ =~= old(commands)@.push(
            CommandModel::Spawn(ron_bundle(path@, record.components())),
        ),
{
    let ghost components = record.components();
    let mut entity = crate::datalayer::EntityCommands::new();
    record.ingest_path(&mut entity, path);
    record.ingest(&mut entity);
    proof {
        assert(entity@ =~= ron_bundle(path@, components));
    }
    commands.spawn(entity);
}

/// The registered ron source directories, in registration order.
pub open spec fn ron_directories(store: StoreModel) -> Seq<Seq<char>> {
    match store_resource(store, ResourceKind::RonDirectories) {
        Some(ResourceModel::RonDirectories(dirs)) => dirs,
        _ => Seq::empty(),
    }
}

/// Extension trait for the data layer to register ron source directories.
pub trait RonDataLayer: View<V = StoreModel> {
    /// Add a directory whose ron files are loaded into the store, appended
    /// to the directories registered so far.
    fn add_ron_directory(&mut self, directory: String)
        ensures
            final(self)@ == store_insert_resource(
                old(self)@,
                ResourceModel::RonDirectories(ron_directories(old(self)@).push(directory@)),
            ),
    ;
}

impl RonDataLayer for Datalayer {
    fn add_ron_directory(&mut self, directory: String)
    {
        let mut dirs: Vec<String> = match self.get_resource(ResourceKind::RonDirectories) {
            Some(Resource::RonDirectories(dirs)) => dirs,
            _ => Vec::new(),
        };
        dirs.push(directory);
        proof {
            assert(dirs@.map_values(|s: String| s@) =~= ron_directories(old(self)@).push(
                directory@,
            ));
        }
        self.insert_resource(Resource::RonDirectories(dirs));
    }
}

} // verus!
