//! Cinnog is a static site generator built around a structured data layer.
//!
//! Content is ingested into a [`datalayer::Datalayer`]: a store of entities
//! with typed components and process-wide singleton resources. Registered
//! operations run against the store through a runner that injects a consistent
//! snapshot and commits requested mutations as one atomic batch after the
//! operation returns. A tree of page templates is then resolved against the
//! store: each template's dynamic path segments are expanded with the value
//! sets its producers returned, inheriting bindings from ancestor templates,
//! and every concrete output path is enumerated.

use vstd::prelude::*;

pub mod datalayer;
pub mod loaders;
pub mod static_routes;
pub mod systems;
pub mod world;

verus! {

use vstd::string::StrSliceExecFns;

use crate::datalayer::{Component, Datalayer, EntityCommands, Operation, Resource};
use crate::world::{apply_commands, store_resource, CommandModel, ComponentModel, ResourceKind};

/// The name of the file that this entity represents, without its extension.
pub struct FileName(pub String);

/// The path of the file that this entity represents.
pub struct FilePath(pub String);

impl View for FileName {
    type V = Seq<char>;

    open spec fn view(&self) -> Seq<char> {
        self.0@
    }
}

impl View for FilePath {
    type V = Seq<char>;

    open spec fn view(&self) -> Seq<char> {
        self.0@
    }
}

/// The position of the last occurrence of `c` in `s`, or -1 if `c` does not
/// occur.
pub open spec fn last_index_of(s: Seq<char>, c: char) -> int
    decreases s.len(),
{
    if s.len() == 0 {
        -1
    } else if s.last() == c {
        s.len() - 1
    } else {
        last_index_of(s.drop_last(), c)
    }
}

pub proof fn lemma_last_index_of_in_range(s: Seq<char>, c: char)
    ensures
        -1 <= last_index_of(s, c) < s.len(),
        last_index_of(s, c) >= 0 ==> s[last_index_of(s, c)] == c,
        forall|j: int| last_index_of(s, c) < j < s.len() ==> s[j] != c,
    decreases s.len(),
{
    if s.len() > 0 && s.last() != c {
        lemma_last_index_of_in_range(s.drop_last(), c);
        assert(forall|j: int| 0 <= j < s.len() - 1 ==> s[j] == s.drop_last()[j]);
    }
}

/// The final segment of a path: everything after the last `/`, or the whole
/// path when it contains none.
pub open spec fn spec_file_name(path: Seq<char>) -> Seq<char> {
    path.subrange(last_index_of(path, '/') + 1, path.len() as int)
}

/// The stem of a file name: everything before the last `.`, unless the name
/// starts with its only `.` (a hidden file keeps its full name).
pub open spec fn spec_file_stem(name: Seq<char>) -> Seq<char> {
    let dot = last_index_of(name, '.');
    if dot > 0 {
        name.subrange(0, dot)
    } else {
        name
    }
}

/// Find the position of the last occurrence of `c` in `s`, if any.
pub(crate) fn find_last(s: &str, c: char) -> (r: Option<usize>)
    ensures
        match r {
            Some(i) => i == last_index_of(s@, c) && i < s@.len(),
            None => last_index_of(s@, c) == -1,
        },
{
    let len = s.unicode_len();
    proof {
        assert(s@.take(len as int) =~= s@);
    }
    let mut i = len;
    while i > 0
        invariant
            i <= len,
            len == s@.len(),
            last_index_of(s@, c) == last_index_of(s@.take(i as int), c),
        decreases i,
    {
        let ghost pre = s@.take(i as int);
        i = i - 1;
        assert(pre.drop_last() =~= s@.take(i as int));
        if s.get_char(i) == c {
            proof {
                lemma_last_index_of_in_range(s@.take(i + 1), c);
            }
            return Some(i);
        }
    }
    assert(s@.take(0) =~= Seq::<char>::empty());
    None
}

/// Default components marking an entity as representing a file on the file
/// system under the given path: its file name without extension, and the full
/// path itself.
pub fn default_bundle_from_path(path: &str) -> (bundle: (FileName, FilePath))
    requires
        spec_file_name(path@).len() > 0,
    ensures
        bundle.0@ == spec_file_stem(spec_file_name(path@)),
        bundle.1@ == path@,
{
    let len = path.unicode_len();
    let start = match find_last(path, '/') {
        Some(slash) => slash + 1,
        None => 0,
    };
    let name = path.substring_char(start, len);
    let stem = match find_last(name, '.') {
        Some(dot) if dot > 0 => name.substring_char(0, dot),
        _ => name,
    };
    (FileName(stem.to_owned()), FilePath(path.to_owned()))
}

/// Use a resource from the data layer: a copy of the current singleton of
/// resource type `kind`, or `None` if none was ever inserted.
pub fn use_resource(data: &Datalayer, kind: ResourceKind) -> (r: Option<Resource>)
    ensures
        match r {
            Some(v) => store_resource(data@, kind) == Some(v@),
            None => store_resource(data@, kind) is None,
        },
{
    data.get_resource(kind)
}

/// Expect a resource from the data layer.
///
/// Requiring a singleton that was never inserted is refused at the point of
/// use; see [`use_resource`] for optional resources.
pub fn expect_resource(data: &Datalayer, kind: ResourceKind) -> (r: Resource)
    requires
        store_resource(data@, kind) is Some,
    ensures
        store_resource(data@, kind) == Some(r@),
{
    match data.get_resource(kind) {
        Some(r) => r,
        None => unreached(),
    }
}

/// Expect a resource from the data layer, reporting its absence as an
/// explicit fault rather than silently defaulting.
pub fn try_expect_resource(data: &Datalayer, kind: ResourceKind) -> (r: Result<
    Resource,
    BuildError,
>)
    ensures
        match r {
            Ok(v) => store_resource(data@, kind) == Some(v@),
            Err(e) => store_resource(data@, kind) is None && e == BuildError::MissingSingletonFault(
                kind,
            ),
        },
{
    match data.get_resource(kind) {
        Some(r) => Ok(r),
        None => Err(BuildError::MissingSingletonFault(kind)),
    }
}

/// Execute an operation without input against the data layer.
pub fn run_system<Op: Operation<Input = ()>>(data: &mut Datalayer, operation: &Op) -> (output:
    Op::Output)
    requires
        operation.pre(old(data)@, ()),
    ensures
        exists|cmds: Seq<CommandModel>|
            operation.post(old(data)@, (), output, cmds) && final(data)@ == apply_commands(
                old(data)@,
                cmds,
            ),
{
    run_system_with_input(data, operation, ())
}

/// Execute an operation with a given input against the data layer.
pub fn run_system_with_input<Op: Operation>(
    data: &mut Datalayer,
    operation: &Op,
    input: Op::Input,
) -> (output: Op::Output)
    requires
        operation.pre(old(data)@, input),
    ensures
        exists|cmds: Seq<CommandModel>|
            operation.post(old(data)@, input, output, cmds) && final(data)@ == apply_commands(
                old(data)@,
                cmds,
            ),
{
    data.run(operation, input)
}

/// The ways a build fails. Nearly every fault is unrecoverable for the
/// current build invocation: a build either fully succeeds or is abandoned
/// with a failure identifying the offending path or resource type.
#[derive(Debug)]
pub enum BuildError {
    /// A source could not be read or decoded.
    IngestionFault(String),
    /// A route-parameter producer failed, so the shape of its subtree is
    /// unknowable.
    ProducerFault(String),
    /// A resource was required that was never inserted.
    MissingSingletonFault(ResourceKind),
    /// An output file could not be persisted.
    WriteFault(String),
}

/// Define how a decoded content record is turned into components on the
/// entity that represents it.
pub trait Ingest {
    /// The components this record contributes to its entity, in order.
    spec fn components(&self) -> Seq<ComponentModel>;

    /// Attach the record's own components to the entity being gathered.
    fn ingest(self, commands: &mut EntityCommands)
        ensures
            final(commands)@ =~= old(commands)@ + self.components(),
    ;

    /// Attach the standard components for a record read from a file under
    /// `path`: its file name without extension, and the full path.
    fn ingest_path(&self, commands: &mut EntityCommands, path: &str)
        requires
            spec_file_name(path@).len() > 0,
        ensures
            final(commands)@ =~= old(commands)@.push(
                ComponentModel::FileName(spec_file_stem(spec_file_name(path@))),
            ).push(ComponentModel::FilePath(path@)),
    {
        let (file_name, file_path) = default_bundle_from_path(path);
        commands.insert(Component::FileName(file_name));
        commands.insert(Component::FilePath(file_path));
    }
}

} // verus!
