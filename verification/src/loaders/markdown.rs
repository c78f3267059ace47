//! Markdown ingestion and conversion to HTML.
//!
//! A markdown source file is split into optional front matter and a body;
//! the decoded front matter and the body become components on a fresh
//! entity. A separate conversion operation walks every entity carrying a
//! [`MarkdownBody`] and attaches the rendered [`Html`].

use vstd::prelude::*;

verus! {

use crate::datalayer::{CommandBuffer, Component, Datalayer, Entity, EntityCommands, Operation,
    Resource};
use crate::world::{store_insert_resource, store_resource, CommandModel, ComponentKind,
    ComponentModel, EntityModel, ResourceKind, ResourceModel, StoreModel};
use crate::{spec_file_name, spec_file_stem, BuildError, Ingest};

/// The system stages markdown loading goes through: files are read and
/// ingested first, then their bodies are converted.
#[derive(Clone, Copy, PartialEq, Eq, Structural, Debug)]
pub enum MarkdownSystems {
    Read,
    Convert,
}

/// The markdown source of a document, with any front matter stripped.
pub struct MarkdownBody(pub String);

/// The rendered HTML of a document.
pub struct Html(pub String);

impl View for MarkdownBody {
    type V = Seq<char>;

    open spec fn view(&self) -> Seq<char> {
        self.0@
    }
}

impl View for Html {
    type V = Seq<char>;

    open spec fn view(&self) -> Seq<char> {
        self.0@
    }
}

/// The HTML that the markdown renderer produces for a given source text.
pub uninterp spec fn html_of(markdown: Seq<char>) -> Seq<char>;

/// What the front-matter splitter yields for a given source text: `None`
/// when the front matter cannot be decoded at all, otherwise the raw front
/// matter (when present) and the remaining body.
pub uninterp spec fn matter_split_of(source: Seq<char>) -> Option<(Option<Seq<char>>, Seq<char>)>;

#[verifier::external_type_specification]
#[verifier::external_body]
pub struct ExMatterError(gray_matter::Error);

/// Relies on pulldown_cmark: `html::push_html` over `Parser::new_ext` with
/// all extensions enabled renders HTML that depends on the markdown text
/// alone.
#[verifier::external_body]
fn markdown_to_html(markdown: &str) -> (html: String)
    ensures
        html@ == html_of(markdown@),
{
    let parser = pulldown_cmark::Parser::new_ext(markdown, pulldown_cmark::Options::all());
    let mut html = String::new();
    pulldown_cmark::html::push_html(&mut html, parser);
    html
}

/// Relies on gray_matter: `Matter::<YAML>::parse` splits a source text into
/// raw front matter (between `---` delimiters) and remaining content, a
/// function of the text alone; `data` is `Some` exactly when front matter
/// was found and decoded.
#[verifier::external_body]
fn split_front_matter(source: &str) -> (r: Result<(Option<String>, String), gray_matter::Error>)
    ensures
        match r {
            Ok((front, body)) => matter_split_of(source@) matches Some((f, b)) && b == body@
                && (match (front, f) {
                (Some(fs), Some(fv)) => fs@ == fv,
                (None, None) => true,
                _ => false,
            }),
            Err(_) => matter_split_of(source@) is None,
        },
{
    let matter = gray_matter::Matter::<gray_matter::engine::YAML>::new();
    match matter.parse::<gray_matter::Pod>(source) {
        Ok(parsed) => match parsed.data {
            Some(_) => Ok((Some(parsed.matter), parsed.content)),
            None => Ok((None, parsed.content)),
        },
        Err(e) => Err(e),
    }
}

/// Relies on the `Display` impl of `gray_matter::Error` for a readable
/// description of the fault.
#[verifier::external_body]
fn describe_matter_error(e: &gray_matter::Error) -> String {
    format!("{}", e)
}

/// A markdown source file split into its raw front matter and its body.
pub struct MarkdownDocument {
    /// The raw front matter found between the delimiters, if any.
    pub front_matter: Option<String>,
    /// The markdown body with front matter and delimiters stripped.
    pub body: String,
}

/// Split a markdown source text into front matter and body.
///
/// Front matter that cannot be decoded is an ingestion fault: it aborts the
/// build rather than being silently skipped.
pub fn parse_markdown_document(source: &str) -> (r: Result<MarkdownDocument, BuildError>)
    ensures
        match r {
            Ok(doc) => matter_split_of(source@) matches Some((f, b)) && b == doc.body@ && (match (
                doc.front_matter,
                f,
            ) {
                (Some(fs), Some(fv)) => fs@ == fv,
                (None, None) => true,
                _ => false,
            }),
            Err(e) => matter_split_of(source@) is None && e is IngestionFault,
        },
{
    match split_front_matter(source) {
        Ok((front_matter, body)) => Ok(MarkdownDocument { front_matter, body }),
        Err(e) => Err(BuildError::IngestionFault(describe_matter_error(&e))),
    }
}

/// The bundle of components a markdown record spawns with: the file-path
/// components and the decoded front matter's own components when front
/// matter was present, and the markdown body in every case.
pub open spec fn markdown_bundle(
    path: Seq<char>,
    front: Option<Seq<ComponentModel>>,
    body: Seq<char>,
) -> Seq<ComponentModel> {
    match front {
        Some(cs) => seq![
            ComponentModel::FileName(spec_file_stem(spec_file_name(path))),
            ComponentModel::FilePath(path),
        ] + cs + seq![ComponentModel::MarkdownBody(body)],
        None => seq![ComponentModel::MarkdownBody(body)],
    }
}

/// Request one entity spawned for a markdown document: the decoded front
/// matter contributes its components (plus the standard file-path
/// components), and the body is attached as [`MarkdownBody`].
pub fn read_markdown<M: Ingest>(
    commands: &mut CommandBuffer,
    path: &str,
    front_matter: Option<M>,
    body: MarkdownBody,
)
    requires
        front_matter is Some ==> spec_file_name(path@).len() > 0,
    ensures
        final(commands)@ =~= old(commands)@.push(
            CommandModel::Spawn(
                markdown_bundle(
                    path@,
                    match front_matter {
                        Some(m) => Some(m.components()),
                        None => None,
                    },
                    body@,
                ),
            ),
        ),
{
    let mut entity = EntityCommands::new();
    let ghost front_components = match front_matter {
        Some(ref m) => Some(m.components()),
        None => None,
    };
    match front_matter {
        Some(m) => {
            m.ingest_path(&mut entity, path);
            m.ingest(&mut entity);
        },
        None => {},
    }
    entity.insert(Component::MarkdownBody(body));
    proof {
        assert(entity@ =~= markdown_bundle(path@, front_components, body@));
    }
    commands.spawn(entity);
}

/// The registered markdown source directories, in registration order.
pub open spec fn markdown_directories(store: StoreModel) -> Seq<Seq<char>> {
    match store_resource(store, ResourceKind::MarkdownDirectories) {
        Some(ResourceModel::MarkdownDirectories(dirs)) => dirs,
        _ => Seq::empty(),
    }
}

/// Extension trait for the data layer to register markdown source
/// directories.
pub trait MarkdownDataLayer: View<V = StoreModel> {
    /// Add a directory whose markdown files are loaded into the store,
    /// appended to the directories registered so far.
    fn add_markdown_directory(&mut self, directory: String)
        ensures
            final(self)@ == store_insert_resource(
                old(self)@,
                ResourceModel::MarkdownDirectories(
                    markdown_directories(old(self)@).push(directory@),
                ),
            ),
    ;
}

impl MarkdownDataLayer for Datalayer {
    fn add_markdown_directory(&mut self, directory: String)
    {
        let mut dirs: Vec<String> = match self.get_resource(ResourceKind::MarkdownDirectories) {
            Some(Resource::MarkdownDirectories(dirs)) => dirs,
            _ => Vec::new(),
        };
        dirs.push(directory);
        proof {
            assert(dirs@.map_values(|s: String| s@) =~= markdown_directories(old(self)@).push(
                directory@,
            ));
        }
        self.insert_resource(Resource::MarkdownDirectories(dirs));
    }
}

/// The conversion pass: one `Insert` command per entity that carries a
/// markdown body, attaching the rendered HTML of exactly that body, in
/// entity order.
pub open spec fn convert_commands_upto(entities: Seq<EntityModel>, n: int) -> Seq<CommandModel>
    decreases n,
{
    if n <= 0 {
        Seq::empty()
    } else {
        convert_commands_upto(entities, n - 1) + (match entities[n - 1].markdown_body {
            Some(b) => seq![CommandModel::Insert(n - 1, ComponentModel::Html(html_of(b)))],
            None => Seq::empty(),
        })
    }
}

/// Convert the markdown body of every entity to HTML.
///
/// Run as an operation: it reads one snapshot of the store and buffers an
/// HTML component for each entity that carries a markdown body; the runner
/// commits them as one batch.
pub struct ConvertMarkdownToHtml;

impl Operation for ConvertMarkdownToHtml {
    type Input = ();

    type Output = ();

    open spec fn pre(&self, store: StoreModel, input: ()) -> bool {
        true
    }

    open spec fn post(
        &self,
        store: StoreModel,
        input: (),
        output: (),
        commands: Seq<CommandModel>,
    ) -> bool {
        commands == convert_commands_upto(store.entities, store.entities.len() as int)
    }

    fn execute(&self, store: &Datalayer, input: (), commands: &mut CommandBuffer) -> (output: ())
    {
        let n = store.entity_count();
        let mut i: usize = 0;
        while i < n
            invariant
                n == store@.entities.len(),
                i <= n,
                commands@ =~= convert_commands_upto(store@.entities, i as int),
            decreases n - i,
        {
            match store.get_component(Entity(i), ComponentKind::MarkdownBody) {
                Some(c) => match c {
                    Component::MarkdownBody(body) => {
                        let html = markdown_to_html(body.0.as_str());
                        commands.insert(Entity(i), Component::Html(Html(html)));
                    },
                    _ => {
                        proof {
                            assert(false);
                        }
                    },
                },
                None => {},
            }
            i = i + 1;
        }
    }
}

} // verus!
