use cinnog::datalayer::{CommandBuffer, Component, Datalayer, EntityCommands};
use cinnog::loaders::markdown::{
    parse_markdown_document, read_markdown, ConvertMarkdownToHtml, MarkdownBody,
    MarkdownDataLayer,
};
use cinnog::loaders::ron::{read_ron, RonDataLayer};
use cinnog::world::{ComponentKind, ResourceKind};
use cinnog::{run_system, use_resource, BuildError};
use cinnog::datalayer::Resource;

#[test]
fn front_matter_is_split_from_body() {
    let doc = parse_markdown_document("---\ntitle: hello\n---\nSome body").unwrap();
    assert_eq!(doc.front_matter.as_deref(), Some("title: hello"));
    assert_eq!(doc.body, "Some body");
}

#[test]
fn document_without_front_matter_keeps_content() {
    let doc = parse_markdown_document("Just some text\nover two lines").unwrap();
    assert!(doc.front_matter.is_none());
    assert_eq!(doc.body, "Just some text\nover two lines");
}

#[test]
fn undecodable_front_matter_is_an_ingestion_fault() {
    let result = parse_markdown_document("---\n{\n---\nBody");
    match result {
        Err(BuildError::IngestionFault(_)) => {}
        _ => panic!("expected an ingestion fault"),
    }
}

#[test]
fn read_markdown_spawns_entity_with_path_and_body() {
    let mut buffer = CommandBuffer::new();
    let mut front = EntityCommands::new();
    front.insert(Component::Label("Hello post".to_string()));
    read_markdown(
        &mut buffer,
        "content/posts/hello.md",
        Some(front),
        MarkdownBody("# Hello".to_string()),
    );
    let mut data = Datalayer::new();
    data.apply(buffer);
    assert_eq!(data.entity_count(), 1);
    let e = cinnog::datalayer::Entity(0);
    match data.get_component(e, ComponentKind::FileName) {
        Some(Component::FileName(n)) => assert_eq!(n.0, "hello"),
        _ => panic!("file name missing"),
    }
    match data.get_component(e, ComponentKind::FilePath) {
        Some(Component::FilePath(p)) => assert_eq!(p.0, "content/posts/hello.md"),
        _ => panic!("file path missing"),
    }
    match data.get_component(e, ComponentKind::Label) {
        Some(Component::Label(l)) => assert_eq!(l, "Hello post"),
        _ => panic!("label missing"),
    }
    match data.get_component(e, ComponentKind::MarkdownBody) {
        Some(Component::MarkdownBody(b)) => assert_eq!(b.0, "# Hello"),
        _ => panic!("body missing"),
    }
}

#[test]
fn read_markdown_without_front_matter_attaches_body_only() {
    let mut buffer = CommandBuffer::new();
    read_markdown::<EntityCommands>(
        &mut buffer,
        "content/posts/plain.md",
        None,
        MarkdownBody("plain".to_string()),
    );
    let mut data = Datalayer::new();
    data.apply(buffer);
    let e = cinnog::datalayer::Entity(0);
    assert!(data.get_component(e, ComponentKind::FileName).is_none());
    match data.get_component(e, ComponentKind::MarkdownBody) {
        Some(Component::MarkdownBody(b)) => assert_eq!(b.0, "plain"),
        _ => panic!("body missing"),
    }
}

#[test]
fn conversion_attaches_rendered_html() {
    let mut data = Datalayer::new();
    let mut bundle = EntityCommands::new();
    bundle.insert(Component::MarkdownBody(MarkdownBody("# Title".to_string())));
    let e = data.spawn(bundle);
    let plain = data.spawn(EntityCommands::new());
    run_system(&mut data, &ConvertMarkdownToHtml);
    match data.get_component(e, ComponentKind::Html) {
        Some(Component::Html(h)) => assert_eq!(h.0, "<h1>Title</h1>\n"),
        _ => panic!("html missing"),
    }
    assert!(data.get_component(plain, ComponentKind::Html).is_none());
}

#[test]
fn conversion_renders_emphasis_and_lists() {
    let mut data = Datalayer::new();
    let mut bundle = EntityCommands::new();
    bundle.insert(Component::MarkdownBody(MarkdownBody(
        "*hi*\n\n- alpha\n- beta\n".to_string(),
    )));
    let e = data.spawn(bundle);
    run_system(&mut data, &ConvertMarkdownToHtml);
    match data.get_component(e, ComponentKind::Html) {
        Some(Component::Html(h)) => {
            assert_eq!(
                h.0,
                "<p><em>hi</em></p>\n<ul>\n<li>alpha</li>\n<li>beta</li>\n</ul>\n"
            );
        }
        _ => panic!("html missing"),
    }
}

#[test]
fn read_ron_spawns_entity_with_record_components() {
    let mut buffer = CommandBuffer::new();
    read_ron(
        &mut buffer,
        "people/ann.ron",
        Component::Label("Ann".to_string()),
    );
    let mut data = Datalayer::new();
    data.apply(buffer);
    let e = cinnog::datalayer::Entity(0);
    match data.get_component(e, ComponentKind::FileName) {
        Some(Component::FileName(n)) => assert_eq!(n.0, "ann"),
        _ => panic!("file name missing"),
    }
    match data.get_component(e, ComponentKind::Label) {
        Some(Component::Label(l)) => assert_eq!(l, "Ann"),
        _ => panic!("label missing"),
    }
}

#[test]
fn registered_directories_accumulate_in_order() {
    let mut data = Datalayer::new();
    data.add_markdown_directory("content/posts".to_string());
    data.add_markdown_directory("content/pages".to_string());
    data.add_ron_directory("people".to_string());
    match use_resource(&data, ResourceKind::MarkdownDirectories) {
        Some(Resource::MarkdownDirectories(dirs)) => {
            assert_eq!(dirs, vec!["content/posts".to_string(), "content/pages".to_string()]);
        }
        _ => panic!("markdown directories missing"),
    }
    match use_resource(&data, ResourceKind::RonDirectories) {
        Some(Resource::RonDirectories(dirs)) => {
            assert_eq!(dirs, vec!["people".to_string()]);
        }
        _ => panic!("ron directories missing"),
    }
}

#[test]
fn running_conversion_twice_leaves_same_html() {
    let mut data = Datalayer::new();
    let mut bundle = EntityCommands::new();
    bundle.insert(Component::MarkdownBody(MarkdownBody("# Twice".to_string())));
    let e = data.spawn(bundle);
    run_system(&mut data, &ConvertMarkdownToHtml);
    let first = match data.get_component(e, ComponentKind::Html) {
        Some(Component::Html(h)) => h.0,
        _ => panic!("html missing"),
    };
    run_system(&mut data, &ConvertMarkdownToHtml);
    let second = match data.get_component(e, ComponentKind::Html) {
        Some(Component::Html(h)) => h.0,
        _ => panic!("html missing"),
    };
    assert_eq!(first, second);
}
