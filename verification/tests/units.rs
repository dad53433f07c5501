use md_render::headings::{find_anchor, get_heading_refs, get_text, HeadingRef};
use md_render::links::{is_external_link, resolve_internal_link, PermalinkTable};
use md_render::errors::RenderError;
use md_render::events::{Event, Tag};
use md_render::markup::Markdown;
use md_render::toc::{make_table_of_contents, Heading};

#[test]
fn test_is_external_link() {
    assert!(is_external_link("http://example.com/"));
    assert!(is_external_link("https://example.com/"));
    assert!(is_external_link("https://example.com/index.html#introduction"));

    assert!(!is_external_link("mailto:user@example.com"));
    assert!(!is_external_link("tel:18008675309"));

    assert!(!is_external_link("#introduction"));

    assert!(!is_external_link("http.jpg"))
}

#[test]
fn find_anchor_prefers_bare_name() {
    let anchors: Vec<String> = Vec::new();
    assert_eq!(find_anchor(&anchors, "example".to_string(), 0), "example");
}

#[test]
fn find_anchor_appends_smallest_free_counter() {
    let anchors = vec!["example".to_string()];
    assert_eq!(find_anchor(&anchors, "example".to_string(), 0), "example-1");
    let anchors = vec!["example".to_string(), "example-1".to_string()];
    assert_eq!(find_anchor(&anchors, "example".to_string(), 0), "example-2");
    let anchors = vec!["example".to_string(), "example-2".to_string()];
    assert_eq!(find_anchor(&anchors, "example".to_string(), 0), "example-1");
}

#[test]
fn resolve_internal_link_with_anchor() {
    let mut table = PermalinkTable::new();
    table.insert(
        "pages/about.md".to_string(),
        "https://example.com/about".to_string(),
    );
    let r = resolve_internal_link("@/pages/about.md#team", &table).unwrap();
    assert_eq!(r.permalink, "https://example.com/about#team");
    assert_eq!(r.md_path, "pages/about.md");
    assert_eq!(r.anchor, Some("team".to_string()));
}

#[test]
fn resolve_internal_link_without_anchor() {
    let mut table = PermalinkTable::new();
    table.insert(
        "pages/about.md".to_string(),
        "https://example.com/about".to_string(),
    );
    let r = resolve_internal_link("@/pages/about.md", &table).unwrap();
    assert_eq!(r.permalink, "https://example.com/about");
    assert_eq!(r.anchor, None);
}

#[test]
fn resolve_internal_link_unknown_key_fails() {
    let table = PermalinkTable::new();
    let r = resolve_internal_link("@/missing.md", &table);
    match r {
        Err(RenderError::BrokenInternalLink(l)) => assert_eq!(l, "@/missing.md"),
        _ => panic!("expected a broken internal link"),
    }
}

#[test]
fn get_text_joins_text_and_code() {
    let events = vec![
        Event::Start(Tag::Heading(1)),
        Event::Text("Hello ".to_string()),
        Event::Code("world".to_string()),
        Event::Html("<b>skipped</b>".to_string()),
        Event::End(Tag::Heading(1)),
    ];
    assert_eq!(get_text(&events, 1, 4), "Hello world");
}

#[test]
fn get_heading_refs_pairs_starts_and_ends() {
    let events = vec![
        Event::Start(Tag::Heading(1)),
        Event::Text("A".to_string()),
        Event::End(Tag::Heading(1)),
        Event::Text("body".to_string()),
        Event::Start(Tag::Heading(2)),
        Event::Text("B".to_string()),
        Event::End(Tag::Heading(2)),
    ];
    let refs: Vec<HeadingRef> = get_heading_refs(&events);
    assert_eq!(refs.len(), 2);
    assert_eq!(refs[0].start_idx, 0);
    assert_eq!(refs[0].end_idx, 2);
    assert_eq!(refs[0].level, 1);
    assert_eq!(refs[1].start_idx, 4);
    assert_eq!(refs[1].end_idx, 6);
    assert_eq!(refs[1].level, 2);
}

fn heading(level: u32, id: &str) -> Heading {
    Heading {
        level,
        id: id.to_string(),
        permalink: format!("#{}", id),
        title: id.to_string(),
        children: Vec::new(),
    }
}

#[test]
fn toc_nests_by_level() {
    let flat = vec![
        heading(1, "a"),
        heading(2, "b"),
        heading(3, "c"),
        heading(1, "d"),
    ];
    let toc = make_table_of_contents(flat);
    assert_eq!(toc.len(), 2);
    assert_eq!(toc[0].id, "a");
    assert_eq!(toc[0].children.len(), 1);
    assert_eq!(toc[0].children[0].id, "b");
    assert_eq!(toc[0].children[0].children.len(), 1);
    assert_eq!(toc[0].children[0].children[0].id, "c");
    assert_eq!(toc[1].id, "d");
}

#[test]
fn external_link_tag_with_flags() {
    let mut config = Markdown::default();
    config.external_links_no_follow = true;
    config.external_links_target_blank = true;
    let tag = config.construct_external_link_tag("https://example.com", "");
    assert_eq!(
        tag,
        "<a rel=\"noopener nofollow\" target=\"_blank\" href=\"https://example.com\">"
    );
}

#[test]
fn external_link_tag_plain_and_title() {
    let config = Markdown::default();
    assert_eq!(
        config.construct_external_link_tag("https://example.com", ""),
        "<a href=\"https://example.com\">"
    );
    let mut config = Markdown::default();
    config.external_links_no_referrer = true;
    assert_eq!(
        config.construct_external_link_tag("https://example.com", "A title"),
        "<a rel=\"noreferrer\" title=\"A title\" href=\"https://example.com\">"
    );
}

#[test]
fn has_external_link_tweaks_reads_flags() {
    let mut config = Markdown::default();
    assert!(!config.has_external_link_tweaks());
    config.external_links_no_follow = true;
    assert!(config.has_external_link_tweaks());
}

#[test]
fn default_markdown_options_are_off() {
    let config = Markdown::default();
    assert!(!config.highlight_code);
    assert_eq!(config.highlight_theme, "base16-ocean-dark");
    assert!(!config.render_emoji);
    assert!(!config.smart_punctuation);
    assert!(config.extra_syntaxes.is_empty());
    assert!(config.render_with_section_tags.is_none());
}
