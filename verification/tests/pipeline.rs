use md_render::errors::RenderError;
use md_render::events::{Event, LinkKind, SpannedEvent, Tag};
use md_render::highlighting::{get_highlighter, HighlightRegistries, SyntaxSource};
use md_render::links::PermalinkTable;
use md_render::markdown::{into_rendered, markdown_to_html, InsertAnchor, RenderContext};
use md_render::markup::{Markdown, SectionTagsMode};
use md_render::shortcode::Shortcode;

fn registries() -> HighlightRegistries {
    HighlightRegistries {
        builtin_syntaxes: md_render::highlighting::load_builtin_syntaxes(),
        builtin_themes: md_render::highlighting::load_builtin_themes(),
        extra_syntaxes: None,
        extra_themes: None,
    }
}

fn se(event: Event, start: usize, end: usize) -> SpannedEvent {
    SpannedEvent { event, start, end }
}

fn context<'a>(
    tera: &'a tera::Tera,
    regs: &'a HighlightRegistries,
    config: Markdown,
) -> RenderContext<'a> {
    RenderContext {
        tera,
        config,
        permalinks: PermalinkTable::new(),
        current_page_path: Some("page.md".to_string()),
        current_page_permalink: "https://example.com/page/".to_string(),
        lang: "en".to_string(),
        insert_anchor: InsertAnchor::Off,
        registries: regs,
    }
}

fn title_world_events() -> Vec<SpannedEvent> {
    vec![
        se(Event::Start(Tag::Heading(1)), 0, 8),
        se(Event::Text("Title".to_string()), 2, 7),
        se(Event::End(Tag::Heading(1)), 0, 8),
        se(Event::Start(Tag::Paragraph), 9, 45),
        se(Event::Text("Hello ".to_string()), 9, 15),
        se(
            Event::Start(Tag::Link(
                LinkKind::Inline,
                "https://example.com".to_string(),
                "".to_string(),
            )),
            15,
            44,
        ),
        se(Event::Text("World".to_string()), 16, 21),
        se(Event::Other(7), 15, 44),
        se(Event::Text(".".to_string()), 44, 45),
        se(Event::End(Tag::Paragraph), 9, 45),
    ]
}

#[test]
fn heading_gets_auto_id_and_external_link_inventoried() {
    let tera = tera::Tera::default();
    let regs = registries();
    let ctx = context(&tera, &regs, Markdown::default());
    let content = "# Title\n\nHello [World](https://example.com).";
    let out = markdown_to_html(&title_world_events(), content, &ctx, &Vec::new()).unwrap();
    match &out.events[0] {
        Event::Html(s) => assert_eq!(s, "<h1 id=\"title\">"),
        other => panic!("expected the heading open tag, got {:?}", other),
    }
    match &out.events[5] {
        Event::Start(Tag::Link(LinkKind::Inline, url, _)) => {
            assert_eq!(url, "https://example.com")
        },
        other => panic!("expected the link to pass through, got {:?}", other),
    }
    assert_eq!(out.external_links, vec!["https://example.com".to_string()]);
    assert!(out.internal_links.is_empty());
    assert!(!out.has_summary);
    assert_eq!(out.toc.len(), 1);
    assert_eq!(out.toc[0].id, "title");
    assert_eq!(out.toc[0].title, "Title");
    assert_eq!(out.toc[0].permalink, "https://example.com/page/#title");
}

#[test]
fn duplicate_titles_disambiguate() {
    let tera = tera::Tera::default();
    let regs = registries();
    let ctx = context(&tera, &regs, Markdown::default());
    let events = vec![
        se(Event::Start(Tag::Heading(2)), 0, 10),
        se(Event::Text("Example".to_string()), 3, 10),
        se(Event::End(Tag::Heading(2)), 0, 10),
        se(Event::Start(Tag::Heading(2)), 11, 21),
        se(Event::Text("Example".to_string()), 14, 21),
        se(Event::End(Tag::Heading(2)), 11, 21),
    ];
    let out = markdown_to_html(&events, "## Example\n## Example", &ctx, &Vec::new()).unwrap();
    assert_eq!(out.toc.len(), 2);
    assert_eq!(out.toc[0].id, "example");
    assert_eq!(out.toc[1].id, "example-1");
}

#[test]
fn explicit_id_is_kept_and_reserved() {
    let tera = tera::Tera::default();
    let regs = registries();
    let ctx = context(&tera, &regs, Markdown::default());
    let events = vec![
        se(Event::Start(Tag::Heading(1)), 0, 14),
        se(Event::Text("One {#mine}".to_string()), 2, 13),
        se(Event::End(Tag::Heading(1)), 0, 14),
        se(Event::Start(Tag::Heading(1)), 15, 22),
        se(Event::Text("Mine".to_string()), 17, 21),
        se(Event::End(Tag::Heading(1)), 15, 22),
    ];
    let out = markdown_to_html(&events, "# One {#mine}\n# Mine", &ctx, &Vec::new()).unwrap();
    assert_eq!(out.toc[0].id, "mine");
    assert_eq!(out.toc[0].title, "One");
    assert_eq!(out.toc[1].id, "mine-1");
}

#[test]
fn decorated_external_link_becomes_literal_tag() {
    let tera = tera::Tera::default();
    let regs = registries();
    let mut config = Markdown::default();
    config.external_links_no_follow = true;
    config.external_links_target_blank = true;
    let ctx = context(&tera, &regs, config);
    let events = vec![se(
        Event::Start(Tag::Link(
            LinkKind::Inline,
            "https://example.com".to_string(),
            "".to_string(),
        )),
        0,
        30,
    )];
    let out = markdown_to_html(&events, "[x](https://example.com)", &ctx, &Vec::new()).unwrap();
    match &out.events[0] {
        Event::Html(s) => assert_eq!(
            s,
            "<a rel=\"noopener nofollow\" target=\"_blank\" href=\"https://example.com\">"
        ),
        other => panic!("expected a literal anchor tag, got {:?}", other),
    }
}

#[test]
fn href_is_escaped_in_decorated_links() {
    let tera = tera::Tera::default();
    let regs = registries();
    let mut config = Markdown::default();
    config.external_links_no_follow = true;
    let ctx = context(&tera, &regs, config);
    let events = vec![se(
        Event::Start(Tag::Link(
            LinkKind::Inline,
            "https://example.com/a b".to_string(),
            "".to_string(),
        )),
        0,
        30,
    )];
    let out = markdown_to_html(&events, "", &ctx, &Vec::new()).unwrap();
    match &out.events[0] {
        Event::Html(s) => assert!(s.contains("a%20b"), "got {}", s),
        other => panic!("expected a literal anchor tag, got {:?}", other),
    }
}

#[test]
fn fragment_link_resolves_against_current_page() {
    let tera = tera::Tera::default();
    let regs = registries();
    let ctx = context(&tera, &regs, Markdown::default());
    let events = vec![se(
        Event::Start(Tag::Link(
            LinkKind::Inline,
            "#intro".to_string(),
            "".to_string(),
        )),
        0,
        10,
    )];
    let out = markdown_to_html(&events, "", &ctx, &Vec::new()).unwrap();
    match &out.events[0] {
        Event::Start(Tag::Link(_, url, _)) => {
            assert_eq!(url, "https://example.com/page/#intro")
        },
        other => panic!("expected a rewritten link, got {:?}", other),
    }
    assert_eq!(
        out.internal_links,
        vec![("page.md".to_string(), Some("intro".to_string()))]
    );
}

#[test]
fn internal_reference_resolves_and_is_inventoried() {
    let tera = tera::Tera::default();
    let regs = registries();
    let mut ctx = context(&tera, &regs, Markdown::default());
    ctx.permalinks.insert(
        "about.md".to_string(),
        "https://example.com/about".to_string(),
    );
    let events = vec![se(
        Event::Start(Tag::Link(
            LinkKind::Inline,
            "@/about.md#team".to_string(),
            "".to_string(),
        )),
        0,
        10,
    )];
    let out = markdown_to_html(&events, "", &ctx, &Vec::new()).unwrap();
    match &out.events[0] {
        Event::Start(Tag::Link(_, url, _)) => {
            assert_eq!(url, "https://example.com/about#team")
        },
        other => panic!("expected a rewritten link, got {:?}", other),
    }
    assert_eq!(
        out.internal_links,
        vec![("about.md".to_string(), Some("team".to_string()))]
    );
}

#[test]
fn broken_internal_reference_fails_the_render() {
    let tera = tera::Tera::default();
    let regs = registries();
    let ctx = context(&tera, &regs, Markdown::default());
    let events = vec![se(
        Event::Start(Tag::Link(
            LinkKind::Inline,
            "@/missing.md".to_string(),
            "".to_string(),
        )),
        0,
        10,
    )];
    let r = markdown_to_html(&events, "", &ctx, &Vec::new());
    match r {
        Err(RenderError::BrokenInternalLink(l)) => assert_eq!(l, "@/missing.md"),
        _ => panic!("expected a broken internal link"),
    }
}

#[test]
fn empty_link_url_fails_after_the_pass() {
    let tera = tera::Tera::default();
    let regs = registries();
    let ctx = context(&tera, &regs, Markdown::default());
    let events = vec![se(
        Event::Start(Tag::Link(LinkKind::Inline, "".to_string(), "".to_string())),
        0,
        4,
    )];
    let r = markdown_to_html(&events, "", &ctx, &Vec::new());
    assert!(matches!(r, Err(RenderError::MissingLinkUrl)));
}

#[test]
fn plain_text_passes_through_unchanged() {
    let tera = tera::Tera::default();
    let regs = registries();
    let ctx = context(&tera, &regs, Markdown::default());
    let events = vec![
        se(Event::Start(Tag::Paragraph), 0, 11),
        se(Event::Text("Hello text.".to_string()), 0, 11),
        se(Event::End(Tag::Paragraph), 0, 11),
    ];
    let out = markdown_to_html(&events, "Hello text.", &ctx, &Vec::new()).unwrap();
    assert_eq!(out.events.len(), 3);
    assert!(matches!(&out.events[0], Event::Start(Tag::Paragraph)));
    match &out.events[1] {
        Event::Text(s) => assert_eq!(s, "Hello text."),
        other => panic!("expected the text unchanged, got {:?}", other),
    }
    assert!(matches!(&out.events[2], Event::End(Tag::Paragraph)));
    assert!(out.toc.is_empty());
    assert!(out.internal_links.is_empty());
    assert!(out.external_links.is_empty());
}

#[test]
fn shortcodes_splice_in_order() {
    let mut tera = tera::Tera::default();
    tera.add_raw_template("shortcodes/one.html", "ONE").unwrap();
    tera.add_raw_template("shortcodes/two.html", "TWO").unwrap();
    let regs = registries();
    let ctx = context(&tera, &regs, Markdown::default());
    // Source: "a{{ one() }}b{{ two() }}c" modelled with call spans 1..13 and 14..26.
    let content = "a{{ one() }}b{{ two() }}c";
    let events = vec![se(Event::Text(content.to_string()), 0, 25)];
    let shortcodes = vec![
        Shortcode {
            name: "one".to_string(),
            args: Vec::new(),
            span_start: 1,
            span_end: 12,
        },
        Shortcode {
            name: "two".to_string(),
            args: Vec::new(),
            span_start: 13,
            span_end: 24,
        },
    ];
    let out = markdown_to_html(&events, content, &ctx, &shortcodes).unwrap();
    let mut texts: Vec<String> = Vec::new();
    for e in &out.events {
        match e {
            Event::Text(s) => texts.push(format!("T:{}", s)),
            Event::Html(s) => texts.push(format!("H:{}", s)),
            _ => {},
        }
    }
    assert_eq!(texts, vec!["T:a", "H:ONE", "T:b", "H:TWO", "T:c"]);
}

#[test]
fn failing_shortcode_render_is_fatal() {
    let tera = tera::Tera::default();
    let regs = registries();
    let ctx = context(&tera, &regs, Markdown::default());
    let content = "x{{ nope() }}";
    let events = vec![se(Event::Text(content.to_string()), 0, 13)];
    let shortcodes = vec![Shortcode {
        name: "nope".to_string(),
        args: Vec::new(),
        span_start: 1,
        span_end: 13,
    }];
    let r = markdown_to_html(&events, content, &ctx, &shortcodes);
    match r {
        Err(RenderError::ShortcodeRender { name, .. }) => assert_eq!(name, "nope"),
        _ => panic!("expected a shortcode render failure"),
    }
}

#[test]
fn summary_marker_sets_flag_and_offset() {
    let tera = tera::Tera::default();
    let regs = registries();
    let ctx = context(&tera, &regs, Markdown::default());
    let events = vec![
        se(Event::Text("before".to_string()), 0, 6),
        se(Event::Html("<!-- more -->".to_string()), 7, 20),
        se(Event::Text("after".to_string()), 21, 26),
    ];
    let out = markdown_to_html(&events, "", &ctx, &Vec::new()).unwrap();
    assert!(out.has_summary);
    match &out.events[1] {
        Event::Html(s) => assert_eq!(s, "<span id=\"continue-reading\"></span>"),
        other => panic!("expected the sentinel, got {:?}", other),
    }
    let rendered = into_rendered(out, "<p>before</p><span id=\"continue-reading\"></span><p>after</p>".to_string());
    assert_eq!(rendered.summary_len, Some(13));
}

#[test]
fn no_marker_means_no_summary() {
    let tera = tera::Tera::default();
    let regs = registries();
    let ctx = context(&tera, &regs, Markdown::default());
    let events = vec![se(Event::Text("just text".to_string()), 0, 9)];
    let out = markdown_to_html(&events, "just text", &ctx, &Vec::new()).unwrap();
    assert!(!out.has_summary);
    let rendered = into_rendered(out, "<p>just text</p>".to_string());
    assert_eq!(rendered.summary_len, None);
}

#[test]
fn emoji_aliases_are_replaced_when_enabled() {
    let tera = tera::Tera::default();
    let regs = registries();
    let mut config = Markdown::default();
    config.render_emoji = true;
    let ctx = context(&tera, &regs, config);
    let events = vec![se(Event::Text("hi :smile:".to_string()), 0, 10)];
    let out = markdown_to_html(&events, "hi :smile:", &ctx, &Vec::new()).unwrap();
    match &out.events[0] {
        Event::Text(s) => assert_eq!(s, "hi \u{1f604}"),
        other => panic!("expected replaced text, got {:?}", other),
    }
}

fn count_markers(events: &[Event]) -> (usize, usize) {
    let mut opens = 0;
    let mut closes = 0;
    for e in events {
        if let Event::Html(s) = e {
            if s == "<section>" {
                opens += 1;
            } else if s == "</section>" {
                closes += 1;
            } else if s == "</section><section>" {
                opens += 1;
                closes += 1;
            }
        }
    }
    (opens, closes)
}

fn three_headings() -> Vec<SpannedEvent> {
    vec![
        se(Event::Start(Tag::Heading(2)), 0, 5),
        se(Event::Text("A".to_string()), 3, 4),
        se(Event::End(Tag::Heading(2)), 0, 5),
        se(Event::Start(Tag::Heading(3)), 6, 12),
        se(Event::Text("B".to_string()), 10, 11),
        se(Event::End(Tag::Heading(3)), 6, 12),
        se(Event::Start(Tag::Heading(1)), 13, 17),
        se(Event::Text("C".to_string()), 15, 16),
        se(Event::End(Tag::Heading(1)), 13, 17),
    ]
}

#[test]
fn hierarchical_sections_balance() {
    let tera = tera::Tera::default();
    let regs = registries();
    let mut config = Markdown::default();
    config.render_with_section_tags = Some(SectionTagsMode::Hierarchical);
    let ctx = context(&tera, &regs, config);
    let out = markdown_to_html(&three_headings(), "", &ctx, &Vec::new()).unwrap();
    let (opens, closes) = count_markers(&out.events);
    assert!(opens > 0);
    assert_eq!(opens, closes);
}

#[test]
fn flat_sections_balance_and_do_not_nest() {
    let tera = tera::Tera::default();
    let regs = registries();
    let mut config = Markdown::default();
    config.render_with_section_tags = Some(SectionTagsMode::Flat);
    let ctx = context(&tera, &regs, config);
    let out = markdown_to_html(&three_headings(), "", &ctx, &Vec::new()).unwrap();
    let (opens, closes) = count_markers(&out.events);
    assert_eq!(opens, 3);
    assert_eq!(closes, 3);
}

#[test]
fn anchor_fragment_is_inserted_left() {
    let mut tera = tera::Tera::default();
    tera.add_raw_template("anchor-link.html", "<a href=\"#{{ id }}\">#</a>")
        .unwrap();
    let regs = registries();
    let mut ctx = context(&tera, &regs, Markdown::default());
    ctx.insert_anchor = InsertAnchor::Left;
    let events = vec![
        se(Event::Start(Tag::Heading(1)), 0, 6),
        se(Event::Text("Hey".to_string()), 2, 5),
        se(Event::End(Tag::Heading(1)), 0, 6),
    ];
    let out = markdown_to_html(&events, "# Hey", &ctx, &Vec::new()).unwrap();
    match &out.events[0] {
        Event::Html(s) => assert_eq!(s, "<h1 id=\"hey\">"),
        other => panic!("expected the open tag, got {:?}", other),
    }
    match &out.events[1] {
        Event::Html(s) => assert_eq!(s, "<a href=\"#hey\">#</a>"),
        other => panic!("expected the anchor fragment, got {:?}", other),
    }
}

#[test]
fn missing_anchor_template_is_fatal() {
    let tera = tera::Tera::default();
    let regs = registries();
    let mut ctx = context(&tera, &regs, Markdown::default());
    ctx.insert_anchor = InsertAnchor::Right;
    let events = vec![
        se(Event::Start(Tag::Heading(1)), 0, 6),
        se(Event::Text("Hey".to_string()), 2, 5),
        se(Event::End(Tag::Heading(1)), 0, 6),
    ];
    let r = markdown_to_html(&events, "# Hey", &ctx, &Vec::new());
    assert!(matches!(r, Err(RenderError::AnchorTemplateRender { .. })));
}

#[test]
fn paragraph_around_block_shortcode_is_suppressed() {
    let mut tera = tera::Tera::default();
    tera.add_raw_template("shortcodes/block.html", "<div>B</div>")
        .unwrap();
    let regs = registries();
    let ctx = context(&tera, &regs, Markdown::default());
    let content = "{{ block() }}";
    let events = vec![
        se(Event::Start(Tag::Paragraph), 0, 13),
        se(Event::Text(content.to_string()), 0, 13),
        se(Event::End(Tag::Paragraph), 0, 13),
    ];
    let shortcodes = vec![Shortcode {
        name: "block".to_string(),
        args: Vec::new(),
        span_start: 0,
        span_end: 13,
    }];
    let out = markdown_to_html(&events, content, &ctx, &shortcodes).unwrap();
    for e in &out.events {
        assert!(
            !matches!(e, Event::Start(Tag::Paragraph)),
            "paragraph should be suppressed"
        );
        assert!(!matches!(e, Event::End(Tag::Paragraph)));
    }
    assert!(out
        .events
        .iter()
        .any(|e| matches!(e, Event::Html(s) if s == "<div>B</div>")));
}

#[test]
fn code_block_is_highlighted() {
    let tera = tera::Tera::default();
    let regs = registries();
    let mut config = Markdown::default();
    config.highlight_code = true;
    config.highlight_theme = "base16-ocean.dark".to_string();
    let ctx = context(&tera, &regs, config);
    let events = vec![
        se(Event::Start(Tag::CodeBlock(Some("rs".to_string()))), 0, 20),
        se(Event::Text("let x = 1;\n".to_string()), 6, 17),
        se(Event::End(Tag::CodeBlock(Some("rs".to_string()))), 0, 20),
    ];
    let out = markdown_to_html(&events, "", &ctx, &Vec::new()).unwrap();
    match &out.events[0] {
        Event::Html(s) => assert_eq!(s, "<pre><code>"),
        other => panic!("expected the opening markup, got {:?}", other),
    }
    match &out.events[1] {
        Event::Html(s) => assert!(s.contains("<span"), "expected styled spans, got {}", s),
        other => panic!("expected highlighted markup, got {:?}", other),
    }
    match &out.events[2] {
        Event::Html(s) => assert_eq!(s, "</code></pre>\n"),
        other => panic!("expected the closing markup, got {:?}", other),
    }
}

#[test]
fn highlighter_source_selection() {
    let regs = registries();
    let mut config = Markdown::default();
    config.highlight_theme = "base16-ocean.dark".to_string();
    let (_, src) = get_highlighter(Some("rs"), &config, &regs);
    assert!(matches!(src, SyntaxSource::BuiltIn));
    let (_, src) = get_highlighter(Some("no-such-language-xyz"), &config, &regs);
    assert!(matches!(src, SyntaxSource::NotFound));
    let (_, src) = get_highlighter(None, &config, &regs);
    assert!(matches!(src, SyntaxSource::Plain));
}

#[test]
fn unknown_theme_is_a_configuration_error() {
    let regs = registries();
    let mut config = Markdown::default();
    config.highlight_theme = "no-such-theme".to_string();
    let r = config.validate_highlight_theme(&regs);
    match r {
        Err(RenderError::ThemeNotFound { theme }) => assert_eq!(theme, "no-such-theme"),
        _ => panic!("expected a theme-not-found error"),
    }
    let mut present = Markdown::default();
    present.highlight_theme = "base16-ocean.dark".to_string();
    assert!(present.validate_highlight_theme(&regs).is_ok());
}

#[test]
fn duplicate_explicit_ids_survive_unchanged() {
    let tera = tera::Tera::default();
    let regs = registries();
    let ctx = context(&tera, &regs, Markdown::default());
    let events = vec![
        se(Event::Start(Tag::Heading(1)), 0, 12),
        se(Event::Text("One {#dup}".to_string()), 2, 12),
        se(Event::End(Tag::Heading(1)), 0, 12),
        se(Event::Start(Tag::Heading(1)), 13, 25),
        se(Event::Text("Two {#dup}".to_string()), 15, 25),
        se(Event::End(Tag::Heading(1)), 13, 25),
    ];
    let out = markdown_to_html(&events, "# One {#dup}\n# Two {#dup}", &ctx, &Vec::new()).unwrap();
    assert_eq!(out.toc[0].id, "dup");
    assert_eq!(out.toc[1].id, "dup");
}

#[test]
fn trailing_spaces_before_explicit_id_are_stripped() {
    let tera = tera::Tera::default();
    let regs = registries();
    let ctx = context(&tera, &regs, Markdown::default());
    let events = vec![
        se(Event::Start(Tag::Heading(1)), 0, 14),
        se(Event::Text("One   {#mine}".to_string()), 2, 14),
        se(Event::End(Tag::Heading(1)), 0, 14),
    ];
    let out = markdown_to_html(&events, "# One   {#mine}", &ctx, &Vec::new()).unwrap();
    assert_eq!(out.toc[0].title, "One");
    assert_eq!(out.toc[0].id, "mine");
}

#[test]
fn auto_ids_avoid_later_explicit_ids() {
    let tera = tera::Tera::default();
    let regs = registries();
    let ctx = context(&tera, &regs, Markdown::default());
    let events = vec![
        se(Event::Start(Tag::Heading(1)), 0, 7),
        se(Event::Text("Mine".to_string()), 2, 6),
        se(Event::End(Tag::Heading(1)), 0, 7),
        se(Event::Start(Tag::Heading(1)), 8, 20),
        se(Event::Text("Two {#mine}".to_string()), 10, 20),
        se(Event::End(Tag::Heading(1)), 8, 20),
    ];
    let out = markdown_to_html(&events, "# Mine\n# Two {#mine}", &ctx, &Vec::new()).unwrap();
    assert_eq!(out.toc[0].id, "mine-1");
    assert_eq!(out.toc[1].id, "mine");
}
