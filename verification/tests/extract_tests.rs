use rpub::extract::create_extractor;
use rpub::extract::strip_images;
use rpub::extract::ContentExtractor;
use rpub::extract::CustomExtractor;
use rpub::extract::Extractor;
use rpub::models::ConfigError;
use rpub::models::ContentProcessor;
use rpub::models::OutputMode;
use rpub::models::ProcessorType;

fn processor(kind: ProcessorType, cfg: Option<&str>) -> ContentProcessor {
    ContentProcessor { id: 1, processor: kind, custom_config: cfg.map(|s| s.to_string()) }
}

#[test]
fn config_parses_all_three_fields() {
    let ex = CustomExtractor::new(
        "selector: [p, .content]\ndiscard: [.ad]\noutput_mode: html",
    ).unwrap();
    assert_eq!(ex.config.selector, vec!["p".to_string(), ".content".to_string()]);
    assert_eq!(ex.config.discard, vec![".ad".to_string()]);
    assert_eq!(ex.config.output_mode, OutputMode::Html);
}

#[test]
fn config_accepts_empty_list_and_text_mode() {
    let ex = CustomExtractor::new("selector: [p]\ndiscard: []\noutput_mode: text").unwrap();
    assert_eq!(ex.config.discard, Vec::<String>::new());
    assert_eq!(ex.config.output_mode, OutputMode::Text);
}

fn expect_malformed(text: &str) {
    match CustomExtractor::new(text) {
        Err(e) => assert_eq!(e, ConfigError::MalformedConfig),
        Ok(_) => panic!("expected a malformed-config error"),
    }
}

#[test]
fn config_rejects_malformed_text() {
    expect_malformed("not a config");
    expect_malformed("selector: [p]\ndiscard: [.ad]");
    expect_malformed("selector: p\ndiscard: []\noutput_mode: html");
    expect_malformed("selector: [p]\ndiscard: []\noutput_mode: pdf");
}

#[test]
fn create_extractor_maps_kinds() {
    assert!(matches!(create_extractor(None), Ok(Extractor::Default(_))));
    let p = processor(ProcessorType::DomSmoothie, None);
    assert!(matches!(create_extractor(Some(&p)), Ok(Extractor::DomSmoothie(_))));
    let p = processor(ProcessorType::TextOnly, None);
    assert!(matches!(create_extractor(Some(&p)), Ok(Extractor::TextOnly(_))));
    let p = processor(ProcessorType::Custom, Some("selector: [p]\ndiscard: []\noutput_mode: html"));
    assert!(matches!(create_extractor(Some(&p)), Ok(Extractor::Custom(_))));
}

#[test]
fn custom_without_config_is_an_error() {
    let p = processor(ProcessorType::Custom, None);
    match create_extractor(Some(&p)) {
        Err(e) => assert_eq!(e, ConfigError::MissingCustomConfig),
        Ok(_) => panic!("expected a missing-config error"),
    }
    let p = processor(ProcessorType::Custom, Some("garbage"));
    match create_extractor(Some(&p)) {
        Err(e) => assert_eq!(e, ConfigError::MalformedConfig),
        Ok(_) => panic!("expected a malformed-config error"),
    }
}

#[test]
fn custom_drain_keeps_matches_and_drops_discards() {
    let ex = CustomExtractor::new("selector: [p]\ndiscard: [.ad]\noutput_mode: html").unwrap();
    let html = "<html><head><title>The Title</title></head><body>\
        <p>one</p><p class=\"ad\">BUY NOW</p><p>two</p><p>three</p>\
        </body></html>";
    let (title, content) = ex.extract(html, "https://x/").unwrap();
    assert_eq!(title, "The Title");
    assert!(content.contains("<p>one</p>"));
    assert!(content.contains("<p>two</p>"));
    assert!(content.contains("<p>three</p>"));
    assert!(!content.contains("BUY NOW"));
    assert!(!content.contains("ad"));
}

#[test]
fn custom_title_falls_back_when_missing() {
    let ex = CustomExtractor::new("selector: [p]\ndiscard: []\noutput_mode: html").unwrap();
    let (title, _) = ex.extract("<body><p>x</p></body>", "https://x/").unwrap();
    assert_eq!(title, "Untitled");
}

#[test]
fn custom_text_mode_takes_text_content() {
    let ex = CustomExtractor::new("selector: [p]\ndiscard: [.ad]\noutput_mode: text").unwrap();
    let html = "<body><p>one</p><p class=\"ad\">AD</p><p>two</p></body>";
    let (_, content) = ex.extract(html, "https://x/").unwrap();
    assert_eq!(content, "onetwo");
}

#[test]
fn strip_images_removes_every_image_element() {
    let out = strip_images("<div><img src=\"a.png\"/><p>kept</p><img src=\"b.png\"/></div>");
    assert!(!out.contains("<img"));
    assert!(out.contains("<p>kept</p>"));
}

#[test]
fn readability_failures_carry_the_strategy_kind() {
    let article = "<html><head><title>A Piece</title></head><body><article>\
        <h1>A Piece</h1>\
        <p>The quick brown fox jumps over the lazy dog, again and again, because \
        repetition makes a paragraph long enough for boilerplate removal.</p>\
        <p>Another paragraph follows with more prose so that the candidate scorer \
        has something to hold on to when it ranks the nodes of this page.</p>\
        <p>And one more closing paragraph that wraps the article up neatly and \
        keeps the body comfortably above the usual length thresholds.</p>\
        </article></body></html>";
    let default_ex = rpub::extract::DefaultExtractor;
    match ContentExtractor::extract(&default_ex, article, "https://example.com/piece") {
        Ok((title, content)) => {
            assert!(!title.is_empty());
            assert!(!content.is_empty());
        },
        Err(e) => assert_eq!(e.kind, ProcessorType::Default),
    }
    let text_only = rpub::extract::TextOnlyExtractor;
    match ContentExtractor::extract(&text_only, article, "https://example.com/piece") {
        Ok((_, content)) => assert!(!content.contains("<img")),
        Err(e) => assert_eq!(e.kind, ProcessorType::TextOnly),
    }
}

#[test]
fn custom_title_takes_the_first_title_element() {
    let ex = CustomExtractor::new("selector: [p]\ndiscard: []\noutput_mode: html").unwrap();
    let html = "<html><head><title>First</title><title>Second</title></head>\
        <body><p>x</p></body></html>";
    let (title, _) = ex.extract(html, "https://x/").unwrap();
    assert_eq!(title, "First");
}

#[test]
fn outcome_mapping_is_exact() {
    match rpub::extract::tag_extraction(ProcessorType::DomSmoothie, Err("boom".to_string())) {
        Err(e) => {
            assert_eq!(e.kind, ProcessorType::DomSmoothie);
            assert_eq!(e.message, "boom");
        }
        Ok(_) => panic!("expected the error to pass through"),
    }
    match rpub::extract::tag_extraction(ProcessorType::Default, Ok(("t".to_string(), "c".to_string()))) {
        Ok((t, c)) => {
            assert_eq!(t, "t");
            assert_eq!(c, "c");
        }
        Err(_) => panic!("expected the value to pass through"),
    }
    match rpub::extract::strip_extraction(Ok(("t".to_string(), "<p>x</p><img src=\"a\">".to_string()))) {
        Ok((t, c)) => {
            assert_eq!(t, "t");
            assert!(!c.contains("<img"));
            assert!(c.contains("<p>x</p>"));
        }
        Err(_) => panic!("expected success"),
    }
    match rpub::extract::strip_extraction(Err("gone".to_string())) {
        Err(e) => {
            assert_eq!(e.kind, ProcessorType::TextOnly);
            assert_eq!(e.message, "gone");
        }
        Ok(_) => panic!("expected the error to pass through"),
    }
}
