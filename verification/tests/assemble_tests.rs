use rpub::assemble::chapter_filename;
use rpub::assemble::format_utc;
use rpub::assemble::generate_epub_data;
use rpub::assemble::plan_document;
use rpub::assemble::source_toc_filename;
use rpub::models::Article;
use rpub::models::AssemblyError;
use rpub::models::ImageAsset;

fn article(source: &str, title: &str, n: usize) -> Article {
    Article {
        source: source.to_string(),
        title: title.to_string(),
        link: format!("https://example.com/{}", n),
        content: format!("<p>body {}</p>", n),
        pub_date: 0,
    }
}

#[test]
fn filenames_are_deterministic() {
    assert_eq!(chapter_filename(0), "chapter_0.xhtml");
    assert_eq!(chapter_filename(17), "chapter_17.xhtml");
    assert_eq!(source_toc_filename("Hacker News"), "toc_hacker_news.xhtml");
}

#[test]
fn epoch_formats_as_utc() {
    assert_eq!(format_utc(0, "%Y-%m-%d %H:%M"), Some("1970-01-01 00:00".to_string()));
    assert_eq!(format_utc(0, "%Y-%m-%d"), Some("1970-01-01".to_string()));
}

#[test]
fn plan_orders_sources_and_keeps_flat_chapter_indices() {
    let articles = vec![article("B", "b one", 0), article("A", "a one", 1), article(
        "B",
        "b two",
        2,
    )];
    let plan = plan_document(&articles).unwrap();
    // Chapter filenames come from the flat input index, not the grouping.
    assert_eq!(plan.chapters.len(), 3);
    assert_eq!(plan.chapters[0].filename, "chapter_0.xhtml");
    assert_eq!(plan.chapters[1].filename, "chapter_1.xhtml");
    assert_eq!(plan.chapters[2].filename, "chapter_2.xhtml");
    // The master TOC lists A before B.
    assert_eq!(plan.sources, vec!["A".to_string(), "B".to_string()]);
    let a_pos = plan.master.body.find("toc_a.xhtml").unwrap();
    let b_pos = plan.master.body.find("toc_b.xhtml").unwrap();
    assert!(a_pos < b_pos);
    // B's TOC lists its two articles in original relative order.
    let b_toc = &plan.source_tocs[1];
    assert_eq!(b_toc.filename, "toc_b.xhtml");
    let first = b_toc.body.find("chapter_0.xhtml").unwrap();
    let second = b_toc.body.find("chapter_2.xhtml").unwrap();
    assert!(first < second);
    assert!(!b_toc.body.contains("chapter_1.xhtml"));
    assert!(b_toc.body.find("b one").unwrap() < b_toc.body.find("b two").unwrap());
}

#[test]
fn chapters_carry_title_source_date_content_and_backlink() {
    let articles = vec![article("S", "The Title", 0)];
    let plan = plan_document(&articles).unwrap();
    let body = &plan.chapters[0].body;
    assert!(body.contains("<h1>The Title</h1>"));
    assert!(body.contains("<strong>Source:</strong> S"));
    assert!(body.contains("1970-01-01 00:00"));
    assert!(body.contains("<p>body 0</p>"));
    assert!(body.contains("<a href=\"https://example.com/0\">Read original article</a>"));
}

#[test]
fn colliding_source_slugs_are_an_error() {
    let articles = vec![article("A B", "x", 0), article("A.B", "y", 1)];
    match plan_document(&articles) {
        Err(AssemblyError::SlugCollision(_)) => {},
        other => panic!("expected a slug collision, got {:?}", other.is_ok()),
    }
    let assets: Vec<ImageAsset> = Vec::new();
    assert!(matches!(
        generate_epub_data(&articles, &assets),
        Err(AssemblyError::SlugCollision(_))
    ));
}

#[test]
fn generation_packages_articles_and_assets() {
    let articles = vec![article("B", "b one", 0), article("A", "a one", 1)];
    let assets = vec![ImageAsset {
        filename: "image_1_0.jpg".to_string(),
        data: vec![0xFF, 0xD8, 0xFF],
        mime: "image/jpeg".to_string(),
    }];
    let bytes = generate_epub_data(&articles, &assets).unwrap();
    // An EPUB is a zip container.
    assert_eq!(&bytes[0..2], b"PK");
}
