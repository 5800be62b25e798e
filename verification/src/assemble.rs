//! The document assembler: grouping articles by source, the two-level table
//! of contents, deterministic chapter and per-source filenames, and the final
//! packaged EPUB.
use vstd::prelude::*;

use crate::models::Article;
use crate::models::AssemblyError;
use crate::models::ImageAsset;
use crate::text::dec_spec;
use crate::text::dec_u64;
use crate::text::insert_sorted;
use crate::text::lex_lt;
use crate::text::slug_of;
use crate::text::slug_spec;
use crate::text::sorted_distinct;
use crate::text::views_of;

verus! {

/// One page of the assembled document.
pub struct Page {
    pub filename: String,
    pub title: String,
    pub body: String,
}

/// Everything the package will hold, fully determined before any container
/// work starts: the master TOC, the sorted source labels, one TOC per source,
/// and one chapter per article in input order.
pub struct DocumentPlan {
    pub master: Page,
    pub sources: Vec<String>,
    pub source_tocs: Vec<Page>,
    pub chapters: Vec<Page>,
}

/// The chapter filename of the article at flat input index `i`.
pub open spec fn chapter_filename_spec(i: nat) -> Seq<char> {
    "chapter_"@ + dec_spec(i) + ".xhtml"@
}

/// Law: chapter filenames are globally unique — distinct flat input indices
/// give distinct filenames.
pub proof fn lemma_chapter_filenames_distinct(i: nat, j: nat)
    ensures
        i != j ==> chapter_filename_spec(i) != chapter_filename_spec(j),
{
    if i != j && chapter_filename_spec(i) == chapter_filename_spec(j) {
        let p = "chapter_"@;
        let s = ".xhtml"@;
        let a = dec_spec(i);
        let b = dec_spec(j);
        assert((p + a + s).len() == p.len() + a.len() + s.len());
        assert((p + b + s).len() == p.len() + b.len() + s.len());
        assert(a.len() == b.len());
        assert(a =~= (p + a + s).subrange(p.len() as int, (p.len() + a.len()) as int));
        assert(b =~= (p + b + s).subrange(p.len() as int, (p.len() + b.len()) as int));
        crate::text::lemma_dec_injective(i, j);
        assert(false);
    }
}

/// The filename of the TOC page of one source label.
pub open spec fn source_toc_filename_spec(label: Seq<char>) -> Seq<char> {
    "toc_"@ + slug_spec(label) + ".xhtml"@
}

/// Law: source-TOC filenames of labels with distinct slugs are distinct —
/// with [`lemma_chapter_filenames_distinct`] and
/// [`lemma_chapter_and_toc_filenames_differ`], every page filename of a plan
/// whose slugs do not collide is unique.
pub proof fn lemma_source_toc_filenames_distinct(l1: Seq<char>, l2: Seq<char>)
    ensures
        slug_spec(l1) != slug_spec(l2) ==> source_toc_filename_spec(l1)
            != source_toc_filename_spec(l2),
{
    if slug_spec(l1) != slug_spec(l2) && source_toc_filename_spec(l1) == source_toc_filename_spec(
        l2,
    ) {
        let p = "toc_"@;
        let s = ".xhtml"@;
        let a = slug_spec(l1);
        let b = slug_spec(l2);
        assert((p + a + s).len() == p.len() + a.len() + s.len());
        assert((p + b + s).len() == p.len() + b.len() + s.len());
        assert(a.len() == b.len());
        assert(a =~= (p + a + s).subrange(p.len() as int, (p.len() + a.len()) as int));
        assert(b =~= (p + b + s).subrange(p.len() as int, (p.len() + b.len()) as int));
        assert(false);
    }
}

/// Law: a chapter filename never collides with a source-TOC filename.
pub proof fn lemma_chapter_and_toc_filenames_differ(i: nat, label: Seq<char>)
    ensures
        chapter_filename_spec(i) != source_toc_filename_spec(label),
{
    reveal_strlit("chapter_");
    reveal_strlit("toc_");
    if chapter_filename_spec(i) == source_toc_filename_spec(label) {
        assert(chapter_filename_spec(i)[0] == 'c');
        assert(source_toc_filename_spec(label)[0] == 't');
        assert(false);
    }
}

/// Concatenation of a sequence of character sequences.
pub open spec fn cat(parts: Seq<Seq<char>>) -> Seq<char>
    decreases parts.len(),
{
    if parts.len() == 0 {
        Seq::empty()
    } else {
        cat(parts.drop_last()) + parts.last()
    }
}

/// One master-TOC line: a link to a source's TOC page.
pub open spec fn master_entry_spec(label: Seq<char>) -> Seq<char> {
    "<li><a href=\""@ + source_toc_filename_spec(label) + "\">"@ + label + "</a></li>"@
}

/// The master TOC page body: one entry per source, in the given order.
pub open spec fn master_toc_body_spec(sources: Seq<Seq<char>>) -> Seq<char> {
    "<h1>Table of Contents</h1><ul>"@ + cat(
        sources.map_values(|l: Seq<char>| master_entry_spec(l)),
    ) + "</ul>"@
}

/// One per-source-TOC line: a link to the chapter at flat index `i`.
pub open spec fn chapter_entry_spec(i: nat, title: Seq<char>) -> Seq<char> {
    "<li><a href=\""@ + chapter_filename_spec(i) + "\">"@ + title + "</a></li>"@
}

/// The TOC lines of one source: its articles in original input order, each
/// linking to the chapter named after the article's flat input index.
pub open spec fn source_entries_spec(articles: Seq<Article>, label: Seq<char>) -> Seq<Seq<char>>
    decreases articles.len(),
{
    if articles.len() == 0 {
        Seq::empty()
    } else {
        let rest = source_entries_spec(articles.drop_last(), label);
        if articles.last().source@ == label {
            rest.push(chapter_entry_spec((articles.len() - 1) as nat, articles.last().title@))
        } else {
            rest
        }
    }
}

/// The TOC page body of one source.
pub open spec fn source_toc_body_spec(articles: Seq<Article>, label: Seq<char>) -> Seq<char> {
    "<h1>"@ + label + "</h1><ul>"@ + cat(source_entries_spec(articles, label)) + "</ul>"@
}

/// The strftime pattern of a chapter's date line.
pub open spec fn date_pattern() -> Seq<char> {
    "%Y-%m-%d %H:%M"@
}

/// The strftime pattern of the digest's title date.
pub open spec fn title_date_pattern() -> Seq<char> {
    "%Y-%m-%d"@
}

/// What chrono's UTC formatting returns for an epoch second and a pattern; a
/// function of the two arguments alone.
pub uninterp spec fn chrono_format(secs: int, pattern: Seq<char>) -> Option<Seq<char>>;

/// Relies on chrono::DateTime::from_timestamp and chrono's strftime
/// formatting: renders the epoch second `secs` in UTC with `pattern`; `None`
/// when the second lies outside chrono's representable range. Only the two
/// fixed, known-valid patterns are admitted, so the formatter cannot panic.
#[verifier::external_body]
pub fn format_utc(secs: i64, pattern: &str) -> (r: Option<String>)
    requires
        pattern@ == date_pattern() || pattern@ == title_date_pattern(),
    ensures
        match r {
            Some(s) => chrono_format(secs as int, pattern@) == Some(s@),
            None => chrono_format(secs as int, pattern@) is None,
        },
{
    chrono::DateTime::<chrono::Utc>::from_timestamp(secs, 0).map(|dt| dt.format(pattern).to_string())
}

/// Relies on chrono::Utc::now: the current time as whole seconds since the
/// Unix epoch. Nothing is promised of the value.
#[verifier::external_body]
pub fn now_secs() -> i64 {
    chrono::Utc::now().timestamp()
}

/// Relies on chrono::Utc::now: the current time in milliseconds since the
/// Unix epoch. Nothing is promised of the value.
#[verifier::external_body]
pub fn now_millis() -> i64 {
    chrono::Utc::now().timestamp_millis()
}

/// The digest's title: the fixed prefix and the generation date, or the
/// prefix alone when the second lies outside chrono's range.
pub open spec fn digest_title_spec(secs: int) -> Seq<char> {
    "RSS Digest - "@ + match chrono_format(secs, title_date_pattern()) {
        Some(s) => s,
        None => Seq::empty(),
    }
}

/// Renders the digest's title for the generation second `secs`.
pub fn digest_title(secs: i64) -> (r: String)
    ensures
        r@ == digest_title_spec(secs as int),
{
    let mut out = "RSS Digest - ".to_owned();
    match format_utc(secs, "%Y-%m-%d") {
        Some(d) => out.append(d.as_str()),
        None => (),
    }
    proof {
        assert(out@ =~= digest_title_spec(secs as int));
    }
    out
}

/// The producer label written into every package's metadata.
pub fn digest_author() -> (r: String)
    ensures
        r@ == "RPub RSS Aggregator"@,
{
    "RPub RSS Aggregator".to_owned()
}

/// The date line of a chapter: the article's publication second formatted in
/// UTC, or empty when it lies outside chrono's range.
pub open spec fn date_line_spec(secs: int) -> Seq<char> {
    match chrono_format(secs, date_pattern()) {
        Some(s) => s,
        None => Seq::empty(),
    }
}

/// A chapter page body: title, source label, date line, the (already
/// image-rewritten) content, and a link back to the original article.
pub open spec fn chapter_body_spec(a: Article, date: Seq<char>) -> Seq<char> {
    "<h1>"@ + a.title@ + "</h1><p><strong>Source:</strong> "@ + a.source@
        + " <br/> <strong>Date:</strong> "@ + date + "</p><hr/>"@ + a.content@ + "<p><a href=\""@
        + a.link@ + "\">Read original article</a></p>"@
}

/// The source label of each article, in input order.
pub open spec fn sources_of(articles: Seq<Article>) -> Seq<Seq<char>> {
    articles.map_values(|a: Article| a.source@)
}

/// Two articles carry distinct source labels that slug identically, so their
/// TOC pages would collide.
pub open spec fn label_collision(articles: Seq<Article>) -> bool {
    exists|i: int, j: int|
        0 <= i < articles.len() && 0 <= j < articles.len() && articles[i].source@
            != articles[j].source@ && slug_spec(articles[i].source@) == slug_spec(
            articles[j].source@,
        )
}

/// The distinct source labels of `articles`, in ascending lexicographic
/// order.
pub fn sorted_sources(articles: &Vec<Article>) -> (r: Vec<String>)
    ensures
        sorted_distinct(views_of(r@)),
        forall|y: Seq<char>| views_of(r@).contains(y) <==> sources_of(articles@).contains(y),
{
    let mut r: Vec<String> = Vec::new();
    let mut k: usize = 0;
    proof {
        assert(forall|y: Seq<char>| !sources_of(articles@.take(0)).contains(y));
    }
    while k < articles.len()
        invariant
            k <= articles@.len(),
            sorted_distinct(views_of(r@)),
            forall|y: Seq<char>|
                views_of(r@).contains(y) <==> sources_of(articles@.take(k as int)).contains(y),
        decreases articles@.len() - k,
    {
        let ghost pre = sources_of(articles@.take(k as int));
        let ghost cur = sources_of(articles@.take(k as int + 1));
        let label = articles[k].source.clone();
        insert_sorted(&mut r, label);
        proof {
            assert(cur.len() == k + 1);
            assert(cur[k as int] == articles@[k as int].source@);
            assert forall|y: Seq<char>| cur.contains(y) implies (pre.contains(y) || y
                == articles@[k as int].source@) by {
                let i = choose|i: int| 0 <= i < cur.len() && cur[i] == y;
                if i < k {
                    assert(pre[i] == y);
                }
            }
            assert forall|y: Seq<char>| pre.contains(y) implies cur.contains(y) by {
                let i = choose|i: int| 0 <= i < pre.len() && pre[i] == y;
                assert(cur[i] == y);
            }
            assert(cur.contains(articles@[k as int].source@));
        }
        k += 1;
    }
    proof {
        assert(articles@.take(k as int) =~= articles@);
    }
    r
}

/// Renders the chapter filename of flat input index `i`.
pub fn chapter_filename(i: u64) -> (r: String)
    ensures
        r@ == chapter_filename_spec(i as nat),
{
    let mut out = "chapter_".to_owned();
    out.append(dec_u64(i).as_str());
    out.append(".xhtml");
    proof {
        assert(out@ =~= chapter_filename_spec(i as nat));
    }
    out
}

/// Renders the TOC filename of one source label.
pub fn source_toc_filename(label: &str) -> (r: String)
    ensures
        r@ == source_toc_filename_spec(label@),
{
    let mut out = "toc_".to_owned();
    out.append(slug_of(label).as_str());
    out.append(".xhtml");
    proof {
        assert(out@ =~= source_toc_filename_spec(label@));
    }
    out
}

/// Renders the master TOC page body for the given source order.
pub fn build_master_body(sources: &Vec<String>) -> (r: String)
    ensures
        r@ == master_toc_body_spec(views_of(sources@)),
{
    let ghost entries = views_of(sources@).map_values(|l: Seq<char>| master_entry_spec(l));
    let mut out = "<h1>Table of Contents</h1><ul>".to_owned();
    let mut k: usize = 0;
    proof {
        assert(out@ + cat(entries.take(0)) =~= out@);
    }
    while k < sources.len()
        invariant
            k <= sources@.len(),
            entries == views_of(sources@).map_values(|l: Seq<char>| master_entry_spec(l)),
            out@ == "<h1>Table of Contents</h1><ul>"@ + cat(entries.take(k as int)),
        decreases sources@.len() - k,
    {
        let ghost out0 = out@;
        out.append("<li><a href=\"");
        out.append(source_toc_filename(sources[k].as_str()).as_str());
        out.append("\">");
        out.append(sources[k].as_str());
        out.append("</a></li>");
        proof {
            assert(entries.take(k as int + 1).drop_last() =~= entries.take(k as int));
            assert(entries[k as int] == master_entry_spec(views_of(sources@)[k as int]));
            assert(views_of(sources@)[k as int] == sources@[k as int]@);
            assert(out@ =~= out0 + master_entry_spec(sources@[k as int]@));
        }
        k += 1;
    }
    out.append("</ul>");
    proof {
        assert(entries.take(k as int) =~= entries);
        assert(out@ =~= master_toc_body_spec(views_of(sources@)));
    }
    out
}

/// Renders the TOC page body of one source: its articles, in input order.
pub fn build_source_toc_body(articles: &Vec<Article>, label: &str) -> (r: String)
    ensures
        r@ == source_toc_body_spec(articles@, label@),
{
    let mut out = "<h1>".to_owned();
    out.append(label);
    out.append("</h1><ul>");
    let ghost head = "<h1>"@ + label@ + "</h1><ul>"@;
    proof {
        assert(out@ =~= head + cat(source_entries_spec(articles@.take(0), label@)));
    }
    let mut k: usize = 0;
    while k < articles.len()
        invariant
            k <= articles@.len(),
            out@ == head + cat(source_entries_spec(articles@.take(k as int), label@)),
        decreases articles@.len() - k,
    {
        let ghost pre = articles@.take(k as int);
        let ghost cur = articles@.take(k as int + 1);
        proof {
            assert(cur.drop_last() =~= pre);
            assert(cur.last() == articles@[k as int]);
        }
        if crate::text::str_eq(articles[k].source.as_str(), label) {
            let ghost out0 = out@;
            out.append("<li><a href=\"");
            out.append(chapter_filename(k as u64).as_str());
            out.append("\">");
            out.append(articles[k].title.as_str());
            out.append("</a></li>");
            proof {
                assert(out@ =~= out0 + chapter_entry_spec(k as nat, articles@[k as int].title@));
            }
        }
        proof {
            let ep = source_entries_spec(pre, label@);
            let ec = source_entries_spec(cur, label@);
            if articles@[k as int].source@ == label@ {
                assert(ec == ep.push(chapter_entry_spec(k as nat, articles@[k as int].title@)));
                assert(ec.drop_last() =~= ep);
                assert(ec.last() == chapter_entry_spec(k as nat, articles@[k as int].title@));
                assert(cat(ec) == cat(ep) + ec.last());
                assert(out@ =~= head + cat(ec));
            } else {
                assert(ec == ep);
                assert(out@ =~= head + cat(ec));
            }
        }
        k += 1;
    }
    out.append("</ul>");
    proof {
        assert(articles@.take(k as int) =~= articles@);
        assert(out@ =~= source_toc_body_spec(articles@, label@));
    }
    out
}

/// Renders one chapter page body.
pub fn build_chapter_body(article: &Article) -> (r: String)
    ensures
        r@ == chapter_body_spec(*article, date_line_spec(article.pub_date as int)),
{
    let date = match format_utc(article.pub_date, "%Y-%m-%d %H:%M") {
        Some(s) => s,
        None => String::new(),
    };
    let mut out = "<h1>".to_owned();
    out.append(article.title.as_str());
    out.append("</h1><p><strong>Source:</strong> ");
    out.append(article.source.as_str());
    out.append(" <br/> <strong>Date:</strong> ");
    out.append(date.as_str());
    out.append("</p><hr/>");
    out.append(article.content.as_str());
    out.append("<p><a href=\"");
    out.append(article.link.as_str());
    out.append("\">Read original article</a></p>");
    proof {
        assert(out@ =~= chapter_body_spec(*article, date_line_spec(article.pub_date as int)));
    }
    out
}

/// Everything `plan_document` promises of a plan it returns.
pub open spec fn plan_ok(plan: DocumentPlan, articles: Seq<Article>) -> bool {
    &&& sorted_distinct(views_of(plan.sources@))
    &&& forall|y: Seq<char>|
        views_of(plan.sources@).contains(y) <==> sources_of(articles).contains(y)
    &&& plan.master.filename@ == "toc.xhtml"@
    &&& plan.master.title@ == "Table of Contents"@
    &&& plan.master.body@ == master_toc_body_spec(views_of(plan.sources@))
    &&& plan.source_tocs@.len() == plan.sources@.len()
    &&& forall|i: int|
        0 <= i < plan.sources@.len() ==> {
            &&& (#[trigger] plan.source_tocs@[i]).filename@ == source_toc_filename_spec(
                plan.sources@[i]@,
            )
            &&& plan.source_tocs@[i].title@ == plan.sources@[i]@
            &&& plan.source_tocs@[i].body@ == source_toc_body_spec(articles, plan.sources@[i]@)
        }
    &&& plan.chapters@.len() == articles.len()
    &&& forall|i: int|
        0 <= i < articles.len() ==> {
            &&& (#[trigger] plan.chapters@[i]).filename@ == chapter_filename_spec(i as nat)
            &&& plan.chapters@[i].title@ == articles[i].title@
            &&& plan.chapters@[i].body@ == chapter_body_spec(
                articles[i],
                date_line_spec(articles[i].pub_date as int),
            )
        }
}

/// Plans the whole document: sorted distinct sources, the master TOC, one
/// TOC page per source, and one chapter per article named after its flat
/// input index. Fails exactly when two distinct source labels slug
/// identically, which would make their TOC pages collide.
pub fn plan_document(articles: &Vec<Article>) -> (r: Result<DocumentPlan, AssemblyError>)
    ensures
        match r {
            Ok(plan) => plan_ok(plan, articles@) && !label_collision(articles@),
            Err(e) => e matches AssemblyError::SlugCollision(_) && label_collision(articles@),
        },
{
    let sources = sorted_sources(articles);
    let mut i: usize = 0;
    while i < sources.len()
        invariant
            i <= sources@.len(),
            sorted_distinct(views_of(sources@)),
            forall|y: Seq<char>|
                views_of(sources@).contains(y) <==> sources_of(articles@).contains(y),
            forall|a: int, b: int|
                0 <= a < b < sources@.len() && a < i ==> slug_spec(sources@[a]@) != slug_spec(
                    sources@[b]@,
                ),
        decreases sources@.len() - i,
    {
        let slug_i = slug_of(sources[i].as_str());
        let mut j: usize = i + 1;
        while j < sources.len()
            invariant
                i < sources@.len(),
                i < j,
                j <= sources@.len(),
                slug_i@ == slug_spec(sources@[i as int]@),
                sorted_distinct(views_of(sources@)),
                forall|y: Seq<char>|
                    views_of(sources@).contains(y) <==> sources_of(articles@).contains(y),
                forall|b: int|
                    i < b < j ==> slug_spec(sources@[i as int]@) != slug_spec(sources@[b]@),
            decreases sources@.len() - j,
        {
            let slug_j = slug_of(sources[j].as_str());
            if slug_i.eq(&slug_j) {
                proof {
                    lemma_collision_from_sources(articles@, sources@, i as int, j as int);
                }
                return Err(AssemblyError::SlugCollision(sources[j].clone()));
            }
            j += 1;
        }
        i += 1;
    }
    let master_body = build_master_body(&sources);
    let mut source_tocs: Vec<Page> = Vec::new();
    let mut k: usize = 0;
    while k < sources.len()
        invariant
            k <= sources@.len(),
            source_tocs@.len() == k,
            forall|t: int|
                0 <= t < k ==> {
                    &&& (#[trigger] source_tocs@[t]).filename@ == source_toc_filename_spec(
                        sources@[t]@,
                    )
                    &&& source_tocs@[t].title@ == sources@[t]@
                    &&& source_tocs@[t].body@ == source_toc_body_spec(articles@, sources@[t]@)
                },
        decreases sources@.len() - k,
    {
        let filename = source_toc_filename(sources[k].as_str());
        let title = sources[k].clone();
        let body = build_source_toc_body(articles, sources[k].as_str());
        source_tocs.push(Page { filename, title, body });
        k += 1;
    }
    let mut chapters: Vec<Page> = Vec::new();
    let mut k2: usize = 0;
    while k2 < articles.len()
        invariant
            k2 <= articles@.len(),
            chapters@.len() == k2,
            forall|t: int|
                0 <= t < k2 ==> {
                    &&& (#[trigger] chapters@[t]).filename@ == chapter_filename_spec(t as nat)
                    &&& chapters@[t].title@ == articles@[t].title@
                    &&& chapters@[t].body@ == chapter_body_spec(
                        articles@[t],
                        date_line_spec(articles@[t].pub_date as int),
                    )
                },
        decreases articles@.len() - k2,
    {
        let filename = chapter_filename(k2 as u64);
        let title = articles[k2].title.clone();
        let body = build_chapter_body(&articles[k2]);
        chapters.push(Page { filename, title, body });
        k2 += 1;
    }
    let master = Page {
        filename: "toc.xhtml".to_owned(),
        title: "Table of Contents".to_owned(),
        body: master_body,
    };
    let plan = DocumentPlan { master, sources, source_tocs, chapters };
    proof {
        lemma_no_collision(articles@, plan.sources@);
    }
    Ok(plan)
}

/// Two sorted sources with equal slugs witness a label collision among the
/// articles themselves.
proof fn lemma_collision_from_sources(
    articles: Seq<Article>,
    sources: Seq<String>,
    i: int,
    j: int,
)
    requires
        0 <= i < j < sources.len(),
        sorted_distinct(views_of(sources)),
        forall|y: Seq<char>| views_of(sources).contains(y) <==> sources_of(articles).contains(y),
        slug_spec(sources[i]@) == slug_spec(sources[j]@),
    ensures
        label_collision(articles),
{
    let vs = views_of(sources);
    assert(vs[i] == sources[i]@);
    assert(vs[j] == sources[j]@);
    assert(lex_lt(vs[i], vs[j]));
    assert(vs[i] != vs[j]) by {
        if vs[i] == vs[j] {
            crate::text::lemma_lex_irrefl(vs[i]);
        }
    }
    assert(vs.contains(vs[i]));
    assert(vs.contains(vs[j]));
    let a = choose|a: int| 0 <= a < articles.len() && sources_of(articles)[a] == vs[i];
    let b = choose|b: int| 0 <= b < articles.len() && sources_of(articles)[b] == vs[j];
    assert(sources_of(articles).contains(vs[i]));
    assert(sources_of(articles).contains(vs[j]));
    assert(articles[a].source@ == vs[i]);
    assert(articles[b].source@ == vs[j]);
}

/// The packaging container being assembled. epub_builder's zip-backend trait
/// is private, so the builder is held opaquely; its state is spoken of
/// through [`container_meta`], [`container_pages`] and [`container_images`].
#[verifier::external_body]
pub struct EpubContainer {
    builder: epub_builder::EpubBuilder<epub_builder::ZipLibrary>,
}

/// The metadata entries set in the container so far, in order.
pub uninterp spec fn container_meta(c: EpubContainer) -> Seq<(Seq<char>, Seq<char>)>;

/// The pages added to the container so far, in order: filename, title, body,
/// and whether the page was added as the master table of contents.
pub uninterp spec fn container_pages(c: EpubContainer) -> Seq<
    (Seq<char>, Seq<char>, Seq<char>, bool),
>;

/// The image resources added to the container so far, in order: filename,
/// bytes, media type.
pub uninterp spec fn container_images(c: EpubContainer) -> Seq<(Seq<char>, Seq<u8>, Seq<char>)>;

/// Whether `bytes` is a package epub_builder serialized from exactly this
/// metadata, these pages and these image resources. The serialization also
/// embeds the moment of generation, so several byte strings answer to one
/// content; the relation holds of every one of them.
pub uninterp spec fn epub_serialization(
    meta: Seq<(Seq<char>, Seq<char>)>,
    pages: Seq<(Seq<char>, Seq<char>, Seq<char>, bool)>,
    images: Seq<(Seq<char>, Seq<u8>, Seq<char>)>,
    bytes: Seq<u8>,
) -> bool;

/// Relies on epub_builder::EpubBuilder::new with a ZipLibrary backend: a
/// fresh container with nothing set and nothing added.
#[verifier::external_body]
fn container_new() -> (r: Result<EpubContainer, String>)
    ensures
        r matches Ok(c) ==> {
            &&& container_meta(c) == Seq::<(Seq<char>, Seq<char>)>::empty()
            &&& container_pages(c) == Seq::<(Seq<char>, Seq<char>, Seq<char>, bool)>::empty()
            &&& container_images(c) == Seq::<(Seq<char>, Seq<u8>, Seq<char>)>::empty()
        },
{
    let zip = epub_builder::ZipLibrary::new().map_err(|e| e.to_string())?;
    let builder = epub_builder::EpubBuilder::new(zip).map_err(|e| e.to_string())?;
    Ok(EpubContainer { builder })
}

/// Relies on epub_builder::EpubBuilder::metadata: sets one metadata key.
#[verifier::external_body]
fn container_metadata(c: &mut EpubContainer, key: &str, value: &str) -> (r: Result<(), String>)
    ensures
        r matches Ok(_) ==> {
            &&& container_meta(*final(c)) == container_meta(*old(c)).push((key@, value@))
            &&& container_pages(*final(c)) == container_pages(*old(c))
            &&& container_images(*final(c)) == container_images(*old(c))
        },
{
    c.builder.metadata(key, value).map(|_| ()).map_err(|e| e.to_string())
}

/// Relies on epub_builder::EpubBuilder::add_content (with EpubContent::new
/// and title): appends one ordinary page under the given path.
#[verifier::external_body]
fn container_add_page(c: &mut EpubContainer, filename: &str, title: &str, body: &str) -> (r: Result<
    (),
    String,
>)
    ensures
        r matches Ok(_) ==> {
            &&& container_pages(*final(c)) == container_pages(*old(c)).push(
                (filename@, title@, body@, false),
            )
            &&& container_meta(*final(c)) == container_meta(*old(c))
            &&& container_images(*final(c)) == container_images(*old(c))
        },
{
    let content = epub_builder::EpubContent::new(filename, body.as_bytes()).title(title);
    c.builder.add_content(content).map(|_| ()).map_err(|e| e.to_string())
}

/// Relies on epub_builder::EpubBuilder::add_content with ReferenceType::Toc:
/// appends the master table-of-contents page.
#[verifier::external_body]
fn container_add_toc_page(c: &mut EpubContainer, filename: &str, title: &str, body: &str) -> (r:
    Result<(), String>)
    ensures
        r matches Ok(_) ==> {
            &&& container_pages(*final(c)) == container_pages(*old(c)).push(
                (filename@, title@, body@, true),
            )
            &&& container_meta(*final(c)) == container_meta(*old(c))
            &&& container_images(*final(c)) == container_images(*old(c))
        },
{
    let content = epub_builder::EpubContent::new(filename, body.as_bytes()).title(title).reftype(
        epub_builder::ReferenceType::Toc,
    );
    c.builder.add_content(content).map(|_| ()).map_err(|e| e.to_string())
}

/// Relies on epub_builder::EpubBuilder::add_resource: embeds one image asset
/// under its filename with its media type.
#[verifier::external_body]
fn container_add_image(c: &mut EpubContainer, filename: &str, data: &[u8], mime: &str) -> (r:
    Result<(), String>)
    ensures
        r matches Ok(_) ==> {
            &&& container_images(*final(c)) == container_images(*old(c)).push(
                (filename@, data@, mime@),
            )
            &&& container_meta(*final(c)) == container_meta(*old(c))
            &&& container_pages(*final(c)) == container_pages(*old(c))
        },
{
    c.builder.add_resource(filename, data, mime).map(|_| ()).map_err(|e| e.to_string())
}

/// Relies on epub_builder::EpubBuilder::generate: serializes the whole
/// container into one byte buffer holding exactly what was set and added.
#[verifier::external_body]
fn container_generate(c: EpubContainer) -> (r: Result<Vec<u8>, String>)
    ensures
        r matches Ok(b) ==> epub_serialization(
            container_meta(c),
            container_pages(c),
            container_images(c),
            b@,
        ),
{
    let mut buffer = Vec::new();
    c.builder.generate(&mut buffer).map_err(|e| e.to_string())?;
    Ok(buffer)
}

/// The page tuple a page is added as.
pub open spec fn page_tuple(p: Page, toc: bool) -> (Seq<char>, Seq<char>, Seq<char>, bool) {
    (p.filename@, p.title@, p.body@, toc)
}

/// The package metadata of a run whose title was generated at second `secs`.
pub open spec fn meta_spec(secs: int) -> Seq<(Seq<char>, Seq<char>)> {
    seq![("author"@, "RPub RSS Aggregator"@), ("title"@, digest_title_spec(secs))]
}

/// The page tuples of a plan: the master TOC first, flagged as such, then
/// the per-source TOCs in sorted label order, then the chapters in input
/// order.
pub open spec fn pages_of_plan(plan: DocumentPlan) -> Seq<(Seq<char>, Seq<char>, Seq<char>, bool)> {
    seq![page_tuple(plan.master, true)] + plan.source_tocs@.map_values(
        |p: Page| page_tuple(p, false),
    ) + plan.chapters@.map_values(|p: Page| page_tuple(p, false))
}

/// The resource tuples of the given assets, in order.
pub open spec fn images_view(images: Seq<ImageAsset>) -> Seq<(Seq<char>, Seq<u8>, Seq<char>)> {
    images.map_values(|a: ImageAsset| (a.filename@, a.data@, a.mime@))
}

/// `bytes` is a serialization of a complete package for `articles` and
/// `images`: the fixed metadata (with the title of some generation second),
/// the planned master TOC, per-source TOCs and chapters of a plan the
/// articles admit, and exactly the given image resources. Since a plan's
/// pages are determined by the articles (sorted distinct sources), this pins
/// the package content.
pub open spec fn packaged_ok(
    articles: Seq<Article>,
    images: Seq<ImageAsset>,
    bytes: Seq<u8>,
) -> bool {
    exists|chosen: DocumentPlan, secs: int|
        plan_ok(chosen, articles) && #[trigger] epub_serialization(
            meta_spec(secs),
            pages_of_plan(chosen),
            images_view(images),
            bytes,
        )
}

/// Assembles the packaged document: plans every page deterministically, then
/// writes the metadata, the master TOC, each source's TOC in sorted label
/// order, each chapter in input order, and every image asset into one
/// container, and serializes it. On success the bytes are a serialization of
/// exactly that content. Any container failure aborts the whole generation;
/// nothing partial is returned. Fails with a slug collision exactly when two
/// distinct source labels slug identically.
#[verifier::rlimit(60)]
#[verifier::spinoff_prover]
pub fn generate_epub_data(articles: &Vec<Article>, images: &Vec<ImageAsset>) -> (r: Result<
    Vec<u8>,
    AssemblyError,
>)
    ensures
        label_collision(articles@) <==> r matches Err(AssemblyError::SlugCollision(_)),
        r matches Ok(b) ==> packaged_ok(articles@, images@, b@),
{
    let plan = match plan_document(articles) {
        Ok(p) => p,
        Err(e) => {
            return Err(e);
        },
    };
    let ghost toc_pages = plan.source_tocs@.map_values(|p: Page| page_tuple(p, false));
    let ghost chapter_pages = plan.chapters@.map_values(|p: Page| page_tuple(p, false));
    let mut container = match container_new() {
        Ok(c) => c,
        Err(m) => {
            return Err(AssemblyError::Container(m));
        },
    };
    let author = digest_author();
    if let Err(m) = container_metadata(&mut container, "author", author.as_str()) {
        return Err(AssemblyError::Container(m));
    }
    let now = now_secs();
    let title = digest_title(now);
    if let Err(m) = container_metadata(&mut container, "title", title.as_str()) {
        return Err(AssemblyError::Container(m));
    }
    proof {
        assert(container_meta(container) =~= meta_spec(now as int));
    }
    if let Err(m) = container_add_toc_page(
        &mut container,
        plan.master.filename.as_str(),
        plan.master.title.as_str(),
        plan.master.body.as_str(),
    ) {
        return Err(AssemblyError::Container(m));
    }
    proof {
        assert(container_pages(container) =~= seq![page_tuple(plan.master, true)] + toc_pages.take(
            0,
        ));
    }
    let mut k: usize = 0;
    while k < plan.source_tocs.len()
        invariant
            !label_collision(articles@),
            plan_ok(plan, articles@),
            k <= plan.source_tocs@.len(),
            toc_pages == plan.source_tocs@.map_values(|p: Page| page_tuple(p, false)),
            container_meta(container) == meta_spec(now as int),
            container_images(container) == Seq::<(Seq<char>, Seq<u8>, Seq<char>)>::empty(),
            container_pages(container) == seq![page_tuple(plan.master, true)] + toc_pages.take(
                k as int,
            ),
        decreases plan.source_tocs@.len() - k,
    {
        let page = &plan.source_tocs[k];
        if let Err(m) = container_add_page(
            &mut container,
            page.filename.as_str(),
            page.title.as_str(),
            page.body.as_str(),
        ) {
            return Err(AssemblyError::Container(m));
        }
        proof {
            assert(toc_pages.take(k as int + 1).drop_last() =~= toc_pages.take(k as int));
            assert(toc_pages[k as int] == page_tuple(plan.source_tocs@[k as int], false));
            assert(container_pages(container) =~= seq![page_tuple(plan.master, true)]
                + toc_pages.take(k as int + 1));
        }
        k += 1;
    }
    proof {
        assert(toc_pages.take(plan.source_tocs@.len() as int) =~= toc_pages);
    }
    let mut k2: usize = 0;
    while k2 < plan.chapters.len()
        invariant
            !label_collision(articles@),
            plan_ok(plan, articles@),
            k2 <= plan.chapters@.len(),
            toc_pages == plan.source_tocs@.map_values(|p: Page| page_tuple(p, false)),
            chapter_pages == plan.chapters@.map_values(|p: Page| page_tuple(p, false)),
            container_meta(container) == meta_spec(now as int),
            container_images(container) == Seq::<(Seq<char>, Seq<u8>, Seq<char>)>::empty(),
            container_pages(container) == seq![page_tuple(plan.master, true)] + toc_pages
                + chapter_pages.take(k2 as int),
        decreases plan.chapters@.len() - k2,
    {
        let page = &plan.chapters[k2];
        if let Err(m) = container_add_page(
            &mut container,
            page.filename.as_str(),
            page.title.as_str(),
            page.body.as_str(),
        ) {
            return Err(AssemblyError::Container(m));
        }
        proof {
            assert(chapter_pages.take(k2 as int + 1).drop_last() =~= chapter_pages.take(
                k2 as int,
            ));
            assert(chapter_pages[k2 as int] == page_tuple(plan.chapters@[k2 as int], false));
            assert(container_pages(container) =~= seq![page_tuple(plan.master, true)] + toc_pages
                + chapter_pages.take(k2 as int + 1));
        }
        k2 += 1;
    }
    proof {
        assert(chapter_pages.take(plan.chapters@.len() as int) =~= chapter_pages);
        assert(container_pages(container) =~= pages_of_plan(plan));
    }
    let mut k3: usize = 0;
    while k3 < images.len()
        invariant
            !label_collision(articles@),
            plan_ok(plan, articles@),
            k3 <= images@.len(),
            container_meta(container) == meta_spec(now as int),
            container_pages(container) == pages_of_plan(plan),
            container_images(container) == images_view(images@.take(k3 as int)),
        decreases images@.len() - k3,
    {
        let asset = &images[k3];
        if let Err(m) = container_add_image(
            &mut container,
            asset.filename.as_str(),
            asset.data.as_slice(),
            asset.mime.as_str(),
        ) {
            return Err(AssemblyError::Container(m));
        }
        proof {
            assert(images_view(images@.take(k3 as int + 1)).drop_last() =~= images_view(
                images@.take(k3 as int),
            ));
            assert(images_view(images@.take(k3 as int + 1)).last() == (
                images@[k3 as int].filename@,
                images@[k3 as int].data@,
                images@[k3 as int].mime@,
            ));
            assert(container_images(container) =~= images_view(images@.take(k3 as int + 1)));
        }
        k3 += 1;
    }
    proof {
        assert(images_view(images@.take(images@.len() as int)) =~= images_view(images@));
    }
    let bytes = match container_generate(container) {
        Ok(b) => b,
        Err(m) => {
            return Err(AssemblyError::Container(m));
        },
    };
    proof {
        assert(packaged_ok(articles@, images@, bytes@)) by {
            assert(plan_ok(plan, articles@) && epub_serialization(
                meta_spec(now as int),
                pages_of_plan(plan),
                images_view(images@),
                bytes@,
            ));
        }
    }
    Ok(bytes)
}

/// When every pair of distinct sorted sources has distinct slugs, no label
/// collision exists among the articles.
proof fn lemma_no_collision(articles: Seq<Article>, sources: Seq<String>)
    requires
        sorted_distinct(views_of(sources)),
        forall|y: Seq<char>| views_of(sources).contains(y) <==> sources_of(articles).contains(y),
        forall|a: int, b: int|
            0 <= a < b < sources.len() ==> slug_spec(sources[a]@) != slug_spec(sources[b]@),
    ensures
        !label_collision(articles),
{
    let vs = views_of(sources);
    assert forall|i: int, j: int|
        0 <= i < articles.len() && 0 <= j < articles.len() && articles[i].source@
            != articles[j].source@ implies slug_spec(articles[i].source@) != slug_spec(
        articles[j].source@,
    ) by {
        assert(sources_of(articles)[i] == articles[i].source@);
        assert(sources_of(articles)[j] == articles[j].source@);
        assert(sources_of(articles).contains(articles[i].source@));
        assert(sources_of(articles).contains(articles[j].source@));
        assert(vs.contains(articles[i].source@));
        assert(vs.contains(articles[j].source@));
        let a = choose|a: int| 0 <= a < vs.len() && vs[a] == articles[i].source@;
        let b = choose|b: int| 0 <= b < vs.len() && vs[b] == articles[j].source@;
        assert(a != b);
        if a < b {
            assert(slug_spec(sources[a]@) != slug_spec(sources[b]@));
        } else {
            assert(slug_spec(sources[b]@) != slug_spec(sources[a]@));
        }
    }
}

} // verus!
