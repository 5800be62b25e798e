//! The extraction strategies: the readability-based Default, DomSmoothie and
//! TextOnly variants, the selector-driven Custom extractor with its drain
//! loop, and the construction of a strategy from a processor record.
use vstd::prelude::*;

use crate::models::ConfigError;
use crate::models::ContentProcessor;
use crate::models::CustomExtractorConfig;
use crate::models::ExtractionError;
use crate::models::OutputMode;
use crate::models::ProcessorType;
use crate::registry::opt_value;
use crate::registry::resolve_processor;
use crate::registry::resolve_spec;
use crate::registry::Registry;
use crate::text::find_from;
use crate::text::first_at;
use crate::text::join_spec;
use crate::text::join_strings;
use crate::text::lemma_first_at_props;
use crate::text::str_eq;
use crate::text::views_of;

verus! {

#[verifier::external_type_specification]
#[verifier::external_body]
pub struct ExDocument(dom_query::Document);

/// The content of a parsed document, represented by its serialized HTML.
pub uninterp spec fn doc_html(d: dom_query::Document) -> Seq<char>;

/// What parsing `html` and serializing the tree again yields.
pub uninterp spec fn parse_norm(html: Seq<char>) -> Seq<char>;

/// How many elements of the document match the selector; zero also when the
/// selector text is invalid.
pub uninterp spec fn sel_count(doc: Seq<char>, sel: Seq<char>) -> nat;

/// The serialized markup of each matching element, in document order.
pub uninterp spec fn sel_htmls(doc: Seq<char>, sel: Seq<char>) -> Seq<Seq<char>>;

/// The combined text content of the matching elements.
pub uninterp spec fn sel_text(doc: Seq<char>, sel: Seq<char>) -> Seq<char>;

/// The text content of the first matching element.
pub uninterp spec fn sel_first_text(doc: Seq<char>, sel: Seq<char>) -> Seq<char>;

/// The document after removing every matching element.
pub uninterp spec fn remove_sel(doc: Seq<char>, sel: Seq<char>) -> Seq<char>;

/// How many nodes the document's tree holds.
pub uninterp spec fn node_count(doc: Seq<char>) -> nat;

/// A selector that is one plain element name. Removing every element of a
/// tag cannot create elements of that tag, so such a removal leaves no
/// match; a general selector (`:nth-child` and the like) has no such
/// guarantee.
pub open spec fn type_selector(sel: Seq<char>) -> bool {
    sel.len() > 0 && forall|i: int| 0 <= i < sel.len() ==> crate::text::is_ascii_alnum(sel[i])
}

/// Relies on dom_query::Document::from: parses `html` into a document.
#[verifier::external_body]
fn doc_from(html: &str) -> (d: dom_query::Document)
    ensures
        doc_html(d) == parse_norm(html@),
{
    dom_query::Document::from(html)
}

/// Relies on dom_query::Document::html: serializes the document.
#[verifier::external_body]
fn doc_html_out(d: &dom_query::Document) -> (r: String)
    ensures
        r@ == doc_html(*d),
{
    d.html().to_string()
}

/// Relies on dom_query::Document::try_select and Selection::html per matched
/// node: the serialized markup of each matching element, `None` exactly when
/// nothing matches (or the selector text is invalid).
#[verifier::external_body]
fn doc_select_htmls(d: &dom_query::Document, sel: &str) -> (r: Option<Vec<String>>)
    ensures
        match r {
            Some(v) => sel_count(doc_html(*d), sel@) > 0 && views_of(v@) == sel_htmls(
                doc_html(*d),
                sel@,
            ) && v@.len() > 0,
            None => sel_count(doc_html(*d), sel@) == 0,
        },
{
    d.try_select(sel).map(|s| s.nodes().iter().map(|n| n.html().to_string()).collect())
}

/// Relies on dom_query::Document::try_select and Selection::text: the
/// combined text of the matching elements, `None` exactly when nothing
/// matches (or the selector text is invalid).
#[verifier::external_body]
fn doc_select_text(d: &dom_query::Document, sel: &str) -> (r: Option<String>)
    ensures
        match r {
            Some(t) => sel_count(doc_html(*d), sel@) > 0 && t@ == sel_text(doc_html(*d), sel@),
            None => sel_count(doc_html(*d), sel@) == 0,
        },
{
    d.try_select(sel).map(|s| s.text().to_string())
}

/// Relies on dom_query::Document::try_select and the text of the first
/// matched node: the text content of the first matching element, `None`
/// exactly when nothing matches (or the selector text is invalid).
#[verifier::external_body]
fn doc_select_first_text(d: &dom_query::Document, sel: &str) -> (r: Option<String>)
    ensures
        match r {
            Some(t) => sel_count(doc_html(*d), sel@) > 0 && t@ == sel_first_text(
                doc_html(*d),
                sel@,
            ),
            None => sel_count(doc_html(*d), sel@) == 0,
        },
{
    d.try_select(sel).map(|s| s.nodes().first().map(|n| n.text().to_string()).unwrap_or_default())
}

/// Relies on dom_query::Document::try_select and Selection::remove: removes
/// every matching element. When something matched, at least one tree node is
/// gone afterwards, so the node count strictly shrinks; and when the
/// selector is one plain element name, no element of that name is left.
#[verifier::external_body]
fn doc_remove(d: &mut dom_query::Document, sel: &str)
    ensures
        doc_html(*final(d)) == remove_sel(doc_html(*old(d)), sel@),
        sel_count(doc_html(*old(d)), sel@) > 0 ==> node_count(doc_html(*final(d))) < node_count(
            doc_html(*old(d)),
        ),
        type_selector(sel@) ==> sel_count(doc_html(*final(d)), sel@) == 0,
{
    if let Some(s) = d.try_select(sel) {
        s.remove()
    }
}

/// Relies on dom_smoothie::Readability (construction and parse), configured
/// for Markdown text output; `alt` selects the DomSmoothie candidate
/// heuristic instead of the classic one. The outcome carries no name and no
/// claim: dom_smoothie scores candidates in per-process-seeded hash maps, so
/// the result is not shown to be a function of the arguments alone. What the
/// library does with each possible outcome is stated, exactly, at
/// `tag_extraction` and `strip_extraction`.
#[verifier::external_body]
fn readability_extract(html: &str, url: &str, alt: bool) -> Result<(String, String), String> {
    let cfg = dom_smoothie::Config {
        text_mode: dom_smoothie::TextMode::Markdown,
        candidate_select_mode: if alt {
            dom_smoothie::CandidateSelectMode::DomSmoothie
        } else {
            dom_smoothie::CandidateSelectMode::Readability
        },
        ..Default::default()
    };
    let mut readability = dom_smoothie::Readability::new(html, Some(url), Some(cfg)).map_err(
        |e| format!("{:?}", e),
    )?;
    let extracted = readability.parse().map_err(|e| format!("{:?}", e))?;
    Ok((extracted.title, extracted.content.to_string()))
}

/// Strips every image element from `content`: the document is parsed, all
/// `img` elements are removed, and the tree is serialized again; the result
/// matches no `img` selector.
pub fn strip_images(content: &str) -> (r: String)
    ensures
        r@ == remove_sel(parse_norm(content@), "img"@),
        sel_count(r@, "img"@) == 0,
{
    proof {
        reveal_strlit("img");
        assert(type_selector("img"@)) by {
            assert("img"@[0] == 'i' && "img"@[1] == 'm' && "img"@[2] == 'g');
        }
    }
    let mut doc = doc_from(content);
    doc_remove(&mut doc, "img");
    doc_html_out(&doc)
}

/// The key/value parts of one configuration line, split at the first
/// colon-space.
pub open spec fn parse_line_spec(line: Seq<char>) -> Option<(Seq<char>, Seq<char>)> {
    match first_at(line, ": "@, 0) {
        Some(i) => if 0 <= i && i + 2 <= line.len() {
            Some((line.subrange(0, i), line.subrange(i + 2, line.len() as int)))
        } else {
            None
        },
        None => None,
    }
}

/// A bracketed, comma-space-separated list value: `[a, b]`; `[]` is empty.
pub open spec fn parse_list_spec(v: Seq<char>) -> Option<Seq<Seq<char>>> {
    if v.len() >= 2 && v[0] == '[' && v[v.len() - 1] == ']' {
        let inner = v.subrange(1, v.len() - 1);
        if inner.len() == 0 {
            Some(Seq::empty())
        } else {
            Some(crate::text::split_by_spec(inner, ", "@, 0))
        }
    } else {
        None
    }
}

/// The parser state while the lines of a configuration text are read: the
/// fields seen so far, or `None` once a line was malformed.
pub type ConfigState = Option<(Option<Seq<Seq<char>>>, Option<Seq<Seq<char>>>, Option<OutputMode>)>;

/// One configuration line applied to the parser state. An empty line changes
/// nothing; a later binding of a key replaces an earlier one; an unknown key
/// or an unreadable value poisons the state.
pub open spec fn apply_line_spec(st: ConfigState, line: Seq<char>) -> ConfigState {
    match st {
        None => None,
        Some((sel, dis, mode)) => {
            if line.len() == 0 {
                st
            } else {
                match parse_line_spec(line) {
                    None => None,
                    Some((k, v)) => {
                        if k == "selector"@ {
                            match parse_list_spec(v) {
                                Some(l) => Some((Some(l), dis, mode)),
                                None => None,
                            }
                        } else if k == "discard"@ {
                            match parse_list_spec(v) {
                                Some(l) => Some((sel, Some(l), mode)),
                                None => None,
                            }
                        } else if k == "output_mode"@ {
                            if v == "html"@ {
                                Some((sel, dis, Some(OutputMode::Html)))
                            } else if v == "text"@ {
                                Some((sel, dis, Some(OutputMode::Text)))
                            } else {
                                None
                            }
                        } else {
                            None
                        }
                    },
                }
            }
        },
    }
}

/// The lines folded into the parser state, first line first.
pub open spec fn fold_lines_spec(lines: Seq<Seq<char>>, st: ConfigState) -> ConfigState
    decreases lines.len(),
{
    if lines.len() == 0 {
        st
    } else {
        apply_line_spec(fold_lines_spec(lines.drop_last(), st), lines.last())
    }
}

/// What parsing a whole configuration text yields: the selector list, the
/// discard list and the output mode, each of which the text must bind; or
/// nothing, when the text is malformed.
pub open spec fn parse_config_spec(s: Seq<char>) -> Option<
    (Seq<Seq<char>>, Seq<Seq<char>>, OutputMode),
> {
    match fold_lines_spec(
        crate::text::split_by_spec(s, "\n"@, 0),
        Some((None, None, None)),
    ) {
        Some((Some(sel), Some(dis), Some(mode))) => Some((sel, dis, mode)),
        _ => None,
    }
}

/// A poisoned parser state never recovers.
proof fn lemma_fold_poisoned(lines: Seq<Seq<char>>, k: int)
    requires
        0 <= k <= lines.len(),
        fold_lines_spec(lines.take(k), Some((None, None, None))) is None,
    ensures
        fold_lines_spec(lines, Some((None, None, None))) is None,
    decreases lines.len() - k,
{
    if k == lines.len() {
        assert(lines.take(k) =~= lines);
    } else {
        assert(lines.take(k + 1).drop_last() =~= lines.take(k));
        assert(lines.take(k + 1).last() == lines[k]);
        lemma_fold_poisoned(lines, k + 1);
    }
}

/// Parses a bracketed list value.
fn parse_list(v: &str) -> (r: Option<Vec<String>>)
    ensures
        match r {
            Some(items) => parse_list_spec(v@) == Some(views_of(items@)),
            None => parse_list_spec(v@) is None,
        },
{
    let n = v.unicode_len();
    if n < 2 || v.get_char(0) != '[' || v.get_char(n - 1) != ']' {
        return None;
    }
    proof {
        reveal_strlit(", ");
    }
    let inner = v.substring_char(1, n - 1);
    if inner.unicode_len() == 0 {
        let items: Vec<String> = Vec::new();
        proof {
            assert(views_of(items@) =~= Seq::<Seq<char>>::empty());
        }
        Some(items)
    } else {
        Some(crate::text::split_by(inner, ", "))
    }
}

/// Parses a configuration text. The accepted format is line-based: one
/// `key: value` binding per line, the keys being `selector` and `discard`
/// (bracketed, comma-space-separated selector lists) and `output_mode`
/// (`html` or `text`); empty lines are ignored; all three keys must be
/// bound. This is the whole grammar: a text in any other spelling is
/// rejected as malformed.
pub fn parse_config(s: &str) -> (r: Result<CustomExtractorConfig, ConfigError>)
    ensures
        match r {
            Ok(cfg) => parse_config_spec(s@) == Some(
                (views_of(cfg.selector@), views_of(cfg.discard@), cfg.output_mode),
            ),
            Err(e) => e == ConfigError::MalformedConfig && parse_config_spec(s@) is None,
        },
{
    proof {
        reveal_strlit("\n");
        reveal_strlit(": ");
    }
    let lines = crate::text::split_by(s, "\n");
    let ghost lviews = views_of(lines@);
    let mut sel: Option<Vec<String>> = None;
    let mut dis: Option<Vec<String>> = None;
    let mut mode: Option<OutputMode> = None;
    let mut k: usize = 0;
    proof {
        assert(lviews.take(0) =~= Seq::<Seq<char>>::empty());
    }
    while k < lines.len()
        invariant
            k <= lines@.len(),
            lviews == views_of(lines@),
            lviews == crate::text::split_by_spec(s@, "\n"@, 0),
            fold_lines_spec(lviews.take(k as int), Some((None, None, None))) == Some(
                (
                    match sel {
                        Some(ref v) => Some(views_of(v@)),
                        None => None,
                    },
                    match dis {
                        Some(ref v) => Some(views_of(v@)),
                        None => None,
                    },
                    mode,
                ),
            ),
        decreases lines@.len() - k,
    {
        proof {
            reveal_strlit("\n");
            reveal_strlit(": ");
            assert(lviews.take(k as int + 1).drop_last() =~= lviews.take(k as int));
            assert(lviews.take(k as int + 1).last() == lines@[k as int]@);
        }
        let line = &lines[k];
        if line.as_str().unicode_len() > 0 {
            match find_from(line.as_str(), 0, ": ") {
                None => {
                    proof {
                        lemma_fold_poisoned(lviews, k as int + 1);
                    }
                    return Err(ConfigError::MalformedConfig);
                },
                Some(i) => {
                    proof {
                        lemma_first_at_props(line@, ": "@, 0);
                        assert(i + 2 <= line@.len());
                    }
                    let n = line.as_str().unicode_len();
                    let key = line.as_str().substring_char(0, i);
                    let value = line.as_str().substring_char(i + 2, n);
                    if str_eq(key, "selector") {
                        match parse_list(value) {
                            Some(items) => {
                                sel = Some(items);
                            },
                            None => {
                                proof {
                                    lemma_fold_poisoned(lviews, k as int + 1);
                                }
                                return Err(ConfigError::MalformedConfig);
                            },
                        }
                    } else if str_eq(key, "discard") {
                        match parse_list(value) {
                            Some(items) => {
                                dis = Some(items);
                            },
                            None => {
                                proof {
                                    lemma_fold_poisoned(lviews, k as int + 1);
                                }
                                return Err(ConfigError::MalformedConfig);
                            },
                        }
                    } else if str_eq(key, "output_mode") {
                        if str_eq(value, "html") {
                            mode = Some(OutputMode::Html);
                        } else if str_eq(value, "text") {
                            mode = Some(OutputMode::Text);
                        } else {
                            proof {
                                lemma_fold_poisoned(lviews, k as int + 1);
                            }
                            return Err(ConfigError::MalformedConfig);
                        }
                    } else {
                        proof {
                            lemma_fold_poisoned(lviews, k as int + 1);
                        }
                        return Err(ConfigError::MalformedConfig);
                    }
                },
            }
        }
        k += 1;
    }
    proof {
        assert(lviews.take(k as int) =~= lviews);
    }
    match (sel, dis, mode) {
        (Some(selector), Some(discard), Some(output_mode)) => Ok(
            CustomExtractorConfig { selector, discard, output_mode },
        ),
        _ => Err(ConfigError::MalformedConfig),
    }
}

/// Maps one boilerplate-removal outcome, tagging any failure with the
/// strategy kind that produced it; a successful value passes through
/// unchanged. The removal itself decides success, so this function states
/// what is returned for each value it can hand over.
pub fn tag_extraction(kind: ProcessorType, outcome: Result<(String, String), String>) -> (r:
    Result<(String, String), ExtractionError>)
    ensures
        match outcome {
            Ok(v) => r matches Ok(w) && w == v,
            Err(m) => r matches Err(e) && e.kind == kind && e.message == m,
        },
{
    match outcome {
        Ok(v) => Ok(v),
        Err(message) => Err(ExtractionError { kind, message }),
    }
}

/// What the TextOnly strategy does with one boilerplate-removal outcome: on
/// success the title passes through and every image element is stripped from
/// the content; a failure is tagged with the TextOnly kind.
pub fn strip_extraction(outcome: Result<(String, String), String>) -> (r: Result<
    (String, String),
    ExtractionError,
>)
    ensures
        match outcome {
            Ok(v) => r matches Ok(w) && w.0 == v.0 && w.1@ == remove_sel(parse_norm(v.1@), "img"@)
                && sel_count(w.1@, "img"@) == 0,
            Err(m) => r matches Err(e) && e.kind == ProcessorType::TextOnly && e.message == m,
        },
{
    match outcome {
        Ok((title, content)) => {
            let stripped = strip_images(content.as_str());
            Ok((title, stripped))
        },
        Err(message) => Err(ExtractionError { kind: ProcessorType::TextOnly, message }),
    }
}

/// The readability-based extraction with the classic candidate heuristic.
pub struct DefaultExtractor;

/// The readability-based extraction with the DomSmoothie candidate
/// heuristic.
pub struct DomSmoothieExtractor;

/// Readability-based extraction followed by removal of every image element.
pub struct TextOnlyExtractor;

/// Selector-driven extraction, configured by a [`CustomExtractorConfig`].
pub struct CustomExtractor {
    pub config: CustomExtractorConfig,
}

impl DefaultExtractor {
    /// Boilerplate removal with the classic heuristic. The removal is an
    /// externally supplied black box; its outcome is handed, unchanged,
    /// through `tag_extraction`, so a failure is tagged with the Default
    /// strategy kind and a success is the removal's own (title, content).
    pub fn extract(&self, html: &str, url: &str) -> (r: Result<(String, String), ExtractionError>)
        ensures
            r matches Err(e) ==> e.kind == ProcessorType::Default,
    {
        tag_extraction(ProcessorType::Default, readability_extract(html, url, false))
    }
}

impl DomSmoothieExtractor {
    /// Boilerplate removal with the DomSmoothie heuristic; the outcome is
    /// handed, unchanged, through `tag_extraction`, so a failure is tagged
    /// with the DomSmoothie strategy kind and a success is the removal's own
    /// (title, content).
    pub fn extract(&self, html: &str, url: &str) -> (r: Result<(String, String), ExtractionError>)
        ensures
            r matches Err(e) ==> e.kind == ProcessorType::DomSmoothie,
    {
        tag_extraction(ProcessorType::DomSmoothie, readability_extract(html, url, true))
    }
}

impl TextOnlyExtractor {
    /// Boilerplate removal, then every image element is stripped from the
    /// returned content by `strip_extraction`: a success is the removal's
    /// title with its content image-stripped — matching no `img` selector —
    /// and a failure is tagged with the TextOnly strategy kind.
    pub fn extract(&self, html: &str, url: &str) -> (r: Result<(String, String), ExtractionError>)
        ensures
            r matches Err(e) ==> e.kind == ProcessorType::TextOnly,
            r matches Ok(v) ==> sel_count(v.1@, "img"@) == 0 && exists|c: Seq<char>|
                v.1@ == remove_sel(parse_norm(c), "img"@),
    {
        strip_extraction(readability_extract(html, url, true))
    }
}

/// The extracted title of a custom extraction: the text of the document's
/// first `title` element, or the fixed fallback when none exists.
pub open spec fn custom_title_spec(html: Seq<char>) -> Seq<char> {
    if sel_count(parse_norm(html), "title"@) > 0 {
        sel_first_text(parse_norm(html), "title"@)
    } else {
        "Untitled"@
    }
}

/// A complete drain of a document by a selector: each step removes every
/// element the selector matches, and the chain ends when nothing matches.
/// Since each document determines the next, the chain — and with it the
/// drained output — is determined by its first document.
pub open spec fn drain_chain(docs: Seq<Seq<char>>, sel: Seq<char>) -> bool {
    &&& docs.len() >= 1
    &&& forall|i: int|
        0 <= i < docs.len() - 1 ==> sel_count(#[trigger] docs[i], sel) > 0 && docs[i + 1]
            == remove_sel(docs[i], sel)
    &&& sel_count(docs.last(), sel) == 0
}

/// Each part with one space in front, concatenated.
pub open spec fn space_join(parts: Seq<Seq<char>>) -> Seq<char> {
    crate::assemble::cat(parts.map_values(|e: Seq<char>| " "@ + e))
}

/// What a drain chain accumulates. In Html mode, every round appends each
/// matched element's markup, space-separated; in Text mode each round
/// replaces the accumulator with the round's combined text, so only the last
/// matching round's text is kept — the behavior the selector-driven
/// extraction has always shown.
pub open spec fn drain_content(docs: Seq<Seq<char>>, sel: Seq<char>, mode: OutputMode) -> Seq<
    char,
>
    recommends
        docs.len() >= 1,
{
    if mode == OutputMode::Text {
        if docs.len() == 1 {
            Seq::empty()
        } else {
            sel_text(docs[docs.len() - 2], sel)
        }
    } else {
        crate::assemble::cat(
            Seq::new((docs.len() - 1) as nat, |i: int| space_join(sel_htmls(docs[i], sel))),
        )
    }
}

/// `content` is what draining `doc0` by `sel` yields.
pub open spec fn custom_content_ok(
    doc0: Seq<char>,
    sel: Seq<char>,
    mode: OutputMode,
    content: Seq<char>,
) -> bool {
    exists|docs: Seq<Seq<char>>|
        #[trigger] drain_chain(docs, sel) && docs[0] == doc0 && content == drain_content(
            docs,
            sel,
            mode,
        )
}

impl CustomExtractor {
    /// Constructs a custom extractor from its configuration text; fails when
    /// the text is malformed.
    pub fn new(config_text: &str) -> (r: Result<CustomExtractor, ConfigError>)
        ensures
            match r {
                Ok(ex) => parse_config_spec(config_text@) == Some(
                    (
                        views_of(ex.config.selector@),
                        views_of(ex.config.discard@),
                        ex.config.output_mode,
                    ),
                ),
                Err(e) => e == ConfigError::MalformedConfig && parse_config_spec(config_text@)
                    is None,
            },
    {
        match parse_config(config_text) {
            Ok(config) => Ok(CustomExtractor { config }),
            Err(e) => Err(e),
        }
    }

    /// Selector-driven extraction. The title comes from the document's
    /// first `title` element (or the fixed fallback). The content is drained: the
    /// discard selectors' matches are removed first; then, as long as the
    /// inclusion selectors match anything, the matched elements are
    /// accumulated and removed. This never fails.
    pub fn extract(&self, html: &str, url: &str) -> (r: Result<
        (String, String),
        ExtractionError,
    >)
        ensures
            r matches Ok(v) && v.0@ == custom_title_spec(html@) && custom_content_ok(
                remove_sel(parse_norm(html@), join_spec(views_of(self.config.discard@), ", "@)),
                join_spec(views_of(self.config.selector@), ", "@),
                self.config.output_mode,
                v.1@,
            ),
    {
        let _ = url;
        let title_doc = doc_from(html);
        let title = match doc_select_first_text(&title_doc, "title") {
            Some(t) => t,
            None => "Untitled".to_owned(),
        };
        let discard_sel = join_strings(&self.config.discard, ", ");
        let sel = join_strings(&self.config.selector, ", ");
        let mut doc = doc_from(html);
        doc_remove(&mut doc, discard_sel.as_str());
        let ghost doc0 = doc_html(doc);
        let ghost sel_v = sel@;
        let ghost mode = self.config.output_mode;
        let mut content = String::new();
        let ghost mut docs: Seq<Seq<char>> = seq![doc0];
        proof {
            assert(docs.last() == doc_html(doc));
            if mode != OutputMode::Text {
                assert(Seq::new((docs.len() - 1) as nat, |i: int| space_join(sel_htmls(docs[i], sel_v)))
                    =~= Seq::<Seq<char>>::empty());
                assert(content@ =~= drain_content(docs, sel_v, mode));
            }
        }
        let is_text = self.config.output_mode == OutputMode::Text;
        loop
            invariant
                is_text == (mode == OutputMode::Text),
                sel@ == sel_v,
                title@ == custom_title_spec(html@),
                doc0 == remove_sel(
                    parse_norm(html@),
                    join_spec(views_of(self.config.discard@), ", "@),
                ),
                sel_v == join_spec(views_of(self.config.selector@), ", "@),
                mode == self.config.output_mode,
                docs.len() >= 1,
                docs[0] == doc0,
                docs.last() == doc_html(doc),
                forall|i: int|
                    0 <= i < docs.len() - 1 ==> sel_count(#[trigger] docs[i], sel_v) > 0 && docs[i
                        + 1] == remove_sel(docs[i], sel_v),
                content@ == drain_content(docs, sel_v, mode),
            decreases node_count(doc_html(doc)),
        {
            if is_text {
                match doc_select_text(&doc, sel.as_str()) {
                    None => {
                        proof {
                            assert(drain_chain(docs, sel_v));
                        }
                        return Ok((title, content));
                    },
                    Some(t) => {
                        let ghost pre = doc_html(doc);
                        content = t;
                        doc_remove(&mut doc, sel.as_str());
                        proof {
                            docs = docs.push(doc_html(doc));
                            assert(docs[docs.len() - 2] == pre);
                            assert(forall|i: int|
                                0 <= i < docs.len() - 2 ==> docs[i] == docs.drop_last()[i]);
                        }
                    },
                }
            } else {
                match doc_select_htmls(&doc, sel.as_str()) {
                    None => {
                        proof {
                            assert(drain_chain(docs, sel_v));
                        }
                        return Ok((title, content));
                    },
                    Some(pieces) => {
                        let ghost docs_entry = docs;
                        let ghost pre = doc_html(doc);
                        let ghost content0 = content@;
                        let ghost mapped = views_of(pieces@).map_values(
                            |e: Seq<char>| " "@ + e,
                        );
                        let mut j: usize = 0;
                        proof {
                            assert(content@ + crate::assemble::cat(mapped.take(0)) =~= content@);
                        }
                        while j < pieces.len()
                            invariant
                                j <= pieces@.len(),
                                mapped == views_of(pieces@).map_values(|e: Seq<char>| " "@ + e),
                                content@ == content0 + crate::assemble::cat(mapped.take(j as int)),
                            decreases pieces@.len() - j,
                        {
                            let ghost c0 = content@;
                            content.append(" ");
                            content.append(pieces[j].as_str());
                            proof {
                                assert(mapped.take(j as int + 1).drop_last() =~= mapped.take(
                                    j as int,
                                ));
                                assert(mapped[j as int] == " "@ + pieces@[j as int]@);
                                assert(content@ =~= c0 + (" "@ + pieces@[j as int]@));
                                assert(content@ =~= content0 + crate::assemble::cat(
                                    mapped.take(j as int + 1),
                                ));
                            }
                            j += 1;
                        }
                        doc_remove(&mut doc, sel.as_str());
                        proof {
                            assert(mapped.take(pieces@.len() as int) =~= mapped);
                            docs = docs_entry.push(doc_html(doc));
                            let rounds = Seq::new(
                                (docs.len() - 1) as nat,
                                |i: int| space_join(sel_htmls(docs[i], sel_v)),
                            );
                            let rounds0 = Seq::new(
                                (docs_entry.len() - 1) as nat,
                                |i: int| space_join(sel_htmls(docs_entry[i], sel_v)),
                            );
                            assert(forall|i: int|
                                0 <= i < docs.len() - 1 ==> docs[i] == docs_entry[i]);
                            assert(rounds.drop_last() =~= rounds0);
                            assert(docs_entry.last() == pre);
                            assert(rounds.last() == space_join(sel_htmls(pre, sel_v)));
                            assert(space_join(sel_htmls(pre, sel_v)) == crate::assemble::cat(
                                mapped,
                            )) by {
                                assert(views_of(pieces@).map_values(|e: Seq<char>| " "@ + e)
                                    =~= sel_htmls(pre, sel_v).map_values(|e: Seq<char>| " "@ + e));
                            }
                            assert(content0 == crate::assemble::cat(rounds0));
                            assert(crate::assemble::cat(rounds) == crate::assemble::cat(rounds0)
                                + rounds.last());
                            assert(content@ =~= content0 + crate::assemble::cat(mapped));
                            assert(content@ == drain_content(docs, sel_v, mode));
                        }
                    },
                }
            }
        }
    }
}

/// A resolved extraction strategy: the closed set of behaviors, dispatched
/// once at resolution time.
pub enum Extractor {
    Default(DefaultExtractor),
    DomSmoothie(DomSmoothieExtractor),
    TextOnly(TextOnlyExtractor),
    Custom(CustomExtractor),
}

/// The processor kind a caller requested; without a processor the Default
/// kind applies.
pub open spec fn requested_kind(p: Option<ContentProcessor>) -> ProcessorType {
    match p {
        Some(q) => q.processor,
        None => ProcessorType::Default,
    }
}

/// What `create_extractor` promises: the strategy matches the requested
/// kind; a Custom request without a configuration blob, or with a malformed
/// one, is the exact error.
pub open spec fn extractor_for(r: Result<Extractor, ConfigError>, p: Option<ContentProcessor>) -> bool {
    match requested_kind(p) {
        ProcessorType::Default => r == Ok::<Extractor, ConfigError>(Extractor::Default(DefaultExtractor)),
        ProcessorType::DomSmoothie => r == Ok::<Extractor, ConfigError>(Extractor::DomSmoothie(DomSmoothieExtractor)),
        ProcessorType::TextOnly => r == Ok::<Extractor, ConfigError>(Extractor::TextOnly(TextOnlyExtractor)),
        ProcessorType::Custom => {
            match p->Some_0.custom_config {
                None => r == Err::<Extractor, ConfigError>(ConfigError::MissingCustomConfig),
                Some(cfg) => {
                    match parse_config_spec(cfg@) {
                        Some(parsed) => r matches Ok(Extractor::Custom(c))
                            && views_of(c.config.selector@) == parsed.0 && views_of(
                            c.config.discard@,
                        ) == parsed.1 && c.config.output_mode == parsed.2,
                        None => r == Err::<Extractor, ConfigError>(ConfigError::MalformedConfig),
                    }
                },
            }
        },
    }
}

/// Builds the extraction strategy a processor record asks for. A Custom
/// processor needs a well-formed configuration blob; every other kind always
/// succeeds.
pub fn create_extractor(processor: Option<&ContentProcessor>) -> (r: Result<
    Extractor,
    ConfigError,
>)
    ensures
        extractor_for(r, opt_value(processor)),
{
    let kind = match processor {
        Some(p) => p.processor,
        None => ProcessorType::Default,
    };
    match kind {
        ProcessorType::Default => Ok(Extractor::Default(DefaultExtractor)),
        ProcessorType::DomSmoothie => Ok(Extractor::DomSmoothie(DomSmoothieExtractor)),
        ProcessorType::TextOnly => Ok(Extractor::TextOnly(TextOnlyExtractor)),
        ProcessorType::Custom => {
            match processor {
                Some(p) => match &p.custom_config {
                    Some(cfg) => match CustomExtractor::new(cfg.as_str()) {
                        Ok(ex) => Ok(Extractor::Custom(ex)),
                        Err(e) => Err(e),
                    },
                    None => Err(ConfigError::MissingCustomConfig),
                },
                None => Err(ConfigError::MissingCustomConfig),
            }
        },
    }
}

/// Resolves the strategy for a URL: an override configured for the URL's
/// host strictly wins over the caller's fallback processor, and the selected
/// processor decides the strategy.
pub fn resolve(reg: &Registry, url: &str, fallback: Option<&ContentProcessor>) -> (r: Result<
    Extractor,
    ConfigError,
>)
    ensures
        extractor_for(r, resolve_spec(reg.table(), url@, opt_value(fallback))),
{
    let selected = resolve_processor(reg, url, fallback);
    match selected {
        Some(p) => create_extractor(Some(&p)),
        None => create_extractor(None),
    }
}

impl Extractor {
    /// Extracts `(title, content)` from `html` with the resolved behavior.
    pub fn extract(&self, html: &str, url: &str) -> (r: Result<
        (String, String),
        ExtractionError,
    >)
        ensures
            match self {
                Extractor::Default(_) => r matches Err(e) ==> e.kind == ProcessorType::Default,
                Extractor::DomSmoothie(_) => r matches Err(e) ==> e.kind
                    == ProcessorType::DomSmoothie,
                Extractor::TextOnly(_) => (r matches Err(e) ==> e.kind == ProcessorType::TextOnly)
                    && (r matches Ok(v) ==> sel_count(v.1@, "img"@) == 0 && exists|c: Seq<char>|
                    v.1@ == remove_sel(parse_norm(c), "img"@)),
                Extractor::Custom(c) => r matches Ok(v) && v.0@ == custom_title_spec(html@)
                    && custom_content_ok(
                    remove_sel(parse_norm(html@), join_spec(views_of(c.config.discard@), ", "@)),
                    join_spec(views_of(c.config.selector@), ", "@),
                    c.config.output_mode,
                    v.1@,
                ),
            },
    {
        match self {
            Extractor::Default(e) => e.extract(html, url),
            Extractor::DomSmoothie(e) => e.extract(html, url),
            Extractor::TextOnly(e) => e.extract(html, url),
            Extractor::Custom(e) => e.extract(html, url),
        }
    }
}

/// The uniform extraction capability of every strategy.
pub trait ContentExtractor {
    fn extract(&self, html: &str, url: &str) -> Result<(String, String), ExtractionError>;
}

impl ContentExtractor for DefaultExtractor {
    fn extract(&self, html: &str, url: &str) -> Result<(String, String), ExtractionError> {
        DefaultExtractor::extract(self, html, url)
    }
}

impl ContentExtractor for DomSmoothieExtractor {
    fn extract(&self, html: &str, url: &str) -> Result<(String, String), ExtractionError> {
        DomSmoothieExtractor::extract(self, html, url)
    }
}

impl ContentExtractor for TextOnlyExtractor {
    fn extract(&self, html: &str, url: &str) -> Result<(String, String), ExtractionError> {
        TextOnlyExtractor::extract(self, html, url)
    }
}

impl ContentExtractor for CustomExtractor {
    fn extract(&self, html: &str, url: &str) -> Result<(String, String), ExtractionError> {
        CustomExtractor::extract(self, html, url)
    }
}

} // verus!
