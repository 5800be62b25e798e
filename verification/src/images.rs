//! The image transform pipeline: discovery of image references in HTML,
//! deduplication, admission-bounded fetch/transform units, and rewriting of
//! references to generated filenames. Fetching and task scheduling are the
//! caller's work; this module decides what to fetch, bounds how much runs at
//! once, and applies each outcome.
use vstd::prelude::*;

use crate::models::ImageAsset;
use crate::models::TransformError;
use crate::text::dec_spec;
use crate::text::dec_u64;
use crate::text::dedup_spec;
use crate::text::dedup_strings;
use crate::text::find_from;
use crate::text::first_at;
use crate::text::lemma_first_at_props;
use crate::text::replace_all;
use crate::text::replace_all_spec;
use crate::text::views_of;

verus! {

/// At most this many fetch/transform units run at the same time.
pub const ADMISSION_CAP: usize = 50;

pub open spec fn img_open() -> Seq<char> {
    seq!['<', 'i', 'm', 'g']
}

pub open spec fn src_open() -> Seq<char> {
    seq!['s', 'r', 'c', '=', '"']
}

pub open spec fn src_sq_open() -> Seq<char> {
    seq!['s', 'r', 'c', '=', '\'']
}

pub open spec fn quote_pat() -> Seq<char> {
    seq!['"']
}

pub open spec fn squote_pat() -> Seq<char> {
    seq!['\'']
}

/// Which source attribute opens a tag whose body ends at `g`: the earlier of
/// a double-quoted and a single-quoted opener, provided it starts before the
/// tag's end; the flag says whether it is the double-quoted one.
pub open spec fn chosen_src(dq: Option<int>, sq: Option<int>, g: int) -> Option<(int, bool)> {
    let d = match dq {
        Some(i) => if i < g {
            Some(i)
        } else {
            None
        },
        None => None,
    };
    let q = match sq {
        Some(i) => if i < g {
            Some(i)
        } else {
            None
        },
        None => None,
    };
    match (d, q) {
        (Some(a), Some(b)) => if a <= b {
            Some((a, true))
        } else {
            Some((b, false))
        },
        (Some(a), None) => Some((a, true)),
        (None, Some(b)) => Some((b, false)),
        (None, None) => None,
    }
}

pub open spec fn gt_pat() -> Seq<char> {
    seq!['>']
}

/// The image source references of `s` at or after `pos`, in discovery order.
/// An image element is an occurrence of `<img`; its source attribute —
/// `src="..."` or `src='...'`, whichever opens first — counts when it starts
/// before the tag's closing `>` and its value is non-empty. An unquoted
/// attribute value is not discovered: every serializer this pipeline feeds
/// itself from quotes attribute values. A tag without a usable source is
/// skipped; an unclosed tag or an unterminated attribute value ends the
/// scan.
pub open spec fn scan_srcs_from(s: Seq<char>, pos: int) -> Seq<Seq<char>>
    decreases s.len() - pos,
{
    if !(0 <= pos <= s.len()) {
        Seq::empty()
    } else {
        match first_at(s, img_open(), pos) {
            None => Seq::empty(),
            Some(p) => {
                if !(pos <= p && p + 4 <= s.len()) {
                    Seq::empty()
                } else {
                    let inner = p + 4;
                    match first_at(s, gt_pat(), inner) {
                        None => Seq::empty(),
                        Some(g) => {
                            if !(inner <= g && g + 1 <= s.len()) {
                                Seq::empty()
                            } else {
                                match chosen_src(
                                    first_at(s, src_open(), inner),
                                    first_at(s, src_sq_open(), inner),
                                    g,
                                ) {
                                    Some(choice) => {
                                        let q = choice.0;
                                        let qp = if choice.1 {
                                            quote_pat()
                                        } else {
                                            squote_pat()
                                        };
                                        if inner <= q {
                                            let vstart = q + 5;
                                            match first_at(s, qp, vstart) {
                                                Some(e) => {
                                                    if vstart <= e && e + 1 <= s.len() {
                                                        if e > vstart {
                                                            seq![s.subrange(vstart, e)]
                                                                + scan_srcs_from(s, e + 1)
                                                        } else {
                                                            scan_srcs_from(s, g + 1)
                                                        }
                                                    } else {
                                                        Seq::empty()
                                                    }
                                                },
                                                None => Seq::empty(),
                                            }
                                        } else {
                                            scan_srcs_from(s, g + 1)
                                        }
                                    },
                                    None => scan_srcs_from(s, g + 1),
                                }
                            }
                        },
                    }
                }
            },
        }
    }
}

/// Every image source reference of `html`, in discovery order.
pub open spec fn image_srcs(html: Seq<char>) -> Seq<Seq<char>> {
    scan_srcs_from(html, 0)
}

/// The distinct image references of `html`: each discovered reference once,
/// in order of first discovery. One fetch/transform unit runs per element.
pub open spec fn image_units(html: Seq<char>) -> Seq<Seq<char>> {
    dedup_spec(image_srcs(html))
}

/// Law: a reference discovered several times yields exactly one unit — the
/// units are pairwise distinct and hold precisely the discovered references.
pub proof fn lemma_units_once(html: Seq<char>)
    ensures
        forall|i: int, j: int|
            0 <= i < j < image_units(html).len() ==> image_units(html)[i] != image_units(html)[j],
        forall|x: Seq<char>| image_units(html).contains(x) <==> image_srcs(html).contains(x),
{
    crate::text::lemma_dedup_distinct(image_srcs(html));
}

/// Scans `s` for every image element's source attribute value.
pub fn find_image_srcs(s: &str) -> (r: Vec<String>)
    ensures
        views_of(r@) == image_srcs(s@),
{
    proof {
        reveal_strlit("<img");
        reveal_strlit("src=\"");
        reveal_strlit("src='");
        reveal_strlit("\"");
        reveal_strlit("'");
        reveal_strlit(">");
        assert("<img"@ =~= img_open());
        assert("src=\""@ =~= src_open());
        assert("src='"@ =~= src_sq_open());
        assert("\""@ =~= quote_pat());
        assert("'"@ =~= squote_pat());
        assert(">"@ =~= gt_pat());
    }
    let n = s.unicode_len();
    let mut out: Vec<String> = Vec::new();
    let mut pos: usize = 0;
    proof {
        assert(views_of(out@) + scan_srcs_from(s@, 0) =~= scan_srcs_from(s@, 0));
    }
    loop
        invariant
            n == s@.len(),
            pos <= n,
            views_of(out@) + scan_srcs_from(s@, pos as int) == image_srcs(s@),
            "<img"@ == img_open(),
            "src=\""@ == src_open(),
            "src='"@ == src_sq_open(),
            "\""@ == quote_pat(),
            "'"@ == squote_pat(),
            ">"@ == gt_pat(),
        decreases s@.len() - pos,
    {
        let ghost out0 = views_of(out@);
        match find_from(s, pos, "<img") {
            None => {
                proof {
                    assert(scan_srcs_from(s@, pos as int) =~= Seq::<Seq<char>>::empty());
                    assert(views_of(out@) =~= views_of(out@) + scan_srcs_from(s@, pos as int));
                }
                return out;
            },
            Some(p) => {
                proof {
                    lemma_first_at_props(s@, img_open(), pos as int);
                    assert(p + 4 <= s@.len());
                }
                let inner = p + 4;
                match find_from(s, inner, ">") {
                    None => {
                        proof {
                            assert(scan_srcs_from(s@, pos as int) =~= Seq::<Seq<char>>::empty());
                            assert(views_of(out@) =~= views_of(out@) + scan_srcs_from(
                                s@,
                                pos as int,
                            ));
                        }
                        return out;
                    },
                    Some(g) => {
                        proof {
                            lemma_first_at_props(s@, gt_pat(), inner as int);
                            assert(g + 1 <= s@.len());
                        }
                        let next_tag = g + 1;
                        let dq = find_from(s, inner, "src=\"");
                        let sq = find_from(s, inner, "src='");
                        let choice: Option<(usize, bool)> = match (dq, sq) {
                            (Some(a), Some(b)) => if a < g && b < g {
                                if a <= b {
                                    Some((a, true))
                                } else {
                                    Some((b, false))
                                }
                            } else if a < g {
                                Some((a, true))
                            } else if b < g {
                                Some((b, false))
                            } else {
                                None
                            },
                            (Some(a), None) => if a < g {
                                Some((a, true))
                            } else {
                                None
                            },
                            (None, Some(b)) => if b < g {
                                Some((b, false))
                            } else {
                                None
                            },
                            (None, None) => None,
                        };
                        let ghost spec_choice = chosen_src(
                            first_at(s@, src_open(), inner as int),
                            first_at(s@, src_sq_open(), inner as int),
                            g as int,
                        );
                        match choice {
                            None => {
                                proof {
                                    assert(spec_choice is None);
                                }
                                pos = next_tag;
                            },
                            Some((q, dbl)) => {
                                proof {
                                    assert(spec_choice == Some((q as int, dbl)));
                                    lemma_first_at_props(s@, src_open(), inner as int);
                                    lemma_first_at_props(s@, src_sq_open(), inner as int);
                                    assert(q + 5 <= s@.len());
                                }
                                let vstart = q + 5;
                                let closing = if dbl {
                                    "\""
                                } else {
                                    "'"
                                };
                                proof {
                                    assert(closing@ == if dbl {
                                        quote_pat()
                                    } else {
                                        squote_pat()
                                    });
                                }
                                match find_from(s, vstart, closing) {
                                    None => {
                                        proof {
                                            assert(scan_srcs_from(s@, pos as int) =~= Seq::<
                                                Seq<char>,
                                            >::empty());
                                            assert(views_of(out@) =~= views_of(out@)
                                                + scan_srcs_from(s@, pos as int));
                                        }
                                        return out;
                                    },
                                    Some(e) => {
                                        proof {
                                            lemma_first_at_props(s@, closing@, vstart as int);
                                            assert(e + 1 <= s@.len());
                                        }
                                        if e > vstart {
                                            let val = s.substring_char(vstart, e).to_owned();
                                            out.push(val);
                                            proof {
                                                assert(views_of(out@) =~= out0 + seq![
                                                    s@.subrange(vstart as int, e as int),
                                                ]);
                                                assert(out0 + (seq![
                                                    s@.subrange(vstart as int, e as int),
                                                ] + scan_srcs_from(s@, e + 1)) =~= views_of(out@)
                                                    + scan_srcs_from(s@, e + 1));
                                            }
                                            pos = e + 1;
                                        } else {
                                            pos = next_tag;
                                        }
                                    },
                                }
                            },
                        }
                    },
                }
            },
        }
    }
}

/// The generated filename of the unit at discovery index `i`, for the
/// run-local stamp `stamp`.
pub open spec fn image_filename_spec(stamp: nat, i: nat) -> Seq<char> {
    seq!['i', 'm', 'a', 'g', 'e', '_'] + dec_spec(stamp) + seq!['_'] + dec_spec(i) + seq![
        '.',
        'j',
        'p',
        'g',
    ]
}

/// Law: within one run, the generated filenames are unique — distinct
/// discovery indices give distinct filenames.
pub proof fn lemma_image_filenames_distinct(stamp: nat, i: nat, j: nat)
    ensures
        i != j ==> image_filename_spec(stamp, i) != image_filename_spec(stamp, j),
{
    if i != j && image_filename_spec(stamp, i) == image_filename_spec(stamp, j) {
        let p = seq!['i', 'm', 'a', 'g', 'e', '_'] + dec_spec(stamp) + seq!['_'];
        let s = seq!['.', 'j', 'p', 'g'];
        let a = dec_spec(i);
        let b = dec_spec(j);
        assert(image_filename_spec(stamp, i) =~= p + a + s);
        assert(image_filename_spec(stamp, j) =~= p + b + s);
        assert((p + a + s).len() == p.len() + a.len() + s.len());
        assert((p + b + s).len() == p.len() + b.len() + s.len());
        assert(a.len() == b.len());
        assert(a =~= (p + a + s).subrange(p.len() as int, (p.len() + a.len()) as int));
        assert(b =~= (p + b + s).subrange(p.len() as int, (p.len() + b.len()) as int));
        crate::text::lemma_dec_injective(i, j);
        assert(false);
    }
}

/// Renders the generated filename for unit `i` of a run stamped `stamp`.
pub fn image_filename(stamp: u64, i: u64) -> (r: String)
    ensures
        r@ == image_filename_spec(stamp as nat, i as nat),
{
    proof {
        reveal_strlit("image_");
        reveal_strlit("_");
        reveal_strlit(".jpg");
    }
    let mut out = "image_".to_owned();
    out.append(dec_u64(stamp).as_str());
    out.append("_");
    out.append(dec_u64(i).as_str());
    out.append(".jpg");
    proof {
        assert(out@ =~= image_filename_spec(stamp as nat, i as nat));
    }
    out
}

/// One run of the image pipeline over one HTML document. Units are handed
/// out under the admission cap and their outcomes applied as they complete,
/// in any order.
pub struct ImageRun {
    /// The distinct references, in discovery order.
    units: Vec<String>,
    /// How many units have been handed out so far.
    handed: usize,
    /// How many handed-out units have not completed yet.
    in_flight: usize,
    /// The document, rewritten as units succeed.
    html: String,
    /// The assets of the units that succeeded.
    assets: Vec<ImageAsset>,
    /// A run-local stamp embedded in every generated filename.
    stamp: u64,
    /// The discovery indices whose outcome has been applied already.
    completed: Ghost<Set<int>>,
}

impl ImageRun {
    /// The distinct references this run works on.
    pub closed spec fn units(self) -> Seq<Seq<char>> {
        views_of(self.units@)
    }

    /// The number of units handed out so far.
    pub closed spec fn handed(self) -> nat {
        self.handed as nat
    }

    /// The number of handed-out units that have not completed yet.
    pub closed spec fn in_flight(self) -> nat {
        self.in_flight as nat
    }

    /// The document in its current state of rewriting.
    pub closed spec fn html(self) -> Seq<char> {
        self.html@
    }

    /// The assets recorded so far.
    pub closed spec fn assets(self) -> Seq<ImageAsset> {
        self.assets@
    }

    /// The run-local stamp.
    pub closed spec fn stamp(self) -> nat {
        self.stamp as nat
    }

    /// The discovery indices whose outcome has been applied already.
    pub closed spec fn completed(self) -> Set<int> {
        self.completed@
    }

    /// Always: no more units in flight than the admission cap allows, and no
    /// more handed out than exist.
    pub closed spec fn wf(self) -> bool {
        self.in_flight <= ADMISSION_CAP && self.in_flight <= self.handed && self.handed
            <= self.units@.len()
    }

    /// The well-formedness of a run, as callers may state it.
    pub open spec fn inv(self) -> bool {
        self.wf() && self.in_flight() <= ADMISSION_CAP as nat
    }

    /// Plans a run over `html`: discovers every image reference and keeps
    /// each distinct one once, in order of first discovery.
    pub fn new(html: &str, stamp: u64) -> (r: ImageRun)
        ensures
            r.inv(),
            r.units() == image_units(html@),
            r.handed() == 0,
            r.in_flight() == 0,
            r.html() == html@,
            r.assets() == Seq::<ImageAsset>::empty(),
            r.stamp() == stamp as nat,
            r.completed() == Set::<int>::empty(),
    {
        let srcs = find_image_srcs(html);
        let units = dedup_strings(&srcs);
        ImageRun {
            units,
            handed: 0,
            in_flight: 0,
            html: html.to_owned(),
            assets: Vec::new(),
            stamp,
            completed: Ghost(Set::empty()),
        }
    }

    /// Plans a run over `html` with a stamp taken from the clock: the
    /// current millisecond, clamped to zero for clocks before the epoch.
    pub fn start(html: &str) -> (r: ImageRun)
        ensures
            r.inv(),
            r.units() == image_units(html@),
            r.handed() == 0,
            r.in_flight() == 0,
            r.html() == html@,
            r.assets() == Seq::<ImageAsset>::empty(),
            r.completed() == Set::<int>::empty(),
    {
        let t = crate::assemble::now_millis();
        let stamp: u64 = if t < 0 {
            0
        } else {
            t as u64
        };
        ImageRun::new(html, stamp)
    }

    /// How many units exist in total.
    pub fn unit_count(&self) -> (r: usize)
        ensures
            r == self.units().len(),
    {
        self.units.len()
    }

    /// How many units are in flight right now; never above the cap.
    pub fn in_flight_now(&self) -> (r: usize)
        requires
            self.inv(),
        ensures
            r == self.in_flight(),
            r <= ADMISSION_CAP,
    {
        self.in_flight
    }

    /// Whether a further unit may start: the admission cap has room and a
    /// unit is left.
    pub open spec fn spec_can_admit(self) -> bool {
        self.in_flight() < ADMISSION_CAP as nat && self.handed() < self.units().len()
    }

    /// Hands out the next unit if one is left and the admission cap has room:
    /// the unit's discovery index and its reference. The unit counts as in
    /// flight until `complete` is called for it.
    pub fn next_unit(&mut self) -> (r: Option<(usize, String)>)
        requires
            old(self).inv(),
        ensures
            final(self).inv(),
            final(self).in_flight() <= ADMISSION_CAP as nat,
            final(self).units() == old(self).units(),
            final(self).html() == old(self).html(),
            final(self).assets() == old(self).assets(),
            final(self).stamp() == old(self).stamp(),
            final(self).completed() == old(self).completed(),
            old(self).spec_can_admit() ==> {
                &&& r matches Some(u)
                &&& u.0 == old(self).handed()
                &&& u.1@ == old(self).units()[old(self).handed() as int]
                &&& final(self).handed() == old(self).handed() + 1
                &&& final(self).in_flight() == old(self).in_flight() + 1
            },
            !old(self).spec_can_admit() ==> {
                &&& r is None
                &&& final(self).handed() == old(self).handed()
                &&& final(self).in_flight() == old(self).in_flight()
            },
    {
        if self.in_flight < ADMISSION_CAP && self.handed < self.units.len() {
            let i = self.handed;
            let reference = self.units[i].clone();
            self.handed = i + 1;
            self.in_flight = self.in_flight + 1;
            Some((i, reference))
        } else {
            None
        }
    }

    /// Applies the outcome of the unit at discovery index `index` and
    /// releases its admission slot; each admitted unit's outcome is applied
    /// at most once. On success — `Some((data, mime))` — every occurrence of
    /// the reference in the document is rewritten to the unit's generated
    /// filename and the asset is recorded; on failure the reference is left
    /// as it stands and nothing is recorded.
    pub fn complete(&mut self, index: usize, outcome: Option<(Vec<u8>, String)>)
        requires
            old(self).inv(),
            old(self).in_flight() > 0,
            index < old(self).handed(),
            !old(self).completed().contains(index as int),
        ensures
            final(self).inv(),
            final(self).units() == old(self).units(),
            final(self).handed() == old(self).handed(),
            final(self).in_flight() == old(self).in_flight() - 1,
            final(self).stamp() == old(self).stamp(),
            final(self).completed() == old(self).completed().insert(index as int),
            match outcome {
                Some(payload) => {
                    &&& final(self).html() == replace_all_spec(
                        old(self).html(),
                        old(self).units()[index as int],
                        image_filename_spec(old(self).stamp(), index as nat),
                    )
                    &&& final(self).assets().len() == old(self).assets().len() + 1
                    &&& final(self).assets().drop_last() == old(self).assets()
                    &&& final(self).assets().last().filename@ == image_filename_spec(
                        old(self).stamp(),
                        index as nat,
                    )
                    &&& final(self).assets().last().data == payload.0
                    &&& final(self).assets().last().mime == payload.1
                },
                None => {
                    &&& final(self).html() == old(self).html()
                    &&& final(self).assets() == old(self).assets()
                },
            },
    {
        self.in_flight = self.in_flight - 1;
        proof {
            self.completed@ = self.completed@.insert(index as int);
        }
        match outcome {
            Some((data, mime)) => {
                let ghost assets0 = self.assets@;
                let filename = image_filename(self.stamp, index as u64);
                let reference = self.units[index].clone();
                if reference.as_str().unicode_len() > 0 {
                    self.html = replace_all(
                        self.html.as_str(),
                        reference.as_str(),
                        filename.as_str(),
                    );
                }
                self.assets.push(ImageAsset { filename, data, mime });
                proof {
                    assert(self.assets@.drop_last() =~= assets0);
                }
            },
            None => {},
        }
    }

    /// Ends the run: the rewritten document and the recorded assets.
    pub fn finish(self) -> (r: (String, Vec<ImageAsset>))
        ensures
            r.0@ == self.html(),
            r.1@ == self.assets(),
    {
        (self.html, self.assets)
    }
}

#[verifier::external_type_specification]
#[verifier::external_body]
pub struct ExDynamicImage(image::DynamicImage);

/// The content of a decoded image — dimensions, color layout and samples —
/// represented abstractly as bytes.
pub uninterp spec fn img_content(img: image::DynamicImage) -> Seq<u8>;

/// The content of the image that `data` decodes to, going by the content's
/// magic bytes; `None` when the bytes decode as no supported format. A
/// function of the bytes alone.
pub uninterp spec fn decoded_of(data: Seq<u8>) -> Option<Seq<u8>>;

/// The content of an image scaled to fit within `w` by `h` with the aspect
/// ratio kept, using the Nearest filter.
pub uninterp spec fn fit_of(img: Seq<u8>, w: int, h: int) -> Seq<u8>;

/// The content of an image converted to grayscale.
pub uninterp spec fn gray_of(img: Seq<u8>) -> Seq<u8>;

/// The JPEG encoding of an image's content; `None` when the encoder refuses
/// it (a dimension its format cannot carry).
pub uninterp spec fn jpeg_of(img: Seq<u8>) -> Option<Seq<u8>>;

/// Relies on image::load_from_memory: guesses the format from the magic
/// bytes and decodes; deterministic in the bytes alone.
#[verifier::external_body]
fn decode_bytes(data: &[u8]) -> (r: Result<image::DynamicImage, String>)
    ensures
        match r {
            Ok(img) => decoded_of(data@) == Some(img_content(img)),
            Err(_) => decoded_of(data@) is None,
        },
{
    image::load_from_memory(data).map_err(|e| e.to_string())
}

/// Relies on image::DynamicImage::resize with the Nearest filter: a copy
/// scaled to fit within `w` by `h`, keeping the aspect ratio.
#[verifier::external_body]
fn resize_image(img: &image::DynamicImage, w: u32, h: u32) -> (r: image::DynamicImage)
    ensures
        img_content(r) == fit_of(img_content(*img), w as int, h as int),
{
    img.resize(w, h, image::imageops::FilterType::Nearest)
}

/// Relies on image::DynamicImage::grayscale: a grayscale copy.
#[verifier::external_body]
fn grayscale_image(img: &image::DynamicImage) -> (r: image::DynamicImage)
    ensures
        img_content(r) == gray_of(img_content(*img)),
{
    img.grayscale()
}

/// Relies on image::DynamicImage::write_to with the JPEG format: the image
/// encoded as JPEG bytes; deterministic in the image alone.
#[verifier::external_body]
fn encode_jpeg(img: &image::DynamicImage) -> (r: Result<Vec<u8>, String>)
    ensures
        match r {
            Ok(b) => jpeg_of(img_content(*img)) == Some(b@),
            Err(_) => jpeg_of(img_content(*img)) is None,
        },
{
    let mut buffer = Vec::new();
    let mut cursor = std::io::Cursor::new(&mut buffer);
    img.write_to(&mut cursor, image::ImageFormat::Jpeg).map_err(|e| e.to_string())?;
    Ok(buffer)
}

/// The media type of every transformed image.
pub fn jpeg_mime() -> (r: String)
    ensures
        r@ == "image/jpeg"@,
{
    "image/jpeg".to_owned()
}

/// What the transform of one unit yields for the fetched bytes: the JPEG
/// encoding of the decoded image, scaled to fit within `w` by `h` and
/// converted to grayscale; `None` when the bytes decode as no supported
/// format or the encoder refuses the result.
pub open spec fn transformed_of(data: Seq<u8>, w: int, h: int) -> Option<Seq<u8>> {
    match decoded_of(data) {
        Some(img) => jpeg_of(gray_of(fit_of(img, w, h))),
        None => None,
    }
}

/// The fetch/transform work of one unit, after the fetch: decode the bytes,
/// scale them to fit within 600 by 800, convert to grayscale and re-encode
/// as JPEG. The set of decodable formats is the set the image library is
/// built with.
pub fn transform_image(data: &Vec<u8>) -> (r: Result<Vec<u8>, TransformError>)
    ensures
        match r {
            Ok(b) => transformed_of(data@, 600, 800) == Some(b@),
            Err(_) => transformed_of(data@, 600, 800) is None,
        },
{
    let img = match decode_bytes(data.as_slice()) {
        Ok(i) => i,
        Err(message) => {
            return Err(TransformError { message });
        },
    };
    let resized = resize_image(&img, 600, 800);
    let gray = grayscale_image(&resized);
    match encode_jpeg(&gray) {
        Ok(bytes) => Ok(bytes),
        Err(message) => Err(TransformError { message }),
    }
}

} // verus!
