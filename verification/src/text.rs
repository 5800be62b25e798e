//! Character-sequence utilities the pipeline is built on: decimal rendering
//! of counters (used for unique chapter and image filenames), substring
//! search, global replacement, deduplication, and label slugs.
use vstd::prelude::*;

verus! {

/// The character for one decimal digit value.
pub open spec fn dec_digit(d: nat) -> char {
    if d == 0 {
        '0'
    } else if d == 1 {
        '1'
    } else if d == 2 {
        '2'
    } else if d == 3 {
        '3'
    } else if d == 4 {
        '4'
    } else if d == 5 {
        '5'
    } else if d == 6 {
        '6'
    } else if d == 7 {
        '7'
    } else if d == 8 {
        '8'
    } else {
        '9'
    }
}

/// Decimal rendering of a natural number, most significant digit first,
/// without leading zeros (except for the number zero itself).
pub open spec fn dec_spec(n: nat) -> Seq<char>
    decreases n,
{
    if n < 10 {
        seq![dec_digit(n)]
    } else {
        dec_spec(n / 10) + seq![dec_digit(n % 10)]
    }
}

fn digit_str(d: u64) -> (r: &'static str)
    requires
        d < 10,
    ensures
        r@ == seq![dec_digit(d as nat)],
{
    proof {
        reveal_strlit("0");
        reveal_strlit("1");
        reveal_strlit("2");
        reveal_strlit("3");
        reveal_strlit("4");
        reveal_strlit("5");
        reveal_strlit("6");
        reveal_strlit("7");
        reveal_strlit("8");
        reveal_strlit("9");
    }
    let r = match d {
        0 => "0",
        1 => "1",
        2 => "2",
        3 => "3",
        4 => "4",
        5 => "5",
        6 => "6",
        7 => "7",
        8 => "8",
        _ => "9",
    };
    proof {
        assert(r@ =~= seq![dec_digit(d as nat)]);
    }
    r
}

/// Renders `n` in decimal.
pub fn dec_u64(n: u64) -> (r: String)
    ensures
        r@ == dec_spec(n as nat),
    decreases n,
{
    if n < 10 {
        digit_str(n).to_owned()
    } else {
        let mut s = dec_u64(n / 10);
        s.append(digit_str(n % 10));
        s
    }
}

/// A decimal rendering holds at least one character.
pub proof fn lemma_dec_len_pos(n: nat)
    ensures
        dec_spec(n).len() >= 1,
        dec_spec(n).len() == 1 <==> n < 10,
        dec_spec(n).last() == dec_digit(n % 10),
        n >= 10 ==> dec_spec(n).drop_last() == dec_spec(n / 10),
    decreases n,
{
    if n < 10 {
        assert(n % 10 == n);
    } else {
        lemma_dec_len_pos(n / 10);
        assert((dec_spec(n / 10) + seq![dec_digit(n % 10)]).drop_last() =~= dec_spec(n / 10));
    }
}

/// Law: distinct numbers render to distinct decimal strings, the ground for
/// every filename whose uniqueness rests on a counter.
pub proof fn lemma_dec_injective(a: nat, b: nat)
    ensures
        dec_spec(a) == dec_spec(b) ==> a == b,
    decreases a,
{
    if dec_spec(a) == dec_spec(b) {
        lemma_dec_len_pos(a);
        lemma_dec_len_pos(b);
        assert(dec_digit(a % 10) == dec_digit(b % 10));
        assert(a % 10 == b % 10);
        if a < 10 || b < 10 {
            assert(a < 10 && b < 10);
            assert(a == a % 10 && b == b % 10);
        } else {
            assert(dec_spec(a / 10) == dec_spec(b / 10));
            lemma_dec_injective(a / 10, b / 10);
            assert(a == 10 * (a / 10) + a % 10);
            assert(b == 10 * (b / 10) + b % 10);
        }
    }
}

/// Relies on std's `String::push`: appends one character at the end.
#[verifier::external_body]
pub fn push_char(s: &mut String, c: char)
    ensures
        final(s)@ == old(s)@.push(c),
{
    s.push(c)
}

/// `pat` occurs in `s` at position `i`.
pub open spec fn matches_at(s: Seq<char>, pat: Seq<char>, i: int) -> bool {
    0 <= i && i + pat.len() <= s.len() && s.subrange(i, i + pat.len()) == pat
}

/// Position of the first occurrence of a non-empty `pat` in `s` at or after
/// `from`.
pub open spec fn first_at(s: Seq<char>, pat: Seq<char>, from: int) -> Option<int>
    decreases s.len() - from,
{
    if pat.len() == 0 || from < 0 || from + pat.len() > s.len() {
        None
    } else if matches_at(s, pat, from) {
        Some(from)
    } else {
        first_at(s, pat, from + 1)
    }
}

pub proof fn lemma_first_at_props(s: Seq<char>, pat: Seq<char>, from: int)
    requires
        0 <= from,
    ensures
        match first_at(s, pat, from) {
            Some(i) => from <= i && matches_at(s, pat, i) && (forall|j: int|
                from <= j < i ==> !matches_at(s, pat, j)),
            None => pat.len() > 0 ==> forall|j: int| from <= j ==> !matches_at(s, pat, j),
        },
    decreases s.len() - from,
{
    if pat.len() == 0 || from + pat.len() > s.len() {
    } else if matches_at(s, pat, from) {
    } else {
        lemma_first_at_props(s, pat, from + 1);
    }
}

/// Whether `s[i..i+pat.len()]` equals `pat`.
pub fn match_at(s: &str, i: usize, pat: &str) -> (r: bool)
    requires
        i <= s@.len(),
    ensures
        r == matches_at(s@, pat@, i as int),
{
    let n = s.unicode_len();
    let m = pat.unicode_len();
    if m > n || i > n - m {
        proof {
            assert(!matches_at(s@, pat@, i as int));
        }
        return false;
    }
    let mut j: usize = 0;
    while j < m
        invariant
            0 <= j <= m,
            i + m <= n,
            n == s@.len(),
            m == pat@.len(),
            forall|k: int| 0 <= k < j ==> s@[i + k] == pat@[k],
        decreases m - j,
    {
        if s.get_char(i + j) != pat.get_char(j) {
            proof {
                assert(s@.subrange(i as int, i + m) != pat@) by {
                    assert(s@.subrange(i as int, i + m)[j as int] != pat@[j as int]);
                }
            }
            return false;
        }
        j += 1;
    }
    proof {
        assert(s@.subrange(i as int, i + m) =~= pat@);
    }
    true
}

/// Position of the first occurrence of `pat` in `s` at or after `start`.
pub fn find_from(s: &str, start: usize, pat: &str) -> (r: Option<usize>)
    requires
        start <= s@.len(),
    ensures
        match r {
            Some(i) => start <= i && Some(i as int) == first_at(s@, pat@, start as int),
            None => first_at(s@, pat@, start as int) is None,
        },
{
    let n = s.unicode_len();
    let m = pat.unicode_len();
    if m > n || m == 0 {
        return None;
    }
    let mut i: usize = start;
    while i <= n - m
        invariant
            start <= i,
            n == s@.len(),
            m == pat@.len(),
            1 <= m <= n,
            i <= n,
            first_at(s@, pat@, start as int) == first_at(s@, pat@, i as int),
        decreases n - i,
    {
        if match_at(s, i, pat) {
            proof {
                assert(first_at(s@, pat@, i as int) == Some(i as int));
            }
            return Some(i);
        }
        i += 1;
    }
    proof {
        assert(first_at(s@, pat@, i as int) is None);
    }
    None
}

/// `s` with every occurrence of `from` replaced by `to`, scanning left to
/// right over non-overlapping occurrences.
pub open spec fn replace_all_spec(s: Seq<char>, from: Seq<char>, to: Seq<char>) -> Seq<char>
    decreases s.len(),
{
    if from.len() == 0 || s.len() < from.len() {
        s
    } else if s.subrange(0, from.len() as int) == from {
        to + replace_all_spec(s.skip(from.len() as int), from, to)
    } else {
        seq![s[0]] + replace_all_spec(s.skip(1), from, to)
    }
}

proof fn lemma_replace_skip(s: Seq<char>, from: Seq<char>, to: Seq<char>, i: int, j: int)
    requires
        from.len() > 0,
        0 <= i <= j <= s.len(),
        forall|k: int| i <= k < j ==> !matches_at(s, from, k),
    ensures
        replace_all_spec(s.skip(i), from, to) == s.subrange(i, j) + replace_all_spec(
            s.skip(j),
            from,
            to,
        ),
    decreases j - i,
{
    if i == j {
        assert(s.subrange(i, j) + replace_all_spec(s.skip(j), from, to) =~= replace_all_spec(
            s.skip(i),
            from,
            to,
        ));
    } else {
        assert(!matches_at(s, from, i));
        let tail = s.skip(i);
        if tail.len() < from.len() {
            assert(replace_all_spec(tail, from, to) == tail);
            assert(s.skip(j).len() < from.len());
            assert(replace_all_spec(s.skip(j), from, to) == s.skip(j));
            assert(s.subrange(i, j) + s.skip(j) =~= s.skip(i));
        } else {
            assert(tail.subrange(0, from.len() as int) != from) by {
                assert(tail.subrange(0, from.len() as int) =~= s.subrange(i, i + from.len()));
            }
            assert(tail.skip(1) =~= s.skip(i + 1));
            lemma_replace_skip(s, from, to, i + 1, j);
            assert(seq![s[i]] + s.subrange(i + 1, j) =~= s.subrange(i, j));
            assert(tail[0] == s[i]);
            assert(seq![s[i]] + (s.subrange(i + 1, j) + replace_all_spec(s.skip(j), from, to))
                =~= s.subrange(i, j) + replace_all_spec(s.skip(j), from, to));
        }
    }
}

proof fn lemma_replace_match(s: Seq<char>, from: Seq<char>, to: Seq<char>, j: int)
    requires
        from.len() > 0,
        matches_at(s, from, j),
    ensures
        replace_all_spec(s.skip(j), from, to) == to + replace_all_spec(
            s.skip(j + from.len()),
            from,
            to,
        ),
{
    let tail = s.skip(j);
    assert(tail.subrange(0, from.len() as int) =~= s.subrange(j, j + from.len()));
    assert(tail.skip(from.len() as int) =~= s.skip(j + from.len()));
}

/// `s` with every occurrence of `from` replaced by `to`.
pub fn replace_all(s: &str, from: &str, to: &str) -> (r: String)
    requires
        from@.len() > 0,
    ensures
        r@ == replace_all_spec(s@, from@, to@),
{
    let n = s.unicode_len();
    let m = from.unicode_len();
    let mut out = String::new();
    let mut i: usize = 0;
    proof {
        assert(s@.skip(0) =~= s@);
        assert(out@ + replace_all_spec(s@, from@, to@) =~= replace_all_spec(s@, from@, to@));
    }
    loop
        invariant
            i <= n,
            n == s@.len(),
            m == from@.len(),
            m > 0,
            out@ + replace_all_spec(s@.skip(i as int), from@, to@) == replace_all_spec(
                s@,
                from@,
                to@,
            ),
        decreases n - i,
    {
        match find_from(s, i, from) {
            Some(j) => {
                proof {
                    lemma_first_at_props(s@, from@, i as int);
                    lemma_replace_skip(s@, from@, to@, i as int, j as int);
                    lemma_replace_match(s@, from@, to@, j as int);
                }
                let ghost out0 = out@;
                out.append(s.substring_char(i, j));
                out.append(to);
                proof {
                    assert(out@ + replace_all_spec(s@.skip(j + m), from@, to@) =~= out0 + (
                    s@.subrange(i as int, j as int) + (to@ + replace_all_spec(
                        s@.skip(j + m),
                        from@,
                        to@,
                    ))));
                }
                i = j + m;
            },
            None => {
                proof {
                    lemma_first_at_props(s@, from@, i as int);
                    lemma_replace_skip(s@, from@, to@, i as int, n as int);
                    assert(replace_all_spec(s@.skip(n as int), from@, to@) =~= Seq::<
                        char,
                    >::empty());
                    assert(s@.subrange(i as int, n as int) + Seq::<char>::empty() =~= s@.subrange(
                        i as int,
                        n as int,
                    ));
                }
                out.append(s.substring_char(i, n));
                return out;
            },
        }
    }
}

/// The view of a sequence of strings: each element replaced by its
/// character sequence.
pub open spec fn views_of(v: Seq<String>) -> Seq<Seq<char>> {
    v.map_values(|s: String| s@)
}

/// The input with every element that already occurred earlier removed:
/// first occurrences, in their original order.
pub open spec fn dedup_spec(s: Seq<Seq<char>>) -> Seq<Seq<char>>
    decreases s.len(),
{
    if s.len() == 0 {
        Seq::empty()
    } else {
        let rest = dedup_spec(s.drop_last());
        if rest.contains(s.last()) {
            rest
        } else {
            rest.push(s.last())
        }
    }
}

/// The deduplicated sequence has no repeated element and holds exactly the
/// elements of the input.
pub proof fn lemma_dedup_distinct(s: Seq<Seq<char>>)
    ensures
        forall|i: int, j: int|
            0 <= i < j < dedup_spec(s).len() ==> dedup_spec(s)[i] != dedup_spec(s)[j],
        forall|x: Seq<char>| dedup_spec(s).contains(x) <==> s.contains(x),
    decreases s.len(),
{
    if s.len() == 0 {
        assert(forall|x: Seq<char>| !s.contains(x));
    } else {
        lemma_dedup_distinct(s.drop_last());
        let rest = dedup_spec(s.drop_last());
        let d = dedup_spec(s);
        assert forall|x: Seq<char>| s.contains(x) implies d.contains(x) by {
            let i = choose|i: int| 0 <= i < s.len() && s[i] == x;
            if i < s.len() - 1 {
                assert(s.drop_last()[i] == x);
                assert(s.drop_last().contains(x));
                let j = choose|j: int| 0 <= j < rest.len() && rest[j] == x;
                if !rest.contains(s.last()) {
                    assert(d[j] == x);
                }
                assert(d.contains(x));
            } else {
                if rest.contains(s.last()) {
                    assert(d.contains(x));
                } else {
                    assert(d[d.len() - 1] == x);
                    assert(d.contains(x));
                }
            }
        }
        assert forall|x: Seq<char>| d.contains(x) implies s.contains(x) by {
            let j = choose|j: int| 0 <= j < d.len() && d[j] == x;
            if j < rest.len() {
                assert(rest[j] == x);
                assert(rest.contains(x));
                assert(s.drop_last().contains(x));
                let i = choose|i: int| 0 <= i < s.drop_last().len() && s.drop_last()[i] == x;
                assert(s[i] == x);
                assert(s.contains(x));
            } else {
                assert(x == s.last());
                assert(s[s.len() - 1] == x);
                assert(s.contains(x));
            }
        }
    }
}

/// Whether some element of `v` has the same characters as `x`.
pub fn contains_str(v: &Vec<String>, x: &String) -> (r: bool)
    ensures
        r == views_of(v@).contains(x@),
{
    let mut k: usize = 0;
    while k < v.len()
        invariant
            k <= v.len(),
            forall|i: int| 0 <= i < k ==> views_of(v@)[i] != x@,
        decreases v.len() - k,
    {
        if v[k].eq(x) {
            proof {
                assert(views_of(v@)[k as int] == x@);
            }
            return true;
        }
        proof {
            assert(views_of(v@)[k as int] == v@[k as int]@);
        }
        k += 1;
    }
    false
}

/// Removes every repeated element, keeping first occurrences in order.
pub fn dedup_strings(v: &Vec<String>) -> (r: Vec<String>)
    ensures
        views_of(r@) == dedup_spec(views_of(v@)),
{
    let mut r: Vec<String> = Vec::new();
    let mut k: usize = 0;
    proof {
        assert(views_of(r@) =~= dedup_spec(views_of(v@).take(0)));
    }
    while k < v.len()
        invariant
            k <= v.len(),
            views_of(r@) == dedup_spec(views_of(v@).take(k as int)),
        decreases v.len() - k,
    {
        let ghost pre = views_of(v@).take(k as int);
        let ghost cur = views_of(v@).take(k as int + 1);
        proof {
            assert(cur.drop_last() =~= pre);
            assert(cur.last() == v@[k as int]@);
        }
        if !contains_str(&r, &v[k]) {
            let item = v[k].clone();
            assert(item@ == v@[k as int]@);
            r.push(item);
            proof {
                assert(views_of(r@) =~= dedup_spec(pre).push(v@[k as int]@));
            }
        }
        k += 1;
    }
    proof {
        assert(views_of(v@).take(k as int) =~= views_of(v@));
    }
    r
}

/// The elements of `parts` joined by `sep`.
pub open spec fn join_spec(parts: Seq<Seq<char>>, sep: Seq<char>) -> Seq<char>
    decreases parts.len(),
{
    if parts.len() == 0 {
        Seq::empty()
    } else if parts.len() == 1 {
        parts[0]
    } else {
        parts[0] + sep + join_spec(parts.skip(1), sep)
    }
}

/// Joins the strings of `parts` with the separator `sep` between them.
pub fn join_strings(parts: &Vec<String>, sep: &str) -> (r: String)
    ensures
        r@ == join_spec(views_of(parts@), sep@),
{
    let mut out = String::new();
    if parts.len() == 0 {
        return out;
    }
    let mut k: usize = 0;
    proof {
        assert(views_of(parts@).skip(0) =~= views_of(parts@));
        assert(out@ + join_spec(views_of(parts@), sep@) =~= join_spec(views_of(parts@), sep@));
    }
    while k < parts.len()
        invariant
            k <= parts.len(),
            parts.len() > 0,
            out@ + join_spec(views_of(parts@).skip(k as int), sep@) == join_spec(
                views_of(parts@),
                sep@,
            ),
        decreases parts.len() - k,
    {
        let ghost whole = views_of(parts@);
        let ghost tail = whole.skip(k as int);
        let ghost out0 = out@;
        out.append(parts[k].as_str());
        if k + 1 < parts.len() {
            out.append(sep);
            proof {
                assert(tail[0] == whole[k as int]);
                assert(tail.skip(1) =~= whole.skip(k as int + 1));
                assert(join_spec(tail, sep@) == tail[0] + sep@ + join_spec(tail.skip(1), sep@));
                assert(out@ + join_spec(whole.skip(k as int + 1), sep@) =~= out0 + join_spec(
                    tail,
                    sep@,
                ));
            }
        } else {
            proof {
                assert(tail[0] == whole[k as int]);
                assert(tail.len() == 1);
                assert(join_spec(tail, sep@) == tail[0]);
                assert(whole.skip(k as int + 1) =~= Seq::<Seq<char>>::empty());
                assert(out@ + join_spec(whole.skip(k as int + 1), sep@) =~= out0 + join_spec(
                    tail,
                    sep@,
                ));
            }
        }
        k += 1;
    }
    out
}

/// The pieces of `s` from `pos` on, split at each occurrence of the
/// non-empty separator `sep`, the separators themselves dropped. The piece
/// after the last separator is kept even when empty.
pub open spec fn split_by_spec(s: Seq<char>, sep: Seq<char>, pos: int) -> Seq<Seq<char>>
    decreases s.len() - pos,
{
    if !(0 <= pos <= s.len() && sep.len() > 0) {
        Seq::empty()
    } else {
        match first_at(s, sep, pos) {
            Some(i) => if pos <= i && i + sep.len() <= s.len() {
                seq![s.subrange(pos, i)] + split_by_spec(s, sep, i + sep.len())
            } else {
                Seq::empty()
            },
            None => seq![s.subrange(pos, s.len() as int)],
        }
    }
}

/// Splits `s` at each occurrence of `sep`.
pub fn split_by(s: &str, sep: &str) -> (r: Vec<String>)
    requires
        sep@.len() > 0,
    ensures
        views_of(r@) == split_by_spec(s@, sep@, 0),
{
    let n = s.unicode_len();
    let m = sep.unicode_len();
    let mut out: Vec<String> = Vec::new();
    let mut pos: usize = 0;
    proof {
        assert(views_of(out@) + split_by_spec(s@, sep@, 0) =~= split_by_spec(s@, sep@, 0));
    }
    loop
        invariant
            pos <= n,
            n == s@.len(),
            m == sep@.len(),
            m > 0,
            views_of(out@) + split_by_spec(s@, sep@, pos as int) == split_by_spec(s@, sep@, 0),
        decreases n - pos,
    {
        let ghost out0 = views_of(out@);
        match find_from(s, pos, sep) {
            Some(i) => {
                proof {
                    lemma_first_at_props(s@, sep@, pos as int);
                    assert(i + m <= s@.len());
                }
                out.push(s.substring_char(pos, i).to_owned());
                proof {
                    assert(views_of(out@) =~= out0 + seq![s@.subrange(pos as int, i as int)]);
                    assert(out0 + (seq![s@.subrange(pos as int, i as int)] + split_by_spec(
                        s@,
                        sep@,
                        i + m,
                    )) =~= views_of(out@) + split_by_spec(s@, sep@, i + m));
                }
                pos = i + m;
            },
            None => {
                out.push(s.substring_char(pos, n).to_owned());
                proof {
                    assert(views_of(out@) =~= out0 + seq![
                        s@.subrange(pos as int, s@.len() as int),
                    ]);
                    assert(views_of(out@) =~= views_of(out@) + Seq::<Seq<char>>::empty());
                    assert(out0 + seq![s@.subrange(pos as int, s@.len() as int)] =~= out0
                        + split_by_spec(s@, sep@, pos as int));
                }
                return out;
            },
        }
    }
}

/// An ASCII letter or digit.
pub open spec fn is_ascii_alnum(c: char) -> bool {
    ('a' <= c && c <= 'z') || ('A' <= c && c <= 'Z') || ('0' <= c && c <= '9')
}

/// ASCII case folding of one character.
pub open spec fn lower_char(c: char) -> char {
    if 'A' <= c && c <= 'Z' {
        (((c as u32) + 32) as u8) as char
    } else {
        c
    }
}

/// Whether Unicode makes `c` alphanumeric; a function of the character
/// alone.
pub uninterp spec fn unicode_alnum(c: char) -> bool;

/// Relies on std's char::is_alphanumeric: true exactly for Unicode letters,
/// digit characters and number characters. Every ASCII letter or digit
/// qualifies, and no other ASCII character does.
#[verifier::external_body]
pub fn char_is_alphanumeric(c: char) -> (r: bool)
    ensures
        r == unicode_alnum(c),
        is_ascii_alnum(c) ==> r,
        (c as u32) < 128 && !is_ascii_alnum(c) ==> !r,
{
    c.is_alphanumeric()
}

/// The Unicode lowercasing of a string; a function of the characters alone.
pub uninterp spec fn unicode_lower(s: Seq<char>) -> Seq<char>;

/// Relies on std's str::to_lowercase: the locale-free Unicode lowercase
/// mapping. An empty string stays empty, and on ASCII-only strings the
/// mapping is the ASCII fold.
#[verifier::external_body]
pub fn lower_unicode(s: &str) -> (r: String)
    ensures
        r@ == unicode_lower(s@),
        s@.len() == 0 ==> r@.len() == 0,
        (forall|i: int| 0 <= i < s@.len() ==> (s@[i] as u32) < 128) ==> r@ == lower_spec(s@),
{
    s.to_lowercase()
}

/// One slug-replacement character: Unicode alphanumerics kept, everything
/// else an underscore.
pub open spec fn slug_keep_char(c: char) -> char {
    if unicode_alnum(c) {
        c
    } else {
        '_'
    }
}

/// The slug of a display label: every non-alphanumeric character replaced by
/// an underscore, then the whole string case-folded.
pub open spec fn slug_spec(s: Seq<char>) -> Seq<char> {
    unicode_lower(s.map_values(|c: char| slug_keep_char(c)))
}

/// ASCII case folding of a string.
pub open spec fn lower_spec(s: Seq<char>) -> Seq<char> {
    s.map_values(|c: char| lower_char(c))
}

fn lower_char_exec(c: char) -> (r: char)
    ensures
        r == lower_char(c),
{
    if 'A' <= c && c <= 'Z' {
        let v: u32 = (c as u32) + 32;
        (v as u8) as char
    } else {
        c
    }
}

/// Folds ASCII upper-case letters of `s` to lower case.
pub fn lower_ascii(s: &str) -> (r: String)
    ensures
        r@ == lower_spec(s@),
{
    let n = s.unicode_len();
    let mut out = String::new();
    let mut i: usize = 0;
    proof {
        assert(out@ =~= lower_spec(s@).take(0));
    }
    while i < n
        invariant
            i <= n,
            n == s@.len(),
            out@ == lower_spec(s@).take(i as int),
        decreases n - i,
    {
        let c = s.get_char(i);
        push_char(&mut out, lower_char_exec(c));
        proof {
            assert(out@ =~= lower_spec(s@).take(i as int + 1));
        }
        i += 1;
    }
    proof {
        assert(lower_spec(s@).take(n as int) =~= lower_spec(s@));
    }
    out
}

/// The slug of a display label: every non-alphanumeric character replaced by
/// an underscore, then the whole string case-folded.
pub fn slug_of(s: &str) -> (r: String)
    ensures
        r@ == slug_spec(s@),
{
    let ghost replaced_spec = s@.map_values(|c: char| slug_keep_char(c));
    let n = s.unicode_len();
    let mut replaced = String::new();
    let mut i: usize = 0;
    proof {
        assert(replaced@ =~= replaced_spec.take(0));
    }
    while i < n
        invariant
            i <= n,
            n == s@.len(),
            replaced_spec == s@.map_values(|c: char| slug_keep_char(c)),
            replaced@ == replaced_spec.take(i as int),
        decreases n - i,
    {
        let c = s.get_char(i);
        let mapped = if char_is_alphanumeric(c) {
            c
        } else {
            '_'
        };
        push_char(&mut replaced, mapped);
        proof {
            assert(replaced@ =~= replaced_spec.take(i as int + 1));
        }
        i += 1;
    }
    proof {
        assert(replaced_spec.take(n as int) =~= replaced_spec);
    }
    lower_unicode(replaced.as_str())
}

/// Strict lexicographic order on character sequences, by character code; a
/// proper prefix comes first.
pub open spec fn lex_lt(a: Seq<char>, b: Seq<char>) -> bool
    decreases a.len(),
{
    if b.len() == 0 {
        false
    } else if a.len() == 0 {
        true
    } else if a[0] != b[0] {
        a[0] < b[0]
    } else {
        lex_lt(a.skip(1), b.skip(1))
    }
}

/// No sequence precedes itself.
pub proof fn lemma_lex_irrefl(a: Seq<char>)
    ensures
        !lex_lt(a, a),
    decreases a.len(),
{
    if a.len() > 0 {
        lemma_lex_irrefl(a.skip(1));
    }
}

/// Two sequences neither of which precedes the other are equal.
pub proof fn lemma_lex_connected(a: Seq<char>, b: Seq<char>)
    requires
        !lex_lt(a, b),
        !lex_lt(b, a),
    ensures
        a == b,
    decreases a.len(),
{
    if b.len() == 0 || a.len() == 0 {
        assert(a =~= b);
    } else if a[0] != b[0] {
    } else {
        lemma_lex_connected(a.skip(1), b.skip(1));
        let a1 = a.skip(1);
        let b1 = b.skip(1);
        assert(a1.len() == a.len() - 1);
        assert(b1.len() == b.len() - 1);
        assert(a1 =~= b1);
        assert(a.len() == b.len());
        assert forall|i: int| 0 <= i < a.len() implies a[i] == b[i] by {
            if i >= 1 {
                assert(a[i] == a1[i - 1]);
                assert(b[i] == b1[i - 1]);
            }
        }
        assert(a =~= b);
    }
}

/// Lexicographic order is transitive.
pub proof fn lemma_lex_trans(a: Seq<char>, b: Seq<char>, c: Seq<char>)
    requires
        lex_lt(a, b),
        lex_lt(b, c),
    ensures
        lex_lt(a, c),
    decreases a.len() + b.len() + c.len(),
{
    if c.len() == 0 {
    } else if b.len() == 0 {
    } else if a.len() == 0 {
    } else if a[0] == b[0] && b[0] == c[0] {
        lemma_lex_trans(a.skip(1), b.skip(1), c.skip(1));
    }
}

/// Whether `a` and `b` hold the same characters.
pub fn str_eq(a: &str, b: &str) -> (r: bool)
    ensures
        r == (a@ == b@),
{
    let an = a.unicode_len();
    let bn = b.unicode_len();
    if an != bn {
        return false;
    }
    let r = match_at(a, 0, b);
    proof {
        if r {
            assert(a@.subrange(0, bn as int) =~= a@);
        } else {
            if a@ == b@ {
                assert(a@.subrange(0, bn as int) =~= b@);
            }
        }
    }
    r
}

/// Whether `a` precedes `b` in lexicographic order.
pub fn str_lt(a: &str, b: &str) -> (r: bool)
    ensures
        r == lex_lt(a@, b@),
{
    let an = a.unicode_len();
    let bn = b.unicode_len();
    let mut i: usize = 0;
    proof {
        assert(a@.skip(0) =~= a@);
        assert(b@.skip(0) =~= b@);
    }
    while i < an && i < bn
        invariant
            i <= an,
            i <= bn,
            an == a@.len(),
            bn == b@.len(),
            lex_lt(a@, b@) == lex_lt(a@.skip(i as int), b@.skip(i as int)),
        decreases an - i,
    {
        let ca = a.get_char(i);
        let cb = b.get_char(i);
        proof {
            assert(a@.skip(i as int)[0] == a@[i as int]);
            assert(b@.skip(i as int)[0] == b@[i as int]);
            assert(a@.skip(i as int).skip(1) =~= a@.skip(i as int + 1));
            assert(b@.skip(i as int).skip(1) =~= b@.skip(i as int + 1));
        }
        if ca != cb {
            return ca < cb;
        }
        i += 1;
    }
    proof {
        if i >= bn {
            assert(b@.skip(i as int).len() == 0);
        } else {
            assert(a@.skip(i as int).len() == 0);
            assert(b@.skip(i as int).len() > 0);
        }
    }
    i < bn
}

/// Strictly ascending, hence duplicate-free.
pub open spec fn sorted_distinct(v: Seq<Seq<char>>) -> bool {
    forall|i: int, j: int| 0 <= i < j < v.len() ==> lex_lt(v[i], v[j])
}

/// Inserts `x` into a strictly sorted list, keeping it strictly sorted; a
/// value already present is not added again.
pub fn insert_sorted(v: &mut Vec<String>, x: String)
    requires
        sorted_distinct(views_of(old(v)@)),
    ensures
        sorted_distinct(views_of(final(v)@)),
        forall|y: Seq<char>|
            views_of(final(v)@).contains(y) <==> (views_of(old(v)@).contains(y) || y == x@),
{
    let ghost vs0 = views_of(v@);
    let mut k: usize = 0;
    while k < v.len() && str_lt(v[k].as_str(), x.as_str())
        invariant
            k <= v@.len(),
            v@ == old(v)@,
            forall|i: int| 0 <= i < k ==> lex_lt(views_of(v@)[i], x@),
        decreases v@.len() - k,
    {
        proof {
            assert(views_of(v@)[k as int] == v@[k as int]@);
        }
        k += 1;
    }
    if k < v.len() {
        proof {
            assert(views_of(v@)[k as int] == v@[k as int]@);
        }
        if !str_lt(x.as_str(), v[k].as_str()) {
            proof {
                lemma_lex_connected(v@[k as int]@, x@);
                assert(views_of(v@).contains(x@));
            }
            return ;
        }
    }
    v.insert(k, x);
    proof {
        let vs = views_of(v@);
        assert(vs.len() == vs0.len() + 1);
        assert(vs[k as int] == x@);
        assert(forall|i: int| 0 <= i < k ==> vs[i] == vs0[i]);
        assert(forall|i: int| k < i < vs.len() ==> vs[i] == vs0[i - 1]);
        assert forall|i: int, j: int| 0 <= i < j < vs.len() implies lex_lt(vs[i], vs[j]) by {
            if i < k && j == k {
            } else if i == k && j > k {
                assert(lex_lt(x@, vs0[j - 1])) by {
                    if k < vs0.len() && !lex_lt(x@, vs0[k as int]) {
                        lemma_lex_connected(vs0[k as int], x@);
                    }
                    if j - 1 > k {
                        lemma_lex_trans(x@, vs0[k as int], vs0[j - 1]);
                    }
                }
            } else if i < k && j > k {
                assert(lex_lt(vs0[i], x@));
                assert(lex_lt(x@, vs0[j - 1])) by {
                    if j - 1 > k {
                        lemma_lex_trans(x@, vs0[k as int], vs0[j - 1]);
                    }
                }
                lemma_lex_trans(vs0[i], x@, vs0[j - 1]);
            }
        }
        assert forall|y: Seq<char>| vs.contains(y) implies (vs0.contains(y) || y == x@) by {
            let i = choose|i: int| 0 <= i < vs.len() && vs[i] == y;
            if i < k {
                assert(vs0[i] == y);
            } else if i > k {
                assert(vs0[i - 1] == y);
            }
        }
        assert forall|y: Seq<char>| vs0.contains(y) || y == x@ implies vs.contains(y) by {
            if vs0.contains(y) {
                let i = choose|i: int| 0 <= i < vs0.len() && vs0[i] == y;
                if i < k {
                    assert(vs[i] == y);
                } else {
                    assert(vs[i + 1] == y);
                }
            } else {
                assert(vs[k as int] == y);
            }
        }
    }
}

} // verus!
