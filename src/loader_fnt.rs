//! Fonts described in the plain `fnt` text format: `page` lines name the
//! image, `char` lines give each character's region.

use vstd::prelude::*;

use crate::char_map::CharMap;
use crate::font::Rect;
use crate::layout::{rows_view, strip_cr, ImageFontLayout};
use crate::loader::{
    is_blank, is_white_space, ImageFontDescriptor, ImageFontDescriptorValidationError,
    ImageFontLoadError,
};
use crate::text::{chars_of, string_of};

verus! {

/// Finished lines and the line in progress, after reading `s`.
pub open spec fn lines_acc(s: Seq<char>) -> (Seq<Seq<char>>, Seq<char>)
    decreases s.len(),
{
    if s.len() == 0 {
        (Seq::empty(), Seq::empty())
    } else {
        let (done, cur) = lines_acc(s.drop_last());
        if s.last() == '\n' {
            (done.push(strip_cr(cur)), Seq::empty())
        } else {
            (done, cur.push(s.last()))
        }
    }
}

/// The lines of `s`: split at `"\n"` or `"\r\n"`; a final line break adds no
/// empty line.
pub open spec fn text_lines(s: Seq<char>) -> Seq<Seq<char>> {
    let (done, cur) = lines_acc(s);
    if cur.len() > 0 {
        done.push(cur)
    } else {
        done
    }
}

/// Finished words and the word in progress, after reading `s`.
pub open spec fn words_acc(s: Seq<char>) -> (Seq<Seq<char>>, Seq<char>)
    decreases s.len(),
{
    if s.len() == 0 {
        (Seq::empty(), Seq::empty())
    } else {
        let (done, cur) = words_acc(s.drop_last());
        if is_white_space(s.last()) {
            if cur.len() > 0 {
                (done.push(cur), Seq::empty())
            } else {
                (done, Seq::empty())
            }
        } else {
            (done, cur.push(s.last()))
        }
    }
}

/// The maximal runs of characters other than white space.
pub open spec fn words(s: Seq<char>) -> Seq<Seq<char>> {
    let (done, cur) = words_acc(s);
    if cur.len() > 0 {
        done.push(cur)
    } else {
        done
    }
}

/// Index of the first `'='` of `s`, or -1.
pub open spec fn first_eq(s: Seq<char>) -> int
    decreases s.len(),
{
    if s.len() == 0 {
        -1
    } else if s[0] == '=' {
        0
    } else {
        let f = first_eq(s.drop_first());
        if f < 0 {
            -1
        } else {
            f + 1
        }
    }
}

/// A `key=value` word: the text before the first `'='`, and the text after it
/// up to the next `'='`.
pub open spec fn pair_of(w: Seq<char>) -> Option<(Seq<char>, Seq<char>)> {
    let k = first_eq(w);
    if k < 0 {
        None
    } else {
        let rest = w.skip(k + 1);
        let e = first_eq(rest);
        Some((w.take(k), if e < 0 { rest } else { rest.take(e) }))
    }
}

/// The pairs of the words that have one, in order.
pub open spec fn pairs_of(ws: Seq<Seq<char>>) -> Seq<(Seq<char>, Seq<char>)>
    decreases ws.len(),
{
    if ws.len() == 0 {
        Seq::empty()
    } else {
        let p = pairs_of(ws.drop_last());
        match pair_of(ws.last()) {
            Some(kv) => p.push(kv),
            None => p,
        }
    }
}

/// The value of the last pair with key `key`.
pub open spec fn lookup(ps: Seq<(Seq<char>, Seq<char>)>, key: Seq<char>) -> Option<Seq<char>>
    decreases ps.len(),
{
    if ps.len() == 0 {
        None
    } else if ps.last().0 == key {
        Some(ps.last().1)
    } else {
        lookup(ps.drop_last(), key)
    }
}

pub open spec fn starts_with(s: Seq<char>, prefix: Seq<char>) -> bool {
    s.len() >= prefix.len() && s.take(prefix.len() as int) == prefix
}

pub open spec fn trim_start_quotes(s: Seq<char>) -> Seq<char>
    decreases s.len(),
{
    if s.len() > 0 && s[0] == '"' {
        trim_start_quotes(s.drop_first())
    } else {
        s
    }
}

pub open spec fn trim_end_quotes(s: Seq<char>) -> Seq<char>
    decreases s.len(),
{
    if s.len() > 0 && s.last() == '"' {
        trim_end_quotes(s.drop_last())
    } else {
        s
    }
}

/// `s` without the `'"'` characters at either end.
pub open spec fn trim_quotes(s: Seq<char>) -> Seq<char> {
    trim_end_quotes(trim_start_quotes(s))
}

pub open spec fn is_digit(c: char) -> bool {
    '0' <= c <= '9'
}

/// The number that the decimal digits `d` write.
pub open spec fn digits_value(d: Seq<char>) -> nat
    decreases d.len(),
{
    if d.len() == 0 {
        0
    } else {
        digits_value(d.drop_last()) * 10 + (d.last() as nat - '0' as nat) as nat
    }
}

pub open spec fn all_digits(d: Seq<char>) -> bool {
    forall|i: int| 0 <= i < d.len() ==> is_digit(#[trigger] d[i])
}

/// An unsigned decimal number: an optional `'+'`, then one or more digits.
pub open spec fn parse_decimal(s: Seq<char>) -> Option<nat> {
    let d = if s.len() > 0 && s[0] == '+' {
        s.drop_first()
    } else {
        s
    };
    if d.len() > 0 && all_digits(d) {
        Some(digits_value(d))
    } else {
        None
    }
}

/// The number `s` writes if it is at most `max`, else 0.
pub open spec fn number_or_zero(s: Seq<char>, max: nat) -> nat {
    match parse_decimal(s) {
        Some(v) => if v <= max {
            v
        } else {
            0
        },
        None => 0,
    }
}

pub open spec fn page_prefix() -> Seq<char> {
    seq!['p', 'a', 'g', 'e', ' ', 'i', 'd', '=']
}

pub open spec fn char_prefix() -> Seq<char> {
    seq!['c', 'h', 'a', 'r', ' ', 'i', 'd', '=']
}

/// `a + b`, clamped to `u32`.
pub open spec fn clamped_sum(a: nat, b: nat) -> u32 {
    if a + b > u32::MAX {
        u32::MAX
    } else {
        (a + b) as u32
    }
}

/// The character and region of a `char` line's pairs, if it has all five
/// keys. A number that does not parse counts as 0; the id is a byte.
pub open spec fn char_entry(ps: Seq<(Seq<char>, Seq<char>)>) -> Option<(char, Rect)> {
    match (
        lookup(ps, seq!['i', 'd']),
        lookup(ps, seq!['x']),
        lookup(ps, seq!['y']),
        lookup(ps, seq!['w', 'i', 'd', 't', 'h']),
        lookup(ps, seq!['h', 'e', 'i', 'g', 'h', 't']),
    ) {
        (Some(id), Some(x), Some(y), Some(w), Some(h)) => {
            let x = number_or_zero(x, u32::MAX as nat);
            let y = number_or_zero(y, u32::MAX as nat);
            Some(
                (
                    (number_or_zero(id, 255) as u8) as char,
                    Rect {
                        min_x: x as u32,
                        min_y: y as u32,
                        max_x: clamped_sum(x, number_or_zero(w, u32::MAX as nat)),
                        max_y: clamped_sum(y, number_or_zero(h, u32::MAX as nat)),
                    },
                ),
            )
        },
        _ => None,
    }
}

/// The image file and the character regions after reading `lines`: the last
/// `page` line with a `file` names the image, and a later `char` line for a
/// character replaces an earlier one.
pub open spec fn fnt_scan(lines: Seq<Seq<char>>) -> (Seq<char>, Map<char, Rect>)
    decreases lines.len(),
{
    if lines.len() == 0 {
        (Seq::empty(), Map::empty())
    } else {
        let (file, map) = fnt_scan(lines.drop_last());
        let line = lines.last();
        let ps = pairs_of(words(line));
        if starts_with(line, page_prefix()) {
            match lookup(ps, seq!['f', 'i', 'l', 'e']) {
                Some(v) => (trim_quotes(v), map),
                None => (file, map),
            }
        } else if starts_with(line, char_prefix()) {
            match char_entry(ps) {
                Some((c, r)) => (file, map.insert(c, r)),
                None => (file, map),
            }
        } else {
            (file, map)
        }
    }
}

proof fn lemma_first_eq_bounds(s: Seq<char>)
    ensures
        -1 <= first_eq(s) < s.len(),
        first_eq(s) >= 0 ==> s[first_eq(s)] == '=',
    decreases s.len(),
{
    if s.len() > 0 && s[0] != '=' {
        lemma_first_eq_bounds(s.drop_first());
    }
}

/// The first `'='` of `w` at or after `from`, as an index of `w`.
fn find_eq(w: &Vec<char>, from: usize) -> (r: Option<usize>)
    requires
        from <= w@.len(),
    ensures
        w@.len() <= usize::MAX,
        match r {
            Some(k) => from <= k < w@.len() && k - from == first_eq(w@.skip(from as int)),
            None => first_eq(w@.skip(from as int)) == -1,
        },
{
    let mut i: usize = from;
    while i < w.len()
        invariant
            from <= i <= w@.len(),
            first_eq(w@.skip(from as int)) == if first_eq(w@.skip(i as int)) < 0 {
                -1
            } else {
                first_eq(w@.skip(i as int)) + (i - from)
            },
        decreases w@.len() - i,
    {
        proof {
            assert(w@.skip(i as int).drop_first() == w@.skip(i + 1));
            assert(w@.skip(i as int)[0] == w@[i as int]);
            lemma_first_eq_bounds(w@.skip(i + 1));
        }
        if w[i] == '=' {
            return Some(i);
        }
        i += 1;
    }
    proof {
        assert(w@.skip(i as int).len() == 0);
    }
    None
}

fn copy_chars(s: &Vec<char>, from: usize, to: usize) -> (r: Vec<char>)
    requires
        from <= to <= s@.len(),
    ensures
        r@ == s@.subrange(from as int, to as int),
{
    let mut v: Vec<char> = Vec::new();
    let mut i: usize = from;
    while i < to
        invariant
            from <= i <= to <= s@.len(),
            v@ == s@.subrange(from as int, i as int),
        decreases to - i,
    {
        v.push(s[i]);
        proof {
            assert(s@.subrange(from as int, i + 1) == s@.subrange(from as int, i as int).push(
                s@[i as int],
            ));
        }
        i += 1;
    }
    v
}

/// The pair of a `key=value` word.
fn pair_exec(w: &Vec<char>) -> (r: Option<(Vec<char>, Vec<char>)>)
    ensures
        match r {
            Some(kv) => pair_of(w@) == Some((kv.0@, kv.1@)),
            None => pair_of(w@) is None,
        },
{
    proof {
        assert(w@.skip(0) == w@);
    }
    let k = find_eq(w, 0)?;
    let key = copy_chars(w, 0, k);
    let ghost rest = w@.skip(k + 1);
    let end = match find_eq(w, k + 1) {
        Some(e) => e,
        None => w.len(),
    };
    let value = copy_chars(w, k + 1, end);
    proof {
        assert(key@ == w@.take(k as int));
        if first_eq(rest) < 0 {
            assert(value@ == rest);
        } else {
            assert(value@ == rest.take(first_eq(rest)));
        }
    }
    Some((key, value))
}

/// The lines of `s`, as `text_lines` gives them.
fn split_text_lines(s: &Vec<char>) -> (r: Vec<Vec<char>>)
    ensures
        rows_view(r@) == text_lines(s@),
{
    let mut done: Vec<Vec<char>> = Vec::new();
    let mut cur: Vec<char> = Vec::new();
    let mut i: usize = 0;
    proof {
        assert(s@.take(0) =~= Seq::<char>::empty());
    }
    while i < s.len()
        invariant
            i <= s@.len(),
            (rows_view(done@), cur@) == lines_acc(s@.take(i as int)),
        decreases s@.len() - i,
    {
        let c = s[i];
        proof {
            assert(s@.take(i + 1).drop_last() == s@.take(i as int));
        }
        if c == '\n' {
            let mut line = cur;
            if line.len() > 0 && line[line.len() - 1] == '\r' {
                line.pop();
            }
            done.push(line);
            cur = Vec::new();
            proof {
                assert(rows_view(done@) =~= lines_acc(s@.take(i as int)).0.push(
                    strip_cr(lines_acc(s@.take(i as int)).1),
                ));
            }
        } else {
            cur.push(c);
        }
        i += 1;
    }
    proof {
        assert(s@.take(s@.len() as int) == s@);
    }
    if cur.len() > 0 {
        done.push(cur);
        proof {
            assert(rows_view(done@) =~= lines_acc(s@).0.push(lines_acc(s@).1));
        }
    }
    done
}

/// The words of `l`.
fn split_words(l: &Vec<char>) -> (r: Vec<Vec<char>>)
    ensures
        rows_view(r@) == words(l@),
{
    let mut done: Vec<Vec<char>> = Vec::new();
    let mut cur: Vec<char> = Vec::new();
    let mut i: usize = 0;
    proof {
        assert(l@.take(0) =~= Seq::<char>::empty());
    }
    while i < l.len()
        invariant
            i <= l@.len(),
            (rows_view(done@), cur@) == words_acc(l@.take(i as int)),
        decreases l@.len() - i,
    {
        let c = l[i];
        proof {
            assert(l@.take(i + 1).drop_last() == l@.take(i as int));
        }
        if crate::loader::white_space(c) {
            if cur.len() > 0 {
                done.push(cur);
                proof {
                    assert(rows_view(done@) =~= words_acc(l@.take(i as int)).0.push(
                        words_acc(l@.take(i as int)).1,
                    ));
                }
            }
            cur = Vec::new();
        } else {
            cur.push(c);
        }
        i += 1;
    }
    proof {
        assert(l@.take(l@.len() as int) == l@);
    }
    if cur.len() > 0 {
        done.push(cur);
        proof {
            assert(rows_view(done@) =~= words_acc(l@).0.push(words_acc(l@).1));
        }
    }
    done
}

pub open spec fn pairs_view(ps: Seq<(Vec<char>, Vec<char>)>) -> Seq<(Seq<char>, Seq<char>)> {
    ps.map_values(|p: (Vec<char>, Vec<char>)| (p.0@, p.1@))
}

/// The pairs of the words of a line.
fn line_pairs(line: &Vec<char>) -> (r: Vec<(Vec<char>, Vec<char>)>)
    ensures
        pairs_view(r@) == pairs_of(words(line@)),
{
    let ws = split_words(line);
    let ghost wv = rows_view(ws@);
    let mut out: Vec<(Vec<char>, Vec<char>)> = Vec::new();
    let mut i: usize = 0;
    proof {
        assert(wv.take(0) =~= Seq::<Seq<char>>::empty());
        assert(pairs_view(out@) =~= Seq::<(Seq<char>, Seq<char>)>::empty());
    }
    while i < ws.len()
        invariant
            wv == rows_view(ws@),
            i <= ws@.len(),
            pairs_view(out@) == pairs_of(wv.take(i as int)),
        decreases ws@.len() - i,
    {
        proof {
            assert(wv.take(i + 1).drop_last() == wv.take(i as int));
            assert(wv.take(i + 1).last() == ws@[i as int]@);
        }
        match pair_exec(&ws[i]) {
            Some(kv) => {
                out.push(kv);
                proof {
                    assert(pairs_view(out@) =~= pairs_of(wv.take(i as int)).push(
                        pair_of(ws@[i as int]@)->Some_0,
                    ));
                }
            },
            None => {},
        }
        i += 1;
    }
    proof {
        assert(wv.take(wv.len() as int) == wv);
    }
    out
}

fn chars_eq(a: &Vec<char>, b: &Vec<char>) -> (r: bool)
    ensures
        r == (a@ == b@),
{
    if a.len() != b.len() {
        return false;
    }
    let mut i: usize = 0;
    while i < a.len()
        invariant
            a@.len() == b@.len(),
            i <= a@.len(),
            forall|j: int| 0 <= j < i ==> a@[j] == b@[j],
        decreases a@.len() - i,
    {
        if a[i] != b[i] {
            return false;
        }
        i += 1;
    }
    proof {
        assert(a@ =~= b@);
    }
    true
}

/// The index of the last pair with key `key`.
fn lookup_exec(ps: &Vec<(Vec<char>, Vec<char>)>, key: &Vec<char>) -> (r: Option<usize>)
    ensures
        match r {
            Some(k) => k < ps@.len() && lookup(pairs_view(ps@), key@) == Some(ps@[k as int].1@),
            None => lookup(pairs_view(ps@), key@) is None,
        },
{
    let ghost pv = pairs_view(ps@);
    let mut i: usize = ps.len();
    proof {
        assert(pv.take(pv.len() as int) == pv);
    }
    while i > 0
        invariant
            pv == pairs_view(ps@),
            i <= ps@.len(),
            lookup(pv, key@) == lookup(pv.take(i as int), key@),
        decreases i,
    {
        proof {
            assert(pv.take(i as int).drop_last() == pv.take(i - 1));
            assert(pv.take(i as int).last() == (ps@[i - 1].0@, ps@[i - 1].1@));
        }
        if chars_eq(&ps[i - 1].0, key) {
            return Some(i - 1);
        }
        i -= 1;
    }
    None
}

fn starts_with_exec(s: &Vec<char>, prefix: &Vec<char>) -> (r: bool)
    ensures
        r == starts_with(s@, prefix@),
{
    if s.len() < prefix.len() {
        return false;
    }
    let mut i: usize = 0;
    while i < prefix.len()
        invariant
            prefix@.len() <= s@.len(),
            i <= prefix@.len(),
            forall|j: int| 0 <= j < i ==> s@[j] == prefix@[j],
        decreases prefix@.len() - i,
    {
        if s[i] != prefix[i] {
            proof {
                assert(s@.take(prefix@.len() as int)[i as int] != prefix@[i as int]);
            }
            return false;
        }
        i += 1;
    }
    proof {
        assert(s@.take(prefix@.len() as int) =~= prefix@);
    }
    true
}

/// `v` without the quotes at either end.
fn trim_quotes_exec(v: &Vec<char>) -> (r: Vec<char>)
    ensures
        r@ == trim_quotes(v@),
{
    let n = v.len();
    let mut a: usize = 0;
    proof {
        assert(v@.subrange(0, n as int) == v@);
    }
    while a < n && v[a] == '"'
        invariant
            a <= n,
            n == v@.len(),
            trim_start_quotes(v@) == trim_start_quotes(v@.subrange(a as int, n as int)),
        decreases n - a,
    {
        proof {
            assert(v@.subrange(a as int, n as int).drop_first() == v@.subrange(a + 1, n as int));
        }
        a += 1;
    }
    let ghost u = v@.subrange(a as int, n as int);
    let mut b: usize = n;
    while b > a && v[b - 1] == '"'
        invariant
            a <= b <= n,
            n == v@.len(),
            u == v@.subrange(a as int, n as int),
            trim_end_quotes(u) == trim_end_quotes(v@.subrange(a as int, b as int)),
        decreases b - a,
    {
        proof {
            assert(v@.subrange(a as int, b as int).drop_last() == v@.subrange(a as int, b - 1));
        }
        b -= 1;
    }
    copy_chars(v, a, b)
}

/// The number `s` writes if it is at most `max`, else 0.
fn number_or_zero_exec(s: &Vec<char>, max: u32) -> (r: u32)
    ensures
        r == number_or_zero(s@, max as nat),
{
    let start: usize = if s.len() > 0 && s[0] == '+' {
        1
    } else {
        0
    };
    let ghost d = if s@.len() > 0 && s@[0] == '+' {
        s@.drop_first()
    } else {
        s@
    };
    proof {
        assert(d == s@.subrange(start as int, s@.len() as int));
    }
    if start == s.len() {
        return 0;
    }
    let mut value: u64 = 0;
    let mut big = false;
    let mut i: usize = start;
    proof {
        assert(s@.subrange(start as int, start as int) =~= Seq::<char>::empty());
    }
    while i < s.len()
        invariant
            start <= i <= s@.len(),
            d == s@.subrange(start as int, s@.len() as int),
            d == (if s@.len() > 0 && s@[0] == '+' {
                s@.drop_first()
            } else {
                s@
            }),
            all_digits(s@.subrange(start as int, i as int)),
            big ==> digits_value(s@.subrange(start as int, i as int)) > max,
            !big ==> value == digits_value(s@.subrange(start as int, i as int)) && value <= max,
        decreases s@.len() - i,
    {
        let c = s[i];
        let ghost pre = s@.subrange(start as int, i as int);
        let ghost post = s@.subrange(start as int, i + 1);
        proof {
            assert(post.drop_last() == pre);
            assert(post.last() == c);
        }
        if !('0' <= c && c <= '9') {
            proof {
                assert(d[i - start] == c);
                assert(!is_digit(c));
                assert(!all_digits(d));
                assert(parse_decimal(s@) is None);
            }
            return 0;
        }
        if !big {
            value = value * 10 + (c as u64 - '0' as u64);
            if value > max as u64 {
                big = true;
            }
        }
        proof {
            assert(all_digits(post)) by {
                assert forall|j: int| 0 <= j < post.len() implies is_digit(#[trigger] post[j]) by {
                    if j < pre.len() {
                        assert(post[j] == pre[j]);
                    }
                }
            }
        }
        i += 1;
    }
    proof {
        assert(s@.subrange(start as int, i as int) == d);
    }
    if big {
        0
    } else {
        value as u32
    }
}

/// `a + b`, clamped to `u32`.
fn clamped_add(a: u32, b: u32) -> (r: u32)
    ensures
        r == clamped_sum(a as nat, b as nat),
{
    if a as u64 + b as u64 > u32::MAX as u64 {
        u32::MAX
    } else {
        a + b
    }
}

/// Loader of fonts in the `fnt` text format.
#[derive(Debug, Default)]
pub struct ImageFntFontLoader;

/// What reading an `fnt` text yields: the image file, the character regions,
/// and the error, if any.
pub open spec fn spec_fnt_descriptor(text: Seq<char>) -> Result<
    (Seq<char>, Map<char, Rect>),
    ImageFontLoadError,
> {
    let (file, map) = fnt_scan(text_lines(text));
    if file.len() == 0 {
        Err(
            ImageFontLoadError::DescriptorValidationError(
                ImageFontDescriptorValidationError::EmptyImagePath,
            ),
        )
    } else if map.dom().len() == 0 {
        Err(
            ImageFontLoadError::DescriptorValidationError(
                ImageFontDescriptorValidationError::EmptyLayoutString,
            ),
        )
    } else if is_blank(file) {
        Err(
            ImageFontLoadError::DescriptorValidationError(
                ImageFontDescriptorValidationError::EmptyImagePath,
            ),
        )
    } else {
        Ok((file, map))
    }
}

impl ImageFntFontLoader {
    /// The file extensions of the format.
    pub fn extensions(&self) -> (r: Vec<&'static str>)
        ensures
            r@.len() == 1,
            r@[0]@ == seq!['f', 'n', 't'],
    {
        proof {
            reveal_strlit("fnt");
        }
        vec!["fnt"]
    }

    /// Reads an `fnt` text into a font description with a manual layout.
    pub fn parse_descriptor(&self, text: &str) -> (r: Result<ImageFontDescriptor, ImageFontLoadError>)
        ensures
            match r {
                Ok(d) => spec_fnt_descriptor(text@) is Ok && d.spec_image()
                    == spec_fnt_descriptor(text@)->Ok_0.0 && match d.spec_layout() {
                    ImageFontLayout::Manual(rects) => rects.wf() && rects@ == spec_fnt_descriptor(
                        text@,
                    )->Ok_0.1,
                    _ => false,
                },
                Err(e) => spec_fnt_descriptor(text@) == Err::<(Seq<char>, Map<char, Rect>), _>(e),
            },
    {
        let cs = chars_of(text);
        let lines = split_text_lines(&cs);
        let ghost lv = rows_view(lines@);
        let page = chars_of("page id=");
        let chr = chars_of("char id=");
        let file_key = chars_of("file");
        let id_key = chars_of("id");
        let x_key = chars_of("x");
        let y_key = chars_of("y");
        let width_key = chars_of("width");
        let height_key = chars_of("height");
        proof {
            reveal_strlit("page id=");
            reveal_strlit("char id=");
            reveal_strlit("file");
            reveal_strlit("id");
            reveal_strlit("x");
            reveal_strlit("y");
            reveal_strlit("width");
            reveal_strlit("height");
            assert(lv.take(0) =~= Seq::<Seq<char>>::empty());
        }
        let mut file: Vec<char> = Vec::new();
        let mut map: CharMap<Rect> = CharMap::new();
        let mut i: usize = 0;
        while i < lines.len()
            invariant
                lv == rows_view(lines@),
                lv == text_lines(cs@),
                cs@ == text@,
                i <= lines@.len(),
                map.wf(),
                (file@, map@) == fnt_scan(lv.take(i as int)),
                page@ == page_prefix(),
                chr@ == char_prefix(),
                file_key@ == seq!['f', 'i', 'l', 'e'],
                id_key@ == seq!['i', 'd'],
                x_key@ == seq!['x'],
                y_key@ == seq!['y'],
                width_key@ == seq!['w', 'i', 'd', 't', 'h'],
                height_key@ == seq!['h', 'e', 'i', 'g', 'h', 't'],
            decreases lines@.len() - i,
        {
            let line = &lines[i];
            proof {
                assert(lv.take(i + 1).drop_last() == lv.take(i as int));
                assert(lv.take(i + 1).last() == line@);
            }
            let ps = line_pairs(line);
            if starts_with_exec(line, &page) {
                if let Some(k) = lookup_exec(&ps, &file_key) {
                    file = trim_quotes_exec(&ps[k].1);
                }
            } else if starts_with_exec(line, &chr) {
                let id = lookup_exec(&ps, &id_key);
                let x = lookup_exec(&ps, &x_key);
                let y = lookup_exec(&ps, &y_key);
                let w = lookup_exec(&ps, &width_key);
                let h = lookup_exec(&ps, &height_key);
                if let (Some(id), Some(x), Some(y), Some(w), Some(h)) = (id, x, y, w, h) {
                    let code = number_or_zero_exec(&ps[id].1, 255);
                    let character = (code as u8) as char;
                    let x = number_or_zero_exec(&ps[x].1, u32::MAX);
                    let y = number_or_zero_exec(&ps[y].1, u32::MAX);
                    let width = number_or_zero_exec(&ps[w].1, u32::MAX);
                    let height = number_or_zero_exec(&ps[h].1, u32::MAX);
                    let rect = Rect {
                        min_x: x,
                        min_y: y,
                        max_x: clamped_add(x, width),
                        max_y: clamped_add(y, height),
                    };
                    map.insert(character, rect);
                }
            }
            i += 1;
        }
        proof {
            assert(lv.take(lv.len() as int) == lv);
        }
        if file.len() == 0 {
            return Err(
                ImageFontLoadError::DescriptorValidationError(
                    ImageFontDescriptorValidationError::EmptyImagePath,
                ),
            );
        }
        if map.is_empty() {
            return Err(
                ImageFontLoadError::DescriptorValidationError(
                    ImageFontDescriptorValidationError::EmptyLayoutString,
                ),
            );
        }
        let image = string_of(&file);
        match ImageFontDescriptor::new(image, ImageFontLayout::Manual(map)) {
            Ok(d) => Ok(d),
            Err(e) => Err(ImageFontLoadError::DescriptorValidationError(e)),
        }
    }
}

} // verus!
