//! What the page renderer is handed, and the helpers its templates call.

use vstd::prelude::*;
use vstd::multiset::Multiset;

use crate::common::{capitalize, capitalized};
use crate::gallery::Picture;

verus! {

broadcast use vstd::seq_lib::group_to_multiset_ensures;

/// Whether `a` comes no later than `b` in the order of `String`'s `Ord`:
/// character by character, a prefix first.
pub open spec fn text_le(a: Seq<char>, b: Seq<char>) -> bool
    decreases a.len(),
{
    if a.len() == 0 {
        true
    } else if b.len() == 0 {
        false
    } else if (a[0] as u32) < (b[0] as u32) {
        true
    } else if (a[0] as u32) > (b[0] as u32) {
        false
    } else {
        text_le(a.drop_first(), b.drop_first())
    }
}

pub proof fn lemma_text_le_total(a: Seq<char>, b: Seq<char>)
    ensures
        text_le(a, b) || text_le(b, a),
    decreases a.len(),
{
    if a.len() > 0 && b.len() > 0 && a[0] as u32 == b[0] as u32 {
        lemma_text_le_total(a.drop_first(), b.drop_first());
    }
}

pub proof fn lemma_text_le_transitive(a: Seq<char>, b: Seq<char>, c: Seq<char>)
    requires
        text_le(a, b),
        text_le(b, c),
    ensures
        text_le(a, c),
    decreases a.len(),
{
    if a.len() > 0 && b.len() > 0 && c.len() > 0 && a[0] as u32 == b[0] as u32 && b[0] as u32
        == c[0] as u32 {
        lemma_text_le_transitive(a.drop_first(), b.drop_first(), c.drop_first());
    }
}

/// Whether `a` comes no later than `b` in `String`'s order.
pub fn name_le(a: &String, b: &String) -> (r: bool)
    ensures
        r == text_le(a@, b@),
{
    let la = a.as_str().unicode_len();
    let lb = b.as_str().unicode_len();
    let mut i: usize = 0;
    assert(a@.skip(0) =~= a@);
    assert(b@.skip(0) =~= b@);
    while i < la && i < lb
        invariant
            la == a@.len(),
            lb == b@.len(),
            i <= la,
            i <= lb,
            text_le(a@.skip(i as int), b@.skip(i as int)) == text_le(a@, b@),
        decreases la - i,
    {
        let ca = a.as_str().get_char(i);
        let cb = b.as_str().get_char(i);
        assert(a@.skip(i as int).drop_first() =~= a@.skip(i + 1));
        assert(b@.skip(i as int).drop_first() =~= b@.skip(i + 1));
        if (ca as u32) < (cb as u32) {
            return true;
        }
        if (ca as u32) > (cb as u32) {
            return false;
        }
        i = i + 1;
    }
    i == la
}

/// Whether the names of `s` rise, each no later than the ones after it.
pub open spec fn sorted_by_name(s: Seq<Picture>) -> bool {
    forall|i: int, j: int| 0 <= i < j < s.len() ==> text_le(s[i].name@, s[j].name@)
}

/// Whether some picture of `pics` has the category `c`.
pub open spec fn has_category(pics: Seq<Picture>, c: Seq<char>) -> bool {
    exists|i: int| 0 <= i < pics.len() && #[trigger] pics[i].category.deep_view() == Some(c)
}

/// Whether some picture of `pics` has the extension `e`.
pub open spec fn has_extension(pics: Seq<Picture>, e: Seq<char>) -> bool {
    exists|i: int| 0 <= i < pics.len() && #[trigger] pics[i].extension@ == e
}

/// Whether no two texts of `s` are equal.
pub open spec fn distinct_texts(s: Seq<String>) -> bool {
    forall|a: int, b: int| 0 <= a < b < s.len() ==> s[a]@ != s[b]@
}

/// Whether `s` holds a text equal to `t`.
pub open spec fn holds_text(s: Seq<String>, t: Seq<char>) -> bool {
    exists|k: int| 0 <= k < s.len() && #[trigger] s[k]@ == t
}

/// The data that the page renderer is handed besides the config.
pub struct RenderInput {
    /// The pictures, sorted by name.
    pub pictures: Vec<Picture>,
    /// Each category that a picture has, once.
    pub categories: Vec<String>,
    /// Each extension that a picture has, once.
    pub extensions: Vec<String>,
}

proof fn lemma_holds_text_push(s: Seq<String>, x: String)
    ensures
        forall|t: Seq<char>| #[trigger]
            holds_text(s.push(x), t) <==> (holds_text(s, t) || x@ == t),
{
    assert forall|t: Seq<char>| #[trigger]
        holds_text(s.push(x), t) <==> (holds_text(s, t) || x@ == t) by {
        let s2 = s.push(x);
        if holds_text(s, t) {
            let k = choose|k: int| 0 <= k < s.len() && #[trigger] s[k]@ == t;
            assert(s2[k] == s[k]);
            assert(holds_text(s2, t));
        }
        if x@ == t {
            assert(s2[s.len() as int] == x);
            assert(holds_text(s2, t));
        }
        if holds_text(s2, t) {
            let k = choose|k: int| 0 <= k < s2.len() && #[trigger] s2[k]@ == t;
            if k < s.len() {
                assert(s2[k] == s[k]);
                assert(holds_text(s, t));
            }
        }
    }
}

proof fn lemma_has_category_step(pics: Seq<Picture>, i: int)
    requires
        0 <= i < pics.len(),
    ensures
        forall|c: Seq<char>| has_category(pics.take(i + 1), c) <==> (has_category(pics.take(i), c)
            || pics[i].category.deep_view() == Some(c)),
{
    assert forall|c: Seq<char>| has_category(pics.take(i + 1), c) <==> (has_category(
        pics.take(i),
        c,
    ) || pics[i].category.deep_view() == Some(c)) by {
        if has_category(pics.take(i), c) {
            let w = choose|w: int|
                0 <= w < i && #[trigger] pics.take(i)[w].category.deep_view() == Some(c);
            assert(pics.take(i + 1)[w] == pics.take(i)[w]);
        }
        if pics[i].category.deep_view() == Some(c) {
            assert(pics.take(i + 1)[i] == pics[i]);
        }
        if has_category(pics.take(i + 1), c) {
            let w = choose|w: int|
                0 <= w < i + 1 && #[trigger] pics.take(i + 1)[w].category.deep_view() == Some(c);
            if w < i {
                assert(pics.take(i + 1)[w] == pics.take(i)[w]);
            }
        }
    }
}

proof fn lemma_has_extension_step(pics: Seq<Picture>, i: int)
    requires
        0 <= i < pics.len(),
    ensures
        forall|e: Seq<char>| has_extension(pics.take(i + 1), e) <==> (has_extension(
            pics.take(i),
            e,
        ) || pics[i].extension@ == e),
{
    assert forall|e: Seq<char>| has_extension(pics.take(i + 1), e) <==> (has_extension(
        pics.take(i),
        e,
    ) || pics[i].extension@ == e) by {
        if has_extension(pics.take(i), e) {
            let w = choose|w: int| 0 <= w < i && #[trigger] pics.take(i)[w].extension@ == e;
            assert(pics.take(i + 1)[w] == pics.take(i)[w]);
        }
        if pics[i].extension@ == e {
            assert(pics.take(i + 1)[i] == pics[i]);
        }
        if has_extension(pics.take(i + 1), e) {
            let w = choose|w: int| 0 <= w < i + 1 && #[trigger] pics.take(i + 1)[w].extension@ == e;
            if w < i {
                assert(pics.take(i + 1)[w] == pics.take(i)[w]);
            }
        }
    }
}

fn contains_text(v: &Vec<String>, t: &String) -> (r: bool)
    ensures
        r == holds_text(v@, t@),
{
    let mut k: usize = 0;
    while k < v.len()
        invariant
            k <= v.len(),
            forall|q: int| 0 <= q < k ==> v@[q]@ != t@,
        decreases v.len() - k,
    {
        if v[k] == *t {
            return true;
        }
        k = k + 1;
    }
    false
}

/// The categories that the pictures have, each once.
pub fn categories_of(pics: &Vec<Picture>) -> (r: Vec<String>)
    ensures
        distinct_texts(r@),
        forall|c: Seq<char>| holds_text(r@, c) <==> has_category(pics@, c),
{
    let mut r: Vec<String> = Vec::new();
    let mut i: usize = 0;
    while i < pics.len()
        invariant
            i <= pics.len(),
            distinct_texts(r@),
            forall|c: Seq<char>| holds_text(r@, c) <==> has_category(pics@.take(i as int), c),
        decreases pics.len() - i,
    {
        let ghost before = r@;
        match &pics[i].category {
            Some(c) => {
                if !contains_text(&r, c) {
                    r.push(c.clone());
                    proof {
                        lemma_holds_text_push(before, *c);
                    }
                }
            },
            None => {},
        }
        proof {
            lemma_has_category_step(pics@, i as int);
            assert forall|t: Seq<char>| holds_text(r@, t) <==> has_category(
                pics@.take(i + 1),
                t,
            ) by {
                assert(holds_text(before, t) <==> has_category(pics@.take(i as int), t));
            }
        }
        i = i + 1;
    }
    assert(pics@.take(pics.len() as int) =~= pics@);
    r
}

/// The extensions that the pictures have, each once.
pub fn extensions_of(pics: &Vec<Picture>) -> (r: Vec<String>)
    ensures
        distinct_texts(r@),
        forall|e: Seq<char>| holds_text(r@, e) <==> has_extension(pics@, e),
{
    let mut r: Vec<String> = Vec::new();
    let mut i: usize = 0;
    while i < pics.len()
        invariant
            i <= pics.len(),
            distinct_texts(r@),
            forall|e: Seq<char>| holds_text(r@, e) <==> has_extension(pics@.take(i as int), e),
        decreases pics.len() - i,
    {
        let ghost before = r@;
        let e = &pics[i].extension;
        if !contains_text(&r, e) {
            r.push(e.clone());
            proof {
                lemma_holds_text_push(before, *e);
            }
        }
        proof {
            lemma_has_extension_step(pics@, i as int);
            assert forall|t: Seq<char>| holds_text(r@, t) <==> has_extension(
                pics@.take(i + 1),
                t,
            ) by {
                assert(holds_text(before, t) <==> has_extension(pics@.take(i as int), t));
            }
        }
        i = i + 1;
    }
    assert(pics@.take(pics.len() as int) =~= pics@);
    r
}

/// Sorts pictures by name; pictures of equal names come in no set order.
pub fn sort_by_name(pics: Vec<Picture>) -> (r: Vec<Picture>)
    ensures
        sorted_by_name(r@),
        r@.to_multiset() == pics@.to_multiset(),
{
    let ghost all = pics@;
    let mut rest = pics;
    let mut out: Vec<Picture> = Vec::new();
    while rest.len() > 0
        invariant
            sorted_by_name(out@),
            forall|i: int, j: int|
                0 <= i < out@.len() && 0 <= j < rest@.len() ==> text_le(
                    out@[i].name@,
                    rest@[j].name@,
                ),
            out@.to_multiset().add(rest@.to_multiset()) == all.to_multiset(),
        decreases rest.len(),
    {
        let mut m: usize = 0;
        let mut k: usize = 1;
        proof {
            lemma_text_le_total(rest@[0].name@, rest@[0].name@);
        }
        while k < rest.len()
            invariant
                0 <= m < rest.len(),
                k <= rest.len(),
                forall|q: int| 0 <= q < k ==> text_le(rest@[m as int].name@, rest@[q].name@),
            decreases rest.len() - k,
        {
            if !name_le(&rest[m].name, &rest[k].name) {
                proof {
                    lemma_text_le_total(rest@[m as int].name@, rest@[k as int].name@);
                    assert forall|q: int| 0 <= q < k + 1 implies text_le(
                        rest@[k as int].name@,
                        rest@[q].name@,
                    ) by {
                        if q < k {
                            lemma_text_le_transitive(
                                rest@[k as int].name@,
                                rest@[m as int].name@,
                                rest@[q].name@,
                            );
                        } else {
                            lemma_text_le_total(rest@[k as int].name@, rest@[k as int].name@);
                        }
                    }
                }
                m = k;
            }
            k = k + 1;
        }
        let ghost old_rest = rest@;
        let ghost old_out = out@;
        let p = rest.remove(m);
        out.push(p);
        proof {
            assert(out@.to_multiset() == old_out.to_multiset().insert(p));
            assert(rest@.to_multiset() == old_rest.to_multiset().remove(p));
            assert(old_rest.to_multiset().count(p) > 0) by {
                assert(old_rest.contains(p)) by {
                    assert(old_rest[m as int] == p);
                }
            }
            assert(out@.to_multiset().add(rest@.to_multiset()) =~= old_out.to_multiset().add(
                old_rest.to_multiset(),
            ));
            assert forall|i: int, j: int| 0 <= i < j < out@.len() implies text_le(
                out@[i].name@,
                out@[j].name@,
            ) by {
                if j == out@.len() - 1 {
                    assert(out@[j] == old_rest[m as int]);
                    assert(out@[i] == old_out[i]);
                } else {
                    assert(out@[i] == old_out[i]);
                    assert(out@[j] == old_out[j]);
                }
            }
            assert forall|i: int, j: int| 0 <= i < out@.len() && 0 <= j < rest@.len() implies text_le(
                out@[i].name@,
                rest@[j].name@,
            ) by {
                let jj = if j < m { j } else { j + 1 };
                assert(rest@[j] == old_rest[jj]);
                if i == out@.len() - 1 {
                    assert(out@[i] == old_rest[m as int]);
                } else {
                    assert(out@[i] == old_out[i]);
                }
            }
        }
    }
    assert(rest@.to_multiset() =~= Multiset::empty());
    assert(out@.to_multiset().add(Multiset::empty()) =~= out@.to_multiset());
    out
}

/// What the page renderer is handed for these pictures: the pictures
/// sorted by name, and the distinct categories and extensions among them.
pub fn render_input(pictures: Vec<Picture>) -> (r: RenderInput)
    ensures
        sorted_by_name(r.pictures@),
        r.pictures@.to_multiset() == pictures@.to_multiset(),
        distinct_texts(r.categories@),
        forall|c: Seq<char>| holds_text(r.categories@, c) <==> has_category(pictures@, c),
        distinct_texts(r.extensions@),
        forall|e: Seq<char>| holds_text(r.extensions@, e) <==> has_extension(pictures@, e),
{
    let categories = categories_of(&pictures);
    let extensions = extensions_of(&pictures);
    RenderInput { pictures: sort_by_name(pictures), categories, extensions }
}

/// The value of a hexadecimal digit of either case; -1 for any other character.
pub open spec fn hex_value(c: char) -> int {
    let v = c as u32;
    if 48 <= v <= 57 {
        v - 48
    } else if 97 <= v <= 102 {
        v - 87
    } else if 65 <= v <= 70 {
        v - 55
    } else {
        -1
    }
}

/// The digits of a color written `rrggbb` or `#rrggbb`.
pub open spec fn color_digits(hex: Seq<char>) -> Seq<char> {
    if hex.len() > 0 && hex[0] == '#' {
        hex.drop_first()
    } else {
        hex
    }
}

/// Whether `hex` writes a color as six hexadecimal digits, with or without
/// a leading `#`.
pub open spec fn is_color_text(hex: Seq<char>) -> bool {
    &&& color_digits(hex).len() == 6
    &&& forall|k: int| 0 <= k < 6 ==> hex_value(#[trigger] color_digits(hex)[k]) >= 0
}

/// Channel `k` (0 red, 1 green, 2 blue) of the color whose digits are `d`.
pub open spec fn channel(d: Seq<char>, k: int) -> int {
    16 * hex_value(d[2 * k]) + hex_value(d[2 * k + 1])
}

/// Whether a color is dark: its weighted luminance
/// 0.299 r + 0.587 g + 0.114 b is at most 186.
pub open spec fn dark(r: int, g: int, b: int) -> bool {
    299 * r + 587 * g + 114 * b <= 186000
}

fn hex_digit_value(c: char) -> (r: u32)
    requires
        hex_value(c) >= 0,
    ensures
        r == hex_value(c),
        r < 16,
{
    let v = c as u32;
    if 48 <= v && v <= 57 {
        v - 48
    } else if 97 <= v && v <= 102 {
        v - 87
    } else {
        v - 55
    }
}

fn channel_value(d: &str, k: usize) -> (r: u32)
    requires
        k < 3,
        d@.len() == 6,
        forall|q: int| 0 <= q < 6 ==> hex_value(#[trigger] d@[q]) >= 0,
    ensures
        r == channel(d@, k as int),
        r < 256,
{
    let hi = hex_digit_value(d.get_char(2 * k));
    let lo = hex_digit_value(d.get_char(2 * k + 1));
    16 * hi + lo
}

/// Whether the color written in `hex` is dark, so that light text reads
/// well on it.
pub fn is_dark(hex: &str) -> (r: bool)
    requires
        is_color_text(hex@),
    ensures
        r == dark(
            channel(color_digits(hex@), 0),
            channel(color_digits(hex@), 1),
            channel(color_digits(hex@), 2),
        ),
{
    let n = hex.unicode_len();
    let d = if n > 0 && hex.get_char(0) == '#' {
        hex.substring_char(1, n)
    } else {
        hex
    };
    assert(d@ =~= color_digits(hex@));
    let r = channel_value(d, 0);
    let g = channel_value(d, 1);
    let b = channel_value(d, 2);
    299 * r + 587 * g + 114 * b <= 186000
}

/// Whether `c` separates the words of a title.
pub open spec fn is_word_sep(c: char) -> bool {
    c == '-' || c == '_' || c == ' '
}

/// The pieces of `s` between single separators; separators side by side,
/// or at either end, leave empty pieces.
pub open spec fn words(s: Seq<char>) -> Seq<Seq<char>>
    decreases s.len(),
{
    if s.len() == 0 {
        seq![Seq::empty()]
    } else {
        let w = words(s.drop_last());
        if is_word_sep(s.last()) {
            w.push(Seq::empty())
        } else {
            w.update(w.len() - 1, w.last().push(s.last()))
        }
    }
}

/// Relies on `regex::Regex::split` with the pattern `[-_ ]`: the pieces of
/// the text between matches, each match one separator.
#[verifier::external_body]
fn split_words(s: &str) -> (r: Vec<String>)
    ensures
        r@.map_values(|w: String| w@) == words(s@),
{
    regex::Regex::new("[-_ ]").unwrap().split(s).map(|w| w.to_string()).collect()
}

/// The words `ws`, each capitalized, joined by single spaces.
pub open spec fn title_of(ws: Seq<Seq<char>>) -> Seq<char>
    decreases ws.len(),
{
    if ws.len() == 0 {
        Seq::empty()
    } else if ws.len() == 1 {
        capitalized(ws[0])
    } else {
        title_of(ws.drop_last()) + seq![' '] + capitalized(ws.last())
    }
}

/// Joins the words `ws`, each capitalized, with single spaces.
pub fn title_of_words(ws: &Vec<String>) -> (r: String)
    ensures
        r@ == title_of(ws@.map_values(|w: String| w@)),
{
    let ghost views = ws@.map_values(|w: String| w@);
    let mut r = String::new();
    let mut i: usize = 0;
    while i < ws.len()
        invariant
            i <= ws.len(),
            views == ws@.map_values(|w: String| w@),
            r@ == title_of(views.take(i as int)),
        decreases ws.len() - i,
    {
        assert(views.take(i + 1).drop_last() =~= views.take(i as int));
        if i > 0 {
            r.append(" ");
            proof {
                reveal_strlit(" ");
            }
        }
        r.append(capitalize(ws[i].as_str()).as_str());
        proof {
            if i == 0 {
                assert(views.take(1)[0] == ws@[0]@);
            } else {
                assert(views.take(i + 1).last() == ws@[i as int]@);
            }
        }
        assert(r@ =~= title_of(views.take(i + 1)));
        i = i + 1;
    }
    assert(views.take(ws.len() as int) =~= views);
    r
}

/// `s` split at each `-`, `_` or space, each piece capitalized, the pieces
/// joined by single spaces.
pub fn title_case(s: &str) -> (r: String)
    ensures
        r@ == title_of(words(s@)),
{
    let ws = split_words(s);
    title_of_words(&ws)
}

} // verus!
