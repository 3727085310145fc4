//! Locations of the parts of a gallery, relative to its root.
//!
//! A path is text whose components are separated by `/`.

use vstd::prelude::*;

verus! {

/// `a` and `b` joined by one separator.
pub open spec fn join_spec(a: Seq<char>, b: Seq<char>) -> Seq<char> {
    a + seq!['/'] + b
}

/// Joins two paths with one separator.
pub fn join(a: &str, b: &str) -> (r: String)
    ensures
        r@ == join_spec(a@, b@),
{
    let mut r = String::from_str(a);
    r.append("/");
    r.append(b);
    proof {
        reveal_strlit("/");
    }
    r
}

/// The marker directory, relative to the gallery root.
pub open spec fn pictura_spec() -> Seq<char> {
    ".pictura"@
}

/// The source tree, relative to the gallery root.
pub open spec fn wallpapers_spec() -> Seq<char> {
    "wallpapers"@
}

/// The directory of the small artifacts, relative to the gallery root.
pub open spec fn compressed_spec() -> Seq<char> {
    join_spec(pictura_spec(), "compressed"@)
}

/// The directory of the medium artifacts, relative to the gallery root.
pub open spec fn medium_spec() -> Seq<char> {
    join_spec(pictura_spec(), "medium"@)
}

/// The config document, relative to the gallery root.
pub open spec fn config_file_spec() -> Seq<char> {
    join_spec(pictura_spec(), "config.toml"@)
}

/// The picture-record document, relative to the gallery root.
pub open spec fn pictures_file_spec() -> Seq<char> {
    join_spec(pictura_spec(), "pictures.toml"@)
}

/// The rendered page, relative to the gallery root.
pub open spec fn html_file_spec() -> Seq<char> {
    "index.html"@
}

pub fn pictura() -> (r: String)
    ensures
        r@ == pictura_spec(),
{
    String::from_str(".pictura")
}

pub fn wallpapers() -> (r: String)
    ensures
        r@ == wallpapers_spec(),
{
    String::from_str("wallpapers")
}

pub fn compressed() -> (r: String)
    ensures
        r@ == compressed_spec(),
{
    join(pictura().as_str(), "compressed")
}

pub fn medium() -> (r: String)
    ensures
        r@ == medium_spec(),
{
    join(pictura().as_str(), "medium")
}

pub fn config_file() -> (r: String)
    ensures
        r@ == config_file_spec(),
{
    join(pictura().as_str(), "config.toml")
}

pub fn pictures_file() -> (r: String)
    ensures
        r@ == pictures_file_spec(),
{
    join(pictura().as_str(), "pictures.toml")
}

pub fn html_file() -> (r: String)
    ensures
        r@ == html_file_spec(),
{
    String::from_str("index.html")
}


/// Index just past the last separator of `p`; 0 when `p` has none.
pub open spec fn name_start(p: Seq<char>) -> int
    decreases p.len(),
{
    if p.len() == 0 {
        0
    } else if p.last() == '/' {
        p.len() as int
    } else {
        name_start(p.drop_last())
    }
}

/// The last component of `p`.
pub open spec fn file_name_spec(p: Seq<char>) -> Seq<char> {
    p.skip(name_start(p))
}

/// `p` without its last component and separator; `None` when `p` has no separator.
pub open spec fn parent_spec(p: Seq<char>) -> Option<Seq<char>> {
    if name_start(p) == 0 {
        None
    } else {
        Some(p.take(name_start(p) - 1))
    }
}

/// Position of the dot that opens the extension of the file name `n`: its
/// last dot, unless that is its first character; -1 when there is none.
pub open spec fn ext_dot(n: Seq<char>) -> int
    decreases n.len(),
{
    if n.len() <= 1 {
        -1
    } else if n.last() == '.' {
        n.len() - 1
    } else {
        ext_dot(n.drop_last())
    }
}

/// The file name `n` without its extension.
pub open spec fn stem_spec(n: Seq<char>) -> Seq<char> {
    if ext_dot(n) < 0 {
        n
    } else {
        n.take(ext_dot(n))
    }
}

/// The extension of the file name `n`, without its dot.
pub open spec fn extension_spec(n: Seq<char>) -> Option<Seq<char>> {
    if ext_dot(n) < 0 {
        None
    } else {
        Some(n.skip(ext_dot(n) + 1))
    }
}

pub proof fn lemma_name_start_bounds(p: Seq<char>)
    ensures
        0 <= name_start(p) <= p.len(),
        name_start(p) > 0 ==> p[name_start(p) - 1] == '/',
        forall|i: int| name_start(p) <= i < p.len() ==> p[i] != '/',
    decreases p.len(),
{
    if p.len() > 0 && p.last() != '/' {
        lemma_name_start_bounds(p.drop_last());
        assert(forall|i: int| 0 <= i < p.len() - 1 ==> p.drop_last()[i] == p[i]);
    }
}

pub proof fn lemma_ext_dot_bounds(n: Seq<char>)
    ensures
        -1 <= ext_dot(n) < n.len(),
        ext_dot(n) != 0,
        ext_dot(n) > 0 ==> n[ext_dot(n)] == '.',
    decreases n.len(),
{
    if n.len() > 1 && n.last() != '.' {
        lemma_ext_dot_bounds(n.drop_last());
    }
}

fn name_start_of(p: &str) -> (r: usize)
    ensures
        r == name_start(p@),
        r <= p@.len(),
{
    let n = p.unicode_len();
    let mut i: usize = 0;
    let mut start: usize = 0;
    assert(p@.take(0).len() == 0);
    while i < n
        invariant
            i <= n,
            n == p@.len(),
            start <= i,
            start == name_start(p@.take(i as int)),
        decreases n - i,
    {
        assert(p@.take(i + 1).drop_last() =~= p@.take(i as int));
        if p.get_char(i) == '/' {
            start = i + 1;
        }
        i = i + 1;
    }
    assert(p@.take(n as int) =~= p@);
    start
}

fn ext_dot_of(name: &str) -> (r: Option<usize>)
    ensures
        match r {
            Some(d) => d == ext_dot(name@),
            None => ext_dot(name@) < 0,
        },
{
    let n = name.unicode_len();
    let mut i: usize = 0;
    let mut dot: Option<usize> = None;
    while i < n
        invariant
            i <= n,
            n == name@.len(),
            match dot {
                Some(d) => d == ext_dot(name@.take(i as int)),
                None => ext_dot(name@.take(i as int)) < 0,
            },
        decreases n - i,
    {
        assert(name@.take(i + 1).drop_last() =~= name@.take(i as int));
        if i > 0 && name.get_char(i) == '.' {
            dot = Some(i);
        }
        i = i + 1;
    }
    assert(name@.take(n as int) =~= name@);
    dot
}

/// The last component of `p`.
pub fn file_name(p: &str) -> (r: String)
    ensures
        r@ == file_name_spec(p@),
{
    let start = name_start_of(p);
    let r = String::from_str(p.substring_char(start, p.unicode_len()));
    assert(r@ =~= file_name_spec(p@));
    r
}

/// `p` without its last component.
pub fn parent(p: &str) -> (r: Option<String>)
    ensures
        r.deep_view() == parent_spec(p@),
{
    let start = name_start_of(p);
    if start == 0 {
        None
    } else {
        let r = String::from_str(p.substring_char(0, start - 1));
        assert(r@ =~= p@.take(start - 1));
        Some(r)
    }
}

/// The file name `n` without its extension.
pub fn file_stem(n: &str) -> (r: String)
    ensures
        r@ == stem_spec(n@),
{
    match ext_dot_of(n) {
        None => String::from_str(n),
        Some(d) => {
            proof {
                lemma_ext_dot_bounds(n@);
            }
            let r = String::from_str(n.substring_char(0, d));
            assert(r@ =~= n@.take(d as int));
            r
        },
    }
}

/// The extension of the file name `n`.
pub fn extension(n: &str) -> (r: Option<String>)
    ensures
        r.deep_view() == extension_spec(n@),
{
    match ext_dot_of(n) {
        None => None,
        Some(d) => {
            proof {
                lemma_ext_dot_bounds(n@);
            }
            let len = n.unicode_len();
            let r = String::from_str(n.substring_char(d + 1, len));
            assert(r@ =~= n@.skip(d + 1));
            Some(r)
        },
    }
}

/// Whether `s` holds no separator.
pub open spec fn no_separator(s: Seq<char>) -> bool {
    forall|i: int| 0 <= i < s.len() ==> s[i] != '/'
}

/// Joining `a` with a single component `f` makes `f` the last component and
/// `a` the parent.
pub proof fn lemma_join_components(a: Seq<char>, f: Seq<char>)
    requires
        no_separator(f),
    ensures
        name_start(join_spec(a, f)) == a.len() + 1,
        file_name_spec(join_spec(a, f)) == f,
        parent_spec(join_spec(a, f)) == Some(a),
    decreases f.len(),
{
    let p = join_spec(a, f);
    if f.len() > 0 {
        assert(p.last() == f.last());
        assert(p.drop_last() =~= join_spec(a, f.drop_last()));
        lemma_join_components(a, f.drop_last());
    } else {
        assert(p.last() == '/');
    }
    assert(p.skip(a.len() as int + 1) =~= f);
    assert(p.take(a.len() as int) =~= a);
}

/// A file name with an extension is its stem, a dot and its extension.
pub proof fn lemma_stem_dot_extension(n: Seq<char>)
    requires
        extension_spec(n) is Some,
    ensures
        stem_spec(n) + "."@ + extension_spec(n)->0 == n,
{
    lemma_ext_dot_bounds(n);
    reveal_strlit(".");
    assert(n.take(ext_dot(n)) + "."@ + n.skip(ext_dot(n) + 1) =~= n);
}

} // verus!
