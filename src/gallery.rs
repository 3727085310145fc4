//! Picture records: how one is made from an image file, the name of its
//! derived artifacts, and the paths it resolves against a gallery root.

use vstd::prelude::*;

use crate::common::{decimal, decimal_text, hex_color, image_extension, is_image_extension, rgb_to_hex};
use crate::common::paths::{
    compressed, compressed_spec, extension, extension_spec, file_name, file_name_spec, file_stem,
    join, join_spec, lemma_join_components, lemma_stem_dot_extension, medium, medium_spec,
    no_separator, parent, parent_spec, stem_spec, wallpapers, wallpapers_spec,
};

verus! {

/// Ids are drawn below this bound.
pub const ID_RANGE: u32 = 1000000;

/// The palette extraction samples one pixel in this many.
pub const PALETTE_QUALITY: u8 = 5;

/// The palette extraction ranks at most this many colors.
pub const PALETTE_COLORS: u8 = 10;

/// Per unit of sampling step, the most pixel bytes that the palette
/// extraction is handed.
pub const PALETTE_BYTES_PER_STEP: u64 = 67108864;

/// Why a picture could not be made from an image file.
#[derive(Debug, Clone, Copy, PartialEq, Eq, Structural)]
pub enum PictureError {
    /// The path has no file name.
    InvalidPath,
    /// The file has no extension, or one that is not a tracked image format.
    InvalidInput,
    /// No dominant color could be taken from the pixels, or the pixel
    /// buffer is larger than the palette extraction is handed.
    Palette,
}

/// How the channels of a decoded image lie in its pixel buffer.
#[derive(Debug, Clone, Copy, PartialEq, Eq, Structural)]
pub enum PixelLayout {
    Rgb,
    Rgba,
    Other,
}

/// The channel order that the palette extraction reads.
#[derive(Debug, Clone, Copy, PartialEq, Eq, Structural)]
pub enum PaletteFormat {
    Rgb,
    Rgba,
}

/// A decoded image: its size in pixels, its channel layout and its raw
/// pixel bytes.
pub struct DecodedImage {
    pub width: u32,
    pub height: u32,
    pub layout: PixelLayout,
    pub pixels: Vec<u8>,
}

/// One tracked source image.
#[derive(Debug, Clone)]
pub struct Picture {
    /// File name without its extension.
    pub name: String,
    /// File extension, one of the tracked image formats.
    pub extension: String,
    /// Name of the directory that holds the file, unless it bears the source tree's name.
    pub category: Option<String>,
    /// Width in pixels.
    pub width: u32,
    /// Height in pixels.
    pub height: u32,
    /// Dominant color as six hexadecimal digits.
    pub color: String,
    /// Random identifier that keeps artifact names apart.
    pub id: u32,
    /// Path of the small artifact, once resolved.
    pub compressed: Option<String>,
    /// Path of the medium artifact, once resolved.
    pub medium: Option<String>,
    /// Path of the source image, once resolved.
    pub original: Option<String>,
}

/// The stored picture records.
pub struct Pictures {
    pub pictures: Option<Vec<Picture>>,
}

impl Pictures {
    /// No records at all, as in a new gallery.
    pub fn new() -> (r: Pictures)
        ensures
            r.pictures is None,
    {
        Pictures { pictures: None }
    }
}

impl Default for Pictures {
    fn default() -> (r: Pictures)
        ensures
            r.pictures is None,
    {
        Pictures { pictures: None }
    }
}

impl PartialEq for Picture {
    fn eq(&self, other: &Picture) -> (r: bool)
        ensures
            r == (self.id == other.id),
    {
        self.id == other.id
    }
}

impl vstd::std_specs::cmp::PartialEqSpecImpl for Picture {
    open spec fn obeys_eq_spec() -> bool {
        true
    }

    open spec fn eq_spec(&self, other: &Picture) -> bool {
        self.id == other.id
    }
}

/// The source tree of the gallery at `root`.
pub open spec fn source_tree(root: Seq<char>) -> Seq<char> {
    join_spec(root, wallpapers_spec())
}

/// The category of the image at `p` in the gallery at `root`: the name of
/// the directory that holds it, unless that directory is the source tree
/// itself or has no name.
pub open spec fn category_spec(root: Seq<char>, p: Seq<char>) -> Option<Seq<char>> {
    match parent_spec(p) {
        None => None,
        Some(q) => {
            if q == source_tree(root) || file_name_spec(q).len() == 0 {
                None
            } else {
                Some(file_name_spec(q))
            }
        },
    }
}

/// Why the path `p` names no trackable image, if it does not.
pub open spec fn path_error(p: Seq<char>) -> Option<PictureError> {
    let n = file_name_spec(p);
    if n.len() == 0 {
        Some(PictureError::InvalidPath)
    } else if extension_spec(n) is None || !is_image_extension(extension_spec(n)->0) {
        Some(PictureError::InvalidInput)
    } else {
        None
    }
}

/// `pic` is the fresh record of the image at `path`, in the gallery at
/// `root`, with the given size, color and id: no path of it is resolved yet.
pub open spec fn made_from(
    pic: Picture,
    root: Seq<char>,
    path: Seq<char>,
    width: u32,
    height: u32,
    color: Seq<char>,
    id: u32,
) -> bool {
    &&& pic.name@ == stem_spec(file_name_spec(path))
    &&& pic.extension@ == extension_spec(file_name_spec(path))->0
    &&& pic.category.deep_view() == category_spec(root, path)
    &&& pic.width == width
    &&& pic.height == height
    &&& pic.color@ == color
    &&& pic.id == id
    &&& pic.compressed is None
    &&& pic.medium is None
    &&& pic.original is None
}

/// The file name of both artifacts of `p`.
pub open spec fn encoded_name(p: Picture) -> Seq<char> {
    "w-"@ + decimal(p.width as nat) + "_h-"@ + decimal(p.height as nat) + "_c-"@ + p.color@ + "_i-"@
        + decimal(p.id as nat) + match p.category {
        Some(c) => "_k-"@ + c@,
        None => Seq::empty(),
    } + "."@ + p.extension@
}

/// The file name of the source image of `p`.
pub open spec fn original_name(p: Picture) -> Seq<char> {
    p.name@ + "."@ + p.extension@
}

/// Where the small artifact of `p` lies under the gallery root `root`.
pub open spec fn compressed_path(root: Seq<char>, p: Picture) -> Seq<char> {
    join_spec(join_spec(root, compressed_spec()), encoded_name(p))
}

/// Where the medium artifact of `p` lies under the gallery root `root`.
pub open spec fn medium_path(root: Seq<char>, p: Picture) -> Seq<char> {
    join_spec(join_spec(root, medium_spec()), encoded_name(p))
}

/// Where the source image of `p` lies under the gallery root `root`.
pub open spec fn original_path(root: Seq<char>, p: Picture) -> Seq<char> {
    let tree = join_spec(root, wallpapers_spec());
    match p.category {
        Some(c) => join_spec(join_spec(tree, c@), original_name(p)),
        None => join_spec(tree, original_name(p)),
    }
}

/// The fields that a record keeps for its whole life.
pub open spec fn same_record(a: Picture, b: Picture) -> bool {
    &&& a.name == b.name
    &&& a.extension == b.extension
    &&& a.category == b.category
    &&& a.width == b.width
    &&& a.height == b.height
    &&& a.color == b.color
    &&& a.id == b.id
}

/// A path field after resolution: kept when set, else `path`.
pub open spec fn resolved(field: Option<String>, path: Seq<char>) -> Option<Seq<char>> {
    match field {
        Some(s) => Some(s@),
        None => Some(path),
    }
}

/// The palette that color-thief ranks for a pixel buffer, read as RGBA when
/// `rgba` holds and as RGB otherwise, sampling one pixel in `quality` and
/// keeping at most `max_colors` colors; `None` where it fails.
pub uninterp spec fn palette_of(pixels: Seq<u8>, rgba: bool, quality: u8, max_colors: u8) -> Option<
    Seq<(u8, u8, u8)>,
>;

#[verifier::external_type_specification]
#[verifier::external_body]
pub struct ExPaletteError(color_thief::Error);

/// Relies on `color_thief::get_palette`: its result depends on its
/// arguments alone. It asserts `1 <= quality <= 10` and `max_colors > 1`.
/// It sums the sampled channel values into an `i32`, each sample adding at
/// most 252, and samples once per `channels * channels * quality` bytes;
/// with at least three channels and the bound on the length below, fewer
/// than 7,456,542 samples are taken and the sum stays below `i32::MAX`.
#[verifier::external_body]
fn palette(pixels: &Vec<u8>, format: PaletteFormat, quality: u8, max_colors: u8) -> (r: Result<
    Vec<(u8, u8, u8)>,
    color_thief::Error,
>)
    requires
        1 <= quality <= 10,
        max_colors >= 2,
        pixels@.len() <= PALETTE_BYTES_PER_STEP * quality,
    ensures
        match palette_of(pixels@, format == PaletteFormat::Rgba, quality, max_colors) {
            Some(p) => r is Ok && r->Ok_0@ == p,
            None => r is Err,
        },
{
    let format = match format {
        PaletteFormat::Rgb => color_thief::ColorFormat::Rgb,
        PaletteFormat::Rgba => color_thief::ColorFormat::Rgba,
    };
    color_thief::get_palette(pixels, format, quality, max_colors).map(
        |colors| colors.into_iter().map(|c| (c.r, c.g, c.b)).collect(),
    )
}

/// Relies on `rand::Rng::gen_range` over `rand::thread_rng()`: a value of
/// the half-open range `0..bound`, which must not be empty.
#[verifier::external_body]
fn random_below(bound: u32) -> (r: u32)
    requires
        bound > 0,
    ensures
        r < bound,
{
    rand::Rng::gen_range(&mut rand::thread_rng(), 0..bound)
}

/// The channel order in which the palette reads a layout: RGBA for RGBA,
/// RGB for everything else.
pub fn palette_format(layout: PixelLayout) -> (r: PaletteFormat)
    ensures
        (r == PaletteFormat::Rgba) == (layout == PixelLayout::Rgba),
{
    match layout {
        PixelLayout::Rgba => PaletteFormat::Rgba,
        _ => PaletteFormat::Rgb,
    }
}

/// The category of the image at `path` in the gallery at `root`.
pub fn category(root: &str, path: &str) -> (r: Option<String>)
    ensures
        r.deep_view() == category_spec(root@, path@),
{
    match parent(path) {
        None => None,
        Some(q) => {
            let tree = join(root, wallpapers().as_str());
            if q == tree {
                return None;
            }
            let d = file_name(q.as_str());
            if d.unicode_len() == 0 {
                None
            } else {
                Some(d)
            }
        },
    }
}

/// The name, extension and category of the image at `path` in the gallery
/// at `root`, or why it cannot be tracked.
pub fn describe_path(root: &str, path: &str) -> (r: Result<
    (String, String, Option<String>),
    PictureError,
>)
    ensures
        path_error(path@) is Some ==> r == Err::<(String, String, Option<String>), _>(
            path_error(path@)->0,
        ),
        path_error(path@) is None ==> r is Ok && r->Ok_0.0@ == stem_spec(file_name_spec(path@))
            && r->Ok_0.1@ == extension_spec(file_name_spec(path@))->0
            && r->Ok_0.2.deep_view() == category_spec(root@, path@),
{
    let n = file_name(path);
    if n.unicode_len() == 0 {
        return Err(PictureError::InvalidPath);
    }
    let name = file_stem(n.as_str());
    let ext = match extension(n.as_str()) {
        None => {
            return Err(PictureError::InvalidInput);
        },
        Some(e) => e,
    };
    if !image_extension(ext.as_str()) {
        return Err(PictureError::InvalidInput);
    }
    Ok((name, ext, category(root, path)))
}

impl Picture {
    /// Builds the record of the image at `path` in the gallery at `root`
    /// from its size, its ranked palette and a chosen id; the dominant color
    /// is the palette's first.
    pub fn from_parts(
        root: &str,
        path: &str,
        width: u32,
        height: u32,
        palette: &Vec<(u8, u8, u8)>,
        id: u32,
    ) -> (r: Result<Picture, PictureError>)
        ensures
            path_error(path@) is Some ==> r == Err::<Picture, _>(path_error(path@)->0),
            path_error(path@) is None && palette@.len() == 0 ==> r == Err::<Picture, _>(
                PictureError::Palette,
            ),
            path_error(path@) is None && palette@.len() > 0 ==> r is Ok && made_from(
                r->Ok_0,
                root@,
                path@,
                width,
                height,
                hex_color(palette@[0].0, palette@[0].1, palette@[0].2),
                id,
            ),
    {
        let (name, extension, category) = match describe_path(root, path) {
            Err(e) => {
                return Err(e);
            },
            Ok(parts) => parts,
        };
        if palette.len() == 0 {
            return Err(PictureError::Palette);
        }
        let (r, g, b) = palette[0];
        Ok(
            Picture {
                name,
                extension,
                category,
                width,
                height,
                color: rgb_to_hex(r, g, b),
                id,
                compressed: None,
                medium: None,
                original: None,
            },
        )
    }

    /// Builds the record of the decoded image `img` found at `path` in the
    /// gallery at `root`: its dominant color comes from the palette of its
    /// pixels, sampling one pixel in `PALETTE_QUALITY` and ranking at most
    /// `PALETTE_COLORS` colors, and its id is drawn at random below
    /// `ID_RANGE`.
    pub fn new(root: &str, path: &str, img: &DecodedImage) -> (r: Result<Picture, PictureError>)
        ensures
            path_error(path@) is Some ==> r == Err::<Picture, _>(path_error(path@)->0),
            path_error(path@) is None && img.pixels@.len() > PALETTE_BYTES_PER_STEP
                * PALETTE_QUALITY ==> r == Err::<Picture, _>(PictureError::Palette),
            path_error(path@) is None && img.pixels@.len() <= PALETTE_BYTES_PER_STEP
                * PALETTE_QUALITY ==> match palette_of(
                img.pixels@,
                img.layout == PixelLayout::Rgba,
                PALETTE_QUALITY,
                PALETTE_COLORS,
            ) {
                None => r == Err::<Picture, _>(PictureError::Palette),
                Some(p) => if p.len() == 0 {
                    r == Err::<Picture, _>(PictureError::Palette)
                } else {
                    r is Ok && r->Ok_0.id < ID_RANGE && made_from(
                        r->Ok_0,
                        root@,
                        path@,
                        img.width,
                        img.height,
                        hex_color(p[0].0, p[0].1, p[0].2),
                        r->Ok_0.id,
                    )
                },
            },
    {
        if let Err(e) = describe_path(root, path) {
            return Err(e);
        }
        if img.pixels.len() as u64 > PALETTE_BYTES_PER_STEP * PALETTE_QUALITY as u64 {
            return Err(PictureError::Palette);
        }
        let colors = match palette(
            &img.pixels,
            palette_format(img.layout),
            PALETTE_QUALITY,
            PALETTE_COLORS,
        ) {
            Err(_) => {
                return Err(PictureError::Palette);
            },
            Ok(colors) => colors,
        };
        let id = random_below(ID_RANGE);
        Picture::from_parts(root, path, img.width, img.height, &colors, id)
    }

    /// The file name of both artifacts of this picture.
    pub fn to_string(&self) -> (r: String)
        ensures
            r@ == encoded_name(*self),
    {
        let mut r = String::from_str("w-");
        r.append(decimal_text(self.width).as_str());
        r.append("_h-");
        r.append(decimal_text(self.height).as_str());
        r.append("_c-");
        r.append(self.color.as_str());
        r.append("_i-");
        r.append(decimal_text(self.id).as_str());
        match &self.category {
            Some(c) => {
                r.append("_k-");
                r.append(c.as_str());
            },
            None => {},
        }
        r.append(".");
        r.append(self.extension.as_str());
        assert(r@ =~= encoded_name(*self));
        r
    }

    /// The file name of the source image of this picture.
    fn original_name(&self) -> (r: String)
        ensures
            r@ == original_name(*self),
    {
        let mut r = self.name.clone();
        r.append(".");
        r.append(self.extension.as_str());
        r
    }

    /// Fills each unresolved path of this picture from the gallery root
    /// `root`; paths already set are kept as they are.
    pub fn setup_paths(&mut self, root: &str)
        ensures
            same_record(*final(self), *old(self)),
            final(self).compressed.deep_view() == resolved(
                old(self).compressed,
                compressed_path(root@, *old(self)),
            ),
            final(self).medium.deep_view() == resolved(
                old(self).medium,
                medium_path(root@, *old(self)),
            ),
            final(self).original.deep_view() == resolved(
                old(self).original,
                original_path(root@, *old(self)),
            ),
    {
        let encoded = self.to_string();
        if self.compressed.is_none() {
            let dir = join(root, compressed().as_str());
            self.compressed = Some(join(dir.as_str(), encoded.as_str()));
        }
        if self.medium.is_none() {
            let dir = join(root, medium().as_str());
            self.medium = Some(join(dir.as_str(), encoded.as_str()));
        }
        if self.original.is_none() {
            let tree = join(root, wallpapers().as_str());
            let file = self.original_name();
            let path = match &self.category {
                Some(c) => {
                    let dir = join(tree.as_str(), c.as_str());
                    join(dir.as_str(), file.as_str())
                },
                None => join(tree.as_str(), file.as_str()),
            };
            self.original = Some(path);
        }
    }
}

/// The path of a file `file` in the source tree of the gallery at `root`,
/// directly or in its subdirectory `dir`.
pub open spec fn source_path(root: Seq<char>, dir: Option<Seq<char>>, file: Seq<char>) -> Seq<
    char,
> {
    let tree = join_spec(root, wallpapers_spec());
    match dir {
        Some(d) => join_spec(join_spec(tree, d), file),
        None => join_spec(tree, file),
    }
}

/// A record made from an image directly in the source tree, or in one of
/// its subdirectories, resolves its source image to the very path it was
/// made from.
pub proof fn lemma_fresh_record_resolves_to_its_file(
    root: Seq<char>,
    dir: Option<Seq<char>>,
    file: Seq<char>,
    pic: Picture,
    width: u32,
    height: u32,
    color: Seq<char>,
    id: u32,
)
    requires
        no_separator(file),
        match dir {
            Some(d) => no_separator(d) && d.len() > 0,
            None => true,
        },
        path_error(source_path(root, dir, file)) is None,
        made_from(pic, root, source_path(root, dir, file), width, height, color, id),
    ensures
        original_path(root, pic) == source_path(root, dir, file),
{
    let tree = join_spec(root, wallpapers_spec());
    let path = source_path(root, dir, file);
    reveal_strlit("wallpapers");
    assert(no_separator(wallpapers_spec()));
    lemma_join_components(root, wallpapers_spec());
    match dir {
        Some(d) => {
            lemma_join_components(tree, d);
            lemma_join_components(join_spec(tree, d), file);
        },
        None => {
            lemma_join_components(tree, file);
            assert(wallpapers_spec().len() > 0);
        },
    }
    lemma_stem_dot_extension(file);
    assert(original_name(pic) == file);
}

/// Each artifact of `p` lies in its tier's directory under the file name
/// that encodes `p`, whenever that name holds no separator.
pub proof fn lemma_artifact_names(root: Seq<char>, p: Picture)
    requires
        no_separator(encoded_name(p)),
    ensures
        file_name_spec(compressed_path(root, p)) == encoded_name(p),
        parent_spec(compressed_path(root, p)) == Some(join_spec(root, compressed_spec())),
        file_name_spec(medium_path(root, p)) == encoded_name(p),
        parent_spec(medium_path(root, p)) == Some(join_spec(root, medium_spec())),
{
    lemma_join_components(join_spec(root, compressed_spec()), encoded_name(p));
    lemma_join_components(join_spec(root, medium_spec()), encoded_name(p));
}

} // verus!
