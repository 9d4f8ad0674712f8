//! Font lookup by name, and the table of rendered glyphs that text drawing
//! reads.
use std::collections::HashMap;
use vstd::prelude::*;

use crate::paths::{
    ends_with, file_stem, is_plain_name, lemma_ends_with_itself, lemma_ends_with_own_name,
    lemma_ends_with_plain_name, name_of,
    path_ends_with, stem_of, stem_of_path,
};

verus! {

broadcast use vstd::std_specs::hash::group_hash_axioms;

// ---------------------------------------------------------------------------
// Font lookup
// ---------------------------------------------------------------------------

/// The directory searched for fonts when no other is given.
pub open spec fn default_fonts_dir() -> Seq<char> {
    seq!['/', 'u', 's', 'r', '/', 's', 'h', 'a', 'r', 'e', '/', 'f', 'o', 'n', 't', 's', '/']
}

/// The directory to search for fonts: the one given, or `/usr/share/fonts/`.
pub fn fonts_root(path: Option<String>) -> (r: String)
    ensures
        r@ == match path {
            Some(p) => p@,
            None => default_fonts_dir(),
        },
{
    match path {
        Some(p) => p,
        None => {
            let d = "/usr/share/fonts/".to_owned();
            proof {
                reveal_strlit("/usr/share/fonts/");
                assert(d@ =~= default_fonts_dir());
            }
            d
        },
    }
}

/// The font file `path` answers the query `query`: the path ends with the
/// query, taken as a path, or the stem of its file name is the query.
pub open spec fn matches_query(path: Seq<char>, query: Seq<char>) -> bool {
    ends_with(path, query) || stem_of_path(path) == Some(query)
}

/// Whether the font file `path` answers the query `query`.
pub fn font_matches(path: &str, query: &str) -> (r: bool)
    ensures
        r == matches_query(path@, query@),
{
    if path_ends_with(path, query) {
        true
    } else {
        match file_stem(path) {
            Some(stem) => {
                let same = stem == query.to_owned();
                same
            },
            None => false,
        }
    }
}

/// The index of the first font in `fonts` that answers `query`.
pub open spec fn is_first_match(fonts: Seq<Seq<char>>, query: Seq<char>, i: int) -> bool {
    &&& 0 <= i < fonts.len()
    &&& matches_query(fonts[i], query)
    &&& forall|j: int| 0 <= j < i ==> !matches_query(#[trigger] fonts[j], query)
}

/// The first font of `fonts`, in their order, whose path ends with `query`
/// or whose file stem is `query`; `None` when no font answers it.
pub fn find_font_path(fonts: &Vec<String>, query: &String) -> (r: Option<String>)
    ensures
        r matches Some(f) ==> exists|i: int|
            is_first_match(fonts.deep_view(), query@, i) && f@ == fonts.deep_view()[i],
        r is None <==> forall|i: int|
            0 <= i < fonts.len() ==> !matches_query(#[trigger] fonts.deep_view()[i], query@),
{
    let ghost fv = fonts.deep_view();
    let mut i: usize = 0;
    while i < fonts.len()
        invariant
            fv == fonts.deep_view(),
            i <= fonts.len(),
            forall|j: int| 0 <= j < i ==> !matches_query(#[trigger] fv[j], query@),
        decreases fonts.len() - i,
    {
        assert(fv[i as int] == fonts@[i as int]@);
        if font_matches(fonts[i].as_str(), query.as_str()) {
            assert(is_first_match(fv, query@, i as int));
            return Some(fonts[i].clone());
        }
        i = i + 1;
    }
    None
}

/// A font answers a query that names a single file exactly when that query
/// is the font's whole file name or the stem of its file name: a font whose
/// file name only shares its stem with the query, such as `NotoSans.otf` for
/// the query `NotoSans.ttf`, does not answer it.
pub proof fn lemma_plain_query_is_name_or_stem(path: Seq<char>, query: Seq<char>)
    requires
        is_plain_name(query),
    ensures
        matches_query(path, query) <==> (name_of(path) == Some(query) || (name_of(path) is Some
            && stem_of(name_of(path)->0) == query)),
{
    lemma_ends_with_plain_name(path, query);
}

/// A font is found by the name of its file.
pub proof fn lemma_found_by_file_name(path: Seq<char>)
    requires
        name_of(path) is Some,
    ensures
        matches_query(path, name_of(path)->0),
{
    lemma_ends_with_own_name(path);
}

/// A font is found by the stem of its file name.
pub proof fn lemma_found_by_stem(path: Seq<char>)
    requires
        name_of(path) is Some,
    ensures
        matches_query(path, stem_of(name_of(path)->0)),
{
}

/// A font is found by its whole path.
pub proof fn lemma_found_by_full_path(path: Seq<char>)
    ensures
        matches_query(path, path),
{
    lemma_ends_with_itself(path);
}

/// Where some font answers a query, the lookup returns a font.
pub proof fn lemma_lookup_finds_some(fonts: Seq<Seq<char>>, query: Seq<char>, i: int)
    requires
        0 <= i < fonts.len(),
        matches_query(fonts[i], query),
    ensures
        exists|k: int| is_first_match(fonts, query, k),
    decreases i,
{
    if exists|j: int| 0 <= j < i && matches_query(#[trigger] fonts[j], query) {
        let j = choose|j: int| 0 <= j < i && matches_query(#[trigger] fonts[j], query);
        lemma_lookup_finds_some(fonts, query, j);
    } else {
        assert(is_first_match(fonts, query, i));
    }
}

// ---------------------------------------------------------------------------
// Rendering glyphs with FreeType
// ---------------------------------------------------------------------------

#[verifier::external_type_specification]
#[verifier::external_body]
#[verifier::reject_recursive_types(BYTES)]
pub struct ExFace<BYTES>(freetype::Face<BYTES>);

#[verifier::external_type_specification]
#[verifier::external_body]
pub struct ExFtError(freetype::Error);

/// Why a font could not be prepared for drawing.
#[derive(Debug)]
pub enum FontError {
    /// FreeType refused the pixel size that was asked for.
    PixelSize(freetype::Error),
    /// FreeType could not load or render the glyph of a character code.
    Glyph(freetype::Error),
}

/// A glyph as FreeType rendered it: its bitmap's size in pixels, the offset
/// of the bitmap from the pen position, and the bitmap's bytes.
pub struct RenderedGlyph {
    pub width: i32,
    pub rows: i32,
    pub left: i32,
    pub top: i32,
    pub buffer: Vec<u8>,
}

/// Calls `freetype::Face::set_pixel_sizes(pixel_width, pixel_height)`.
/// Whether FreeType accepts the size depends on the font file, so nothing is
/// claimed of the result.
#[verifier::external_body]
fn ft_set_pixel_sizes(face: &freetype::Face, pixel_width: u32, pixel_height: u32) -> (r: Result<
    (),
    freetype::Error,
>) {
    face.set_pixel_sizes(pixel_width, pixel_height)
}

/// Calls `freetype::Face::load_char(char_code, LoadFlag::from_bits_retain(load_flags))`,
/// which loads the glyph of a character code into the face's glyph slot, as
/// the FreeType load flags `load_flags` ask. Whether it succeeds depends on
/// the font file, so nothing is claimed of the result.
#[verifier::external_body]
fn ft_load_char(face: &freetype::Face, char_code: usize, load_flags: i32) -> (r: Result<
    (),
    freetype::Error,
>) {
    face.load_char(char_code, freetype::face::LoadFlag::from_bits_retain(load_flags))
}

/// Reads the face's glyph slot (`freetype::Face::glyph`) into plain values:
/// `Bitmap::width`, `Bitmap::rows`, `GlyphSlot::bitmap_left`,
/// `GlyphSlot::bitmap_top` and a copy of `Bitmap::buffer`. These come from
/// the font file, so nothing is claimed of them.
#[verifier::external_body]
fn ft_slot_bitmap(face: &freetype::Face) -> (r: RenderedGlyph) {
    let slot = face.glyph();
    let bitmap = slot.bitmap();
    RenderedGlyph {
        width: bitmap.width(),
        rows: bitmap.rows(),
        left: slot.bitmap_left(),
        top: slot.bitmap_top(),
        buffer: bitmap.buffer().to_vec(),
    }
}

/// What asking FreeType for a pixel size comes to: success where FreeType
/// accepted the size, else FreeType's error as a pixel-size error.
pub fn pixel_size_result(outcome: Result<(), freetype::Error>) -> (r: Result<(), FontError>)
    ensures
        r is Ok <==> outcome is Ok,
        outcome matches Err(e) ==> r == Err::<(), FontError>(FontError::PixelSize(e)),
{
    match outcome {
        Ok(()) => Ok(()),
        Err(e) => Err(FontError::PixelSize(e)),
    }
}

/// What loading a glyph comes to, before its bitmap is read: no error where
/// FreeType loaded and rendered it, else FreeType's error as a glyph error.
pub fn glyph_load_error(outcome: Result<(), freetype::Error>) -> (r: Option<FontError>)
    ensures
        r is None <==> outcome is Ok,
        outcome matches Err(e) ==> r == Some(FontError::Glyph(e)),
{
    match outcome {
        Ok(()) => None,
        Err(e) => Some(FontError::Glyph(e)),
    }
}

/// FreeType's `FT_LOAD_RENDER` load flag (`1 << 2`): render the glyph to a
/// bitmap as it is loaded.
pub const LOAD_RENDER: i32 = 4;

/// The pixel size asked of FreeType for a font `font_size` pixels high: a
/// width of 0, which tells FreeType to follow the height, and that height.
pub fn pixel_size_request(font_size: u8) -> (r: (u32, u32))
    ensures
        r == (0u32, font_size as u32),
{
    (0, font_size as u32)
}

/// The character code handed to FreeType for the character code `charcode`.
pub fn freetype_char_code(charcode: u32) -> (r: usize)
    ensures
        r == charcode,
{
    charcode as usize
}

/// Asks FreeType for glyphs `font_size` pixels high, their width following
/// from it (a width of 0).
pub fn set_font_size(face: &freetype::Face, font_size: u8) -> (r: Result<(), FontError>)
    ensures
        r matches Err(e) ==> e is PixelSize,
{
    let (width, height) = pixel_size_request(font_size);
    pixel_size_result(ft_set_pixel_sizes(face, width, height))
}

/// Loads and renders the glyph of `charcode`, and reads its bitmap.
pub fn load_glyph(face: &freetype::Face, charcode: u32) -> (r: Result<RenderedGlyph, FontError>)
    ensures
        r matches Err(e) ==> e is Glyph,
{
    let code = freetype_char_code(charcode);
    match glyph_load_error(ft_load_char(face, code, LOAD_RENDER)) {
        None => Ok(ft_slot_bitmap(face)),
        Some(e) => Err(e),
    }
}

// ---------------------------------------------------------------------------
// The glyph table
// ---------------------------------------------------------------------------

/// The first character code whose glyph is cached: the space.
pub const FIRST_CACHED_CHAR: u32 = 32;
/// The character code after the last one whose glyph is cached: the
/// printable ASCII characters are cached.
pub const END_CACHED_CHAR: u32 = 128;

/// The character codes whose glyphs a font renderer caches, in the order in
/// which it renders them: the printable ASCII range, space to `DEL`.
pub fn cached_charcodes() -> (r: Vec<u32>)
    ensures
        r@.len() == END_CACHED_CHAR - FIRST_CACHED_CHAR,
        forall|i: int| 0 <= i < r@.len() ==> r@[i] == FIRST_CACHED_CHAR + i,
{
    let mut r: Vec<u32> = Vec::new();
    let mut c: u32 = FIRST_CACHED_CHAR;
    while c < END_CACHED_CHAR
        invariant
            FIRST_CACHED_CHAR <= c <= END_CACHED_CHAR,
            r@.len() == c - FIRST_CACHED_CHAR,
            forall|i: int| 0 <= i < r@.len() ==> r@[i] == FIRST_CACHED_CHAR + i,
        decreases END_CACHED_CHAR - c,
    {
        r.push(c);
        c = c + 1;
    }
    r
}

/// What drawing a character needs of its glyph: the texture that holds its
/// bitmap, the bitmap's size in pixels, and its bearing from the pen
/// position.
#[derive(Debug, Clone, Copy, PartialEq, Eq, Structural)]
pub struct GlyphRenderCache {
    pub texture: u32,
    pub height: i32,
    pub width: i32,
    pub bearing_x: i32,
    pub bearing_y: i32,
}

impl GlyphRenderCache {
    /// The cache entry of a glyph rendered by FreeType whose bitmap was
    /// uploaded to `texture`.
    pub fn from_rendered(texture: u32, glyph: &RenderedGlyph) -> (r: GlyphRenderCache)
        ensures
            r.texture == texture,
            r.width == glyph.width,
            r.height == glyph.rows,
            r.bearing_x == glyph.left,
            r.bearing_y == glyph.top,
    {
        GlyphRenderCache {
            texture,
            height: glyph.rows,
            width: glyph.width,
            bearing_x: glyph.left,
            bearing_y: glyph.top,
        }
    }
}

/// The glyphs of a font, keyed by character code.
pub struct GlyphTable {
    glyphs: HashMap<u32, GlyphRenderCache>,
}

impl View for GlyphTable {
    type V = Map<u32, GlyphRenderCache>;

    closed spec fn view(&self) -> Map<u32, GlyphRenderCache> {
        self.glyphs@
    }
}

/// The textures of the longest prefix of `text` whose characters all have a
/// glyph in `table`, in the order of the text.
pub open spec fn prefix_textures(table: Map<u32, GlyphRenderCache>, text: Seq<char>) -> Seq<u32>
    decreases text.len(),
{
    if text.len() == 0 {
        Seq::empty()
    } else if table.contains_key(text[0] as u32) {
        seq![table[text[0] as u32].texture] + prefix_textures(table, text.drop_first())
    } else {
        Seq::empty()
    }
}

/// Every character of `text` has a glyph in `table`.
pub open spec fn all_cached(table: Map<u32, GlyphRenderCache>, text: Seq<char>) -> bool {
    forall|i: int| 0 <= i < text.len() ==> table.contains_key((#[trigger] text[i]) as u32)
}

impl GlyphTable {
    /// An empty table.
    pub fn new() -> (r: GlyphTable)
        ensures
            r@ == Map::<u32, GlyphRenderCache>::empty(),
    {
        GlyphTable { glyphs: HashMap::new() }
    }

    /// Records `glyph` as the glyph of `charcode`, in place of any earlier one.
    pub fn insert(&mut self, charcode: u32, glyph: GlyphRenderCache)
        ensures
            final(self)@ == old(self)@.insert(charcode, glyph),
    {
        self.glyphs.insert(charcode, glyph);
    }

    /// The glyph of `ch`, where the table has one.
    pub fn get(&self, ch: char) -> (r: Option<GlyphRenderCache>)
        ensures
            r matches Some(g) ==> self@.contains_key(ch as u32) && g == self@[ch as u32],
            r is None <==> !self@.contains_key(ch as u32),
    {
        let key: u32 = ch as u32;
        match self.glyphs.get(&key) {
            Some(g) => Some(*g),
            None => None,
        }
    }

    /// The number of characters that have a glyph.
    pub fn len(&self) -> (r: usize)
        ensures
            r == self@.len(),
    {
        self.glyphs.len()
    }

    /// The textures to draw for `text`, one per character in order, as far
    /// as the characters have glyphs; and whether every character has one.
    pub fn glyph_textures(&self, text: &str) -> (r: (Vec<u32>, bool))
        ensures
            r.0@ == prefix_textures(self@, text@),
            r.1 == all_cached(self@, text@),
    {
        let chars = crate::text::chars_of(text);
        let n = chars.len();
        let mut out: Vec<u32> = Vec::new();
        let mut i: usize = 0;
        assert(text@.skip(0) =~= text@);
        assert(out@ + prefix_textures(self@, text@) =~= prefix_textures(self@, text@));
        while i < n
            invariant
                chars@ == text@,
                n == text@.len(),
                i <= n,
                all_cached(self@, text@.take(i as int)),
                prefix_textures(self@, text@) == out@ + prefix_textures(self@, text@.skip(i as int)),
            decreases n - i,
        {
            let ch = chars[i];
            proof {
                let rest = text@.skip(i as int);
                assert(rest[0] == ch);
                assert(rest.drop_first() =~= text@.skip(i + 1));
            }
            match self.get(ch) {
                Some(g) => {
                    out.push(g.texture);
                    i = i + 1;
                    proof {
                        assert(all_cached(self@, text@.take(i as int))) by {
                            assert forall|k: int| 0 <= k < i implies self@.contains_key(
                                (#[trigger] text@.take(i as int)[k]) as u32,
                            ) by {
                                if k < i - 1 {
                                    assert(text@.take(i as int)[k] == text@.take(i - 1)[k]);
                                }
                            }
                        }
                    }
                },
                None => {
                    proof {
                        assert(prefix_textures(self@, text@.skip(i as int)) =~= Seq::<u32>::empty());
                        assert(out@ + Seq::<u32>::empty() =~= out@);
                        assert(text@[i as int] == ch);
                    }
                    return (out, false);
                },
            }
        }
        proof {
            assert(text@.skip(n as int) =~= Seq::<char>::empty());
            assert(text@.take(n as int) =~= text@);
            assert(out@ + Seq::<u32>::empty() =~= out@);
        }
        (out, true)
    }
}

/// The entry `e` records the glyph `g` as uploaded by `upload`: its texture
/// is one that `upload` may return for `g`, and its metrics are `g`'s.
pub open spec fn is_upload_of<F: Fn(&RenderedGlyph) -> u32>(
    upload: F,
    g: RenderedGlyph,
    e: GlyphRenderCache,
) -> bool {
    &&& call_ensures(upload, (&g,), e.texture)
    &&& e.width == g.width
    &&& e.height == g.rows
    &&& e.bearing_x == g.left
    &&& e.bearing_y == g.top
}

/// The entry `e` records the glyph that `load` may give for the character
/// code `c`, as uploaded by `upload`.
pub open spec fn is_loaded_entry<L: Fn(u32) -> Result<RenderedGlyph, FontError>, F: Fn(
    &RenderedGlyph,
) -> u32>(load: L, upload: F, c: u32, e: GlyphRenderCache) -> bool {
    exists|g: RenderedGlyph| #[trigger] call_ensures(load, (c,), Ok(g)) && is_upload_of(upload, g, e)
}

/// The character code `c` is one whose glyph a font renderer caches.
pub open spec fn is_cached_code(c: u32) -> bool {
    FIRST_CACHED_CHAR <= c < END_CACHED_CHAR
}

/// Loads the glyph of every cached character code with `load`, in order,
/// hands each to `upload` (which stores its bitmap as a texture and returns
/// that texture), and records the result under that code. Stops at the first
/// code whose glyph cannot be loaded, with the error that `load` gave.
pub fn build_glyph_table<
    L: Fn(u32) -> Result<RenderedGlyph, FontError>,
    F: Fn(&RenderedGlyph) -> u32,
>(load: L, upload: F) -> (r: Result<GlyphTable, FontError>)
    requires
        forall|c: u32| #[trigger] call_requires(load, (c,)),
        forall|g: &RenderedGlyph| #[trigger] call_requires(upload, (g,)),
    ensures
        r matches Ok(t) ==> forall|c: u32| #[trigger] t@.contains_key(c) <==> is_cached_code(c),
        r matches Ok(t) ==> forall|c: u32|
            is_cached_code(c) ==> is_loaded_entry(load, upload, c, #[trigger] t@[c]),
        r matches Err(e) ==> exists|c: u32|
            is_cached_code(c) && #[trigger] call_ensures(load, (c,), Err(e)),
{
    let codes = cached_charcodes();
    let mut table = GlyphTable::new();
    let mut i: usize = 0;
    while i < codes.len()
        invariant
            forall|c: u32| #[trigger] call_requires(load, (c,)),
            forall|g: &RenderedGlyph| #[trigger] call_requires(upload, (g,)),
            codes@.len() == END_CACHED_CHAR - FIRST_CACHED_CHAR,
            forall|k: int| 0 <= k < codes@.len() ==> codes@[k] == FIRST_CACHED_CHAR + k,
            i <= codes.len(),
            forall|c: u32| #[trigger]
                table@.contains_key(c) <==> FIRST_CACHED_CHAR <= c < FIRST_CACHED_CHAR + i,
            forall|c: u32|
                FIRST_CACHED_CHAR <= c < FIRST_CACHED_CHAR + i ==> is_loaded_entry(
                    load,
                    upload,
                    c,
                    #[trigger] table@[c],
                ),
        decreases codes.len() - i,
    {
        let code = codes[i];
        assert(code == FIRST_CACHED_CHAR + i);
        let loaded = load(code);
        let glyph = match loaded {
            Ok(g) => g,
            Err(e) => {
                assert(is_cached_code(code) && call_ensures(load, (code,), Err(e)));
                return Err(e);
            },
        };
        let texture = upload(&glyph);
        let entry = GlyphRenderCache::from_rendered(texture, &glyph);
        let ghost before = table@;
        table.insert(code, entry);
        assert(call_ensures(load, (code,), Ok(glyph)) && is_upload_of(upload, glyph, entry));
        i = i + 1;
        assert forall|c: u32|
            FIRST_CACHED_CHAR <= c < FIRST_CACHED_CHAR + i implies is_loaded_entry(
            load,
            upload,
            c,
            #[trigger] table@[c],
        ) by {
            if c == code {
                assert(table@[c] == entry);
                assert(call_ensures(load, (c,), Ok(glyph)) && is_upload_of(upload, glyph, table@[c]));
            } else {
                assert(FIRST_CACHED_CHAR <= c < FIRST_CACHED_CHAR + i - 1);
                assert(table@[c] == before[c]);
                assert(is_loaded_entry(load, upload, c, before[c]));
            }
        }
    }
    assert(FIRST_CACHED_CHAR + i == END_CACHED_CHAR);
    assert forall|c: u32| is_cached_code(c) implies is_loaded_entry(
        load,
        upload,
        c,
        #[trigger] table@[c],
    ) by {
        assert(FIRST_CACHED_CHAR <= c < FIRST_CACHED_CHAR + i);
    }
    Ok(table)
}

/// What a lookup gives back of an insertion: after `insert(charcode, glyph)`
/// the character with that code has exactly that glyph, and every other
/// character keeps the glyph it had.
pub proof fn lemma_lookup_after_insert(
    before: Map<u32, GlyphRenderCache>,
    charcode: u32,
    glyph: GlyphRenderCache,
    other: u32,
)
    ensures
        before.insert(charcode, glyph).contains_key(charcode),
        before.insert(charcode, glyph)[charcode] == glyph,
        other != charcode ==> (before.insert(charcode, glyph).contains_key(other)
            == before.contains_key(other)),
        other != charcode && before.contains_key(other) ==> before.insert(charcode, glyph)[other]
            == before[other],
{
}

/// A text whose characters all have glyphs is drawn whole: one texture per
/// character, that character's.
pub proof fn lemma_cached_text_is_drawn_whole(table: Map<u32, GlyphRenderCache>, text: Seq<char>)
    requires
        all_cached(table, text),
    ensures
        prefix_textures(table, text).len() == text.len(),
        forall|i: int|
            0 <= i < text.len() ==> #[trigger] prefix_textures(table, text)[i] == table[text[i]
                as u32].texture,
    decreases text.len(),
{
    if text.len() > 0 {
        let rest = text.drop_first();
        assert(table.contains_key(text[0] as u32));
        assert(all_cached(table, rest)) by {
            assert forall|k: int| 0 <= k < rest.len() implies table.contains_key(
                (#[trigger] rest[k]) as u32,
            ) by {
                assert(rest[k] == text[k + 1]);
            }
        }
        lemma_cached_text_is_drawn_whole(table, rest);
        let p = prefix_textures(table, text);
        assert forall|i: int| 0 <= i < text.len() implies #[trigger] p[i] == table[text[i]
            as u32].texture by {
            if i > 0 {
                assert(p[i] == prefix_textures(table, rest)[i - 1]);
                assert(rest[i - 1] == text[i]);
            }
        }
    }
}

} // verus!
