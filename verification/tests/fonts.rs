use waygraph::fonts::{
    build_glyph_table, freetype_char_code, glyph_load_error, pixel_size_request,
    pixel_size_result, FontError, LOAD_RENDER,
    cached_charcodes, font_matches, fonts_root, load_glyph, set_font_size, GlyphTable,
    RenderedGlyph, END_CACHED_CHAR, FIRST_CACHED_CHAR,
};
use waygraph::{find_font_path, GlyphRenderCache};

fn fonts() -> Vec<String> {
    vec![
        "/usr/share/fonts/truetype/dejavu/DejaVuSans-Bold.ttf".to_string(),
        "/usr/share/fonts/truetype/dejavu/DejaVuSans.ttf".to_string(),
        "/usr/share/fonts/noto/NotoSans.otf".to_string(),
        "/usr/share/fonts/noto/DejaVuSans.ttf".to_string(),
    ]
}

#[test]
fn finds_font_by_stem() {
    assert_eq!(
        find_font_path(&fonts(), &"DejaVuSans".to_string()),
        Some("/usr/share/fonts/truetype/dejavu/DejaVuSans.ttf".to_string())
    );
    assert_eq!(
        find_font_path(&fonts(), &"NotoSans".to_string()),
        Some("/usr/share/fonts/noto/NotoSans.otf".to_string())
    );
}

#[test]
fn finds_font_by_file_name_and_suffix_path() {
    assert_eq!(
        find_font_path(&fonts(), &"DejaVuSans-Bold.ttf".to_string()),
        Some("/usr/share/fonts/truetype/dejavu/DejaVuSans-Bold.ttf".to_string())
    );
    assert_eq!(
        find_font_path(&fonts(), &"noto/DejaVuSans.ttf".to_string()),
        Some("/usr/share/fonts/noto/DejaVuSans.ttf".to_string())
    );
}

#[test]
fn first_matching_font_wins() {
    assert_eq!(
        find_font_path(&fonts(), &"DejaVuSans.ttf".to_string()),
        Some("/usr/share/fonts/truetype/dejavu/DejaVuSans.ttf".to_string())
    );
    assert_eq!(find_font_path(&fonts(), &"".to_string()), Some(fonts()[0].clone()));
}

#[test]
fn unknown_or_partial_names_find_nothing() {
    assert_eq!(find_font_path(&fonts(), &"Sans".to_string()), None);
    assert_eq!(find_font_path(&fonts(), &"ttf".to_string()), None);
    assert_eq!(find_font_path(&fonts(), &"Sans.ttf".to_string()), None);
    assert_eq!(find_font_path(&Vec::new(), &"DejaVuSans".to_string()), None);
}

#[test]
fn font_matches_by_rule() {
    assert!(font_matches("/f/a.ttf", "a"));
    assert!(font_matches("/f/a.ttf", "a.ttf"));
    assert!(font_matches("/f/a.ttf", "f/a.ttf"));
    assert!(font_matches("/f/a.ttf", "/f/a.ttf"));
    assert!(!font_matches("/f/a.ttf", "ttf"));
    assert!(!font_matches("/f/a.ttf", "f"));
}

#[test]
fn fonts_root_defaults_to_system_fonts() {
    assert_eq!(fonts_root(None), "/usr/share/fonts/");
    assert_eq!(fonts_root(Some("/opt/fonts".to_string())), "/opt/fonts");
}

#[test]
fn cached_charcodes_are_printable_ascii() {
    let codes = cached_charcodes();
    assert_eq!(codes.len(), 96);
    assert_eq!(codes[0], 32);
    assert_eq!(codes[95], 127);
    assert_eq!(FIRST_CACHED_CHAR, 32);
    assert_eq!(END_CACHED_CHAR, 128);
}

fn glyph(texture: u32) -> GlyphRenderCache {
    GlyphRenderCache { texture, height: 10, width: 7, bearing_x: 1, bearing_y: 9 }
}

#[test]
fn glyph_table_gives_back_what_was_inserted() {
    let mut t = GlyphTable::new();
    assert_eq!(t.len(), 0);
    assert_eq!(t.get('A'), None);
    t.insert('A' as u32, glyph(5));
    t.insert('B' as u32, glyph(6));
    assert_eq!(t.get('A'), Some(glyph(5)));
    assert_eq!(t.get('B'), Some(glyph(6)));
    t.insert('A' as u32, glyph(9));
    assert_eq!(t.get('A'), Some(glyph(9)));
    assert_eq!(t.get('B'), Some(glyph(6)));
    assert_eq!(t.len(), 2);
}

#[test]
fn glyph_textures_stop_at_first_missing_char() {
    let mut t = GlyphTable::new();
    t.insert('h' as u32, glyph(1));
    t.insert('i' as u32, glyph(2));
    assert_eq!(t.glyph_textures("hih"), (vec![1, 2, 1], true));
    assert_eq!(t.glyph_textures("hé!i"), (vec![1], false));
    assert_eq!(t.glyph_textures("xhi"), (vec![], false));
    assert_eq!(t.glyph_textures(""), (vec![], true));
}

#[test]
fn cache_entry_keeps_glyph_metrics() {
    let g = RenderedGlyph { width: 7, rows: 11, left: -1, top: 9, buffer: vec![0; 77] };
    let c = GlyphRenderCache::from_rendered(42, &g);
    assert_eq!(c, GlyphRenderCache { texture: 42, height: 11, width: 7, bearing_x: -1, bearing_y: 9 });
}

#[test]
fn freetype_renders_glyphs_of_a_system_font() {
    let path = "/usr/share/fonts/truetype/dejavu/DejaVuSans.ttf";
    if !std::path::Path::new(path).exists() {
        println!("no DejaVuSans.ttf here; nothing to render");
        return;
    }
    let library = freetype::Library::init().unwrap();
    let face = library.new_face(path, 0).unwrap();
    assert!(set_font_size(&face, 24).is_ok());
    let a = load_glyph(&face, 'A' as u32).unwrap();
    assert!(a.width > 0 && a.rows > 0);
    assert!(a.buffer.len() >= (a.width * a.rows) as usize);
    let space = load_glyph(&face, ' ' as u32).unwrap();
    assert_eq!(space.width, 0);
    let mut table = GlyphTable::new();
    for code in cached_charcodes() {
        let g = load_glyph(&face, code).unwrap();
        table.insert(code, GlyphRenderCache::from_rendered(code, &g));
    }
    assert_eq!(table.len(), 96);
    assert_eq!(table.glyph_textures("Hi!"), (vec![72, 105, 33], true));
}

#[test]
fn freetype_outcomes_map_to_font_errors() {
    assert!(pixel_size_result(Ok(())).is_ok());
    assert!(matches!(
        pixel_size_result(Err(freetype::Error::InvalidPixelSize)),
        Err(FontError::PixelSize(freetype::Error::InvalidPixelSize))
    ));
    assert!(glyph_load_error(Ok(())).is_none());
    assert!(matches!(
        glyph_load_error(Err(freetype::Error::InvalidCharacterCode)),
        Some(FontError::Glyph(freetype::Error::InvalidCharacterCode))
    ));
}

#[test]
fn requests_handed_to_freetype() {
    assert_eq!(pixel_size_request(24), (0, 24));
    assert_eq!(pixel_size_request(0), (0, 0));
    assert_eq!(freetype_char_code(65), 65usize);
    assert_eq!(LOAD_RENDER, freetype::face::LoadFlag::RENDER.bits());
}

#[test]
fn glyph_table_holds_every_cached_code() {
    let path = "/usr/share/fonts/truetype/dejavu/DejaVuSans.ttf";
    if !std::path::Path::new(path).exists() {
        println!("no DejaVuSans.ttf here; nothing to render");
        return;
    }
    let library = freetype::Library::init().unwrap();
    let face = library.new_face(path, 0).unwrap();
    set_font_size(&face, 16).unwrap();
    let table = build_glyph_table(
        |c: u32| load_glyph(&face, c),
        |g: &RenderedGlyph| (g.width * 1000 + g.rows) as u32,
    )
    .unwrap();
    assert_eq!(table.len(), 96);
    for code in 32u32..128 {
        let ch = char::from_u32(code).unwrap();
        let entry = table.get(ch).unwrap();
        let g = load_glyph(&face, code).unwrap();
        assert_eq!(entry, GlyphRenderCache::from_rendered((g.width * 1000 + g.rows) as u32, &g));
    }
    assert_eq!(table.get('\u{1F600}'), None);
    assert_eq!(table.get('\u{1F}'), None);
}

fn fake_glyph(code: u32) -> RenderedGlyph {
    RenderedGlyph { width: code as i32, rows: 2 * code as i32, left: -(code as i32), top: 7, buffer: vec![] }
}

#[test]
fn glyph_table_records_each_code_with_its_own_glyph() {
    let table = build_glyph_table(|c: u32| Ok(fake_glyph(c)), |g: &RenderedGlyph| g.width as u32 + 1000).unwrap();
    assert_eq!(table.len(), 96);
    for code in 32u32..128 {
        let ch = char::from_u32(code).unwrap();
        assert_eq!(
            table.get(ch),
            Some(GlyphRenderCache {
                texture: code + 1000,
                height: 2 * code as i32,
                width: code as i32,
                bearing_x: -(code as i32),
                bearing_y: 7,
            })
        );
    }
}

#[test]
fn glyph_table_stops_at_first_failed_load() {
    let r = build_glyph_table(
        |c: u32| {
            if c == 65 {
                Err(FontError::Glyph(freetype::Error::InvalidCharacterCode))
            } else if c == 66 {
                Err(FontError::Glyph(freetype::Error::InvalidGlyphIndex))
            } else {
                Ok(fake_glyph(c))
            }
        },
        |g: &RenderedGlyph| g.width as u32,
    );
    assert!(matches!(r, Err(FontError::Glyph(freetype::Error::InvalidCharacterCode))));
}
