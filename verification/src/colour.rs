use vstd::prelude::*;
use colored::Colorize;
use crate::text::{
    after_last, append_vec, chars_of, contains, contains_vec, decimal, decimal_vec, find_line,
    first_containing, first_starting_with, is_digit, replace_all, lines, lines_vec, second_field,
    second_field_vec, starts_with, starts_with_vec, str_eq, string_of, trim, trim_vec, words,
    words_vec,
};

verus! {

/// A colour of the wallpaper's palette.
#[derive(PartialEq, Eq, Structural, Clone, Copy, Debug)]
pub struct Rgb {
    pub r: u8,
    pub g: u8,
    pub b: u8,
}

/// The escape sequence that makes the terminal's text colour `c` (24-bit colour).
pub open spec fn fg_code(c: Rgb) -> Seq<char> {
    "\u{1b}[38;2;"@ + decimal(c.r as nat) + ";"@ + decimal(c.g as nat) + ";"@ + decimal(c.b as nat)
        + "m"@
}

/// The escape sequence that resets the terminal's text attributes.
pub open spec fn reset_code() -> Seq<char> {
    "\u{1b}[0m"@
}

/// The logo text `s` with its placeholders replaced: `$$` stands for `$`, `$n` (a decimal
/// digit) for the escape sequence of palette colour `n` (1-based; nothing when the palette has
/// no such colour), and any other `$` for itself.
pub open spec fn expand(s: Seq<char>, palette: Seq<Rgb>) -> Seq<char>
    decreases s.len(),
{
    if s.len() == 0 {
        seq![]
    } else if s[0] != '$' {
        seq![s[0]] + expand(s.drop_first(), palette)
    } else if s.len() >= 2 && s[1] == '$' {
        seq!['$'] + expand(s.skip(2), palette)
    } else if s.len() >= 2 && is_digit(s[1]) {
        let n = s[1] as u32 - 48;
        (if 1 <= n <= palette.len() {
            fg_code(palette[n - 1])
        } else {
            seq![]
        }) + expand(s.skip(2), palette)
    } else {
        seq!['$'] + expand(s.drop_first(), palette)
    }
}

/// The coloured logo: the first palette colour (if any) set from the start, the placeholders
/// expanded, and the attributes reset at the end.
pub open spec fn substituted(logo: Seq<char>, palette: Seq<Rgb>) -> Seq<char> {
    (if palette.len() > 0 {
        fg_code(palette[0])
    } else {
        seq![]
    }) + expand(logo, palette) + reset_code()
}

fn fg_code_vec(c: Rgb) -> (r: Vec<char>)
    ensures
        r@ == fg_code(c),
{
    let mut r = chars_of("\u{1b}[38;2;");
    append_vec(&mut r, &decimal_vec(c.r as u64));
    append_vec(&mut r, &chars_of(";"));
    append_vec(&mut r, &decimal_vec(c.g as u64));
    append_vec(&mut r, &chars_of(";"));
    append_vec(&mut r, &decimal_vec(c.b as u64));
    append_vec(&mut r, &chars_of("m"));
    r
}

/// Colours a logo with the wallpaper's palette: see `substituted`.
pub fn substitute_placeholders(logo: &str, palette: &[Rgb]) -> (r: String)
    ensures
        r@ == substituted(logo@, palette@),
{
    let s = chars_of(logo);
    let mut out: Vec<char> = Vec::new();
    if palette.len() > 0 {
        out = fg_code_vec(palette[0]);
    }
    let ghost head = out@;
    let mut i: usize = 0;
    assert(s@.skip(0) == s@);
    while i < s.len()
        invariant
            i <= s.len(),
            s@ == logo@,
            head == (if palette@.len() > 0 { fg_code(palette@[0]) } else { seq![] }),
            head + expand(s@, palette@) == out@ + expand(s@.skip(i as int), palette@),
        decreases s.len() - i,
    {
        let ghost t = s@.skip(i as int);
        let ghost before = out@;
        let c = s[i];
        if c != '$' {
            out.push(c);
            assert(t.drop_first() == s@.skip(i + 1));
            i += 1;
        } else if i + 1 < s.len() && s[i + 1] == '$' {
            out.push('$');
            assert(t.skip(2) == s@.skip(i + 2));
            i += 2;
        } else if i + 1 < s.len() && (s[i + 1] as u32) >= 48 && (s[i + 1] as u32) <= 57 {
            let n = (s[i + 1] as u32 - 48) as usize;
            if n > 0 && n <= palette.len() {
                let code = fg_code_vec(palette[n - 1]);
                append_vec(&mut out, &code);
            }
            assert(t.skip(2) == s@.skip(i + 2));
            assert(t[1] == s@[i + 1]);
            i += 2;
        } else {
            out.push('$');
            assert(t.drop_first() == s@.skip(i + 1));
            i += 1;
        }
        assert(before + expand(t, palette@) == out@ + expand(s@.skip(i as int), palette@));
    }
    append_vec(&mut out, &chars_of("\u{1b}[0m"));
    assert(s@.skip(i as int).len() == 0);
    string_of(&out)
}


/// `s` padded with spaces on the right to `width` characters (`{:<width}`).
pub open spec fn pad_right(s: Seq<char>, width: nat) -> Seq<char> {
    if s.len() < width {
        s + Seq::new((width - s.len()) as nat, |i: int| ' ')
    } else {
        s
    }
}

/// The parameter of a 24-bit foreground colour escape: `38;2;r;g;b`.
pub open spec fn truecolor_param(c: Rgb) -> Seq<char> {
    "38;2;"@ + decimal(c.r as nat) + ";"@ + decimal(c.g as nat) + ";"@ + decimal(c.b as nat)
}

/// The 16 basic colours of the `colored` crate: the parameter of each one's foreground escape
/// and the 24-bit colour it stands for.
pub open spec fn basic_colours() -> Seq<(Seq<char>, Rgb)> {
    seq![
        ("30"@, Rgb { r: 0, g: 0, b: 0 }),
        ("31"@, Rgb { r: 205, g: 0, b: 0 }),
        ("32"@, Rgb { r: 0, g: 205, b: 0 }),
        ("33"@, Rgb { r: 205, g: 205, b: 0 }),
        ("34"@, Rgb { r: 0, g: 0, b: 238 }),
        ("35"@, Rgb { r: 205, g: 0, b: 205 }),
        ("36"@, Rgb { r: 0, g: 205, b: 205 }),
        ("37"@, Rgb { r: 229, g: 229, b: 229 }),
        ("90"@, Rgb { r: 127, g: 127, b: 127 }),
        ("91"@, Rgb { r: 255, g: 0, b: 0 }),
        ("92"@, Rgb { r: 0, g: 255, b: 0 }),
        ("93"@, Rgb { r: 255, g: 255, b: 0 }),
        ("94"@, Rgb { r: 92, g: 92, b: 255 }),
        ("95"@, Rgb { r: 255, g: 0, b: 255 }),
        ("96"@, Rgb { r: 0, g: 255, b: 255 }),
        ("97"@, Rgb { r: 255, g: 255, b: 255 }),
    ]
}

/// The squared Euclidean distance between two colours.
pub open spec fn distance(a: Rgb, b: Rgb) -> int {
    (a.r - b.r) * (a.r - b.r) + (a.g - b.g) * (a.g - b.g) + (a.b - b.b) * (a.b - b.b)
}

/// `k` is the basic colour nearest to `c` (the first of the nearest ones).
pub open spec fn is_nearest_basic(c: Rgb, k: int) -> bool {
    &&& 0 <= k < basic_colours().len()
    &&& forall|j: int|
        0 <= j < basic_colours().len() ==> distance(c, basic_colours()[k].1) <= distance(
            c,
            #[trigger] basic_colours()[j].1,
        )
    &&& forall|j: int|
        0 <= j < k ==> distance(c, basic_colours()[k].1) < distance(
            c,
            #[trigger] basic_colours()[j].1,
        )
}

/// `text` styled with the foreground escape of parameter `code`: the escape, the text with the
/// escape repeated after each reset in it, and a reset.
pub open spec fn styled(text: Seq<char>, code: Seq<char>) -> Seq<char> {
    let style = "\u{1b}["@ + code + "m"@;
    style + replace_all(text, reset_code(), reset_code() + style) + reset_code()
}

/// The forms that a text coloured `c` by the `colored` crate takes: the text itself when
/// colouring is off; the text styled with `c` itself when the terminal announces 24-bit colour;
/// else the text styled with the basic colour nearest to `c`.
pub open spec fn colored_form(out: Seq<char>, text: Seq<char>, c: Rgb) -> bool {
    ||| out == text
    ||| out == styled(text, truecolor_param(c))
    ||| exists|k: int| is_nearest_basic(c, k) && out == styled(text, basic_colours()[k].0)
}

/// `colored::Colorize::truecolor` on `text`, rendered with `to_string`. Which of the forms of
/// `colored_form` the result takes is decided inside the crate, from the terminal and the
/// environment (`NO_COLOR`, `CLICOLOR`, `CLICOLOR_FORCE`, `COLORTERM`), so the contract states
/// the three forms and leaves the choice among them open.
#[verifier::external_body]
fn truecolor_string(text: &str, c: Rgb) -> (out: String)
    ensures
        colored_form(out@, text@, c),
{
    text.truecolor(c.r, c.g, c.b).to_string()
}

fn pad_right_vec(v: &mut Vec<char>, width: usize)
    ensures
        final(v)@ == pad_right(old(v)@, width as nat),
{
    let ghost start = v@;
    while v.len() < width
        invariant
            start.len() <= v.len() || start.len() >= width,
            start.len() >= width ==> v@ == start,
            start.len() < width ==> v@ == start + Seq::new((v.len() - start.len()) as nat, |i: int| ' '),
            v.len() <= width || v@ == start,
        decreases width - v.len(),
    {
        let ghost before = v@;
        v.push(' ');
        assert(start + Seq::new((v.len() - start.len()) as nat, |i: int| ' ') =~= before.push(' '));
    }
    proof {
        if start.len() < width {
            assert(v.len() == width);
        }
    }
}

/// A label of the fetch, padded to 15 characters and coloured with the third palette colour
/// (as the `colored` crate does it, see `colored_form`); unchanged when the palette has fewer
/// than three colours.
pub fn colorize_label(label: &str, palette: &[Rgb]) -> (r: String)
    ensures
        palette@.len() < 3 ==> r@ == label@,
        palette@.len() >= 3 ==> colored_form(
            r@,
            pad_right(label@, 15),
            palette@[2],
        ),
{
    if palette.len() >= 3 {
        let mut v = chars_of(label);
        pad_right_vec(&mut v, 15);
        let padded = string_of(&v);
        truecolor_string(padded.as_str(), palette[2])
    } else {
        label.to_owned()
    }
}

/// A value of the fetch coloured with the fourth palette colour (see `colored_form`);
/// unchanged when the palette has fewer than four colours.
pub fn colorize_value(value: &str, palette: &[Rgb]) -> (r: String)
    ensures
        palette@.len() < 4 ==> r@ == value@,
        palette@.len() >= 4 ==> colored_form(
            r@,
            value@,
            palette@[3],
        ),
{
    if palette.len() >= 4 {
        truecolor_string(value, palette[3])
    } else {
        value.to_owned()
    }
}

/// The 8-bit RGB pixels (row by row, three bytes each) that the `image` crate decodes from
/// the encoded image `bytes` of a file whose name has the given `extension` (empty when it has
/// none); the format is recognised from the content, else from the extension. `None` when it
/// is not recognised or decoding fails.
pub uninterp spec fn decoded_rgb8(bytes: Seq<u8>, extension: Seq<char>) -> Option<Seq<u8>>;

/// The palette that `color_thief::get_palette` computes from RGB `pixels` with the given
/// quality step and colour count; `None` when it fails.
pub uninterp spec fn thief_palette(pixels: Seq<u8>, quality: u8, max_colors: u8) -> Option<
    Seq<(u8, u8, u8)>,
>;

/// The most pixel bytes of which the palette is computed (about 127 million RGB pixels).
/// `color_thief` sums the sampled pixels in 32-bit integers, which overflow beyond it.
pub const MAX_PALETTE_BYTES: usize = 383_000_000;

/// The colours of a palette as red, green, blue triples.
pub open spec fn rgb_triples(p: Seq<Rgb>) -> Seq<(u8, u8, u8)> {
    p.map_values(|c: Rgb| (c.r, c.g, c.b))
}

pub open spec fn option_bytes(o: Option<Vec<u8>>) -> Option<Seq<u8>> {
    match o {
        Some(v) => Some(v@),
        None => None,
    }
}

/// `image::ImageReader::new` over `bytes`, given the format that `ImageFormat::from_extension`
/// finds for `extension` (as `ImageReader::open` does from a path), `with_guessed_format`,
/// `decode`, then `to_rgb8` and `into_raw`: the decoded pixels as 8-bit RGB. Claims only that
/// the result is `decoded_rgb8` of the arguments, a function of them alone.
#[verifier::external_body]
fn decode_rgb8(bytes: &[u8], extension: &str) -> (r: Option<Vec<u8>>)
    ensures
        option_bytes(r) == decoded_rgb8(bytes@, extension@),
{
    let mut reader = image::ImageReader::new(std::io::Cursor::new(bytes));
    if let Some(format) = image::ImageFormat::from_extension(extension) {
        reader.set_format(format);
    }
    match reader.with_guessed_format() {
        Ok(reader) => match reader.decode() {
            Ok(img) => Some(img.to_rgb8().into_raw()),
            Err(_) => None,
        },
        Err(_) => None,
    }
}

/// `color_thief::get_palette` on RGB pixels. Claims that the result is `thief_palette` of
/// the arguments, and that it holds at most `max_colors` colours (the crate truncates to
/// that). The crate asserts `1 <= quality <= 10` and `max_colors > 1`; it samples every
/// `3 * quality`-th pixel and adds up to 252 per sample into 32-bit sums, so the pixels are
/// bounded to keep those sums from overflowing.
#[verifier::external_body]
fn thief_get_palette(pixels: &[u8], quality: u8, max_colors: u8) -> (r: Option<Vec<Rgb>>)
    requires
        1 <= quality <= 10,
        max_colors > 1,
        pixels@.len() <= 76_600_000 * quality,
    ensures
        match r {
            Some(p) => thief_palette(pixels@, quality, max_colors) == Some(rgb_triples(p@)),
            None => thief_palette(pixels@, quality, max_colors) is None,
        },
        r matches Some(p) ==> p.len() <= max_colors,
{
    match color_thief::get_palette(pixels, color_thief::ColorFormat::Rgb, quality, max_colors) {
        Ok(colors) => Some(colors.iter().map(|c| Rgb { r: c.r, g: c.g, b: c.b }).collect()),
        Err(_) => None,
    }
}

/// The palette of RGB pixels that the fetch uses: four colours at quality step 5, or none when
/// the computation fails.
pub open spec fn pixels_palette(pixels: Seq<u8>) -> Seq<(u8, u8, u8)> {
    match thief_palette(pixels, 5, 4) {
        Some(p) => p,
        None => seq![],
    }
}

/// The palette of an encoded wallpaper image: none when it cannot be decoded, or when it
/// decodes to more than `MAX_PALETTE_BYTES` pixel bytes.
pub open spec fn image_palette(image: Seq<u8>, extension: Seq<char>) -> Seq<(u8, u8, u8)> {
    match decoded_rgb8(image, extension) {
        Some(pixels) => if pixels.len() <= MAX_PALETTE_BYTES {
            pixels_palette(pixels)
        } else {
            seq![]
        },
        None => seq![],
    }
}

/// The dominant colours of decoded RGB pixels (at most four).
pub fn palette_of_pixels(pixels: &[u8]) -> (r: Vec<Rgb>)
    requires
        pixels@.len() <= MAX_PALETTE_BYTES,
    ensures
        rgb_triples(r@) == pixels_palette(pixels@),
        thief_palette(pixels@, 5, 4) matches Some(p) ==> rgb_triples(r@) == p,
        thief_palette(pixels@, 5, 4) is None ==> r.len() == 0,
        r.len() <= 4,
{
    match thief_get_palette(pixels, 5, 4) {
        Some(p) => p,
        None => {
            let r: Vec<Rgb> = Vec::new();
            assert(rgb_triples(r@) =~= seq![]);
            r
        },
    }
}

fn no_colours() -> (r: Vec<Rgb>)
    ensures
        rgb_triples(r@) == Seq::<(u8, u8, u8)>::empty(),
        r.len() == 0,
{
    let r: Vec<Rgb> = Vec::new();
    assert(rgb_triples(r@) =~= seq![]);
    r
}

/// The dominant colours of the wallpaper whose encoded file contents are `image`, the file's
/// name having the given `extension` (empty when it has none); none when the image cannot be
/// decoded or is too large (see `image_palette`).
pub fn extract_palette(image: &[u8], extension: &str) -> (r: Vec<Rgb>)
    ensures
        rgb_triples(r@) == image_palette(image@, extension@),
        decoded_rgb8(image@, extension@) matches Some(px) ==> (px.len() <= MAX_PALETTE_BYTES
            ==> match thief_palette(px, 5, 4) {
            Some(p) => rgb_triples(r@) == p,
            None => r.len() == 0,
        }),
        decoded_rgb8(image@, extension@) matches Some(px) ==> (px.len() > MAX_PALETTE_BYTES
            ==> r.len() == 0),
        decoded_rgb8(image@, extension@) is None ==> r.len() == 0,
        r.len() <= 4,
{
    match decode_rgb8(image, extension) {
        Some(pixels) => if pixels.len() <= MAX_PALETTE_BYTES {
            palette_of_pixels(pixels.as_slice())
        } else {
            no_colours()
        },
        None => no_colours(),
    }
}

/// Where a desktop keeps the wallpaper's location.
pub enum WallpaperSource {
    /// GNOME: the colour scheme is read (`gsettings get <scheme_schema> <scheme_key>`), then
    /// the key that `gnome_background_key` picks for it from `background_schema`; that value
    /// is a file URI (see `file_uri_path`).
    GnomeByColorScheme { scheme_schema: String, scheme_key: String, background_schema: String },
    /// A gsettings value that is a file URI (see `file_uri_path`).
    GsettingsUri { schema: String, key: String },
    /// A gsettings value that is the wallpaper's path itself.
    GsettingsPath { schema: String, key: String },
    /// KDE Plasma: the applet configuration files of `kde_appletsrc_paths` (see `kde_wallpaper`).
    KdeAppletsrc,
    /// XFCE: the listing of `xfconf-query -c xfce4-desktop -lv` (see `xfce_wallpaper`).
    XfconfListing,
    /// A desktop whose wallpaper the fetch cannot find.
    Unsupported,
}

/// The source of the wallpaper for the desktop named `de` (a name of `kind_name`).
pub open spec fn wallpaper_source_for(de: Seq<char>, w: WallpaperSource) -> bool {
    if de == "GNOME"@ {
        w matches WallpaperSource::GnomeByColorScheme {
            scheme_schema,
            scheme_key,
            background_schema,
        } && scheme_schema@ == "org.gnome.desktop.interface"@ && scheme_key@ == "color-scheme"@
            && background_schema@ == "org.gnome.desktop.background"@
    } else if de == "Cinnamon"@ {
        w matches WallpaperSource::GsettingsUri { schema, key } && schema@
            == "org.cinnamon.desktop.background"@ && key@ == "picture-uri"@
    } else if de == "Mate"@ {
        w matches WallpaperSource::GsettingsPath { schema, key } && schema@
            == "org.mate.background"@ && key@ == "picture-filename"@
    } else if de == "KDE"@ {
        w is KdeAppletsrc
    } else if de == "XFCE"@ {
        w is XfconfListing
    } else {
        w is Unsupported
    }
}

/// The GNOME background key: the dark variant when the colour scheme mentions "dark".
pub open spec fn gnome_key(color_scheme: Seq<char>) -> Seq<char> {
    if contains(color_scheme, "dark"@) {
        "picture-uri-dark"@
    } else {
        "picture-uri"@
    }
}

/// The path that a `file://` URI names; empty for any other value.
pub open spec fn uri_path(value: Seq<char>) -> Seq<char> {
    if starts_with(value, "file://"@) {
        value.skip("file://"@.len() as int)
    } else {
        seq![]
    }
}

/// The wallpaper named by the first `Image=` line of a Plasma applet configuration: the text
/// after `=` (up to a further `=`), trimmed, without a leading `file://`.
pub open spec fn kde_image(contents: Seq<char>) -> Option<Seq<char>> {
    match first_starting_with(lines(contents), "Image="@) {
        None => None,
        Some(line) => match second_field(line, '=') {
            None => None,
            Some(f) => {
                let t = trim(f);
                Some(
                    if starts_with(t, "file://"@) {
                        t.skip("file://"@.len() as int)
                    } else {
                        t
                    },
                )
            },
        },
    }
}

/// The wallpaper named by the first line of an xfconf listing that mentions `last-image`: its
/// last word.
pub open spec fn xfce_image(listing: Seq<char>) -> Option<Seq<char>> {
    match first_containing(lines(listing), "last-image"@) {
        None => None,
        Some(line) => if words(line).len() == 0 {
            None
        } else {
            Some(trim(words(line).last()))
        },
    }
}

pub fn wallpaper_source(de: &str) -> (r: WallpaperSource)
    ensures
        wallpaper_source_for(de@, r),
{
    if str_eq(de, "GNOME") {
        WallpaperSource::GnomeByColorScheme {
            scheme_schema: "org.gnome.desktop.interface".to_owned(),
            scheme_key: "color-scheme".to_owned(),
            background_schema: "org.gnome.desktop.background".to_owned(),
        }
    } else if str_eq(de, "Cinnamon") {
        WallpaperSource::GsettingsUri {
            schema: "org.cinnamon.desktop.background".to_owned(),
            key: "picture-uri".to_owned(),
        }
    } else if str_eq(de, "Mate") {
        WallpaperSource::GsettingsPath {
            schema: "org.mate.background".to_owned(),
            key: "picture-filename".to_owned(),
        }
    } else if str_eq(de, "KDE") {
        WallpaperSource::KdeAppletsrc
    } else if str_eq(de, "XFCE") {
        WallpaperSource::XfconfListing
    } else {
        WallpaperSource::Unsupported
    }
}

/// The key of `org.gnome.desktop.background` that holds the wallpaper for the colour scheme
/// that gsettings reported.
pub fn gnome_background_key(color_scheme: &str) -> (r: String)
    ensures
        r@ == gnome_key(color_scheme@),
{
    if contains_vec(&chars_of(color_scheme), &chars_of("dark")) {
        "picture-uri-dark".to_owned()
    } else {
        "picture-uri".to_owned()
    }
}

/// The path of a `file://` URI; empty for any other value.
pub fn file_uri_path(value: &str) -> (r: String)
    ensures
        r@ == uri_path(value@),
{
    let v = chars_of(value);
    let p = chars_of("file://");
    if starts_with_vec(&v, &p) {
        string_of(&crate::text::slice(&v, p.len(), v.len()))
    } else {
        String::new()
    }
}

/// The wallpaper named in a Plasma applet configuration file (see `kde_image`).
pub fn kde_wallpaper(contents: &str) -> (r: Option<String>)
    ensures
        match r {
            Some(w) => kde_image(contents@) == Some(w@),
            None => kde_image(contents@) is None,
        },
{
    let ls = lines_vec(&chars_of(contents));
    let line = match find_line(&ls, &chars_of("Image="), false) {
        Some(l) => l,
        None => return None,
    };
    let f = match second_field_vec(&line, '=') {
        Some(f) => f,
        None => return None,
    };
    let t = trim_vec(&f);
    let p = chars_of("file://");
    if starts_with_vec(&t, &p) {
        Some(string_of(&crate::text::slice(&t, p.len(), t.len())))
    } else {
        Some(string_of(&t))
    }
}

/// The wallpaper named in the listing of `xfconf-query -c xfce4-desktop -lv`
/// (see `xfce_image`).
pub fn xfce_wallpaper(listing: &str) -> (r: Option<String>)
    ensures
        match r {
            Some(w) => xfce_image(listing@) == Some(w@),
            None => xfce_image(listing@) is None,
        },
{
    let ls = lines_vec(&chars_of(listing));
    let line = match find_line(&ls, &chars_of("last-image"), true) {
        Some(l) => l,
        None => return None,
    };
    let ws = words_vec(&line);
    if ws.len() == 0 {
        return None;
    }
    assert(crate::text::views(ws@).last() == ws@[ws.len() - 1]@);
    Some(string_of(&trim_vec(&ws[ws.len() - 1])))
}

/// The Plasma 5 and the Plasma 6 applet configuration files under the home directory.
pub fn kde_appletsrc_paths(home: &str) -> (r: (String, String))
    ensures
        r.0@ == home@ + "/.config/plasma-org.kde.plasma.desktop-appletsrc"@,
        r.1@ == home@ + "/.config/kde.org/plasma-org.kde.plasma.desktop-appletsrc"@,
{
    let mut a = home.to_owned();
    a.append("/.config/plasma-org.kde.plasma.desktop-appletsrc");
    let mut b = home.to_owned();
    b.append("/.config/kde.org/plasma-org.kde.plasma.desktop-appletsrc");
    (a, b)
}

/// A logo without any `$` keeps its text: only the first palette colour is set before it
/// and the attributes are reset after it, so lines without placeholders are coloured too.
pub proof fn law_plain_logo_keeps_text(logo: Seq<char>, palette: Seq<Rgb>)
    requires
        forall|i: int| 0 <= i < logo.len() ==> logo[i] != '$',
    ensures
        expand(logo, palette) == logo,
        substituted(logo, palette) == (if palette.len() > 0 {
            fg_code(palette[0])
        } else {
            seq![]
        }) + logo + reset_code(),
    decreases logo.len(),
{
    if logo.len() > 0 {
        let rest = logo.drop_first();
        assert forall|i: int| 0 <= i < rest.len() implies rest[i] != '$' by {
            assert(rest[i] == logo[i + 1]);
        }
        law_plain_logo_keeps_text(rest, palette);
        assert(seq![logo[0]] + rest == logo);
    }
}

/// The coloured logo always starts with the first palette colour (when there is one) and
/// always ends by resetting the terminal's attributes.
pub proof fn law_substitution_is_framed(logo: Seq<char>, palette: Seq<Rgb>)
    ensures
        palette.len() > 0 ==> substituted(logo, palette).take(fg_code(palette[0]).len() as int)
            == fg_code(palette[0]),
        substituted(logo, palette).skip(
            substituted(logo, palette).len() - reset_code().len(),
        ) == reset_code(),
{
    let head = if palette.len() > 0 {
        fg_code(palette[0])
    } else {
        seq![]
    };
    let s = substituted(logo, palette);
    assert(s == head + expand(logo, palette) + reset_code());
    assert(s.skip(s.len() - reset_code().len()) =~= reset_code());
    if palette.len() > 0 {
        assert(s.take(head.len() as int) =~= head);
    }
}

/// The palette of decoded pixels is color_thief's palette at quality step 5 with four colours,
/// in color_thief's own order (the dominant colour first), or no colours when it fails.
pub proof fn law_palette_is_color_thief_order(pixels: Seq<u8>)
    ensures
        thief_palette(pixels, 5, 4) matches Some(p) ==> pixels_palette(pixels) == p && forall|
            i: int,
        |
            0 <= i < p.len() ==> #[trigger] pixels_palette(pixels)[i] == p[i],
        thief_palette(pixels, 5, 4) is None ==> pixels_palette(pixels).len() == 0,
{
}

/// The palette of a wallpaper file is color_thief's palette of its decoded pixels, in order;
/// none when it does not decode or decodes to more than `MAX_PALETTE_BYTES`.
pub proof fn law_image_palette(image: Seq<u8>, extension: Seq<char>)
    ensures
        decoded_rgb8(image, extension) is None ==> image_palette(image, extension).len() == 0,
        decoded_rgb8(image, extension) matches Some(px) ==> (px.len() > MAX_PALETTE_BYTES
            ==> image_palette(image, extension).len() == 0),
        decoded_rgb8(image, extension) matches Some(px) ==> (px.len() <= MAX_PALETTE_BYTES
            && thief_palette(px, 5, 4) is Some ==> image_palette(image, extension) == thief_palette(
            px,
            5,
            4,
        )->0),
        decoded_rgb8(image, extension) matches Some(px) ==> (thief_palette(px, 5, 4) is None
            ==> image_palette(image, extension).len() == 0),
{
}

/// The escape of a colour names its three components in decimal.
pub proof fn law_fg_code(c: Rgb)
    ensures
        fg_code(c) == "\u{1b}[38;2;"@ + decimal(c.r as nat) + ";"@ + decimal(c.g as nat) + ";"@
            + decimal(c.b as nat) + "m"@,
{
}

/// Placeholder expansion, character by character: `$n` with `1 <= n <= palette.len()`
/// becomes the escape of the `n`-th colour; `$0` and `$n` beyond the palette vanish; `$$`
/// becomes `$`; any other `$`, and any other character, stands for itself.
pub proof fn law_placeholders(s: Seq<char>, palette: Seq<Rgb>, c: char, d: char)
    ensures
        expand(seq![], palette) == Seq::<char>::empty(),
        c != '$' ==> expand(seq![c] + s, palette) == seq![c] + expand(s, palette),
        expand(seq!['$', '$'] + s, palette) == seq!['$'] + expand(s, palette),
        is_digit(d) && 1 <= d as u32 - 48 <= palette.len() ==> expand(seq!['$', d] + s, palette)
            == fg_code(palette[d as u32 - 49]) + expand(s, palette),
        is_digit(d) && !(1 <= d as u32 - 48 <= palette.len()) ==> expand(seq!['$', d] + s, palette)
            == expand(s, palette),
        d != '$' && !is_digit(d) ==> expand(seq!['$', d] + s, palette) == seq!['$'] + expand(
            seq![d] + s,
            palette,
        ),
        expand(seq!['$'], palette) == seq!['$'],
{
    let t = seq![c] + s;
    assert(t.drop_first() == s);
    let u = seq!['$', '$'] + s;
    assert(u.skip(2) == s);
    let v = seq!['$', d] + s;
    assert(v.skip(2) == s);
    assert(v.drop_first() == seq![d] + s);
    assert(v[1] == d);
    let w = seq!['$'];
    assert(w.len() == 1 && w[0] == '$');
    assert(w.drop_first() =~= Seq::<char>::empty());
    assert(expand(w.drop_first(), palette) == Seq::<char>::empty());
    assert(seq!['$'] + Seq::<char>::empty() =~= w);
}

/// Every digit placeholder within the palette is expanded to its colour: `$n` in a logo gives
/// the escape of the `n`-th palette colour, for each `n` from 1 to the palette's length.
#[verifier::rlimit(30)]
pub proof fn law_each_placeholder_names_its_colour(
    before: Seq<char>,
    after: Seq<char>,
    palette: Seq<Rgb>,
    n: int,
)
    requires
        1 <= n <= 9,
        n <= palette.len(),
        before.len() == 0 || before.last() != '$',
    ensures
        expand(before + seq!['$', ((n + 48) as char)] + after, palette) == expand(before, palette)
            + fg_code(palette[n - 1]) + expand(after, palette),
    decreases before.len(),
{
    let d = (n + 48) as char;
    assert(d as u32 == n + 48);
    if before.len() == 0 {
        assert(before + seq!['$', d] + after == seq!['$', d] + after);
        law_placeholders(after, palette, ' ', d);
    } else {
        let s = before + seq!['$', d] + after;
        let rest = before.drop_first();
        assert(s.drop_first() == rest + seq!['$', d] + after);
        if before[0] != '$' {
            law_each_placeholder_names_its_colour(rest, after, palette, n);
        } else {
            assert(before.len() >= 2);
            assert(s[1] == before[1]);
            if before[1] == '$' || is_digit(before[1]) {
                assert(s.skip(2) == before.skip(2) + seq!['$', d] + after);
                if before.len() > 2 {
                    assert(before.skip(2).last() == before.last());
                }
                law_each_placeholder_names_its_colour(before.skip(2), after, palette, n);
            } else {
                law_each_placeholder_names_its_colour(rest, after, palette, n);
            }
        }
    }
}

/// GNOME's wallpaper is read from `picture-uri-dark` whenever the colour scheme mentions
/// "dark", else from `picture-uri`.
pub proof fn law_gnome_key(before: Seq<char>, after: Seq<char>, scheme: Seq<char>)
    ensures
        gnome_key(before + "dark"@ + after) == "picture-uri-dark"@,
        !contains(scheme, "dark"@) ==> gnome_key(scheme) == "picture-uri"@,
{
    let s = before + "dark"@ + after;
    reveal_strlit("dark");
    assert(s.subrange(before.len() as int, before.len() + 4int) =~= "dark"@);
    assert(crate::text::matches_at(s, "dark"@, before.len() as int));
}

/// A `file://` URI names the path after its scheme; any other value names no path.
pub proof fn law_uri_path(path: Seq<char>, value: Seq<char>)
    ensures
        uri_path("file://"@ + path) == path,
        !starts_with(value, "file://"@) ==> uri_path(value).len() == 0,
{
    let s = "file://"@ + path;
    assert(s.subrange(0, "file://"@.len() as int) =~= "file://"@);
    assert(s.skip("file://"@.len() as int) =~= path);
}

/// Where each desktop keeps its wallpaper: GNOME's background key follows the colour scheme
/// of `org.gnome.desktop.interface`; Cinnamon's `picture-uri` is a file URI; MATE's
/// `picture-filename` is a path; KDE's is in the Plasma applet configuration, XFCE's in the
/// xfconf listing; any other desktop is not supported.
pub proof fn law_wallpaper_sources(w: WallpaperSource)
    ensures
        wallpaper_source_for("GNOME"@, w) ==> (w matches WallpaperSource::GnomeByColorScheme {
            scheme_schema,
            scheme_key,
            background_schema,
        } && scheme_schema@ == "org.gnome.desktop.interface"@ && scheme_key@ == "color-scheme"@
            && background_schema@ == "org.gnome.desktop.background"@),
        wallpaper_source_for("Cinnamon"@, w) ==> (w matches WallpaperSource::GsettingsUri {
            schema,
            key,
        } && schema@ == "org.cinnamon.desktop.background"@ && key@ == "picture-uri"@),
        wallpaper_source_for("Mate"@, w) ==> (w matches WallpaperSource::GsettingsPath {
            schema,
            key,
        } && schema@ == "org.mate.background"@ && key@ == "picture-filename"@),
        wallpaper_source_for("KDE"@, w) ==> w is KdeAppletsrc,
        wallpaper_source_for("XFCE"@, w) ==> w is XfconfListing,
        wallpaper_source_for("Unknown"@, w) ==> w is Unsupported,
{
    reveal_strlit("GNOME");
    reveal_strlit("Cinnamon");
    reveal_strlit("Mate");
    reveal_strlit("KDE");
    reveal_strlit("XFCE");
    reveal_strlit("Unknown");
    assert("GNOME"@[0] != "Cinnamon"@[0]);
    assert("GNOME"@[0] != "Mate"@[0]);
    assert("GNOME"@[0] != "KDE"@[0]);
    assert("GNOME"@[0] != "XFCE"@[0]);
    assert("GNOME"@[0] != "Unknown"@[0]);
    assert("Cinnamon"@[0] != "Mate"@[0]);
    assert("Cinnamon"@[0] != "KDE"@[0]);
    assert("Cinnamon"@[0] != "XFCE"@[0]);
    assert("Cinnamon"@[0] != "Unknown"@[0]);
    assert("Mate"@[0] != "KDE"@[0]);
    assert("Mate"@[0] != "XFCE"@[0]);
    assert("Mate"@[0] != "Unknown"@[0]);
    assert("KDE"@[0] != "XFCE"@[0]);
    assert("KDE"@[0] != "Unknown"@[0]);
    assert("XFCE"@[0] != "Unknown"@[0]);
}

/// Padding to a width keeps the text and adds spaces up to the width; text that is as wide
/// or wider stays as it is.
pub proof fn law_pad_right(s: Seq<char>, width: nat)
    ensures
        pad_right(s, width).len() == if s.len() < width {
            width as int
        } else {
            s.len() as int
        },
        pad_right(s, width).take(s.len() as int) == s,
        forall|i: int| s.len() <= i < pad_right(s, width).len() ==> #[trigger] pad_right(s, width)[i]
            == ' ',
{
    assert(pad_right(s, width).take(s.len() as int) =~= s);
}

/// A Plasma applet configuration names its wallpaper on the first `Image=` line: the value,
/// without a leading `file://`.
#[verifier::rlimit(30)]
pub proof fn law_kde_image(head: Seq<char>, path: Seq<char>, rest: Seq<char>)
    requires
        head.len() == 0 || head.last() == '\n',
        forall|i: int| 0 <= i < lines(head).len() ==> !starts_with(
            #[trigger] lines(head)[i],
            "Image="@,
        ),
        path.len() > 0,
        forall|i: int| 0 <= i < path.len() ==> path[i] != '=' && path[i] != '\n',
        !crate::text::is_ws(path[0]),
        !crate::text::is_ws(path.last()),
    ensures
        kde_image(head + "Image="@ + ("file://"@ + path) + seq!['\n'] + rest) == Some(path),
        !starts_with(path, "file://"@) ==> kde_image(head + "Image="@ + path + seq!['\n'] + rest)
            == Some(path),
{
    reveal_strlit("Image=");
    reveal_strlit("file://");
    assert("Image="@.take(6) =~= "Image="@);
    assert(crate::text::is_ws('\r'));
    let uri = "file://"@ + path;
    assert forall|i: int| 0 <= i < uri.len() implies uri[i] != '=' && uri[i] != '\n' by {
        if i >= 7 {
            assert(uri[i] == path[i - 7]);
        }
    }
    assert(uri.last() == path.last());
    crate::text::law_first_keyed_line(head, "Image="@, uri, rest, '=', "Image="@);
    crate::text::law_trim_set_exact(
        Seq::<char>::empty(),
        uri,
        Seq::<char>::empty(),
        crate::text::CharSet::Whitespace,
    );
    assert(Seq::<char>::empty() + uri + Seq::<char>::empty() =~= uri);
    law_uri_path(path, path);
    crate::text::law_first_keyed_line(head, "Image="@, path, rest, '=', "Image="@);
    crate::text::law_trim_set_exact(
        Seq::<char>::empty(),
        path,
        Seq::<char>::empty(),
        crate::text::CharSet::Whitespace,
    );
    assert(Seq::<char>::empty() + path + Seq::<char>::empty() =~= path);
}

/// The xfconf listing names the wallpaper on the first line that mentions `last-image`: the
/// value after the property's name.
#[verifier::rlimit(30)]
pub proof fn law_xfce_image(
    head: Seq<char>,
    property: Seq<char>,
    spaces: Seq<char>,
    path: Seq<char>,
    rest: Seq<char>,
)
    requires
        head.len() == 0 || head.last() == '\n',
        forall|i: int| 0 <= i < lines(head).len() ==> !contains(
            #[trigger] lines(head)[i],
            "last-image"@,
        ),
        contains(property, "last-image"@),
        forall|i: int| 0 <= i < property.len() ==> property[i] != '\n',
        spaces.len() > 0,
        forall|i: int| 0 <= i < spaces.len() ==> spaces[i] == ' ',
        path.len() > 0,
        forall|i: int| 0 <= i < path.len() ==> !crate::text::is_ws(#[trigger] path[i]),
    ensures
        xfce_image(head + (property + spaces + path) + seq!['\n'] + rest) == Some(path),
{
    let line = property + spaces + path;
    assert(crate::text::is_ws('\n') && crate::text::is_ws('\r'));
    assert forall|i: int| 0 <= i < line.len() implies line[i] != '\n' by {
        if i < property.len() {
            assert(line[i] == property[i]);
        } else if i < property.len() + spaces.len() {
            assert(line[i] == spaces[i - property.len()]);
        } else {
            assert(line[i] == path[i - property.len() - spaces.len()]);
        }
    }
    assert(line.last() == path.last());
    let k = choose|k: int| crate::text::matches_at(property, "last-image"@, k);
    assert(line.subrange(k, k + "last-image"@.len()) =~= property.subrange(
        k,
        k + "last-image"@.len(),
    ));
    assert(crate::text::matches_at(line, "last-image"@, k));
    crate::text::law_first_line_containing(head, line, rest, "last-image"@);
    let front = property + spaces;
    assert(front.last() == spaces.last());
    crate::text::law_words_append(front, path);
    assert(path =~= Seq::<char>::empty() + path + Seq::<char>::empty());
    crate::text::law_words_first(Seq::<char>::empty(), path, Seq::<char>::empty());
    crate::text::law_words_blank(Seq::<char>::empty());
    assert(words(line) == words(front) + seq![path]);
    crate::text::law_trim_set_exact(
        Seq::<char>::empty(),
        path,
        Seq::<char>::empty(),
        crate::text::CharSet::Whitespace,
    );
}

/// Coloured text without a reset in it is the colour's escape, the text, and a reset.
pub proof fn law_styled_plain(text: Seq<char>, code: Seq<char>)
    requires
        !contains(text, reset_code()),
    ensures
        styled(text, code) == "\u{1b}["@ + code + "m"@ + text + reset_code(),
{
    reveal_strlit("\u{1b}[0m");
    if crate::text::find(text, reset_code()) is Some {
        crate::text::lemma_find(text, reset_code());
    }
}

/// A colour's 24-bit escape parameter names its three components in decimal.
pub proof fn law_truecolor_param(c: Rgb)
    ensures
        truecolor_param(c) == "38;2;"@ + decimal(c.r as nat) + ";"@ + decimal(c.g as nat) + ";"@
            + decimal(c.b as nat),
        "\u{1b}["@ + truecolor_param(c) + "m"@ == fg_code(c),
{
    reveal_strlit("\u{1b}[");
    reveal_strlit("38;2;");
    reveal_strlit("\u{1b}[38;2;");
    assert("\u{1b}["@ + "38;2;"@ =~= "\u{1b}[38;2;"@);
    assert("\u{1b}["@ + truecolor_param(c) + "m"@ =~= fg_code(c));
}

/// A colour that is one of the basic colours is nearest to the first basic colour equal to it.
pub proof fn law_basic_colour_is_its_own_nearest(k: int)
    requires
        0 <= k < basic_colours().len(),
    ensures
        is_nearest_basic(basic_colours()[k].1, k),
{
    let c = basic_colours()[k].1;
    assert(distance(c, c) == 0);
    assert forall|j: int| 0 <= j < basic_colours().len() implies 0 <= distance(
        c,
        #[trigger] basic_colours()[j].1,
    ) by {
        let b = basic_colours()[j].1;
        assert((c.r - b.r) * (c.r - b.r) >= 0) by (nonlinear_arith);
        assert((c.g - b.g) * (c.g - b.g) >= 0) by (nonlinear_arith);
        assert((c.b - b.b) * (c.b - b.b) >= 0) by (nonlinear_arith);
    }
    assert forall|j: int| 0 <= j < k implies distance(c, basic_colours()[k].1) < distance(
        c,
        #[trigger] basic_colours()[j].1,
    ) by {
        let b = basic_colours()[j].1;
        assert(b != c);
        assert((c.r - b.r) * (c.r - b.r) >= 0) by (nonlinear_arith);
        assert((c.g - b.g) * (c.g - b.g) >= 0) by (nonlinear_arith);
        assert((c.b - b.b) * (c.b - b.b) >= 0) by (nonlinear_arith);
        if c.r != b.r {
            assert((c.r - b.r) * (c.r - b.r) > 0) by (nonlinear_arith)
                requires
                    c.r != b.r,
            ;
        } else if c.g != b.g {
            assert((c.g - b.g) * (c.g - b.g) > 0) by (nonlinear_arith)
                requires
                    c.g != b.g,
            ;
        } else {
            assert(c.b != b.b);
            assert((c.b - b.b) * (c.b - b.b) > 0) by (nonlinear_arith)
                requires
                    c.b != b.b,
            ;
        }
    }
}

/// The logo takes color_thief's dominant colour (the first of its palette) as its default
/// colour and as `$1`.
pub proof fn law_logo_uses_dominant_colour(
    pixels: Seq<u8>,
    palette: Seq<Rgb>,
    logo: Seq<char>,
    rest: Seq<char>,
)
    requires
        rgb_triples(palette) == pixels_palette(pixels),
        thief_palette(pixels, 5, 4) matches Some(p) && p.len() > 0,
    ensures
        ({
            let d = thief_palette(pixels, 5, 4)->0[0];
            let dominant = Rgb { r: d.0, g: d.1, b: d.2 };
            &&& substituted(logo, palette).take(fg_code(dominant).len() as int) == fg_code(dominant)
            &&& expand(seq!['$', '1'] + rest, palette) == fg_code(dominant) + expand(rest, palette)
        }),
{
    let p = thief_palette(pixels, 5, 4)->0;
    law_palette_is_color_thief_order(pixels);
    assert(rgb_triples(palette).len() == palette.len());
    assert(rgb_triples(palette)[0] == (palette[0].r, palette[0].g, palette[0].b));
    let d = p[0];
    assert(palette[0] == Rgb { r: d.0, g: d.1, b: d.2 });
    law_substitution_is_framed(logo, palette);
    assert(('1' as u32) == 49);
    law_placeholders(rest, palette, ' ', '1');
}

/// The distance between colours is never negative, is symmetric, and is zero exactly between
/// equal colours.
pub proof fn law_distance(a: Rgb, b: Rgb)
    ensures
        distance(a, b) >= 0,
        distance(a, b) == distance(b, a),
        distance(a, b) == 0 <==> a == b,
{
    assert((a.r - b.r) * (a.r - b.r) >= 0) by (nonlinear_arith);
    assert((a.g - b.g) * (a.g - b.g) >= 0) by (nonlinear_arith);
    assert((a.b - b.b) * (a.b - b.b) >= 0) by (nonlinear_arith);
    assert((a.r - b.r) * (a.r - b.r) == (b.r - a.r) * (b.r - a.r)) by (nonlinear_arith);
    assert((a.g - b.g) * (a.g - b.g) == (b.g - a.g) * (b.g - a.g)) by (nonlinear_arith);
    assert((a.b - b.b) * (a.b - b.b) == (b.b - a.b) * (b.b - a.b)) by (nonlinear_arith);
    if a.r != b.r {
        assert((a.r - b.r) * (a.r - b.r) > 0) by (nonlinear_arith)
            requires
                a.r != b.r,
        ;
    }
    if a.g != b.g {
        assert((a.g - b.g) * (a.g - b.g) > 0) by (nonlinear_arith)
            requires
                a.g != b.g,
        ;
    }
    if a.b != b.b {
        assert((a.b - b.b) * (a.b - b.b) > 0) by (nonlinear_arith)
            requires
                a.b != b.b,
        ;
    }
    if a.r == b.r && a.g == b.g && a.b == b.b {
        assert(a == b);
        assert((a.r - b.r) * (a.r - b.r) == 0) by (nonlinear_arith)
            requires
                a.r == b.r,
        ;
        assert((a.g - b.g) * (a.g - b.g) == 0) by (nonlinear_arith)
            requires
                a.g == b.g,
        ;
        assert((a.b - b.b) * (a.b - b.b) == 0) by (nonlinear_arith)
            requires
                a.b == b.b,
        ;
        assert(distance(a, b) == 0);
    } else {
        assert(distance(a, b) > 0);
    }
}

/// The basic colours' escape parameters are 30 to 37 for the normal colours and 90 to 97 for
/// the bright ones, in the same order.
pub proof fn law_basic_colour_codes(i: int)
    requires
        0 <= i < 8,
    ensures
        basic_colours().len() == 16,
        basic_colours()[i].0 == decimal((30 + i) as nat),
        basic_colours()[i + 8].0 == decimal((90 + i) as nat),
{
    let n = (30 + i) as nat;
    let m = (90 + i) as nat;
    assert(decimal(n) == decimal(n / 10).push(crate::text::digit_char((n % 10) as int)));
    assert(decimal(m) == decimal(m / 10).push(crate::text::digit_char((m % 10) as int)));
    assert(decimal(n / 10) == seq![crate::text::digit_char(3)]);
    assert(decimal(m / 10) == seq![crate::text::digit_char(9)]);
    reveal_strlit("30");
    reveal_strlit("31");
    reveal_strlit("32");
    reveal_strlit("33");
    reveal_strlit("34");
    reveal_strlit("35");
    reveal_strlit("36");
    reveal_strlit("37");
    reveal_strlit("90");
    reveal_strlit("91");
    reveal_strlit("92");
    reveal_strlit("93");
    reveal_strlit("94");
    reveal_strlit("95");
    reveal_strlit("96");
    reveal_strlit("97");
    assert(basic_colours()[i].0 =~= decimal(n));
    assert(basic_colours()[i + 8].0 =~= decimal(m));
}

} // verus!
