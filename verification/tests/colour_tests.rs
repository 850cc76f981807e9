use holefetch::colour::{
    colorize_label, colorize_value, extract_palette, file_uri_path, gnome_background_key,
    kde_appletsrc_paths, kde_wallpaper, palette_of_pixels, substitute_placeholders,
    wallpaper_source, xfce_wallpaper, Rgb, WallpaperSource,
};

const RED: Rgb = Rgb { r: 255, g: 0, b: 0 };
const GREEN: Rgb = Rgb { r: 0, g: 128, b: 7 };
const BLUE: Rgb = Rgb { r: 1, g: 2, b: 250 };
const GREY: Rgb = Rgb { r: 90, g: 90, b: 90 };

#[test]
fn placeholders_become_colours() {
    let out = substitute_placeholders("a$1b$2c", &[RED, GREEN]);
    assert_eq!(
        out,
        "\x1b[38;2;255;0;0ma\x1b[38;2;255;0;0mb\x1b[38;2;0;128;7mc\x1b[0m"
    );
}

#[test]
fn dollar_escapes() {
    assert_eq!(substitute_placeholders("$$", &[]), "$\x1b[0m");
    assert_eq!(substitute_placeholders("a$x", &[]), "a$x\x1b[0m");
    assert_eq!(substitute_placeholders("end$", &[]), "end$\x1b[0m");
    assert_eq!(substitute_placeholders("$$1", &[RED]), "\x1b[38;2;255;0;0m$1\x1b[0m");
}

#[test]
fn missing_colours_vanish() {
    assert_eq!(substitute_placeholders("$9x$0y", &[RED]), "\x1b[38;2;255;0;0mxy\x1b[0m");
    assert_eq!(substitute_placeholders("$1x", &[]), "x\x1b[0m");
}

#[test]
fn plain_logo_keeps_its_text() {
    let logo = "  /\\\n /  \\\n/____\\\n";
    assert_eq!(
        substitute_placeholders(logo, &[BLUE]),
        format!("\x1b[38;2;1;2;250m{}\x1b[0m", logo)
    );
    assert_eq!(substitute_placeholders(logo, &[]), format!("{}\x1b[0m", logo));
}

fn styled(text: &str, code: &str) -> String {
    let style = format!("\x1b[{}m", code);
    format!("{}{}\x1b[0m", style, text.replace("\x1b[0m", &format!("\x1b[0m{}", style)))
}

const BASIC: [&str; 16] = [
    "30", "31", "32", "33", "34", "35", "36", "37", "90", "91", "92", "93", "94", "95", "96", "97",
];

fn one_of_the_forms(out: &str, text: &str, true_code: &str, nearest: &str) -> bool {
    assert!(BASIC.contains(&nearest));
    out == text || out == styled(text, true_code) || out == styled(text, nearest)
}

#[test]
fn label_needs_three_colours() {
    assert_eq!(colorize_label("OS:", &[RED, GREEN]), "OS:");
    let out = colorize_label("OS:", &[RED, GREEN, BLUE]);
    let padded = "OS:            ";
    assert_eq!(padded.chars().count(), 15);
    assert!(one_of_the_forms(&out, padded, "38;2;1;2;250", "34"), "{:?}", out);
}

#[test]
fn long_label_is_not_cut() {
    let label = "A label longer than fifteen";
    let out = colorize_label(label, &[RED, GREEN, BLUE]);
    assert!(one_of_the_forms(&out, label, "38;2;1;2;250", "34"), "{:?}", out);
}

#[test]
fn value_needs_four_colours() {
    assert_eq!(colorize_value("Arch", &[RED, GREEN, BLUE]), "Arch");
    let out = colorize_value("Arch", &[RED, GREEN, BLUE, GREY]);
    assert!(one_of_the_forms(&out, "Arch", "38;2;90;90;90", "90"), "{:?}", out);
}

#[test]
fn inner_reset_is_followed_by_the_style_again() {
    let text = "a\x1b[0mb";
    let out = colorize_value(text, &[RED, GREEN, BLUE, RED]);
    assert!(one_of_the_forms(&out, text, "38;2;255;0;0", "91"), "{:?}", out);
}

fn encoded_png(pixel: [u8; 3], w: u32, h: u32) -> Vec<u8> {
    let img = image::RgbImage::from_pixel(w, h, image::Rgb(pixel));
    let mut bytes = std::io::Cursor::new(Vec::new());
    img.write_to(&mut bytes, image::ImageFormat::Png).unwrap();
    bytes.into_inner()
}

#[test]
fn palette_of_a_red_image() {
    let p = extract_palette(&encoded_png([200, 10, 10], 8, 8), "png");
    assert!(!p.is_empty() && p.len() <= 4);
    assert!(p.iter().all(|c| c.r > 150 && c.g < 60 && c.b < 60), "{:?}", p);
}

#[test]
fn palette_of_two_coloured_pixels() {
    let mut pixels = Vec::new();
    for i in 0..200 {
        if i % 2 == 0 {
            pixels.extend_from_slice(&[10, 20, 200]);
        } else {
            pixels.extend_from_slice(&[220, 200, 10]);
        }
    }
    let p = palette_of_pixels(&pixels);
    assert!(p.len() >= 1 && p.len() <= 4, "{:?}", p);
    assert!(p.iter().any(|c| c.b > 150 || c.r > 150), "{:?}", p);
}

#[test]
fn extension_decides_a_format_without_signature() {
    let img = image::RgbImage::from_pixel(6, 6, image::Rgb([10, 200, 10]));
    let mut bytes = std::io::Cursor::new(Vec::new());
    img.write_to(&mut bytes, image::ImageFormat::Tga).unwrap();
    let bytes = bytes.into_inner();
    let p = extract_palette(&bytes, "tga");
    assert!(!p.is_empty() && p.iter().all(|c| c.g > 150), "{:?}", p);
    assert!(extract_palette(&bytes, "").is_empty());
    let png = encoded_png([200, 10, 10], 4, 4);
    assert!(!extract_palette(&png, "tga").is_empty());
}

#[test]
fn undecodable_image_has_no_palette() {
    assert!(extract_palette(b"not an image at all", "png").is_empty());
    assert!(extract_palette(&[], "").is_empty());
}

#[test]
fn wallpaper_sources() {
    match wallpaper_source("GNOME") {
        WallpaperSource::GnomeByColorScheme { scheme_schema, scheme_key, background_schema } => {
            assert_eq!(scheme_schema, "org.gnome.desktop.interface");
            assert_eq!(scheme_key, "color-scheme");
            assert_eq!(background_schema, "org.gnome.desktop.background");
        }
        _ => panic!("GNOME reads its colour scheme first"),
    }
    match wallpaper_source("Cinnamon") {
        WallpaperSource::GsettingsUri { schema, key } => {
            assert_eq!(schema, "org.cinnamon.desktop.background");
            assert_eq!(key, "picture-uri");
        }
        _ => panic!("Cinnamon keeps a URI"),
    }
    match wallpaper_source("Mate") {
        WallpaperSource::GsettingsPath { schema, key } => {
            assert_eq!(schema, "org.mate.background");
            assert_eq!(key, "picture-filename");
        }
        _ => panic!("Mate keeps a path"),
    }
    assert!(matches!(wallpaper_source("KDE"), WallpaperSource::KdeAppletsrc));
    assert!(matches!(wallpaper_source("XFCE"), WallpaperSource::XfconfListing));
    assert!(matches!(wallpaper_source("Unknown"), WallpaperSource::Unsupported));
}

#[test]
fn gnome_key_follows_colour_scheme() {
    assert_eq!(gnome_background_key("prefer-dark"), "picture-uri-dark");
    assert_eq!(gnome_background_key("default"), "picture-uri");
    assert_eq!(gnome_background_key("Unknown"), "picture-uri");
}

#[test]
fn file_uris() {
    assert_eq!(file_uri_path("file:///home/me/pic.png"), "/home/me/pic.png");
    assert_eq!(file_uri_path("/home/me/pic.png"), "");
    assert_eq!(file_uri_path("Unknown"), "");
}

#[test]
fn kde_configuration() {
    let c = "[Containments][1]\nwallpaperplugin=org.kde.image\n[Wallpaper]\nImage=file:///pics/w.jpg\nImage=file:///other.jpg\n";
    assert_eq!(kde_wallpaper(c), Some("/pics/w.jpg".to_string()));
    assert_eq!(kde_wallpaper("Image= /plain/path.png \n"), Some("/plain/path.png".to_string()));
    assert_eq!(kde_wallpaper("Image=a=b\n"), Some("a".to_string()));
    assert_eq!(kde_wallpaper("[General]\nfoo=bar\n"), None);
}

#[test]
fn xfce_listing() {
    let l = "/backdrop/screen0/monitor0/image-style  5\n/backdrop/screen0/monitorHDMI/workspace0/last-image   /usr/share/bg.png\n";
    assert_eq!(xfce_wallpaper(l), Some("/usr/share/bg.png".to_string()));
    assert_eq!(xfce_wallpaper("nothing here\n"), None);
}

#[test]
fn kde_paths() {
    let (a, b) = kde_appletsrc_paths("/home/me");
    assert_eq!(a, "/home/me/.config/plasma-org.kde.plasma.desktop-appletsrc");
    assert_eq!(b, "/home/me/.config/kde.org/plasma-org.kde.plasma.desktop-appletsrc");
}
