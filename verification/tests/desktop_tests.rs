use holefetch::desktop::{DesktopEnvironment, DesktopSettings, SettingsTool};

fn settings() -> DesktopSettings {
    DesktopSettings {
        theme: "Adwaita".to_string(),
        icon_theme: "Papirus".to_string(),
        cursor_theme: "Bibata".to_string(),
        cursor_size: "24".to_string(),
        font: "Cantarell 11".to_string(),
        wm_theme: "Default".to_string(),
    }
}

#[test]
fn gnome_asks_six_gsettings_keys() {
    let q = DesktopEnvironment::setting_queries("GNOME");
    assert_eq!(q.len(), 6);
    assert!(q.iter().all(|q| q.tool == SettingsTool::Gsettings));
    assert_eq!(q[0].args, vec!["org.gnome.desktop.interface", "gtk-theme"]);
    assert_eq!(q[5].args, vec!["org.gnome.desktop.wm.preferences", "theme"]);
}

#[test]
fn kde_asks_kreadconfig() {
    let q = DesktopEnvironment::setting_queries("KDE");
    assert_eq!(q.len(), 6);
    assert!(q[2].tool == SettingsTool::KdeConfig);
    assert_eq!(q[2].args, vec!["kcminputrc", "Mouse", "cursorTheme"]);
}

#[test]
fn xfce_asks_xfconf() {
    let q = DesktopEnvironment::setting_queries("XFCE");
    assert!(q[5].tool == SettingsTool::Xfconf);
    assert_eq!(q[5].args, vec!["xfwm4", "/general/theme"]);
}

#[test]
fn unknown_desktop_asks_nothing() {
    assert_eq!(DesktopEnvironment::setting_queries("Hyprland").len(), 0);
    assert_eq!(DesktopEnvironment::setting_queries("gnome").len(), 0);
}

#[test]
fn cinnamon_gets_its_names() {
    let d = DesktopEnvironment::new("X-Cinnamon", "Wayland".to_string(), settings());
    assert_eq!(d.name, "Cinnamon");
    assert_eq!(d.wm, "Muffin");
    assert_eq!(d.display_server, "Wayland");
    assert_eq!(d.theme, "Adwaita");
    assert_eq!(d.cursor_size, "24");
}

#[test]
fn mate_and_xfce_names() {
    let m = DesktopEnvironment::new("MATE", "X11".to_string(), settings());
    assert_eq!((m.name.as_str(), m.wm.as_str()), ("Mate", "Marco"));
    let x = DesktopEnvironment::new("XFCE", "X11".to_string(), settings());
    assert_eq!((x.name.as_str(), x.wm.as_str()), ("XFCE", "Xfmw4"));
}

#[test]
fn unknown_desktop_is_unknown() {
    let d = DesktopEnvironment::new("sway", "Wayland".to_string(), settings());
    assert_eq!(d.name, "Unknown");
    assert_eq!(d.wm, "Unknown");
    assert_eq!(d.display_server, "Wayland");
    assert_eq!(d.theme, "Unknown");
    assert_eq!(d.font, "Unknown");
}

#[test]
fn desktop_lines() {
    let d = DesktopEnvironment::new("GNOME", "Wayland".to_string(), settings());
    assert_eq!(
        d.to_lines(),
        vec![
            "DE: GNOME (Wayland)",
            "WM: Mutter (Wayland)",
            "WM Theme: Default",
            "Theme: Adwaita",
            "Icons: Papirus",
            "Cursor Theme: Bibata (24px)",
            "Font: Cantarell 11",
        ]
    );
}

#[test]
fn gsettings_values() {
    assert_eq!(DesktopEnvironment::get_gsettings(Some("'Adwaita-dark'\n".to_string())), "Adwaita-dark");
    assert_eq!(DesktopEnvironment::get_gsettings(Some("\"'x'\"".to_string())), "x");
    assert_eq!(DesktopEnvironment::get_gsettings(Some("24\n".to_string())), "24");
    assert_eq!(DesktopEnvironment::get_gsettings(Some("  \n".to_string())), "None");
    assert_eq!(DesktopEnvironment::get_gsettings(Some("''\n".to_string())), "None");
    assert_eq!(DesktopEnvironment::get_gsettings(None), "Unknown");
}

#[test]
fn xfconf_values() {
    assert_eq!(DesktopEnvironment::xfconf_query_get(Some(" Greybird \n".to_string())), "Greybird");
    assert_eq!(DesktopEnvironment::xfconf_query_get(Some("'q'".to_string())), "'q'");
    assert_eq!(DesktopEnvironment::xfconf_query_get(Some("\n".to_string())), "None");
    assert_eq!(DesktopEnvironment::xfconf_query_get(None), "Unknown");
}

#[test]
fn kde_values() {
    let outs = vec![Some("  \n".to_string()), Some("Breeze\n".to_string())];
    assert_eq!(DesktopEnvironment::kde_config_get(&outs), "Breeze");
    let outs = vec![Some("BreezeDark\n".to_string()), Some("Breeze\n".to_string())];
    assert_eq!(DesktopEnvironment::kde_config_get(&outs), "BreezeDark");
    assert_eq!(DesktopEnvironment::kde_config_get(&vec![None, None]), "None");
    assert_eq!(DesktopEnvironment::kde_config_get(&vec![]), "None");
}

#[test]
fn desktop_name_fallbacks() {
    assert_eq!(DesktopEnvironment::read_desktop_environment(Some("KDE".to_string()), Some("plasma".to_string())), "KDE");
    assert_eq!(DesktopEnvironment::read_desktop_environment(None, Some("gnome".to_string())), "gnome");
    assert_eq!(DesktopEnvironment::read_desktop_environment(None, None), "Unknown");
}

#[test]
fn display_server() {
    assert_eq!(DesktopEnvironment::read_display_server(Some("wayland-0".to_string())), "Wayland");
    assert_eq!(DesktopEnvironment::read_display_server(None), "X11");
}

#[test]
fn kde_outputs_that_settle() {
    assert!(DesktopEnvironment::kde_output_settles(&Some("Breeze\n".to_string())));
    assert!(!DesktopEnvironment::kde_output_settles(&Some(" \n".to_string())));
    assert!(!DesktopEnvironment::kde_output_settles(&None));
}
