use vstd::prelude::*;
use crate::text::{law_trim_set_exact, chars_of, string_of, str_eq, trim, trim_set, trim_vec, trim_set_vec, CharSet};

verus! {

/// The desktop environment's name, its display server, its window manager and the
/// appearance settings that the fetch shows.
pub struct DesktopEnvironment {
    pub name: String,
    pub display_server: String,
    pub wm: String,
    pub theme: String,
    pub icon_theme: String,
    pub cursor_theme: String,
    pub cursor_size: String,
    pub font: String,
    pub wm_theme: String,
}

/// The desktop environments whose settings the fetch knows how to read.
#[derive(PartialEq, Eq, Structural, Clone, Copy)]
pub enum DesktopKind {
    Gnome,
    Kde,
    Xfce,
    Cinnamon,
    Mate,
    Other,
}

/// The programs through which a desktop's settings are read.
#[derive(PartialEq, Eq, Structural, Clone, Copy)]
pub enum SettingsTool {
    /// `gsettings get <schema> <key>`
    Gsettings,
    /// `kreadconfig6` (then `kreadconfig5`) `--file <file> --group <group> --key <key>`
    KdeConfig,
    /// `xfconf-query -c <channel> -p <property>`
    Xfconf,
}

/// One setting to look up: the tool and its arguments (see `SettingsTool`).
pub struct SettingQuery {
    pub tool: SettingsTool,
    pub args: Vec<String>,
}

/// The looked-up values of the six appearance settings, in the order of `setting_queries`.
pub struct DesktopSettings {
    pub theme: String,
    pub icon_theme: String,
    pub cursor_theme: String,
    pub cursor_size: String,
    pub font: String,
    pub wm_theme: String,
}

/// The kind of desktop that `$XDG_CURRENT_DESKTOP` (or `$DESKTOP_SESSION`) names.
pub open spec fn desktop_kind(d: Seq<char>) -> DesktopKind {
    if d == "GNOME"@ {
        DesktopKind::Gnome
    } else if d == "KDE"@ {
        DesktopKind::Kde
    } else if d == "XFCE"@ {
        DesktopKind::Xfce
    } else if d == "X-Cinnamon"@ {
        DesktopKind::Cinnamon
    } else if d == "MATE"@ {
        DesktopKind::Mate
    } else {
        DesktopKind::Other
    }
}

pub open spec fn kind_name(k: DesktopKind) -> Seq<char> {
    match k {
        DesktopKind::Gnome => "GNOME"@,
        DesktopKind::Kde => "KDE"@,
        DesktopKind::Xfce => "XFCE"@,
        DesktopKind::Cinnamon => "Cinnamon"@,
        DesktopKind::Mate => "Mate"@,
        DesktopKind::Other => "Unknown"@,
    }
}

pub open spec fn kind_wm(k: DesktopKind) -> Seq<char> {
    match k {
        DesktopKind::Gnome => "Mutter"@,
        DesktopKind::Kde => "KWin"@,
        DesktopKind::Xfce => "Xfmw4"@,
        DesktopKind::Cinnamon => "Muffin"@,
        DesktopKind::Mate => "Marco"@,
        DesktopKind::Other => "Unknown"@,
    }
}

pub open spec fn gs(schema: Seq<char>, key: Seq<char>) -> (SettingsTool, Seq<Seq<char>>) {
    (SettingsTool::Gsettings, seq![schema, key])
}

pub open spec fn kde(file: Seq<char>, group: Seq<char>, key: Seq<char>) -> (
    SettingsTool,
    Seq<Seq<char>>,
) {
    (SettingsTool::KdeConfig, seq![file, group, key])
}

pub open spec fn xf(channel: Seq<char>, property: Seq<char>) -> (SettingsTool, Seq<Seq<char>>) {
    (SettingsTool::Xfconf, seq![channel, property])
}

/// The lookups of theme, icon theme, cursor theme, cursor size, font and window manager
/// theme, in that order, for each kind of desktop; none for an unknown desktop.
pub open spec fn setting_table(k: DesktopKind) -> Seq<(SettingsTool, Seq<Seq<char>>)> {
    match k {
        DesktopKind::Gnome => seq![
            gs("org.gnome.desktop.interface"@, "gtk-theme"@),
            gs("org.gnome.desktop.interface"@, "icon-theme"@),
            gs("org.gnome.desktop.interface"@, "cursor-theme"@),
            gs("org.gnome.desktop.interface"@, "cursor-size"@),
            gs("org.gnome.desktop.interface"@, "font-name"@),
            gs("org.gnome.desktop.wm.preferences"@, "theme"@),
        ],
        DesktopKind::Kde => seq![
            kde("kdeglobals"@, "General"@, "ColorScheme"@),
            kde("kdeglobals"@, "Icons"@, "Theme"@),
            kde("kcminputrc"@, "Mouse"@, "cursorTheme"@),
            kde("kcminputrc"@, "Mouse"@, "cursorSize"@),
            kde("kdeglobals"@, "General"@, "font"@),
            kde("kwinrc"@, "org.kde.kdecoration2"@, "theme"@),
        ],
        DesktopKind::Xfce => seq![
            xf("xsettings"@, "/Net/ThemeName"@),
            xf("xsettings"@, "/Net/IconThemeName"@),
            xf("xsettings"@, "/Gtk/CursorThemeName"@),
            xf("xsettings"@, "/Gtk/CursorThemeSize"@),
            xf("xsettings"@, "/Gtk/FontName"@),
            xf("xfwm4"@, "/general/theme"@),
        ],
        DesktopKind::Cinnamon => seq![
            gs("org.cinnamon.desktop.interface"@, "gtk-theme"@),
            gs("org.cinnamon.desktop.interface"@, "icon-theme"@),
            gs("org.cinnamon.desktop.interface"@, "cursor-theme"@),
            gs("org.cinnamon.desktop.interface"@, "cursor-size"@),
            gs("org.cinnamon.desktop.interface"@, "font-name"@),
            gs("org.cinnamon.desktop.wm.preferences"@, "theme"@),
        ],
        DesktopKind::Mate => seq![
            gs("org.mate.interface"@, "gtk-theme"@),
            gs("org.mate.interface"@, "icon-theme"@),
            gs("org.mate.peripherals-mouse"@, "cursor-theme"@),
            gs("org.mate.peripherals-mouse"@, "cursor-size"@),
            gs("org.mate.interface"@, "font-name"@),
            gs("org.mate.marco.general"@, "theme"@),
        ],
        DesktopKind::Other => seq![],
    }
}

pub open spec fn string_views(v: Seq<String>) -> Seq<Seq<char>> {
    v.map_values(|s: String| s@)
}

pub open spec fn option_view(o: Option<String>) -> Option<Seq<char>> {
    match o {
        Some(s) => Some(s@),
        None => None,
    }
}

impl SettingQuery {
    pub open spec fn is(self, q: (SettingsTool, Seq<Seq<char>>)) -> bool {
        self.tool == q.0 && string_views(self.args@) == q.1
    }
}

/// What `gsettings get` printed, made fit to show: quotes and surrounding whitespace removed.
pub open spec fn gsettings_value(out: Option<Seq<char>>) -> Seq<char> {
    match out {
        None => "Unknown"@,
        Some(o) => {
            let v = trim_set(trim(o), CharSet::Quotes);
            if v.len() == 0 {
                "None"@
            } else {
                v
            }
        },
    }
}

/// What `xfconf-query` printed, without surrounding whitespace.
pub open spec fn xfconf_value(out: Option<Seq<char>>) -> Seq<char> {
    match out {
        None => "Unknown"@,
        Some(o) => if trim(o).len() == 0 {
            "None"@
        } else {
            trim(o)
        },
    }
}

/// The first of the `kreadconfig` outputs that is not blank, trimmed.
pub open spec fn kde_value(outs: Seq<Option<Seq<char>>>) -> Seq<char>
    decreases outs.len(),
{
    if outs.len() == 0 {
        "None"@
    } else {
        match outs[0] {
            Some(o) if trim(o).len() > 0 => trim(o),
            _ => kde_value(outs.drop_first()),
        }
    }
}

pub fn desktop_kind_of(desktop: &str) -> (k: DesktopKind)
    ensures
        k == desktop_kind(desktop@),
{
    if str_eq(desktop, "GNOME") {
        DesktopKind::Gnome
    } else if str_eq(desktop, "KDE") {
        DesktopKind::Kde
    } else if str_eq(desktop, "XFCE") {
        DesktopKind::Xfce
    } else if str_eq(desktop, "X-Cinnamon") {
        DesktopKind::Cinnamon
    } else if str_eq(desktop, "MATE") {
        DesktopKind::Mate
    } else {
        DesktopKind::Other
    }
}

fn query(tool: SettingsTool, a: &str, b: &str) -> (q: SettingQuery)
    ensures
        q.tool == tool,
        string_views(q.args@) == seq![a@, b@],
{
    let mut args: Vec<String> = Vec::new();
    args.push(a.to_owned());
    args.push(b.to_owned());
    assert(string_views(args@) =~= seq![a@, b@]);
    SettingQuery { tool, args }
}

fn query3(tool: SettingsTool, a: &str, b: &str, c: &str) -> (q: SettingQuery)
    ensures
        q.tool == tool,
        string_views(q.args@) == seq![a@, b@, c@],
{
    let mut args: Vec<String> = Vec::new();
    args.push(a.to_owned());
    args.push(b.to_owned());
    args.push(c.to_owned());
    assert(string_views(args@) =~= seq![a@, b@, c@]);
    SettingQuery { tool, args }
}

fn six(
    q0: SettingQuery,
    q1: SettingQuery,
    q2: SettingQuery,
    q3: SettingQuery,
    q4: SettingQuery,
    q5: SettingQuery,
) -> (r: Vec<SettingQuery>)
    ensures
        r@ == seq![q0, q1, q2, q3, q4, q5],
{
    let mut r: Vec<SettingQuery> = Vec::new();
    r.push(q0);
    r.push(q1);
    r.push(q2);
    r.push(q3);
    r.push(q4);
    r.push(q5);
    assert(r@ =~= seq![q0, q1, q2, q3, q4, q5]);
    r
}

impl DesktopEnvironment {
    /// The settings lookups that `new` needs for `desktop`, in the order of the fields of
    /// `DesktopSettings`; none for a desktop that is not known.
    pub fn setting_queries(desktop: &str) -> (r: Vec<SettingQuery>)
        ensures
            r.len() == setting_table(desktop_kind(desktop@)).len(),
            forall|i: int|
                0 <= i < r.len() ==> #[trigger] r@[i].is(setting_table(desktop_kind(desktop@))[i]),
    {
        let g = SettingsTool::Gsettings;
        let x = SettingsTool::Xfconf;
        let k = SettingsTool::KdeConfig;
        let r = match desktop_kind_of(desktop) {
            DesktopKind::Gnome => six(
                query(g, "org.gnome.desktop.interface", "gtk-theme"),
                query(g, "org.gnome.desktop.interface", "icon-theme"),
                query(g, "org.gnome.desktop.interface", "cursor-theme"),
                query(g, "org.gnome.desktop.interface", "cursor-size"),
                query(g, "org.gnome.desktop.interface", "font-name"),
                query(g, "org.gnome.desktop.wm.preferences", "theme"),
            ),
            DesktopKind::Kde => six(
                query3(k, "kdeglobals", "General", "ColorScheme"),
                query3(k, "kdeglobals", "Icons", "Theme"),
                query3(k, "kcminputrc", "Mouse", "cursorTheme"),
                query3(k, "kcminputrc", "Mouse", "cursorSize"),
                query3(k, "kdeglobals", "General", "font"),
                query3(k, "kwinrc", "org.kde.kdecoration2", "theme"),
            ),
            DesktopKind::Xfce => six(
                query(x, "xsettings", "/Net/ThemeName"),
                query(x, "xsettings", "/Net/IconThemeName"),
                query(x, "xsettings", "/Gtk/CursorThemeName"),
                query(x, "xsettings", "/Gtk/CursorThemeSize"),
                query(x, "xsettings", "/Gtk/FontName"),
                query(x, "xfwm4", "/general/theme"),
            ),
            DesktopKind::Cinnamon => six(
                query(g, "org.cinnamon.desktop.interface", "gtk-theme"),
                query(g, "org.cinnamon.desktop.interface", "icon-theme"),
                query(g, "org.cinnamon.desktop.interface", "cursor-theme"),
                query(g, "org.cinnamon.desktop.interface", "cursor-size"),
                query(g, "org.cinnamon.desktop.interface", "font-name"),
                query(g, "org.cinnamon.desktop.wm.preferences", "theme"),
            ),
            DesktopKind::Mate => six(
                query(g, "org.mate.interface", "gtk-theme"),
                query(g, "org.mate.interface", "icon-theme"),
                query(g, "org.mate.peripherals-mouse", "cursor-theme"),
                query(g, "org.mate.peripherals-mouse", "cursor-size"),
                query(g, "org.mate.interface", "font-name"),
                query(g, "org.mate.marco.general", "theme"),
            ),
            DesktopKind::Other => Vec::new(),
        };
        r
    }
}


/// The lines that the fetch shows for a desktop environment.
pub open spec fn desktop_lines(d: DesktopEnvironment) -> Seq<Seq<char>> {
    seq![
        "DE: "@ + d.name@ + " ("@ + d.display_server@ + ")"@,
        "WM: "@ + d.wm@ + " ("@ + d.display_server@ + ")"@,
        "WM Theme: "@ + d.wm_theme@,
        "Theme: "@ + d.theme@,
        "Icons: "@ + d.icon_theme@,
        "Cursor Theme: "@ + d.cursor_theme@ + " ("@ + d.cursor_size@ + "px)"@,
        "Font: "@ + d.font@,
    ]
}

fn line2(a: &str, b: &str) -> (r: String)
    ensures
        r@ == a@ + b@,
{
    let mut r = String::new();
    r.append(a);
    r.append(b);
    r
}

fn line5(a: &str, b: &str, c: &str, d: &str, e: &str) -> (r: String)
    ensures
        r@ == a@ + b@ + c@ + d@ + e@,
{
    let mut r = String::new();
    r.append(a);
    r.append(b);
    r.append(c);
    r.append(d);
    r.append(e);
    r
}

fn unknown() -> (r: String)
    ensures
        r@ == "Unknown"@,
{
    "Unknown".to_owned()
}

impl DesktopEnvironment {
    /// The desktop environment that `desktop` (the value of `$XDG_CURRENT_DESKTOP`, see
    /// `read_desktop_environment`) names, on `display_server`, with the looked-up `settings`
    /// (see `setting_queries`). An unknown desktop shows "Unknown" but for its display server,
    /// and its settings are not used.
    pub fn new(desktop: &str, display_server: String, settings: DesktopSettings) -> (r:
        DesktopEnvironment)
        ensures
            r.name@ == kind_name(desktop_kind(desktop@)),
            r.wm@ == kind_wm(desktop_kind(desktop@)),
            r.display_server@ == display_server@,
            desktop_kind(desktop@) != DesktopKind::Other ==> {
                &&& r.theme@ == settings.theme@
                &&& r.icon_theme@ == settings.icon_theme@
                &&& r.cursor_theme@ == settings.cursor_theme@
                &&& r.cursor_size@ == settings.cursor_size@
                &&& r.font@ == settings.font@
                &&& r.wm_theme@ == settings.wm_theme@
            },
            desktop_kind(desktop@) == DesktopKind::Other ==> {
                &&& r.theme@ == "Unknown"@
                &&& r.icon_theme@ == "Unknown"@
                &&& r.cursor_theme@ == "Unknown"@
                &&& r.cursor_size@ == "Unknown"@
                &&& r.font@ == "Unknown"@
                &&& r.wm_theme@ == "Unknown"@
            },
    {
        let (name, wm) = match desktop_kind_of(desktop) {
            DesktopKind::Gnome => ("GNOME".to_owned(), "Mutter".to_owned()),
            DesktopKind::Kde => ("KDE".to_owned(), "KWin".to_owned()),
            DesktopKind::Xfce => ("XFCE".to_owned(), "Xfmw4".to_owned()),
            DesktopKind::Cinnamon => ("Cinnamon".to_owned(), "Muffin".to_owned()),
            DesktopKind::Mate => ("Mate".to_owned(), "Marco".to_owned()),
            DesktopKind::Other => {
                return DesktopEnvironment {
                    name: unknown(),
                    display_server,
                    wm: unknown(),
                    theme: unknown(),
                    icon_theme: unknown(),
                    cursor_theme: unknown(),
                    cursor_size: unknown(),
                    font: unknown(),
                    wm_theme: unknown(),
                };
            },
        };
        DesktopEnvironment {
            name,
            display_server,
            wm,
            theme: settings.theme,
            icon_theme: settings.icon_theme,
            cursor_theme: settings.cursor_theme,
            cursor_size: settings.cursor_size,
            font: settings.font,
            wm_theme: settings.wm_theme,
        }
    }

    /// The lines that the fetch shows for this desktop environment.
    pub fn to_lines(&self) -> (r: Vec<String>)
        ensures
            string_views(r@) == desktop_lines(*self),
    {
        let mut r: Vec<String> = Vec::new();
        r.push(line5("DE: ", self.name.as_str(), " (", self.display_server.as_str(), ")"));
        r.push(line5("WM: ", self.wm.as_str(), " (", self.display_server.as_str(), ")"));
        r.push(line2("WM Theme: ", self.wm_theme.as_str()));
        r.push(line2("Theme: ", self.theme.as_str()));
        r.push(line2("Icons: ", self.icon_theme.as_str()));
        r.push(
            line5(
                "Cursor Theme: ",
                self.cursor_theme.as_str(),
                " (",
                self.cursor_size.as_str(),
                "px)",
            ),
        );
        r.push(line2("Font: ", self.font.as_str()));
        assert(string_views(r@) =~= desktop_lines(*self));
        r
    }

    /// `$XDG_CURRENT_DESKTOP`, else `$DESKTOP_SESSION`, else "Unknown".
    pub fn read_desktop_environment(
        xdg_current_desktop: Option<String>,
        desktop_session: Option<String>,
    ) -> (r: String)
        ensures
            r@ == match (xdg_current_desktop, desktop_session) {
                (Some(x), _) => x@,
                (None, Some(s)) => s@,
                (None, None) => "Unknown"@,
            },
    {
        match xdg_current_desktop {
            Some(x) => x,
            None => match desktop_session {
                Some(s) => s,
                None => unknown(),
            },
        }
    }

    /// "Wayland" when `$WAYLAND_DISPLAY` is set, else "X11" (the only display servers of the
    /// traditional desktops this fetch is for).
    pub fn read_display_server(wayland_display: Option<String>) -> (r: String)
        ensures
            r@ == if wayland_display is Some {
                "Wayland"@
            } else {
                "X11"@
            },
    {
        match wayland_display {
            Some(_) => "Wayland".to_owned(),
            None => "X11".to_owned(),
        }
    }

    /// The value that `gsettings get` printed (`None` when it could not be run), without
    /// surrounding whitespace and quotes; "None" when nothing is left.
    pub fn get_gsettings(output: Option<String>) -> (r: String)
        ensures
            r@ == gsettings_value(option_view(output)),
    {
        match output {
            None => unknown(),
            Some(o) => {
                let t = trim_set_vec(&trim_vec(&chars_of(o.as_str())), CharSet::Quotes);
                if t.len() == 0 {
                    "None".to_owned()
                } else {
                    string_of(&t)
                }
            },
        }
    }

    /// The value that `xfconf-query` printed (`None` when it could not be run), without
    /// surrounding whitespace; "None" when nothing is left.
    pub fn xfconf_query_get(output: Option<String>) -> (r: String)
        ensures
            r@ == xfconf_value(option_view(output)),
    {
        match output {
            None => unknown(),
            Some(o) => {
                let t = trim_vec(&chars_of(o.as_str()));
                if t.len() == 0 {
                    "None".to_owned()
                } else {
                    string_of(&t)
                }
            },
        }
    }

    /// Whether a `kreadconfig` output settles the value (it is not blank), so that the next
    /// tool need not be run.
    pub fn kde_output_settles(output: &Option<String>) -> (r: bool)
        ensures
            r == (option_view(*output) matches Some(o) && trim(o).len() > 0),
    {
        match output {
            Some(o) => trim_vec(&chars_of(o.as_str())).len() > 0,
            None => false,
        }
    }

    /// The first of the outputs of `kreadconfig6` and `kreadconfig5` (`None` for one that
    /// could not be run) that is not blank, trimmed; "None" when there is none.
    pub fn kde_config_get(outputs: &Vec<Option<String>>) -> (r: String)
        ensures
            r@ == kde_value(outputs@.map_values(|o: Option<String>| option_view(o))),
    {
        let ghost outs = outputs@.map_values(|o: Option<String>| option_view(o));
        let mut i: usize = 0;
        assert(outs.skip(0) == outs);
        while i < outputs.len()
            invariant
                i <= outputs.len(),
                outs == outputs@.map_values(|o: Option<String>| option_view(o)),
                kde_value(outs) == kde_value(outs.skip(i as int)),
            decreases outputs.len() - i,
        {
            assert(outs.skip(i as int).drop_first() == outs.skip(i + 1));
            assert(outs.skip(i as int)[0] == option_view(outputs@[i as int]));
            match &outputs[i] {
                Some(o) => {
                    let t = trim_vec(&chars_of(o.as_str()));
                    if t.len() > 0 {
                        return string_of(&t);
                    }
                },
                None => {},
            }
            i += 1;
        }
        "None".to_owned()
    }
}

/// A looked-up setting is never shown empty: what the tools print is shown trimmed, and a
/// blank answer shows as "None" (a tool that cannot be run as "Unknown").
pub proof fn law_setting_values_not_empty(
    out: Option<Seq<char>>,
    outs: Seq<Option<Seq<char>>>,
)
    ensures
        gsettings_value(out).len() > 0,
        xfconf_value(out).len() > 0,
        kde_value(outs).len() > 0,
    decreases outs.len(),
{
    reveal_strlit("None");
    reveal_strlit("Unknown");
    if outs.len() > 0 {
        law_setting_values_not_empty(out, outs.drop_first());
    }
}

/// Every known desktop is asked for all six appearance settings, an unknown one for none.
pub proof fn law_known_desktops_ask_six_settings(d: Seq<char>)
    ensures
        desktop_kind(d) != DesktopKind::Other <==> setting_table(desktop_kind(d)).len() == 6,
        desktop_kind(d) == DesktopKind::Other <==> setting_table(desktop_kind(d)).len() == 0,
{
}

/// The five desktop names that `desktop_kind` knows are pairwise different.
proof fn lemma_known_desktop_names_differ()
    ensures
        "GNOME"@ != "KDE"@ && "GNOME"@ != "XFCE"@ && "GNOME"@ != "X-Cinnamon"@ && "GNOME"@
            != "MATE"@,
        "KDE"@ != "XFCE"@ && "KDE"@ != "X-Cinnamon"@ && "KDE"@ != "MATE"@,
        "XFCE"@ != "X-Cinnamon"@ && "XFCE"@ != "MATE"@,
        "X-Cinnamon"@ != "MATE"@,
{
    reveal_strlit("GNOME");
    reveal_strlit("KDE");
    reveal_strlit("XFCE");
    reveal_strlit("X-Cinnamon");
    reveal_strlit("MATE");
    assert("GNOME"@[0] != "KDE"@[0]);
    assert("GNOME"@[0] != "XFCE"@[0]);
    assert("GNOME"@[0] != "X-Cinnamon"@[0]);
    assert("GNOME"@[0] != "MATE"@[0]);
    assert("KDE"@[0] != "XFCE"@[0]);
    assert("KDE"@[0] != "X-Cinnamon"@[0]);
    assert("KDE"@[0] != "MATE"@[0]);
    assert("XFCE"@[1] != "X-Cinnamon"@[1]);
    assert("XFCE"@[0] != "MATE"@[0]);
    assert("X-Cinnamon"@[0] != "MATE"@[0]);
}

/// Each known desktop is shown under its own name with its own window manager: GNOME with
/// Mutter, KDE with KWin, XFCE with Xfmw4, X-Cinnamon as Cinnamon with Muffin, MATE as Mate
/// with Marco; any other desktop shows "Unknown" for both.
pub proof fn law_desktop_name_and_window_manager(d: Seq<char>)
    ensures
        d == "GNOME"@ ==> kind_name(desktop_kind(d)) == "GNOME"@ && kind_wm(desktop_kind(d))
            == "Mutter"@,
        d == "KDE"@ ==> kind_name(desktop_kind(d)) == "KDE"@ && kind_wm(desktop_kind(d))
            == "KWin"@,
        d == "XFCE"@ ==> kind_name(desktop_kind(d)) == "XFCE"@ && kind_wm(desktop_kind(d))
            == "Xfmw4"@,
        d == "X-Cinnamon"@ ==> kind_name(desktop_kind(d)) == "Cinnamon"@ && kind_wm(
            desktop_kind(d),
        ) == "Muffin"@,
        d == "MATE"@ ==> kind_name(desktop_kind(d)) == "Mate"@ && kind_wm(desktop_kind(d))
            == "Marco"@,
        d != "GNOME"@ && d != "KDE"@ && d != "XFCE"@ && d != "X-Cinnamon"@ && d != "MATE"@
            ==> kind_name(desktop_kind(d)) == "Unknown"@ && kind_wm(desktop_kind(d))
            == "Unknown"@,
{
    lemma_known_desktop_names_differ();
}

/// GNOME, Cinnamon and MATE settings are read with gsettings, KDE's with kreadconfig and
/// XFCE's with xfconf-query, every one of the six.
pub proof fn law_settings_tool_of_each_desktop(d: Seq<char>, i: int)
    requires
        0 <= i < 6,
    ensures
        d == "GNOME"@ || d == "X-Cinnamon"@ || d == "MATE"@ ==> setting_table(desktop_kind(d))[i].0
            == SettingsTool::Gsettings && setting_table(desktop_kind(d))[i].1.len() == 2,
        d == "KDE"@ ==> setting_table(desktop_kind(d))[i].0 == SettingsTool::KdeConfig
            && setting_table(desktop_kind(d))[i].1.len() == 3,
        d == "XFCE"@ ==> setting_table(desktop_kind(d))[i].0 == SettingsTool::Xfconf
            && setting_table(desktop_kind(d))[i].1.len() == 2,
{
    lemma_known_desktop_names_differ();
}

/// What gsettings prints for a string, `'value'` and a line feed, shows as the value without
/// its quotes; an empty string shows as "None", and a tool that cannot be run as "Unknown".
pub proof fn law_gsettings_value(v: Seq<char>)
    requires
        v.len() > 0,
        !crate::text::is_ws(v[0]) && v[0] != '\'' && v[0] != '"',
        !crate::text::is_ws(v.last()) && v.last() != '\'' && v.last() != '"',
    ensures
        gsettings_value(Some(seq!['\''] + v + seq!['\'', '\n'])) == v,
        gsettings_value(Some(seq!['\'', '\'', '\n'])) == "None"@,
        gsettings_value(None) == "Unknown"@,
{
    let quoted = seq!['\''] + v + seq!['\''];
    assert(seq!['\''] + v + seq!['\'', '\n'] =~= Seq::<char>::empty() + quoted + seq!['\n']);
    assert(crate::text::is_ws('\n'));
    assert(quoted[0] == '\'');
    assert(quoted.last() == '\'');
    law_trim_set_exact(Seq::<char>::empty(), quoted, seq!['\n'], CharSet::Whitespace);
    assert(quoted =~= seq!['\''] + v + seq!['\'']);
    law_trim_set_exact(seq!['\''], v, seq!['\''], CharSet::Quotes);
    let empty = seq!['\'', '\''];
    assert(seq!['\'', '\'', '\n'] =~= Seq::<char>::empty() + empty + seq!['\n']);
    assert(empty[0] == '\'' && empty.last() == '\'');
    law_trim_set_exact(Seq::<char>::empty(), empty, seq!['\n'], CharSet::Whitespace);
    assert(empty =~= empty + Seq::<char>::empty() + Seq::<char>::empty());
    law_trim_set_exact(empty, Seq::<char>::empty(), Seq::<char>::empty(), CharSet::Quotes);
}

/// What xfconf-query prints shows trimmed; a blank answer shows as "None", and a tool that
/// cannot be run as "Unknown".
pub proof fn law_xfconf_value(v: Seq<char>)
    requires
        v.len() > 0,
        !crate::text::is_ws(v[0]),
        !crate::text::is_ws(v.last()),
    ensures
        xfconf_value(Some(v + seq!['\n'])) == v,
        xfconf_value(Some(seq!['\n'])) == "None"@,
        xfconf_value(None) == "Unknown"@,
{
    assert(crate::text::is_ws('\n'));
    assert(v + seq!['\n'] =~= Seq::<char>::empty() + v + seq!['\n']);
    law_trim_set_exact(Seq::<char>::empty(), v, seq!['\n'], CharSet::Whitespace);
    assert(seq!['\n'] =~= seq!['\n'] + Seq::<char>::empty() + Seq::<char>::empty());
    law_trim_set_exact(seq!['\n'], Seq::<char>::empty(), Seq::<char>::empty(), CharSet::Whitespace);
}

/// Of the outputs of `kreadconfig6` and `kreadconfig5`, the first that is not blank is shown,
/// trimmed: a blank or missing first one gives way to the second; with none, "None".
pub proof fn law_kde_value(first: Option<Seq<char>>, v: Seq<char>)
    requires
        v.len() > 0,
        !crate::text::is_ws(v[0]),
        !crate::text::is_ws(v.last()),
    ensures
        kde_value(seq![Some(v + seq!['\n']), first]) == v,
        kde_value(seq![None, Some(v + seq!['\n'])]) == v,
        kde_value(seq![Some(seq!['\n']), Some(v + seq!['\n'])]) == v,
        kde_value(seq![None, None]) == "None"@,
        kde_value(Seq::<Option<Seq<char>>>::empty()) == "None"@,
{
    assert(crate::text::is_ws('\n'));
    assert(v + seq!['\n'] =~= Seq::<char>::empty() + v + seq!['\n']);
    law_trim_set_exact(Seq::<char>::empty(), v, seq!['\n'], CharSet::Whitespace);
    assert(seq!['\n'] =~= seq!['\n'] + Seq::<char>::empty() + Seq::<char>::empty());
    law_trim_set_exact(seq!['\n'], Seq::<char>::empty(), Seq::<char>::empty(), CharSet::Whitespace);
    let w = Some(v + seq!['\n']);
    assert(seq![w, first][0] == w);
    assert(seq![None, w].drop_first() =~= seq![w]);
    assert(seq![Some(seq!['\n']), w].drop_first() =~= seq![w]);
    assert(seq![w][0] == w);
    assert(kde_value(seq![w]) == v);
    assert(kde_value(seq![None, w]) == kde_value(seq![w]));
    assert(seq![Some(seq!['\n']), w][0] == Some(seq!['\n']));
    assert(kde_value(seq![Some(seq!['\n']), w]) == kde_value(seq![w]));
    let nn = seq![None::<Seq<char>>, None];
    assert(nn.drop_first() =~= seq![None::<Seq<char>>]);
    assert(nn.drop_first().drop_first() =~= Seq::<Option<Seq<char>>>::empty());
    assert(nn[0] is None && nn.drop_first()[0] is None);
    assert(kde_value(nn.drop_first().drop_first()) == "None"@);
    assert(kde_value(nn.drop_first()) == kde_value(nn.drop_first().drop_first()));
    assert(kde_value(nn) == kde_value(nn.drop_first()));
}

/// The settings read for each desktop, in the order theme, icon theme, cursor theme, cursor
/// size, font, window manager theme.
pub proof fn law_settings_of_each_desktop(d: Seq<char>)
    ensures
        d == "GNOME"@ ==> setting_table(desktop_kind(d)) == seq![
            gs("org.gnome.desktop.interface"@, "gtk-theme"@),
            gs("org.gnome.desktop.interface"@, "icon-theme"@),
            gs("org.gnome.desktop.interface"@, "cursor-theme"@),
            gs("org.gnome.desktop.interface"@, "cursor-size"@),
            gs("org.gnome.desktop.interface"@, "font-name"@),
            gs("org.gnome.desktop.wm.preferences"@, "theme"@),
        ],
        d == "KDE"@ ==> setting_table(desktop_kind(d)) == seq![
            kde("kdeglobals"@, "General"@, "ColorScheme"@),
            kde("kdeglobals"@, "Icons"@, "Theme"@),
            kde("kcminputrc"@, "Mouse"@, "cursorTheme"@),
            kde("kcminputrc"@, "Mouse"@, "cursorSize"@),
            kde("kdeglobals"@, "General"@, "font"@),
            kde("kwinrc"@, "org.kde.kdecoration2"@, "theme"@),
        ],
        d == "XFCE"@ ==> setting_table(desktop_kind(d)) == seq![
            xf("xsettings"@, "/Net/ThemeName"@),
            xf("xsettings"@, "/Net/IconThemeName"@),
            xf("xsettings"@, "/Gtk/CursorThemeName"@),
            xf("xsettings"@, "/Gtk/CursorThemeSize"@),
            xf("xsettings"@, "/Gtk/FontName"@),
            xf("xfwm4"@, "/general/theme"@),
        ],
        d == "X-Cinnamon"@ ==> setting_table(desktop_kind(d)) == seq![
            gs("org.cinnamon.desktop.interface"@, "gtk-theme"@),
            gs("org.cinnamon.desktop.interface"@, "icon-theme"@),
            gs("org.cinnamon.desktop.interface"@, "cursor-theme"@),
            gs("org.cinnamon.desktop.interface"@, "cursor-size"@),
            gs("org.cinnamon.desktop.interface"@, "font-name"@),
            gs("org.cinnamon.desktop.wm.preferences"@, "theme"@),
        ],
        d == "MATE"@ ==> setting_table(desktop_kind(d)) == seq![
            gs("org.mate.interface"@, "gtk-theme"@),
            gs("org.mate.interface"@, "icon-theme"@),
            gs("org.mate.peripherals-mouse"@, "cursor-theme"@),
            gs("org.mate.peripherals-mouse"@, "cursor-size"@),
            gs("org.mate.interface"@, "font-name"@),
            gs("org.mate.marco.general"@, "theme"@),
        ],
{
    lemma_known_desktop_names_differ();
}

/// The desktop's lines: the desktop and the window manager each with the display server in
/// parentheses, the window manager theme, the theme, the icons, the cursor theme with its size
/// in pixels, and the font.
pub proof fn law_desktop_lines(d: DesktopEnvironment)
    ensures
        desktop_lines(d).len() == 7,
        desktop_lines(d)[0] == "DE: "@ + d.name@ + " ("@ + d.display_server@ + ")"@,
        desktop_lines(d)[1] == "WM: "@ + d.wm@ + " ("@ + d.display_server@ + ")"@,
        desktop_lines(d)[2] == "WM Theme: "@ + d.wm_theme@,
        desktop_lines(d)[3] == "Theme: "@ + d.theme@,
        desktop_lines(d)[4] == "Icons: "@ + d.icon_theme@,
        desktop_lines(d)[5] == "Cursor Theme: "@ + d.cursor_theme@ + " ("@ + d.cursor_size@
            + "px)"@,
        desktop_lines(d)[6] == "Font: "@ + d.font@,
{
}

} // verus!
