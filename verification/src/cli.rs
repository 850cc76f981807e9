use vstd::prelude::*;

verus! {

/// The command line arguments.
pub struct Args {
    /// List all available logos.
    pub list_logos: bool,
    /// Set the logo to a specific logo, i.e. `--set-logo archlinux`.
    pub set_logo: Option<String>,
    /// Preview the fetch with a specific logo, i.e. `--preview-logo archlinux`.
    pub preview_logo: Option<String>,
    /// Set the wallpaper to a specific path, i.e. `--set-wallpaper /path/to/wallpaper.png`.
    pub wallpaper_path: Option<String>,
}

} // verus!
