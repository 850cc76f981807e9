use vstd::prelude::*;

verus! {

/// Which modules the fetch shows.
pub struct ModuleConfig {
    pub show: Vec<String>,
}

/// Where the configuration file lives under the home directory; none without a home
/// directory (`$HOME` unset or empty).
pub fn config_path(home: Option<String>) -> (r: Option<String>)
    ensures
        match home {
            Some(h) if h@.len() > 0 => r matches Some(p) && p@ == h@
                + "/.config/holefetch/config.toml"@,
            _ => r is None,
        },
{
    match home {
        Some(h) => {
            if h.as_str().is_empty() {
                None
            } else {
                let mut p = h;
                p.append("/.config/holefetch/config.toml");
                Some(p)
            }
        },
        None => None,
    }
}

} // verus!
