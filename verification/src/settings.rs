//! Application settings (`config.toml`), their merge with command-line flags, where the
//! configuration files live, and the daemon options derived from the settings.
//!
//! Reading the environment and the file, and the TOML parse itself, happen outside the
//! library; it is handed the environment values and the parsed settings.

use vstd::prelude::*;
use crate::config::opt_view;
use crate::socket::{joined, join_path};
use crate::text::{chars_of, trim, trim_chars, string_of, str_eq, parse_i32, signed_literal};
use crate::xgrab::RemapMode;

verus! {

/// `[non_bmp]` settings: routing of non-BMP glyphs (emoji) through the clipboard.
#[derive(Clone, Debug)]
pub struct NonBmpSettings {
    /// WM_CLASS globs whose focused windows receive non-BMP glyphs by clipboard paste
    /// instead of the keysym path, which Java/AWT truncates. Matched (anchored glob,
    /// `*` wildcard) against either res_name or res_class. Empty or unset disables the
    /// clipboard path. Example: `["jetbrains-*"]`.
    pub clipboard_apps: Option<Vec<String>>,
}

/// The settings of `config.toml`; every one is optional.
#[derive(Clone, Debug)]
pub struct AppSettings {
    /// Path to the layers glyph-map config (`layers.toml`); defaults to
    /// [`default_layers_path`](AppSettings::default_layers_path).
    pub layers: Option<String>,
    /// Overlay dismiss timeout, milliseconds.
    pub timeout: Option<u64>,
    /// Overlay width, as written.
    pub size: Option<String>,
    pub verbose: Option<bool>,
    /// Monitor to show the overlay on: connector name, model name or index.
    pub monitor: Option<String>,
    /// Corner to align the overlay to: top-left, top-right, bottom-left, bottom-right.
    pub corner: Option<String>,
    /// Quiet time after the knob settles before the remap, milliseconds (debounce mode).
    pub nav_settle_ms: Option<u64>,
    /// "lazy" or "debounce".
    pub remap_mode: Option<String>,
    pub non_bmp: Option<NonBmpSettings>,
}

impl Default for AppSettings {
    /// No setting given.
    fn default() -> (r: Self)
        ensures
            r.layers is None && r.timeout is None && r.size is None && r.verbose is None
                && r.monitor is None && r.corner is None && r.nav_settle_ms is None
                && r.remap_mode is None && r.non_bmp is None,
    {
        AppSettings {
            layers: None,
            timeout: None,
            size: None,
            verbose: None,
            monitor: None,
            corner: None,
            nav_settle_ms: None,
            remap_mode: None,
            non_bmp: None,
        }
    }
}

/// The directory holding the configuration files: `$XDG_CONFIG_HOME/rologlyphex`, else
/// `$HOME/.config/rologlyphex`, else `./rologlyphex`.
pub open spec fn config_dir_for(xdg_config_home: Option<Seq<char>>, home: Option<Seq<char>>) -> Seq<char> {
    let base = match xdg_config_home {
        Some(x) => x,
        None => match home {
            Some(h) => joined(h, ".config"@),
            None => "."@,
        },
    };
    joined(base, "rologlyphex"@)
}

/// Default overlay dismiss timeout, milliseconds.
pub const DEFAULT_TIMEOUT_MS: u64 = 3000;

/// Default overlay width, pixels.
pub const DEFAULT_WIDTH: i32 = 600;

/// Default knob settle time, milliseconds.
pub const DEFAULT_NAV_SETTLE_MS: u64 = 160;

/// The overlay width a `size` setting gives: the default when unset, else the trimmed
/// value read as an `i32`, which must be positive (None: invalid).
pub open spec fn width_for(size: Option<Seq<char>>) -> Option<i32> {
    match size {
        None => Some(DEFAULT_WIDTH),
        Some(s) => match signed_literal(trim(s)) {
            Some(v) => if 0 < v <= i32::MAX { Some(v as i32) } else { None },
            None => None,
        },
    }
}

impl AppSettings {
    /// The configuration directory, see [`config_dir_for`]; `xdg_config_home` and
    /// `home` are the environment's values (None when unset or not Unicode).
    pub fn config_dir(xdg_config_home: &Option<String>, home: &Option<String>) -> (r: String)
        ensures
            r@ == config_dir_for(opt_view(*xdg_config_home), opt_view(*home)),
    {
        proof {
            reveal_strlit(".config");
            reveal_strlit(".");
        }
        let base = match xdg_config_home {
            Some(x) => x.clone(),
            None => match home {
                Some(h) => join_path(h.as_str(), ".config"),
                None => String::from_str("."),
            },
        };
        join_path(base.as_str(), "rologlyphex")
    }

    /// Path of `config.toml` in the configuration directory.
    pub fn get_config_path(xdg_config_home: &Option<String>, home: &Option<String>) -> (r: String)
        ensures
            r@ == joined(config_dir_for(opt_view(*xdg_config_home), opt_view(*home)), "config.toml"@),
    {
        let dir = Self::config_dir(xdg_config_home, home);
        join_path(dir.as_str(), "config.toml")
    }

    /// Default path of the layers glyph-map config when none is configured.
    pub fn default_layers_path(xdg_config_home: &Option<String>, home: &Option<String>) -> (r: String)
        ensures
            r@ == joined(config_dir_for(opt_view(*xdg_config_home), opt_view(*home)), "layers.toml"@),
    {
        let dir = Self::config_dir(xdg_config_home, home);
        join_path(dir.as_str(), "layers.toml")
    }

    /// Command-line flags override the file: every flag that is given replaces its
    /// setting, the others are kept.
    pub fn merge_cli(
        &mut self,
        layers: Option<String>,
        timeout: Option<u64>,
        size: Option<String>,
        verbose: Option<bool>,
        monitor: Option<String>,
        corner: Option<String>,
    )
        ensures
            final(self).layers == (if layers is Some { layers } else { old(self).layers }),
            final(self).timeout == (if timeout is Some { timeout } else { old(self).timeout }),
            final(self).size == (if size is Some { size } else { old(self).size }),
            final(self).verbose == (if verbose is Some { verbose } else { old(self).verbose }),
            final(self).monitor == (if monitor is Some { monitor } else { old(self).monitor }),
            final(self).corner == (if corner is Some { corner } else { old(self).corner }),
            final(self).nav_settle_ms == old(self).nav_settle_ms,
            final(self).remap_mode == old(self).remap_mode,
            final(self).non_bmp == old(self).non_bmp,
    {
        if layers.is_some() {
            self.layers = layers;
        }
        if timeout.is_some() {
            self.timeout = timeout;
        }
        if size.is_some() {
            self.size = size;
        }
        if verbose.is_some() {
            self.verbose = verbose;
        }
        if monitor.is_some() {
            self.monitor = monitor;
        }
        if corner.is_some() {
            self.corner = corner;
        }
    }

    /// Whether debug logging is on (off unless set).
    pub fn is_verbose(&self) -> (r: bool)
        ensures
            r == (self.verbose == Some(true)),
    {
        match self.verbose {
            Some(v) => v,
            None => false,
        }
    }

    /// The overlay dismiss timeout: the setting, else [`DEFAULT_TIMEOUT_MS`].
    pub fn timeout_ms(&self) -> (r: u64)
        ensures
            r == (match self.timeout { Some(t) => t, None => DEFAULT_TIMEOUT_MS }),
    {
        match self.timeout {
            Some(t) => t,
            None => DEFAULT_TIMEOUT_MS,
        }
    }

    /// The overlay width, see [`width_for`]; None when the setting is not a positive
    /// integer (the daemon refuses to start).
    pub fn window_width(&self) -> (r: Option<i32>)
        ensures
            r == width_for(opt_view(self.size)),
    {
        match &self.size {
            None => Some(DEFAULT_WIDTH),
            Some(s) => {
                let t = trim_chars(&chars_of(s.as_str()));
                let text = string_of(&t, 0, t.len());
                assert(text@ =~= trim(s@));
                match parse_i32(text.as_str()) {
                    Some(w) => if w > 0 { Some(w) } else { None },
                    None => None,
                }
            },
        }
    }

    /// The knob settle time as the grab loop's poll timeout: the setting (else
    /// [`DEFAULT_NAV_SETTLE_MS`]), capped at `i32::MAX`.
    pub fn nav_settle(&self) -> (r: i32)
        ensures
            r == (if (match self.nav_settle_ms { Some(v) => v, None => DEFAULT_NAV_SETTLE_MS }) > i32::MAX {
                i32::MAX as int
            } else {
                (match self.nav_settle_ms { Some(v) => v, None => DEFAULT_NAV_SETTLE_MS }) as int
            }),
    {
        let v = match self.nav_settle_ms {
            Some(v) => v,
            None => DEFAULT_NAV_SETTLE_MS,
        };
        if v > i32::MAX as u64 { i32::MAX } else { v as i32 }
    }

    /// The remap mode: "debounce", else lazy; the flag tells that an unknown value was
    /// given (warned about, lazy used).
    pub fn remap(&self) -> (r: (RemapMode, bool))
        ensures
            r == (match self.remap_mode {
                None => (RemapMode::Lazy, false),
                Some(m) => if m@ == "debounce"@ {
                    (RemapMode::Debounce, false)
                } else if m@ == "lazy"@ {
                    (RemapMode::Lazy, false)
                } else {
                    (RemapMode::Lazy, true)
                },
            }),
    {
        match &self.remap_mode {
            None => (RemapMode::Lazy, false),
            Some(m) => {
                if str_eq(m.as_str(), "debounce") {
                    (RemapMode::Debounce, false)
                } else if str_eq(m.as_str(), "lazy") {
                    (RemapMode::Lazy, false)
                } else {
                    (RemapMode::Lazy, true)
                }
            },
        }
    }

    /// The WM_CLASS globs of `[non_bmp].clipboard_apps`, empty when unset.
    pub fn clipboard_apps(&self) -> (r: Vec<String>)
        ensures
            r@ == (match self.non_bmp {
                Some(n) => match n.clipboard_apps {
                    Some(v) => v@,
                    None => Seq::empty(),
                },
                None => Seq::empty(),
            }),
    {
        match &self.non_bmp {
            Some(n) => match &n.clipboard_apps {
                Some(v) => {
                    let mut out: Vec<String> = Vec::new();
                    let mut i: usize = 0;
                    while i < v.len()
                        invariant
                            i <= v@.len(),
                            out@ == v@.subrange(0, i as int),
                        decreases v@.len() - i,
                    {
                        out.push(v[i].clone());
                        i += 1;
                        assert(out@ =~= v@.subrange(0, i as int));
                    }
                    assert(v@.subrange(0, v@.len() as int) =~= v@);
                    out
                },
                None => Vec::new(),
            },
            None => Vec::new(),
        }
    }
}

} // verus!
