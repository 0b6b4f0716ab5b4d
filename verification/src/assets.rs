//! Embedded SVG icons (Lucide, ISC license), served to gpui's svg
//! renderer by the program. Icons are stroke-based masks: gpui colors them
//! with the element's text color, so strokes are plain black here.

use crate::text;
use vstd::prelude::*;

verus! {

/// The asset source for the panel and settings windows.
pub struct Assets;

/// The opening tag every icon shares.
pub const SVG_OPEN: &'static str = r#"<svg xmlns="http://www.w3.org/2000/svg" width="24" height="24" viewBox="0 0 24 24" fill="none" stroke="black" stroke-width="2" stroke-linecap="round" stroke-linejoin="round">"#;

pub const SVG_CLOSE: &'static str = "</svg>";

pub const SETTINGS_SVG: &'static str = r#"<path d="M12.22 2h-.44a2 2 0 0 0-2 2v.18a2 2 0 0 1-1 1.73l-.43.25a2 2 0 0 1-2 0l-.15-.08a2 2 0 0 0-2.73.73l-.22.38a2 2 0 0 0 .73 2.73l.15.1a2 2 0 0 1 1 1.72v.51a2 2 0 0 1-1 1.74l-.15.09a2 2 0 0 0-.73 2.73l.22.38a2 2 0 0 0 2.73.73l.15-.08a2 2 0 0 1 2 0l.43.25a2 2 0 0 1 1 1.73V20a2 2 0 0 0 2 2h.44a2 2 0 0 0 2-2v-.18a2 2 0 0 1 1-1.73l.43-.25a2 2 0 0 1 2 0l.15.08a2 2 0 0 0 2.73-.73l.22-.39a2 2 0 0 0-.73-2.73l-.15-.08a2 2 0 0 1-1-1.74v-.5a2 2 0 0 1 1-1.74l.15-.09a2 2 0 0 0 .73-2.73l-.22-.38a2 2 0 0 0-2.73-.73l-.15.08a2 2 0 0 1-2 0l-.43-.25a2 2 0 0 1-1-1.73V4a2 2 0 0 0-2-2z"/><circle cx="12" cy="12" r="3"/>"#;

pub const PANEL_SVG: &'static str = r#"<rect width="18" height="18" x="3" y="3" rx="2"/><path d="M9 3v18"/>"#;

pub const APPEARANCE_SVG: &'static str = r#"<path d="M12 3a6 6 0 0 0 9 9 9 9 0 1 1-9-9Z"/>"#;

pub const PIN_SVG: &'static str = r#"<path d="M12 17v5"/><path d="M9 10.76a2 2 0 0 1-1.11 1.79l-1.78.9A2 2 0 0 0 6 15.24V16a1 1 0 0 0 1 1h10a1 1 0 0 0 1-1v-.76a2 2 0 0 0-1.11-1.79l-1.78-.9A2 2 0 0 1 14 10.76V6h1a2 2 0 0 0 0-4H9a2 2 0 0 0 0 4h1z"/>"#;

pub const KEYS_SVG: &'static str = r#"<path d="M10 8h.01"/><path d="M12 12h.01"/><path d="M14 8h.01"/><path d="M16 12h.01"/><path d="M18 8h.01"/><path d="M6 8h.01"/><path d="M7 16h10"/><path d="M8 12h.01"/><rect width="20" height="16" x="2" y="4" rx="2"/>"#;

pub const INFO_SVG: &'static str = r#"<circle cx="12" cy="12" r="10"/><path d="M12 16v-4"/><path d="M12 8h.01"/>"#;

pub const X_SVG: &'static str = r#"<path d="M18 6 6 18"/><path d="m6 6 12 12"/>"#;

pub const SEARCH_SVG: &'static str = r#"<circle cx="11" cy="11" r="8"/><path d="m21 21-4.3-4.3"/>"#;

/// The drawing of the icon at `path`, if there is one.
pub open spec fn icon_body(path: Seq<char>) -> Option<Seq<char>> {
    if path == "icons/settings.svg"@ {
        Some(SETTINGS_SVG@)
    } else if path == "icons/panel.svg"@ {
        Some(PANEL_SVG@)
    } else if path == "icons/appearance.svg"@ {
        Some(APPEARANCE_SVG@)
    } else if path == "icons/pin.svg"@ {
        Some(PIN_SVG@)
    } else if path == "icons/keys.svg"@ {
        Some(KEYS_SVG@)
    } else if path == "icons/info.svg"@ {
        Some(INFO_SVG@)
    } else if path == "icons/x.svg"@ {
        Some(X_SVG@)
    } else if path == "icons/search.svg"@ {
        Some(SEARCH_SVG@)
    } else {
        None
    }
}

/// The SVG document served for `path`.
pub open spec fn icon_svg(path: Seq<char>) -> Option<Seq<char>> {
    match icon_body(path) {
        Some(b) => Some(SVG_OPEN@ + b + SVG_CLOSE@),
        None => None,
    }
}

fn body_of(path: &str) -> (r: Option<&'static str>)
    ensures
        match r {
            Some(b) => icon_body(path@) == Some(b@),
            None => icon_body(path@) is None,
        },
{
    if text::str_eq(path, "icons/settings.svg") {
        Some(SETTINGS_SVG)
    } else if text::str_eq(path, "icons/panel.svg") {
        Some(PANEL_SVG)
    } else if text::str_eq(path, "icons/appearance.svg") {
        Some(APPEARANCE_SVG)
    } else if text::str_eq(path, "icons/pin.svg") {
        Some(PIN_SVG)
    } else if text::str_eq(path, "icons/keys.svg") {
        Some(KEYS_SVG)
    } else if text::str_eq(path, "icons/info.svg") {
        Some(INFO_SVG)
    } else if text::str_eq(path, "icons/x.svg") {
        Some(X_SVG)
    } else if text::str_eq(path, "icons/search.svg") {
        Some(SEARCH_SVG)
    } else {
        None
    }
}

impl Assets {
    /// The SVG document for an asset path, if it names an icon.
    pub fn load(&self, path: &str) -> (r: Option<String>)
        ensures
            match r {
                Some(s) => icon_svg(path@) == Some(s@),
                None => icon_svg(path@) is None,
            },
    {
        match body_of(path) {
            Some(b) => {
                let mut s = text::owned(SVG_OPEN);
                text::push_str(&mut s, b);
                text::push_str(&mut s, SVG_CLOSE);
                Some(s)
            },
            None => None,
        }
    }

    /// The asset paths under `path` (none: the icons are looked up by name).
    pub fn list(&self, path: &str) -> (r: Vec<String>)
        ensures
            r@.len() == 0,
    {
        Vec::new()
    }
}

} // verus!
