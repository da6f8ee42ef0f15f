//! The user's settings, as the library reads them.
use vstd::prelude::*;
use crate::text::chars_equal;

verus! {

/// Position and size of the note window, in physical pixels.
#[derive(Clone, Copy, Debug, PartialEq, Eq, Structural)]
pub struct WindowRect {
    pub x: i32,
    pub y: i32,
    pub w: u32,
    pub h: u32,
}

/// The user's settings.  Every field is optional; an absent field takes its
/// default where it is used.  The window opacity is kept as the bit pattern
/// of its `f64` value, which only the front end reads.
#[derive(Debug)]
pub struct Settings {
    pub storage_dir: Option<String>,
    pub shortcut: Option<String>,
    pub opacity_bits: Option<u64>,
    pub autostart: Option<bool>,
    pub theme: Option<String>,
    pub open_behavior: Option<String>,
    pub language: Option<String>,
    pub window_rect: Option<WindowRect>,
}

impl Settings {
    /// Settings with no field set.
    pub fn empty() -> (s: Settings)
        ensures
            s.storage_dir is None,
            s.shortcut is None,
            s.opacity_bits is None,
            s.autostart is None,
            s.theme is None,
            s.open_behavior is None,
            s.language is None,
            s.window_rect is None,
    {
        Settings {
            storage_dir: None,
            shortcut: None,
            opacity_bits: None,
            autostart: None,
            theme: None,
            open_behavior: None,
            language: None,
            window_rect: None,
        }
    }

    /// Records where the window now stands; every other setting stays.
    pub fn set_window_rect(&mut self, rect: WindowRect)
        ensures
            final(self).window_rect == Some(rect),
            final(self).storage_dir == old(self).storage_dir,
            final(self).shortcut == old(self).shortcut,
            final(self).opacity_bits == old(self).opacity_bits,
            final(self).autostart == old(self).autostart,
            final(self).theme == old(self).theme,
            final(self).open_behavior == old(self).open_behavior,
            final(self).language == old(self).language,
    {
        self.window_rect = Some(rect);
    }
}

/// Whether the app opens the latest note on start: when the open behaviour
/// is `last`, which is also the default.
pub open spec fn spec_opens_last_note(open_behavior: Option<Seq<char>>) -> bool {
    match open_behavior {
        Some(b) => b == "last"@,
        None => true,
    }
}

/// Whether the app opens the latest note on start (see
/// `spec_opens_last_note`).
pub fn opens_last_note(settings: &Settings) -> (r: bool)
    ensures
        r == spec_opens_last_note(
            match settings.open_behavior {
                Some(b) => Some(b@),
                None => None,
            },
        ),
{
    match &settings.open_behavior {
        Some(b) => {
            let v = crate::text::chars_of(b.as_str());
            chars_equal(&v, "last")
        },
        None => true,
    }
}

} // verus!
