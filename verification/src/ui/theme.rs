//! The colours of the window.

use vstd::prelude::*;

verus! {

/// What a colour is for.
#[derive(Clone, Copy, Debug, PartialEq, Eq, Structural)]
pub enum Tint {
    BgPrimary,
    BgSecondary,
    BgCard,
    Accent,
    TextPrimary,
    TextMuted,
    KillGreen,
    MultiPurple,
    DeathRed,
}

/// The colours of the window, by red, green and blue.
pub struct Theme;

impl Theme {
    pub open spec fn rgb_of(tint: Tint) -> (u8, u8, u8) {
        match tint {
            Tint::BgPrimary => (0x0d, 0x0e, 0x10),
            Tint::BgSecondary => (0x14, 0x16, 0x1a),
            Tint::BgCard => (0x1a, 0x1d, 0x22),
            Tint::Accent => (222, 88, 51),
            Tint::TextPrimary => (0xdc, 0xe1, 0xe6),
            Tint::TextMuted => (0x61, 0x68, 0x75),
            Tint::KillGreen => (0x1d, 0x9e, 0x75),
            Tint::MultiPurple => (0x82, 0x64, 0xd2),
            Tint::DeathRed => (0xc8, 0x3c, 0x3c),
        }
    }

    pub fn rgb(tint: Tint) -> (r: (u8, u8, u8))
        ensures
            r == Theme::rgb_of(tint),
    {
        match tint {
            Tint::BgPrimary => (0x0d, 0x0e, 0x10),
            Tint::BgSecondary => (0x14, 0x16, 0x1a),
            Tint::BgCard => (0x1a, 0x1d, 0x22),
            Tint::Accent => (222, 88, 51),
            Tint::TextPrimary => (0xdc, 0xe1, 0xe6),
            Tint::TextMuted => (0x61, 0x68, 0x75),
            Tint::KillGreen => (0x1d, 0x9e, 0x75),
            Tint::MultiPurple => (0x82, 0x64, 0xd2),
            Tint::DeathRed => (0xc8, 0x3c, 0x3c),
        }
    }
}

}
