use vstd::prelude::*;

verus! {

/// Player-adjustable options.
#[derive(Clone, Copy, Debug, PartialEq, Eq, Structural)]
pub struct GameSettings {
    pub fov: u16,
    pub mouse_sensitivity: u8,
    pub render_distance: u8,
    pub brightness: u8,
}

/// The settings values read from a stored settings document: each key that
/// holds an unsigned integer, or `None`.
#[derive(Clone, Copy, Debug, PartialEq, Eq, Structural)]
pub struct SettingsDocument {
    pub fov: Option<u64>,
    pub mouse_sensitivity: Option<u64>,
    pub render_distance: Option<u64>,
    pub brightness: Option<u64>,
}

pub open spec fn min_int(a: int, b: int) -> int {
    if a <= b {
        a
    } else {
        b
    }
}

pub open spec fn clamp_int(value: int, low: int, high: int) -> int {
    if value < low {
        low
    } else if value > high {
        high
    } else {
        value
    }
}

/// A stored value when it fits the field's type, the default otherwise.
pub open spec fn stored_or(value: Option<u64>, limit: int, default: int) -> int {
    match value {
        Some(v) => if v <= limit {
            v as int
        } else {
            default
        },
        None => default,
    }
}

impl GameSettings {
    pub const DEFAULT_FOV: u16 = 100;
    pub const DEFAULT_MOUSE_SENSITIVITY: u8 = 60;
    pub const DEFAULT_RENDER_DISTANCE: u8 = 8;
    pub const DEFAULT_BRIGHTNESS: u8 = 75;

    /// Brings every option into its supported range: field of view at most 200,
    /// sensitivity at most 100, render distance 2 to 12, brightness 1 to 100.
    pub fn clamp(&mut self)
        ensures
            final(self).fov == min_int(old(self).fov as int, 200),
            final(self).mouse_sensitivity == min_int(old(self).mouse_sensitivity as int, 100),
            final(self).render_distance == clamp_int(old(self).render_distance as int, 2, 12),
            final(self).brightness == clamp_int(old(self).brightness as int, 1, 100),
    {
        if self.fov > 200 {
            self.fov = 200;
        }
        if self.mouse_sensitivity > 100 {
            self.mouse_sensitivity = 100;
        }
        if self.render_distance < 2 {
            self.render_distance = 2;
        } else if self.render_distance > 12 {
            self.render_distance = 12;
        }
        if self.brightness < 1 {
            self.brightness = 1;
        } else if self.brightness > 100 {
            self.brightness = 100;
        }
    }
}

impl Default for GameSettings {
    fn default() -> (r: GameSettings)
        ensures
            r == (GameSettings {
                fov: 100,
                mouse_sensitivity: 60,
                render_distance: 8,
                brightness: 75,
            }),
    {
        GameSettings {
            fov: GameSettings::DEFAULT_FOV,
            mouse_sensitivity: GameSettings::DEFAULT_MOUSE_SENSITIVITY,
            render_distance: GameSettings::DEFAULT_RENDER_DISTANCE,
            brightness: GameSettings::DEFAULT_BRIGHTNESS,
        }
    }
}

fn stored_u16(value: Option<u64>, default: u16) -> (r: u16)
    ensures
        r == stored_or(value, u16::MAX as int, default as int),
{
    match value {
        Some(v) => if v <= 0xFFFF {
            v as u16
        } else {
            default
        },
        None => default,
    }
}

fn stored_u8(value: Option<u64>, default: u8) -> (r: u8)
    ensures
        r == stored_or(value, u8::MAX as int, default as int),
{
    match value {
        Some(v) => if v <= 0xFF {
            v as u8
        } else {
            default
        },
        None => default,
    }
}

/// Settings from a stored document: every value that fits its field is taken,
/// and every missing or out-of-range value falls back to the default.
pub fn settings_from_document(document: SettingsDocument) -> (r: GameSettings)
    ensures
        r.fov == stored_or(document.fov, u16::MAX as int, 100),
        r.mouse_sensitivity == stored_or(document.mouse_sensitivity, u8::MAX as int, 60),
        r.render_distance == stored_or(document.render_distance, u8::MAX as int, 8),
        r.brightness == stored_or(document.brightness, u8::MAX as int, 75),
{
    let defaults = GameSettings::default();
    GameSettings {
        fov: stored_u16(document.fov, defaults.fov),
        mouse_sensitivity: stored_u8(document.mouse_sensitivity, defaults.mouse_sensitivity),
        render_distance: stored_u8(document.render_distance, defaults.render_distance),
        brightness: stored_u8(document.brightness, defaults.brightness),
    }
}

/// Clamping twice changes nothing more than clamping once, and a clamped
/// value lies in its supported range.
pub proof fn law_clamp_is_idempotent(settings: GameSettings)
    ensures
        min_int(min_int(settings.fov as int, 200), 200) == min_int(settings.fov as int, 200),
        clamp_int(clamp_int(settings.render_distance as int, 2, 12), 2, 12) == clamp_int(
            settings.render_distance as int,
            2,
            12,
        ),
        clamp_int(clamp_int(settings.brightness as int, 1, 100), 1, 100) == clamp_int(
            settings.brightness as int,
            1,
            100,
        ),
        2 <= clamp_int(settings.render_distance as int, 2, 12) <= 12,
        1 <= clamp_int(settings.brightness as int, 1, 100) <= 100,
{
}

} // verus!
