//! Colour themes.

use vstd::prelude::*;
use crate::text::{self, ascii_lowered, trimmed};

verus! {

/// A colour by its red, green and blue.
#[derive(Debug, Clone, Copy, PartialEq, Eq, Structural)]
pub struct Rgb {
    pub r: u8,
    pub g: u8,
    pub b: u8,
}

pub open spec fn rgb_spec(r: u8, g: u8, b: u8) -> Rgb {
    Rgb { r, g, b }
}

fn rgb(r: u8, g: u8, b: u8) -> (c: Rgb)
    ensures
        c == rgb_spec(r, g, b),
{
    Rgb { r, g, b }
}

#[derive(Debug, Clone, Copy)]
pub struct Theme {
    pub name: &'static str,
    pub accent: Rgb,
    pub dim: Rgb,
    pub border: Rgb,
    pub text: Rgb,
    pub danger: Rgb,
    pub warn: Rgb,
    pub ok: Rgb,
    pub selection_bg: Rgb,
}

/// The themes there are, in the order they are cycled through.
#[derive(Debug, Clone, Copy, PartialEq, Eq, Structural)]
pub enum ThemeId {
    Dark,
    Dracula,
    Nord,
    Gruvbox,
}

impl ThemeId {
    pub open spec fn name_spec(self) -> Seq<char> {
        match self {
            ThemeId::Dark => "dark"@,
            ThemeId::Dracula => "dracula"@,
            ThemeId::Nord => "nord"@,
            ThemeId::Gruvbox => "gruvbox"@,
        }
    }

    /// A theme has the colours that go by its name.
    pub open spec fn colours(self, t: Theme) -> bool {
        match self {
            ThemeId::Dark => {
                &&& t.accent == rgb_spec(61, 214, 198)
                &&& t.dim == rgb_spec(144, 166, 185)
                &&& t.border == rgb_spec(60, 80, 98)
                &&& t.text == rgb_spec(237, 246, 251)
                &&& t.danger == rgb_spec(251, 113, 133)
                &&& t.warn == rgb_spec(245, 182, 77)
                &&& t.ok == rgb_spec(110, 231, 183)
                &&& t.selection_bg == rgb_spec(18, 42, 54)
            },
            ThemeId::Dracula => {
                &&& t.accent == rgb_spec(139, 233, 253)
                &&& t.dim == rgb_spec(98, 114, 164)
                &&& t.border == rgb_spec(68, 71, 90)
                &&& t.text == rgb_spec(248, 248, 242)
                &&& t.danger == rgb_spec(255, 85, 85)
                &&& t.warn == rgb_spec(241, 250, 140)
                &&& t.ok == rgb_spec(80, 250, 123)
                &&& t.selection_bg == rgb_spec(68, 71, 90)
            },
            ThemeId::Nord => {
                &&& t.accent == rgb_spec(136, 192, 208)
                &&& t.dim == rgb_spec(76, 86, 106)
                &&& t.border == rgb_spec(59, 66, 82)
                &&& t.text == rgb_spec(236, 239, 244)
                &&& t.danger == rgb_spec(191, 97, 106)
                &&& t.warn == rgb_spec(235, 203, 139)
                &&& t.ok == rgb_spec(163, 190, 140)
                &&& t.selection_bg == rgb_spec(67, 76, 94)
            },
            ThemeId::Gruvbox => {
                &&& t.accent == rgb_spec(131, 165, 152)
                &&& t.dim == rgb_spec(146, 131, 116)
                &&& t.border == rgb_spec(80, 73, 69)
                &&& t.text == rgb_spec(235, 219, 178)
                &&& t.danger == rgb_spec(251, 73, 52)
                &&& t.warn == rgb_spec(250, 189, 47)
                &&& t.ok == rgb_spec(184, 187, 38)
                &&& t.selection_bg == rgb_spec(60, 56, 54)
            },
        }
    }

    pub fn theme(self) -> (r: Theme)
        ensures
            r.name@ == self.name_spec(),
            self.colours(r),
    {
        match self {
            ThemeId::Dark => Theme {
                name: "dark",
                accent: rgb(61, 214, 198),
                dim: rgb(144, 166, 185),
                border: rgb(60, 80, 98),
                text: rgb(237, 246, 251),
                danger: rgb(251, 113, 133),
                warn: rgb(245, 182, 77),
                ok: rgb(110, 231, 183),
                selection_bg: rgb(18, 42, 54),
            },
            ThemeId::Dracula => Theme {
                name: "dracula",
                accent: rgb(139, 233, 253),
                dim: rgb(98, 114, 164),
                border: rgb(68, 71, 90),
                text: rgb(248, 248, 242),
                danger: rgb(255, 85, 85),
                warn: rgb(241, 250, 140),
                ok: rgb(80, 250, 123),
                selection_bg: rgb(68, 71, 90),
            },
            ThemeId::Nord => Theme {
                name: "nord",
                accent: rgb(136, 192, 208),
                dim: rgb(76, 86, 106),
                border: rgb(59, 66, 82),
                text: rgb(236, 239, 244),
                danger: rgb(191, 97, 106),
                warn: rgb(235, 203, 139),
                ok: rgb(163, 190, 140),
                selection_bg: rgb(67, 76, 94),
            },
            ThemeId::Gruvbox => Theme {
                name: "gruvbox",
                accent: rgb(131, 165, 152),
                dim: rgb(146, 131, 116),
                border: rgb(80, 73, 69),
                text: rgb(235, 219, 178),
                danger: rgb(251, 73, 52),
                warn: rgb(250, 189, 47),
                ok: rgb(184, 187, 38),
                selection_bg: rgb(60, 56, 54),
            },
        }
    }

    pub open spec fn named(name: Seq<char>) -> Option<ThemeId> {
        if name == "dark"@ {
            Some(ThemeId::Dark)
        } else if name == "dracula"@ {
            Some(ThemeId::Dracula)
        } else if name == "nord"@ {
            Some(ThemeId::Nord)
        } else if name == "gruvbox"@ {
            Some(ThemeId::Gruvbox)
        } else {
            None
        }
    }

    pub fn by_exact_name(name: &str) -> (r: Option<ThemeId>)
        ensures
            r == Self::named(name@),
    {
        if text::same(name, "dark") {
            Some(ThemeId::Dark)
        } else if text::same(name, "dracula") {
            Some(ThemeId::Dracula)
        } else if text::same(name, "nord") {
            Some(ThemeId::Nord)
        } else if text::same(name, "gruvbox") {
            Some(ThemeId::Gruvbox)
        } else {
            None
        }
    }

    pub open spec fn next_spec(self) -> ThemeId {
        match self {
            ThemeId::Dark => ThemeId::Dracula,
            ThemeId::Dracula => ThemeId::Nord,
            ThemeId::Nord => ThemeId::Gruvbox,
            ThemeId::Gruvbox => ThemeId::Dark,
        }
    }
}

/// The theme that goes by a name, whatever its case and the white space round
/// it; the dark one where none does.
pub open spec fn theme_for(name: Seq<char>) -> ThemeId {
    match ThemeId::named(ascii_lowered(trimmed(name))) {
        Some(t) => t,
        None => ThemeId::Dark,
    }
}

pub fn by_name(name: &str) -> (r: Theme)
    ensures
        r.name@ == theme_for(name@).name_spec(),
        theme_for(name@).colours(r),
{
    let lower = text::to_ascii_lower(text::trim(name).as_str());
    match ThemeId::by_exact_name(lower.as_str()) {
        Some(t) => t.theme(),
        None => ThemeId::Dark.theme(),
    }
}

/// The theme after the one of that name.
pub open spec fn theme_after(current: Seq<char>) -> ThemeId {
    match ThemeId::named(current) {
        Some(t) => t.next_spec(),
        None => ThemeId::Dracula,
    }
}

pub fn next(current: &str) -> (r: Theme)
    ensures
        r.name@ == theme_after(current@).name_spec(),
        theme_after(current@).colours(r),
{
    let id = match ThemeId::by_exact_name(current) {
        Some(ThemeId::Dark) => ThemeId::Dracula,
        Some(ThemeId::Dracula) => ThemeId::Nord,
        Some(ThemeId::Nord) => ThemeId::Gruvbox,
        Some(ThemeId::Gruvbox) => ThemeId::Dark,
        None => ThemeId::Dracula,
    };
    id.theme()
}

/// Going through the themes comes back to where it began, and a theme is found
/// by its own name.
pub proof fn law_themes_cycle(t: ThemeId)
    ensures
        t.next_spec().next_spec().next_spec().next_spec() == t,
        ThemeId::named(t.name_spec()) == Some(t),
        theme_after(t.name_spec()) == t.next_spec(),
{
    reveal_strlit("dark");
    reveal_strlit("dracula");
    reveal_strlit("nord");
    reveal_strlit("gruvbox");
    assert("dark"@.len() == 4);
    assert("dracula"@.len() == 7);
    assert("nord"@[0] == 'n');
    assert("dark"@[0] == 'd');
    assert("gruvbox"@[0] == 'g');
    assert("dracula"@[0] == 'd');
}

}
