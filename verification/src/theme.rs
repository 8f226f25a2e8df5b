//! The bundled color themes. A palette carries a handful of base colors as
//! `0xrrggbb` values; the drawing turns them into fractional channels and
//! derives the extra shades it needs from them.

use vstd::prelude::*;
use crate::text::same_text;

verus! {

/// A bundled palette: its name and base colors, each `0xrrggbb`.
pub struct Palette {
    pub name: &'static str,
    pub bg: u32,
    pub surface: u32,
    pub window: u32,
    pub text: u32,
    pub subtext: u32,
    pub accent: u32,
    pub urgent: u32,
}

/// A palette as plain values: name, then bg, surface, window, text, subtext,
/// accent and urgent.
pub type PaletteView = (Seq<char>, (u32, u32, u32, u32, u32, u32, u32));

pub open spec fn palette_view(p: Palette) -> PaletteView {
    (p.name@, (p.bg, p.surface, p.window, p.text, p.subtext, p.accent, p.urgent))
}

/// The bundled palettes, in picker order. The first is the default.
pub open spec fn bundled() -> Seq<PaletteView> {
    seq![
        ("catppuccin-mocha"@, (0x181825u32, 0x1e1e2eu32, 0x313244u32, 0xcdd6f4u32, 0xa6adc8u32, 0x89b4fau32, 0xf38ba8u32)),
        ("catppuccin-macchiato"@, (0x1e2030u32, 0x24273au32, 0x363a4fu32, 0xcad3f5u32, 0xa5adcbu32, 0x8aadf4u32, 0xed8796u32)),
        ("catppuccin-latte"@, (0xeff1f5u32, 0xe6e9efu32, 0xccd0dau32, 0x4c4f69u32, 0x6c6f85u32, 0x1e66f5u32, 0xd20f39u32)),
        ("gruvbox-material"@, (0x1d2021u32, 0x282828u32, 0x3c3836u32, 0xd4be98u32, 0xa89984u32, 0x7daea3u32, 0xea6962u32)),
        ("gruvbox-light"@, (0xfbf1c7u32, 0xf2e5bcu32, 0xebdbb2u32, 0x3c3836u32, 0x7c6f64u32, 0x458588u32, 0xcc241du32)),
        ("tokyo-night"@, (0x16161eu32, 0x1a1b26u32, 0x292e42u32, 0xc0caf5u32, 0xa9b1d6u32, 0x7aa2f7u32, 0xf7768eu32)),
        ("nord"@, (0x2e3440u32, 0x3b4252u32, 0x434c5eu32, 0xeceff4u32, 0xabb2c0u32, 0x88c0d0u32, 0xbf616au32)),
        ("dracula"@, (0x21222cu32, 0x282a36u32, 0x44475au32, 0xf8f8f2u32, 0xa0a4c0u32, 0xbd93f9u32, 0xff5555u32)),
        ("rose-pine"@, (0x191724u32, 0x1f1d2eu32, 0x26233au32, 0xe0def4u32, 0x908caau32, 0xc4a7e7u32, 0xeb6f92u32)),
    ]
}

pub const DEFAULT: &'static str = "catppuccin-mocha";

fn palette(name: &'static str, c: (u32, u32, u32, u32, u32, u32, u32)) -> (p: Palette)
    ensures
        palette_view(p) == (name@, c),
{
    Palette { name, bg: c.0, surface: c.1, window: c.2, text: c.3, subtext: c.4, accent: c.5, urgent: c.6 }
}

/// All bundled palettes, in picker order. The first is the default.
pub fn all() -> (r: Vec<Palette>)
    ensures
        r@.map_values(|p: Palette| palette_view(p)) == bundled(),
{
    let mut r: Vec<Palette> = Vec::new();
    r.push(palette("catppuccin-mocha", (0x181825, 0x1e1e2e, 0x313244, 0xcdd6f4, 0xa6adc8, 0x89b4fa, 0xf38ba8)));
    r.push(palette("catppuccin-macchiato", (0x1e2030, 0x24273a, 0x363a4f, 0xcad3f5, 0xa5adcb, 0x8aadf4, 0xed8796)));
    r.push(palette("catppuccin-latte", (0xeff1f5, 0xe6e9ef, 0xccd0da, 0x4c4f69, 0x6c6f85, 0x1e66f5, 0xd20f39)));
    r.push(palette("gruvbox-material", (0x1d2021, 0x282828, 0x3c3836, 0xd4be98, 0xa89984, 0x7daea3, 0xea6962)));
    r.push(palette("gruvbox-light", (0xfbf1c7, 0xf2e5bc, 0xebdbb2, 0x3c3836, 0x7c6f64, 0x458588, 0xcc241d)));
    r.push(palette("tokyo-night", (0x16161e, 0x1a1b26, 0x292e42, 0xc0caf5, 0xa9b1d6, 0x7aa2f7, 0xf7768e)));
    r.push(palette("nord", (0x2e3440, 0x3b4252, 0x434c5e, 0xeceff4, 0xabb2c0, 0x88c0d0, 0xbf616a)));
    r.push(palette("dracula", (0x21222c, 0x282a36, 0x44475a, 0xf8f8f2, 0xa0a4c0, 0xbd93f9, 0xff5555)));
    r.push(palette("rose-pine", (0x191724, 0x1f1d2e, 0x26233a, 0xe0def4, 0x908caa, 0xc4a7e7, 0xeb6f92)));
    assert(r@.map_values(|p: Palette| palette_view(p)) =~= bundled());
    r
}

/// The position of the first bundled palette named `name`.
pub open spec fn position_of(name: Seq<char>) -> Option<usize> {
    if exists|i: int| 0 <= i < bundled().len() && bundled()[i].0 == name {
        Some((choose|i: int| 0 <= i < bundled().len() && bundled()[i].0 == name
            && forall|j: int| 0 <= j < i ==> bundled()[j].0 != name) as usize)
    } else {
        None
    }
}

/// Index of the theme named `name`, if bundled.
pub fn index_of(name: &str) -> (r: Option<usize>)
    ensures
        r == position_of(name@),
        r matches Some(i) ==> i < bundled().len() && bundled()[i as int].0 == name@,
{
    let themes = all();
    let ghost views = themes@.map_values(|p: Palette| palette_view(p));
    let mut i: usize = 0;
    while i < themes.len()
        invariant
            i <= themes@.len(),
            views == bundled(),
            views == themes@.map_values(|p: Palette| palette_view(p)),
            forall|j: int| 0 <= j < i ==> bundled()[j].0 != name@,
        decreases themes.len() - i,
    {
        assert(views[i as int] == palette_view(themes@[i as int]));
        if same_text(themes[i].name, name) {
            assert(position_of(name@) == Some(i)) by {
                let k = choose|k: int| 0 <= k < bundled().len() && bundled()[k].0 == name@
                    && forall|j: int| 0 <= j < k ==> bundled()[j].0 != name@;
                if k < i { } else if k > i { }
            }
            return Some(i);
        }
        i += 1;
    }
    None
}

/// No two bundled palettes share a name.
proof fn lemma_bundled_names_distinct()
    ensures
        forall|i: int, j: int| 0 <= i < bundled().len() && 0 <= j < bundled().len() && i != j
            ==> bundled()[i].0 != bundled()[j].0,
{
    reveal_strlit("catppuccin-mocha");
    reveal_strlit("catppuccin-macchiato");
    reveal_strlit("catppuccin-latte");
    reveal_strlit("gruvbox-material");
    reveal_strlit("gruvbox-light");
    reveal_strlit("tokyo-night");
    reveal_strlit("nord");
    reveal_strlit("dracula");
    reveal_strlit("rose-pine");
    let b = bundled();
    assert(b[0].0[11] != b[2].0[11]);
    assert(b[0].0[0] != b[3].0[0]);
    assert(b[2].0[0] != b[3].0[0]);
    assert forall|i: int, j: int| 0 <= i < b.len() && 0 <= j < b.len() && i != j implies b[i].0 != b[j].0 by {
        if b[i].0 == b[j].0 {
            assert(b[i].0.len() == b[j].0.len());
            if b[i].0.len() == 16 {
                assert(b[i].0[0] == b[j].0[0] && b[i].0[11] == b[j].0[11]);
            }
        }
    }
}

/// Every bundled palette is found by its own name: a theme saved by name is
/// the one the picker had highlighted when it is looked up again.
pub proof fn lemma_bundled_names_found(i: int)
    requires
        0 <= i < bundled().len(),
    ensures
        position_of(bundled()[i].0) == Some(i as usize),
{
    lemma_bundled_names_distinct();
    let name = bundled()[i].0;
    assert(forall|j: int| 0 <= j < i ==> bundled()[j].0 != name);
    let c = choose|c: int| 0 <= c < bundled().len() && bundled()[c].0 == name
        && forall|j: int| 0 <= j < c ==> bundled()[j].0 != name;
    if c < i { } else if c > i { }
}

} // verus!
