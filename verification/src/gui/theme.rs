//! The colors and the fonts of the desktop client.

use crate::text;
use vstd::prelude::*;
use vstd::string::*;

verus! {

/// The red, green and blue parts of a color.
#[derive(Clone, Copy, Debug, PartialEq, Eq, Structural)]
pub struct Rgb {
    pub r: u8,
    pub g: u8,
    pub b: u8,
}

impl Rgb {
    /// The color that a number of the form `0xRRGGBB` stands for.
    pub open spec fn of(code: u32) -> Rgb {
        Rgb {
            r: (code / 0x1_0000 % 0x100) as u8,
            g: (code / 0x100 % 0x100) as u8,
            b: (code % 0x100) as u8,
        }
    }

    /// The color that a number of the form `0xRRGGBB` stands for.
    pub fn from_code(code: u32) -> (color: Rgb)
        ensures
            color == Rgb::of(code),
    {
        Rgb {
            r: (code / 0x1_0000 % 0x100) as u8,
            g: (code / 0x100 % 0x100) as u8,
            b: (code % 0x100) as u8,
        }
    }
}

/// The colors of the client, as `0xRRGGBB`.
pub struct DeepSeekColors;

impl DeepSeekColors {
    pub const BACKGROUND: u32 = 0x0d1117;

    pub const SURFACE: u32 = 0x161b22;

    pub const SURFACE_HOVER: u32 = 0x21262d;

    pub const BORDER: u32 = 0x21262d;

    pub const TEXT_PRIMARY: u32 = 0xc9d1d9;

    pub const TEXT_SECONDARY: u32 = 0x8b949e;

    pub const ACCENT: u32 = 0x58a6ff;

    pub const ACCENT_HOVER: u32 = 0x79b8ff;

    pub const USER_BUBBLE: u32 = 0x1f6feb;

    pub const ASSISTANT_BUBBLE: u32 = 0x21262d;

    pub const THINKING: u32 = 0x8b949e;

    pub const CODE_BG: u32 = 0x161b22;

    pub const SUCCESS: u32 = 0x3fb950;

    pub const WARNING: u32 = 0xd29922;

    pub const ERROR: u32 = 0xf85149;
}

/// White.
pub const WHITE: u32 = 0xffffff;

/// The uses for which a font file is looked for, in the order in which this is done.
#[derive(Clone, Copy, Debug, PartialEq, Eq, Structural)]
pub enum FontSlot {
    BundledUi,
    BundledCode,
    SystemUi,
    SystemCode,
    Cjk,
}

impl FontSlot {
    /// The files that can fill the slot; the first that can be read does.
    pub open spec fn files(self) -> Seq<Seq<char>> {
        match self {
            FontSlot::BundledUi => seq![
                "crates/gui/assets/fonts/InterVariable.ttf"@,
                "crates/gui/assets/fonts/Inter-Regular.ttf"@,
            ],
            FontSlot::BundledCode => seq![
                "crates/gui/assets/fonts/JetBrainsMonoNerdFont-Regular.ttf"@,
                "crates/gui/assets/fonts/JetBrainsMono-Regular.ttf"@,
                "crates/gui/assets/fonts/JetBrainsMono-Variable.ttf"@,
            ],
            FontSlot::SystemUi => seq![
                "C:\\Windows\\Fonts\\segoeui.ttf"@,
                "C:\\Windows\\Fonts\\segoeuisl.ttf"@,
                "C:\\Windows\\Fonts\\calibri.ttf"@,
            ],
            FontSlot::SystemCode => seq![
                "C:\\Windows\\Fonts\\consola.ttf"@,
                "C:\\Windows\\Fonts\\cour.ttf"@,
                "C:\\Windows\\Fonts\\lucon.ttf"@,
            ],
            FontSlot::Cjk => seq![
                "C:\\Windows\\Fonts\\msyh.ttc"@,
                "C:\\Windows\\Fonts\\simhei.ttf"@,
                "C:\\Windows\\Fonts\\simsun.ttc"@,
                "/System/Library/Fonts/PingFang.ttc"@,
                "/System/Library/Fonts/STHeiti Light.ttc"@,
                "/Library/Fonts/Arial Unicode.ttf"@,
                "/usr/share/fonts/truetype/wqy/wqy-zenhei.ttc"@,
                "/usr/share/fonts/truetype/wqy/wqy-microhei.ttc"@,
                "/usr/share/fonts/opentype/noto/NotoSansCJK-Regular.ttc"@,
            ],
        }
    }

    /// The files that can fill the slot.
    pub fn candidates(self) -> (r: Vec<&'static str>)
        ensures
            r@.map_values(|s: &'static str| s@) == self.files(),
    {
        let r: Vec<&'static str> = match self {
            FontSlot::BundledUi => vec![
                "crates/gui/assets/fonts/InterVariable.ttf",
                "crates/gui/assets/fonts/Inter-Regular.ttf",
            ],
            FontSlot::BundledCode => vec![
                "crates/gui/assets/fonts/JetBrainsMonoNerdFont-Regular.ttf",
                "crates/gui/assets/fonts/JetBrainsMono-Regular.ttf",
                "crates/gui/assets/fonts/JetBrainsMono-Variable.ttf",
            ],
            FontSlot::SystemUi => vec![
                "C:\\Windows\\Fonts\\segoeui.ttf",
                "C:\\Windows\\Fonts\\segoeuisl.ttf",
                "C:\\Windows\\Fonts\\calibri.ttf",
            ],
            FontSlot::SystemCode => vec![
                "C:\\Windows\\Fonts\\consola.ttf",
                "C:\\Windows\\Fonts\\cour.ttf",
                "C:\\Windows\\Fonts\\lucon.ttf",
            ],
            FontSlot::Cjk => vec![
                "C:\\Windows\\Fonts\\msyh.ttc",
                "C:\\Windows\\Fonts\\simhei.ttf",
                "C:\\Windows\\Fonts\\simsun.ttc",
                "/System/Library/Fonts/PingFang.ttc",
                "/System/Library/Fonts/STHeiti Light.ttc",
                "/Library/Fonts/Arial Unicode.ttf",
                "/usr/share/fonts/truetype/wqy/wqy-zenhei.ttc",
                "/usr/share/fonts/truetype/wqy/wqy-microhei.ttc",
                "/usr/share/fonts/opentype/noto/NotoSansCJK-Regular.ttc",
            ],
        };
        assert(r@.map_values(|s: &'static str| s@) =~= self.files());
        r
    }

    /// The name under which a font file in this slot is known: a fixed name for a bundled font,
    /// and a prefix with the name of the file for a font of the system.
    pub open spec fn name_of(self, path: Seq<char>) -> Seq<char> {
        match self {
            FontSlot::BundledUi => "inter"@,
            FontSlot::BundledCode => "jetbrains_mono"@,
            FontSlot::SystemUi => "ui_"@ + text::after_last(path, '\\'),
            FontSlot::SystemCode => "code_"@ + text::after_last(path, '\\'),
            FontSlot::Cjk => "cjk_"@ + (if path.contains('/') {
                text::after_last(path, '/')
            } else {
                text::after_last(path, '\\')
            }),
        }
    }

    /// The name under which a font file in this slot is known.
    pub fn font_name(self, path: &str) -> (r: String)
        ensures
            r@ == self.name_of(path@),
    {
        match self {
            FontSlot::BundledUi => "inter".to_string(),
            FontSlot::BundledCode => "jetbrains_mono".to_string(),
            FontSlot::SystemUi => prefixed("ui_", text::tail_after_last(path, '\\')),
            FontSlot::SystemCode => prefixed("code_", text::tail_after_last(path, '\\')),
            FontSlot::Cjk => {
                if text::has_char(path, '/') {
                    prefixed("cjk_", text::tail_after_last(path, '/'))
                } else {
                    prefixed("cjk_", text::tail_after_last(path, '\\'))
                }
            },
        }
    }
}

fn prefixed(prefix: &str, rest: &str) -> (r: String)
    ensures
        r@ == prefix@ + rest@,
{
    let mut out: String = prefix.to_string();
    out.append(rest);
    out
}

/// The slots, in the order in which they are filled.
pub fn font_slots() -> (r: Vec<FontSlot>)
    ensures
        r@ == seq![
            FontSlot::BundledUi,
            FontSlot::BundledCode,
            FontSlot::SystemUi,
            FontSlot::SystemCode,
            FontSlot::Cjk,
        ],
{
    vec![
        FontSlot::BundledUi,
        FontSlot::BundledCode,
        FontSlot::SystemUi,
        FontSlot::SystemCode,
        FontSlot::Cjk,
    ]
}

/// The fonts of the two families, by name, in the order in which they are tried.
#[derive(Debug)]
pub struct FontFamilies {
    pub proportional: Vec<String>,
    pub monospace: Vec<String>,
}

/// The value of [`FontFamilies`].
pub struct FontFamiliesView {
    pub proportional: Seq<Seq<char>>,
    pub monospace: Seq<Seq<char>>,
}

impl View for FontFamilies {
    type V = FontFamiliesView;

    open spec fn view(&self) -> FontFamiliesView {
        FontFamiliesView {
            proportional: text::texts(self.proportional@),
            monospace: text::texts(self.monospace@),
        }
    }
}

impl FontFamiliesView {
    /// The families after a font was found for a slot. The bundled fonts come first in their own
    /// family, the fonts of the system last; the bundled code font is a last resort for text too,
    /// and the CJK font for both families.
    pub open spec fn with_font(self, slot: FontSlot, name: Seq<char>) -> FontFamiliesView {
        match slot {
            FontSlot::BundledUi => FontFamiliesView {
                proportional: seq![name] + self.proportional,
                ..self
            },
            FontSlot::BundledCode => FontFamiliesView {
                proportional: self.proportional.push(name),
                monospace: seq![name] + self.monospace,
            },
            FontSlot::SystemUi => FontFamiliesView {
                proportional: self.proportional.push(name),
                ..self
            },
            FontSlot::SystemCode => FontFamiliesView {
                monospace: self.monospace.push(name),
                ..self
            },
            FontSlot::Cjk => FontFamiliesView {
                proportional: self.proportional.push(name),
                monospace: self.monospace.push(name),
            },
        }
    }
}

/// Which of the files of a slot is taken: the first that can be read.
pub fn first_readable(readable: &Vec<bool>) -> (r: Option<usize>)
    ensures
        match r {
            Some(k) => k < readable@.len() && readable@[k as int] && forall|j: int|
                0 <= j < k ==> !#[trigger] readable@[j],
            None => forall|j: int| 0 <= j < readable@.len() ==> !#[trigger] readable@[j],
        },
{
    let mut k: usize = 0;
    while k < readable.len()
        invariant
            k <= readable@.len(),
            forall|j: int| 0 <= j < k ==> !#[trigger] readable@[j],
        decreases readable@.len() - k,
    {
        if readable[k] {
            return Some(k);
        }
        k += 1;
    }
    None
}

fn put_first(list: &mut Vec<String>, name: &str)
    ensures
        text::texts(final(list)@) == seq![name@] + text::texts(old(list)@),
{
    list.insert(0, name.to_string());
    assert(text::texts(list@) =~= seq![name@] + text::texts(old(list)@));
}

fn put_last(list: &mut Vec<String>, name: &str)
    ensures
        text::texts(final(list)@) == text::texts(old(list)@).push(name@),
{
    list.push(name.to_string());
    assert(text::texts(list@) =~= text::texts(old(list)@).push(name@));
}

impl FontFamilies {
    /// Adds the font in the file `path`, which was found for a slot, and gives its name.
    pub fn add_font(&mut self, slot: FontSlot, path: &str) -> (name: String)
        ensures
            name@ == slot.name_of(path@),
            final(self)@ == old(self)@.with_font(slot, slot.name_of(path@)),
    {
        let name: String = slot.font_name(path);
        match slot {
            FontSlot::BundledUi => put_first(&mut self.proportional, name.as_str()),
            FontSlot::BundledCode => {
                put_first(&mut self.monospace, name.as_str());
                put_last(&mut self.proportional, name.as_str());
            },
            FontSlot::SystemUi => put_last(&mut self.proportional, name.as_str()),
            FontSlot::SystemCode => put_last(&mut self.monospace, name.as_str()),
            FontSlot::Cjk => {
                put_last(&mut self.proportional, name.as_str());
                put_last(&mut self.monospace, name.as_str());
            },
        }
        name
    }
}

/// A found font never takes another out of a family: whatever was in a family stays in it.
pub proof fn fonts_are_kept(families: FontFamiliesView, slot: FontSlot, name: Seq<char>, old_name:
    Seq<char>)
    ensures
        families.proportional.contains(old_name) ==> families.with_font(
            slot,
            name,
        ).proportional.contains(old_name),
        families.monospace.contains(old_name) ==> families.with_font(slot, name).monospace.contains(
            old_name,
        ),
{
    let after = families.with_font(slot, name);
    if families.proportional.contains(old_name) {
        let k = choose|k: int|
            0 <= k < families.proportional.len() && families.proportional[k] == old_name;
        if slot == FontSlot::BundledUi {
            assert(after.proportional[k + 1] == old_name);
        } else {
            assert(after.proportional[k] == old_name);
        }
    }
    if families.monospace.contains(old_name) {
        let k = choose|k: int| 0 <= k < families.monospace.len() && families.monospace[k] == old_name;
        if slot == FontSlot::BundledCode {
            assert(after.monospace[k + 1] == old_name);
        } else {
            assert(after.monospace[k] == old_name);
        }
    }
}

/// The parts of a color, put side by side, are its number.
pub proof fn colors_are_made_of_their_parts(code: u32)
    requires
        code <= 0xff_ffff,
    ensures
        Rgb::of(code).r * 0x1_0000 + Rgb::of(code).g * 0x100 + Rgb::of(code).b == code,
{
}

/// A bundled font comes first in its family and any other font last. The bundled font for text and
/// that of the system for code each join one family only; the bundled code font is the last one for
/// text too, and a CJK font the last one of both.
pub proof fn fonts_stand_in_their_place(families: FontFamiliesView, slot: FontSlot, name: Seq<char>)
    ensures
        ({
            let after = families.with_font(slot, name);
            let more = after.proportional.len() - families.proportional.len();
            let more_code = after.monospace.len() - families.monospace.len();
            &&& slot == FontSlot::BundledUi ==> after.proportional[0] == name && more == 1
                && more_code == 0
            &&& slot == FontSlot::BundledCode ==> after.monospace[0] == name
                && after.proportional.last() == name && more == 1 && more_code == 1
            &&& slot == FontSlot::SystemUi ==> after.proportional.last() == name && more == 1
                && more_code == 0
            &&& slot == FontSlot::SystemCode ==> after.monospace.last() == name && more == 0
                && more_code == 1
            &&& slot == FontSlot::Cjk ==> after.proportional.last() == name
                && after.monospace.last() == name && more == 1 && more_code == 1
        }),
{
}

/// A font of the system is known by the name of its file, behind a word for its use; a bundled font
/// has a fixed name.
pub proof fn fonts_are_named_after_their_file(folder: Seq<char>, file: Seq<char>)
    requires
        !file.contains('/'),
        !file.contains('\\'),
    ensures
        FontSlot::SystemUi.name_of(folder.push('\\') + file) == "ui_"@ + file,
        FontSlot::SystemCode.name_of(folder.push('\\') + file) == "code_"@ + file,
        FontSlot::Cjk.name_of(folder.push('/') + file) == "cjk_"@ + file,
        !folder.contains('/') ==> FontSlot::Cjk.name_of(folder.push('\\') + file) == "cjk_"@ + file,
        FontSlot::BundledUi.name_of(folder) == "inter"@,
        FontSlot::BundledCode.name_of(folder) == "jetbrains_mono"@,
{
    text::the_last_part_follows_the_separator(folder, '\\', file);
    text::the_last_part_follows_the_separator(folder, '/', file);
    let slashed = folder.push('/') + file;
    assert(slashed[folder.len() as int] == '/');
    let other = folder.push('\\') + file;
    if !folder.contains('/') && other.contains('/') {
        let k = choose|k: int| 0 <= k < other.len() && other[k] == '/';
        if k < folder.len() {
            assert(folder[k] == '/');
        } else if k > folder.len() {
            assert(file[k - folder.len() - 1] == '/');
        }
    }
}

} // verus!
