//! Elements: the spatial things placed on a page (text, images, shapes).
use vstd::prelude::*;

use crate::scalar::Real;
use vstd::string::StringSliceAdditionalSpecFns;

verus! {

/// Element ids are readable strings such as `el3`.
pub type ElementId = String;

/// The encoding of 28, the default font size.
pub const DEFAULT_FONT_SIZE_BITS: u64 = 0x403C_0000_0000_0000;

/// The spatial description of an element. When it appears is said by the
/// timeline, never by the element.
#[derive(Clone, Debug)]
pub struct Element {
    pub id: ElementId,
    pub kind: ElementKind,
    pub x: Real,
    pub y: Real,
    pub w: Real,
    pub h: Real,
    /// Layer: larger is drawn later, i.e. on top.
    pub z: i32,
    pub style: ElementStyle,
    /// Whether the element starts hidden when a recording starts.
    pub hidden_by_default: bool,
}

#[derive(Clone, Debug)]
pub enum ElementKind {
    Text { text: String },
    Image { asset: String },
    /// Reserved: kept in the data, not rendered.
    Shape { shape: ShapeKind },
}

#[derive(Clone, Copy, Debug, PartialEq, Eq, Structural)]
pub enum ShapeKind {
    Rect,
    Ellipse,
    Arrow,
}

#[derive(Clone, Copy, Debug, PartialEq, Eq, Structural)]
pub enum TextAlign {
    Left,
    Center,
    Right,
}

impl Default for TextAlign {
    fn default() -> (r: Self)
        ensures
            r == TextAlign::Left,
    {
        TextAlign::Left
    }
}

/// Colours are `#RRGGBB` strings so that the model needs no UI types.
#[derive(Clone, Debug)]
pub struct ElementStyle {
    pub color: String,
    pub font_size: Real,
    pub bold: bool,
    pub align: TextAlign,
    /// Background colour; `None` is transparent.
    pub background: Option<String>,
}

impl Default for ElementStyle {
    fn default() -> (r: Self)
        ensures
            r.color@ == "#1f2933"@,
            r.font_size.bits == DEFAULT_FONT_SIZE_BITS,
            !r.bold,
            r.align == TextAlign::Left,
            r.background.is_none(),
    {
        ElementStyle {
            color: "#1f2933".to_owned(),
            font_size: Real::from_bits(DEFAULT_FONT_SIZE_BITS),
            bold: false,
            align: TextAlign::Left,
            background: None,
        }
    }
}

impl Element {
    /// A default-styled element that starts hidden.
    pub open spec fn fresh(self, id: Seq<char>, x: Real, y: Real, w: Real, h: Real) -> bool {
        &&& self.id@ == id
        &&& self.x == x
        &&& self.y == y
        &&& self.w == w
        &&& self.h == h
        &&& self.z == 0
        &&& self.style.color@ == "#1f2933"@
        &&& self.style.font_size.bits == DEFAULT_FONT_SIZE_BITS
        &&& !self.style.bold
        &&& self.style.align == TextAlign::Left
        &&& self.style.background.is_none()
        &&& self.hidden_by_default
    }

    /// A text element.
    pub fn text(id: &str, x: Real, y: Real, w: Real, h: Real, text: &str) -> (r: Self)
        ensures
            r.fresh(id@, x, y, w, h),
            r.kind matches ElementKind::Text { text: t } && t@ == text@,
    {
        Element {
            id: id.to_owned(),
            kind: ElementKind::Text { text: text.to_owned() },
            x,
            y,
            w,
            h,
            z: 0,
            style: ElementStyle::default(),
            hidden_by_default: true,
        }
    }

    /// An image element showing the asset `asset`.
    pub fn image(id: &str, x: Real, y: Real, w: Real, h: Real, asset: &str) -> (r: Self)
        ensures
            r.fresh(id@, x, y, w, h),
            r.kind matches ElementKind::Image { asset: a } && a@ == asset@,
    {
        Element {
            id: id.to_owned(),
            kind: ElementKind::Image { asset: asset.to_owned() },
            x,
            y,
            w,
            h,
            z: 0,
            style: ElementStyle::default(),
            hidden_by_default: true,
        }
    }

    /// The text of a text element.
    pub fn text_content(&self) -> (r: Option<&str>)
        ensures
            match self.kind {
                ElementKind::Text { text } => r matches Some(s) && s@ == text@,
                _ => r.is_none(),
            },
    {
        match &self.kind {
            ElementKind::Text { text } => Some(text.as_str()),
            _ => None,
        }
    }

    /// The asset name of an image element.
    pub fn asset_name(&self) -> (r: Option<&str>)
        ensures
            match self.kind {
                ElementKind::Image { asset } => r matches Some(s) && s@ == asset@,
                _ => r.is_none(),
            },
    {
        match &self.kind {
            ElementKind::Image { asset } => Some(asset.as_str()),
            _ => None,
        }
    }

    /// Replaces the text of a text element; other elements are left alone.
    pub fn set_text(&mut self, new_text: &str)
        ensures
            final(self).id == old(self).id,
            final(self).x == old(self).x,
            final(self).y == old(self).y,
            final(self).w == old(self).w,
            final(self).h == old(self).h,
            final(self).z == old(self).z,
            final(self).hidden_by_default == old(self).hidden_by_default,
            final(self).style == old(self).style,
            match old(self).kind {
                ElementKind::Text { .. } => final(self).kind matches ElementKind::Text { text }
                    && text@ == new_text@,
                _ => final(self).kind == old(self).kind,
            },
    {
        if let ElementKind::Text { text } = &mut self.kind {
            *text = new_text.to_owned();
        }
    }

    /// The rectangle `(x, y, w, h)`.
    pub fn rect(&self) -> (r: (Real, Real, Real, Real))
        ensures
            r == (self.x, self.y, self.w, self.h),
    {
        (self.x, self.y, self.w, self.h)
    }

    /// Normalises the size: width and height are raised to at least the
    /// given minimums.
    pub fn clamp_size(&mut self, min_w: Real, min_h: Real)
        ensures
            final(self).w == old(self).w.spec_max(min_w),
            final(self).h == old(self).h.spec_max(min_h),
            final(self).id == old(self).id,
            final(self).kind == old(self).kind,
            final(self).x == old(self).x,
            final(self).y == old(self).y,
            final(self).z == old(self).z,
            final(self).hidden_by_default == old(self).hidden_by_default,
    {
        self.w = self.w.max(min_w);
        self.h = self.h.max(min_h);
    }
}

/// The value of one hex digit (`0`-`9`, `a`-`f`, `A`-`F`).
pub open spec fn hex_digit(b: u8) -> Option<u8> {
    if 0x30 <= b <= 0x39 {
        Some((b - 0x30) as u8)
    } else if 0x61 <= b <= 0x66 {
        Some((b - 0x61 + 10) as u8)
    } else if 0x41 <= b <= 0x46 {
        Some((b - 0x41 + 10) as u8)
    } else {
        None
    }
}

/// The value of a field of one or two hex digits (any other byte makes
/// the field invalid).
pub open spec fn hex_field(f: Seq<u8>) -> Option<u8> {
    if f.len() == 1 {
        hex_digit(f[0])
    } else if f.len() == 2 {
        match (hex_digit(f[0]), hex_digit(f[1])) {
            (Some(a), Some(b)) => Some((16 * a + b) as u8),
            _ => None,
        }
    } else {
        None
    }
}

/// Whether byte offset `j` of `h` starts a character (or is its end).
pub open spec fn char_boundary(h: Seq<u8>, j: int) -> bool {
    j == 0 || j == h.len() || (0 <= j < h.len() && !(0x80 <= h[j] <= 0xbf))
}

/// The outcome of reading the field `h[i..i + n]`: `None` when the slice
/// would not fall on character boundaries (slicing a `str` there panics),
/// otherwise the parsed field.
pub open spec fn field_outcome(h: Seq<u8>, i: int, n: int) -> Option<Option<u8>> {
    if char_boundary(h, i) && char_boundary(h, i + n) {
        Some(hex_field(h.subrange(i, i + n)))
    } else {
        None
    }
}

/// Reads the fields in order, stopping at the first that is not hex.
/// `None` means a slice fell inside a character; otherwise the list of
/// parsed fields, or `None` inside when one did not parse.
pub open spec fn fields_outcome(h: Seq<u8>, starts: Seq<int>, n: int) -> Option<Option<Seq<u8>>>
    decreases starts.len(),
{
    if starts.len() == 0 {
        Some(Some(Seq::empty()))
    } else {
        match field_outcome(h, starts[0], n) {
            None => None,
            Some(None) => Some(None),
            Some(Some(v)) => match fields_outcome(h, starts.drop_first(), n) {
                None => None,
                Some(None) => Some(None),
                Some(Some(rest)) => Some(Some(seq![v] + rest)),
            },
        }
    }
}

/// What reading a `#RGB` / `#RRGGBB` / `#AARRGGBB` colour gives: `None` when
/// the reading would slice inside a character (and so panic), else its
/// result.
pub open spec fn hex_color_outcome(bytes: Seq<u8>) -> Option<Option<(u8, u8, u8, u8)>> {
    if bytes.len() == 0 || bytes[0] != 0x23 {
        Some(None)
    } else {
        let h = bytes.drop_first();
        if h.len() == 3 {
            match fields_outcome(h, seq![0int, 1, 2], 1) {
                None => None,
                Some(None) => Some(None),
                Some(Some(v)) => Some(Some(((v[0] * 17) as u8, (v[1] * 17) as u8, (v[2] * 17) as u8, 255u8))),
            }
        } else if h.len() == 6 {
            match fields_outcome(h, seq![0int, 2, 4], 2) {
                None => None,
                Some(None) => Some(None),
                Some(Some(v)) => Some(Some((v[0], v[1], v[2], 255u8))),
            }
        } else if h.len() == 8 {
            match fields_outcome(h, seq![2int, 4, 6, 0], 2) {
                None => None,
                Some(None) => Some(None),
                Some(Some(v)) => Some(Some((v[0], v[1], v[2], v[3]))),
            }
        } else {
            Some(None)
        }
    }
}

fn hex_digit_exec(b: u8) -> (r: Option<u8>)
    ensures
        r == hex_digit(b),
{
    if 0x30 <= b && b <= 0x39 {
        Some(b - 0x30)
    } else if 0x61 <= b && b <= 0x66 {
        Some(b - 0x61 + 10)
    } else if 0x41 <= b && b <= 0x46 {
        Some(b - 0x41 + 10)
    } else {
        None
    }
}

/// Reads the field of `n` bytes at offset `i` of `h` (after the `#`).
fn read_field(h: &[u8], i: usize, n: usize) -> (r: Option<u8>)
    requires
        n == 1 || n == 2,
        i + n <= h@.len(),
    ensures
        r == hex_field(h@.subrange(i as int, i + n)),
{
    if n == 1 {
        hex_digit_exec(h[i])
    } else {
        match (hex_digit_exec(h[i]), hex_digit_exec(h[i + 1])) {
            (Some(a), Some(b)) => Some(16 * a + b),
            _ => None,
        }
    }
}

/// Whether offset `j` of the text after the `#` (byte `j + 1` of `bytes`)
/// falls on a character boundary.
fn boundary_at(bytes: &[u8], j: usize) -> (r: bool)
    requires
        1 <= bytes@.len(),
        j + 1 <= bytes@.len(),
    ensures
        r == char_boundary(bytes@.drop_first(), j as int),
{
    let n = bytes.len() - 1;
    if j == 0 || j == n {
        true
    } else {
        !(0x80 <= bytes[j + 1] && bytes[j + 1] <= 0xbf)
    }
}

/// The outcome of the field at offset `i` (after the `#`), `n` bytes long:
/// `None` where slicing would fall inside a character.
fn field_checked(bytes: &[u8], i: usize, n: usize) -> (r: Option<Option<u8>>)
    requires
        n == 1 || n == 2,
        1 <= bytes@.len(),
        i + n + 1 <= bytes.len(),
    ensures
        r == field_outcome(bytes@.drop_first(), i as int, n as int),
{
    if boundary_at(bytes, i) && boundary_at(bytes, i + n) {
        proof {
            assert(bytes@.drop_first().subrange(i as int, i + n) =~= bytes@.subrange(i + 1, i + n + 1));
        }
        Some(read_field(bytes, i + 1, n))
    } else {
        None
    }
}

/// What reading a colour does on `s`: `None` where the reading would slice
/// inside a character, `Some(None)` for text that is not a colour, and
/// `Some(Some(rgba))` for a colour (see [`hex_color_outcome`]).
pub fn hex_color_checked(s: &str) -> (r: Option<Option<(u8, u8, u8, u8)>>)
    ensures
        r == hex_color_outcome(s.spec_bytes()),
{
    let bytes = s.as_bytes();
    if bytes.len() == 0 || bytes[0] != 0x23 {
        return Some(None);
    }
    let ghost h = bytes@.drop_first();
    if bytes.len() == 4 {
        proof {
            reveal_with_fuel(fields_outcome, 4);
            assert(seq![0int, 1, 2].drop_first() =~= seq![1int, 2]);
            assert(seq![1int, 2].drop_first() =~= seq![2int]);
            assert(seq![2int].drop_first() =~= Seq::<int>::empty());
        }
        let r0 = match field_checked(bytes, 0, 1) {
            Some(Some(v)) => v,
            Some(None) => return Some(None),
            None => return None,
        };
        let r1 = match field_checked(bytes, 1, 1) {
            Some(Some(v)) => v,
            Some(None) => return Some(None),
            None => return None,
        };
        let r2 = match field_checked(bytes, 2, 1) {
            Some(Some(v)) => v,
            Some(None) => return Some(None),
            None => return None,
        };
        Some(Some((r0 * 17, r1 * 17, r2 * 17, 255)))
    } else if bytes.len() == 7 {
        proof {
            reveal_with_fuel(fields_outcome, 4);
            assert(seq![0int, 2, 4].drop_first() =~= seq![2int, 4]);
            assert(seq![2int, 4].drop_first() =~= seq![4int]);
            assert(seq![4int].drop_first() =~= Seq::<int>::empty());
        }
        let r0 = match field_checked(bytes, 0, 2) {
            Some(Some(v)) => v,
            Some(None) => return Some(None),
            None => return None,
        };
        let r1 = match field_checked(bytes, 2, 2) {
            Some(Some(v)) => v,
            Some(None) => return Some(None),
            None => return None,
        };
        let r2 = match field_checked(bytes, 4, 2) {
            Some(Some(v)) => v,
            Some(None) => return Some(None),
            None => return None,
        };
        Some(Some((r0, r1, r2, 255)))
    } else if bytes.len() == 9 {
        proof {
            reveal_with_fuel(fields_outcome, 5);
            assert(seq![2int, 4, 6, 0].drop_first() =~= seq![4int, 6, 0]);
            assert(seq![4int, 6, 0].drop_first() =~= seq![6int, 0]);
            assert(seq![6int, 0].drop_first() =~= seq![0int]);
            assert(seq![0int].drop_first() =~= Seq::<int>::empty());
        }
        let r = match field_checked(bytes, 2, 2) {
            Some(Some(v)) => v,
            Some(None) => return Some(None),
            None => return None,
        };
        let g = match field_checked(bytes, 4, 2) {
            Some(Some(v)) => v,
            Some(None) => return Some(None),
            None => return None,
        };
        let b = match field_checked(bytes, 6, 2) {
            Some(Some(v)) => v,
            Some(None) => return Some(None),
            None => return None,
        };
        let a = match field_checked(bytes, 0, 2) {
            Some(Some(v)) => v,
            Some(None) => return Some(None),
            None => return None,
        };
        Some(Some((r, g, b, a)))
    } else {
        Some(None)
    }
}

/// Parses `#RRGGBB` / `#AARRGGBB` / `#RGB` into `(r, g, b, a)`.
///
/// `#RGB` widens each digit (`#abc` is `#aabbcc`); the alpha of the six and
/// three digit forms is 255. Text whose reading would slice inside a
/// character (see [`hex_color_checked`]) is outside its domain.
pub fn parse_hex_color(s: &str) -> (r: Option<(u8, u8, u8, u8)>)
    requires
        hex_color_outcome(s.spec_bytes()) is Some,
    ensures
        hex_color_outcome(s.spec_bytes()) == Some(r),
{
    match hex_color_checked(s) {
        Some(r) => r,
        None => None,
    }
}

} // verus!
