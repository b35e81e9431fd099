//! The style engine: colors, font decorators, and layered style records
//! resolved into ANSI attribute prefixes.
//!
//! Each field family (foreground, background, outline, font, cursor) is
//! resolved independently: an explicitly set hover / clicked / selected
//! layer takes precedence over the base layer, and an unset layer
//! contributes nothing.

use vstd::prelude::*;

verus! {

broadcast use vstd::std_specs::vec::group_vec_axioms, vstd::seq::group_seq_axioms;

/// The character for one decimal digit.
pub open spec fn digit_char(d: int) -> char {
    if d == 0 {
        '0'
    } else if d == 1 {
        '1'
    } else if d == 2 {
        '2'
    } else if d == 3 {
        '3'
    } else if d == 4 {
        '4'
    } else if d == 5 {
        '5'
    } else if d == 6 {
        '6'
    } else if d == 7 {
        '7'
    } else if d == 8 {
        '8'
    } else {
        '9'
    }
}

/// The decimal digits of `n`, most significant first, no leading zeros.
pub open spec fn dec_digits(n: int) -> Seq<char>
    decreases n,
{
    if n <= 9 {
        seq![digit_char(n)]
    } else {
        dec_digits(n / 10) + seq![digit_char(n % 10)]
    }
}

fn digit(d: u8) -> (r: char)
    requires
        d <= 9,
    ensures
        r == digit_char(d as int),
{
    match d {
        0 => '0',
        1 => '1',
        2 => '2',
        3 => '3',
        4 => '4',
        5 => '5',
        6 => '6',
        7 => '7',
        8 => '8',
        _ => '9',
    }
}

/// Appends the decimal digits of `n`.
fn push_dec(out: &mut String, n: u8)
    ensures
        final(out)@ == old(out)@ + dec_digits(n as int),
    decreases n,
{
    if n <= 9 {
        out.push(digit(n));
    } else {
        push_dec(out, n / 10);
        out.push(digit(n % 10));
    }
}

/// A color attribute: unset, one of the fixed named palette, or 24-bit RGB.
#[derive(Debug, Clone, Copy, PartialEq, Eq)]
pub enum Color {
    Unset,
    Rgb(u8, u8, u8),
    Black,
    Red,
    Green,
    Yellow,
    Blue,
    Magenta,
    Cyan,
    White,
}

/// The ANSI foreground sequence a color contributes (empty when unset).
pub open spec fn color_ansi_spec(c: Color) -> Seq<char> {
    match c {
        Color::Unset => Seq::empty(),
        Color::Rgb(r, g, b) => "\x1b[38;2;"@ + dec_digits(r as int) + ";"@ + dec_digits(g as int)
            + ";"@ + dec_digits(b as int) + "m"@,
        Color::Black => "\x1b[30m"@,
        Color::Red => "\x1b[31m"@,
        Color::Green => "\x1b[32m"@,
        Color::Yellow => "\x1b[33m"@,
        Color::Blue => "\x1b[34m"@,
        Color::Magenta => "\x1b[35m"@,
        Color::Cyan => "\x1b[36m"@,
        Color::White => "\x1b[37m"@,
    }
}

/// The ANSI background sequence a color contributes (empty when unset).
pub open spec fn color_ansi_bg_spec(c: Color) -> Seq<char> {
    match c {
        Color::Unset => Seq::empty(),
        Color::Rgb(r, g, b) => "\x1b[48;2;"@ + dec_digits(r as int) + ";"@ + dec_digits(g as int)
            + ";"@ + dec_digits(b as int) + "m"@,
        Color::Black => "\x1b[40m"@,
        Color::Red => "\x1b[41m"@,
        Color::Green => "\x1b[42m"@,
        Color::Yellow => "\x1b[43m"@,
        Color::Blue => "\x1b[44m"@,
        Color::Magenta => "\x1b[45m"@,
        Color::Cyan => "\x1b[46m"@,
        Color::White => "\x1b[47m"@,
    }
}

/// Which of two color layers is effective: the secondary (more specific)
/// layer when it is explicitly set, the primary otherwise.
pub open spec fn color_effective(primary: Color, secondary: Color) -> Color {
    if secondary is Unset {
        primary
    } else {
        secondary
    }
}

impl Color {
    /// The ANSI foreground sequence for this color.
    pub fn ansi(&self) -> (r: String)
        ensures
            r@ == color_ansi_spec(*self),
    {
        match self {
            Color::Unset => String::new(),
            Color::Rgb(cr, cg, cb) => {
                let mut s = String::from_str("\x1b[38;2;");
                push_dec(&mut s, *cr);
                s.append(";");
                push_dec(&mut s, *cg);
                s.append(";");
                push_dec(&mut s, *cb);
                s.append("m");
                s
            },
            Color::Black => String::from_str("\x1b[30m"),
            Color::Red => String::from_str("\x1b[31m"),
            Color::Green => String::from_str("\x1b[32m"),
            Color::Yellow => String::from_str("\x1b[33m"),
            Color::Blue => String::from_str("\x1b[34m"),
            Color::Magenta => String::from_str("\x1b[35m"),
            Color::Cyan => String::from_str("\x1b[36m"),
            Color::White => String::from_str("\x1b[37m"),
        }
    }

    /// The ANSI background sequence for this color.
    pub fn ansi_bg(&self) -> (r: String)
        ensures
            r@ == color_ansi_bg_spec(*self),
    {
        match self {
            Color::Unset => String::new(),
            Color::Rgb(cr, cg, cb) => {
                let mut s = String::from_str("\x1b[48;2;");
                push_dec(&mut s, *cr);
                s.append(";");
                push_dec(&mut s, *cg);
                s.append(";");
                push_dec(&mut s, *cb);
                s.append("m");
                s
            },
            Color::Black => String::from_str("\x1b[40m"),
            Color::Red => String::from_str("\x1b[41m"),
            Color::Green => String::from_str("\x1b[42m"),
            Color::Yellow => String::from_str("\x1b[43m"),
            Color::Blue => String::from_str("\x1b[44m"),
            Color::Magenta => String::from_str("\x1b[45m"),
            Color::Cyan => String::from_str("\x1b[46m"),
            Color::White => String::from_str("\x1b[47m"),
        }
    }

    /// Prefers the explicitly set secondary layer, falling back to `self`.
    pub fn prioritize<'a>(&'a self, secondary: &'a Color) -> (r: &'a Color)
        ensures
            *r == color_effective(*self, *secondary),
    {
        match secondary {
            Color::Unset => self,
            _ => secondary,
        }
    }
}

/// A font decorator: unset, a single decorator, or a composite that
/// concatenates the sequences of its members.
#[derive(Debug, PartialEq, Eq)]
pub enum Font {
    Unset,
    Bold,
    Underline,
    Italic,
    Reverse,
    Strike,
    Mul(Vec<Font>),
}

/// The ANSI sequence a font decorator contributes (empty when unset).
pub open spec fn font_ansi_spec(f: Font) -> Seq<char>
    decreases f,
{
    match f {
        Font::Unset => Seq::empty(),
        Font::Bold => "\x1b[1m"@,
        Font::Underline => "\x1b[4m"@,
        Font::Italic => "\x1b[3m"@,
        Font::Reverse => "\x1b[7m"@,
        Font::Strike => "\x1b[9m"@,
        Font::Mul(v) => font_seq_ansi_spec(v@),
    }
}

/// The concatenated sequences of a list of font decorators.
pub open spec fn font_seq_ansi_spec(v: Seq<Font>) -> Seq<char>
    decreases v,
{
    if v.len() == 0 {
        Seq::empty()
    } else {
        font_ansi_spec(v[0]) + font_seq_ansi_spec(v.skip(1))
    }
}

/// Which of two font layers is effective: the secondary (more specific)
/// layer when it is explicitly set, the primary otherwise.
pub open spec fn font_effective(primary: Font, secondary: Font) -> Font {
    if secondary is Unset {
        primary
    } else {
        secondary
    }
}

impl Font {
    /// The ANSI sequence for this decorator; a composite contributes its
    /// members' sequences in order.
    #[verifier::loop_isolation(false)]
    pub fn ansi(&self) -> (r: String)
        ensures
            r@ == font_ansi_spec(*self),
        decreases *self,
    {
        match self {
            Font::Unset => String::new(),
            Font::Bold => String::from_str("\x1b[1m"),
            Font::Underline => String::from_str("\x1b[4m"),
            Font::Italic => String::from_str("\x1b[3m"),
            Font::Reverse => String::from_str("\x1b[7m"),
            Font::Strike => String::from_str("\x1b[9m"),
            Font::Mul(v) => {
                let mut s = String::new();
                let mut i: usize = 0;
                proof {
                    assert(v@.skip(0) == v@);
                    assert(s@ + font_seq_ansi_spec(v@) =~= font_seq_ansi_spec(v@));
                }
                while i < v.len()
                    invariant
                        i <= v@.len(),
                        s@ + font_seq_ansi_spec(v@.skip(i as int)) == font_seq_ansi_spec(v@),
                    decreases v@.len() - i,
                {
                    let ghost s_old = s@;
                    proof {
                        assert(*self == Font::Mul(*v));
                        assert(decreases_to!(Font::Mul(*v) => *v));
                        assert(decreases_to!(*v => v@));
                        assert(decreases_to!(v@ => v@[i as int]));
                    }
                    let part = v[i].ansi();
                    s.append(part.as_str());
                    i += 1;
                    proof {
                        let rest = font_seq_ansi_spec(v@.skip(i as int));
                        assert(v@.skip(i - 1).skip(1) =~= v@.skip(i as int));
                        assert(v@.skip(i - 1)[0] == v@[i - 1]);
                        assert(font_seq_ansi_spec(v@.skip(i - 1)) == font_ansi_spec(v@[i - 1])
                            + rest);
                        assert((s_old + part@) + rest =~= s_old + (part@ + rest));
                    }
                }
                proof {
                    assert(v@.skip(v@.len() as int).len() == 0);
                    assert(s@ + font_seq_ansi_spec(v@.skip(v@.len() as int)) =~= s@);
                }
                s
            },
        }
    }

    /// Prefers the explicitly set secondary layer, falling back to `self`.
    pub fn prioritize<'a>(&'a self, secondary: &'a Font) -> (r: &'a Font)
        ensures
            *r == font_effective(*self, *secondary),
    {
        match secondary {
            Font::Unset => self,
            _ => secondary,
        }
    }

    /// An owned copy, composites included: it contributes the same ANSI
    /// sequence and is set exactly when the original is.
    #[verifier::loop_isolation(false)]
    pub fn duplicate(&self) -> (r: Font)
        ensures
            font_like(r, *self),
        decreases *self,
    {
        match self {
            Font::Unset => Font::Unset,
            Font::Bold => Font::Bold,
            Font::Underline => Font::Underline,
            Font::Italic => Font::Italic,
            Font::Reverse => Font::Reverse,
            Font::Strike => Font::Strike,
            Font::Mul(v) => {
                let mut out: Vec<Font> = Vec::new();
                let mut i: usize = 0;
                while i < v.len()
                    invariant
                        i <= v@.len(),
                        font_seq_ansi_spec(out@) == font_seq_ansi_spec(v@.take(i as int)),
                    decreases v@.len() - i,
                {
                    proof {
                        assert(*self == Font::Mul(*v));
                        assert(decreases_to!(Font::Mul(*v) => *v));
                        assert(decreases_to!(*v => v@));
                        assert(decreases_to!(v@ => v@[i as int]));
                    }
                    let ghost out_old = out@;
                    let part = v[i].duplicate();
                    out.push(part);
                    i += 1;
                    proof {
                        lemma_font_seq_snoc(out_old, part);
                        lemma_font_seq_snoc(v@.take(i - 1), v@[i - 1]);
                        assert(v@.take(i as int) =~= v@.take(i - 1).push(v@[i - 1]));
                    }
                }
                proof {
                    assert(v@.take(v@.len() as int) =~= v@);
                }
                Font::Mul(out)
            },
        }
    }
}

/// A widget's layered style record: a base layer, plus hover, clicked and
/// selected override layers, and a cursor color pair. Every field starts
/// unset and contributes nothing until it is set explicitly.
#[derive(Debug, PartialEq)]
pub struct Style {
    pub bg: Color,
    pub fg: Color,
    pub outline: Color,
    pub font: Font,
    pub hover_bg: Color,
    pub hover_fg: Color,
    pub hover_outline: Color,
    pub hover_font: Font,
    pub hover_cursor_fg: Color,
    pub hover_cursor_bg: Color,
    pub clicked_bg: Color,
    pub clicked_fg: Color,
    pub clicked_outline: Color,
    pub clicked_font: Font,
    pub selected_bg: Color,
    pub selected_fg: Color,
    pub selected_font: Font,
    pub cursor_fg: Color,
    pub cursor_bg: Color,
}

/// The style with every layer unset.
pub open spec fn default_style() -> Style {
    Style {
        bg: Color::Unset,
        fg: Color::Unset,
        outline: Color::Unset,
        font: Font::Unset,
        hover_bg: Color::Unset,
        hover_fg: Color::Unset,
        hover_outline: Color::Unset,
        hover_font: Font::Unset,
        hover_cursor_fg: Color::Unset,
        hover_cursor_bg: Color::Unset,
        clicked_bg: Color::Unset,
        clicked_fg: Color::Unset,
        clicked_outline: Color::Unset,
        clicked_font: Font::Unset,
        selected_bg: Color::Unset,
        selected_fg: Color::Unset,
        selected_font: Font::Unset,
        cursor_fg: Color::Unset,
        cursor_bg: Color::Unset,
    }
}

impl Default for Style {
    /// The style with every layer unset.
    fn default() -> (r: Style)
        ensures
            r == default_style(),
    {
        Style {
            bg: Color::Unset,
            fg: Color::Unset,
            outline: Color::Unset,
            font: Font::Unset,
            hover_bg: Color::Unset,
            hover_fg: Color::Unset,
            hover_outline: Color::Unset,
            hover_font: Font::Unset,
            hover_cursor_fg: Color::Unset,
            hover_cursor_bg: Color::Unset,
            clicked_bg: Color::Unset,
            clicked_fg: Color::Unset,
            clicked_outline: Color::Unset,
            clicked_font: Font::Unset,
            selected_bg: Color::Unset,
            selected_fg: Color::Unset,
            selected_font: Font::Unset,
            cursor_fg: Color::Unset,
            cursor_bg: Color::Unset,
        }
    }
}

/// The reset sequence appended after a styled text payload.
pub open spec fn reset_seq() -> Seq<char> {
    "\x1b[0m"@
}

/// The attribute prefix for the base layer, with the hover layer
/// substituted field-by-field when `active` holds.
pub open spec fn style_prefix_spec(s: Style, active: bool) -> Seq<char> {
    if active {
        color_ansi_spec(color_effective(s.fg, s.hover_fg)) + color_ansi_bg_spec(
            color_effective(s.bg, s.hover_bg),
        ) + font_ansi_spec(font_effective(s.font, s.hover_font))
    } else {
        color_ansi_spec(s.fg) + color_ansi_bg_spec(s.bg) + font_ansi_spec(s.font)
    }
}

/// The outline color's sequence, hover-resolved when `active` holds.
pub open spec fn style_outline_spec(s: Style, active: bool) -> Seq<char> {
    if active {
        color_ansi_spec(color_effective(s.outline, s.hover_outline))
    } else {
        color_ansi_spec(s.outline)
    }
}

/// The attribute prefix for the one-shot clicked layer.
pub open spec fn style_clicked_spec(s: Style) -> Seq<char> {
    color_ansi_spec(color_effective(s.fg, s.clicked_fg)) + color_ansi_bg_spec(
        color_effective(s.bg, s.clicked_bg),
    ) + font_ansi_spec(font_effective(s.font, s.clicked_font))
}

/// The attribute prefix for the list-selection layer.
pub open spec fn style_selected_spec(s: Style) -> Seq<char> {
    color_ansi_spec(color_effective(s.fg, s.selected_fg)) + color_ansi_bg_spec(
        color_effective(s.bg, s.selected_bg),
    ) + font_ansi_spec(font_effective(s.font, s.selected_font))
}

/// The cursor color pair's prefix, hover-resolved when `active` holds.
pub open spec fn style_cursor_spec(s: Style, active: bool) -> Seq<char> {
    if active {
        color_ansi_spec(color_effective(s.cursor_fg, s.hover_cursor_fg)) + color_ansi_bg_spec(
            color_effective(s.cursor_bg, s.hover_cursor_bg),
        )
    } else {
        color_ansi_spec(s.cursor_fg) + color_ansi_bg_spec(s.cursor_bg)
    }
}

proof fn lemma_font_seq_snoc(s: Seq<Font>, x: Font)
    ensures
        font_seq_ansi_spec(s.push(x)) == font_seq_ansi_spec(s) + font_ansi_spec(x),
    decreases s.len(),
{
    if s.len() == 0 {
        assert(s.push(x)[0] == x);
        assert(s.push(x).skip(1) =~= Seq::<Font>::empty());
        assert(font_seq_ansi_spec(Seq::<Font>::empty()) == Seq::<char>::empty());
        assert(font_ansi_spec(x) + Seq::<char>::empty() =~= font_ansi_spec(x));
        assert(Seq::<char>::empty() + font_ansi_spec(x) =~= font_ansi_spec(x));
        assert(font_seq_ansi_spec(s) + font_ansi_spec(x) =~= font_ansi_spec(x));
    } else {
        assert(s.push(x).skip(1) =~= s.skip(1).push(x));
        assert(s.push(x)[0] == s[0]);
        lemma_font_seq_snoc(s.skip(1), x);
        assert(font_ansi_spec(s[0]) + (font_seq_ansi_spec(s.skip(1)) + font_ansi_spec(x)) =~= (
        font_ansi_spec(s[0]) + font_seq_ansi_spec(s.skip(1))) + font_ansi_spec(x));
    }
}

/// Two font values that cannot be told apart: they contribute the same
/// ANSI sequence, and either both are explicitly set or neither is.
pub open spec fn font_like(a: Font, b: Font) -> bool {
    font_ansi_spec(a) == font_ansi_spec(b) && (a is Unset <==> b is Unset)
}

/// Two styles that cannot be told apart: every color field equal, every
/// font field indistinguishable.
pub open spec fn style_like(a: Style, b: Style) -> bool {
    &&& a.bg == b.bg
    &&& a.fg == b.fg
    &&& a.outline == b.outline
    &&& font_like(a.font, b.font)
    &&& a.hover_bg == b.hover_bg
    &&& a.hover_fg == b.hover_fg
    &&& a.hover_outline == b.hover_outline
    &&& font_like(a.hover_font, b.hover_font)
    &&& a.hover_cursor_fg == b.hover_cursor_fg
    &&& a.hover_cursor_bg == b.hover_cursor_bg
    &&& a.clicked_bg == b.clicked_bg
    &&& a.clicked_fg == b.clicked_fg
    &&& a.clicked_outline == b.clicked_outline
    &&& font_like(a.clicked_font, b.clicked_font)
    &&& a.selected_bg == b.selected_bg
    &&& a.selected_fg == b.selected_fg
    &&& font_like(a.selected_font, b.selected_font)
    &&& a.cursor_fg == b.cursor_fg
    &&& a.cursor_bg == b.cursor_bg
}

/// A style after class-derived values have been applied: each field the
/// widget set explicitly stands, and each field still unset takes the
/// class's value — class defaults never clobber per-instance overrides.
pub open spec fn merge_style_spec(own: Style, class: Style) -> Style {
    Style {
        bg: color_effective(class.bg, own.bg),
        fg: color_effective(class.fg, own.fg),
        outline: color_effective(class.outline, own.outline),
        font: font_effective(class.font, own.font),
        hover_bg: color_effective(class.hover_bg, own.hover_bg),
        hover_fg: color_effective(class.hover_fg, own.hover_fg),
        hover_outline: color_effective(class.hover_outline, own.hover_outline),
        hover_font: font_effective(class.hover_font, own.hover_font),
        hover_cursor_fg: color_effective(class.hover_cursor_fg, own.hover_cursor_fg),
        hover_cursor_bg: color_effective(class.hover_cursor_bg, own.hover_cursor_bg),
        clicked_bg: color_effective(class.clicked_bg, own.clicked_bg),
        clicked_fg: color_effective(class.clicked_fg, own.clicked_fg),
        clicked_outline: color_effective(class.clicked_outline, own.clicked_outline),
        clicked_font: font_effective(class.clicked_font, own.clicked_font),
        selected_bg: color_effective(class.selected_bg, own.selected_bg),
        selected_fg: color_effective(class.selected_fg, own.selected_fg),
        selected_font: font_effective(class.selected_font, own.selected_font),
        cursor_fg: color_effective(class.cursor_fg, own.cursor_fg),
        cursor_bg: color_effective(class.cursor_bg, own.cursor_bg),
    }
}

impl Style {
    /// Fills every field this style leaves unset with the class's value;
    /// explicitly set fields stand. The result is indistinguishable from
    /// the merge (composite fonts come back as fresh copies).
    pub fn merge(&self, class: &Style) -> (r: Style)
        ensures
            style_like(r, merge_style_spec(*self, *class)),
    {
        Style {
            bg: *class.bg.prioritize(&self.bg),
            fg: *class.fg.prioritize(&self.fg),
            outline: *class.outline.prioritize(&self.outline),
            font: class.font.prioritize(&self.font).duplicate(),
            hover_bg: *class.hover_bg.prioritize(&self.hover_bg),
            hover_fg: *class.hover_fg.prioritize(&self.hover_fg),
            hover_outline: *class.hover_outline.prioritize(&self.hover_outline),
            hover_font: class.hover_font.prioritize(&self.hover_font).duplicate(),
            hover_cursor_fg: *class.hover_cursor_fg.prioritize(&self.hover_cursor_fg),
            hover_cursor_bg: *class.hover_cursor_bg.prioritize(&self.hover_cursor_bg),
            clicked_bg: *class.clicked_bg.prioritize(&self.clicked_bg),
            clicked_fg: *class.clicked_fg.prioritize(&self.clicked_fg),
            clicked_outline: *class.clicked_outline.prioritize(&self.clicked_outline),
            clicked_font: class.clicked_font.prioritize(&self.clicked_font).duplicate(),
            selected_bg: *class.selected_bg.prioritize(&self.selected_bg),
            selected_fg: *class.selected_fg.prioritize(&self.selected_fg),
            selected_font: class.selected_font.prioritize(&self.selected_font).duplicate(),
            cursor_fg: *class.cursor_fg.prioritize(&self.cursor_fg),
            cursor_bg: *class.cursor_bg.prioritize(&self.cursor_bg),
        }
    }

    /// The base attribute prefix; `active` substitutes the hover layer for
    /// any field explicitly set there.
    pub fn get(&self, active: bool) -> (r: String)
        ensures
            r@ == style_prefix_spec(*self, active),
    {
        if active {
            let mut s = self.fg.prioritize(&self.hover_fg).ansi();
            let bg = self.bg.prioritize(&self.hover_bg).ansi_bg();
            s.append(bg.as_str());
            let font = self.font.prioritize(&self.hover_font).ansi();
            s.append(font.as_str());
            s
        } else {
            let mut s = self.fg.ansi();
            let bg = self.bg.ansi_bg();
            s.append(bg.as_str());
            let font = self.font.ansi();
            s.append(font.as_str());
            s
        }
    }

    /// The outline color's sequence, hover-resolved when `active` holds.
    pub fn get_outline(&self, active: bool) -> (r: String)
        ensures
            r@ == style_outline_spec(*self, active),
    {
        if active {
            self.outline.prioritize(&self.hover_outline).ansi()
        } else {
            self.outline.ansi()
        }
    }

    /// The attribute prefix for the one-shot clicked layer.
    pub fn get_clicked(&self) -> (r: String)
        ensures
            r@ == style_clicked_spec(*self),
    {
        let mut s = self.fg.prioritize(&self.clicked_fg).ansi();
        let bg = self.bg.prioritize(&self.clicked_bg).ansi_bg();
        s.append(bg.as_str());
        let font = self.font.prioritize(&self.clicked_font).ansi();
        s.append(font.as_str());
        s
    }

    /// The attribute prefix for the list-selection layer.
    pub fn get_selected(&self) -> (r: String)
        ensures
            r@ == style_selected_spec(*self),
    {
        let mut s = self.fg.prioritize(&self.selected_fg).ansi();
        let bg = self.bg.prioritize(&self.selected_bg).ansi_bg();
        s.append(bg.as_str());
        let font = self.font.prioritize(&self.selected_font).ansi();
        s.append(font.as_str());
        s
    }

    /// The cursor color pair's prefix, hover-resolved when `active` holds.
    pub fn get_cursor(&self, active: bool) -> (r: String)
        ensures
            r@ == style_cursor_spec(*self, active),
    {
        if active {
            let mut s = self.cursor_fg.prioritize(&self.hover_cursor_fg).ansi();
            let bg = self.cursor_bg.prioritize(&self.hover_cursor_bg).ansi_bg();
            s.append(bg.as_str());
            s
        } else {
            let mut s = self.cursor_fg.ansi();
            let bg = self.cursor_bg.ansi_bg();
            s.append(bg.as_str());
            s
        }
    }

    /// The text wrapped in the base (or hover) prefix and a reset.
    pub fn write(&self, s: &str, active: bool) -> (r: String)
        ensures
            r@ == style_prefix_spec(*self, active) + s@ + reset_seq(),
    {
        let mut out = self.get(active);
        out.append(s);
        out.append("\x1b[0m");
        out
    }

    /// The text wrapped in the outline prefix and a reset.
    pub fn write_outline(&self, s: &str, active: bool) -> (r: String)
        ensures
            r@ == style_outline_spec(*self, active) + s@ + reset_seq(),
    {
        let mut out = self.get_outline(active);
        out.append(s);
        out.append("\x1b[0m");
        out
    }

    /// The text wrapped in the clicked-layer prefix and a reset.
    pub fn write_clicked(&self, s: &str) -> (r: String)
        ensures
            r@ == style_clicked_spec(*self) + s@ + reset_seq(),
    {
        let mut out = self.get_clicked();
        out.append(s);
        out.append("\x1b[0m");
        out
    }

    /// The text wrapped in the selection-layer prefix and a reset.
    pub fn write_selected(&self, s: &str) -> (r: String)
        ensures
            r@ == style_selected_spec(*self) + s@ + reset_seq(),
    {
        let mut out = self.get_selected();
        out.append(s);
        out.append("\x1b[0m");
        out
    }

    /// The text wrapped in the cursor prefix and a reset.
    pub fn write_cursor(&self, s: &str, active: bool) -> (r: String)
        ensures
            r@ == style_cursor_spec(*self, active) + s@ + reset_seq(),
    {
        let mut out = self.get_cursor(active);
        out.append(s);
        out.append("\x1b[0m");
        out
    }
}

} // verus!
