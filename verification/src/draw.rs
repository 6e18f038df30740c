use vstd::prelude::*;

verus! {

/// Width of the drawing area.
pub const TV_XRES: i32 = 256;

/// Height of the drawing area.
pub const TV_YRES: i32 = 224;

/// One step of what an entity wants on screen, in terms of text.
#[derive(Clone, Debug, PartialEq, Eq)]
pub enum TextOp {
    /// Fill the drawing area with black.
    Clear,
    /// Set the line height to the glyph height times `numerator / denominator`.
    LineSpacing { numerator: i32, denominator: i32 },
    /// Move the cursor, and the start of its line, to a position.
    Position { x: i32, y: i32 },
    /// Move the cursor to the line of a player slot: the left edge, a
    /// quarter of a line below the top of the slot's bar.
    Slot(usize),
    /// Tint the glyphs that follow.
    Color(u8, u8, u8),
    /// Print a text at the cursor and leave the cursor behind it.
    Print(String),
    /// Print a text at the cursor and move the cursor to the start of the next line.
    Println(String),
    /// Fill the bar of a player slot with the slot's colour.
    Bar(usize),
}

/// A text step as contracts see it.
pub enum TextOpView {
    Clear,
    LineSpacing { numerator: i32, denominator: i32 },
    Position { x: i32, y: i32 },
    Slot(usize),
    Color(u8, u8, u8),
    Print(Seq<char>),
    Println(Seq<char>),
    Bar(usize),
}

impl View for TextOp {
    type V = TextOpView;

    open spec fn view(&self) -> TextOpView {
        match *self {
            TextOp::Clear => TextOpView::Clear,
            TextOp::LineSpacing { numerator, denominator } => TextOpView::LineSpacing {
                numerator,
                denominator,
            },
            TextOp::Position { x, y } => TextOpView::Position { x, y },
            TextOp::Slot(slot) => TextOpView::Slot(slot),
            TextOp::Color(r, g, b) => TextOpView::Color(r, g, b),
            TextOp::Print(text) => TextOpView::Print(text@),
            TextOp::Println(text) => TextOpView::Println(text@),
            TextOp::Bar(slot) => TextOpView::Bar(slot),
        }
    }
}

/// The steps of a script as contracts see them.
pub open spec fn script_view(ops: Seq<TextOp>) -> Seq<TextOpView> {
    Seq::new(ops.len(), |i: int| ops[i]@)
}

/// One step of what is drawn, in terms of the font's glyphs.
#[derive(Clone, Copy, Debug, PartialEq, Eq, Structural)]
pub enum DrawOp {
    /// Fill the drawing area with black.
    Clear,
    /// Tint the glyphs that follow.
    Color(u8, u8, u8),
    /// Copy the glyph at position `index` of the font to where its top left corner is `(x, y)`.
    Glyph { index: usize, x: i32, y: i32 },
    /// Fill the rectangle of full width with top `y` and the given height with the colour of `slot`.
    Bar { slot: usize, y: i32, height: i32 },
}

/// A bitmap font without its bitmap: which characters it has, how large
/// they are, and where the next one goes.
#[derive(Clone, Debug)]
pub struct Font {
    pub chars: Vec<char>,
    pub w: i32,
    pub h: i32,
    pub x: i32,
    pub y: i32,
    pub line_start: i32,
    pub line_height: i32,
}

/// Position of the first occurrence of `c` in `chars`, if it occurs.
pub open spec fn glyph_index(chars: Seq<char>, c: char) -> Option<int> {
    if chars.contains(c) {
        Some(chars.index_of_first(c).unwrap())
    } else {
        None
    }
}

/// What printing the characters of `text` from position `from` on draws, and
/// where it leaves the cursor, when the cursor stands at `(x, y)`. A
/// character of the font is drawn and moves the cursor one glyph to the
/// right; a line feed moves it to where printing began, one line lower;
/// any other character is passed over. Positions wrap around at the ends
/// of their range.
pub open spec fn placed(font: Font, text: Seq<char>, from: int, x: i32, y: i32) -> (
    Seq<DrawOp>,
    i32,
    i32,
)
    decreases text.len() - from,
{
    if from < 0 || from >= text.len() {
        (Seq::empty(), x, y)
    } else {
        match glyph_index(font.chars@, text[from]) {
            Some(index) => {
                let rest = placed(font, text, from + 1, x.wrapping_add(font.w), y);
                (seq![DrawOp::Glyph { index: index as usize, x, y }] + rest.0, rest.1, rest.2)
            },
            None => if text[from] == '\n' {
                placed(font, text, from + 1, font.x, font.y.wrapping_add(font.line_height))
            } else {
                placed(font, text, from + 1, x, y)
            },
        }
    }
}

/// The font after printing `text`.
pub open spec fn after_print(font: Font, text: Seq<char>) -> Font {
    let end = placed(font, text, 0, font.x, font.y);
    Font { x: end.1, y: end.2, ..font }
}

/// The font after printing `text` and moving to the next line.
pub open spec fn after_println(font: Font, text: Seq<char>) -> Font {
    let end = placed(font, text, 0, font.x, font.y);
    Font { x: font.line_start, y: end.2.wrapping_add(font.line_height), ..font }
}

/// The line height for glyphs of height `h` spaced by `numerator /
/// denominator`, rounded towards zero and capped at the largest height.
pub open spec fn spaced(h: i32, numerator: i32, denominator: i32) -> i32 {
    if denominator <= 0 || numerator < 0 || h < 0 {
        h
    } else if (h as int * numerator as int) / (denominator as int) > i32::MAX {
        i32::MAX
    } else {
        ((h as int * numerator as int) / (denominator as int)) as i32
    }
}

/// The top of the text line of player slot `slot`.
pub open spec fn slot_line(font: Font, slot: usize) -> i32 {
    font.line_height.wrapping_mul(slot as i32).wrapping_add(
        if font.line_height >= 0 {
            (font.line_height as int / 4) as i32
        } else {
            0i32
        },
    )
}

/// The font after one step of a script.
pub open spec fn stepped(font: Font, op: TextOpView) -> Font {
    match op {
        TextOpView::LineSpacing { numerator, denominator } => Font {
            line_height: spaced(font.h, numerator, denominator),
            ..font
        },
        TextOpView::Position { x, y } => Font { x, y, line_start: x, ..font },
        TextOpView::Slot(slot) => Font { x: 0, y: slot_line(font, slot), line_start: 0, ..font },
        TextOpView::Print(text) => after_print(font, text),
        TextOpView::Println(text) => after_println(font, text),
        _ => font,
    }
}

/// What one step of a script draws.
pub open spec fn drawn(font: Font, op: TextOpView) -> Seq<DrawOp> {
    match op {
        TextOpView::Clear => seq![DrawOp::Clear],
        TextOpView::Color(r, g, b) => seq![DrawOp::Color(r, g, b)],
        TextOpView::Print(text) => placed(font, text, 0, font.x, font.y).0,
        TextOpView::Println(text) => placed(font, text, 0, font.x, font.y).0,
        TextOpView::Bar(slot) => seq![
            DrawOp::Bar {
                slot,
                y: font.line_height.wrapping_mul(slot as i32),
                height: font.line_height,
            },
        ],
        _ => Seq::empty(),
    }
}

/// What the steps of a script from position `from` on draw, one after the other.
pub open spec fn typeset_from(font: Font, ops: Seq<TextOpView>, from: int) -> Seq<DrawOp>
    decreases ops.len() - from,
{
    if from < 0 || from >= ops.len() {
        Seq::empty()
    } else {
        drawn(font, ops[from]) + typeset_from(stepped(font, ops[from]), ops, from + 1)
    }
}

/// The font after the steps of a script from position `from` on.
pub open spec fn font_after(font: Font, ops: Seq<TextOpView>, from: int) -> Font
    decreases ops.len() - from,
{
    if from < 0 || from >= ops.len() {
        font
    } else {
        font_after(stepped(font, ops[from]), ops, from + 1)
    }
}

impl Font {
    /// A font for a bitmap of the given size that holds the characters of
    /// `string_chars` side by side. A font without characters has glyphs of no width.
    pub fn new(width: u32, height: u32, string_chars: &str) -> (r: Font)
        ensures
            r.chars@ == string_chars@,
            r.x == 0 && r.y == 0 && r.line_start == 0,
            r.h == r.line_height,
            height <= i32::MAX ==> r.h == height,
            height > i32::MAX ==> r.h == i32::MAX,
            r.w == (if string_chars@.len() == 0 || string_chars@.len() > i32::MAX {
                0
            } else if width > i32::MAX {
                i32::MAX as int / string_chars@.len() as int
            } else {
                width as int / string_chars@.len() as int
            }),
    {
        let n = string_chars.unicode_len();
        let mut chars: Vec<char> = Vec::new();
        let mut i: usize = 0;
        while i < n
            invariant
                i <= n,
                n == string_chars@.len(),
                chars@ == string_chars@.subrange(0, i as int),
            decreases n - i,
        {
            chars.push(string_chars.get_char(i));
            assert(chars@ =~= string_chars@.subrange(0, i + 1));
            i += 1;
        }
        assert(chars@ =~= string_chars@);
        let total: i32 = if width > i32::MAX as u32 {
            i32::MAX
        } else {
            width as i32
        };
        let w: i32 = if n == 0 || n > i32::MAX as usize {
            0
        } else {
            total / (n as i32)
        };
        let h: i32 = if height > i32::MAX as u32 {
            i32::MAX
        } else {
            height as i32
        };
        Font { chars, w, h, x: 0, y: 0, line_start: 0, line_height: h }
    }

    pub fn set_pos(&mut self, x: i32, y: i32)
        ensures
            *final(self) == stepped(*old(self), TextOpView::Position { x, y }),
    {
        self.x = x;
        self.y = y;
        self.line_start = x;
    }

    /// Sets the line height to the glyph height times `numerator / denominator`.
    pub fn set_line_spacing(&mut self, numerator: i32, denominator: i32)
        ensures
            *final(self) == stepped(*old(self), TextOpView::LineSpacing { numerator, denominator }),
    {
        if denominator > 0 && numerator >= 0 && self.h >= 0 {
            assert(0 <= self.h as int * numerator as int <= 0x7fff_ffff * 0x7fff_ffff)
                by (nonlinear_arith)
                requires
                    0 <= self.h <= 0x7fff_ffff,
                    0 <= numerator <= 0x7fff_ffff,
            ;
            let product: i64 = self.h as i64 * numerator as i64;
            let scaled: i64 = product / (denominator as i64);
            assert(0 <= scaled) by (nonlinear_arith)
                requires
                    scaled == product / (denominator as i64),
                    product >= 0,
                    denominator > 0,
            ;
            self.line_height = if scaled > i32::MAX as i64 {
                i32::MAX
            } else {
                scaled as i32
            };
        } else {
            self.line_height = self.h;
        }
    }

    fn find_glyph(&self, c: char) -> (r: Option<usize>)
        ensures
            r is Some == glyph_index(self.chars@, c) is Some,
            r is Some ==> r.unwrap() == glyph_index(self.chars@, c).unwrap(),
    {
        let mut i: usize = 0;
        while i < self.chars.len()
            invariant
                i <= self.chars@.len(),
                forall|j: int| 0 <= j < i ==> self.chars@[j] != c,
            decreases self.chars@.len() - i,
        {
            if self.chars[i] == c {
                proof {
                    let first = self.chars@.index_of_first(c);
                    self.chars@.index_of_first_ensures(c);
                    assert(self.chars@.contains(c));
                    assert(first.unwrap() == i);
                }
                return Some(i);
            }
            i += 1;
        }
        assert(!self.chars@.contains(c));
        None
    }

    fn place(&self, text: &str, out: &mut Vec<DrawOp>) -> (r: (i32, i32))
        ensures
            final(out)@ == old(out)@ + placed(*self, text@, 0, self.x, self.y).0,
            r.0 == placed(*self, text@, 0, self.x, self.y).1,
            r.1 == placed(*self, text@, 0, self.x, self.y).2,
    {
        let n = text.unicode_len();
        let mut x = self.x;
        let mut y = self.y;
        let mut i: usize = 0;
        assert(out@ + placed(*self, text@, 0, x, y).0 =~= old(out)@ + placed(
            *self,
            text@,
            0,
            self.x,
            self.y,
        ).0);
        while i < n
            invariant
                i <= n,
                n == text@.len(),
                out@ + placed(*self, text@, i as int, x, y).0 == old(out)@ + placed(
                    *self,
                    text@,
                    0,
                    self.x,
                    self.y,
                ).0,
                placed(*self, text@, i as int, x, y).1 == placed(*self, text@, 0, self.x, self.y).1,
                placed(*self, text@, i as int, x, y).2 == placed(*self, text@, 0, self.x, self.y).2,
            decreases n - i,
        {
            let c = text.get_char(i);
            let ghost before = out@;
            match self.find_glyph(c) {
                Some(index) => {
                    out.push(DrawOp::Glyph { index, x, y });
                    proof {
                        let rest = placed(*self, text@, i + 1, x.wrapping_add(self.w), y);
                        assert((before + seq![DrawOp::Glyph { index, x, y }]) + rest.0 =~= before + (
                        seq![DrawOp::Glyph { index, x, y }] + rest.0));
                        assert(before.push(DrawOp::Glyph { index, x, y }) =~= before
                            + seq![DrawOp::Glyph { index, x, y }]);
                    }
                    x = x.wrapping_add(self.w);
                },
                None => {
                    if c == '\n' {
                        x = self.x;
                        y = self.y.wrapping_add(self.line_height);
                    }
                },
            }
            i += 1;
        }
        assert(out@ + Seq::<DrawOp>::empty() =~= out@);
        (x, y)
    }

    /// Prints `text` at the cursor: what is drawn joins `out`, and the
    /// cursor is left behind the text.
    pub fn print(&mut self, text: &str, out: &mut Vec<DrawOp>)
        ensures
            final(out)@ == old(out)@ + drawn(*old(self), TextOpView::Print(text@)),
            *final(self) == stepped(*old(self), TextOpView::Print(text@)),
    {
        let (x, y) = self.place(text, out);
        self.x = x;
        self.y = y;
    }

    /// Prints `text` at the cursor and moves the cursor to the start of the next line.
    pub fn println(&mut self, text: &str, out: &mut Vec<DrawOp>)
        ensures
            final(out)@ == old(out)@ + drawn(*old(self), TextOpView::Println(text@)),
            *final(self) == stepped(*old(self), TextOpView::Println(text@)),
    {
        let (_, y) = self.place(text, out);
        self.x = self.line_start;
        self.y = y.wrapping_add(self.line_height);
    }

    /// Carries out one step of a script.
    pub fn step(&mut self, op: &TextOp, out: &mut Vec<DrawOp>)
        ensures
            final(out)@ == old(out)@ + drawn(*old(self), op@),
            *final(self) == stepped(*old(self), op@),
    {
        match op {
            TextOp::Clear => {
                out.push(DrawOp::Clear);
            },
            TextOp::LineSpacing { numerator, denominator } => {
                self.set_line_spacing(*numerator, *denominator);
            },
            TextOp::Position { x, y } => {
                self.set_pos(*x, *y);
            },
            TextOp::Slot(slot) => {
                let quarter: i32 = if self.line_height >= 0 {
                    self.line_height / 4
                } else {
                    0
                };
                self.y = self.line_height.wrapping_mul(*slot as i32).wrapping_add(quarter);
                self.x = 0;
                self.line_start = 0;
            },
            TextOp::Color(r, g, b) => {
                out.push(DrawOp::Color(*r, *g, *b));
            },
            TextOp::Print(text) => {
                self.print(text.as_str(), out);
            },
            TextOp::Println(text) => {
                self.println(text.as_str(), out);
            },
            TextOp::Bar(slot) => {
                out.push(
                    DrawOp::Bar {
                        slot: *slot,
                        y: self.line_height.wrapping_mul(*slot as i32),
                        height: self.line_height,
                    },
                );
            },
        }
        assert(final(out)@ =~= old(out)@ + drawn(*old(self), op@));
    }

    /// Carries out a script: what it draws, in order, with the font left
    /// as the script leaves it.
    pub fn typeset(&mut self, ops: &Vec<TextOp>) -> (r: Vec<DrawOp>)
        ensures
            r@ == typeset_from(*old(self), script_view(ops@), 0),
            *final(self) == font_after(*old(self), script_view(ops@), 0),
    {
        let mut out: Vec<DrawOp> = Vec::new();
        let mut i: usize = 0;
        let ghost script = script_view(ops@);
        assert(out@ + typeset_from(*self, script, 0) =~= typeset_from(*self, script, 0));
        while i < ops.len()
            invariant
                i <= ops@.len(),
                script == script_view(ops@),
                out@ + typeset_from(*self, script, i as int) == typeset_from(*old(self), script, 0),
                font_after(*self, script, i as int) == font_after(*old(self), script, 0),
            decreases ops@.len() - i,
        {
            let ghost before = out@;
            let ghost font = *self;
            self.step(&ops[i], &mut out);
            proof {
                let here = drawn(font, script[i as int]);
                let rest = typeset_from(stepped(font, script[i as int]), script, i + 1);
                assert((before + here) + rest =~= before + (here + rest));
            }
            i += 1;
        }
        assert(out@ + Seq::<DrawOp>::empty() =~= out@);
        out
    }
}

} // verus!
