//! Optional ANSI styling of report text, rendered by `anstyle`.

use vstd::prelude::*;

verus! {

/// The foreground colors the reports use.
#[derive(Debug, Clone, Copy, PartialEq, Eq, Structural)]
pub enum Tone {
    BrightBlack,
    BrightGreen,
    BrightYellow,
    BrightCyan,
}

/// A text style: an optional foreground color and the bold and dimmed effects.
#[derive(Debug, Clone, Copy, PartialEq, Eq, Structural)]
pub struct Paint {
    pub fg: Option<Tone>,
    pub bold: bool,
    pub dimmed: bool,
}

/// The escape sequence `ESC [ code m`.
pub open spec fn escape(code: Seq<char>) -> Seq<char> {
    seq!['\u{1b}', '['] + code + seq!['m']
}

/// The SGR code of a bright foreground color.
pub open spec fn tone_code(tone: Tone) -> Seq<char> {
    match tone {
        Tone::BrightBlack => seq!['9', '0'],
        Tone::BrightGreen => seq!['9', '2'],
        Tone::BrightYellow => seq!['9', '3'],
        Tone::BrightCyan => seq!['9', '6'],
    }
}

/// A style with no color and no effect.
pub open spec fn is_plain(paint: Paint) -> bool {
    paint.fg is None && !paint.bold && !paint.dimmed
}

/// What `anstyle` writes for a style (`{style}`): the effect codes in order
/// (bold `1`, dimmed `2`), then the foreground color code.
pub open spec fn style_prefix(paint: Paint) -> Seq<char> {
    (if paint.bold { escape(seq!['1']) } else { Seq::empty() })
    + (if paint.dimmed { escape(seq!['2']) } else { Seq::empty() })
    + match paint.fg {
        Some(tone) => escape(tone_code(tone)),
        None => Seq::empty(),
    }
}

/// What `anstyle` writes to undo a style (`{style:#}`): the reset code,
/// or nothing for a plain style.
pub open spec fn style_reset(paint: Paint) -> Seq<char> {
    if is_plain(paint) {
        Seq::empty()
    } else {
        escape(seq!['0'])
    }
}

/// Text wrapped in the codes of a style.
pub open spec fn styled(paint: Paint, text: Seq<char>) -> Seq<char> {
    style_prefix(paint) + text + style_reset(paint)
}

/// Renders `text` between a style and its reset with `anstyle`
/// (`format!("{style}{text}{style:#}")`). The claim is the byte layout that
/// anstyle 1.0's `Display` impls write: effect codes, color code, text, reset.
#[verifier::external_body]
fn render_styled(paint: Paint, text: &str) -> (out: String)
    ensures
        out@ == styled(paint, text@),
{
    let fg = match paint.fg {
        Some(Tone::BrightBlack) => Some(anstyle::AnsiColor::BrightBlack.into()),
        Some(Tone::BrightGreen) => Some(anstyle::AnsiColor::BrightGreen.into()),
        Some(Tone::BrightYellow) => Some(anstyle::AnsiColor::BrightYellow.into()),
        Some(Tone::BrightCyan) => Some(anstyle::AnsiColor::BrightCyan.into()),
        None => None,
    };
    let effects = anstyle::Effects::new().set(anstyle::Effects::BOLD, paint.bold).set(
        anstyle::Effects::DIMMED,
        paint.dimmed,
    );
    let style = anstyle::Style::new().fg_color(fg).effects(effects);
    format!("{style}{text}{style:#}")
}

/// The roles of text in reports, each with its style.
pub open spec fn header_paint() -> Paint {
    Paint { fg: Some(Tone::BrightCyan), bold: true, dimmed: false }
}

pub open spec fn dim_paint() -> Paint {
    Paint { fg: None, bold: false, dimmed: true }
}

pub open spec fn application_paint() -> Paint {
    Paint { fg: Some(Tone::BrightGreen), bold: true, dimmed: false }
}

pub open spec fn muted_paint() -> Paint {
    Paint { fg: Some(Tone::BrightBlack), bold: false, dimmed: false }
}

pub open spec fn title_paint() -> Paint {
    Paint { fg: Some(Tone::BrightYellow), bold: false, dimmed: false }
}

/// Styling switch for report output: with `ansi` off every role is plain text.
pub struct TextStyles {
    pub ansi: bool,
}

impl TextStyles {
    /// Text in the given style, or unchanged when ANSI output is off.
    pub open spec fn painted(self, paint: Paint, text: Seq<char>) -> Seq<char> {
        if self.ansi {
            styled(paint, text)
        } else {
            text
        }
    }

    pub fn new(ansi: bool) -> (styles: Self)
        ensures
            styles.ansi == ansi,
    {
        TextStyles { ansi }
    }

    fn paint(&self, text: &str, paint: Paint) -> (out: String)
        ensures
            out@ == self.painted(paint, text@),
    {
        if self.ansi {
            render_styled(paint, text)
        } else {
            text.to_owned()
        }
    }

    /// Bold bright cyan.
    pub fn header(&self, text: &str) -> (out: String)
        ensures
            out@ == self.painted(header_paint(), text@),
    {
        self.paint(text, Paint { fg: Some(Tone::BrightCyan), bold: true, dimmed: false })
    }

    /// Dimmed.
    pub fn time(&self, text: &str) -> (out: String)
        ensures
            out@ == self.painted(dim_paint(), text@),
    {
        self.paint(text, Paint { fg: None, bold: false, dimmed: true })
    }

    /// Bold bright green.
    pub fn application(&self, text: &str) -> (out: String)
        ensures
            out@ == self.painted(application_paint(), text@),
    {
        self.paint(text, Paint { fg: Some(Tone::BrightGreen), bold: true, dimmed: false })
    }

    /// Bright black.
    pub fn branch(&self, text: &str) -> (out: String)
        ensures
            out@ == self.painted(muted_paint(), text@),
    {
        self.paint(text, Paint { fg: Some(Tone::BrightBlack), bold: false, dimmed: false })
    }

    /// Bright yellow.
    pub fn title(&self, text: &str) -> (out: String)
        ensures
            out@ == self.painted(title_paint(), text@),
    {
        self.paint(text, Paint { fg: Some(Tone::BrightYellow), bold: false, dimmed: false })
    }

    /// Dimmed.
    pub fn duration(&self, text: &str) -> (out: String)
        ensures
            out@ == self.painted(dim_paint(), text@),
    {
        self.paint(text, Paint { fg: None, bold: false, dimmed: true })
    }

    /// Bright black.
    pub fn muted(&self, text: &str) -> (out: String)
        ensures
            out@ == self.painted(muted_paint(), text@),
    {
        self.paint(text, Paint { fg: Some(Tone::BrightBlack), bold: false, dimmed: false })
    }
}

} // verus!
