use vstd::prelude::*;
use vstd::string::*;

verus! {

/// Width of the selection marker and of one indentation step.
pub const INDENT_STEP: u16 = 2;

/// `n` spaces.
pub open spec fn spaces(n: int) -> Seq<char> {
    Seq::new(n as nat, |i: int| ' ')
}

/// `s` padded with spaces on the right to width `w`; never cut.
pub open spec fn pad_right(s: Seq<char>, w: int) -> Seq<char> {
    if s.len() >= w {
        s
    } else {
        s + spaces(w - s.len())
    }
}

/// `s` padded with spaces on the left to width `w`; never cut.
pub open spec fn pad_left(s: Seq<char>, w: int) -> Seq<char> {
    if s.len() >= w {
        s
    } else {
        spaces(w - s.len()) + s
    }
}

fn push_spaces(out: &mut String, n: usize)
    ensures
        final(out)@ == old(out)@ + spaces(n as int),
{
    let ghost start = out@;
    let mut i: usize = 0;
    while i < n
        invariant
            i <= n,
            out@ == start + spaces(i as int),
        decreases n - i,
    {
        proof {
            reveal_strlit(" ");
        }
        out.append(" ");
        assert(out@ =~= start + spaces(i as int + 1));
        i += 1;
    }
}

/// Layout state of a two-column table drawn row by row: where the next row
/// goes, the column widths and the current indentation.
pub struct TablePrinter {
    x: u16,
    y: u16,
    width: usize,
    key_width: usize,
    value_width: usize,
    indent: u16,
}

impl TablePrinter {
    /// Column of the table's left edge.
    pub closed spec fn spec_x(&self) -> u16 {
        self.x
    }

    /// Line of the next row.
    pub closed spec fn spec_y(&self) -> u16 {
        self.y
    }

    /// Width of a whole row.
    pub closed spec fn spec_width(&self) -> usize {
        self.width
    }

    /// Width of the key column, indentation included.
    pub closed spec fn spec_key_width(&self) -> usize {
        self.key_width
    }

    /// Width of the value column.
    pub closed spec fn spec_value_width(&self) -> usize {
        self.value_width
    }

    /// Current indentation.
    pub closed spec fn spec_indent(&self) -> u16 {
        self.indent
    }

    /// Column of the table's left edge.
    pub fn x(&self) -> (r: u16)
        ensures
            r == self.spec_x(),
    {
        self.x
    }

    /// Line of the next row.
    pub fn y(&self) -> (r: u16)
        ensures
            r == self.spec_y(),
    {
        self.y
    }

    /// Width of a whole row.
    pub fn width(&self) -> (r: usize)
        ensures
            r == self.spec_width(),
    {
        self.width
    }

    /// Width of the key column, indentation included.
    pub fn key_width(&self) -> (r: usize)
        ensures
            r == self.spec_key_width(),
    {
        self.key_width
    }

    /// Width of the value column.
    pub fn value_width(&self) -> (r: usize)
        ensures
            r == self.spec_value_width(),
    {
        self.value_width
    }

    /// Current indentation.
    pub fn indentation(&self) -> (r: u16)
        ensures
            r == self.spec_indent(),
    {
        self.indent
    }

    /// Moves on to the next row, leaving the current one as it is.
    pub fn blank(&mut self)
        requires
            old(self).spec_y() < u16::MAX,
        ensures
            final(self).spec_y() == old(self).spec_y() + 1,
            final(self).spec_x() == old(self).spec_x(),
            final(self).spec_width() == old(self).spec_width(),
            final(self).spec_key_width() == old(self).spec_key_width(),
            final(self).spec_value_width() == old(self).spec_value_width(),
            final(self).spec_indent() == old(self).spec_indent(),
    {
        self.y = self.y + 1;
    }

    /// Indents the following rows by one step.
    pub fn indent(&mut self)
        requires
            old(self).spec_indent() + INDENT_STEP <= u16::MAX,
        ensures
            final(self).spec_indent() == old(self).spec_indent() + INDENT_STEP,
            final(self).spec_x() == old(self).spec_x(),
            final(self).spec_y() == old(self).spec_y(),
            final(self).spec_width() == old(self).spec_width(),
            final(self).spec_key_width() == old(self).spec_key_width(),
            final(self).spec_value_width() == old(self).spec_value_width(),
    {
        self.indent = self.indent + INDENT_STEP;
    }

    /// Takes back one step of indentation.
    pub fn unindent(&mut self)
        requires
            old(self).spec_indent() >= INDENT_STEP,
        ensures
            final(self).spec_indent() == old(self).spec_indent() - INDENT_STEP,
            final(self).spec_x() == old(self).spec_x(),
            final(self).spec_y() == old(self).spec_y(),
            final(self).spec_width() == old(self).spec_width(),
            final(self).spec_key_width() == old(self).spec_key_width(),
            final(self).spec_value_width() == old(self).spec_value_width(),
    {
        self.indent = self.indent - INDENT_STEP;
    }

    /// The text of one row: the indentation less the marker's width, the
    /// marker, the key left-aligned in what is left of the key column, the
    /// value right-aligned in the value column, and spaces to the full width.
    pub fn format(&self, key: &str, value: &str, symbol: &str) -> (r: String)
        requires
            symbol@.len() <= self.spec_indent(),
            self.spec_indent() <= self.spec_key_width(),
            self.spec_key_width() + self.spec_value_width() <= self.spec_width(),
        ensures
            r@ == spaces(self.spec_indent() - symbol@.len()) + symbol@ + pad_right(
                key@,
                self.spec_key_width() - self.spec_indent(),
            ) + pad_left(value@, self.spec_value_width() as int) + spaces(
                self.spec_width() - self.spec_key_width() - self.spec_value_width(),
            ),
    {
        let mut out = String::new();
        push_spaces(&mut out, self.indent as usize - symbol.unicode_len());
        out.append(symbol);
        out.append(key);
        let key_room = self.key_width - self.indent as usize;
        let key_len = key.unicode_len();
        if key_len < key_room {
            push_spaces(&mut out, key_room - key_len);
        }
        let value_len = value.unicode_len();
        if value_len < self.value_width {
            push_spaces(&mut out, self.value_width - value_len);
        }
        out.append(value);
        push_spaces(&mut out, self.width - self.key_width - self.value_width);
        let ghost k = pad_right(key@, self.key_width - self.indent);
        let ghost v = pad_left(value@, self.value_width as int);
        assert(out@ =~= spaces(self.indent - symbol@.len()) + symbol@ + k + v + spaces(
            self.width - self.key_width - self.value_width,
        ));
        out
    }
}

/// Settings for a `TablePrinter`, each with a default.
pub struct TablePrinterBuilder {
    x: u16,
    y: u16,
    width: usize,
    key_width: usize,
    value_width: usize,
}

impl TablePrinterBuilder {
    /// Settings so far: left edge, first line, row width, key column width,
    /// value column width.
    pub closed spec fn settings(&self) -> (u16, u16, usize, usize, usize) {
        (self.x, self.y, self.width, self.key_width, self.value_width)
    }

    /// Default settings: at the origin, rows 10 wide, columns of 5 and 5.
    pub fn new() -> (r: Self)
        ensures
            r.settings() == (0u16, 0u16, 10usize, 5usize, 5usize),
    {
        TablePrinterBuilder { x: 0, y: 0, width: 10, key_width: 5, value_width: 5 }
    }

    /// A printer with these settings and no indentation.
    pub fn build(self) -> (r: TablePrinter)
        ensures
            (r.spec_x(), r.spec_y(), r.spec_width(), r.spec_key_width(), r.spec_value_width())
                == self.settings(),
            r.spec_indent() == 0,
    {
        TablePrinter {
            x: self.x,
            y: self.y,
            width: self.width,
            key_width: self.key_width,
            value_width: self.value_width,
            indent: 0,
        }
    }

    /// Sets the left edge.
    pub fn x(self, x: u16) -> (r: Self)
        ensures
            r.settings() == (x, self.settings().1, self.settings().2, self.settings().3, self.settings().4),
    {
        TablePrinterBuilder { x, ..self }
    }

    /// Sets the first line.
    pub fn y(self, y: u16) -> (r: Self)
        ensures
            r.settings() == (self.settings().0, y, self.settings().2, self.settings().3, self.settings().4),
    {
        TablePrinterBuilder { y, ..self }
    }

    /// Sets the row width.
    pub fn width(self, width: usize) -> (r: Self)
        ensures
            r.settings() == (self.settings().0, self.settings().1, width, self.settings().3, self.settings().4),
    {
        TablePrinterBuilder { width, ..self }
    }

    /// Sets the key column width.
    pub fn key_width(self, key_width: usize) -> (r: Self)
        ensures
            r.settings() == (self.settings().0, self.settings().1, self.settings().2, key_width, self.settings().4),
    {
        TablePrinterBuilder { key_width, ..self }
    }

    /// Sets the value column width.
    pub fn value_width(self, value_width: usize) -> (r: Self)
        ensures
            r.settings() == (self.settings().0, self.settings().1, self.settings().2, self.settings().3, value_width),
    {
        TablePrinterBuilder { value_width, ..self }
    }
}

} // verus!
