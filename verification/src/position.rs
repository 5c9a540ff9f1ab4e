//! Source coordinates.

use vstd::prelude::*;
use vstd::string::StringExecFns;
use crate::text::decimal;
use crate::text::push_decimal;

verus! {

/// What a [`Position`] stands for: a file name, a row and a column.
pub struct PositionView {
    pub file: Seq<char>,
    pub row: nat,
    pub column: nat,
}

impl PositionView {
    /// The rendering `file:row:column`.
    pub open spec fn text(self) -> Seq<char> {
        self.file + seq![':'] + decimal(self.row) + seq![':'] + decimal(self.column)
    }
}

/// A coordinate in a named source. Rows and columns count from 1; columns
/// count bytes.
#[derive(Debug)]
pub struct Position {
    row: usize,
    column: usize,
    file: String,
}

impl View for Position {
    type V = PositionView;

    closed spec fn view(&self) -> PositionView {
        PositionView { file: self.file@, row: self.row as nat, column: self.column as nat }
    }
}

impl Clone for Position {
    fn clone(&self) -> (r: Self)
        ensures
            r == *self,
    {
        Position { row: self.row, column: self.column, file: self.file.clone() }
    }
}

impl Position {
    /// The position `row`, `column` in the source named `file`.
    pub fn new(file: String, row: usize, column: usize) -> (p: Position)
        ensures
            p@ == (PositionView { file: file@, row: row as nat, column: column as nat }),
    {
        Position { file, row, column }
    }

    /// The name of the source.
    pub fn file(&self) -> (f: &str)
        ensures
            f@ == self@.file,
    {
        self.file.as_str()
    }

    /// The row, counted from 1.
    pub fn row(&self) -> (r: usize)
        ensures
            r == self@.row,
    {
        self.row
    }

    /// The column, counted from 1 in bytes.
    pub fn column(&self) -> (c: usize)
        ensures
            c == self@.column,
    {
        self.column
    }

    /// Appends `file:row:column` to `out`.
    pub fn write_to(&self, out: &mut String)
        ensures
            final(out)@ == old(out)@ + self@.text(),
    {
        proof {
            reveal_strlit(":");
        }
        out.append(self.file.as_str());
        out.append(":");
        push_decimal(out, self.row);
        out.append(":");
        push_decimal(out, self.column);
        assert(out@ =~= old(out)@ + self@.text());
    }

    /// The rendering `file:row:column`.
    pub fn to_string(&self) -> (s: String)
        ensures
            s@ == self@.text(),
    {
        let mut s = String::new();
        self.write_to(&mut s);
        assert(s@ =~= self@.text());
        s
    }
}

} // verus!
