//! The table: a header of column labels over a body of text cells, and the
//! resolution of cell pointers and ranges against it.
use vstd::prelude::*;
use crate::csv::exprs::cell_value;
use crate::csv::exprs::eval;
use crate::csv::exprs::BinaryOp;
use crate::error::CsvError;
use crate::error::ErrorView;
use crate::number::NumberModel;
use crate::number::Numbers;
use crate::number::Relation;
use crate::text::join;
use crate::text::join_texts;
use crate::text::lines;
use crate::text::numeral;
use crate::text::parse_numeral;
use crate::text::spells;
use crate::text::split;
use crate::text::split_lines;
use crate::text::split_text;
use crate::text::texts;
use crate::text::to_chars;
use crate::text::Separator;

pub mod exprs;
pub mod funcs;
pub mod laws;

verus! {

/// A table as mathematics: the labels of its columns, and its rows of cells.
pub struct Table {
    pub header: Seq<Seq<char>>,
    pub body: Seq<Seq<Seq<char>>>,
}

/// The rows of a body, each as the texts of its cells.
pub open spec fn rows(body: Seq<Vec<String>>) -> Seq<Seq<Seq<char>>> {
    body.map_values(|row: Vec<String>| texts(row@))
}

/// What follows the column letter of a cell pointer.
pub open spec fn row_text(pointer: Seq<char>) -> Seq<char> {
    if pointer.len() > 0 {
        pointer.skip(1)
    } else {
        pointer
    }
}

/// The column and the row of each end of a range: `(x_start, x_end, y_start, y_end)`.
pub type Corners = (int, int, int, int);

impl Table {
    /// The index of the column that `pointer` names: the first column whose
    /// label is the pointer's first character.
    pub open spec fn column(self, pointer: Seq<char>) -> Result<int, ErrorView> {
        let found = if pointer.len() > 0 {
            self.header.index_of_first(pointer.take(1))
        } else {
            None
        };
        match found {
            Some(x) => Ok(x),
            None => Err(ErrorView::CellPError("Column index out of bounds..."@)),
        }
    }

    /// The index of the row that `pointer` names. Rows are counted from 1 in
    /// a pointer and from 0 in the body.
    pub open spec fn row(self, pointer: Seq<char>) -> Result<int, ErrorView> {
        match numeral(row_text(pointer)) {
            Some(n) if n <= usize::MAX => if 1 <= n <= self.body.len() {
                Ok(n - 1)
            } else {
                Err(ErrorView::CellPError("Row index out of bounds..."@))
            },
            _ => Err(ErrorView::CellPError("Incorrect row index specifier..."@)),
        }
    }

    /// Whether row `y` has a cell in column `x`.
    pub open spec fn has_cell(self, x: int, y: int) -> bool {
        0 <= y < self.body.len() && 0 <= x < self.body[y].len()
    }

    /// The text of the cell that `pointer` names.
    pub open spec fn cell(self, pointer: Seq<char>) -> Result<Seq<char>, ErrorView> {
        match self.column(pointer) {
            Err(e) => Err(e),
            Ok(x) => match self.row(pointer) {
                Err(e) => Err(e),
                Ok(y) => if self.has_cell(x, y) {
                    Ok(self.body[y][x])
                } else {
                    Err(ErrorView::CellPError("Column index out of bounds..."@))
                },
            },
        }
    }

    /// The coordinates of the two ends of a range. The columns are resolved
    /// before the rows, the start before the end.
    pub open spec fn corners(self, start: Seq<char>, end: Seq<char>) -> Result<Corners, ErrorView> {
        match self.column(start) {
            Err(e) => Err(e),
            Ok(x_start) => match self.column(end) {
                Err(e) => Err(e),
                Ok(x_end) => match self.row(start) {
                    Err(e) => Err(e),
                    Ok(y_start) => match self.row(end) {
                        Err(e) => Err(e),
                        Ok(y_end) => Ok((x_start, x_end, y_start, y_end)),
                    },
                },
            },
        }
    }

    /// The cells of column `x` between row `y_start` and row `y_end`, both
    /// included, in the order of the rows, whichever of the two comes first.
    pub open spec fn column_span(self, x: int, y_start: int, y_end: int) -> Result<
        Seq<Seq<char>>,
        ErrorView,
    > {
        let first = vstd::math::min(y_start, y_end);
        let last = vstd::math::max(y_start, y_end);
        if forall|y: int| first <= y <= last ==> #[trigger] self.has_cell(x, y) {
            Ok(Seq::new((last - first + 1) as nat, |k: int| self.body[first + k][x]))
        } else {
            Err(ErrorView::CellPError("Column index out of bounds..."@))
        }
    }

    /// The cells of row `y` between column `x_start` and column `x_end`, both
    /// included, in the order of the columns, whichever of the two comes
    /// first.
    pub open spec fn row_span(self, y: int, x_start: int, x_end: int) -> Result<
        Seq<Seq<char>>,
        ErrorView,
    > {
        let first = vstd::math::min(x_start, x_end);
        let last = vstd::math::max(x_start, x_end);
        if self.has_cell(last, y) {
            Ok(self.body[y].subrange(first, last + 1))
        } else {
            Err(ErrorView::CellPError("Column index out of bounds..."@))
        }
    }

    /// The cells of the range between `start` and `end`. Two ends in one
    /// column give a column range, also where they are one and the same cell;
    /// two ends in one row give a row range; other ends give no range. The
    /// cells come in the order of the table, whichever end is named first.
    pub open spec fn range(self, start: Seq<char>, end: Seq<char>) -> Result<
        Seq<Seq<char>>,
        ErrorView,
    > {
        match self.corners(start, end) {
            Err(e) => Err(e),
            Ok((x_start, x_end, y_start, y_end)) => if x_start == x_end {
                self.column_span(x_start, y_start, y_end)
            } else if y_start == y_end {
                self.row_span(y_start, x_start, x_end)
            } else {
                Err(ErrorView::RangeError("Unknown range type..."@))
            },
        }
    }

    /// The number of cells that the range between `start` and `end` spans.
    pub open spec fn range_len(self, start: Seq<char>, end: Seq<char>) -> Result<nat, ErrorView> {
        match self.corners(start, end) {
            Err(e) => Err(e),
            Ok((x_start, x_end, y_start, y_end)) => if x_start == x_end {
                Ok(span_len(y_start, y_end))
            } else if y_start == y_end {
                Ok(span_len(x_start, x_end))
            } else {
                Err(ErrorView::RangeError("Unknown range type..."@))
            },
        }
    }

    /// The text of the cell that `pointer` names, or a plain complaint. The
    /// row is looked at before the column, and a letter that labels no
    /// column stands for the column after the last label.
    pub open spec fn item(self, pointer: Seq<char>) -> Result<Seq<char>, Seq<char>> {
        match numeral(row_text(pointer)) {
            Some(n) if n <= usize::MAX => {
                let y = n - 1;
                let x = match self.column(pointer) {
                    Ok(x) => x,
                    Err(_) => self.header.len() as int,
                };
                if !(0 <= y < self.body.len()) {
                    Err("[ERROR] Out of bounds 'y' coordinate..."@)
                } else if !(x < self.body[y].len()) {
                    Err("[ERROR] Out of bounds 'x' coordinate..."@)
                } else {
                    Ok(self.body[y][x])
                }
            },
            _ => Err("Unparsable 'y' coordinate!"@),
        }
    }
}

/// The number of indices between `first` and `last`, both included,
/// whichever of the two is the smaller.
pub open spec fn span_len(first: int, last: int) -> nat {
    (vstd::math::abs(last - first) + 1) as nat
}

/// The table that a text holds: its first line is the header, the other
/// lines are the rows of the body, and commas part the cells of a line. A
/// text without a line holds no table.
pub open spec fn table_of(text: Seq<char>) -> Option<Table> {
    let all = lines(text);
    if all.len() == 0 {
        None
    } else {
        Some(
            Table {
                header: split(all[0], Separator::Comma),
                body: all.skip(1).map_values(|line: Seq<char>| split(line, Separator::Comma)),
            },
        )
    }
}

/// A table read from a file: the name of the file, the labels of the
/// columns, and the rows of cells. A row may hold fewer or more cells than
/// the header has labels.
#[derive(Debug)]
pub struct CSV {
    pub file: String,
    pub header: Vec<String>,
    pub body: Vec<Vec<String>>,
}

impl View for CSV {
    type V = Table;

    open spec fn view(&self) -> Table {
        Table { header: texts(self.header@), body: rows(self.body@) }
    }
}

/// The kinds of range that a table has.
#[derive(Clone, Copy, Debug, PartialEq, Eq, Structural)]
pub enum RangeType {
    Row,
    Col,
}

impl RangeType {
    /// The kind of the range between two cells, if they share a column or a row.
    pub fn get_range_type(x_start: usize, x_end: usize, y_start: usize, y_end: usize) -> (r: Option<
        RangeType,
    >)
        ensures
            r == if x_start == x_end {
                Some(RangeType::Col)
            } else if y_start == y_end {
                Some(RangeType::Row)
            } else {
                None::<RangeType>
            },
    {
        if x_start == x_end {
            Some(RangeType::Col)
        } else if y_start == y_end {
            Some(RangeType::Row)
        } else {
            None
        }
    }
}

/// The view of a looked-up coordinate.
pub open spec fn index_view(r: Result<usize, CsvError>) -> Result<int, ErrorView> {
    match r {
        Ok(i) => Ok(i as int),
        Err(e) => Err(e@),
    }
}

/// The view of a looked-up text.
pub open spec fn text_view(r: Result<String, CsvError>) -> Result<Seq<char>, ErrorView> {
    match r {
        Ok(s) => Ok(s@),
        Err(e) => Err(e@),
    }
}

/// The view of a looked-up list of texts.
pub open spec fn texts_view(r: Result<Vec<String>, CsvError>) -> Result<Seq<Seq<char>>, ErrorView> {
    match r {
        Ok(v) => Ok(texts(v@)),
        Err(e) => Err(e@),
    }
}

impl CSV {
    /// Parts a text into the header and the body of a table.
    pub fn parse(contents: &str) -> (r: Result<(Vec<String>, Vec<Vec<String>>), CsvError>)
        ensures
            match r {
                Ok((header, body)) => table_of(contents@) == Some(
                    Table { header: texts(header@), body: rows(body@) },
                ),
                Err(e) => table_of(contents@) is None && e@ == ErrorView::FileError(
                    "Could not read csv file..."@,
                ),
            },
    {
        let all = split_lines(contents);
        if all.len() == 0 {
            return Err(CsvError::FileError("Could not read csv file...".to_owned()));
        }
        let header = split_text(all[0].as_str(), Separator::Comma);
        let mut body: Vec<Vec<String>> = Vec::new();
        let mut i: usize = 1;
        while i < all.len()
            invariant
                1 <= i <= all.len(),
                texts(all@) == lines(contents@),
                rows(body@) == lines(contents@).subrange(1, i as int).map_values(
                    |line: Seq<char>| split(line, Separator::Comma),
                ),
            decreases all.len() - i,
        {
            let ghost before = body@;
            let row = split_text(all[i].as_str(), Separator::Comma);
            body.push(row);
            assert(rows(body@) =~= rows(before).push(texts(row@)));
            i += 1;
        }
        Ok((header, body))
    }

    /// The table that the text `contents` holds, under the name `file_path`.
    pub fn new(file_path: String, contents: &str) -> (r: Result<Self, CsvError>)
        ensures
            match r {
                Ok(csv) => table_of(contents@) == Some(csv@) && csv.file == file_path,
                Err(e) => table_of(contents@) is None && e@ == ErrorView::FileError(
                    "Could not read csv file..."@,
                ),
            },
    {
        match Self::parse(contents) {
            Ok((header, body)) => Ok(CSV { file: file_path, header, body }),
            Err(e) => Err(e),
        }
    }

    /// The index of the column that a cell pointer names.
    pub fn get_column_cor(&self, cell_pointer: &str) -> (r: Result<usize, CsvError>)
        ensures
            index_view(r) == self@.column(cell_pointer@),
            r matches Ok(x) ==> x < self.header.len(),
    {
        let chars = to_chars(cell_pointer);
        if chars.len() == 0 {
            return Err(CsvError::CellPError("Column index out of bounds...".to_owned()));
        }
        let label: Vec<char> = vec![chars[0]];
        let ghost wanted = cell_pointer@.take(1);
        let ghost labels = texts(self.header@);
        let mut i: usize = 0;
        while i < self.header.len()
            invariant
                i <= self.header.len(),
                label@ == wanted,
                cell_pointer@.len() > 0,
                wanted == cell_pointer@.take(1),
                labels == texts(self.header@),
                forall|j: int| 0 <= j < i ==> labels[j] != wanted,
            decreases self.header.len() - i,
        {
            if spells(&label, self.header[i].as_str()) {
                proof {
                    assert(labels[i as int] == wanted);
                    labels.index_of_first_ensures(wanted);
                }
                return Ok(i);
            }
            i += 1;
        }
        proof {
            labels.index_of_first_ensures(wanted);
        }
        Err(CsvError::CellPError("Column index out of bounds...".to_owned()))
    }

    /// The index of the row that a cell pointer names, if the body has that row.
    pub fn get_row_cor(&self, cell_pointer: &str) -> (r: Result<usize, CsvError>)
        ensures
            index_view(r) == self@.row(cell_pointer@),
    {
        let chars = to_chars(cell_pointer);
        let from: usize = if chars.len() > 0 {
            1
        } else {
            0
        };
        match parse_numeral(&chars, from) {
            Some(n) => {
                if n == 0 || n > self.body.len() {
                    Err(CsvError::CellPError("Row index out of bounds...".to_owned()))
                } else {
                    Ok(n - 1)
                }
            },
            None => Err(CsvError::CellPError("Incorrect row index specifier...".to_owned())),
        }
    }

    /// The text of the cell that a pointer such as `A1` or `C2` names.
    pub fn get_cell_value(&self, cell_pointer: &str) -> (r: Result<String, CsvError>)
        ensures
            text_view(r) == self@.cell(cell_pointer@),
    {
        let x_cor = match self.get_column_cor(cell_pointer) {
            Ok(x) => x,
            Err(e) => return Err(e),
        };
        let y_cor = match self.get_row_cor(cell_pointer) {
            Ok(y) => y,
            Err(e) => return Err(e),
        };
        if x_cor >= self.body[y_cor].len() {
            return Err(CsvError::CellPError("Column index out of bounds...".to_owned()));
        }
        Ok(self.body[y_cor][x_cor].clone())
    }

    /// The text of the cell that `element` names, with a plain complaint
    /// where there is none.
    pub fn get_item(&self, element: &str) -> (r: Result<String, &'static str>)
        ensures
            match r {
                Ok(text) => self@.item(element@) == Ok::<Seq<char>, Seq<char>>(text@),
                Err(complaint) => self@.item(element@) == Err::<Seq<char>, Seq<char>>(complaint@),
            },
    {
        let x_cor = match self.get_column_cor(element) {
            Ok(x) => x,
            Err(_) => self.header.len(),
        };
        let chars = to_chars(element);
        let from: usize = if chars.len() > 0 {
            1
        } else {
            0
        };
        let y_cor = match parse_numeral(&chars, from) {
            Some(val) => val,
            None => return Err("Unparsable 'y' coordinate!"),
        };
        if y_cor == 0 || y_cor > self.body.len() {
            return Err("[ERROR] Out of bounds 'y' coordinate...");
        }
        let row = &self.body[y_cor - 1];
        if x_cor >= row.len() {
            return Err("[ERROR] Out of bounds 'x' coordinate...");
        }
        Ok(row[x_cor].clone())
    }

    /// The coordinates of the two ends of a range.
    fn get_corners(&self, cell_pointer_start: &str, cell_pointer_end: &str) -> (r: Result<
        (usize, usize, usize, usize),
        CsvError,
    >)
        ensures
            match r {
                Ok(c) => {
                    &&& self@.corners(cell_pointer_start@, cell_pointer_end@) == Ok::<
                        Corners,
                        ErrorView,
                    >((c.0 as int, c.1 as int, c.2 as int, c.3 as int))
                    &&& c.0 < self.header.len()
                    &&& c.1 < self.header.len()
                    &&& c.2 < self.body.len()
                    &&& c.3 < self.body.len()
                },
                Err(e) => self@.corners(cell_pointer_start@, cell_pointer_end@) == Err::<
                    Corners,
                    ErrorView,
                >(e@),
            },
    {
        let x_start = match self.get_column_cor(cell_pointer_start) {
            Ok(x) => x,
            Err(e) => return Err(e),
        };
        let x_end = match self.get_column_cor(cell_pointer_end) {
            Ok(x) => x,
            Err(e) => return Err(e),
        };
        let y_start = match self.get_row_cor(cell_pointer_start) {
            Ok(y) => y,
            Err(e) => return Err(e),
        };
        let y_end = match self.get_row_cor(cell_pointer_end) {
            Ok(y) => y,
            Err(e) => return Err(e),
        };
        Ok((x_start, x_end, y_start, y_end))
    }

    /// The cells of column `x` between row `y_start` and row `y_end`.
    fn column_cells(&self, x: usize, y_start: usize, y_end: usize) -> (r: Result<
        Vec<String>,
        CsvError,
    >)
        requires
            y_start < self.body.len(),
            y_end < self.body.len(),
        ensures
            texts_view(r) == self@.column_span(x as int, y_start as int, y_end as int),
    {
        let (first, last) = if y_start <= y_end {
            (y_start, y_end)
        } else {
            (y_end, y_start)
        };
        let mut cells: Vec<String> = Vec::new();
        let mut y: usize = first;
        while y <= last
            invariant
                first <= y <= last + 1,
                last < self.body.len(),
                first == vstd::math::min(y_start as int, y_end as int),
                last == vstd::math::max(y_start as int, y_end as int),
                forall|k: int| first <= k < y ==> #[trigger] self@.has_cell(x as int, k),
                texts(cells@) == Seq::new((y - first) as nat, |k: int| self@.body[first + k][x as int]),
            decreases last + 1 - y,
        {
            if x >= self.body[y].len() {
                assert(!self@.has_cell(x as int, y as int));
                return Err(CsvError::CellPError("Column index out of bounds...".to_owned()));
            }
            let ghost before = cells@;
            let cell = self.body[y][x].clone();
            cells.push(cell);
            proof {
                assert(texts(cells@) =~= texts(before).push(cell@));
            }
            y += 1;
        }
        Ok(cells)
    }

    /// The cells of row `y` between column `x_start` and column `x_end`.
    fn row_cells(&self, y: usize, x_start: usize, x_end: usize) -> (r: Result<Vec<String>, CsvError>)
        requires
            y < self.body.len(),
        ensures
            texts_view(r) == self@.row_span(y as int, x_start as int, x_end as int),
    {
        let (first, last) = if x_start <= x_end {
            (x_start, x_end)
        } else {
            (x_end, x_start)
        };
        let row = &self.body[y];
        if last >= row.len() {
            return Err(CsvError::CellPError("Column index out of bounds...".to_owned()));
        }
        let mut cells: Vec<String> = Vec::new();
        let mut x: usize = first;
        while x <= last
            invariant
                first <= x <= last + 1,
                last < row.len(),
                texts(cells@) == texts(row@).subrange(first as int, x as int),
            decreases last + 1 - x,
        {
            let cell = row[x].clone();
            cells.push(cell);
            proof {
                assert(texts(row@).subrange(first as int, x + 1) =~= texts(row@).subrange(
                    first as int,
                    x as int,
                ).push(cell@));
            }
            x += 1;
        }
        Ok(cells)
    }

    /// The texts of the cells between two pointers, both included. The two
    /// must share a column or a row: a range is never diagonal.
    pub fn get_range_values(&self, cell_pointer_start: &str, cell_pointer_end: &str) -> (r: Result<
        Vec<String>,
        CsvError,
    >)
        ensures
            texts_view(r) == self@.range(cell_pointer_start@, cell_pointer_end@),
    {
        let (x_start, x_end, y_start, y_end) = match self.get_corners(
            cell_pointer_start,
            cell_pointer_end,
        ) {
            Ok(c) => c,
            Err(e) => return Err(e),
        };
        match RangeType::get_range_type(x_start, x_end, y_start, y_end) {
            Some(RangeType::Row) => self.row_cells(y_start, x_start, x_end),
            Some(RangeType::Col) => self.column_cells(x_start, y_start, y_end),
            None => Err(CsvError::RangeError("Unknown range type...".to_owned())),
        }
    }

    /// The number of cells between two pointers, both included.
    pub fn get_range_len(&self, cell_pointer_start: &str, cell_pointer_end: &str) -> (r: Result<
        usize,
        CsvError,
    >)
        ensures
            match r {
                Ok(n) => self@.range_len(cell_pointer_start@, cell_pointer_end@) == Ok::<
                    nat,
                    ErrorView,
                >(n as nat),
                Err(e) => self@.range_len(cell_pointer_start@, cell_pointer_end@) == Err::<
                    nat,
                    ErrorView,
                >(e@),
            },
    {
        let (x_start, x_end, y_start, y_end) = match self.get_corners(
            cell_pointer_start,
            cell_pointer_end,
        ) {
            Ok(c) => c,
            Err(e) => return Err(e),
        };
        match RangeType::get_range_type(x_start, x_end, y_start, y_end) {
            Some(RangeType::Row) => Ok(
                if x_start <= x_end {
                    x_end - x_start + 1
                } else {
                    x_start - x_end + 1
                },
            ),
            Some(RangeType::Col) => Ok(
                if y_start <= y_end {
                    y_end - y_start + 1
                } else {
                    y_start - y_end + 1
                },
            ),
            None => Err(CsvError::RangeError("Unknown range type...".to_owned())),
        }
    }
}

/// The line of the output for one row: the values of its cells, with commas
/// between them.
pub open spec fn row_line<N>(t: Table, m: NumberModel<N>, row: Seq<Seq<char>>) -> Seq<char> {
    join(row.map_values(|item: Seq<char>| cell_value(t, m, item)), ',')
}

/// The lines of the output for a table: the header as it is, then one line
/// for each row of the body.
pub open spec fn output_lines<N>(t: Table, m: NumberModel<N>) -> Seq<Seq<char>> {
    seq![join(t.header, ',')] + t.body.map_values(|row: Seq<Seq<char>>| row_line(t, m, row))
}

/// The name of the file that the output of `file` goes to.
pub open spec fn output_name(file: Seq<char>) -> Seq<char> {
    "out_"@ + file
}

impl CSV {
    /// The name of the output file.
    pub fn output_file(&self) -> (r: String)
        ensures
            r@ == output_name(self.file@),
    {
        let mut r = "out_".to_owned();
        r.append(self.file.as_str());
        r
    }
}

/// Evaluates the cells of one row and joins their values with commas.
pub fn evaluate_row<N, P, A, O, C, S>(
    row: &Vec<String>,
    csv: &CSV,
    num: &Numbers<N, P, A, O, C, S>,
) -> (r: String) where
    N: Copy,
    P: Fn(&str) -> Option<N>,
    A: Fn(BinaryOp, N, N) -> N,
    O: Fn(N, N) -> Relation,
    C: Fn(usize) -> N,
    S: Fn(N) -> String,

    requires
        num.wf(),
    ensures
        r@ == row_line(csv@, num.model(), texts(row@)),
{
    let ghost value = |item: Seq<char>| cell_value(csv@, num.model(), item);
    let mut values: Vec<String> = Vec::new();
    let mut i: usize = 0;
    while i < row.len()
        invariant
            num.wf(),
            i <= row.len(),
            value == |item: Seq<char>| cell_value(csv@, num.model(), item),
            texts(values@) == texts(row@).take(i as int).map_values(value),
        decreases row.len() - i,
    {
        let ghost before = values@;
        let v = eval(&row[i], csv, num);
        values.push(v);
        proof {
            assert(texts(values@) =~= texts(before).push(v@));
        }
        i += 1;
    }
    assert(texts(row@).take(row.len() as int) =~= texts(row@));
    join_texts(&values, ',')
}

/// Evaluates every cell of the table and gives the lines of the output:
/// the header, then the rows with every formula replaced by its value or
/// by the diagnostic of its failure.
pub fn generate_output<N, P, A, O, C, S>(csv: &CSV, num: &Numbers<N, P, A, O, C, S>) -> (r: Vec<
    String,
>) where
    N: Copy,
    P: Fn(&str) -> Option<N>,
    A: Fn(BinaryOp, N, N) -> N,
    O: Fn(N, N) -> Relation,
    C: Fn(usize) -> N,
    S: Fn(N) -> String,

    requires
        num.wf(),
    ensures
        texts(r@) == output_lines(csv@, num.model()),
{
    let ghost line = |row: Seq<Seq<char>>| row_line(csv@, num.model(), row);
    let mut out: Vec<String> = Vec::new();
    let head = join_texts(&csv.header, ',');
    out.push(head);
    let mut i: usize = 0;
    while i < csv.body.len()
        invariant
            num.wf(),
            i <= csv.body.len(),
            line == |row: Seq<Seq<char>>| row_line(csv@, num.model(), row),
            texts(out@) == seq![join(csv@.header, ',')] + csv@.body.take(i as int).map_values(line),
        decreases csv.body.len() - i,
    {
        let ghost before = out@;
        let l = evaluate_row(&csv.body[i], csv, num);
        out.push(l);
        proof {
            assert(texts(out@) =~= texts(before).push(l@));
        }
        i += 1;
    }
    out
}

/// Two ends in one row give the cells of that row between the columns of
/// the two ends, both included, in the order of the columns, whichever end
/// is named first.
pub proof fn law_row_range(t: Table, start: Seq<char>, end: Seq<char>, x_start: int, x_end: int, y: int)
    requires
        t.column(start) == Ok::<int, ErrorView>(x_start),
        t.column(end) == Ok::<int, ErrorView>(x_end),
        t.row(start) == Ok::<int, ErrorView>(y),
        t.row(end) == Ok::<int, ErrorView>(y),
        t.has_cell(vstd::math::max(x_start, x_end), y),
    ensures
        t.range(start, end) == Ok::<Seq<Seq<char>>, ErrorView>(
            t.body[y].subrange(vstd::math::min(x_start, x_end), vstd::math::max(x_start, x_end) + 1),
        ),
        t.range(start, end)->Ok_0.len() == vstd::math::abs(x_end - x_start) + 1,
        forall|k: int|
            0 <= k <= vstd::math::abs(x_end - x_start) ==> (#[trigger] t.range(start, end)->Ok_0[k])
                == t.body[y][vstd::math::min(x_start, x_end) + k],
{
    t.header.index_of_first_ensures(start.take(1));
    t.header.index_of_first_ensures(end.take(1));
    if x_start == x_end {
        assert(t.column_span(x_start, y, y)->Ok_0 =~= t.body[y].subrange(x_start, x_end + 1));
    }
}

/// Two ends in one column give the cells of that column between the rows
/// of the two ends, both included, in the order of the rows, whichever end
/// is named first.
pub proof fn law_column_range(
    t: Table,
    start: Seq<char>,
    end: Seq<char>,
    x: int,
    y_start: int,
    y_end: int,
)
    requires
        t.column(start) == Ok::<int, ErrorView>(x),
        t.column(end) == Ok::<int, ErrorView>(x),
        t.row(start) == Ok::<int, ErrorView>(y_start),
        t.row(end) == Ok::<int, ErrorView>(y_end),
        forall|y: int|
            vstd::math::min(y_start, y_end) <= y <= vstd::math::max(y_start, y_end)
                ==> #[trigger] t.has_cell(x, y),
    ensures
        t.range(start, end) is Ok,
        t.range(start, end)->Ok_0.len() == vstd::math::abs(y_end - y_start) + 1,
        forall|k: int|
            0 <= k <= vstd::math::abs(y_end - y_start) ==> (#[trigger] t.range(start, end)->Ok_0[k])
                == t.body[vstd::math::min(y_start, y_end) + k][x],
{
}

/// A range holds the same cells, in the same order, whichever of its two
/// ends is named first.
pub proof fn law_range_ends_swap(t: Table, start: Seq<char>, end: Seq<char>)
    requires
        t.range(start, end) is Ok,
    ensures
        t.range(end, start) == t.range(start, end),
{
}

/// Two ends that differ in column and in row give no range.
pub proof fn law_diagonal_range(t: Table, start: Seq<char>, end: Seq<char>)
    requires
        t.column(start) is Ok,
        t.column(end) is Ok,
        t.row(start) is Ok,
        t.row(end) is Ok,
        t.column(start) != t.column(end),
        t.row(start) != t.row(end),
    ensures
        t.range(start, end) == Err::<Seq<Seq<char>>, ErrorView>(
            ErrorView::RangeError("Unknown range type..."@),
        ),
{
}

/// A range that can be looked up holds as many cells as its length says.
pub proof fn law_range_len(t: Table, start: Seq<char>, end: Seq<char>)
    requires
        t.range(start, end) is Ok,
    ensures
        t.range_len(start, end) == Ok::<nat, ErrorView>(t.range(start, end)->Ok_0.len()),
{
    t.header.index_of_first_ensures(start.take(1));
    t.header.index_of_first_ensures(end.take(1));
}

/// A pointer names the column `x` exactly if `x` is the first column whose
/// label is the first character of the pointer.
pub proof fn law_column_is_first_match(t: Table, pointer: Seq<char>, x: int)
    ensures
        t.column(pointer) == Ok::<int, ErrorView>(x) <==> {
            &&& pointer.len() > 0
            &&& 0 <= x < t.header.len()
            &&& t.header[x] == pointer.take(1)
            &&& forall|j: int| 0 <= j < x ==> t.header[j] != pointer.take(1)
        },
{
    t.header.index_of_first_ensures(pointer.take(1));
}

/// The output of a table that was read from a text starts with the first
/// line of that text, and holds one line more than the table has rows.
pub proof fn law_output_keeps_header<N>(text: Seq<char>, t: Table, m: NumberModel<N>)
    requires
        table_of(text) == Some(t),
    ensures
        output_lines(t, m).len() == t.body.len() + 1,
        output_lines(t, m)[0] == lines(text)[0],
{
    crate::text::law_join_undoes_split(lines(text)[0]);
}

} // verus!
