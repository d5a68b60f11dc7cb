//! A plain table without formulas: it is read from a text whose lines may
//! end in commas, and written back with a comma after every cell.
use vstd::prelude::*;
use crate::text::lines;
use crate::text::spells;
use crate::text::split;
use crate::text::split_lines;
use crate::text::split_text;
use crate::text::texts;
use crate::text::to_chars;
use crate::text::to_text;
use crate::text::Separator;

verus! {

/// A line without the commas at its end.
pub open spec fn trim_commas(line: Seq<char>) -> Seq<char>
    decreases line.len(),
{
    if line.len() > 0 && line.last() == ',' {
        trim_commas(line.drop_last())
    } else {
        line
    }
}

/// The cells of a line: the fields between the commas of the line without
/// the commas at its end.
pub open spec fn cells(line: Seq<char>) -> Seq<Seq<char>> {
    split(trim_commas(line), Separator::Comma)
}

/// The texts written one after the other, each followed by a comma.
pub open spec fn listed(texts: Seq<Seq<char>>) -> Seq<char>
    decreases texts.len(),
{
    if texts.len() == 0 {
        Seq::empty()
    } else {
        listed(texts.drop_last()) + texts.last().push(',')
    }
}

/// What is written for a cell: `EQ` for a cell that holds just `=`, and
/// the text itself for any other.
pub open spec fn written(cell: Seq<char>) -> Seq<char> {
    if cell == "="@ {
        "EQ"@
    } else {
        cell
    }
}

/// A table of plain cells under a header.
#[derive(Debug)]
pub struct CSV {
    header: Vec<String>,
    body: Vec<Vec<String>>,
}

impl CSV {
    /// The labels of the columns.
    pub closed spec fn header(&self) -> Seq<Seq<char>> {
        texts(self.header@)
    }

    /// The rows of cells.
    pub closed spec fn body(&self) -> Seq<Seq<Seq<char>>> {
        self.body@.map_values(|row: Vec<String>| texts(row@))
    }

    /// Reads a table from a text: the first line is the header, the other
    /// lines are the rows. A text without a line holds no table.
    pub fn parse(contents: &str) -> (r: Option<Self>)
        ensures
            match r {
                Some(csv) => {
                    &&& lines(contents@).len() > 0
                    &&& csv.header() == cells(lines(contents@)[0])
                    &&& csv.body() == lines(contents@).skip(1).map_values(|line: Seq<char>| cells(line))
                },
                None => lines(contents@).len() == 0,
            },
    {
        let all = split_lines(contents);
        if all.len() == 0 {
            return None;
        }
        let header = line_cells(all[0].as_str());
        let mut body: Vec<Vec<String>> = Vec::new();
        let mut i: usize = 1;
        while i < all.len()
            invariant
                1 <= i <= all.len(),
                texts(all@) == lines(contents@),
                body@.map_values(|row: Vec<String>| texts(row@)) == lines(contents@).subrange(
                    1,
                    i as int,
                ).map_values(|line: Seq<char>| cells(line)),
            decreases all.len() - i,
        {
            let ghost before = body@;
            let row = line_cells(all[i].as_str());
            body.push(row);
            assert(body@.map_values(|row: Vec<String>| texts(row@)) =~= before.map_values(
                |row: Vec<String>| texts(row@),
            ).push(texts(row@)));
            i += 1;
        }
        Some(CSV { header, body })
    }

    /// The lines that the table is written as: the header with a comma after
    /// every label, then every row with a comma after every cell, a cell that
    /// holds just `=` written as `EQ`.
    pub fn eval_expr(csv: Self) -> (r: Vec<String>)
        ensures
            texts(r@) == seq![listed(csv.header())] + csv.body().map_values(
                |row: Seq<Seq<char>>| listed(row.map_values(|cell: Seq<char>| written(cell))),
            ),
    {
        let ghost line = |row: Seq<Seq<char>>| listed(row.map_values(|cell: Seq<char>| written(cell)));
        let mut out: Vec<String> = Vec::new();
        let head = csv.get_header();
        out.push(head);
        let mut i: usize = 0;
        while i < csv.body.len()
            invariant
                i <= csv.body.len(),
                line == |row: Seq<Seq<char>>| listed(row.map_values(|cell: Seq<char>| written(cell))),
                texts(out@) == seq![listed(csv.header())] + csv.body().take(i as int).map_values(line),
            decreases csv.body.len() - i,
        {
            let ghost before = out@;
            let row = &csv.body[i];
            let mut buffer = String::new();
            let mut j: usize = 0;
            while j < row.len()
                invariant
                    j <= row.len(),
                    buffer@ == listed(
                        texts(row@).take(j as int).map_values(|cell: Seq<char>| written(cell)),
                    ),
                decreases row.len() - j,
            {
                let ghost done = texts(row@).take(j as int).map_values(|cell: Seq<char>| written(cell));
                let ghost grown = texts(row@).take(j + 1).map_values(
                    |cell: Seq<char>| written(cell),
                );
                assert(grown.drop_last() =~= done);
                let chars = to_chars(row[j].as_str());
                if spells(&chars, "=") {
                    buffer.append("EQ");
                } else {
                    buffer.append(row[j].as_str());
                }
                buffer.push(',');
                j += 1;
            }
            assert(texts(row@).take(row.len() as int) =~= texts(row@));
            out.push(buffer);
            proof {
                assert(texts(out@) =~= texts(before).push(buffer@));
            }
            i += 1;
        }
        out
    }

    /// The header as one text, with a comma after every label.
    pub fn get_header(&self) -> (r: String)
        ensures
            r@ == listed(self.header()),
    {
        let mut r = String::new();
        let mut i: usize = 0;
        while i < self.header.len()
            invariant
                i <= self.header.len(),
                r@ == listed(texts(self.header@).take(i as int)),
            decreases self.header.len() - i,
        {
            let ghost done = texts(self.header@).take(i as int);
            let ghost grown = texts(self.header@).take(i + 1);
            assert(grown.drop_last() =~= done);
            r.append(self.header[i].as_str());
            r.push(',');
            i += 1;
        }
        assert(texts(self.header@).take(self.header.len() as int) =~= texts(self.header@));
        r
    }

    /// The cell in column `x` of row `y`, if the body has one there.
    pub fn get_element(&self, x: usize, y: usize) -> (r: Option<&String>)
        ensures
            match r {
                Some(cell) => y < self.body().len() && x < self.body()[y as int].len()
                    && cell@ == self.body()[y as int][x as int],
                None => !(y < self.body().len() && x < self.body()[y as int].len()),
            },
    {
        if y < self.body.len() && x < self.body[y].len() {
            Some(&self.body[y][x])
        } else {
            None
        }
    }
}

/// Parts a line into its cells.
fn line_cells(line: &str) -> (r: Vec<String>)
    ensures
        texts(r@) == cells(line@),
{
    let chars = to_chars(line);
    let mut end: usize = chars.len();
    assert(chars@.take(end as int) =~= chars@);
    while end > 0 && chars[end - 1] == ','
        invariant
            end <= chars.len(),
            trim_commas(chars@.take(end as int)) == trim_commas(chars@),
        decreases end,
    {
        assert(chars@.take(end as int).drop_last() =~= chars@.take(end - 1));
        end = end - 1;
    }
    let trimmed = to_text(&chars, 0, end);
    split_text(trimmed.as_str(), Separator::Comma)
}

} // verus!
