use vstd::prelude::*;
use vstd::utf8::encode_utf8;

use crate::standings::tables::Table;
use crate::standings::team::TeamStats;
use crate::standings::text::{decimal_of, push_decimal, push_signed_decimal, signed_decimal_of, string_of};

verus! {

/// The width of the club column for a team: its name's length in UTF-8 bytes.
pub open spec fn name_width(t: TeamStats) -> nat {
    (encode_utf8(t.name@).len() as usize) as nat
}

/// The widest club column that the teams `s` need; zero without teams.
pub open spec fn club_width(s: Seq<TeamStats>) -> nat
    decreases s.len(),
{
    if s.len() == 0 {
        0
    } else {
        let w = club_width(s.drop_last());
        if name_width(s.last()) > w {
            name_width(s.last())
        } else {
            w
        }
    }
}

/// `cell` followed by spaces up to `width` characters.
pub open spec fn padded(cell: Seq<char>, width: nat) -> Seq<char> {
    if cell.len() >= width {
        cell
    } else {
        cell + Seq::new((width - cell.len()) as nat, |i: int| ' ')
    }
}

/// Column `k` of a row after the club column: a gap of one space before the
/// first and two before the others, then the cell, two characters wide but
/// the goal difference's three.
pub open spec fn column_text(cell: Seq<char>, k: int) -> Seq<char> {
    (if k == 0 {
        seq![' ']
    } else {
        seq![' ', ' ']
    }) + padded(cell, if k == 6 {
        3
    } else {
        2
    })
}

/// The first `n` columns after the club column.
pub open spec fn columns_text(cells: Seq<Seq<char>>, n: int) -> Seq<char>
    decreases n,
{
    if n <= 0 {
        Seq::<char>::empty()
    } else {
        columns_text(cells, n - 1) + column_text(cells[n - 1], n - 1)
    }
}

/// One row of the listing: the club column, then eight columns for games,
/// wins, draws, losses, goals scored, goals conceded, goal difference and
/// points.
pub open spec fn row_text(club: Seq<char>, cells: Seq<Seq<char>>, width: nat) -> Seq<char> {
    padded(club, width) + columns_text(cells, 8)
}

/// The numbers that a team's row shows.
pub open spec fn team_cells(t: TeamStats) -> Seq<Seq<char>> {
    seq![
        decimal_of(t.played as nat),
        decimal_of(t.wins as nat),
        decimal_of(t.draws as nat),
        decimal_of(t.defeats as nat),
        signed_decimal_of(t.goal_scored as int),
        signed_decimal_of(t.goal_against as int),
        signed_decimal_of(t.goal_difference as int),
        decimal_of(t.points as nat),
    ]
}

/// The column labels: games, wins, draws, losses, goals scored, goals
/// conceded, goal difference and points.
pub open spec fn header_cells() -> Seq<Seq<char>> {
    seq![
        seq!['G'],
        seq!['W'],
        seq!['D'],
        seq!['L'],
        seq!['G', 'M'],
        seq!['G', 'C'],
        seq!['G', 'S'],
        seq!['P'],
    ]
}

/// A run of `n` dashes.
pub open spec fn dashes(n: nat) -> Seq<char> {
    Seq::new(n, |i: int| '-')
}

/// The title line of the listing.
pub open spec fn title_text() -> Seq<char> {
    dashes(9) + seq![' ', 'A', 'l', 'l', 's', 'v', 'e', 'n', 's', 'k', 'a', 'n', ' '] + dashes(12)
}

/// The rows of the teams `s`, each ended by a newline.
pub open spec fn team_rows(s: Seq<TeamStats>, width: nat) -> Seq<char>
    decreases s.len(),
{
    if s.len() == 0 {
        Seq::<char>::empty()
    } else {
        team_rows(s.drop_last(), width) + row_text(s.last().name@, team_cells(s.last()), width)
            + seq!['\n']
    }
}

/// The whole listing: title, header and one row per team, in table order.
pub open spec fn listing_text(s: Seq<TeamStats>) -> Seq<char> {
    title_text() + seq!['\n'] + row_text(seq!['C', 'l', 'u', 'b'], header_cells(), club_width(s))
        + seq!['\n'] + team_rows(s, club_width(s))
}

/// Appends `cell` padded with spaces to `width` characters.
fn push_padded(out: &mut Vec<char>, cell: &Vec<char>, width: usize)
    ensures
        final(out)@ == old(out)@ + padded(cell@, width as nat),
{
    let mut i: usize = 0;
    while i < cell.len()
        invariant
            i <= cell@.len(),
            out@ == old(out)@ + cell@.subrange(0, i as int),
        decreases cell@.len() - i,
    {
        out.push(cell[i]);
        i += 1;
        assert(out@ =~= old(out)@ + cell@.subrange(0, i as int));
    }
    assert(cell@.subrange(0, i as int) =~= cell@);
    let mut n: usize = cell.len();
    while n < width
        invariant
            cell@.len() <= n <= width || (n == cell@.len() && n >= width),
            out@ == old(out)@ + cell@ + Seq::new((n - cell@.len()) as nat, |j: int| ' '),
        decreases width - n,
    {
        out.push(' ');
        n += 1;
        assert(out@ =~= old(out)@ + cell@ + Seq::new((n - cell@.len()) as nat, |j: int| ' '));
    }
    assert(out@ =~= old(out)@ + padded(cell@, width as nat));
}

/// Appends one row of the listing.
fn push_row(out: &mut Vec<char>, club: &Vec<char>, cells: &Vec<Vec<char>>, width: usize)
    requires
        cells@.len() == 8,
    ensures
        final(out)@ == old(out)@ + row_text(club@, cells@.map_values(|c: Vec<char>| c@), width as nat),
{
    let ghost cs = cells@.map_values(|c: Vec<char>| c@);
    push_padded(out, club, width);
    let ghost start = out@;
    let mut k: usize = 0;
    while k < 8
        invariant
            k <= 8 == cells@.len(),
            cs == cells@.map_values(|c: Vec<char>| c@),
            out@ == start + columns_text(cs, k as int),
        decreases 8 - k,
    {
        out.push(' ');
        if k > 0 {
            out.push(' ');
        }
        let w: usize = if k == 6 {
            3
        } else {
            2
        };
        push_padded(out, &cells[k], w);
        assert(cs[k as int] == cells@[k as int]@);
        k += 1;
        assert(out@ =~= start + columns_text(cs, k as int));
    }
    assert(out@ =~= old(out)@ + row_text(club@, cs, width as nat));
}

/// The digits of an unsigned number.
fn decimal_cell(n: u64) -> (r: Vec<char>)
    ensures
        r@ == decimal_of(n as nat),
{
    let mut v: Vec<char> = Vec::new();
    push_decimal(&mut v, n);
    assert(v@ =~= decimal_of(n as nat));
    v
}

/// The digits of a signed number.
fn signed_cell(n: i32) -> (r: Vec<char>)
    ensures
        r@ == signed_decimal_of(n as int),
{
    let mut v: Vec<char> = Vec::new();
    push_signed_decimal(&mut v, n);
    assert(v@ =~= signed_decimal_of(n as int));
    v
}

/// The characters of a team's name.
fn name_chars(t: &TeamStats) -> (r: Vec<char>)
    ensures
        r@ == t.name@,
{
    crate::standings::text::chars_of(t.name.as_str())
}

impl Table {
    /// The width of the club column: the longest team name in UTF-8 bytes.
    pub fn club_column_width(&self) -> (r: usize)
        ensures
            r as nat == club_width(self.teams@),
    {
        let mut w: usize = 0;
        let mut i: usize = 0;
        while i < self.teams.len()
            invariant
                i <= self.teams@.len(),
                w as nat == club_width(self.teams@.subrange(0, i as int)),
            decreases self.teams@.len() - i,
        {
            let n = self.teams[i].name.as_str().len();
            assert(self.teams@.subrange(0, i + 1).drop_last() =~= self.teams@.subrange(0, i as int));
            if n > w {
                w = n;
            }
            i += 1;
        }
        assert(self.teams@.subrange(0, i as int) =~= self.teams@);
        w
    }

    /// The table as text: a title line, a header row and one row per team in
    /// the table's order, columns left-aligned.
    pub fn render(&self) -> (r: String)
        ensures
            r@ == listing_text(self.teams@),
    {
        let width = self.club_column_width();
        let mut out: Vec<char> = Vec::new();
        let mut k: usize = 0;
        while k < 9
            invariant
                k <= 9,
                out@ == dashes(k as nat),
            decreases 9 - k,
        {
            out.push('-');
            k += 1;
            assert(out@ =~= dashes(k as nat));
        }
        out.push(' ');
        out.push('A');
        out.push('l');
        out.push('l');
        out.push('s');
        out.push('v');
        out.push('e');
        out.push('n');
        out.push('s');
        out.push('k');
        out.push('a');
        out.push('n');
        out.push(' ');
        let mut k: usize = 0;
        let ghost head = out@;
        while k < 12
            invariant
                k <= 12,
                out@ == head + dashes(k as nat),
            decreases 12 - k,
        {
            out.push('-');
            k += 1;
            assert(out@ =~= head + dashes(k as nat));
        }
        assert(out@ =~= title_text());
        out.push('\n');
        let club = vec!['C', 'l', 'u', 'b'];
        let labels = vec![
            vec!['G'],
            vec!['W'],
            vec!['D'],
            vec!['L'],
            vec!['G', 'M'],
            vec!['G', 'C'],
            vec!['G', 'S'],
            vec!['P'],
        ];
        assert(labels@.map_values(|c: Vec<char>| c@) =~~= header_cells());
        assert(club@ =~= seq!['C', 'l', 'u', 'b']);
        push_row(&mut out, &club, &labels, width);
        out.push('\n');
        let ghost top = out@;
        assert(top =~= title_text() + seq!['\n'] + row_text(
            seq!['C', 'l', 'u', 'b'],
            header_cells(),
            club_width(self.teams@),
        ) + seq!['\n']);
        let mut i: usize = 0;
        while i < self.teams.len()
            invariant
                i <= self.teams@.len(),
                width as nat == club_width(self.teams@),
                out@ == top + team_rows(self.teams@.subrange(0, i as int), width as nat),
            decreases self.teams@.len() - i,
        {
            let t = &self.teams[i];
            let cells = vec![
                decimal_cell(t.played as u64),
                decimal_cell(t.wins as u64),
                decimal_cell(t.draws as u64),
                decimal_cell(t.defeats as u64),
                signed_cell(t.goal_scored),
                signed_cell(t.goal_against),
                signed_cell(t.goal_difference),
                decimal_cell(t.points as u64),
            ];
            assert(cells@.map_values(|c: Vec<char>| c@) =~~= team_cells(*t));
            let name = name_chars(t);
            push_row(&mut out, &name, &cells, width);
            out.push('\n');
            assert(self.teams@.subrange(0, i + 1).drop_last() =~= self.teams@.subrange(0, i as int));
            i += 1;
            assert(out@ =~= top + team_rows(self.teams@.subrange(0, i as int), width as nat));
        }
        assert(self.teams@.subrange(0, i as int) =~= self.teams@);
        string_of(out.as_slice())
    }
}

} // verus!
