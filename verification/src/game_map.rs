//! The tile map: what kind of cell lies at each coordinate, line-of-sight
//! casts over those cells, and the text that shows the map.

use vstd::prelude::*;
use crate::vector2::{
    line, line_len, lemma_line_distinct, lemma_line_ends, Vector2, Vector2Range,
};

verus! {

/// What a cell of the map is. Each kind keeps the character it was read from.
#[derive(Clone, Copy, Debug, PartialEq, Eq, Structural)]
pub enum TileType {
    Walkable(char),
    Wall(char),
    OutOfBounds(char),
    SpawnPosition(char),
}

impl TileType {
    /// The kind of cell that a character of the layout stands for.
    pub open spec fn classify(tile: char) -> TileType {
        if tile == '#' {
            TileType::Wall(tile)
        } else if tile == '.' {
            TileType::Walkable(tile)
        } else if tile == '@' {
            TileType::SpawnPosition(tile)
        } else {
            TileType::OutOfBounds(tile)
        }
    }

    /// Whether a cell of this kind stops a walk.
    pub open spec fn blocks(self) -> bool {
        self is Wall || self is OutOfBounds
    }

    /// Classifies a character of the layout: `#` is a wall, `.` is walkable,
    /// `@` is a spawn cell, and anything else is out of bounds.
    pub fn from_char(tile: char) -> (r: Self)
        ensures
            r == Self::classify(tile),
    {
        match tile {
            '#' => Self::Wall(tile),
            '.' => Self::Walkable(tile),
            '@' => Self::SpawnPosition(tile),
            _ => Self::OutOfBounds(tile),
        }
    }

    /// Whether a cell of this kind stops a walk: walls and the outside do.
    pub fn is_blocking(&self) -> (r: bool)
        ensures
            r == self.blocks(),
    {
        match self {
            TileType::Wall(_) => true,
            TileType::OutOfBounds(_) => true,
            _ => false,
        }
    }
}

/// How a cast ended: on its target, or in front of the first cell that
/// blocked it.
#[derive(Clone, Copy, Debug, PartialEq, Eq, Structural)]
pub enum WalkResult {
    Finished(Vector2),
    Unfinished { hit: Vector2, safe: Vector2 },
}

/// The characters after the last line feed among the first `n` of `text`.
pub open spec fn open_row(text: Seq<char>, n: int) -> Seq<char>
    decreases n,
{
    if n <= 0 {
        Seq::empty()
    } else if text[n - 1] == '\n' {
        Seq::empty()
    } else {
        open_row(text, n - 1).push(text[n - 1])
    }
}

/// A row without the carriage return that may stand before its line feed.
pub open spec fn trim_return(row: Seq<char>) -> Seq<char> {
    if row.len() > 0 && row.last() == '\r' {
        row.drop_last()
    } else {
        row
    }
}

/// The rows that a line feed has ended among the first `n` characters of
/// `text`, top row first.
pub open spec fn closed_rows(text: Seq<char>, n: int) -> Seq<Seq<char>>
    decreases n,
{
    if n <= 0 {
        Seq::empty()
    } else if text[n - 1] == '\n' {
        closed_rows(text, n - 1).push(trim_return(open_row(text, n - 1)))
    } else {
        closed_rows(text, n - 1)
    }
}

/// The rows of a layout. A line feed ends a row, a carriage return right
/// before it is dropped, and the last row needs no line feed.
pub open spec fn rows_of(text: Seq<char>) -> Seq<Seq<char>> {
    let done = closed_rows(text, text.len() as int);
    let rest = open_row(text, text.len() as int);
    if rest.len() > 0 {
        done.push(rest)
    } else {
        done
    }
}

/// The kinds of the cells of one row.
pub open spec fn tiles_of(row: Seq<char>) -> Seq<TileType> {
    Seq::new(row.len(), |x: int| TileType::classify(row[x]))
}

/// The cell table of a layout: row `y`, column `x` holds the kind of the
/// `x`-th character of the `y`-th row.
pub open spec fn grid_of(text: Seq<char>) -> Seq<Seq<TileType>> {
    Seq::new(rows_of(text).len(), |y: int| tiles_of(rows_of(text)[y]))
}

/// Where the character of cell `position` stands in a layout whose rows are
/// `width` cells wide and end in one line terminator each.
pub open spec fn text_index(width: i32, position: Vector2) -> int {
    (width + 1) * position.1 + position.0
}

/// The layout `text` after the first `n` cells of the walk from `from` to
/// `to` have been overwritten with `glyph`.
pub open spec fn painted(
    text: Seq<char>,
    width: i32,
    from: Vector2,
    to: Vector2,
    n: int,
    glyph: char,
) -> Seq<char> {
    Seq::new(
        text.len(),
        |i: int|
            if exists|k: int| 0 <= k < n && text_index(width, #[trigger] line(from, to)[k]) == i {
                glyph
            } else {
                text[i]
            },
    )
}

/// A map: the text that shows it, the width of a row, and the kind of each
/// cell as it was when the map was loaded. Writing to the text never changes
/// what kind a cell is.
pub struct GameMap {
    pub string_map: Vec<char>,
    width: i32,
    walk_map: Vec<Vec<TileType>>,
}

impl GameMap {
    /// The cell table, row by row.
    pub closed spec fn cells(&self) -> Seq<Seq<TileType>> {
        Seq::new(self.walk_map@.len(), |y: int| self.walk_map@[y]@)
    }

    /// The characters of the text that shows the map.
    pub closed spec fn text(&self) -> Seq<char> {
        self.string_map@
    }

    /// The declared width of a row.
    pub closed spec fn row_width(&self) -> i32 {
        self.width
    }

    /// The kind of the cell at `position`: what the cell table holds there,
    /// and out of bounds wherever it holds nothing.
    pub open spec fn tile_at(&self, position: Vector2) -> TileType {
        if 0 <= position.1 < self.cells().len() && 0 <= position.0 < self.cells()[
        position.1 as int].len() {
            self.cells()[position.1 as int][position.0 as int]
        } else {
            TileType::OutOfBounds('0')
        }
    }

    /// Whether the cell at `position` stops a walk.
    pub open spec fn blocked(&self, position: Vector2) -> bool {
        self.tile_at(position).blocks()
    }

    /// The index of the first blocked cell at or after index `k` on the walk
    /// from `from` to `to`, or the length of the walk if there is none.
    pub open spec fn first_blocked(&self, from: Vector2, to: Vector2, k: int) -> int
        decreases line_len(from, to) - k,
    {
        if k < 0 || k >= line_len(from, to) {
            line_len(from, to)
        } else if self.blocked(line(from, to)[k]) {
            k
        } else {
            self.first_blocked(from, to, k + 1)
        }
    }

    /// What a cast from `from` towards `to` finds: the target if no cell of
    /// the walk is blocked, else the first blocked cell and the cell before
    /// it (`from` itself where the very first cell is blocked).
    pub open spec fn cast_spec(&self, from: Vector2, to: Vector2) -> WalkResult {
        let k = self.first_blocked(from, to, 0);
        if k >= line_len(from, to) {
            WalkResult::Finished(to)
        } else {
            WalkResult::Unfinished {
                hit: line(from, to)[k],
                safe: if k == 0 {
                    from
                } else {
                    line(from, to)[k - 1]
                },
            }
        }
    }

    /// No cell before `position` in reading order is a spawn cell.
    pub open spec fn no_spawn_before(&self, position: Vector2) -> bool {
        forall|q: Vector2|
            (q.1 < position.1 || (q.1 == position.1 && q.0 < position.0))
                ==> !(#[trigger] self.tile_at(q) is SpawnPosition)
    }

    /// The spawn cell of the map: the first one in reading order, top row
    /// first and left to right, or `None` where no cell is a spawn cell.
    pub open spec fn spawn_point(&self) -> Option<Vector2> {
        if exists|p: Vector2| #[trigger] self.tile_at(p) is SpawnPosition {
            Some(
                choose|p: Vector2|
                    #[trigger] self.tile_at(p) is SpawnPosition && self.no_spawn_before(p),
            )
        } else {
            None
        }
    }

    /// Reads a layout: each character becomes a cell, classified once, and
    /// the text is kept as it is.
    pub fn from_layout(text: &str, width: i32) -> (r: Self)
        ensures
            r.text() == text@,
            r.row_width() == width,
            r.cells() == grid_of(text@),
    {
        let mut string_map: Vec<char> = Vec::new();
        let mut walk_map: Vec<Vec<TileType>> = Vec::new();
        let mut row: Vec<TileType> = Vec::new();
        let mut after_return = false;
        for c in it: text.chars()
            invariant
                it.seq() == text@,
                string_map@ == text@.take(it.index()),
                walk_map@.len() == closed_rows(text@, it.index()).len(),
                forall|y: int|
                    0 <= y < walk_map@.len() ==> (#[trigger] walk_map@[y])@ == tiles_of(
                        closed_rows(text@, it.index())[y],
                    ),
                row@ == tiles_of(open_row(text@, it.index())),
                after_return == (open_row(text@, it.index()).len() > 0 && open_row(
                    text@,
                    it.index(),
                ).last() == '\r'),
        {
            let ghost i = it.index();
            let ghost open = open_row(text@, i);
            assert(text@[i] == c);
            string_map.push(c);
            assert(string_map@ =~= text@.take(i + 1));
            if c == '\n' {
                if after_return {
                    row.pop();
                }
                assert(row@ =~= tiles_of(trim_return(open)));
                walk_map.push(row);
                row = Vec::new();
                after_return = false;
                assert(row@ =~= tiles_of(open_row(text@, i + 1)));
            } else {
                row.push(TileType::from_char(c));
                after_return = c == '\r';
                assert(row@ =~= tiles_of(open_row(text@, i + 1)));
            }
        }
        if row.len() > 0 {
            walk_map.push(row);
        }
        let r = Self { string_map, width, walk_map };
        assert(string_map@ =~= text@);
        assert(r.cells() =~= grid_of(text@));
        r
    }

    /// The first spawn cell in reading order (top row first, left to right),
    /// or `None` where the map has no spawn cell.
    pub fn spawn_position(&self) -> (r: Option<Vector2>)
        ensures
            r == self.spawn_point(),
            match r {
                Some(p) => self.tile_at(p) is SpawnPosition && self.no_spawn_before(p),
                None => forall|q: Vector2| !(#[trigger] self.tile_at(q) is SpawnPosition),
            },
    {
        let mut y: usize = 0;
        while y < self.walk_map.len() && y <= 0x7fff_ffff
            invariant
                0 <= y <= self.walk_map.len(),
                y <= 0x8000_0000,
                forall|q: Vector2| q.1 < y ==> !(#[trigger] self.tile_at(q) is SpawnPosition),
            decreases self.walk_map.len() - y,
        {
            let row = &self.walk_map[y];
            let mut x: usize = 0;
            while x < row.len() && x <= 0x7fff_ffff
                invariant
                    0 <= y < self.walk_map.len(),
                    y <= 0x7fff_ffff,
                    row == &self.walk_map[y as int],
                    0 <= x <= row.len(),
                    x <= 0x8000_0000,
                    forall|q: Vector2| q.1 < y ==> !(#[trigger] self.tile_at(q) is SpawnPosition),
                    forall|q: Vector2|
                        q.1 == y && q.0 < x ==> !(#[trigger] self.tile_at(q) is SpawnPosition),
                decreases row.len() - x,
            {
                if let TileType::SpawnPosition(_) = row[x] {
                    let found = Vector2(x as i32, y as i32);
                    proof {
                        assert(self.tile_at(found) is SpawnPosition);
                        assert(self.no_spawn_before(found));
                        let chosen = choose|p: Vector2|
                            #[trigger] self.tile_at(p) is SpawnPosition && self.no_spawn_before(p);
                        assert(self.tile_at(chosen) is SpawnPosition);
                        assert(chosen == found);
                    }
                    return Some(found);
                }
                x += 1;
            }
            y += 1;
        }
        None
    }

    /// The kind of the cell at `position`.
    pub fn on_position(&self, position: &Vector2) -> (r: &TileType)
        ensures
            *r == self.tile_at(*position),
    {
        if position.1 >= 0 && position.0 >= 0 {
            let y = position.1 as usize;
            let x = position.0 as usize;
            if y < self.walk_map.len() {
                let row = &self.walk_map[y];
                if x < row.len() {
                    return &row[x];
                }
            }
        }
        &TileType::OutOfBounds('0')
    }

    /// Probes the walk from `from` towards `to` and stops in front of the
    /// first cell that is a wall or out of bounds.
    pub fn cast(&self, from: &Vector2, to: &Vector2) -> (r: WalkResult)
        ensures
            r == self.cast_spec(*from, *to),
    {
        let mut last = *from;
        let mut range = Vector2Range::new(from, to);
        let ghost mut k: int = 0;
        proof {
            lemma_line_ends(*from, *to);
        }
        loop
            invariant
                0 <= k <= line_len(*from, *to),
                line(*from, *to).len() == line_len(*from, *to),
                range@ == line(*from, *to).skip(k),
                self.first_blocked(*from, *to, 0) == self.first_blocked(*from, *to, k),
                last == (if k == 0 {
                    *from
                } else {
                    line(*from, *to)[k - 1]
                }),
            decreases line_len(*from, *to) - k,
        {
            match range.next() {
                None => {
                    return WalkResult::Finished(*to);
                },
                Some(position) => {
                    assert(position == line(*from, *to)[k]);
                    if self.on_position(&position).is_blocking() {
                        return WalkResult::Unfinished { hit: position, safe: last };
                    }
                    last = position;
                    proof {
                        assert(line(*from, *to).skip(k).skip(1) =~= line(*from, *to).skip(k + 1));
                        k = k + 1;
                    }
                },
            }
        }
    }

    /// Where the character of the cell at `position` stands in the text, if
    /// the text reaches that far.
    pub fn char_index(&self, position: &Vector2) -> (r: Option<usize>)
        ensures
            match r {
                Some(i) => i == text_index(self.row_width(), *position) && i < self.text().len(),
                None => !(0 <= text_index(self.row_width(), *position) < self.text().len()),
            },
    {
        let stride: i64 = self.width as i64 + 1;
        assert((stride as int) * (position.1 as int) <= 0x8000_0000 * 0x8000_0000
            && (stride as int) * (position.1 as int) >= -0x8000_0000 * 0x8000_0000)
            by (nonlinear_arith)
            requires
                -0x8000_0000 <= stride <= 0x8000_0000,
                -0x8000_0000 <= position.1 <= 0x8000_0000,
        ;
        let index: i64 = stride * (position.1 as i64) + position.0 as i64;
        if index < 0 {
            return None;
        }
        let len = self.string_map.len();
        if (index as u64) < (len as u64) {
            Some(index as usize)
        } else {
            None
        }
    }

    /// Overwrites the character of the cell at `position`. The kinds of the
    /// cells stay as they were.
    pub fn set_char(&mut self, position: &Vector2, to_place: char)
        requires
            0 <= text_index(old(self).row_width(), *position) < old(self).text().len(),
        ensures
            final(self).text() == old(self).text().update(
                text_index(old(self).row_width(), *position),
                to_place,
            ),
            final(self).row_width() == old(self).row_width(),
            final(self).cells() == old(self).cells(),
    {
        match self.char_index(position) {
            Some(index) => {
                self.string_map.set(index, to_place);
            },
            None => {},
        }
    }

    /// Overwrites the character of every cell on the walk from `from` to
    /// `to`. The kinds of the cells stay as they were.
    pub fn plot(&mut self, from: &Vector2, to: &Vector2, to_place: char)
        requires
            forall|k: int|
                0 <= k < line_len(*from, *to) ==> 0 <= text_index(
                    old(self).row_width(),
                    #[trigger] line(*from, *to)[k],
                ) < old(self).text().len(),
        ensures
            final(self).text() == painted(
                old(self).text(),
                old(self).row_width(),
                *from,
                *to,
                line_len(*from, *to),
                to_place,
            ),
            final(self).row_width() == old(self).row_width(),
            final(self).cells() == old(self).cells(),
    {
        let mut range = Vector2Range::new(from, to);
        let ghost mut k: int = 0;
        let ghost before = self.string_map@;
        let ghost width = self.row_width();
        proof {
            lemma_line_ends(*from, *to);
            assert(self.string_map@ =~= painted(before, width, *from, *to, 0, to_place));
        }
        loop
            invariant
                0 <= k <= line_len(*from, *to),
                line(*from, *to).len() == line_len(*from, *to),
                range@ == line(*from, *to).skip(k),
                self.row_width() == width,
                self.cells() == old(self).cells(),
                before == old(self).text(),
                width == old(self).row_width(),
                self.string_map@ == painted(before, width, *from, *to, k, to_place),
                forall|j: int|
                    0 <= j < line_len(*from, *to) ==> 0 <= text_index(
                        width,
                        #[trigger] line(*from, *to)[j],
                    ) < before.len(),
            decreases line_len(*from, *to) - k,
        {
            match range.next() {
                None => {
                    return ;
                },
                Some(position) => {
                    assert(position == line(*from, *to)[k]);
                    let ghost shown = self.string_map@;
                    self.set_char(&position, to_place);
                    proof {
                        assert(line(*from, *to).skip(k).skip(1) =~= line(*from, *to).skip(k + 1));
                        let at = text_index(width, position);
                        assert forall|i: int| 0 <= i < before.len() implies shown.update(
                            at,
                            to_place,
                        )[i] == painted(before, width, *from, *to, k + 1, to_place)[i] by {
                            if exists|j: int|
                                0 <= j < k + 1 && text_index(
                                    width,
                                    #[trigger] line(*from, *to)[j],
                                ) == i {
                                let j = choose|j: int|
                                    0 <= j < k + 1 && text_index(
                                        width,
                                        #[trigger] line(*from, *to)[j],
                                    ) == i;
                                if j < k {
                                    assert(shown[i] == to_place);
                                }
                            } else {
                                assert(i != at);
                            }
                        }
                        assert(self.string_map@ =~= painted(
                            before,
                            width,
                            *from,
                            *to,
                            k + 1,
                            to_place,
                        ));
                        k = k + 1;
                    }
                },
            }
        }
    }
}

/// From index `k` on, the first blocked cell of a walk is blocked, and no cell
/// between `k` and it is.
pub proof fn lemma_first_blocked(map: &GameMap, from: Vector2, to: Vector2, k: int)
    requires
        0 <= k <= line_len(from, to),
    ensures
        k <= map.first_blocked(from, to, k) <= line_len(from, to),
        map.first_blocked(from, to, k) < line_len(from, to) ==> map.blocked(
            line(from, to)[map.first_blocked(from, to, k)],
        ),
        forall|j: int|
            k <= j < map.first_blocked(from, to, k) ==> !map.blocked(#[trigger] line(from, to)[j]),
    decreases line_len(from, to) - k,
{
    if k < line_len(from, to) && !map.blocked(line(from, to)[k]) {
        lemma_first_blocked(map, from, to, k + 1);
    }
}

/// A cast over a walk on which no cell is a wall or out of bounds ends on its
/// target.
pub proof fn lemma_clear_cast_finishes(map: &GameMap, from: Vector2, to: Vector2)
    requires
        forall|k: int| 0 <= k < line_len(from, to) ==> !map.blocked(#[trigger] line(from, to)[k]),
    ensures
        map.cast_spec(from, to) == WalkResult::Finished(to),
{
    lemma_line_ends(from, to);
    lemma_first_blocked(map, from, to, 0);
}

/// A cast that starts on an open cell and meets a wall or the outside stops
/// there: it reports the first such cell of the walk and the cell right
/// before it, which is open, as are all the cells before.
pub proof fn lemma_blocked_cast_stops(map: &GameMap, from: Vector2, to: Vector2)
    requires
        !map.blocked(from),
        exists|k: int| 0 <= k < line_len(from, to) && map.blocked(#[trigger] line(from, to)[k]),
    ensures
        map.cast_spec(from, to) matches WalkResult::Unfinished { hit, safe } && {
            let at = map.first_blocked(from, to, 0);
            &&& 1 <= at < line_len(from, to)
            &&& hit == line(from, to)[at]
            &&& safe == line(from, to)[at - 1]
            &&& map.blocked(hit)
            &&& !map.blocked(safe)
            &&& safe != to
            &&& forall|j: int| 0 <= j < at ==> !map.blocked(#[trigger] line(from, to)[j])
        },
{
    lemma_line_ends(from, to);
    lemma_first_blocked(map, from, to, 0);
    let at = map.first_blocked(from, to, 0);
    let last = line_len(from, to) - 1;
    assert(at >= 1) by {
        if at == 0 {
            assert(map.blocked(line(from, to)[0]));
        }
    }
    assert(at <= last) by {
        let k = choose|k: int|
            0 <= k < line_len(from, to) && map.blocked(#[trigger] line(from, to)[k]);
        if at > last {
            assert(!map.blocked(line(from, to)[k]));
        }
    }
    if at - 1 < last {
        lemma_line_distinct(from, to, at - 1, last);
    }
}

} // verus!
