//! The grid map: cell kinds, bounds-checked queries, and the textual level
//! format.

use vstd::prelude::*;
use crate::vec2::Vec2i;

verus! {

/// What a single grid cell holds.
#[derive(Clone, Copy, Debug, PartialEq, Eq, Structural)]
pub enum TileType {
    Empty,
    Wall,
    Pellet,
    Player,
    GhostSpawn,
}

/// Largest accepted map side length. Keeps every coordinate computation,
/// including flat `y * width + x` indexing during path search, well inside
/// `i32`/`usize` range.
pub const MAX_MAP_DIM: usize = 10_000;

/// The level grid.
///
/// Note: only the array access is `tiles[y][x]`; everything else is `(x, y)`.
#[derive(Debug, Clone)]
pub struct MapData {
    pub width: usize,
    pub height: usize,
    pub tiles: Vec<Vec<TileType>>,
}

impl MapData {
    /// Well-formedness: the tile array matches `width` x `height`, and both
    /// dimensions stay within the machine limit.
    pub open spec fn wf(&self) -> bool {
        &&& self.tiles@.len() == self.height
        &&& forall|y: int| 0 <= y < self.height ==> self.tiles@[y]@.len() == self.width
        &&& self.width <= MAX_MAP_DIM
        &&& self.height <= MAX_MAP_DIM
    }

    /// The tile at column `x`, row `y`.
    pub open spec fn spec_tile(&self, x: int, y: int) -> TileType {
        self.tiles@[y]@[x]
    }

    /// Whether `(x, y)` lies on the grid.
    pub open spec fn spec_in_bounds(&self, x: int, y: int) -> bool {
        0 <= x < self.width && 0 <= y < self.height
    }

    /// Whether the cell at position `p` lies on the grid.
    pub open spec fn contains_pos(&self, p: Vec2i) -> bool {
        self.spec_in_bounds(p.x as int, p.y as int)
    }

    /// A cell a moving agent may occupy: on the grid and not a wall.
    pub open spec fn open_cell(&self, p: Vec2i) -> bool {
        self.contains_pos(p) && self.spec_tile(p.x as int, p.y as int) !is Wall
    }

    /// An all-empty grid of the given dimensions.
    pub fn new(width: usize, height: usize) -> (r: Self)
        requires
            width <= MAX_MAP_DIM,
            height <= MAX_MAP_DIM,
        ensures
            r.wf(),
            r.width == width,
            r.height == height,
            forall|x: int, y: int|
                0 <= x < width && 0 <= y < height ==> r.spec_tile(x, y) == TileType::Empty,
    {
        let mut tiles: Vec<Vec<TileType>> = Vec::new();
        let mut y: usize = 0;
        while y < height
            invariant
                y <= height,
                tiles@.len() == y,
                forall|j: int| 0 <= j < y ==> tiles@[j]@.len() == width,
                forall|j: int, i: int|
                    0 <= j < y && 0 <= i < width ==> tiles@[j]@[i] == TileType::Empty,
            decreases height - y,
        {
            let mut row: Vec<TileType> = Vec::new();
            let mut x: usize = 0;
            while x < width
                invariant
                    x <= width,
                    row@.len() == x,
                    forall|i: int| 0 <= i < x ==> row@[i] == TileType::Empty,
                decreases width - x,
            {
                row.push(TileType::Empty);
                x = x + 1;
            }
            tiles.push(row);
            y = y + 1;
        }
        MapData { width, height, tiles }
    }

    pub fn is_wall(&self, x: usize, y: usize) -> (r: bool)
        requires
            self.wf(),
            x < self.width,
            y < self.height,
        ensures
            r == (self.spec_tile(x as int, y as int) is Wall),
    {
        self.tiles[y][x] == TileType::Wall
    }

    pub fn is_pellet(&self, x: usize, y: usize) -> (r: bool)
        requires
            self.wf(),
            x < self.width,
            y < self.height,
        ensures
            r == (self.spec_tile(x as int, y as int) is Pellet),
    {
        self.tiles[y][x] == TileType::Pellet
    }

    pub fn is_player(&self, x: usize, y: usize) -> (r: bool)
        requires
            self.wf(),
            x < self.width,
            y < self.height,
        ensures
            r == (self.spec_tile(x as int, y as int) is Player),
    {
        self.tiles[y][x] == TileType::Player
    }

    pub fn is_ghost(&self, x: usize, y: usize) -> (r: bool)
        requires
            self.wf(),
            x < self.width,
            y < self.height,
        ensures
            r == (self.spec_tile(x as int, y as int) is GhostSpawn),
    {
        self.tiles[y][x] == TileType::GhostSpawn
    }

    /// Replaces the tile at `(x, y)`; the grid dimensions never change.
    pub fn set(&mut self, x: usize, y: usize, tile_type: TileType)
        requires
            old(self).wf(),
            x < old(self).width,
            y < old(self).height,
        ensures
            final(self).wf(),
            final(self).width == old(self).width,
            final(self).height == old(self).height,
            final(self).spec_tile(x as int, y as int) == tile_type,
            forall|i: int, j: int|
                old(self).spec_in_bounds(i, j) && !(i == x && j == y)
                    ==> final(self).spec_tile(i, j) == old(self).spec_tile(i, j),
    {
        let row: &mut Vec<TileType> = &mut self.tiles[y];
        row.set(x, tile_type);
    }

    pub fn get(&self, x: usize, y: usize) -> (r: TileType)
        requires
            self.wf(),
            x < self.width,
            y < self.height,
        ensures
            r == self.spec_tile(x as int, y as int),
    {
        self.tiles[y][x]
    }
}

impl MapData {
    /// Whether signed coordinates land on this map's grid.
    pub fn is_valid_position(&self, x: i32, y: i32) -> (r: bool)
        ensures
            r == self.spec_in_bounds(x as int, y as int),
    {
        check_position(x, y, self.width, self.height)
    }
}

/// Whether signed coordinates `(x, y)` land on a `width` x `height` grid,
/// using strict half-open range checks on both axes.
pub fn check_position(x: i32, y: i32, width: usize, height: usize) -> (r: bool)
    ensures
        r == (0 <= x < width && 0 <= y < height),
{
    x >= 0 && (x as usize) < width && y >= 0 && (y as usize) < height
}

/// The line separator of the level text format.
pub const NL: u8 = 10;

/// Errors a malformed level description can raise at load time.
#[derive(Debug, Clone, Copy, PartialEq, Eq, Structural)]
pub enum MapError {
    /// The lines of the description do not all have the same length.
    NotRectangular,
    /// The description exceeds the supported map dimensions.
    TooLarge,
}

/// The cell kind a level-text character denotes: `#` wall, `.` pellet,
/// `P` player start, `G` ghost start, anything else empty.
pub open spec fn tile_of_char(c: u8) -> TileType {
    if c == 35 {
        TileType::Wall
    } else if c == 46 {
        TileType::Pellet
    } else if c == 80 {
        TileType::Player
    } else if c == 71 {
        TileType::GhostSpawn
    } else {
        TileType::Empty
    }
}

/// The canonical character of a cell kind; an empty cell prints as a
/// space.
pub open spec fn char_of_tile(t: TileType) -> u8 {
    match t {
        TileType::Wall => 35,
        TileType::Pellet => 46,
        TileType::Player => 80,
        TileType::GhostSpawn => 71,
        TileType::Empty => 32,
    }
}

/// The index of the first newline in `t`, or `t`'s length when there is
/// none.
pub open spec fn find_nl(t: Seq<u8>) -> nat
    decreases t.len(),
{
    if t.len() == 0 {
        0
    } else if t[0] == NL {
        0
    } else {
        1 + find_nl(t.drop_first())
    }
}

/// The first newline index stays within `t`, points at a newline, and
/// nothing before it is a newline.
pub proof fn lemma_find_nl(t: Seq<u8>)
    ensures
        find_nl(t) <= t.len(),
        find_nl(t) < t.len() ==> t[find_nl(t) as int] == NL,
        forall|k: int| 0 <= k < find_nl(t) ==> t[k] != NL,
    decreases t.len(),
{
    if t.len() > 0 && t[0] != NL {
        lemma_find_nl(t.drop_first());
        assert forall|k: int| 0 <= k < find_nl(t) implies t[k] != NL by {
            if k > 0 {
                assert(t.drop_first()[k - 1] != NL);
            }
        }
    }
}

/// A stretch without newlines followed by a newline (or the end) fixes the
/// first newline index.
pub proof fn lemma_find_nl_at(t: Seq<u8>, m: int)
    requires
        0 <= m <= t.len(),
        forall|k: int| 0 <= k < m ==> t[k] != NL,
        m == t.len() || t[m] == NL,
    ensures
        find_nl(t) == m,
    decreases m,
{
    if m == 0 {
    } else {
        assert(t[0] != NL);
        lemma_find_nl_at(t.drop_first(), m - 1);
    }
}

/// `t` cut at every newline; the separators themselves are dropped, and a
/// trailing newline yields a final empty segment.
pub open spec fn split_raw(t: Seq<u8>) -> Seq<Seq<u8>>
    decreases t.len(),
{
    let i = find_nl(t) as int;
    if i >= t.len() {
        seq![t]
    } else {
        seq![t.take(i)] + split_raw(t.skip(i + 1))
    }
}

/// The lines of a level text, as `str::lines` reads them: no lines in an
/// empty text, and no final empty line after a trailing newline.
pub open spec fn spec_lines(t: Seq<u8>) -> Seq<Seq<u8>> {
    if t.len() == 0 {
        Seq::empty()
    } else {
        let s = split_raw(t);
        if s.last().len() == 0 {
            s.drop_last()
        } else {
            s
        }
    }
}

/// A level text parses iff its lines are all equally long and both
/// dimensions fit the supported range.
pub open spec fn parseable(t: Seq<u8>) -> bool {
    let lines = spec_lines(t);
    &&& lines.len() <= MAX_MAP_DIM
    &&& (lines.len() > 0 ==> lines[0].len() <= MAX_MAP_DIM)
    &&& forall|i: int| 0 <= i < lines.len() ==> (#[trigger] lines[i]).len() == lines[0].len()
}

/// The error reported for an unparseable text: a dimension overflow wins
/// over a ragged line.
pub open spec fn spec_parse_error(t: Seq<u8>) -> MapError {
    let lines = spec_lines(t);
    if lines.len() > MAX_MAP_DIM {
        MapError::TooLarge
    } else if lines.len() > 0 && lines[0].len() > MAX_MAP_DIM {
        MapError::TooLarge
    } else {
        MapError::NotRectangular
    }
}

/// The tile rows a sequence of text lines denotes.
pub open spec fn tiles_of_lines(lines: Seq<Seq<u8>>) -> Seq<Seq<TileType>> {
    lines.map_values(|l: Seq<u8>| l.map_values(|c: u8| tile_of_char(c)))
}

/// The canonical character row of a tile row.
pub open spec fn row_chars(row: Seq<TileType>) -> Seq<u8> {
    row.map_values(|t: TileType| char_of_tile(t))
}

/// The serialized level text of a tile grid: rows joined by single
/// newlines, with no trailing newline.
pub open spec fn spec_map_text(tiles: Seq<Seq<TileType>>) -> Seq<u8>
    decreases tiles.len(),
{
    if tiles.len() == 0 {
        Seq::empty()
    } else if tiles.len() == 1 {
        row_chars(tiles[0])
    } else {
        row_chars(tiles[0]) + seq![NL] + spec_map_text(tiles.drop_first())
    }
}

/// The tile rows of a map, as mathematical sequences.
pub open spec fn tiles_view(m: &MapData) -> Seq<Seq<TileType>> {
    m.tiles@.map_values(|r: Vec<TileType>| r@)
}

/// Every character is a newline or one of the five canonical tile
/// characters (each of which survives a decode/encode round trip).
pub open spec fn canonical_text(t: Seq<u8>) -> bool {
    forall|i: int|
        0 <= i < t.len() ==> (#[trigger] t[i] == NL || char_of_tile(tile_of_char(t[i])) == t[i])
}

/// Splitting always yields at least one segment, and with no trailing
/// newline the final segment is nonempty.
pub proof fn lemma_split_last_nonempty(t: Seq<u8>)
    requires
        t.len() > 0,
        t.last() != NL,
    ensures
        split_raw(t).len() >= 1,
        split_raw(t).last().len() > 0,
    decreases t.len(),
{
    lemma_find_nl(t);
    let i = find_nl(t) as int;
    if i >= t.len() {
    } else {
        assert(t[i] == NL);
        assert(i < t.len() - 1) by {
            if i == t.len() - 1 {
                assert(t.last() == NL);
            }
        }
        let rest = t.skip(i + 1);
        assert(rest.len() > 0);
        assert(rest.last() == t.last());
        lemma_split_last_nonempty(rest);
        assert(split_raw(t).last() == split_raw(rest).last());
    }
}

/// Appending one more row to a nonempty grid appends a newline and the
/// row's characters to its text.
pub proof fn lemma_map_text_push_row(tiles: Seq<Seq<TileType>>, row: Seq<TileType>)
    requires
        tiles.len() >= 1,
    ensures
        spec_map_text(tiles.push(row)) == spec_map_text(tiles) + seq![NL] + row_chars(row),
    decreases tiles.len(),
{
    if tiles.len() == 1 {
        assert(tiles.push(row).drop_first() =~= seq![row]);
        assert(spec_map_text(seq![row]) == row_chars(row));
        assert(tiles.push(row)[0] == tiles[0]);
        assert(spec_map_text(tiles.push(row)) == row_chars(tiles[0]) + seq![NL] + row_chars(row));
    } else {
        lemma_map_text_push_row(tiles.drop_first(), row);
        assert(tiles.push(row).drop_first() =~= tiles.drop_first().push(row));
        assert(tiles.push(row)[0] == tiles[0]);
        assert(spec_map_text(tiles.push(row)) == row_chars(tiles[0]) + seq![NL] + spec_map_text(
            tiles.drop_first().push(row),
        ));
        assert(row_chars(tiles[0]) + seq![NL] + (spec_map_text(tiles.drop_first()) + seq![NL]
            + row_chars(row)) =~= (row_chars(tiles[0]) + seq![NL] + spec_map_text(
            tiles.drop_first(),
        )) + seq![NL] + row_chars(row));
    }
}

/// Decoding every split segment into tiles and serializing the grid back
/// reproduces a canonical text without trailing newline exactly.
pub proof fn lemma_round_trip_split(t: Seq<u8>)
    requires
        t.len() > 0,
        t.last() != NL,
        canonical_text(t),
    ensures
        spec_map_text(tiles_of_lines(split_raw(t))) == t,
    decreases t.len(),
{
    lemma_find_nl(t);
    let i = find_nl(t) as int;
    if i >= t.len() {
        let tiles = tiles_of_lines(seq![t]);
        assert(tiles.len() == 1);
        assert(tiles[0] == t.map_values(|c: u8| tile_of_char(c)));
        assert(row_chars(tiles[0]) =~= t) by {
            assert forall|k: int| 0 <= k < t.len() implies row_chars(tiles[0])[k] == t[k] by {
                assert(t[k] != NL);
            }
        }
    } else {
        assert(t[i] == NL);
        assert(i < t.len() - 1) by {
            if i == t.len() - 1 {
                assert(t.last() == NL);
            }
        }
        let head = t.take(i);
        let rest = t.skip(i + 1);
        assert(rest.len() > 0);
        assert(rest.last() == t.last());
        assert(canonical_text(rest)) by {
            assert forall|k: int|
                0 <= k < rest.len() implies (#[trigger] rest[k] == NL || char_of_tile(
                tile_of_char(rest[k]),
            ) == rest[k]) by {
                assert(rest[k] == t[k + i + 1]);
            }
        }
        lemma_round_trip_split(rest);
        lemma_split_last_nonempty(rest);
        let s_rest = split_raw(rest);
        let tiles = tiles_of_lines(split_raw(t));
        assert(split_raw(t) == seq![head] + s_rest);
        assert(tiles.len() == 1 + s_rest.len());
        assert(tiles.drop_first() =~= tiles_of_lines(s_rest)) by {
            assert forall|j: int|
                0 <= j < s_rest.len() implies tiles.drop_first()[j] == tiles_of_lines(s_rest)[j]
                by {
                assert((seq![head] + s_rest)[j + 1] == s_rest[j]);
            }
        }
        assert(tiles[0] == head.map_values(|c: u8| tile_of_char(c)));
        assert(row_chars(tiles[0]) =~= head) by {
            assert forall|k: int| 0 <= k < head.len() implies row_chars(tiles[0])[k] == head[k]
                by {
                assert(head[k] == t[k]);
                assert(t[k] != NL);
            }
        }
        assert(spec_map_text(tiles) == row_chars(tiles[0]) + seq![NL] + spec_map_text(
            tiles_of_lines(s_rest),
        ));
        assert(head + seq![NL] + rest =~= t);
    }
}

/// With no trailing newline the line split is exactly the raw split.
pub proof fn lemma_lines_eq_split(t: Seq<u8>)
    requires
        t.len() > 0,
        t.last() != NL,
    ensures
        spec_lines(t) == split_raw(t),
{
    lemma_split_last_nonempty(t);
}

/// Round trip of the level text format: decoding a canonical level text
/// (one whose characters are the five tile characters and inner newlines)
/// into its wall/collectible grid and serializing that grid back
/// reproduces the original text exactly.
///
/// A text ending in a newline cannot round-trip byte-for-byte: the line
/// split consumes the final empty line, and serialization never emits a
/// trailing newline — hence the requirement on the last character.
pub proof fn lemma_level_text_round_trip(t: Seq<u8>)
    requires
        t.len() > 0,
        t.last() != NL,
        canonical_text(t),
    ensures
        spec_map_text(tiles_of_lines(spec_lines(t))) == t,
{
    lemma_lines_eq_split(t);
    lemma_round_trip_split(t);
}

/// The cell kind of one level-text character, as executable code.
fn tile_of_char_exec(c: u8) -> (r: TileType)
    ensures
        r == tile_of_char(c),
{
    if c == 35 {
        TileType::Wall
    } else if c == 46 {
        TileType::Pellet
    } else if c == 80 {
        TileType::Player
    } else if c == 71 {
        TileType::GhostSpawn
    } else {
        TileType::Empty
    }
}

/// The canonical character of one cell kind, as executable code.
fn char_of_tile_exec(t: TileType) -> (r: u8)
    ensures
        r == char_of_tile(t),
{
    match t {
        TileType::Wall => 35,
        TileType::Pellet => 46,
        TileType::Player => 80,
        TileType::GhostSpawn => 71,
        TileType::Empty => 32,
    }
}

/// Cuts the text at every newline, dropping a final empty segment, just
/// as the line split of the format specifies.
fn split_lines(text: &[u8]) -> (r: Vec<Vec<u8>>)
    ensures
        r@.map_values(|v: Vec<u8>| v@) == spec_lines(text@),
{
    let n = text.len();
    let mut lines: Vec<Vec<u8>> = Vec::new();
    let mut cur: Vec<u8> = Vec::new();
    let ghost mut seg_start: int = 0;
    let mut j: usize = 0;
    proof {
        assert(text@.skip(0) =~= text@);
        assert(lines@.map_values(|v: Vec<u8>| v@) + split_raw(text@) =~= split_raw(text@));
        assert(cur@ =~= text@.subrange(0, 0));
    }
    while j < n
        invariant
            n == text@.len(),
            j <= n,
            0 <= seg_start <= j,
            cur@ == text@.subrange(seg_start, j as int),
            forall|k: int| seg_start <= k < j ==> text@[k] != NL,
            split_raw(text@) == lines@.map_values(|v: Vec<u8>| v@) + split_raw(
                text@.skip(seg_start),
            ),
        decreases n - j,
    {
        let c = text[j];
        if c == NL {
            proof {
                let suffix = text@.skip(seg_start);
                assert forall|k: int| 0 <= k < j - seg_start implies suffix[k] != NL by {
                    assert(suffix[k] == text@[k + seg_start]);
                }
                assert(suffix[j - seg_start] == NL);
                lemma_find_nl_at(suffix, j - seg_start);
                assert(suffix.take(j - seg_start) =~= text@.subrange(seg_start, j as int));
                assert(suffix.skip(j - seg_start + 1) =~= text@.skip(j + 1));
                assert(split_raw(suffix) == seq![cur@] + split_raw(text@.skip(j + 1)));
                assert(lines@.push(cur).map_values(|v: Vec<u8>| v@) =~= lines@.map_values(
                    |v: Vec<u8>| v@,
                ).push(cur@));
                assert(lines@.map_values(|v: Vec<u8>| v@) + (seq![cur@] + split_raw(
                    text@.skip(j + 1),
                )) =~= lines@.map_values(|v: Vec<u8>| v@).push(cur@) + split_raw(
                    text@.skip(j + 1),
                ));
            }
            lines.push(cur);
            cur = Vec::new();
            proof {
                seg_start = j + 1;
            }
        } else {
            cur.push(c);
            proof {
                assert(cur@ =~= text@.subrange(seg_start, j + 1));
            }
        }
        j = j + 1;
    }
    proof {
        let suffix = text@.skip(seg_start);
        assert forall|k: int| 0 <= k < n - seg_start implies suffix[k] != NL by {
            assert(suffix[k] == text@[k + seg_start]);
        }
        lemma_find_nl_at(suffix, n - seg_start);
        assert(split_raw(suffix) == seq![suffix]);
        assert(suffix =~= cur@);
    }
    if cur.len() > 0 {
        proof {
            assert(lines@.push(cur).map_values(|v: Vec<u8>| v@) =~= lines@.map_values(
                |v: Vec<u8>| v@,
            ).push(cur@));
            assert(lines@.map_values(|v: Vec<u8>| v@) + seq![cur@] =~= lines@.map_values(
                |v: Vec<u8>| v@,
            ).push(cur@));
            assert(split_raw(text@).last() == cur@);
        }
        lines.push(cur);
        lines
    } else {
        proof {
            if text@.len() == 0 {
                assert(lines@.map_values(|v: Vec<u8>| v@) =~= spec_lines(text@));
            } else {
                assert(split_raw(text@).last() == cur@);
                assert(split_raw(text@).drop_last() =~= lines@.map_values(|v: Vec<u8>| v@));
            }
        }
        lines
    }
}

/// Parses a rectangular level text into a map: each character maps to one
/// cell, with row 0 at the top. Empty input yields the degenerate
/// zero-by-zero map; ragged lines and oversized grids are rejected.
pub fn parse_map(text: &[u8]) -> (r: Result<MapData, MapError>)
    ensures
        r is Ok <==> parseable(text@),
        r matches Ok(m) ==> ({
            let lines = spec_lines(text@);
            &&& m.wf()
            &&& m.height == lines.len()
            &&& m.width == (if lines.len() > 0 {
                lines[0].len()
            } else {
                0
            })
            &&& tiles_view(&m) == tiles_of_lines(lines)
        }),
        r matches Err(e) ==> e == spec_parse_error(text@),
{
    let ghost glines = spec_lines(text@);
    let lines = split_lines(text);
    let height = lines.len();
    proof {
        assert(glines.len() == height);
        assert forall|y: int| 0 <= y < height implies (#[trigger] glines[y]).len()
            == lines@[y]@.len() by {
            assert(glines[y] == lines@.map_values(|v: Vec<u8>| v@)[y]);
        }
    }
    if height > MAX_MAP_DIM {
        return Err(MapError::TooLarge);
    }
    let width = if height > 0 {
        lines[0].len()
    } else {
        0
    };
    if width > MAX_MAP_DIM {
        return Err(MapError::TooLarge);
    }
    let mut y: usize = 0;
    while y < height
        invariant
            height == lines@.len(),
            glines == spec_lines(text@),
            glines == lines@.map_values(|v: Vec<u8>| v@),
            y <= height,
            height <= MAX_MAP_DIM,
            width <= MAX_MAP_DIM,
            height > 0 ==> width == glines[0].len(),
            forall|i: int| 0 <= i < y ==> (#[trigger] glines[i]).len() == width,
        decreases height - y,
    {
        if lines[y].len() != width {
            proof {
                assert(glines[y as int].len() == lines@[y as int]@.len());
                assert(glines[y as int].len() != glines[0].len());
            }
            return Err(MapError::NotRectangular);
        }
        proof {
            assert(glines[y as int].len() == lines@[y as int]@.len());
        }
        y = y + 1;
    }
    let mut tiles: Vec<Vec<TileType>> = Vec::new();
    let mut yy: usize = 0;
    while yy < height
        invariant
            height == lines@.len(),
            glines == spec_lines(text@),
            glines == lines@.map_values(|v: Vec<u8>| v@),
            yy <= height,
            height > 0 ==> width == glines[0].len(),
            forall|i: int| 0 <= i < height ==> (#[trigger] glines[i]).len() == width,
            tiles@.len() == yy,
            forall|i: int|
                0 <= i < yy ==> (#[trigger] tiles@[i])@ == glines[i].map_values(
                    |c: u8| tile_of_char(c),
                ),
        decreases height - yy,
    {
        let line: &Vec<u8> = &lines[yy];
        let mut row: Vec<TileType> = Vec::new();
        let mut x: usize = 0;
        while x < line.len()
            invariant
                x <= line@.len(),
                row@.len() == x,
                forall|k: int| 0 <= k < x ==> #[trigger] row@[k] == tile_of_char(line@[k]),
            decreases line@.len() - x,
        {
            row.push(tile_of_char_exec(line[x]));
            x = x + 1;
        }
        proof {
            assert(row@ =~= glines[yy as int].map_values(|c: u8| tile_of_char(c)));
        }
        tiles.push(row);
        yy = yy + 1;
    }
    let m = MapData { width, height, tiles };
    proof {
        assert(tiles_view(&m) =~= tiles_of_lines(glines));
    }
    Ok(m)
}

/// Loads a map from a level description held as bytes of text.
pub trait MapLoader {
    /// Parses the textual level description exactly as `parse_map` does.
    fn load_map(&self, text: &[u8]) -> (r: Result<MapData, MapError>)
        ensures
            r is Ok <==> parseable(text@),
            r matches Ok(m) ==> ({
                let lines = spec_lines(text@);
                &&& m.wf()
                &&& m.height == lines.len()
                &&& m.width == (if lines.len() > 0 {
                    lines[0].len()
                } else {
                    0
                })
                &&& tiles_view(&m) == tiles_of_lines(lines)
            }),
            r matches Err(e) ==> e == spec_parse_error(text@),
    ;
}

/// The plain text loader of the level format.
#[derive(Debug)]
pub struct TextMapLoader;

impl MapLoader for TextMapLoader {
    fn load_map(&self, text: &[u8]) -> (r: Result<MapData, MapError>) {
        parse_map(text)
    }
}

impl MapData {
    /// Serializes the grid back to its level text: rows joined by single
    /// newlines with no trailing newline, one canonical character per
    /// cell.
    pub fn to_text(&self) -> (r: Vec<u8>)
        ensures
            r@ == spec_map_text(tiles_view(self)),
    {
        let ghost gtiles = tiles_view(self);
        let mut out: Vec<u8> = Vec::new();
        let mut y: usize = 0;
        while y < self.tiles.len()
            invariant
                gtiles == tiles_view(self),
                y <= self.tiles@.len(),
                out@ == spec_map_text(gtiles.take(y as int)),
            decreases self.tiles@.len() - y,
        {
            let ghost pre_text = out@;
            if y > 0 {
                out.push(NL);
            }
            let row: &Vec<TileType> = &self.tiles[y];
            let mut x: usize = 0;
            while x < row.len()
                invariant
                    x <= row@.len(),
                    row@ == gtiles[y as int],
                    y < gtiles.len(),
                    out@ == pre_text + (if y > 0 {
                        seq![NL]
                    } else {
                        Seq::<u8>::empty()
                    }) + row_chars(row@.take(x as int)),
                decreases row@.len() - x,
            {
                out.push(char_of_tile_exec(row[x]));
                proof {
                    assert(row_chars(row@.take(x + 1)) =~= row_chars(row@.take(x as int)).push(
                        char_of_tile(row@[x as int]),
                    ));
                    assert(out@ =~= pre_text + (if y > 0 {
                        seq![NL]
                    } else {
                        Seq::<u8>::empty()
                    }) + row_chars(row@.take(x + 1)));
                }
                x = x + 1;
            }
            proof {
                assert(row@.take(row@.len() as int) =~= row@);
                if y == 0 {
                    assert(gtiles.take(1) =~= seq![gtiles[0]]);
                    assert(spec_map_text(seq![gtiles[0]]) == row_chars(gtiles[0]));
                    assert(out@ =~= spec_map_text(gtiles.take(1)));
                } else {
                    lemma_map_text_push_row(gtiles.take(y as int), gtiles[y as int]);
                    assert(gtiles.take(y as int).push(gtiles[y as int]) =~= gtiles.take(y + 1));
                    assert(out@ =~= spec_map_text(gtiles.take(y as int)) + seq![NL] + row_chars(
                        gtiles[y as int],
                    ));
                }
            }
            y = y + 1;
        }
        proof {
            assert(gtiles.take(gtiles.len() as int) =~= gtiles);
        }
        out
    }
}

} // verus!
