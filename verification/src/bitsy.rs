//! # Bitsy rooms
//!
//! A room is drawn as text: at most `world_size` lines of at most `world_size` cells, where a
//! digit is a tile of that type, a space is a cell without a tile, and a newline starts the
//! next line. White space around the drawing is ignored.

use vstd::prelude::*;
use vstd::string::StrSliceExecFns;

use crate::boxsy::{Contact, IVec2};
use crate::data::{find_or_push, index_in, no_repeats, with_value, Comparable};
use crate::graph::{resized_flags, resized_matrix, StateMachine};

verus! {

/// The width and height of a room, in tiles.
pub const WORLD_SIZE: usize = 8;

/// Why a room drawing was refused.
#[derive(Clone, Copy, Debug, PartialEq, Eq)]
pub enum RoomError {
    /// The drawing has more lines, or a line more cells, than a room of the world's size.
    TooBig,
    /// A digit names a tile type that was not logged.
    TileNotFound(usize),
    /// A character that is neither a digit, a space nor a newline.
    Unrecognized(char),
}

/// Unicode's `White_Space` characters.
pub open spec fn is_white_space(c: char) -> bool {
    let u = c as u32;
    ||| 0x9 <= u <= 0xD
    ||| u == 0x20
    ||| u == 0x85
    ||| u == 0xA0
    ||| u == 0x1680
    ||| 0x2000 <= u <= 0x200A
    ||| u == 0x2028
    ||| u == 0x2029
    ||| u == 0x202F
    ||| u == 0x205F
    ||| u == 0x3000
}

/// `s` without the white space at its start.
pub open spec fn trim_start(s: Seq<char>) -> Seq<char>
    decreases s.len(),
{
    if s.len() > 0 && is_white_space(s[0]) {
        trim_start(s.drop_first())
    } else {
        s
    }
}

/// `s` without the white space at its end.
pub open spec fn trim_end(s: Seq<char>) -> Seq<char>
    decreases s.len(),
{
    if s.len() > 0 && is_white_space(s.last()) {
        trim_end(s.drop_last())
    } else {
        s
    }
}

/// `s` without the white space at either end.
pub open spec fn trim(s: Seq<char>) -> Seq<char> {
    trim_end(trim_start(s))
}

/// The cell that comes after the drawing `t`: its column and its line.
pub open spec fn cursor(t: Seq<char>) -> (nat, nat)
    decreases t.len(),
{
    if t.len() == 0 {
        (0, 0)
    } else {
        let (x, y) = cursor(t.drop_last());
        if t.last() == '\n' {
            (0, y + 1)
        } else {
            (x + 1, y)
        }
    }
}

/// The drawing `t` has at most `world_size` lines, each of at most `world_size` cells.
pub open spec fn fits(t: Seq<char>, world_size: nat) -> bool
    decreases t.len(),
{
    if t.len() == 0 {
        true
    } else {
        let (x, y) = cursor(t.drop_last());
        &&& fits(t.drop_last(), world_size)
        &&& if t.last() == '\n' {
            y + 1 < world_size
        } else {
            x < world_size
        }
    }
}

/// The tiles that the drawing `t` places, in order, or why it is refused. A tile is
/// `(tile type, x, y)`.
pub open spec fn scan_room(t: Seq<char>, tile_type_count: nat) -> Result<Seq<(usize, usize, usize)>, RoomError>
    decreases t.len(),
{
    if t.len() == 0 {
        Ok(Seq::empty())
    } else {
        match scan_room(t.drop_last(), tile_type_count) {
            Err(e) => Err(e),
            Ok(tiles) => {
                let (x, y) = cursor(t.drop_last());
                let c = t.last();
                let u = c as u32;
                if 48 <= u <= 57 {
                    let idx = (u - 48) as usize;
                    if idx >= tile_type_count {
                        Err(RoomError::TileNotFound(idx))
                    } else {
                        Ok(tiles.push((idx, x as usize, y as usize)))
                    }
                } else if c == ' ' || c == '\n' {
                    Ok(tiles)
                } else {
                    Err(RoomError::Unrecognized(c))
                }
            },
        }
    }
}

/// The tiles of the room that `map` draws, in the order they are drawn, or why it is refused:
/// without its surrounding white space, the drawing must have at most `world_size` lines of
/// at most `world_size` cells each; then a digit not less than `tile_type_count`, or any other
/// character than a digit, a space or a newline, refuses it at the first such character.
pub open spec fn spec_parse_room(map: Seq<char>, world_size: nat, tile_type_count: nat) -> Result<Seq<(usize, usize, usize)>, RoomError> {
    let t = trim(map);
    if !fits(t, world_size) {
        Err(RoomError::TooBig)
    } else {
        scan_room(t, tile_type_count)
    }
}

fn white_space(c: char) -> (res: bool)
    ensures
        res == is_white_space(c),
{
    let u = c as u32;
    (0x9 <= u && u <= 0xD) || u == 0x20 || u == 0x85 || u == 0xA0 || u == 0x1680 || (0x2000 <= u && u
        <= 0x200A) || u == 0x2028 || u == 0x2029 || u == 0x202F || u == 0x205F || u == 0x3000
}

/// A prefix of a drawing that fits in a room fits too.
proof fn lemma_fits_prefix(t: Seq<char>, k: int, world_size: nat)
    requires
        0 <= k <= t.len(),
        fits(t, world_size),
    ensures
        fits(t.subrange(0, k), world_size),
    decreases t.len() - k,
{
    if k < t.len() {
        lemma_fits_prefix(t.drop_last(), k, world_size);
        assert(t.drop_last().subrange(0, k) =~= t.subrange(0, k));
    } else {
        assert(t.subrange(0, k) =~= t);
    }
}

/// In a room that has a line, a drawing that fits ends on one of its lines.
proof fn lemma_cursor_in_room(t: Seq<char>, world_size: nat)
    requires
        fits(t, world_size),
        1 <= world_size,
    ensures
        cursor(t).1 < world_size,
        cursor(t).0 <= world_size,
    decreases t.len(),
{
    if t.len() > 0 {
        lemma_cursor_in_room(t.drop_last(), world_size);
    }
}

/// Every tile of a drawing that fits lies inside the room.
proof fn lemma_tiles_in_room(t: Seq<char>, world_size: nat, tile_type_count: nat)
    requires
        fits(t, world_size),
        world_size <= usize::MAX,
        scan_room(t, tile_type_count) is Ok,
    ensures
        forall|i: int| 0 <= i < scan_room(t, tile_type_count)->Ok_0.len()
            ==> (#[trigger] scan_room(t, tile_type_count)->Ok_0[i]).1 < world_size
                && scan_room(t, tile_type_count)->Ok_0[i].2 < world_size,
    decreases t.len(),
{
    if t.len() > 0 {
        let d = t.drop_last();
        lemma_tiles_in_room(d, world_size, tile_type_count);
        let (x, y) = cursor(d);
        if t.last() != '\n' {
            assert(x < world_size);
            lemma_cursor_in_room(d, world_size);
        }
    }
}

/// Reads a room's drawing: the tiles `(tile type, x, y)` in the order they are drawn.
pub fn parse_room(map: &str, world_size: usize, tile_type_count: usize) -> (res: Result<Vec<(usize, usize, usize)>, RoomError>)
    ensures
        res is Ok <==> spec_parse_room(map@, world_size as nat, tile_type_count as nat) is Ok,
        res matches Ok(v) ==> spec_parse_room(map@, world_size as nat, tile_type_count as nat) == Ok::<Seq<(usize, usize, usize)>, RoomError>(v@),
        res matches Err(e) ==> spec_parse_room(map@, world_size as nat, tile_type_count as nat) == Err::<Seq<(usize, usize, usize)>, RoomError>(e),
        res matches Ok(v) ==> forall|i: int| 0 <= i < v@.len() ==> (#[trigger] v@[i]).1 < world_size && v@[i].2 < world_size,
{
    let ghost s = map@;
    let n = map.unicode_len();
    // the start of the drawing
    let mut a: usize = 0;
    assert(s.subrange(0, n as int) =~= s);
    while a < n && white_space(map.get_char(a))
        invariant
            s == map@,
            n == s.len(),
            a <= n,
            trim_start(s) == trim_start(s.subrange(a as int, n as int)),
        decreases n - a,
    {
        assert(s.subrange(a as int, n as int).drop_first() =~= s.subrange(a + 1, n as int));
        a = a + 1;
    }
    assert(trim_start(s) == s.subrange(a as int, n as int));
    // its end
    let mut b: usize = n;
    while b > a && white_space(map.get_char(b - 1))
        invariant
            s == map@,
            n == s.len(),
            a <= b <= n,
            trim(s) == trim_end(s.subrange(a as int, b as int)),
        decreases b - a,
    {
        assert(s.subrange(a as int, b as int).drop_last() =~= s.subrange(a as int, b - 1));
        b = b - 1;
    }
    let ghost t = s.subrange(a as int, b as int);
    assert(trim(s) == t);
    // its lines and cells
    let mut x: usize = 0;
    let mut y: usize = 0;
    let mut k: usize = a;
    assert(s.subrange(a as int, a as int) =~= Seq::<char>::empty());
    while k < b
        invariant
            s == map@,
            n == s.len(),
            a <= k <= b <= n,
            t == s.subrange(a as int, b as int),
            trim(s) == t,
            x <= k - a,
            y <= k - a,
            fits(s.subrange(a as int, k as int), world_size as nat),
            cursor(s.subrange(a as int, k as int)) == (x as nat, y as nat),
        decreases b - k,
    {
        let c = map.get_char(k);
        assert(s.subrange(a as int, k + 1).drop_last() =~= s.subrange(a as int, k as int));
        assert(s.subrange(a as int, k + 1).last() == c);
        let fits_here = if c == '\n' { y + 1 < world_size } else { x < world_size };
        if !fits_here {
            proof {
                assert(t.subrange(0, k + 1 - a) =~= s.subrange(a as int, k + 1));
                if fits(t, world_size as nat) {
                    lemma_fits_prefix(t, k + 1 - a, world_size as nat);
                }
            }
            return Err(RoomError::TooBig);
        }
        if c == '\n' {
            x = 0;
            y = y + 1;
        } else {
            x = x + 1;
        }
        k = k + 1;
    }
    assert(s.subrange(a as int, k as int) =~= t);
    // the tiles
    let mut tiles: Vec<(usize, usize, usize)> = Vec::new();
    let mut x: usize = 0;
    let mut y: usize = 0;
    let mut k: usize = a;
    while k < b
        invariant
            s == map@,
            n == s.len(),
            a <= k <= b <= n,
            t == s.subrange(a as int, b as int),
            trim(s) == t,
            fits(t, world_size as nat),
            x <= k - a,
            y <= k - a,
            cursor(s.subrange(a as int, k as int)) == (x as nat, y as nat),
            scan_room(s.subrange(a as int, k as int), tile_type_count as nat) == Ok::<Seq<(usize, usize, usize)>, RoomError>(tiles@),
        decreases b - k,
    {
        let c = map.get_char(k);
        assert(s.subrange(a as int, k + 1).drop_last() =~= s.subrange(a as int, k as int));
        assert(s.subrange(a as int, k + 1).last() == c);
        let u = c as u32;
        if 48 <= u && u <= 57 {
            let idx = (u - 48) as usize;
            if idx >= tile_type_count {
                proof {
                    lemma_scan_refused(t, k + 1 - a, tile_type_count as nat);
                    assert(t.subrange(0, k + 1 - a) =~= s.subrange(a as int, k + 1));
                }
                return Err(RoomError::TileNotFound(idx));
            }
            tiles.push((idx, x, y));
            x = x + 1;
        } else if c == ' ' {
            x = x + 1;
        } else if c == '\n' {
            x = 0;
            y = y + 1;
        } else {
            proof {
                lemma_scan_refused(t, k + 1 - a, tile_type_count as nat);
                assert(t.subrange(0, k + 1 - a) =~= s.subrange(a as int, k + 1));
            }
            return Err(RoomError::Unrecognized(c));
        }
        k = k + 1;
    }
    assert(s.subrange(a as int, k as int) =~= t);
    proof {
        lemma_tiles_in_room(t, world_size as nat, tile_type_count as nat);
        assert(scan_room(t, tile_type_count as nat)->Ok_0 == tiles@);
        assert forall|i: int| 0 <= i < tiles@.len() implies (#[trigger] tiles@[i]).1 < world_size && tiles@[i].2 < world_size by {
            assert(scan_room(t, tile_type_count as nat)->Ok_0[i] == tiles@[i]);
        }
    }
    Ok(tiles)
}

/// A room: `map[y][x]` is the tile type at `(x, y)`, if there is a tile there.
pub struct Room {
    pub map: Vec<Vec<Option<usize>>>,
}

/// The room of side `world_size` without tiles.
pub open spec fn empty_cells(world_size: nat) -> Seq<Seq<Option<usize>>> {
    Seq::new(world_size, |y: int| Seq::new(world_size, |x: int| None::<usize>))
}

/// `cells` with the tiles `(tile type, x, y)` placed in order: a later tile replaces an
/// earlier one at the same place.
pub open spec fn placed(cells: Seq<Seq<Option<usize>>>, tiles: Seq<(usize, usize, usize)>) -> Seq<Seq<Option<usize>>>
    decreases tiles.len(),
{
    if tiles.len() == 0 {
        cells
    } else {
        let c = placed(cells, tiles.drop_last());
        let (t, x, y) = tiles.last();
        c.update(y as int, c[y as int].update(x as int, Some(t)))
    }
}

impl Room {
    /// The cells, row by row.
    pub open spec fn cells(&self) -> Seq<Seq<Option<usize>>> {
        self.map@.map_values(|r: Vec<Option<usize>>| r@)
    }

    /// `world_size` rows of `world_size` cells.
    pub open spec fn wf(&self, world_size: nat) -> bool {
        &&& self.cells().len() == world_size
        &&& forall|y: int| 0 <= y < world_size ==> (#[trigger] self.cells()[y]).len() == world_size
    }

    /// A room of side `world_size` without tiles.
    pub fn new(world_size: usize) -> (res: Self)
        ensures
            res.cells() == empty_cells(world_size as nat),
    {
        let mut map: Vec<Vec<Option<usize>>> = Vec::new();
        let mut y: usize = 0;
        while y < world_size
            invariant
                y <= world_size,
                map@.len() == y,
                forall|k: int| 0 <= k < y ==> (#[trigger] map@[k])@ == Seq::new(world_size as nat, |x: int| None::<usize>),
            decreases world_size - y,
        {
            let mut row: Vec<Option<usize>> = Vec::new();
            let mut x: usize = 0;
            while x < world_size
                invariant
                    x <= world_size,
                    row@.len() == x,
                    forall|k: int| 0 <= k < x ==> row@[k] == None::<usize>,
                decreases world_size - x,
            {
                row.push(None);
                x = x + 1;
            }
            assert(row@ =~= Seq::new(world_size as nat, |x: int| None::<usize>));
            map.push(row);
            y = y + 1;
        }
        let res = Room { map };
        assert(res.cells() =~= empty_cells(world_size as nat));
        res
    }

    /// Puts a tile of type `tile` at `(x, y)`.
    pub fn add_tile_at_pos(&mut self, tile: usize, x: usize, y: usize)
        requires
            y < old(self).cells().len(),
            x < old(self).cells()[y as int].len(),
        ensures
            final(self).cells() == old(self).cells().update(y as int, old(self).cells()[y as int].update(x as int, Some(tile))),
    {
        assert(self.cells()[y as int] == self.map@[y as int]@);
        self.map[y].set(x, Some(tile));
        assert(self.cells() =~= old(self).cells().update(y as int, old(self).cells()[y as int].update(x as int, Some(tile))));
    }
}

/// Adds a room drawn by `map` (see [parse_room]) to `rooms`, and returns its index. The room
/// is added first, without tiles, so that a refused drawing leaves an empty room behind.
pub fn add_room_from_str(rooms: &mut Vec<Room>, map: &str, world_size: usize, tile_type_count: usize) -> (res: Result<usize, RoomError>)
    ensures
        final(rooms)@.len() == old(rooms)@.len() + 1,
        forall|i: int| 0 <= i < old(rooms)@.len() ==> #[trigger] final(rooms)@[i] == old(rooms)@[i],
        match spec_parse_room(map@, world_size as nat, tile_type_count as nat) {
            Ok(tiles) => {
                &&& res == Ok::<usize, RoomError>(old(rooms)@.len() as usize)
                &&& final(rooms)@.last().cells() == placed(empty_cells(world_size as nat), tiles)
            },
            Err(e) => {
                &&& res == Err::<usize, RoomError>(e)
                &&& final(rooms)@.last().cells() == empty_cells(world_size as nat)
            },
        },
{
    let ghost spec_tiles = spec_parse_room(map@, world_size as nat, tile_type_count as nat);
    let mut room = Room::new(world_size);
    match parse_room(map, world_size, tile_type_count) {
        Err(e) => {
            rooms.push(room);
            Err(e)
        },
        Ok(tiles) => {
            let mut i: usize = 0;
            while i < tiles.len()
                invariant
                    i <= tiles@.len(),
                    spec_tiles == Ok::<Seq<(usize, usize, usize)>, RoomError>(tiles@),
                    spec_tiles == spec_parse_room(map@, world_size as nat, tile_type_count as nat),
                    forall|k: int| 0 <= k < tiles@.len() ==> (#[trigger] tiles@[k]).1 < world_size && tiles@[k].2 < world_size,
                    room.wf(world_size as nat),
                    room.cells() == placed(empty_cells(world_size as nat), tiles@.take(i as int)),
                decreases tiles@.len() - i,
            {
                let (t, x, y) = tiles[i];
                assert(tiles@[i as int].1 < world_size && tiles@[i as int].2 < world_size);
                let ghost before = room.cells();
                room.add_tile_at_pos(t, x, y);
                assert(tiles@.take(i + 1).drop_last() =~= tiles@.take(i as int));
                assert forall|yy: int| 0 <= yy < world_size implies (#[trigger] room.cells()[yy]).len() == world_size by {
                    assert(before[yy].len() == world_size);
                }
                i = i + 1;
            }
            assert(tiles@.take(tiles@.len() as int) =~= tiles@);
            let idx = rooms.len();
            rooms.push(room);
            Ok(idx)
        },
    }
}

impl Comparable for (usize, IVec2) {
    open spec fn eq_laws() -> bool {
        true
    }

    fn same(&self, other: &Self) -> (res: bool) {
        self.0 == other.0 && self.1 == other.1
    }
}

/// The ids `from` up to `to`, in order.
pub open spec fn id_range(from: nat, to: nat) -> Seq<usize> {
    Seq::new((to - from) as nat, |i: int| (from + i) as usize)
}

/// Links the place `from` (a room and a cell) to the place `to`, and returns the id of the
/// link at `from`. A place that has no link yet gets one: its id is the next free one, its
/// place is recorded at that index of `locations`, and the link graph gets a node for it.
/// Then the graph gets an edge from the link at `from` to the link at `to`.
pub fn add_link(locations: &mut Vec<(usize, IVec2)>, graph: &mut StateMachine<usize>, from: (usize, IVec2), to: (usize, IVec2)) -> (res: usize)
    requires
        no_repeats(old(locations)@),
        old(graph).wf(),
        old(graph).nodes@.len() == old(locations)@.len(),
        old(locations)@.len() + 2 <= usize::MAX,
    ensures
        final(locations)@ == with_value(with_value(old(locations)@, from), to),
        no_repeats(final(locations)@),
        index_in(final(locations)@, from) == Some(res as int),
        final(graph).wf(),
        final(graph).nodes@ == old(graph).nodes@ + id_range(old(locations)@.len(), final(locations)@.len()),
        final(graph).matrix() == {
            let m = resized_matrix(old(graph).matrix(), final(locations)@.len());
            let f = res as int;
            let t = index_in(final(locations)@, to)->Some_0;
            m.update(f, m[f].update(t, true))
        },
        final(graph).conditions@ == resized_flags(old(graph).conditions@, final(locations)@.len()),
        final(graph).current_node == old(graph).current_node,
{
    let ghost old_locs = locations@;
    let ghost old_m = graph.matrix();
    let ghost old_c = graph.conditions@;
    let ghost old_nodes = graph.nodes@;
    let n0 = locations.len();
    let link_from = find_or_push(locations, from);
    let ghost locs1 = locations@;
    assert(locs1.contains(from));
    assert(locs1[link_from as int] == from);
    if locations.len() > n0 {
        graph.add_node(n0);
    }
    let n1 = locations.len();
    assert(graph.nodes@ == old_nodes + id_range(old_locs.len(), n1 as nat));
    let link_to = find_or_push(locations, to);
    if locations.len() > n1 {
        graph.add_node(n1);
        proof {
            crate::graph::law_add_nodes_in_steps(old_m, old_c, n0 as nat, n1 as nat, (n1 + 1) as nat);
        }
    }
    let n2 = locations.len();
    assert(graph.nodes@ =~= old_nodes + id_range(old_locs.len(), n2 as nat));
    proof {
        if n1 == n0 {
            assert(old_m =~~= resized_matrix(old_m, n0 as nat));
            assert(old_c =~= resized_flags(old_c, n0 as nat));
        }
        if n2 == n1 {
            crate::graph::law_add_nodes_in_steps(old_m, old_c, n0 as nat, n1 as nat, n1 as nat);
        }
        assert(locations@[link_from as int] == from);
        crate::data::lemma_index_in(locations@, from, link_from as int);
    }
    graph.add_edge(link_from, link_to);
    link_from
}

/// The contact `c`, seen from the current room, involves the character at index `ent_idx` of
/// the room's characters, whose collision index is `ent_idx + 1` (index 0 is the player).
pub open spec fn involves_character(c: Contact, ent_idx: nat) -> bool {
    match c {
        Contact::Ent(i, j) => (i != 0 && i - 1 == ent_idx) || (j != 0 && j - 1 == ent_idx),
        Contact::Tile(i, _) => i != 0 && i - 1 == ent_idx,
    }
}

/// The contact `c` once the character at index `ent_idx` is gone: collision indices past it
/// move down by one.
pub open spec fn shifted_contact(c: Contact, ent_idx: nat) -> Contact {
    match c {
        Contact::Ent(i, j) => Contact::Ent(
            if i > ent_idx { (i - 1) as usize } else { i },
            if j > ent_idx { (j - 1) as usize } else { j },
        ),
        Contact::Tile(i, p) => Contact::Tile(if i > ent_idx { (i - 1) as usize } else { i }, p),
    }
}

/// The contact predicates `events` (contact, room, what follows) once the character at index
/// `ent_idx` of room `current_room` is gone: those of that room that involve it are dropped,
/// the indices in the others of that room are shifted, and those of other rooms stay.
pub open spec fn without_character<T>(events: Seq<(Contact, usize, T)>, current_room: usize, ent_idx: nat) -> Seq<(Contact, usize, T)>
    decreases events.len(),
{
    if events.len() == 0 {
        Seq::empty()
    } else {
        let rest = without_character(events.drop_last(), current_room, ent_idx);
        let (c, room, t) = events.last();
        if room != current_room {
            rest.push((c, room, t))
        } else if involves_character(c, ent_idx) {
            rest
        } else {
            rest.push((shifted_contact(c, ent_idx), room, t))
        }
    }
}

/// Removes the contact predicates of the character at index `ent_idx` of the current room's
/// characters, and shifts the collision indices of the others in that room.
pub fn remove_character_contacts<T>(events: &mut Vec<(Contact, usize, T)>, current_room: usize, ent_idx: usize)
    ensures
        final(events)@ == without_character(old(events)@, current_room, ent_idx as nat),
{
    let ghost all = events@;
    let mut out: Vec<(Contact, usize, T)> = Vec::new();
    let ghost mut k: int = 0;
    while events.len() > 0
        invariant
            0 <= k <= all.len(),
            events@ == all.subrange(k, all.len() as int),
            out@ == without_character(all.subrange(0, k), current_room, ent_idx as nat),
        decreases events@.len(),
    {
        let (c, room, t) = events.remove(0);
        assert(all.subrange(0, k + 1).drop_last() =~= all.subrange(0, k));
        assert(all.subrange(0, k + 1).last() == all[k]);
        if room != current_room {
            out.push((c, room, t));
        } else {
            let gone = match c {
                Contact::Ent(i, j) => (i != 0 && i - 1 == ent_idx) || (j != 0 && j - 1 == ent_idx),
                Contact::Tile(i, _) => i != 0 && i - 1 == ent_idx,
            };
            if !gone {
                let moved = match c {
                    Contact::Ent(i, j) => Contact::Ent(
                        if i > ent_idx { i - 1 } else { i },
                        if j > ent_idx { j - 1 } else { j },
                    ),
                    Contact::Tile(i, p) => Contact::Tile(if i > ent_idx { i - 1 } else { i }, p),
                };
                out.push((moved, room, t));
            }
        }
        proof {
            k = k + 1;
        }
        assert(events@ =~= all.subrange(k, all.len() as int));
    }
    assert(all.subrange(0, k) =~= all);
    *events = out;
}

/// Once a prefix of a drawing is refused, so is the drawing, for the same reason.
proof fn lemma_scan_refused(t: Seq<char>, k: int, tile_type_count: nat)
    requires
        0 <= k <= t.len(),
        scan_room(t.subrange(0, k), tile_type_count) is Err,
    ensures
        scan_room(t, tile_type_count) == scan_room(t.subrange(0, k), tile_type_count),
    decreases t.len() - k,
{
    if k < t.len() {
        assert(t.subrange(0, k + 1).drop_last() =~= t.subrange(0, k));
        lemma_scan_refused(t, k + 1, tile_type_count);
    } else {
        assert(t.subrange(0, k) =~= t);
    }
}

} // verus!
