use crate::board::{PieceData, MAX_OFFSET};
use vstd::prelude::*;

verus! {

/// Every kick lifts a piece by at most two rows.
pub open spec fn kick_list_ok(s: Seq<(isize, isize)>) -> bool {
    &&& s.len() > 0
    &&& forall|k: int| 0 <= k < s.len() ==> #[trigger] s[k].1 <= 2
}

pub open spec fn kick_rows_ok(s: Seq<Vec<(isize, isize)>>) -> bool {
    &&& s.len() == 4
    &&& forall|j: int| 0 <= j < 4 ==> kick_list_ok(#[trigger] s[j]@)
}

pub open spec fn kick_table_ok(s: Seq<Vec<Vec<(isize, isize)>>>) -> bool {
    &&& s.len() == 4
    &&& forall|o: int| 0 <= o < 4 ==> kick_rows_ok(#[trigger] s[o]@)
}

/// Four cells, each at most three rows below the piece's position.
pub open spec fn shape_ok(s: Seq<(usize, usize)>) -> bool {
    &&& s.len() == 4
    &&& forall|i: int| 0 <= i < 4 ==> #[trigger] s[i].1 <= 3
}

pub open spec fn orientations_ok(s: Seq<Vec<(usize, usize)>>) -> bool {
    &&& s.len() == 4
    &&& forall|o: int| 0 <= o < 4 ==> shape_ok(#[trigger] s[o]@)
}

/// Spawn width of piece type `t` (I, J, L, O, S, T, Z in that order).
pub open spec fn srs_width(t: int) -> usize {
    if t == 0 {
        4
    } else if t == 3 {
        2
    } else {
        3
    }
}

/// Cells of piece type `t` in orientation `o` (0 spawn, 1 clockwise, 2 half turn,
/// 3 counter-clockwise), as offsets from the piece's position; y grows downward.
pub open spec fn srs_cells(t: int, o: int) -> Seq<(usize, usize)> {
    if t == 0 {
        if o == 0 {
            seq![(0usize, 1usize), (1usize, 1usize), (2usize, 1usize), (3usize, 1usize)]
        } else if o == 1 {
            seq![(2usize, 0usize), (2usize, 1usize), (2usize, 2usize), (2usize, 3usize)]
        } else if o == 2 {
            seq![(0usize, 2usize), (1usize, 2usize), (2usize, 2usize), (3usize, 2usize)]
        } else {
            seq![(1usize, 0usize), (1usize, 1usize), (1usize, 2usize), (1usize, 3usize)]
        }
    } else if t == 1 {
        if o == 0 {
            seq![(0usize, 1usize), (1usize, 1usize), (2usize, 1usize), (0usize, 0usize)]
        } else if o == 1 {
            seq![(1usize, 0usize), (1usize, 1usize), (1usize, 2usize), (2usize, 0usize)]
        } else if o == 2 {
            seq![(0usize, 1usize), (1usize, 1usize), (2usize, 1usize), (2usize, 2usize)]
        } else {
            seq![(1usize, 0usize), (1usize, 1usize), (1usize, 2usize), (0usize, 2usize)]
        }
    } else if t == 2 {
        if o == 0 {
            seq![(0usize, 1usize), (1usize, 1usize), (2usize, 1usize), (2usize, 0usize)]
        } else if o == 1 {
            seq![(1usize, 0usize), (1usize, 1usize), (1usize, 2usize), (2usize, 2usize)]
        } else if o == 2 {
            seq![(0usize, 1usize), (1usize, 1usize), (2usize, 1usize), (0usize, 2usize)]
        } else {
            seq![(1usize, 0usize), (1usize, 1usize), (1usize, 2usize), (0usize, 0usize)]
        }
    } else if t == 3 {
        if o == 0 {
            seq![(0usize, 0usize), (0usize, 1usize), (1usize, 1usize), (1usize, 0usize)]
        } else if o == 1 {
            seq![(0usize, 0usize), (0usize, 1usize), (1usize, 1usize), (1usize, 0usize)]
        } else if o == 2 {
            seq![(0usize, 0usize), (0usize, 1usize), (1usize, 1usize), (1usize, 0usize)]
        } else {
            seq![(0usize, 0usize), (0usize, 1usize), (1usize, 1usize), (1usize, 0usize)]
        }
    } else if t == 4 {
        if o == 0 {
            seq![(0usize, 1usize), (1usize, 1usize), (1usize, 0usize), (2usize, 0usize)]
        } else if o == 1 {
            seq![(1usize, 0usize), (1usize, 1usize), (2usize, 1usize), (2usize, 2usize)]
        } else if o == 2 {
            seq![(0usize, 2usize), (1usize, 2usize), (1usize, 1usize), (2usize, 1usize)]
        } else {
            seq![(0usize, 0usize), (0usize, 1usize), (1usize, 1usize), (1usize, 2usize)]
        }
    } else if t == 5 {
        if o == 0 {
            seq![(1usize, 1usize), (0usize, 1usize), (1usize, 0usize), (2usize, 1usize)]
        } else if o == 1 {
            seq![(1usize, 1usize), (1usize, 2usize), (1usize, 0usize), (2usize, 1usize)]
        } else if o == 2 {
            seq![(1usize, 1usize), (0usize, 1usize), (1usize, 2usize), (2usize, 1usize)]
        } else {
            seq![(1usize, 1usize), (0usize, 1usize), (1usize, 0usize), (1usize, 2usize)]
        }
    } else {
        if o == 0 {
            seq![(0usize, 0usize), (1usize, 0usize), (1usize, 1usize), (2usize, 1usize)]
        } else if o == 1 {
            seq![(2usize, 0usize), (2usize, 1usize), (1usize, 1usize), (1usize, 2usize)]
        } else if o == 2 {
            seq![(0usize, 1usize), (1usize, 1usize), (1usize, 2usize), (2usize, 2usize)]
        } else {
            seq![(1usize, 0usize), (1usize, 1usize), (0usize, 1usize), (0usize, 2usize)]
        }
    }
}

/// Super Rotation System kick offsets of the J, L, S, T and Z pieces from orientation
/// `o` by `rot` quarter turns clockwise, in the order tried; the second offset points up.
pub open spec fn jlstz_kicks(o: int, rot: int) -> Seq<(isize, isize)> {
    if o == 0 {
        if rot == 0 {
            seq![(0isize, 0isize)]
        } else if rot == 1 {
            seq![(0isize, 0isize), (-1isize, 0isize), (-1isize, 1isize), (0isize, -2isize), (-1isize, -2isize)]
        } else if rot == 2 {
            seq![(0isize, 0isize)]
        } else {
            seq![(0isize, 0isize), (1isize, 0isize), (1isize, 1isize), (0isize, -2isize), (1isize, -2isize)]
        }
    } else if o == 1 {
        if rot == 0 {
            seq![(0isize, 0isize)]
        } else if rot == 1 {
            seq![(0isize, 0isize), (1isize, 0isize), (1isize, -1isize), (0isize, 2isize), (1isize, 2isize)]
        } else if rot == 2 {
            seq![(0isize, 0isize)]
        } else {
            seq![(0isize, 0isize), (1isize, 0isize), (1isize, -1isize), (0isize, 2isize), (1isize, 2isize)]
        }
    } else if o == 2 {
        if rot == 0 {
            seq![(0isize, 0isize)]
        } else if rot == 1 {
            seq![(0isize, 0isize), (1isize, 0isize), (1isize, 1isize), (0isize, -2isize), (1isize, -2isize)]
        } else if rot == 2 {
            seq![(0isize, 0isize)]
        } else {
            seq![(0isize, 0isize), (-1isize, 0isize), (-1isize, 1isize), (0isize, -2isize), (-1isize, -2isize)]
        }
    } else {
        if rot == 0 {
            seq![(0isize, 0isize)]
        } else if rot == 1 {
            seq![(0isize, 0isize), (-1isize, 0isize), (-1isize, -1isize), (0isize, 2isize), (-1isize, 2isize)]
        } else if rot == 2 {
            seq![(0isize, 0isize)]
        } else {
            seq![(0isize, 0isize), (-1isize, 0isize), (-1isize, -1isize), (0isize, 2isize), (-1isize, 2isize)]
        }
    }
}

/// Super Rotation System kick offsets of the I piece from orientation `o` by `rot`
/// quarter turns clockwise, in the order tried; the second offset points up.
pub open spec fn i_kicks(o: int, rot: int) -> Seq<(isize, isize)> {
    if o == 0 {
        if rot == 0 {
            seq![(0isize, 0isize)]
        } else if rot == 1 {
            seq![(0isize, 0isize), (-2isize, 0isize), (1isize, 0isize), (-2isize, -1isize), (1isize, 2isize)]
        } else if rot == 2 {
            seq![(0isize, 0isize)]
        } else {
            seq![(0isize, 0isize), (-1isize, 0isize), (2isize, 0isize), (-1isize, 2isize), (2isize, -1isize)]
        }
    } else if o == 1 {
        if rot == 0 {
            seq![(0isize, 0isize)]
        } else if rot == 1 {
            seq![(0isize, 0isize), (-1isize, 0isize), (2isize, 0isize), (-1isize, 2isize), (2isize, -1isize)]
        } else if rot == 2 {
            seq![(0isize, 0isize)]
        } else {
            seq![(0isize, 0isize), (2isize, 0isize), (-1isize, 0isize), (2isize, 1isize), (-1isize, -2isize)]
        }
    } else if o == 2 {
        if rot == 0 {
            seq![(0isize, 0isize)]
        } else if rot == 1 {
            seq![(0isize, 0isize), (2isize, 0isize), (-1isize, 0isize), (2isize, 1isize), (-1isize, -2isize)]
        } else if rot == 2 {
            seq![(0isize, 0isize)]
        } else {
            seq![(0isize, 0isize), (1isize, 0isize), (-2isize, 0isize), (1isize, -2isize), (-2isize, 1isize)]
        }
    } else {
        if rot == 0 {
            seq![(0isize, 0isize)]
        } else if rot == 1 {
            seq![(0isize, 0isize), (1isize, 0isize), (-2isize, 0isize), (1isize, -2isize), (-2isize, 1isize)]
        } else if rot == 2 {
            seq![(0isize, 0isize)]
        } else {
            seq![(0isize, 0isize), (-2isize, 0isize), (1isize, 0isize), (-2isize, -1isize), (1isize, 2isize)]
        }
    }
}

/// Kick offsets of piece type `t`: the O piece turns in place.
pub open spec fn srs_kicks(t: int, o: int, rot: int) -> Seq<(isize, isize)> {
    if t == 0 {
        i_kicks(o, rot)
    } else if t == 3 {
        seq![(0isize, 0isize)]
    } else {
        jlstz_kicks(o, rot)
    }
}

fn kicks1() -> (r: Vec<(isize, isize)>)
    ensures
        kick_list_ok(r@),
        r@ == seq![(0isize, 0isize)],
{
    vec![(0, 0)]
}

fn kicks5(a: (isize, isize), b: (isize, isize), c: (isize, isize), d: (isize, isize), e: (isize, isize)) -> (r: Vec<(isize, isize)>)
    requires
        a.1 <= 2,
        b.1 <= 2,
        c.1 <= 2,
        d.1 <= 2,
        e.1 <= 2,
    ensures
        kick_list_ok(r@),
        r@ == seq![a, b, c, d, e],
{
    let r = vec![a, b, c, d, e];
    assert forall|k: int| 0 <= k < r@.len() implies #[trigger] r@[k].1 <= 2 by {
        if k == 0 {} else if k == 1 {} else if k == 2 {} else if k == 3 {} else {}
    }
    r
}

fn kick_rows(
    a: Vec<(isize, isize)>,
    b: Vec<(isize, isize)>,
    c: Vec<(isize, isize)>,
    d: Vec<(isize, isize)>,
) -> (r: Vec<Vec<(isize, isize)>>)
    requires
        kick_list_ok(a@),
        kick_list_ok(b@),
        kick_list_ok(c@),
        kick_list_ok(d@),
    ensures
        kick_rows_ok(r@),
        r@[0]@ == a@,
        r@[1]@ == b@,
        r@[2]@ == c@,
        r@[3]@ == d@,
{
    let r = vec![a, b, c, d];
    assert forall|j: int| 0 <= j < 4 implies kick_list_ok(#[trigger] r@[j]@) by {
        if j == 0 {} else if j == 1 {} else if j == 2 {} else {}
    }
    r
}

fn kick_table(
    a: Vec<Vec<(isize, isize)>>,
    b: Vec<Vec<(isize, isize)>>,
    c: Vec<Vec<(isize, isize)>>,
    d: Vec<Vec<(isize, isize)>>,
) -> (r: Vec<Vec<Vec<(isize, isize)>>>)
    requires
        kick_rows_ok(a@),
        kick_rows_ok(b@),
        kick_rows_ok(c@),
        kick_rows_ok(d@),
    ensures
        kick_table_ok(r@),
        r@[0]@ == a@,
        r@[1]@ == b@,
        r@[2]@ == c@,
        r@[3]@ == d@,
{
    let r = vec![a, b, c, d];
    assert forall|o: int| 0 <= o < 4 implies kick_rows_ok(#[trigger] r@[o]@) by {
        if o == 0 {} else if o == 1 {} else if o == 2 {} else {}
    }
    r
}

fn shape(a: (usize, usize), b: (usize, usize), c: (usize, usize), d: (usize, usize)) -> (r: Vec<(usize, usize)>)
    requires
        a.1 <= 3,
        b.1 <= 3,
        c.1 <= 3,
        d.1 <= 3,
    ensures
        shape_ok(r@),
        r@ == seq![a, b, c, d],
{
    let r = vec![a, b, c, d];
    assert forall|i: int| 0 <= i < 4 implies #[trigger] r@[i].1 <= 3 by {
        if i == 0 {} else if i == 1 {} else if i == 2 {} else {}
    }
    r
}

fn orientations(
    a: Vec<(usize, usize)>,
    b: Vec<(usize, usize)>,
    c: Vec<(usize, usize)>,
    d: Vec<(usize, usize)>,
) -> (r: Vec<Vec<(usize, usize)>>)
    requires
        shape_ok(a@),
        shape_ok(b@),
        shape_ok(c@),
        shape_ok(d@),
    ensures
        orientations_ok(r@),
        r@[0]@ == a@,
        r@[1]@ == b@,
        r@[2]@ == c@,
        r@[3]@ == d@,
{
    let r = vec![a, b, c, d];
    assert forall|o: int| 0 <= o < 4 implies shape_ok(#[trigger] r@[o]@) by {
        if o == 0 {} else if o == 1 {} else if o == 2 {} else {}
    }
    r
}

/// A piece type from its parts; the checks on the parts make it well formed.
fn piece(
    name: &str,
    initial_width: usize,
    orientation: Vec<Vec<(usize, usize)>>,
    test_table: Vec<Vec<Vec<(isize, isize)>>>,
) -> (r: PieceData)
    requires
        orientations_ok(orientation@),
        kick_table_ok(test_table@),
    ensures
        r.wf(),
        r.initial_width == initial_width,
        r.orientation == orientation,
        r.test_table == test_table,
{
    let r = PieceData { name: name.to_string(), initial_width, orientation, test_table };
    assert forall|o: int| 0 <= o < r.orientation@.len() implies #[trigger] r.cells(o).len() > 0 by {
        assert(shape_ok(r.orientation@[o]@));
    }
    assert forall|o: int, i: int|
        0 <= o < r.orientation@.len() && 0 <= i < r.cells(o).len() implies #[trigger] r.cells(o)[i].1 <= MAX_OFFSET by {
        assert(shape_ok(r.orientation@[o]@));
    }
    assert forall|o: int, rot: int, k: int|
        r.has_kicks(o, rot) && 0 <= k < r.kicks(o, rot).len() implies #[trigger] r.kicks(o, rot)[k].1 <= MAX_OFFSET by {
        assert(kick_rows_ok(r.test_table@[o]@));
        assert(kick_list_ok(r.test_table@[o]@[rot]@));
    }
    r
}

/// The kick table of the J, L, S, T and Z pieces.
fn srs_jlstz() -> (r: Vec<Vec<Vec<(isize, isize)>>>)
    ensures
        kick_table_ok(r@),
        forall|o: int, rot: int| 0 <= o < 4 && 0 <= rot < 4 ==> #[trigger] jlstz_kicks(o, rot) == r@[o]@[rot]@,
{
    let r = kick_table(
        kick_rows(kicks1(), kicks5((0, 0), (-1, 0), (-1, 1), (0, -2), (-1, -2)), kicks1(), kicks5((0, 0), (1, 0), (1, 1), (0, -2), (1, -2))),
        kick_rows(kicks1(), kicks5((0, 0), (1, 0), (1, -1), (0, 2), (1, 2)), kicks1(), kicks5((0, 0), (1, 0), (1, -1), (0, 2), (1, 2))),
        kick_rows(kicks1(), kicks5((0, 0), (1, 0), (1, 1), (0, -2), (1, -2)), kicks1(), kicks5((0, 0), (-1, 0), (-1, 1), (0, -2), (-1, -2))),
        kick_rows(kicks1(), kicks5((0, 0), (-1, 0), (-1, -1), (0, 2), (-1, 2)), kicks1(), kicks5((0, 0), (-1, 0), (-1, -1), (0, 2), (-1, 2))),
    );
    assert forall|o: int, rot: int| 0 <= o < 4 && 0 <= rot < 4 implies #[trigger] jlstz_kicks(o, rot) == r@[o]@[rot]@ by {
        if o == 0 {
        } else if o == 1 {
        } else if o == 2 {
        } else {
        }
    }
    r
}

/// The kick table of the I piece.
fn srs_i() -> (r: Vec<Vec<Vec<(isize, isize)>>>)
    ensures
        kick_table_ok(r@),
        forall|o: int, rot: int| 0 <= o < 4 && 0 <= rot < 4 ==> #[trigger] i_kicks(o, rot) == r@[o]@[rot]@,
{
    let r = kick_table(
        kick_rows(kicks1(), kicks5((0, 0), (-2, 0), (1, 0), (-2, -1), (1, 2)), kicks1(), kicks5((0, 0), (-1, 0), (2, 0), (-1, 2), (2, -1))),
        kick_rows(kicks1(), kicks5((0, 0), (-1, 0), (2, 0), (-1, 2), (2, -1)), kicks1(), kicks5((0, 0), (2, 0), (-1, 0), (2, 1), (-1, -2))),
        kick_rows(kicks1(), kicks5((0, 0), (2, 0), (-1, 0), (2, 1), (-1, -2)), kicks1(), kicks5((0, 0), (1, 0), (-2, 0), (1, -2), (-2, 1))),
        kick_rows(kicks1(), kicks5((0, 0), (1, 0), (-2, 0), (1, -2), (-2, 1)), kicks1(), kicks5((0, 0), (-2, 0), (1, 0), (-2, -1), (1, 2))),
    );
    assert forall|o: int, rot: int| 0 <= o < 4 && 0 <= rot < 4 implies #[trigger] i_kicks(o, rot) == r@[o]@[rot]@ by {
        if o == 0 {
        } else if o == 1 {
        } else if o == 2 {
        } else {
        }
    }
    r
}

/// The kick table of the O piece: every turn tries only the unmoved position.
fn srs_o() -> (r: Vec<Vec<Vec<(isize, isize)>>>)
    ensures
        kick_table_ok(r@),
        forall|o: int, rot: int| 0 <= o < 4 && 0 <= rot < 4 ==> #[trigger] r@[o]@[rot]@ == seq![(0isize, 0isize)],
{
    let r = kick_table(
        kick_rows(kicks1(), kicks1(), kicks1(), kicks1()),
        kick_rows(kicks1(), kicks1(), kicks1(), kicks1()),
        kick_rows(kicks1(), kicks1(), kicks1(), kicks1()),
        kick_rows(kicks1(), kicks1(), kicks1(), kicks1()),
    );
    assert forall|o: int, rot: int| 0 <= o < 4 && 0 <= rot < 4 implies #[trigger] r@[o]@[rot]@ == seq![(0isize, 0isize)] by {
        if o == 0 {
        } else if o == 1 {
        } else if o == 2 {
        } else {
        }
    }
    r
}

/// The seven standard pieces, I, J, L, O, S, T and Z in that order, with the Super
/// Rotation System cells and kick tables.
pub fn new_default_piece_data() -> (r: Vec<PieceData>)
    ensures
        r@.len() == 7,
        forall|t: int| 0 <= t < 7 ==> (#[trigger] r@[t]).wf(),
        forall|t: int| 0 <= t < 7 ==> (#[trigger] r@[t]).initial_width == srs_width(t),
        forall|t: int| 0 <= t < 7 ==> (#[trigger] r@[t]).orientation@.len() == 4,
        forall|t: int| 0 <= t < 7 ==> (#[trigger] r@[t]).test_table@.len() == 4,
        forall|t: int, o: int| 0 <= t < 7 && 0 <= o < 4 ==> #[trigger] r@[t].test_table@[o]@.len() == 4,
        forall|t: int, o: int| 0 <= t < 7 && 0 <= o < 4 ==> #[trigger] r@[t].cells(o) == srs_cells(t, o),
        forall|t: int, o: int, rot: int|
            0 <= t < 7 && 0 <= o < 4 && 0 <= rot < 4 ==> #[trigger] r@[t].kicks(o, rot) == srs_kicks(t, o, rot),
{
    let p0 = piece(
        "I",
        4,
        orientations(
            shape((0, 1), (1, 1), (2, 1), (3, 1)),
            shape((2, 0), (2, 1), (2, 2), (2, 3)),
            shape((0, 2), (1, 2), (2, 2), (3, 2)),
            shape((1, 0), (1, 1), (1, 2), (1, 3)),
        ),
        srs_i(),
    );
    let p1 = piece(
        "J",
        3,
        orientations(
            shape((0, 1), (1, 1), (2, 1), (0, 0)),
            shape((1, 0), (1, 1), (1, 2), (2, 0)),
            shape((0, 1), (1, 1), (2, 1), (2, 2)),
            shape((1, 0), (1, 1), (1, 2), (0, 2)),
        ),
        srs_jlstz(),
    );
    let p2 = piece(
        "L",
        3,
        orientations(
            shape((0, 1), (1, 1), (2, 1), (2, 0)),
            shape((1, 0), (1, 1), (1, 2), (2, 2)),
            shape((0, 1), (1, 1), (2, 1), (0, 2)),
            shape((1, 0), (1, 1), (1, 2), (0, 0)),
        ),
        srs_jlstz(),
    );
    let p3 = piece(
        "O",
        2,
        orientations(
            shape((0, 0), (0, 1), (1, 1), (1, 0)),
            shape((0, 0), (0, 1), (1, 1), (1, 0)),
            shape((0, 0), (0, 1), (1, 1), (1, 0)),
            shape((0, 0), (0, 1), (1, 1), (1, 0)),
        ),
        srs_o(),
    );
    let p4 = piece(
        "S",
        3,
        orientations(
            shape((0, 1), (1, 1), (1, 0), (2, 0)),
            shape((1, 0), (1, 1), (2, 1), (2, 2)),
            shape((0, 2), (1, 2), (1, 1), (2, 1)),
            shape((0, 0), (0, 1), (1, 1), (1, 2)),
        ),
        srs_jlstz(),
    );
    let p5 = piece(
        "T",
        3,
        orientations(
            shape((1, 1), (0, 1), (1, 0), (2, 1)),
            shape((1, 1), (1, 2), (1, 0), (2, 1)),
            shape((1, 1), (0, 1), (1, 2), (2, 1)),
            shape((1, 1), (0, 1), (1, 0), (1, 2)),
        ),
        srs_jlstz(),
    );
    let p6 = piece(
        "Z",
        3,
        orientations(
            shape((0, 0), (1, 0), (1, 1), (2, 1)),
            shape((2, 0), (2, 1), (1, 1), (1, 2)),
            shape((0, 1), (1, 1), (1, 2), (2, 2)),
            shape((1, 0), (1, 1), (0, 1), (0, 2)),
        ),
        srs_jlstz(),
    );
    let r = vec![p0, p1, p2, p3, p4, p5, p6];
    assert forall|t: int, o: int| 0 <= t < 7 && 0 <= o < 4 implies #[trigger] r@[t].cells(o) == srs_cells(t, o) by {
        if o == 0 {
        } else if o == 1 {
        } else if o == 2 {
        } else {
        }
        if t == 0 {} else if t == 1 {} else if t == 2 {} else if t == 3 {} else if t == 4 {} else if t == 5 {} else {}
    }
    assert forall|t: int, o: int, rot: int|
        0 <= t < 7 && 0 <= o < 4 && 0 <= rot < 4 implies #[trigger] r@[t].kicks(o, rot) == srs_kicks(t, o, rot) by {
        if t == 0 {} else if t == 1 {} else if t == 2 {} else if t == 3 {} else if t == 4 {} else if t == 5 {} else {}
    }
    assert forall|t: int, o: int| 0 <= t < 7 && 0 <= o < 4 implies #[trigger] r@[t].test_table@[o]@.len() == 4 by {
        assert(kick_rows_ok(r@[t].test_table@[o]@));
    }
    assert forall|t: int| 0 <= t < 7 implies (#[trigger] r@[t]).wf() && r@[t].initial_width == srs_width(t)
        && r@[t].orientation@.len() == 4 && r@[t].test_table@.len() == 4 by {
        if t == 0 {} else if t == 1 {} else if t == 2 {} else if t == 3 {} else if t == 4 {} else if t == 5 {} else {}
    }
    r
}

} // verus!
