use crate::board::{Board, ExtendedBoard, Piece};
use crate::rng::PreviewGenerator;
use vstd::prelude::*;

verus! {

/// An input to the session.
pub enum Event {
    /// One frame: landing detection, lock delay and the tick counter. The frame-timed
    /// gravity and auto-shift moves are made by the driver, through `move_piece`, before it.
    Tick,
    RotateLeft,
    RotateRight,
    Rotate180,
    /// Holds the falling piece, or swaps it with the held one.
    Hold,
    HardDrop,
    /// Drops the piece as far as it goes without locking it.
    SoftDropFast,
    Forfeit,
    MoveLeftBegin,
    MoveLeftEnd,
    MoveRightBegin,
    MoveRightEnd,
    SoftDropBegin,
    SoftDropEnd,
}

pub open spec fn sat_inc(x: usize) -> usize {
    if x < usize::MAX {
        (x + 1) as usize
    } else {
        x
    }
}

/// The rule state of a session: the board with its falling piece, the piece sequence, the
/// held piece, the key state and the lock-delay counters.
pub struct Game {
    /// Frames a piece may rest on the stack before it locks.
    pub lock_delay: usize,
    /// Moves of a landed piece after which it locks at once.
    pub max_reset_times: usize,
    pub board: ExtendedBoard,
    pub rng: PreviewGenerator,
    pub hold: Option<usize>,
    /// Hold was used since the last spawn.
    pub hold_used: bool,
    pub current_tick: usize,
    pub move_left_down: bool,
    pub move_right_down: bool,
    /// -1 left, 1 right, 0 none.
    pub move_direction: isize,
    /// The auto-shift delay has passed and moves repeat.
    pub move_auto_repeat: bool,
    pub soft_drop_down: bool,
    /// Frames the falling piece has rested on the stack.
    pub land_tick_count: usize,
    /// Moves made by the piece while landed.
    pub reset_times: usize,
}

impl Game {
    pub open spec fn wf(self) -> bool {
        self.board.wf() && self.rng.wf()
    }

    pub open spec fn landed(self) -> bool {
        self.board.current_piece is Some && !self.board.can_drop(1)
    }

    /// Spawning type `t` at its default place: `ok` exactly when it fits; then the
    /// piece falls there and the per-piece counters restart.
    pub open spec fn spawns(self, t: usize, next: Game, ok: bool) -> bool {
        &&& ok == (t < self.board.piece_data@.len() && self.board.board.fits(
            self.board.piece_data@[t as int],
            (self.board.spawn_x(t as int), self.board.start_y as int),
            0,
        ))
        &&& ok ==> next == (Game {
            board: ExtendedBoard {
                current_piece: Some(
                    Piece {
                        typ: t,
                        position: (self.board.spawn_x(t as int) as isize, self.board.start_y),
                        orientation: 0,
                    },
                ),
                ..self.board
            },
            hold_used: false,
            land_tick_count: 0,
            reset_times: 0,
            ..self
        })
        &&& !ok ==> next == self
    }

    /// Drawing the next type and spawning it: `ok` exactly when the sequence yields a
    /// type that fits; the sequence moves on by one. When it yields nothing, only the
    /// sequence's own state may change.
    pub open spec fn draws_and_spawns(self, next: Game, ok: bool) -> bool {
        &&& next.wf()
        &&& self.rng.upcoming(1).len() == 0 ==> !ok && next == (Game { rng: next.rng, ..self })
        &&& self.rng.upcoming(1).len() > 0 ==> {
            &&& forall|n: nat| #[trigger] next.rng.upcoming(n) == self.rng.upcoming(n + 1).drop_first()
            &&& (Game { rng: next.rng, ..self }).spawns(self.rng.upcoming(1)[0], next, ok)
        }
    }

    /// Locking the falling piece, clearing full rows and spawning the next piece.
    pub open spec fn locks_and_spawns(self, next: Game, ok: bool) -> bool {
        exists|b1: Board, b2: Board, r: (usize, usize)|
            self.board.locks_into(b1) && b1.compacts_into(b2, r) && (Game {
                board: ExtendedBoard { board: b2, current_piece: None, ..self.board },
                ..self
            }).draws_and_spawns(next, ok)
    }

    /// A move by `tr` and `rot` with its bookkeeping: a successful move of a landed piece
    /// counts a reset; a move that ends landed restarts the lock delay, and once the resets
    /// reach the maximum it locks the piece and spawns the next.
    pub open spec fn moves_to(self, tr: (isize, isize), rot: int, next: Game, ok: bool) -> bool {
        if self.board.move_target(tr, rot) is None {
            ok && next == self
        } else {
            let b1 = ExtendedBoard { current_piece: self.board.piece_after_move(tr, rot), ..self.board };
            let rt = if self.landed() {
                sat_inc(self.reset_times)
            } else {
                self.reset_times
            };
            let land_after = !b1.can_drop(1);
            let mid = Game {
                board: b1,
                reset_times: rt,
                land_tick_count: if land_after {
                    0
                } else {
                    self.land_tick_count
                },
                ..self
            };
            if land_after && rt >= self.max_reset_times {
                mid.locks_and_spawns(next, ok)
            } else {
                ok && next == mid
            }
        }
    }

    /// A session over `board`, drawing pieces from `rng`; no piece falls yet.
    pub fn new(lock_delay: usize, max_reset_times: usize, board: ExtendedBoard, rng: PreviewGenerator) -> (r: Self)
        requires
            board.wf(),
            rng.wf(),
        ensures
            r.wf(),
            r == (Game {
                lock_delay,
                max_reset_times,
                board,
                rng,
                hold: None,
                hold_used: false,
                current_tick: 0,
                move_left_down: false,
                move_right_down: false,
                move_direction: 0,
                move_auto_repeat: false,
                soft_drop_down: false,
                land_tick_count: 0,
                reset_times: 0,
            }),
    {
        Game {
            lock_delay,
            max_reset_times,
            board,
            rng,
            hold: None,
            hold_used: false,
            current_tick: 0,
            move_left_down: false,
            move_right_down: false,
            move_direction: 0,
            move_auto_repeat: false,
            soft_drop_down: false,
            land_tick_count: 0,
            reset_times: 0,
        }
    }

    /// Spawns a piece of type `typ` at its default place; fails, changing nothing, when it
    /// does not fit.
    pub fn add_type_piece(&mut self, typ: usize) -> (r: Result<(), ()>)
        requires
            old(self).wf(),
        ensures
            final(self).wf(),
            old(self).spawns(typ, *final(self), r is Ok),
    {
        let added = self.board.add_piece_default_position(typ);
        if !added {
            return Err(());
        }
        self.hold_used = false;
        self.land_tick_count = 0;
        self.reset_times = 0;
        Ok(())
    }

    /// Spawns the next type of the sequence.
    pub fn add_next_piece(&mut self) -> (r: Result<(), ()>)
        requires
            old(self).wf(),
        ensures
            final(self).wf(),
            old(self).draws_and_spawns(*final(self), r is Ok),
    {
        let t = self.rng.next();
        if let Some(typ) = t {
            self.add_type_piece(typ)
        } else {
            Err(())
        }
    }

    /// Locks the falling piece, clears full rows and spawns the next piece.
    pub fn lock_and_add_next_piece(&mut self) -> (r: Result<(), ()>)
        requires
            old(self).wf(),
        ensures
            final(self).wf(),
            old(self).locks_and_spawns(*final(self), r is Ok),
    {
        self.board.lock_piece();
        let ghost b1 = self.board.board;
        let rows = self.board.board.clear_filled_rows();
        let ghost mid = *self;
        let r = self.add_next_piece();
        assert(old(self).board.locks_into(b1) && b1.compacts_into(mid.board.board, rows) && mid.draws_and_spawns(
            *self,
            r is Ok,
        ));
        r
    }

    /// Moves or rotates the falling piece, with the reset bookkeeping; returns whether it
    /// moved, or `Err` when a forced lock could not spawn the next piece.
    pub fn move_piece(&mut self, translation: (isize, isize), rotation: usize) -> (r: Result<bool, ()>)
        requires
            old(self).wf(),
        ensures
            final(self).wf(),
            old(self).moves_to(translation, rotation as int, *final(self), r is Ok),
            r matches Ok(m) ==> m == old(self).board.move_target(translation, rotation as int) is Some,
    {
        let prev_is_land = self.board.is_land();
        let moved = self.board.move_piece(translation, rotation);
        if moved {
            if prev_is_land {
                self.reset_times = self.reset_times.saturating_add(1);
            }
            let is_land = self.board.is_land();
            if is_land {
                self.land_tick_count = 0;
                if self.reset_times >= self.max_reset_times {
                    self.lock_and_add_next_piece()?;
                }
            }
        }
        Ok(moved)
    }

    /// The board after a fast drop: the piece moved down by its drop distance.
    pub open spec fn fast_dropped(self, b: ExtendedBoard) -> bool {
        &&& b.wf()
        &&& b.same_but_piece(self.board)
        &&& forall|d: int|
            #[trigger] self.board.lands_at(d) ==> b.current_piece == (if d > 0 {
                self.board.piece_after_move((0, d as isize), 0)
            } else {
                self.board.current_piece
            })
    }

    /// The spawn of a hold: the held type if there is one, else the next of the sequence.
    pub open spec fn hold_spawns(self, next: Game, ok: bool) -> bool {
        match self.hold {
            Some(h) => self.spawns(h, next, ok),
            None => self.draws_and_spawns(next, ok),
        }
    }

    /// Locking and spawning, then counting the frame.
    pub open spec fn locks_then_ticks(self, next: Game, ok: bool) -> bool {
        exists|after: Game|
            #[trigger] self.locks_and_spawns(after, ok) && (ok ==> next == (Game {
                current_tick: sat_inc(after.current_tick),
                ..after
            }))
    }

    /// What one event does; `ok` is false when the session ends. After an event that
    /// ends the session, the state is no longer described.
    pub open spec fn steps(self, event: Event, next: Game, ok: bool) -> bool {
        match event {
            Event::Tick => {
                let land = if self.landed() {
                    sat_inc(self.land_tick_count)
                } else {
                    0
                };
                let mid = Game { land_tick_count: land, ..self };
                if land >= self.lock_delay {
                    mid.locks_then_ticks(next, ok)
                } else {
                    ok && next == (Game { current_tick: sat_inc(self.current_tick), ..mid })
                }
            },
            Event::RotateLeft => self.moves_to((0, 0), 3, next, ok),
            Event::RotateRight => self.moves_to((0, 0), 1, next, ok),
            Event::Rotate180 => self.moves_to((0, 0), 2, next, ok),
            Event::Hold => {
                if self.board.current_piece is None || self.hold_used {
                    ok && next == self
                } else {
                    exists|mid: Game|
                        #[trigger] self.hold_spawns(mid, ok) && (ok ==> next == (Game {
                            hold: Some(self.board.current_piece->0.typ),
                            hold_used: true,
                            ..mid
                        }))
                }
            },
            Event::HardDrop => exists|b: ExtendedBoard|
                self.fast_dropped(b) && (Game { board: b, ..self }).locks_and_spawns(next, ok),
            Event::SoftDropFast => ok && exists|
                b: ExtendedBoard,
            | self.fast_dropped(b) && next == (Game { board: b, land_tick_count: 0, ..self }),
            Event::Forfeit => !ok && next == self,
            Event::MoveLeftBegin => (Game {
                move_left_down: true,
                move_direction: -1isize,
                move_auto_repeat: false,
                ..self
            }).moves_to((-1isize, 0isize), 0, next, ok),
            Event::MoveLeftEnd => if self.move_right_down {
                (Game { move_left_down: false, move_direction: 1, ..self }).moves_to((1, 0), 0, next, ok)
            } else {
                ok && next == (Game { move_left_down: false, move_direction: 0, ..self })
            },
            Event::MoveRightBegin => (Game {
                move_right_down: true,
                move_direction: 1,
                move_auto_repeat: false,
                ..self
            }).moves_to((1, 0), 0, next, ok),
            Event::MoveRightEnd => if self.move_left_down {
                (Game { move_right_down: false, move_direction: -1isize, ..self }).moves_to((-1isize, 0isize), 0, next, ok)
            } else {
                ok && next == (Game { move_right_down: false, move_direction: 0, ..self })
            },
            Event::SoftDropBegin => (Game { soft_drop_down: true, ..self }).moves_to((0, 1), 0, next, ok),
            Event::SoftDropEnd => ok && next == (Game { soft_drop_down: false, ..self }),
        }
    }

    /// Handles one event; `Err` ends the session (a forfeit, or a piece that cannot spawn).
    pub fn on_event(&mut self, event: Event) -> (r: Result<(), ()>)
        requires
            old(self).wf(),
        ensures
            final(self).wf(),
            old(self).steps(event, *final(self), r is Ok),
    {
        match event {
            Event::Tick => {
                if self.board.is_land() {
                    self.land_tick_count = self.land_tick_count.saturating_add(1);
                } else {
                    self.land_tick_count = 0;
                }
                if self.land_tick_count >= self.lock_delay {
                    let ghost mid = *self;
                    let ghost land = self.land_tick_count;
                    assert(mid == (Game { land_tick_count: land, ..*old(self) }));
                    assert(land == (if old(self).landed() {
                        sat_inc(old(self).land_tick_count)
                    } else {
                        0
                    }));
                    let res = self.lock_and_add_next_piece();
                    let ghost after = *self;
                    if res.is_err() {
                        assert((Game { land_tick_count: land, ..*old(self) }).locks_and_spawns(after, false));
                        return Err(());
                    }
                    self.current_tick = self.current_tick.saturating_add(1);
                    assert((Game { land_tick_count: land, ..*old(self) }).locks_and_spawns(after, true));
                    assert(*self == (Game { current_tick: sat_inc(after.current_tick), ..after }));
                } else {
                    self.current_tick = self.current_tick.saturating_add(1);
                }
            },
            Event::RotateLeft => {
                self.move_piece((0, 0), 3)?;
            },
            Event::RotateRight => {
                self.move_piece((0, 0), 1)?;
            },
            Event::Rotate180 => {
                self.move_piece((0, 0), 2)?;
            },
            Event::Hold => {
                if let Some(piece) = &self.board.current_piece {
                    if !self.hold_used {
                        let current_typ = piece.typ;
                        let res = if let Some(hold) = self.hold {
                            self.add_type_piece(hold)
                        } else {
                            self.add_next_piece()
                        };
                        let ghost mid = *self;
                        if res.is_err() {
                            assert(old(self).hold_spawns(mid, false));
                            return Err(());
                        }
                        self.hold = Some(current_typ);
                        self.hold_used = true;
                        assert(old(self).hold_spawns(mid, true));
                    }
                }
            },
            Event::HardDrop => {
                self.board.fast_drop();
                let ghost b = self.board;
                assert(old(self).fast_dropped(b));
                let res = self.lock_and_add_next_piece();
                assert((Game { board: b, ..*old(self) }).locks_and_spawns(*self, res is Ok));
                res?;
            },
            Event::SoftDropFast => {
                self.board.fast_drop();
                let ghost b = self.board;
                assert(old(self).fast_dropped(b));
                self.land_tick_count = 0;
                assert(*self == (Game { board: b, land_tick_count: 0, ..*old(self) }));
            },
            Event::Forfeit => {
                return Err(());
            },
            Event::MoveLeftBegin => {
                self.move_left_down = true;
                self.move_direction = -1;
                self.move_auto_repeat = false;
                self.move_piece((-1, 0), 0)?;
            },
            Event::MoveLeftEnd => {
                self.move_left_down = false;
                if self.move_right_down {
                    self.move_direction = 1;
                    self.move_piece((1, 0), 0)?;
                } else {
                    self.move_direction = 0;
                }
            },
            Event::MoveRightBegin => {
                self.move_right_down = true;
                self.move_direction = 1;
                self.move_auto_repeat = false;
                self.move_piece((1, 0), 0)?;
            },
            Event::MoveRightEnd => {
                self.move_right_down = false;
                if self.move_left_down {
                    self.move_direction = -1;
                    self.move_piece((-1, 0), 0)?;
                } else {
                    self.move_direction = 0;
                }
            },
            Event::SoftDropBegin => {
                self.soft_drop_down = true;
                self.move_piece((0, 1), 0)?;
            },
            Event::SoftDropEnd => {
                self.soft_drop_down = false;
            },
        }
        Ok(())
    }
}

/// A second hold before the next spawn does nothing: after a hold that went through,
/// holding again leaves the session exactly as it is.
pub proof fn lemma_hold_twice(g0: Game, g1: Game, g2: Game, ok2: bool)
    requires
        g0.steps(Event::Hold, g1, true),
        g1.steps(Event::Hold, g2, ok2),
    ensures
        ok2,
        g2 == g1,
{
    if !(g0.board.current_piece is None || g0.hold_used) {
        let mid = choose|mid: Game|
            #[trigger] g0.hold_spawns(mid, true) && g1 == (Game {
                hold: Some(g0.board.current_piece->0.typ),
                hold_used: true,
                ..mid
            });
        assert(g1.hold_used);
    }
}

/// The infinite-spin guard: when a landed piece makes a successful move that leaves it
/// landed and the resets reach the maximum, the piece locks and the next one spawns at
/// once, whatever the lock-delay counter; a spawned piece starts with no resets.
pub proof fn lemma_reset_limit_locks(g: Game, tr: (isize, isize), rot: int, next: Game, ok: bool)
    requires
        g.moves_to(tr, rot, next, ok),
        g.landed(),
        g.board.move_target(tr, rot) is Some,
        !(ExtendedBoard { current_piece: g.board.piece_after_move(tr, rot), ..g.board }).can_drop(1),
        sat_inc(g.reset_times) >= g.max_reset_times,
    ensures
        (Game {
            board: ExtendedBoard { current_piece: g.board.piece_after_move(tr, rot), ..g.board },
            reset_times: sat_inc(g.reset_times),
            land_tick_count: 0,
            ..g
        }).locks_and_spawns(next, ok),
        ok ==> next.reset_times == 0 && next.land_tick_count == 0 && !next.hold_used,
{
    let mid = Game {
        board: ExtendedBoard { current_piece: g.board.piece_after_move(tr, rot), ..g.board },
        reset_times: sat_inc(g.reset_times),
        land_tick_count: 0,
        ..g
    };
    if ok {
        let (b1, b2, r) = choose|b1: Board, b2: Board, r: (usize, usize)|
            mid.board.locks_into(b1) && b1.compacts_into(b2, r) && (Game {
                board: ExtendedBoard { board: b2, current_piece: None, ..mid.board },
                ..mid
            }).draws_and_spawns(next, ok);
    }
}

} // verus!
