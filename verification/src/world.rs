use vstd::prelude::*;
use crate::random::Draws;

verus! {

/// Declares rand's `ThreadRng`, the handle to a thread's random generator,
/// as a type whose contents stay hidden.
#[verifier::external_type_specification]
#[verifier::external_body]
pub struct ExThreadRng(rand::rngs::ThreadRng);

/// Calls `rand::thread_rng`, which hands out a handle to the calling
/// thread's generator (seeded from the operating system on first use).
/// Nothing is claimed of the handle. The call panics when the operating
/// system's random source fails at that first seeding; no argument decides
/// that, so no `requires` rules it out.
#[verifier::external_body]
fn thread_rng() -> rand::rngs::ThreadRng {
    rand::thread_rng()
}

/// Width of the ground platform the run starts on.
pub const GROUND_WIDTH: u16 = 60;

/// Number of platforms generated after the ground one when a world is made.
pub const INITIAL_CHUNKS: u16 = 6;

/// Smallest gap, in columns, between two platforms.
pub const MIN_GAP: u16 = 3;

/// Bound (excluded) of the gap between two platforms.
pub const GAP_BOUND: u16 = 12;

/// Smallest width of a generated platform.
pub const MIN_WIDTH: u16 = 5;

/// Bound (excluded) of the width of a generated platform.
pub const WIDTH_BOUND: u16 = 18;

/// Largest step, in rows, between the surfaces of two platforms in a row.
pub const MAX_STEP: u32 = 8;

/// A platform: it spans the columns `x .. x + width` and its surface lies at
/// row `y_quarters / 4`; heights are kept in quarter rows, since the ground
/// lies at three quarters of the screen height.
#[derive(Clone, Copy, PartialEq, Eq, Structural, Debug)]
pub struct Platform {
    pub x: u64,
    pub y_quarters: u32,
    pub width: u16,
}

/// The column just right of the platform.
pub open spec fn right_end(p: Platform) -> int {
    p.x + p.width
}

/// The highest row (smallest row number) a generated platform may have.
pub open spec fn min_row(screen_h: int) -> int {
    screen_h / 5
}

/// The lowest row a generated platform may have.
pub open spec fn max_row(screen_h: int) -> int {
    screen_h - 4
}

/// The height of the ground, at three quarters of the screen, in quarter
/// rows.
pub open spec fn ground_quarters(screen_h: int) -> int {
    3 * screen_h
}

/// `v` brought into `[lo, hi]`.
pub open spec fn clamp(v: int, lo: int, hi: int) -> int {
    if v < lo {
        lo
    } else if v > hi {
        hi
    } else {
        v
    }
}

/// The surface height, in quarter rows, of the platform placed after one at
/// `last` when the generator picked row `target`: the target is first moved
/// to within 8 rows of `last`, then into the allowed band of rows.
pub open spec fn next_surface(last: int, target: int, screen_h: int) -> int {
    clamp(
        clamp(4 * target, last - 4 * MAX_STEP, last + 4 * MAX_STEP),
        4 * min_row(screen_h),
        4 * max_row(screen_h),
    )
}

/// The platform placed at `cursor + gap` after a platform whose surface
/// lies at `last`, from the gap, target row and width that the generator
/// picked.
pub open spec fn chunk(cursor: int, last: int, screen_h: int, gap: int, target: int, width: int) -> Platform {
    Platform {
        x: (cursor + gap) as u64,
        y_quarters: next_surface(last, target, screen_h) as u32,
        width: width as u16,
    }
}

/// The ranges a chunk's gap, target row and width are drawn from, in that
/// order: gaps of 3 to 11 columns, rows from a fifth of the screen height to
/// 4 rows above its bottom (excluded), widths of 5 to 17 columns.
pub open spec fn chunk_draw_ranges(screen_h: int) -> Seq<(u16, u16)> {
    seq![
        (MIN_GAP, GAP_BOUND),
        (min_row(screen_h) as u16, max_row(screen_h) as u16),
        (MIN_WIDTH, WIDTH_BOUND),
    ]
}

/// The values the generator may pick for a chunk.
pub open spec fn chunk_choice(screen_h: int, gap: int, target: int, width: int) -> bool {
    &&& MIN_GAP <= gap < GAP_BOUND
    &&& min_row(screen_h) <= target < max_row(screen_h)
    &&& MIN_WIDTH <= width < WIDTH_BOUND
}

/// `p` is a platform that the generator can place after the cursor `cursor`
/// and the surface height `last`.
pub open spec fn is_chunk(cursor: int, last: int, screen_h: int, p: Platform) -> bool {
    exists|gap: int, target: int, width: int|
        #![trigger chunk(cursor, last, screen_h, gap, target, width)]
        chunk_choice(screen_h, gap, target, width) && p == chunk(
            cursor,
            last,
            screen_h,
            gap,
            target,
            width,
        )
}

/// `p` can follow `prev`: the gap between them is 3 to 11 columns, `p` is 5
/// to 17 columns wide, its surface lies in the allowed band of rows, and at
/// most 8 rows above or below that of `prev`.
pub open spec fn follows(prev: Platform, p: Platform, screen_h: int) -> bool {
    &&& MIN_GAP <= p.x - right_end(prev) < GAP_BOUND
    &&& MIN_WIDTH <= p.width < WIDTH_BOUND
    &&& 4 * min_row(screen_h) <= p.y_quarters <= 4 * max_row(screen_h)
    &&& -4 * MAX_STEP <= p.y_quarters - prev.y_quarters <= 4 * MAX_STEP
}

/// Each platform of `ps` but the first follows the one before it.
pub open spec fn well_spaced(ps: Seq<Platform>, screen_h: int) -> bool {
    forall|i: int| 0 < i < ps.len() ==> #[trigger] follows(ps[i - 1], ps[i], screen_h)
}

/// The platforms of `ps`, in order, whose right end lies right of column
/// `keep`.
pub open spec fn kept_right_of(ps: Seq<Platform>, keep: int) -> Seq<Platform>
    decreases ps.len(),
{
    if ps.len() == 0 {
        ps
    } else {
        let rest = kept_right_of(ps.drop_last(), keep);
        if right_end(ps.last()) > keep {
            rest.push(ps.last())
        } else {
            rest
        }
    }
}

/// `added` is a run of platforms that the generator can place one after the
/// other, starting from the cursor `cursor` and the surface height `last`.
pub open spec fn generated_run(cursor: int, last: int, screen_h: int, added: Seq<Platform>) -> bool
    decreases added.len(),
{
    if added.len() == 0 {
        true
    } else {
        let rest = added.drop_last();
        let (c, l) = if rest.len() == 0 {
            (cursor, last)
        } else {
            (right_end(rest.last()), rest.last().y_quarters as int)
        };
        generated_run(cursor, last, screen_h, rest) && is_chunk(c, l, screen_h, added.last())
    }
}

/// The endless level: platforms generated from left to right ahead of the
/// camera, and dropped once they have scrolled away.
pub struct World {
    pub platforms: Vec<Platform>,
    pub chunk_cursor: u64,
    pub screen_w: u16,
    pub screen_h: u16,
    pub last_plat_y: u32,
    pub rng: rand::rngs::ThreadRng,
}

/// The platform `p` was placed after the cursor `cursor` and the surface
/// height `last` from the three draws `d`, in order: its gap from a draw
/// over 3 to 11, its target row from a draw over the allowed band, its width
/// from a draw over 5 to 17.
pub open spec fn chunk_drawn(
    cursor: int,
    last: int,
    screen_h: int,
    p: Platform,
    d: Seq<(u16, u16, u16)>,
) -> bool {
    &&& d.len() == 3
    &&& d[0].0 == MIN_GAP && d[0].1 == GAP_BOUND
    &&& d[1].0 == min_row(screen_h) && d[1].1 == max_row(screen_h)
    &&& d[2].0 == MIN_WIDTH && d[2].1 == WIDTH_BOUND
    &&& forall|i: int| 0 <= i < 3 ==> #[trigger] d[i].0 <= d[i].2 < d[i].1
    &&& p == chunk(cursor, last, screen_h, d[0].2 as int, d[1].2 as int, d[2].2 as int)
}

/// The run `added` was placed one platform after the other, from the cursor
/// `cursor` and the surface height `last` on, each from the next three draws
/// of the log `log`, which holds nothing else.
pub open spec fn drawn_run(
    cursor: int,
    last: int,
    screen_h: int,
    added: Seq<Platform>,
    log: Seq<(u16, u16, u16)>,
) -> bool
    decreases added.len(),
{
    if added.len() == 0 {
        log.len() == 0
    } else {
        let rest = added.drop_last();
        let (c, l) = if rest.len() == 0 {
            (cursor, last)
        } else {
            (right_end(rest.last()), rest.last().y_quarters as int)
        };
        &&& log.len() == 3 * added.len()
        &&& drawn_run(cursor, last, screen_h, rest, log.take(log.len() - 3))
        &&& chunk_drawn(c, l, screen_h, added.last(), log.skip(log.len() - 3))
    }
}

/// `new` is what `update(generate_until, keep)` makes of the world `old`
/// when the generator places the run `added`, drawn as a log of draws
/// shows: a platform is generated only
/// while the cursor is short of `generate_until` (the first when `old`'s
/// cursor is, each next one when the one before it ends short of it); the
/// cursor and the last surface height move only with the platforms
/// generated; and `new` holds, of `old`'s platforms followed by `added`,
/// those that end right of `keep`.
pub open spec fn update_run(
    old: World,
    new: World,
    generate_until: int,
    keep: int,
    added: Seq<Platform>,
) -> bool {
    &&& generated_run(old.cursor(), old.last_surface(), old.screen_height(), added)
    &&& exists|log: Draws|
        #![trigger drawn_run(old.cursor(), old.last_surface(), old.screen_height(), added, log@)]
        drawn_run(old.cursor(), old.last_surface(), old.screen_height(), added, log@)
    &&& added.len() > 0 ==> old.cursor() < generate_until
    &&& forall|i: int| 0 <= i < added.len() - 1 ==> right_end(#[trigger] added[i]) < generate_until
    &&& new.cursor() == if added.len() > 0 {
        right_end(added.last())
    } else {
        old.cursor()
    }
    &&& new.last_surface() == if added.len() > 0 {
        added.last().y_quarters as int
    } else {
        old.last_surface()
    }
    &&& new@ == kept_right_of(old@ + added, keep)
}

/// What `update(generate_until, keep)` makes of the world `old`: `new` is
/// made for the same screen, its cursor has reached `generate_until` (at
/// most 27 columns past it when platforms were generated), and it comes
/// from `old` through some run of generated platforms, as `update_run`
/// says.
pub open spec fn updated(old: World, new: World, generate_until: int, keep: int) -> bool {
    &&& new.screen_width() == old.screen_width()
    &&& new.screen_height() == old.screen_height()
    &&& new.cursor() >= generate_until
    &&& old.cursor() >= generate_until ==> new.cursor() == old.cursor()
    &&& old.cursor() < generate_until ==> new.cursor() < generate_until + 28
    &&& exists|added: Seq<Platform>|
        #![trigger update_run(old, new, generate_until, keep, added)]
        update_run(old, new, generate_until, keep, added)
}

impl View for World {
    type V = Seq<Platform>;

    /// The platforms, left to right.
    open spec fn view(&self) -> Seq<Platform> {
        self.platforms@
    }
}

impl World {
    /// The column where the next platform's gap starts: the right end of the
    /// last platform generated.
    pub open spec fn cursor(&self) -> int {
        self.chunk_cursor as int
    }

    /// The surface height, in quarter rows, of the last platform generated.
    pub open spec fn last_surface(&self) -> int {
        self.last_plat_y as int
    }

    /// The screen width the world was made for.
    pub open spec fn screen_width(&self) -> int {
        self.screen_w as int
    }

    /// The screen height the world was made for.
    pub open spec fn screen_height(&self) -> int {
        self.screen_h as int
    }

    /// The world's invariant: the platforms are well spaced, the last one
    /// ends at the cursor at the last surface height, and that height is the
    /// ground's or lies in the allowed band.
    pub open spec fn wf(&self) -> bool {
        &&& 6 <= self.screen_height()
        &&& well_spaced(self@, self.screen_height())
        &&& self@.len() > 0 ==> {
            &&& right_end(self@.last()) == self.cursor()
            &&& self@.last().y_quarters == self.last_surface()
        }
        &&& {
            ||| self.last_surface() == ground_quarters(self.screen_height())
            ||| 4 * min_row(self.screen_height()) <= self.last_surface() <= 4 * max_row(
                self.screen_height(),
            )
        }
    }

    /// A world for a screen of the given size: the ground platform, 60
    /// columns wide at three quarters of the screen height, and six
    /// generated platforms after it.
    pub fn new(screen_w: u16, screen_h: u16) -> (w: World)
        requires
            6 <= screen_h,
        ensures
            w.wf(),
            w.screen_width() == screen_w,
            w.screen_height() == screen_h,
            w@.len() == 1 + INITIAL_CHUNKS,
            w@[0] == (Platform {
                x: 0,
                y_quarters: ground_quarters(screen_h as int) as u32,
                width: GROUND_WIDTH,
            }),
            generated_run(
                GROUND_WIDTH as int,
                ground_quarters(screen_h as int),
                screen_h as int,
                w@.drop_first(),
            ),
            exists|log: Draws|
                #![trigger drawn_run(
                    GROUND_WIDTH as int,
                    ground_quarters(screen_h as int),
                    screen_h as int,
                    w@.drop_first(),
                    log@,
                )]
                drawn_run(
                    GROUND_WIDTH as int,
                    ground_quarters(screen_h as int),
                    screen_h as int,
                    w@.drop_first(),
                    log@,
                ),
    {
        let ground = 3 * (screen_h as u32);
        let mut world = World {
            platforms: Vec::new(),
            chunk_cursor: 0,
            screen_w,
            screen_h,
            last_plat_y: ground,
            rng: thread_rng(),
        };
        let log = world.generate_initial();
        assert(drawn_run(
            GROUND_WIDTH as int,
            ground_quarters(screen_h as int),
            screen_h as int,
            world@.drop_first(),
            log@,
        ));
        world
    }

    /// Lays the ground platform and the first six generated ones; returns
    /// the log of the draws they were made from.
    fn generate_initial(&mut self) -> (log: Draws)
        requires
            old(self).wf(),
            old(self)@.len() == 0,
        ensures
            final(self).wf(),
            final(self).screen_width() == old(self).screen_width(),
            final(self).screen_height() == old(self).screen_height(),
            final(self)@.len() == 1 + INITIAL_CHUNKS,
            final(self)@[0] == (Platform {
                x: 0,
                y_quarters: ground_quarters(old(self).screen_height()) as u32,
                width: GROUND_WIDTH,
            }),
            generated_run(
                GROUND_WIDTH as int,
                ground_quarters(old(self).screen_height()),
                old(self).screen_height(),
                final(self)@.drop_first(),
            ),
            drawn_run(
                GROUND_WIDTH as int,
                ground_quarters(old(self).screen_height()),
                old(self).screen_height(),
                final(self)@.drop_first(),
                log@,
            ),
    {
        let mut log = Draws::new();
        let ground = 3 * (self.screen_h as u32);
        self.platforms.push(Platform { x: 0, y_quarters: ground, width: GROUND_WIDTH });
        self.last_plat_y = ground;
        self.chunk_cursor = GROUND_WIDTH as u64;
        let mut i: u16 = 0;
        while i < INITIAL_CHUNKS
            invariant
                self.wf(),
                i <= INITIAL_CHUNKS,
                self.screen_width() == old(self).screen_width(),
                self.screen_height() == old(self).screen_height(),
                self@.len() == 1 + i,
                self@[0] == (Platform {
                    x: 0,
                    y_quarters: ground as u32,
                    width: GROUND_WIDTH,
                }),
                ground == ground_quarters(old(self).screen_height()),
                self.cursor() <= GROUND_WIDTH + 28 * i,
                generated_run(
                    GROUND_WIDTH as int,
                    ground as int,
                    old(self).screen_height(),
                    self@.drop_first(),
                ),
                drawn_run(
                    GROUND_WIDTH as int,
                    ground as int,
                    old(self).screen_height(),
                    self@.drop_first(),
                    log@,
                ),
                self@.len() == 1 ==> self.cursor() == GROUND_WIDTH && self.last_surface() == ground,
            decreases INITIAL_CHUNKS - i,
        {
            let ghost before = self@;
            let ghost log_before = log@;
            let drawn = self.generate_chunk();
            log.append(drawn);
            proof {
                assert(log@.take(log@.len() - 3) =~= log_before);
                assert(log@.skip(log@.len() - 3) =~= drawn@);
                let after = self@;
                assert(after.drop_first().drop_last() =~= before.drop_first());
                assert(after.drop_first().last() == after.last());
                if before.len() > 1 {
                    assert(before.drop_first().last() == before.last());
                }
            }
            i = i + 1;
        }
        log
    }

    /// Places the next platform from the gap, target row and width that the
    /// generator picked: `gap` columns after the cursor, `width` columns
    /// wide, with its surface at the target row moved to within 8 rows of
    /// the last platform's and into the allowed band.
    pub fn place_chunk(&mut self, gap: u16, target_y: u16, width: u16)
        requires
            old(self).wf(),
            chunk_choice(old(self).screen_height(), gap as int, target_y as int, width as int),
            old(self).cursor() + gap + width <= u64::MAX,
        ensures
            final(self).wf(),
            final(self).screen_width() == old(self).screen_width(),
            final(self).screen_height() == old(self).screen_height(),
            final(self)@ == old(self)@.push(
                chunk(
                    old(self).cursor(),
                    old(self).last_surface(),
                    old(self).screen_height(),
                    gap as int,
                    target_y as int,
                    width as int,
                ),
            ),
            final(self).cursor() == old(self).cursor() + gap + width,
            final(self).last_surface() == final(self)@.last().y_quarters,
    {
        let plat_x = self.chunk_cursor + gap as u64;
        let min_y = self.screen_h / 5;
        let max_y = self.screen_h - 4;
        let last = self.last_plat_y;
        // The target, in quarter rows, brought to within 8 rows of the last
        // surface, then into the band of allowed rows.
        let mut new_y: u32 = 4 * (target_y as u32);
        let step = 4 * MAX_STEP;
        if last >= step && new_y < last - step {
            new_y = last - step;
        }
        if new_y > last + step {
            new_y = last + step;
        }
        if new_y < 4 * (min_y as u32) {
            new_y = 4 * (min_y as u32);
        }
        if new_y > 4 * (max_y as u32) {
            new_y = 4 * (max_y as u32);
        }
        let p = Platform { x: plat_x, y_quarters: new_y, width };
        assert(p == chunk(
            old(self).cursor(),
            old(self).last_surface(),
            old(self).screen_height(),
            gap as int,
            target_y as int,
            width as int,
        ));
        let ghost before = self@;
        self.platforms.push(p);
        self.last_plat_y = new_y;
        self.chunk_cursor = plat_x + width as u64;
        proof {
            let ps = self@;
            assert forall|i: int| 0 < i < ps.len() implies #[trigger] follows(
                ps[i - 1],
                ps[i],
                self.screen_height(),
            ) by {
                if i < ps.len() - 1 {
                    assert(ps[i - 1] == before[i - 1] && ps[i] == before[i]);
                } else {
                    assert(ps[i - 1] == before.last());
                }
            }
        }
    }

    /// Places the next platform at a gap, target row and width drawn at
    /// random: gap 3 to 11 columns, target row in the allowed band, width 5
    /// to 17 columns. Returns the log of the three draws, from which the
    /// platform is made.
    pub fn generate_chunk(&mut self) -> (drawn: Draws)
        requires
            old(self).wf(),
            old(self).cursor() + 28 <= u64::MAX,
        ensures
            final(self).wf(),
            final(self).screen_width() == old(self).screen_width(),
            final(self).screen_height() == old(self).screen_height(),
            final(self)@.len() == old(self)@.len() + 1,
            final(self)@.drop_last() == old(self)@,
            is_chunk(
                old(self).cursor(),
                old(self).last_surface(),
                old(self).screen_height(),
                final(self)@.last(),
            ),
            final(self).cursor() == right_end(final(self)@.last()),
            old(self).cursor() + MIN_GAP + MIN_WIDTH <= final(self).cursor() <= old(self).cursor() + 28,
            chunk_drawn(
                old(self).cursor(),
                old(self).last_surface(),
                old(self).screen_height(),
                final(self)@.last(),
                drawn@,
            ),
            forall|i: int|
                0 <= i < 3 ==> (#[trigger] drawn@[i].0, drawn@[i].1) == chunk_draw_ranges(
                    old(self).screen_height(),
                )[i],
    {
        let mut drawn = Draws::new();
        let gap = drawn.draw(&mut self.rng, MIN_GAP, GAP_BOUND);
        let min_y = self.screen_h / 5;
        let max_y = self.screen_h - 4;
        let target_y = drawn.draw(&mut self.rng, min_y, max_y);
        let width = drawn.draw(&mut self.rng, MIN_WIDTH, WIDTH_BOUND);
        self.place_chunk(gap, target_y, width);
        assert(self@.drop_last() =~= old(self)@);
        drawn
    }

    /// Generates platforms until the cursor reaches `generate_until`, then
    /// drops every platform whose right end is not right of column
    /// `keep_right_of`.
    pub fn update(&mut self, generate_until: u64, keep_right_of: i64)
        requires
            old(self).wf(),
            generate_until <= u64::MAX - 28,
        ensures
            final(self).wf(),
            updated(*old(self), *final(self), generate_until as int, keep_right_of as int),
    {
        let ghost start_cursor = self.cursor();
        let ghost start_last = self.last_surface();
        let ghost h = self.screen_height();
        let ghost mut added: Seq<Platform> = Seq::empty();
        let mut log = Draws::new();
        while self.chunk_cursor < generate_until
            invariant
                drawn_run(start_cursor, start_last, h, added, log@),
                self.wf(),
                self.screen_width() == old(self).screen_width(),
                self.screen_height() == h,
                h == old(self).screen_height(),
                start_cursor == old(self).cursor(),
                start_last == old(self).last_surface(),
                generate_until <= u64::MAX - 28,
                self@ == old(self)@ + added,
                generated_run(start_cursor, start_last, h, added),
                added.len() == 0 ==> self.cursor() == start_cursor && self.last_surface()
                    == start_last,
                added.len() > 0 ==> self.cursor() == right_end(added.last())
                    && self.last_surface() == added.last().y_quarters,
                start_cursor >= generate_until ==> added.len() == 0,
                start_cursor < generate_until ==> self.cursor() < generate_until + 28,
                added.len() > 0 ==> start_cursor < generate_until,
                forall|i: int|
                    0 <= i < added.len() - 1 ==> right_end(#[trigger] added[i]) < generate_until,
            decreases u64::MAX - self.cursor(),
        {
            let ghost before = self@;
            let ghost prev_added = added;
            let ghost cursor_before = self.cursor();
            let ghost log_before = log@;
            let drawn = self.generate_chunk();
            log.append(drawn);
            proof {
                added = added.push(self@.last());
                assert(log@.take(log@.len() - 3) =~= log_before);
                assert(log@.skip(log@.len() - 3) =~= drawn@);
                assert(self@ =~= old(self)@ + added) by {
                    assert(self@.drop_last() == before);
                    assert(self@ =~= before.push(self@.last()));
                }
                assert(added.drop_last() =~= prev_added);
                assert(generated_run(start_cursor, start_last, h, added));
                assert forall|i: int|
                    0 <= i < added.len() - 1 implies right_end(#[trigger] added[i])
                    < generate_until by {
                    assert(added[i] == prev_added[i]);
                    if i == prev_added.len() - 1 {
                        assert(right_end(prev_added.last()) == cursor_before);
                    }
                }
            }
        }
        let ghost grown = self@;
        self.retain_right_of(keep_right_of);
        assert(self@ == kept_right_of(old(self)@ + added, keep_right_of as int)) by {
            assert(grown == old(self)@ + added);
        }
        assert(drawn_run(start_cursor, start_last, h, added, log@));
        assert(update_run(
            *old(self),
            *self,
            generate_until as int,
            keep_right_of as int,
            added,
        ));
    }

    /// Drops every platform whose right end is not right of column `keep`.
    fn retain_right_of(&mut self, keep_right_of: i64)
        requires
            old(self).wf(),
        ensures
            final(self).wf(),
            final(self).screen_width() == old(self).screen_width(),
            final(self).screen_height() == old(self).screen_height(),
            final(self).cursor() == old(self).cursor(),
            final(self).last_surface() == old(self).last_surface(),
            final(self)@ == kept_right_of(old(self)@, keep_right_of as int),
    {
        let ghost h = self.screen_height();
        let ghost all = self@;
        let mut kept: Vec<Platform> = Vec::new();
        let n = self.platforms.len();
        let mut i: usize = 0;
        while i < n
            invariant
                n == self.platforms@.len(),
                self@ == all,
                i <= n,
                kept@ == kept_right_of(all.take(i as int), keep_right_of as int),
            decreases n - i,
        {
            let p = self.platforms[i];
            proof {
                assert(all.take(i + 1).drop_last() =~= all.take(i as int));
                assert(all.take(i + 1).last() == p);
            }
            if (p.x as i128) + (p.width as i128) > keep_right_of as i128 {
                kept.push(p);
            }
            i = i + 1;
        }
        proof {
            assert(all.take(n as int) =~= all);
        }
        self.platforms = kept;
        proof {
            let j = lemma_kept_suffix(all, keep_right_of as int, h);
            let ps = self@;
            assert(ps =~= all.subrange(j, all.len() as int));
            assert forall|k: int| 0 < k < ps.len() implies #[trigger] follows(ps[k - 1], ps[k], h) by {
                assert(ps[k - 1] == all[j + k - 1] && ps[k] == all[j + k]);
                assert(follows(all[j + k - 1], all[j + k], h));
            }
            if ps.len() > 0 {
                assert(ps.last() == all.last());
            }
        }
    }
}

/// Dropping the platforms that end at or left of a column, from a well-spaced
/// run, leaves a suffix of it: the platforms from index `j` on, each of which
/// ends right of the column.
pub proof fn lemma_kept_suffix(ps: Seq<Platform>, keep: int, screen_h: int) -> (j: int)
    requires
        well_spaced(ps, screen_h),
    ensures
        0 <= j <= ps.len(),
        kept_right_of(ps, keep) == ps.subrange(j, ps.len() as int),
        forall|i: int| j <= i < ps.len() ==> right_end(#[trigger] ps[i]) > keep,
    decreases ps.len(),
{
    if ps.len() == 0 {
        assert(ps.subrange(0, 0) =~= ps);
        0
    } else {
        let rest = ps.drop_last();
        assert(well_spaced(rest, screen_h)) by {
            assert forall|i: int| 0 < i < rest.len() implies #[trigger] follows(
                rest[i - 1],
                rest[i],
                screen_h,
            ) by {
                assert(follows(ps[i - 1], ps[i], screen_h));
            }
        }
        let j0 = lemma_kept_suffix(rest, keep, screen_h);
        if right_end(ps.last()) > keep {
            assert(kept_right_of(ps, keep) =~= ps.subrange(j0, ps.len() as int));
            assert forall|i: int| j0 <= i < ps.len() implies right_end(#[trigger] ps[i]) > keep by {
                if i < ps.len() - 1 {
                    assert(ps[i] == rest[i]);
                }
            }
            j0
        } else {
            if j0 < rest.len() {
                assert(right_end(rest[rest.len() - 1]) > keep);
                assert(follows(ps[ps.len() - 2], ps[ps.len() - 1], screen_h));
                assert(false);
            }
            assert(kept_right_of(ps, keep) =~= ps.subrange(ps.len() as int, ps.len() as int));
            ps.len() as int
        }
    }
}


/// In a well-spaced run the platforms go from left to right and never
/// overlap: every platform starts at least 3 columns right of the end of any
/// platform before it.
pub proof fn law_platforms_ordered(ps: Seq<Platform>, screen_h: int, i: int, j: int)
    requires
        well_spaced(ps, screen_h),
        0 <= i < j < ps.len(),
    ensures
        right_end(ps[i]) + MIN_GAP <= ps[j].x,
    decreases j - i,
{
    assert(follows(ps[j - 1], ps[j], screen_h));
    if i < j - 1 {
        law_platforms_ordered(ps, screen_h, i, j - 1);
    }
}

/// Every platform that is kept ends right of the line.
pub proof fn lemma_kept_end_right(ps: Seq<Platform>, keep: int)
    ensures
        forall|i: int|
            0 <= i < kept_right_of(ps, keep).len() ==> right_end(#[trigger] kept_right_of(
                ps,
                keep,
            )[i]) > keep,
    decreases ps.len(),
{
    if ps.len() > 0 {
        lemma_kept_end_right(ps.drop_last(), keep);
        let rest = kept_right_of(ps.drop_last(), keep);
        if right_end(ps.last()) > keep {
            assert forall|i: int| 0 <= i < rest.push(ps.last()).len() implies right_end(
                #[trigger] rest.push(ps.last())[i],
            ) > keep by {
                if i < rest.len() {
                    assert(rest.push(ps.last())[i] == rest[i]);
                }
            }
        }
    }
}

/// A run whose platforms all end right of the line is kept whole.
pub proof fn lemma_kept_whole(ps: Seq<Platform>, keep: int)
    requires
        forall|i: int| 0 <= i < ps.len() ==> right_end(#[trigger] ps[i]) > keep,
    ensures
        kept_right_of(ps, keep) == ps,
    decreases ps.len(),
{
    if ps.len() > 0 {
        let rest = ps.drop_last();
        assert forall|i: int| 0 <= i < rest.len() implies right_end(#[trigger] rest[i]) > keep by {
            assert(rest[i] == ps[i]);
        }
        lemma_kept_whole(rest, keep);
        assert(right_end(ps.last()) > keep);
        assert(rest.push(ps.last()) =~= ps);
    }
}

/// Updating a second time with the same bounds changes nothing: it
/// generates no platform, since the cursor already reached the lookahead,
/// and it drops none, since every platform left ends right of the line.
pub proof fn law_update_settles(w0: World, w1: World, w2: World, generate_until: int, keep: int)
    requires
        updated(w0, w1, generate_until, keep),
        updated(w1, w2, generate_until, keep),
    ensures
        w2@ == w1@,
        w2.cursor() == w1.cursor(),
{
    let added1 = choose|added: Seq<Platform>|
        #![trigger update_run(w0, w1, generate_until, keep, added)]
        update_run(w0, w1, generate_until, keep, added);
    let added2 = choose|added: Seq<Platform>|
        #![trigger update_run(w1, w2, generate_until, keep, added)]
        update_run(w1, w2, generate_until, keep, added);
    assert(added2.len() == 0);
    assert(w1@ + added2 =~= w1@);
    lemma_kept_end_right(w0@ + added1, keep);
    lemma_kept_whole(w1@, keep);
}

/// A platform made from three draws takes them as they came: it starts
/// the drawn gap (3 to 11) after the cursor, is the drawn width (5 to 17)
/// wide, and its surface lies in the band of rows, at most 8 rows from the
/// last one; when the drawn row is itself in the band and within 8 rows of
/// the last surface, the platform lies exactly on it.
pub proof fn law_chunk_takes_the_draws(
    cursor: int,
    last: int,
    screen_h: int,
    p: Platform,
    d: Seq<(u16, u16, u16)>,
)
    requires
        chunk_drawn(cursor, last, screen_h, p, d),
        0 <= cursor,
        cursor + 28 <= u64::MAX,
        6 <= screen_h <= u16::MAX,
        4 * (screen_h / 5) <= last + 32,
        last - 32 <= 4 * (screen_h - 4),
    ensures
        MIN_GAP <= d[0].2 < GAP_BOUND,
        screen_h / 5 <= d[1].2 < screen_h - 4,
        MIN_WIDTH <= d[2].2 < WIDTH_BOUND,
        p.x == cursor + d[0].2,
        p.width == d[2].2,
        4 * (screen_h / 5) <= p.y_quarters <= 4 * (screen_h - 4),
        last - 32 <= p.y_quarters <= last + 32,
        last - 32 <= 4 * d[1].2 <= last + 32 ==> p.y_quarters == 4 * d[1].2,
{
    assert(d[0].0 <= d[0].2 < d[0].1);
    assert(d[1].0 <= d[1].2 < d[1].1);
    assert(d[2].0 <= d[2].2 < d[2].1);
}

} // verus!
