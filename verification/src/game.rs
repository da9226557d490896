use vstd::prelude::*;
use crate::terminal::{
    Key, Terminal, blank_screen, decimal, frame_output, is_grid, law_put_cell_reads_back,
    law_put_text_places_each_char, lemma_put_text_other_rows, push_decimal, put_cell, put_text,
};
use crate::world::{Platform, World};

verus! {

/// Multiplier of the generator that scatters the background stars.
pub const STAR_MULTIPLIER: u64 = 6364136223846793005;

/// Increment of the generator that scatters the background stars.
pub const STAR_INCREMENT: u64 = 1442695040888963407;

/// The star generator's starting state for a screen of the given size.
pub open spec fn star_seed(screen_w: int, screen_h: int) -> int {
    screen_w + screen_h * 65536 + 0xDEADBEEF
}

/// One step of the star generator: multiply and add, modulo 2^64.
pub open spec fn star_step(seed: int) -> int {
    (seed * STAR_MULTIPLIER + STAR_INCREMENT) % 0x1_0000_0000_0000_0000
}

/// The generator's state after `k` steps from `seed`.
pub open spec fn star_state(seed: int, k: nat) -> int
    decreases k,
{
    if k == 0 {
        seed
    } else {
        star_step(star_state(seed, (k - 1) as nat))
    }
}

/// How many stars a screen of the given size gets: one per 25 cells, at
/// least 10 and at most 80.
pub open spec fn star_count(screen_w: int, screen_h: int) -> int {
    let n = screen_w * screen_h / 25;
    if n < 10 {
        10
    } else if n > 80 {
        80
    } else {
        n
    }
}

/// The number of rows the stars are spread over: the screen height less 4,
/// but at least 1.
pub open spec fn star_rows(screen_h: int) -> int {
    if screen_h - 4 < 1 {
        1
    } else {
        screen_h - 4
    }
}

/// The star placed from generator state `s`: its column from bits 16 to 31
/// of the state, its row, counted from row 2, from bits 32 to 47.
pub open spec fn star_at(s: int, screen_w: int, screen_h: int) -> (u16, u16) {
    (
        ((s / 0x1_0000) % 0x1_0000 % screen_w) as u16,
        (2 + (s / 0x1_0000_0000) % 0x1_0000 % star_rows(screen_h)) as u16,
    )
}

/// The background stars of a screen of the given size.
pub open spec fn stars_for(screen_w: int, screen_h: int) -> Seq<(u16, u16)> {
    Seq::new(
        star_count(screen_w, screen_h) as nat,
        |i: int|
            star_at(
                star_state(star_seed(screen_w, screen_h), (i + 1) as nat),
                screen_w,
                screen_h,
            ),
    )
}

/// One step of the star generator.
fn next_star_seed(seed: u64) -> (next: u64)
    ensures
        next == star_step(seed as int),
{
    let next = seed.wrapping_mul(STAR_MULTIPLIER).wrapping_add(STAR_INCREMENT);
    proof {
        let m: int = 0x1_0000_0000_0000_0000;
        let prod = seed as int * STAR_MULTIPLIER as int;
        let wm = seed.wrapping_mul(STAR_MULTIPLIER);
        assert(wm == prod % m);
        vstd::arithmetic::div_mod::lemma_add_mod_noop(prod, STAR_INCREMENT as int, m);
        vstd::arithmetic::div_mod::lemma_small_mod(STAR_INCREMENT as nat, m as nat);
        vstd::arithmetic::div_mod::lemma_mod_bound(wm as int + STAR_INCREMENT as int, m);
        if wm as int + STAR_INCREMENT as int >= m {
            vstd::arithmetic::div_mod::lemma_mod_sub_multiples_vanish(
                wm as int + STAR_INCREMENT as int - m,
                m,
            );
            vstd::arithmetic::div_mod::lemma_small_mod(
                (wm as int + STAR_INCREMENT as int - m) as nat,
                m as nat,
            );
        } else {
            vstd::arithmetic::div_mod::lemma_small_mod(
                (wm as int + STAR_INCREMENT as int) as nat,
                m as nat,
            );
        }
        vstd::arithmetic::div_mod::lemma_small_mod((wm as int) as nat, m as nat);
        assert((prod % m) % m == prod % m) by {
            vstd::arithmetic::div_mod::lemma_mod_bound(prod, m);
            vstd::arithmetic::div_mod::lemma_small_mod((prod % m) as nat, m as nat);
        }
    }
    next
}

/// Bits 16 to 31 and 32 to 47 of a generator state, as numbers.
proof fn lemma_star_bits(s: u64)
    ensures
        ((s >> 16) as u16) as int == (s as int / 0x1_0000) % 0x1_0000,
        ((s >> 32) as u16) as int == (s as int / 0x1_0000_0000) % 0x1_0000,
{
    assert(((s >> 16) as u16) as u64 == (s / 0x1_0000) % 0x1_0000) by (bit_vector);
    assert(((s >> 32) as u16) as u64 == (s / 0x1_0000_0000) % 0x1_0000) by (bit_vector);
}

/// Scatters the background stars over a screen of the given size with a
/// small deterministic generator seeded by the size: every star lies inside
/// the screen, below the first two rows.
pub fn generate_stars(screen_w: u16, screen_h: u16) -> (stars: Vec<(u16, u16)>)
    requires
        screen_w > 0,
    ensures
        stars@ == stars_for(screen_w as int, screen_h as int),
        10 <= stars@.len() <= 80,
        forall|i: int|
            0 <= i < stars@.len() ==> {
                &&& #[trigger] stars@[i].0 < screen_w
                &&& 2 <= stars@[i].1 < 2 + star_rows(screen_h as int)
            },
{
    let h64 = screen_h as u64;
    assert(h64 << 16 == h64 * 65536) by (bit_vector)
        requires
            h64 <= 0xffff,
    ;
    let mut seed: u64 = screen_w as u64 + (h64 << 16) + 0xDEADBEEF;
    let ghost seed0 = seed as int;
    assert(screen_w as int * screen_h as int <= 0xffff * 0xffff) by (nonlinear_arith)
        requires
            screen_w <= 0xffff,
            screen_h <= 0xffff,
    ;
    let cells = screen_w as usize * screen_h as usize / 25;
    let count = if cells < 10 {
        10
    } else if cells > 80 {
        80
    } else {
        cells
    };
    let rows: u16 = if screen_h < 5 {
        1
    } else {
        screen_h - 4
    };
    assert(rows == star_rows(screen_h as int));
    let mut stars: Vec<(u16, u16)> = Vec::new();
    let mut i: usize = 0;
    while i < count
        invariant
            i <= count,
            count == star_count(screen_w as int, screen_h as int),
            seed0 == star_seed(screen_w as int, screen_h as int),
            seed == star_state(seed0, i as nat),
            screen_w > 0,
            rows == star_rows(screen_h as int),
            stars@.len() == i,
            forall|j: int|
                0 <= j < i ==> #[trigger] stars@[j] == star_at(
                    star_state(seed0, (j + 1) as nat),
                    screen_w as int,
                    screen_h as int,
                ),
        decreases count - i,
    {
        seed = next_star_seed(seed);
        let hi16 = (seed >> 16) as u16;
        let hi32 = (seed >> 32) as u16;
        proof {
            lemma_star_bits(seed);
        }
        let sx = hi16 % screen_w;
        let sy = 2 + (hi32 % rows);
        stars.push((sx, sy));
        i = i + 1;
    }
    assert(stars@ =~= stars_for(screen_w as int, screen_h as int));
    stars
}

/// A row of `n` copies of `c`.
pub open spec fn run_of(c: char, n: int) -> Seq<char> {
    Seq::new(n as nat, |i: int| c)
}

/// A star at column `sx` of row `sy` shows in frame `frame` except in the
/// 10 dark frames of its 60-frame twinkle cycle, which its position shifts.
pub open spec fn star_lit(frame: u64, sx: u16, sy: u16) -> bool {
    ((frame + sx * 7 + sy * 13) % 0x1_0000_0000_0000_0000) % 60 < 50
}

/// The screen `g` with the lit stars of `stars` drawn as dots.
pub open spec fn with_stars(g: Seq<Seq<char>>, stars: Seq<(u16, u16)>, frame: u64) -> Seq<Seq<char>>
    decreases stars.len(),
{
    if stars.len() == 0 {
        g
    } else {
        let rest = with_stars(g, stars.drop_last(), frame);
        let (sx, sy) = stars.last();
        if star_lit(frame, sx, sy) {
            put_cell(rest, sx as int, sy as int, '.')
        } else {
            rest
        }
    }
}

/// The screen `g` with the bottom row of a `screen_w` by `screen_h` screen
/// drawn as a line of dots.
pub open spec fn with_ground(g: Seq<Seq<char>>, screen_w: int, screen_h: int) -> Seq<Seq<char>> {
    put_text(g, 0, screen_h - 1, run_of('.', screen_w))
}

/// The row of the screen a platform's surface is drawn at: its height in
/// whole rows, at most 65535.
pub open spec fn platform_row(p: Platform) -> int {
    if p.y_quarters / 4 > 0xffff {
        0xffff
    } else {
        (p.y_quarters / 4) as int
    }
}

/// The screen `g` with `=` drawn from column `x0` to column `x1`, both
/// included, of the platform's row.
pub open spec fn with_platform_cells(g: Seq<Seq<char>>, x0: int, x1: int, p: Platform) -> Seq<
    Seq<char>,
> {
    if x0 <= x1 {
        put_text(g, x0, platform_row(p), run_of('=', x1 - x0 + 1))
    } else {
        g
    }
}

/// The columns a platform that starts at screen column `sx` is drawn over:
/// none when it lies wholly left or right of the screen, else from its
/// first visible column to `sx + width` (included), cut at the last column.
pub open spec fn platform_span(sx: int, width: int, screen_w: int) -> Option<(int, int)> {
    if sx + width < 0 || sx >= screen_w {
        None
    } else {
        Some(
            (
                if sx < 0 {
                    0
                } else {
                    sx
                },
                if sx + width < screen_w - 1 {
                    sx + width
                } else {
                    screen_w - 1
                },
            ),
        )
    }
}

/// The screen `g` with the platforms of `ps` drawn, the `i`-th starting at
/// screen column `cols[i]`.
pub open spec fn with_platforms(g: Seq<Seq<char>>, ps: Seq<Platform>, cols: Seq<i32>, screen_w: int) -> Seq<
    Seq<char>,
>
    decreases ps.len(),
{
    if ps.len() == 0 {
        g
    } else {
        let rest = with_platforms(g, ps.drop_last(), cols.drop_last(), screen_w);
        match platform_span(cols.last() as int, ps.last().width as int, screen_w) {
            Some((x0, x1)) => with_platform_cells(rest, x0, x1, ps.last()),
            None => rest,
        }
    }
}

/// The two characters of the runner: on the ground it alternates every 4
/// frames between two running poses, in the air it shows the jumping pose.
pub open spec fn player_sprite(on_ground: bool, frame: u64) -> (char, char) {
    if on_ground {
        if frame % 8 < 4 {
            ('o', '/')
        } else {
            ('\\', 'o')
        }
    } else {
        ('o', '^')
    }
}

/// The screen `g` with the runner's shadow (a dot one row below) and its
/// two-character sprite drawn at column `px` of row `py`, where they fit.
pub open spec fn with_player(
    g: Seq<Seq<char>>,
    px: int,
    py: int,
    on_ground: bool,
    frame: u64,
    screen_w: int,
    screen_h: int,
) -> Seq<Seq<char>> {
    let g1 = if py + 1 < screen_h {
        put_cell(g, px, py + 1, '.')
    } else {
        g
    };
    if py < screen_h {
        let (a, b) = player_sprite(on_ground, frame);
        let g2 = put_cell(g1, px, py, a);
        if px + 1 < screen_w {
            put_cell(g2, px + 1, py, b)
        } else {
            g2
        }
    } else {
        g1
    }
}

/// The status line: distance run, speed, and whether the runner is on the
/// ground.
pub open spec fn hud_text(score: u32, speed: Seq<char>, on_ground: bool) -> Seq<char> {
    " Distance: "@ + decimal(score as nat) + "m  Speed: "@ + speed + "  "@ + if on_ground {
        "[===]"@
    } else {
        "[ ~ ]"@
    }
}

/// The screen `g` with the first row blanked over `screen_w` columns and the
/// status line written from its start.
pub open spec fn with_hud(g: Seq<Seq<char>>, screen_w: int, hud: Seq<char>) -> Seq<Seq<char>> {
    put_text(put_text(g, 0, 0, run_of(' ', screen_w)), 0, 0, hud)
}

/// The line that tells how far the run went.
pub open spec fn score_text(score: u32) -> Seq<char> {
    " You ran "@ + decimal(score as nat) + " meters! "@
}

/// Appends the characters of `s` to `out`.
fn push_str(out: &mut Vec<char>, s: &str)
    ensures
        final(out)@ == old(out)@ + s@,
{
    broadcast use vstd::string::group_string_axioms;

    for ch in it: s.chars()
        invariant
            it.seq() == s@,
            out@ == old(out)@ + s@.take(it.index()),
    {
        proof {
            assert(s@.take(it.index() + 1) =~= s@.take(it.index()).push(ch));
        }
        out.push(ch);
    }
    assert(s@.take(s@.len() as int) =~= s@);
}

/// The status line.
pub fn hud_line(score: u32, speed: &str, on_ground: bool) -> (hud: Vec<char>)
    ensures
        hud@ == hud_text(score, speed@, on_ground),
{
    let mut hud: Vec<char> = Vec::new();
    push_str(&mut hud, " Distance: ");
    push_decimal(&mut hud, score);
    push_str(&mut hud, "m  Speed: ");
    push_str(&mut hud, speed);
    push_str(&mut hud, "  ");
    if on_ground {
        push_str(&mut hud, "[===]");
    } else {
        push_str(&mut hud, "[ ~ ]");
    }
    assert(hud@ =~= hud_text(score, speed@, on_ground));
    hud
}

/// What the game loop does about a key press.
#[derive(Clone, Copy, PartialEq, Eq, Structural, Debug)]
pub enum Command {
    /// Leave the game at once.
    Quit,
    /// Make the runner jump.
    Jump,
    /// Carry on.
    Continue,
}

/// Escape or `q` quits, space or up jumps, anything else (or no key) is
/// ignored.
pub open spec fn command_of(key: Option<Key>) -> Command {
    match key {
        Some(Key::Quit) => Command::Quit,
        Some(Key::Space) | Some(Key::Up) => Command::Jump,
        _ => Command::Continue,
    }
}

/// What the game loop does about the key polled in a frame.
pub fn command_for(key: Option<Key>) -> (c: Command)
    ensures
        c == command_of(key),
{
    match key {
        Some(Key::Quit) => Command::Quit,
        Some(Key::Space) | Some(Key::Up) => Command::Jump,
        _ => Command::Continue,
    }
}

/// What of the game the library keeps: the world, the distance run, the
/// screen size, whether the runner died, the background stars and the frame
/// counter. The runner's position and the camera, which move by fractions of
/// a cell, are kept by the program around it.
pub struct Game {
    pub world: World,
    pub score: u32,
    pub screen_w: u16,
    pub screen_h: u16,
    pub dead: bool,
    pub stars: Vec<(u16, u16)>,
    pub frame_count: u64,
}

impl Game {
    /// The game's invariant: the world is well formed and made for the
    /// game's screen, which is not empty.
    pub open spec fn wf(&self) -> bool {
        &&& self.world.wf()
        &&& self.world.screen_width() == self.screen_w
        &&& self.world.screen_height() == self.screen_h
        &&& self.screen_w > 0
    }

    /// A fresh game for a screen of the given size: a new world, no distance
    /// run, alive, the stars scattered for that size, at frame 0.
    pub fn new(screen_w: u16, screen_h: u16) -> (g: Game)
        requires
            screen_w > 0,
            6 <= screen_h,
        ensures
            g.wf(),
            g.screen_w == screen_w,
            g.screen_h == screen_h,
            g.score == 0,
            !g.dead,
            g.frame_count == 0,
            g.stars@ == stars_for(screen_w as int, screen_h as int),
            g.world@.len() == 1 + crate::world::INITIAL_CHUNKS,
            g.world@[0] == (Platform {
                x: 0,
                y_quarters: crate::world::ground_quarters(screen_h as int) as u32,
                width: crate::world::GROUND_WIDTH,
            }),
            crate::world::generated_run(
                crate::world::GROUND_WIDTH as int,
                crate::world::ground_quarters(screen_h as int),
                screen_h as int,
                g.world@.drop_first(),
            ),
            exists|log: crate::random::Draws|
                #![trigger crate::world::drawn_run(
                    crate::world::GROUND_WIDTH as int,
                    crate::world::ground_quarters(screen_h as int),
                    screen_h as int,
                    g.world@.drop_first(),
                    log@,
                )]
                crate::world::drawn_run(
                    crate::world::GROUND_WIDTH as int,
                    crate::world::ground_quarters(screen_h as int),
                    screen_h as int,
                    g.world@.drop_first(),
                    log@,
                ),
    {
        let world = World::new(screen_w, screen_h);
        let stars = generate_stars(screen_w, screen_h);
        Game { world, score: 0, screen_w, screen_h, dead: false, stars, frame_count: 0 }
    }

    /// The frame the game shows, drawn over the screen `g`: the lit stars,
    /// the ground line, the platforms (the `i`-th from screen column
    /// `cols[i]`), the runner at column `px` of row `py`, and the status line
    /// with the speed text `speed`.
    pub open spec fn scene(
        &self,
        g: Seq<Seq<char>>,
        cols: Seq<i32>,
        px: int,
        py: int,
        on_ground: bool,
        speed: Seq<char>,
    ) -> Seq<Seq<char>> {
        let w = self.screen_w as int;
        let h = self.screen_h as int;
        let g1 = with_stars(g, self.stars@, self.frame_count);
        let g2 = with_ground(g1, w, h);
        let g3 = with_platforms(g2, self.world@, cols, w);
        let g4 = with_player(g3, px, py, on_ground, self.frame_count, w, h);
        with_hud(g4, w, hud_text(self.score, speed, on_ground))
    }

    /// Draws a frame from a blank screen and flushes it: returns what must
    /// be written to the terminal. `platform_cols[i]` is the screen column
    /// where the `i`-th platform starts, `player_col` and `player_row` the
    /// runner's cell, `speed` the scroll speed as text.
    pub fn render(
        &self,
        term: &mut Terminal,
        platform_cols: &[i32],
        player_col: u16,
        player_row: u16,
        on_ground: bool,
        speed: &str,
    ) -> (out: Vec<char>)
        requires
            old(term).wf(),
            self.wf(),
            platform_cols@.len() == self.world@.len(),
            forall|i: int|
                0 <= i < platform_cols@.len() ==> platform_cols@[i] + #[trigger] self.world@[i].width
                    <= i32::MAX,
            player_row < u16::MAX,
            player_row < self.screen_h ==> player_col < u16::MAX,
        ensures
            final(term).wf(),
            final(term).columns() == old(term).columns(),
            final(term).rows() == old(term).rows(),
            final(term).screen() == old(term).shown(),
            final(term).shown() == self.scene(
                blank_screen(old(term).columns(), old(term).rows()),
                platform_cols@,
                player_col as int,
                player_row as int,
                on_ground,
                speed@,
            ),
            out@ == frame_output(
                old(term).shown(),
                final(term).shown(),
                old(term).columns() as int,
                old(term).rows() as int,
            ),
    {
        let ghost shown0 = term.shown();
        let ghost cols = term.columns();
        let ghost rows = term.rows();
        term.clear();
        let ghost g0 = term.screen();
        let w = self.screen_w;
        let h = self.screen_h;

        // Background stars.
        let mut i: usize = 0;
        while i < self.stars.len()
            invariant
                i <= self.stars@.len(),
                term.wf(),
                term.columns() == cols,
                term.rows() == rows,
                term.shown() == shown0,
                term.screen() == with_stars(g0, self.stars@.take(i as int), self.frame_count),
            decreases self.stars@.len() - i,
        {
            let (sx, sy) = self.stars[i];
            let twinkle = self.frame_count.wrapping_add(sx as u64 * 7 + sy as u64 * 13) % 60;
            if twinkle < 50 {
                term.set_cell(sx, sy, '.');
            }
            proof {
                let next = self.stars@.take(i + 1);
                assert(next.drop_last() =~= self.stars@.take(i as int));
                assert(next.last() == (sx, sy));
            }
            i = i + 1;
        }
        assert(self.stars@.take(self.stars@.len() as int) =~= self.stars@);
        let ghost g1 = term.screen();

        // Ground line.
        let mut x: u16 = 0;
        while x < w
            invariant
                x <= w,
                h == self.screen_h,
                h > 0,
                term.wf(),
                term.columns() == cols,
                term.rows() == rows,
                term.shown() == shown0,
                term.screen() == put_text(g1, 0, h - 1, run_of('.', x as int)),
            decreases w - x,
        {
            term.set_cell(x, h - 1, '.');
            proof {
                assert(run_of('.', x + 1).drop_last() =~= run_of('.', x as int));
            }
            x = x + 1;
        }
        let ghost g2 = term.screen();

        // Platforms.
        let n = self.world.platforms.len();
        let mut k: usize = 0;
        while k < n
            invariant
                k <= n,
                n == self.world@.len(),
                platform_cols@.len() == n,
                forall|i: int|
                    0 <= i < platform_cols@.len() ==> platform_cols@[i]
                        + #[trigger] self.world@[i].width <= i32::MAX,
                w == self.screen_w,
                w > 0,
                term.wf(),
                term.columns() == cols,
                term.rows() == rows,
                term.shown() == shown0,
                term.screen() == with_platforms(
                    g2,
                    self.world@.take(k as int),
                    platform_cols@.take(k as int),
                    w as int,
                ),
            decreases n - k,
        {
            let p = self.world.platforms[k];
            let sx = platform_cols[k];
            assert(sx + p.width <= i32::MAX);
            proof {
                assert(self.world@.take(k + 1).drop_last() =~= self.world@.take(k as int));
                assert(platform_cols@.take(k + 1).drop_last() =~= platform_cols@.take(k as int));
                assert(self.world@.take(k + 1).last() == p);
                assert(platform_cols@.take(k + 1).last() == sx);
            }
            if !((sx + (p.width as i32) < 0) || (sx >= w as i32)) {
                let x0: u16 = if sx < 0 {
                    0
                } else {
                    sx as u16
                };
                let end = sx + (p.width as i32);
                let x1: u16 = if end < w as i32 - 1 {
                    end as u16
                } else {
                    (w - 1) as u16
                };
                self.draw_platform(term, x0, x1, &p);
            }
            k = k + 1;
        }
        assert(self.world@.take(n as int) =~= self.world@);
        assert(platform_cols@.take(n as int) =~= platform_cols@);

        // The runner's shadow and sprite.
        let px = player_col;
        let py = player_row;
        if py + 1 < h {
            term.set_cell(px, py + 1, '.');
        }
        if py < h {
            if on_ground {
                if self.frame_count % 8 < 4 {
                    term.set_cell(px, py, 'o');
                    if px + 1 < w {
                        term.set_cell(px + 1, py, '/');
                    }
                } else {
                    term.set_cell(px, py, '\\');
                    if px + 1 < w {
                        term.set_cell(px + 1, py, 'o');
                    }
                }
            } else {
                term.set_cell(px, py, 'o');
                if px + 1 < w {
                    term.set_cell(px + 1, py, '^');
                }
            }
        }

        // Status line.
        let hud = hud_line(self.score, speed, on_ground);
        let ghost g4 = term.screen();
        let mut i: u16 = 0;
        while i < w
            invariant
                i <= w,
                term.wf(),
                term.columns() == cols,
                term.rows() == rows,
                term.shown() == shown0,
                term.screen() == put_text(g4, 0, 0, run_of(' ', i as int)),
            decreases w - i,
        {
            term.set_cell(i, 0, ' ');
            proof {
                assert(run_of(' ', i + 1).drop_last() =~= run_of(' ', i as int));
            }
            i = i + 1;
        }
        term.set_chars(0, 0, &hud);
        term.flush()
    }

    /// The game-over screen over the screen `g`: the title centred two rows
    /// above the middle row, the distance run on the row below it, and the
    /// prompt to leave two rows further down.
    pub open spec fn death_scene(&self, g: Seq<Seq<char>>) -> Seq<Seq<char>> {
        let w = self.screen_w as int;
        let cy = self.screen_h / 2 - 2;
        let title = " GAME OVER "@;
        let line = score_text(self.score);
        let prompt = " Press any key to exit "@;
        let g1 = put_text(g, (w - title.len()) / 2, cy, title);
        let g2 = put_text(g1, (w - line.len()) / 2, cy + 1, line);
        put_text(g2, (w - prompt.len()) / 2, cy + 3, prompt)
    }

    /// Draws the game-over screen from a blank screen and flushes it:
    /// returns what must be written to the terminal.
    pub fn render_death(&self, term: &mut Terminal) -> (out: Vec<char>)
        requires
            old(term).wf(),
            self.screen_w >= 23,
            self.screen_w >= score_text(self.score).len(),
            self.screen_h >= 4,
        ensures
            final(term).wf(),
            final(term).columns() == old(term).columns(),
            final(term).rows() == old(term).rows(),
            final(term).screen() == old(term).shown(),
            final(term).shown() == self.death_scene(
                blank_screen(old(term).columns(), old(term).rows()),
            ),
            out@ == frame_output(
                old(term).shown(),
                final(term).shown(),
                old(term).columns() as int,
                old(term).rows() as int,
            ),
    {
        term.clear();
        let msg = " GAME OVER ";
        let prompt = " Press any key to exit ";
        proof {
            reveal_strlit(" GAME OVER ");
            reveal_strlit(" Press any key to exit ");
            reveal_strlit(" You ran ");
            reveal_strlit(" meters! ");
        }
        let mut score: Vec<char> = Vec::new();
        push_str(&mut score, " You ran ");
        push_decimal(&mut score, self.score);
        push_str(&mut score, " meters! ");
        assert(score@ =~= score_text(self.score));
        let msg_len: usize = 11;
        let prompt_len: usize = 23;
        assert(msg@.len() == msg_len && prompt@.len() == prompt_len);
        let cx = (self.screen_w as usize - msg_len) as u16 / 2;
        let cy = self.screen_h / 2 - 2;
        term.set_str(cx, cy, msg);
        term.set_chars((self.screen_w as usize - score.len()) as u16 / 2, cy + 1, &score);
        term.set_str((self.screen_w as usize - prompt_len) as u16 / 2, cy + 3, prompt);
        term.flush()
    }

    /// Draws a platform's surface as `=` from column `x0` to column `x1`,
    /// both included, on the platform's row.
    pub fn draw_platform(&self, term: &mut Terminal, x0: u16, x1: u16, p: &Platform)
        requires
            old(term).wf(),
        ensures
            final(term).wf(),
            final(term).columns() == old(term).columns(),
            final(term).rows() == old(term).rows(),
            final(term).shown() == old(term).shown(),
            final(term).screen() == with_platform_cells(
                old(term).screen(),
                x0 as int,
                x1 as int,
                *p,
            ),
    {
        let whole_rows = p.y_quarters / 4;
        let sy: u16 = if whole_rows > 0xffff {
            0xffff
        } else {
            whole_rows as u16
        };
        let mut x: u32 = x0 as u32;
        while x <= x1 as u32
            invariant
                x0 <= x,
                x <= x1 as u32 + 1 || x == x0,
                term.wf(),
                term.columns() == old(term).columns(),
                term.rows() == old(term).rows(),
                term.shown() == old(term).shown(),
                sy as int == platform_row(*p),
                term.screen() == put_text(old(term).screen(), x0 as int, sy as int, run_of('=', x - x0)),
            decreases x1 as u32 + 1 - x,
        {
            term.set_cell(x as u16, sy, '=');
            proof {
                let next = run_of('=', x + 1 - x0);
                assert(next.drop_last() =~= run_of('=', x - x0));
                assert((x - x0) % 65536 == x - x0);
            }
            x = x + 1;
        }
        assert(x0 > x1 ==> run_of('=', x - x0) =~= Seq::<char>::empty());
    }
}

/// The first column a platform starting at screen column `sx` shows on.
pub open spec fn first_visible(sx: int) -> int {
    if sx < 0 {
        0
    } else {
        sx
    }
}

/// The last column a platform starting at screen column `sx` and `width`
/// wide is drawn on, on a screen `screen_w` wide.
pub open spec fn last_visible(sx: int, width: int, screen_w: int) -> int {
    if sx + width < screen_w - 1 {
        sx + width
    } else {
        screen_w - 1
    }
}

/// A platform starting at screen column `sx` is drawn over column `c` of row
/// `r`: its surface lies on row `r`, part of it is on the screen, and `c`
/// lies between its first visible column and `sx + width`, cut at the last
/// column.
pub open spec fn covers(p: Platform, sx: int, screen_w: int, r: int, c: int) -> bool {
    &&& ((p.y_quarters / 4) as int) == r
    &&& sx + p.width >= 0
    &&& sx < screen_w
    &&& first_visible(sx) <= c <= last_visible(sx, p.width as int, screen_w)
}

proof fn lemma_with_stars_grid(g: Seq<Seq<char>>, stars: Seq<(u16, u16)>, frame: u64, cols: nat, rows: nat)
    requires
        is_grid(g, cols, rows),
    ensures
        is_grid(with_stars(g, stars, frame), cols, rows),
    decreases stars.len(),
{
    if stars.len() > 0 {
        lemma_with_stars_grid(g, stars.drop_last(), frame, cols, rows);
        let rest = with_stars(g, stars.drop_last(), frame);
        law_put_cell_reads_back(rest, stars.last().0 as int, stars.last().1 as int, '.', cols, rows);
    }
}

proof fn lemma_with_platforms_grid(
    g: Seq<Seq<char>>,
    ps: Seq<Platform>,
    xs: Seq<i32>,
    screen_w: int,
    cols: nat,
    rows: nat,
)
    requires
        is_grid(g, cols, rows),
        0 < screen_w <= 0xffff,
    ensures
        is_grid(with_platforms(g, ps, xs, screen_w), cols, rows),
    decreases ps.len(),
{
    if ps.len() > 0 {
        lemma_with_platforms_grid(g, ps.drop_last(), xs.drop_last(), screen_w, cols, rows);
        let rest = with_platforms(g, ps.drop_last(), xs.drop_last(), screen_w);
        match platform_span(xs.last() as int, ps.last().width as int, screen_w) {
            Some((x0, x1)) => {
                if x0 <= x1 {
                    law_put_text_places_each_char(
                        rest,
                        x0,
                        platform_row(ps.last()),
                        run_of('=', x1 - x0 + 1),
                        cols,
                        rows,
                    );
                }
            },
            None => {},
        }
    }
}

/// In the drawn platforms, a cell covered by platform `i` and by no platform
/// drawn after it holds `=`.
proof fn lemma_with_platforms_cell(
    g: Seq<Seq<char>>,
    ps: Seq<Platform>,
    xs: Seq<i32>,
    screen_w: int,
    cols: nat,
    rows: nat,
    i: int,
    r: int,
    c: int,
)
    requires
        is_grid(g, cols, rows),
        0 < screen_w <= 0xffff,
        ps.len() == xs.len(),
        0 <= i < ps.len(),
        0 <= r < rows,
        r < 0xffff,
        0 <= c < cols,
        covers(ps[i], xs[i] as int, screen_w, r, c),
        forall|j: int| i < j < ps.len() ==> !covers(ps[j], xs[j] as int, screen_w, r, c),
    ensures
        with_platforms(g, ps, xs, screen_w)[r][c] == '=',
    decreases ps.len(),
{
    let n = ps.len() as int;
    let rest_ps = ps.drop_last();
    let rest_xs = xs.drop_last();
    let rest = with_platforms(g, rest_ps, rest_xs, screen_w);
    lemma_with_platforms_grid(g, rest_ps, rest_xs, screen_w, cols, rows);
    let p = ps.last();
    let sx = xs.last() as int;
    if i == n - 1 {
        let x0 = first_visible(sx);
        let x1 = last_visible(sx, p.width as int, screen_w);
        assert(platform_span(sx, p.width as int, screen_w) == Some((x0, x1)));
        assert(platform_row(p) == r);
        law_put_text_places_each_char(rest, x0, r, run_of('=', x1 - x0 + 1), cols, rows);
        assert(run_of('=', x1 - x0 + 1)[c - x0] == '=');
        assert(x0 + (c - x0) == c);
    } else {
        assert forall|j: int| i < j < rest_ps.len() implies !covers(
            rest_ps[j],
            rest_xs[j] as int,
            screen_w,
            r,
            c,
        ) by {
            assert(rest_ps[j] == ps[j] && rest_xs[j] == xs[j]);
        }
        assert(rest_ps[i] == ps[i] && rest_xs[i] == xs[i]);
        lemma_with_platforms_cell(g, rest_ps, rest_xs, screen_w, cols, rows, i, r, c);
        assert(!covers(ps[n - 1], xs[n - 1] as int, screen_w, r, c));
        match platform_span(sx, p.width as int, screen_w) {
            Some((x0, x1)) => {
                if x0 <= x1 {
                    let row = platform_row(p);
                    law_put_text_places_each_char(rest, x0, row, run_of('=', x1 - x0 + 1), cols, rows);
                    if row == r {
                        assert(p.y_quarters / 4 == r);
                        assert(c < x0 || c > x1);
                    }
                }
            },
            None => {},
        }
    }
}

impl Game {
    /// Every platform that is on the screen is drawn: in the frame of the
    /// game, each cell of the platform's surface row, from its first visible
    /// column (column 0 for a platform that starts left of the screen) to
    /// `sx + width` cut at the last column, holds `=`, unless a platform
    /// drawn after it, the runner, or the status line on the first row is
    /// drawn over that cell.
    pub proof fn law_visible_platform_drawn(
        &self,
        g: Seq<Seq<char>>,
        cols: Seq<i32>,
        px: int,
        py: int,
        on_ground: bool,
        speed: Seq<char>,
        ncols: nat,
        nrows: nat,
        i: int,
        c: int,
    )
        requires
            is_grid(g, ncols, nrows),
            0 < self.screen_w,
            cols.len() == self.world@.len(),
            0 <= i < self.world@.len(),
            cols[i] + self.world@[i].width >= 0,
            cols[i] < self.screen_w,
            first_visible(cols[i] as int) <= c <= last_visible(
                cols[i] as int,
                self.world@[i].width as int,
                self.screen_w as int,
            ),
            c < ncols,
            1 <= ((self.world@[i].y_quarters / 4) as int) < nrows,
            ((self.world@[i].y_quarters / 4) as int) < 0xffff,
            forall|j: int|
                i < j < self.world@.len() ==> !covers(
                    self.world@[j],
                    cols[j] as int,
                    self.screen_w as int,
                    ((self.world@[i].y_quarters / 4) as int),
                    c,
                ),
            !(c == px && (((self.world@[i].y_quarters / 4) as int) == py || ((self.world@[i].y_quarters / 4) as int) == py
                + 1)),
            !(c == px + 1 && ((self.world@[i].y_quarters / 4) as int) == py),
        ensures
            self.scene(g, cols, px, py, on_ground, speed)[((self.world@[i].y_quarters / 4) as int)][c] == '=',
    {
        let r = ((self.world@[i].y_quarters / 4) as int);
        let w = self.screen_w as int;
        let h = self.screen_h as int;
        let g1 = with_stars(g, self.stars@, self.frame_count);
        lemma_with_stars_grid(g, self.stars@, self.frame_count, ncols, nrows);
        let g2 = with_ground(g1, w, h);
        law_put_text_places_each_char(g1, 0, h - 1, run_of('.', w), ncols, nrows);
        let g3 = with_platforms(g2, self.world@, cols, w);
        assert(covers(self.world@[i], cols[i] as int, w, r as int, c));
        lemma_with_platforms_cell(g2, self.world@, cols, w, ncols, nrows, i, r as int, c);
        lemma_with_platforms_grid(g2, self.world@, cols, w, ncols, nrows);
        let g4 = with_player(g3, px, py, on_ground, self.frame_count, w, h);
        assert(g4[r as int][c] == '=');
        let hud = hud_text(self.score, speed, on_ground);
        let blanked = put_text(g4, 0, 0, run_of(' ', w));
        lemma_put_text_other_rows(g4, 0, 0, run_of(' ', w), r as int);
        lemma_put_text_other_rows(blanked, 0, 0, hud, r as int);
    }
}

/// A platform's cells are drawn on the row of its surface, its height in
/// quarter rows divided by 4: each column from `x0` to `x1` of that row
/// holds `=`, and no other row changes.
pub proof fn law_platform_cells_on_surface_row(
    g: Seq<Seq<char>>,
    x0: int,
    x1: int,
    p: Platform,
    cols: nat,
    rows: nat,
    r: int,
    c: int,
)
    requires
        is_grid(g, cols, rows),
        0 <= x0,
        x1 < 0xffff,
        ((p.y_quarters / 4) as int) < rows,
        ((p.y_quarters / 4) as int) <= 0xffff,
        0 <= r < rows,
    ensures
        x0 <= c <= x1 && c < cols ==> with_platform_cells(g, x0, x1, p)[((p.y_quarters / 4) as int)][c] == '=',
        r != ((p.y_quarters / 4) as int) ==> with_platform_cells(g, x0, x1, p)[r] == g[r],
{
    if x0 <= x1 {
        assert(platform_row(p) == p.y_quarters / 4);
        law_put_text_places_each_char(g, x0, ((p.y_quarters / 4) as int), run_of('=', x1 - x0 + 1), cols, rows);
        lemma_put_text_other_rows(g, x0, ((p.y_quarters / 4) as int), run_of('=', x1 - x0 + 1), r);
        if x0 <= c <= x1 && c < cols {
            assert(run_of('=', x1 - x0 + 1)[c - x0] == '=');
            assert(x0 + (c - x0) == c);
        }
    }
}

} // verus!
