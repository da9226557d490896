use vstd::prelude::*;

verus! {

/// A key press that the game reacts to.
#[derive(Clone, Copy, PartialEq, Eq, Structural, Debug)]
pub enum Key {
    Space,
    Up,
    Quit,
    Unknown,
}

/// The key that one chunk of raw terminal input stands for: a lone escape
/// or `q` quits, a space or the up arrow (also `w` and `k`) jumps.
pub open spec fn key_of_input(input: Seq<u8>) -> Key {
    if input == seq![0x1bu8] {
        Key::Quit
    } else if input == seq![0x20u8] {
        Key::Space
    } else if input == seq![0x1bu8, 0x5bu8, 0x41u8] || input == seq![0x77u8] || input
        == seq![0x6bu8] {
        Key::Up
    } else if input == seq![0x71u8] {
        Key::Quit
    } else {
        Key::Unknown
    }
}

/// What a poll of the keyboard yields, from the result of `poll` on standard
/// input (`ready`), the result of the `read` that follows it (`count`), and
/// the bytes that were read into `buf`.
pub open spec fn polled_key(ready: int, count: int, buf: Seq<u8>) -> Option<Key> {
    if ready <= 0 || count <= 0 {
        None
    } else {
        Some(key_of_input(buf.take(count)))
    }
}

/// The screen size that a window-size query yields: the reported size when
/// the query succeeded with a non-empty window, 80 by 24 otherwise.
pub open spec fn reported_size(query_result: int, columns: u16, rows: u16) -> (u16, u16) {
    if query_result == 0 && columns > 0 && rows > 0 {
        (columns, rows)
    } else {
        (80u16, 24u16)
    }
}

/// Decodes the first `len` bytes of `input` into a key.
pub fn decode_key(input: &[u8], len: usize) -> (key: Key)
    requires
        len <= input@.len(),
    ensures
        key == key_of_input(input@.take(len as int)),
{
    let ghost taken = input@.take(len as int);
    if len == 1 {
        let b = input[0];
        assert(taken =~= seq![b]);
        assert(taken[0] == b && taken.len() == 1);
        assert(seq![0x1bu8][0] == 0x1b && seq![0x20u8][0] == 0x20 && seq![0x77u8][0] == 0x77);
        assert(seq![0x6bu8][0] == 0x6b && seq![0x71u8][0] == 0x71);
        assert(seq![0x1bu8, 0x5bu8, 0x41u8].len() == 3);
        if b == 0x1b {
            Key::Quit
        } else if b == 0x20 {
            Key::Space
        } else if b == 0x77 || b == 0x6b {
            Key::Up
        } else if b == 0x71 {
            Key::Quit
        } else {
            Key::Unknown
        }
    } else if len == 3 && input[0] == 0x1b && input[1] == 0x5b && input[2] == 0x41 {
        assert(taken =~= seq![0x1bu8, 0x5bu8, 0x41u8]);
        Key::Up
    } else {
        assert(taken.len() == len);
        assert(seq![0x1bu8].len() == 1 && seq![0x20u8].len() == 1 && seq![0x77u8].len() == 1);
        assert(seq![0x6bu8].len() == 1 && seq![0x71u8].len() == 1);
        assert(taken != seq![0x1bu8, 0x5bu8, 0x41u8]) by {
            if taken == seq![0x1bu8, 0x5bu8, 0x41u8] {
                assert(taken.len() == 3);
                assert(taken[0] == input@[0] && taken[1] == input@[1] && taken[2] == input@[2]);
            }
        }
        Key::Unknown
    }
}

/// Which input gives which key: the up arrow (escape, `[`, `A`), `w` and
/// `k` are the only inputs that give `Up`; a lone space is the only one that
/// gives `Space`; a lone escape and `q` are the only ones that quit. The
/// other arrow keys, and every other input, are unknown.
pub proof fn law_key_decoding(input: Seq<u8>)
    ensures
        key_of_input(input) == Key::Up <==> (input =~= seq![0x1bu8, 0x5bu8, 0x41u8] || input
            =~= seq![0x77u8] || input =~= seq![0x6bu8]),
        key_of_input(input) == Key::Space <==> input =~= seq![0x20u8],
        key_of_input(input) == Key::Quit <==> (input =~= seq![0x1bu8] || input =~= seq![0x71u8]),
        input.len() == 3 && input[0] == 0x1b && input[1] == 0x5b && input[2] != 0x41
            ==> key_of_input(input) == Key::Unknown,
        input.len() != 1 && input.len() != 3 ==> key_of_input(input) == Key::Unknown,
{
    let up = seq![0x1bu8, 0x5bu8, 0x41u8];
    assert(up.len() == 3 && up[0] == 0x1b && up[1] == 0x5b && up[2] == 0x41);
    assert(seq![0x1bu8].len() == 1 && seq![0x1bu8][0] == 0x1b);
    assert(seq![0x20u8].len() == 1 && seq![0x20u8][0] == 0x20);
    assert(seq![0x77u8].len() == 1 && seq![0x77u8][0] == 0x77);
    assert(seq![0x6bu8].len() == 1 && seq![0x6bu8][0] == 0x6b);
    assert(seq![0x71u8].len() == 1 && seq![0x71u8][0] == 0x71);
    if input.len() == 3 && input[0] == 0x1b && input[1] == 0x5b && input[2] == 0x41 {
        assert(input =~= up);
    }
    if input.len() == 1 {
        if input[0] == 0x1b {
            assert(input =~= seq![0x1bu8]);
        }
        if input[0] == 0x20 {
            assert(input =~= seq![0x20u8]);
        }
        if input[0] == 0x77 {
            assert(input =~= seq![0x77u8]);
        }
        if input[0] == 0x6b {
            assert(input =~= seq![0x6bu8]);
        }
        if input[0] == 0x71 {
            assert(input =~= seq![0x71u8]);
        }
    }
}

/// The character of a decimal digit.
pub open spec fn digit_char(d: nat) -> char {
    seq!['0', '1', '2', '3', '4', '5', '6', '7', '8', '9'][d as int]
}

/// The decimal numeral of `n`, most significant digit first, without
/// leading zeros.
pub open spec fn decimal(n: nat) -> Seq<char>
    decreases n,
{
    if n < 10 {
        seq![digit_char(n)]
    } else {
        decimal(n / 10).push(digit_char(n % 10))
    }
}

/// The character of the decimal digit `d`.
fn digit(d: u32) -> (c: char)
    requires
        d < 10,
    ensures
        c == digit_char(d as nat),
{
    match d {
        0 => '0',
        1 => '1',
        2 => '2',
        3 => '3',
        4 => '4',
        5 => '5',
        6 => '6',
        7 => '7',
        8 => '8',
        _ => '9',
    }
}

/// Appends the decimal numeral of `n` to `out`.
pub fn push_decimal(out: &mut Vec<char>, n: u32)
    ensures
        final(out)@ == old(out)@ + decimal(n as nat),
    decreases n,
{
    if n >= 10 {
        push_decimal(out, n / 10);
    }
    out.push(digit(n % 10));
    proof {
        if n >= 10 {
            assert(decimal(n as nat) == decimal((n / 10) as nat).push(digit_char((n % 10) as nat)));
        } else {
            assert(decimal(n as nat) == seq![digit_char(n as nat)]);
        }
    }
}

/// `g` is a screen of `rows` rows of `cols` cells each.
pub open spec fn is_grid(g: Seq<Seq<char>>, cols: nat, rows: nat) -> bool {
    &&& g.len() == rows
    &&& forall|r: int| 0 <= r < rows ==> #[trigger] g[r].len() == cols
}

/// A screen of `rows` rows of `cols` blank cells.
pub open spec fn blank_screen(cols: nat, rows: nat) -> Seq<Seq<char>> {
    Seq::new(rows, |r: int| Seq::new(cols, |c: int| ' '))
}

/// The screen `g` after `ch` is written at column `x` of row `y`; a write
/// that falls outside the screen changes nothing.
pub open spec fn put_cell(g: Seq<Seq<char>>, x: int, y: int, ch: char) -> Seq<Seq<char>> {
    if 0 <= y < g.len() && 0 <= x < g[y].len() {
        g.update(y, g[y].update(x, ch))
    } else {
        g
    }
}

/// The screen `g` after `text` is written from column `x` of row `y` on,
/// one character per cell; the offset of the `i`-th character is taken as a
/// 16-bit number, so it is `i % 65536`.
pub open spec fn put_text(g: Seq<Seq<char>>, x: int, y: int, text: Seq<char>) -> Seq<Seq<char>>
    decreases text.len(),
{
    if text.len() == 0 {
        g
    } else {
        put_cell(
            put_text(g, x, y, text.drop_last()),
            x + (text.len() - 1) % 65536,
            y,
            text.last(),
        )
    }
}

/// Every character of a text of `len` characters written from column `x`
/// gets a column that is a 16-bit number: `x + i % 65536` stays below
/// 65536 for each index `i`.
pub open spec fn text_fits(x: int, len: int) -> bool {
    len == 0 || x == 0 || x + len <= 65536
}

/// The escape sequence that moves the cursor to row `row` and column `col`
/// (both counted from 0) and prints `ch` there.
pub open spec fn cell_update(row: int, col: int, ch: char) -> Seq<char> {
    seq!['\x1b', '['] + decimal((row + 1) as nat) + seq![';'] + decimal((col + 1) as nat) + seq![
        'H',
        ch,
    ]
}

/// The updates for the first `n` cells of row `row`, going from the shown
/// row `prev` to the drawn row `cur`: one per cell that differs.
pub open spec fn row_changes(prev: Seq<char>, cur: Seq<char>, row: int, n: int) -> Seq<char>
    decreases n,
{
    if n <= 0 {
        seq![]
    } else {
        row_changes(prev, cur, row, n - 1) + if cur[n - 1] != prev[n - 1] {
            cell_update(row, n - 1, cur[n - 1])
        } else {
            seq![]
        }
    }
}

/// The updates for the first `n` rows, each `cols` cells wide, row by row.
pub open spec fn screen_changes(prev: Seq<Seq<char>>, cur: Seq<Seq<char>>, cols: int, n: int) -> Seq<
    char,
>
    decreases n,
{
    if n <= 0 {
        seq![]
    } else {
        screen_changes(prev, cur, cols, n - 1) + row_changes(prev[n - 1], cur[n - 1], n - 1, cols)
    }
}

/// The escape sequence that hides the cursor.
pub open spec fn hide_cursor() -> Seq<char> {
    seq!['\x1b', '[', '?', '2', '5', 'l']
}

/// All that a flush sends to the terminal: the updates of every cell that
/// differs between the shown screen and the drawn one, then the sequence
/// that hides the cursor.
pub open spec fn frame_output(prev: Seq<Seq<char>>, cur: Seq<Seq<char>>, cols: int, rows: int) -> Seq<
    char,
> {
    screen_changes(prev, cur, cols, rows) + hide_cursor()
}

/// The cells, as (row, column, character), that change in the first `n`
/// cells of row `row` from `prev` to `cur`, left to right.
pub open spec fn row_change_cells(prev: Seq<char>, cur: Seq<char>, row: int, n: int) -> Seq<
    (int, int, char),
>
    decreases n,
{
    if n <= 0 {
        seq![]
    } else {
        row_change_cells(prev, cur, row, n - 1) + if cur[n - 1] != prev[n - 1] {
            seq![(row, n - 1, cur[n - 1])]
        } else {
            seq![]
        }
    }
}

/// The cells that change in the first `n` rows, each `cols` cells wide, row
/// by row.
pub open spec fn screen_change_cells(prev: Seq<Seq<char>>, cur: Seq<Seq<char>>, cols: int, n: int) -> Seq<
    (int, int, char),
>
    decreases n,
{
    if n <= 0 {
        seq![]
    } else {
        screen_change_cells(prev, cur, cols, n - 1) + row_change_cells(
            prev[n - 1],
            cur[n - 1],
            n - 1,
            cols,
        )
    }
}

/// The escape sequences that perform the cell updates `us`, in order.
pub open spec fn encode_updates(us: Seq<(int, int, char)>) -> Seq<char>
    decreases us.len(),
{
    if us.len() == 0 {
        seq![]
    } else {
        encode_updates(us.drop_last()) + cell_update(us.last().0, us.last().1, us.last().2)
    }
}

/// The screen `g` after the cell updates `us`, in order.
pub open spec fn apply_updates(g: Seq<Seq<char>>, us: Seq<(int, int, char)>) -> Seq<Seq<char>>
    decreases us.len(),
{
    if us.len() == 0 {
        g
    } else {
        put_cell(apply_updates(g, us.drop_last()), us.last().1, us.last().0, us.last().2)
    }
}

proof fn lemma_encode_concat(a: Seq<(int, int, char)>, b: Seq<(int, int, char)>)
    ensures
        encode_updates(a + b) == encode_updates(a) + encode_updates(b),
    decreases b.len(),
{
    if b.len() == 0 {
        assert(a + b =~= a);
        assert(encode_updates(a) + encode_updates(b) =~= encode_updates(a));
    } else {
        assert((a + b).drop_last() =~= a + b.drop_last());
        assert((a + b).last() == b.last());
        lemma_encode_concat(a, b.drop_last());
        assert(encode_updates(a + b) =~= encode_updates(a) + encode_updates(b));
    }
}

proof fn lemma_apply_concat(g: Seq<Seq<char>>, a: Seq<(int, int, char)>, b: Seq<(int, int, char)>)
    ensures
        apply_updates(g, a + b) == apply_updates(apply_updates(g, a), b),
    decreases b.len(),
{
    if b.len() == 0 {
        assert(a + b =~= a);
    } else {
        assert((a + b).drop_last() =~= a + b.drop_last());
        assert((a + b).last() == b.last());
        lemma_apply_concat(g, a, b.drop_last());
    }
}

proof fn lemma_row_encode(prev: Seq<char>, cur: Seq<char>, row: int, n: int)
    ensures
        row_changes(prev, cur, row, n) == encode_updates(row_change_cells(prev, cur, row, n)),
    decreases n,
{
    if n > 0 {
        lemma_row_encode(prev, cur, row, n - 1);
        let rest = row_change_cells(prev, cur, row, n - 1);
        let extra: Seq<(int, int, char)> = if cur[n - 1] != prev[n - 1] {
            seq![(row, n - 1, cur[n - 1])]
        } else {
            seq![]
        };
        lemma_encode_concat(rest, extra);
        if cur[n - 1] != prev[n - 1] {
            assert(extra.drop_last() =~= Seq::<(int, int, char)>::empty());
            assert(extra.last() == (row, n - 1, cur[n - 1]));
            assert(encode_updates(extra.drop_last()) =~= Seq::<char>::empty());
            assert(encode_updates(extra) =~= cell_update(row, n - 1, cur[n - 1]));
        } else {
            assert(encode_updates(extra) =~= Seq::<char>::empty());
        }
    }
}

proof fn lemma_screen_encode(prev: Seq<Seq<char>>, cur: Seq<Seq<char>>, cols: int, n: int)
    ensures
        screen_changes(prev, cur, cols, n) == encode_updates(screen_change_cells(prev, cur, cols, n)),
    decreases n,
{
    if n > 0 {
        lemma_screen_encode(prev, cur, cols, n - 1);
        lemma_row_encode(prev[n - 1], cur[n - 1], n - 1, cols);
        lemma_encode_concat(
            screen_change_cells(prev, cur, cols, n - 1),
            row_change_cells(prev[n - 1], cur[n - 1], n - 1, cols),
        );
    }
}

proof fn lemma_row_apply(g: Seq<Seq<char>>, prev: Seq<char>, cur: Seq<char>, row: int, m: int)
    requires
        0 <= row < g.len(),
        g[row] == prev,
        cur.len() == prev.len(),
        0 <= m <= prev.len(),
    ensures
        apply_updates(g, row_change_cells(prev, cur, row, m)) == g.update(
            row,
            cur.take(m) + prev.skip(m),
        ),
    decreases m,
{
    if m == 0 {
        assert(cur.take(0) + prev.skip(0) =~= prev);
        assert(g.update(row, prev) =~= g);
    } else {
        lemma_row_apply(g, prev, cur, row, m - 1);
        let rest = row_change_cells(prev, cur, row, m - 1);
        let extra: Seq<(int, int, char)> = if cur[m - 1] != prev[m - 1] {
            seq![(row, m - 1, cur[m - 1])]
        } else {
            seq![]
        };
        lemma_apply_concat(g, rest, extra);
        let mid = g.update(row, cur.take(m - 1) + prev.skip(m - 1));
        if cur[m - 1] != prev[m - 1] {
            assert(extra.drop_last() =~= Seq::<(int, int, char)>::empty());
            assert(extra.last() == (row, m - 1, cur[m - 1]));
            assert(apply_updates(mid, extra.drop_last()) == mid);
            assert(apply_updates(mid, extra) == put_cell(mid, m - 1, row, cur[m - 1]));
            assert((cur.take(m - 1) + prev.skip(m - 1)).update(m - 1, cur[m - 1]) =~= cur.take(m)
                + prev.skip(m));
            assert(mid.update(row, (cur.take(m - 1) + prev.skip(m - 1)).update(m - 1, cur[m - 1]))
                =~= g.update(row, cur.take(m) + prev.skip(m)));
        } else {
            assert(cur.take(m - 1) + prev.skip(m - 1) =~= cur.take(m) + prev.skip(m));
        }
    }
}

proof fn lemma_screen_apply(prev: Seq<Seq<char>>, cur: Seq<Seq<char>>, cols: nat, rows: nat, n: int)
    requires
        is_grid(prev, cols, rows),
        is_grid(cur, cols, rows),
        0 <= n <= rows,
    ensures
        apply_updates(prev, screen_change_cells(prev, cur, cols as int, n)) == cur.take(n)
            + prev.skip(n),
    decreases n,
{
    if n == 0 {
        assert(cur.take(0) + prev.skip(0) =~= prev);
    } else {
        lemma_screen_apply(prev, cur, cols, rows, n - 1);
        let g = cur.take(n - 1) + prev.skip(n - 1);
        lemma_apply_concat(
            prev,
            screen_change_cells(prev, cur, cols as int, n - 1),
            row_change_cells(prev[n - 1], cur[n - 1], n - 1, cols as int),
        );
        assert(g[n - 1] == prev[n - 1]);
        assert(prev[n - 1].len() == cols && cur[n - 1].len() == cols);
        lemma_row_apply(g, prev[n - 1], cur[n - 1], n - 1, cols as int);
        assert(cur[n - 1].take(cols as int) + prev[n - 1].skip(cols as int) =~= cur[n - 1]);
        assert(g.update(n - 1, cur[n - 1]) =~= cur.take(n) + prev.skip(n));
    }
}

/// What a flush sends is, besides the final cursor-hiding sequence, the
/// encoding of a list of cell updates; each of them names a cell whose
/// character differs between the two frames, and performing them all on the
/// shown frame yields the drawn frame.
pub proof fn law_flush_repaints(prev: Seq<Seq<char>>, cur: Seq<Seq<char>>, cols: nat, rows: nat)
    requires
        is_grid(prev, cols, rows),
        is_grid(cur, cols, rows),
    ensures
        frame_output(prev, cur, cols as int, rows as int) == encode_updates(
            screen_change_cells(prev, cur, cols as int, rows as int),
        ) + hide_cursor(),
        apply_updates(prev, screen_change_cells(prev, cur, cols as int, rows as int)) == cur,
        forall|i: int|
            0 <= i < screen_change_cells(prev, cur, cols as int, rows as int).len() ==> {
                let (r, c, ch) = #[trigger] screen_change_cells(
                    prev,
                    cur,
                    cols as int,
                    rows as int,
                )[i];
                &&& 0 <= r < rows
                &&& 0 <= c < cols
                &&& cur[r][c] == ch
                &&& prev[r][c] != ch
            },
{
    lemma_screen_encode(prev, cur, cols as int, rows as int);
    lemma_screen_apply(prev, cur, cols, rows, rows as int);
    assert(cur.take(rows as int) + prev.skip(rows as int) =~= cur);
    lemma_screen_cells_differ(prev, cur, cols, rows, rows as int);
}

proof fn lemma_row_cells_differ(prev: Seq<char>, cur: Seq<char>, row: int, m: int)
    requires
        0 <= m <= prev.len(),
        m <= cur.len(),
    ensures
        forall|i: int|
            0 <= i < row_change_cells(prev, cur, row, m).len() ==> {
                let (r, c, ch) = #[trigger] row_change_cells(prev, cur, row, m)[i];
                &&& r == row
                &&& 0 <= c < m
                &&& cur[c] == ch
                &&& prev[c] != ch
            },
    decreases m,
{
    if m > 0 {
        lemma_row_cells_differ(prev, cur, row, m - 1);
        let a = row_change_cells(prev, cur, row, m - 1);
        let b: Seq<(int, int, char)> = if cur[m - 1] != prev[m - 1] {
            seq![(row, m - 1, cur[m - 1])]
        } else {
            seq![]
        };
        assert(row_change_cells(prev, cur, row, m) == a + b);
        assert forall|i: int| 0 <= i < (a + b).len() implies {
            let (r, c, ch) = #[trigger] (a + b)[i];
            &&& r == row
            &&& 0 <= c < m
            &&& cur[c] == ch
            &&& prev[c] != ch
        } by {
            if i < a.len() {
                assert((a + b)[i] == a[i]);
            } else {
                assert((a + b)[i] == b[i - a.len()]);
            }
        }
    }
}

proof fn lemma_screen_cells_differ(
    prev: Seq<Seq<char>>,
    cur: Seq<Seq<char>>,
    cols: nat,
    rows: nat,
    n: int,
)
    requires
        is_grid(prev, cols, rows),
        is_grid(cur, cols, rows),
        0 <= n <= rows,
    ensures
        forall|i: int|
            0 <= i < screen_change_cells(prev, cur, cols as int, n).len() ==> {
                let (r, c, ch) = #[trigger] screen_change_cells(prev, cur, cols as int, n)[i];
                &&& 0 <= r < n
                &&& 0 <= c < cols
                &&& cur[r][c] == ch
                &&& prev[r][c] != ch
            },
    decreases n,
{
    if n > 0 {
        lemma_screen_cells_differ(prev, cur, cols, rows, n - 1);
        assert(prev[n - 1].len() == cols && cur[n - 1].len() == cols);
        lemma_row_cells_differ(prev[n - 1], cur[n - 1], n - 1, cols as int);
        let a = screen_change_cells(prev, cur, cols as int, n - 1);
        let b = row_change_cells(prev[n - 1], cur[n - 1], n - 1, cols as int);
        assert forall|i: int| 0 <= i < (a + b).len() implies {
            let (r, c, ch) = #[trigger] (a + b)[i];
            &&& 0 <= r < n
            &&& 0 <= c < cols
            &&& cur[r][c] == ch
            &&& prev[r][c] != ch
        } by {
            if i < a.len() {
                assert((a + b)[i] == a[i]);
            } else {
                assert((a + b)[i] == b[i - a.len()]);
            }
        }
    }
}

/// Flushing a frame that is what the terminal already shows sends nothing
/// but the sequence that hides the cursor.
pub proof fn law_unchanged_frame_sends_nothing(g: Seq<Seq<char>>, cols: nat, rows: nat)
    requires
        is_grid(g, cols, rows),
    ensures
        frame_output(g, g, cols as int, rows as int) == hide_cursor(),
{
    lemma_no_changes(g, cols as int, rows as int);
    assert(Seq::<char>::empty() + hide_cursor() =~= hide_cursor());
}

proof fn lemma_no_row_changes(r: Seq<char>, row: int, n: int)
    ensures
        row_changes(r, r, row, n) == Seq::<char>::empty(),
    decreases n,
{
    if n > 0 {
        lemma_no_row_changes(r, row, n - 1);
        assert(row_changes(r, r, row, n) =~= Seq::<char>::empty());
    }
}

proof fn lemma_no_changes(g: Seq<Seq<char>>, cols: int, n: int)
    ensures
        screen_changes(g, g, cols, n) == Seq::<char>::empty(),
    decreases n,
{
    if n > 0 {
        lemma_no_changes(g, cols, n - 1);
        lemma_no_row_changes(g[n - 1], n - 1, cols);
        assert(screen_changes(g, g, cols, n) =~= Seq::<char>::empty());
    }
}

/// Writing a cell inside the screen makes it hold the character written and
/// leaves every other cell as it was; a write outside the screen changes
/// nothing.
pub proof fn law_put_cell_reads_back(g: Seq<Seq<char>>, x: int, y: int, ch: char, cols: nat, rows: nat)
    requires
        is_grid(g, cols, rows),
    ensures
        is_grid(put_cell(g, x, y, ch), cols, rows),
        0 <= x < cols && 0 <= y < rows ==> put_cell(g, x, y, ch)[y][x] == ch,
        forall|r: int, c: int|
            0 <= r < rows && 0 <= c < cols && (r != y || c != x) ==> #[trigger] put_cell(
                g,
                x,
                y,
                ch,
            )[r][c] == g[r][c],
{
}

/// Writing a text that needs no column past 65535 puts its `i`-th
/// character at column `x + i` of row `y` where that cell is on the screen,
/// and leaves every cell outside the columns `x .. x + text.len()` of row `y`
/// as it was.
pub proof fn law_put_text_places_each_char(
    g: Seq<Seq<char>>,
    x: int,
    y: int,
    text: Seq<char>,
    cols: nat,
    rows: nat,
)
    requires
        is_grid(g, cols, rows),
        0 <= x,
        x + text.len() <= 65536,
    ensures
        is_grid(put_text(g, x, y, text), cols, rows),
        forall|i: int|
            0 <= i < text.len() && x + i < cols && 0 <= y < rows ==> #[trigger] put_text(
                g,
                x,
                y,
                text,
            )[y][x + i] == text[i],
        forall|r: int, c: int|
            0 <= r < rows && 0 <= c < cols && (r != y || c < x || c >= x + text.len())
                ==> #[trigger] put_text(g, x, y, text)[r][c] == g[r][c],
    decreases text.len(),
{
    if text.len() > 0 {
        let rest = text.drop_last();
        law_put_text_places_each_char(g, x, y, rest, cols, rows);
        let n = text.len() - 1;
        assert(n % 65536 == n);
        let before = put_text(g, x, y, rest);
        assert(put_text(g, x, y, text) == put_cell(before, x + n, y, text.last()));
        law_put_cell_reads_back(before, x + n, y, text.last(), cols, rows);
        assert forall|i: int|
            0 <= i < text.len() && x + i < cols && 0 <= y < rows implies #[trigger] put_text(
                g,
                x,
                y,
                text,
            )[y][x + i] == text[i] by {
            if i < n {
                assert(rest[i] == text[i]);
            }
        }
    }
}

/// Writing a text into row `y` leaves every other row as it was, and the
/// number of rows too.
pub proof fn lemma_put_text_other_rows(g: Seq<Seq<char>>, x: int, y: int, text: Seq<char>, r: int)
    ensures
        put_text(g, x, y, text).len() == g.len(),
        0 <= r < g.len() && r != y ==> put_text(g, x, y, text)[r] == g[r],
    decreases text.len(),
{
    if text.len() > 0 {
        lemma_put_text_other_rows(g, x, y, text.drop_last(), r);
    }
}

/// A double-buffered character screen: the frame being drawn, and the frame
/// the terminal shows.
pub struct Terminal {
    width: u16,
    height: u16,
    prev_buffer: Vec<Vec<char>>,
    current_buffer: Vec<Vec<char>>,
}

/// The rows of a buffer as sequences.
pub open spec fn rows_of(b: Seq<Vec<char>>) -> Seq<Seq<char>> {
    Seq::new(b.len(), |i: int| b[i]@)
}

/// A buffer of `rows` rows of `cols` blank cells.
fn blank_buffer(cols: u16, rows: u16) -> (b: Vec<Vec<char>>)
    ensures
        rows_of(b@) == blank_screen(cols as nat, rows as nat),
{
    let mut b: Vec<Vec<char>> = Vec::new();
    let mut y: u16 = 0;
    while y < rows
        invariant
            y <= rows,
            b@.len() == y,
            rows_of(b@) == blank_screen(cols as nat, y as nat),
        decreases rows - y,
    {
        let mut row: Vec<char> = Vec::new();
        let mut x: u16 = 0;
        while x < cols
            invariant
                x <= cols,
                row@ == Seq::new(x as nat, |c: int| ' '),
            decreases cols - x,
        {
            row.push(' ');
            x = x + 1;
            assert(row@ =~= Seq::new(x as nat, |c: int| ' '));
        }
        let ghost before = b@;
        b.push(row);
        y = y + 1;
        assert(rows_of(b@) =~= blank_screen(cols as nat, y as nat)) by {
            assert(rows_of(before) == blank_screen(cols as nat, (y - 1) as nat));
            assert forall|r: int| 0 <= r < y implies #[trigger] rows_of(b@)[r] == blank_screen(
                cols as nat,
                y as nat,
            )[r] by {
                if r < y - 1 {
                    assert(b@[r] == before[r]);
                    assert(rows_of(b@)[r] == rows_of(before)[r]);
                } else {
                    assert(rows_of(b@)[r] =~= Seq::new(cols as nat, |c: int| ' '));
                }
            }
        }
    }
    b
}

impl Terminal {
    /// The number of columns.
    pub closed spec fn columns(&self) -> nat {
        self.width as nat
    }

    /// The number of rows.
    pub closed spec fn rows(&self) -> nat {
        self.height as nat
    }

    /// The frame being drawn.
    pub closed spec fn screen(&self) -> Seq<Seq<char>> {
        rows_of(self.current_buffer@)
    }

    /// The frame that the terminal shows.
    pub closed spec fn shown(&self) -> Seq<Seq<char>> {
        rows_of(self.prev_buffer@)
    }

    /// Both buffers hold `rows` rows of `columns` cells.
    pub closed spec fn wf(&self) -> bool {
        &&& is_grid(self.screen(), self.columns(), self.rows())
        &&& is_grid(self.shown(), self.columns(), self.rows())
    }

    /// A well-formed screen's two frames are both `rows()` rows of
    /// `columns()` cells.
    pub proof fn lemma_frames_are_grids(&self)
        requires
            self.wf(),
        ensures
            is_grid(self.screen(), self.columns(), self.rows()),
            is_grid(self.shown(), self.columns(), self.rows()),
    {
    }

    /// A screen for a window of the given size, at least 40 columns by 10
    /// rows, with both frames blank.
    pub fn init(columns: u16, rows: u16) -> (t: Terminal)
        ensures
            t.wf(),
            t.columns() == if columns < 40 { 40 } else { columns },
            t.rows() == if rows < 10 { 10 } else { rows },
            t.screen() == blank_screen(t.columns(), t.rows()),
            t.shown() == blank_screen(t.columns(), t.rows()),
    {
        let w = if columns < 40 { 40 } else { columns };
        let h = if rows < 10 { 10 } else { rows };
        let t = Terminal {
            width: w,
            height: h,
            prev_buffer: blank_buffer(w, h),
            current_buffer: blank_buffer(w, h),
        };
        assert(is_grid(blank_screen(w as nat, h as nat), w as nat, h as nat));
        t
    }

    /// The key of one keyboard poll: `None` when `poll` reported no pending
    /// input or the `read` that followed returned nothing, else the key that the
    /// bytes read stand for.
    pub fn poll_key(ready: i32, count: isize, buf: &[u8]) -> (key: Option<Key>)
        requires
            ready > 0 && count > 0 ==> count <= buf@.len(),
        ensures
            key == polled_key(ready as int, count as int, buf@),
    {
        if ready <= 0 {
            return None;
        }
        if count <= 0 {
            return None;
        }
        Some(decode_key(buf, count as usize))
    }

    /// The size of the window from the result of the window-size query and the
    /// columns and rows it reported.
    pub fn terminal_size(query_result: i32, columns: u16, rows: u16) -> (size: (u16, u16))
        ensures
            size == reported_size(query_result as int, columns, rows),
    {
        if query_result == 0 && columns > 0 && rows > 0 {
            (columns, rows)
        } else {
            (80, 24)
        }
    }

    /// The number of columns.
    pub fn width(&self) -> (w: u16)
        ensures
            w == self.columns(),
    {
        self.width
    }

    /// The number of rows.
    pub fn height(&self) -> (h: u16)
        ensures
            h == self.rows(),
    {
        self.height
    }

    /// Writes `ch` at column `x` of row `y` of the frame being drawn; a
    /// write outside the screen is ignored.
    pub fn set_cell(&mut self, x: u16, y: u16, ch: char)
        requires
            old(self).wf(),
        ensures
            final(self).wf(),
            final(self).columns() == old(self).columns(),
            final(self).rows() == old(self).rows(),
            final(self).screen() == put_cell(old(self).screen(), x as int, y as int, ch),
            final(self).shown() == old(self).shown(),
    {
        let x = x as usize;
        let y = y as usize;
        if x < self.width as usize && y < self.height as usize {
            let ghost before = self.current_buffer@;
            assert(self.screen()[y as int].len() == self.columns());
            assert(before[y as int]@.len() == self.columns());
            self.current_buffer[y][x] = ch;
            proof {
                let after = self.current_buffer@;
                assert(after.len() == before.len());
                assert(self.screen() =~= put_cell(rows_of(before), x as int, y as int, ch)) by {
                    assert forall|r: int| 0 <= r < after.len() implies #[trigger] self.screen()[r]
                        == put_cell(rows_of(before), x as int, y as int, ch)[r] by {
                        if r == y {
                            assert(after[r]@ =~= before[r]@.update(x as int, ch));
                        } else {
                            assert(after[r] == before[r]);
                        }
                    }
                }
                assert(is_grid(self.screen(), self.columns(), self.rows())) by {
                    assert forall|r: int| 0 <= r < self.rows() implies #[trigger] self.screen()[r].len()
                        == self.columns() by {
                        if r != y {
                            assert(after[r] == before[r]);
                        }
                    }
                }
            }
        }
    }

    /// Writes the characters of `s` into row `y`, the first at column `x`
    /// and each next one column further right; characters that fall outside
    /// the screen are dropped.
    pub fn set_str(&mut self, x: u16, y: u16, s: &str)
        requires
            old(self).wf(),
            text_fits(x as int, s@.len() as int),
        ensures
            final(self).wf(),
            final(self).columns() == old(self).columns(),
            final(self).rows() == old(self).rows(),
            final(self).screen() == put_text(old(self).screen(), x as int, y as int, s@),
            final(self).shown() == old(self).shown(),
    {
        broadcast use vstd::string::group_string_axioms;

        let ghost text = s@;
        let mut offset: u16 = 0;
        for ch in it: s.chars()
            invariant
                it.seq() == text,
                offset == it.index() % 65536,
                text_fits(x as int, text.len() as int),
                self.wf(),
                self.columns() == old(self).columns(),
                self.rows() == old(self).rows(),
                self.screen() == put_text(old(self).screen(), x as int, y as int, text.take(it.index())),
                self.shown() == old(self).shown(),
        {
            let ghost k = it.index();
            assert(x + k % 65536 <= u16::MAX);
            self.set_cell(x + offset, y, ch);
            proof {
                let next = text.take(k + 1);
                assert(next.drop_last() =~= text.take(k));
                assert(next.last() == ch);
            }
            offset = offset.wrapping_add(1);
        }
        proof {
            assert(text.take(text.len() as int) =~= text);
        }
    }

    /// Writes the characters of `text` into row `y` from column `x` on, as
    /// `set_str` does.
    pub(crate) fn set_chars(&mut self, x: u16, y: u16, text: &Vec<char>)
        requires
            old(self).wf(),
            text_fits(x as int, text@.len() as int),
        ensures
            final(self).wf(),
            final(self).columns() == old(self).columns(),
            final(self).rows() == old(self).rows(),
            final(self).screen() == put_text(old(self).screen(), x as int, y as int, text@),
            final(self).shown() == old(self).shown(),
    {
        let mut offset: u16 = 0;
        let mut i: usize = 0;
        while i < text.len()
            invariant
                i <= text@.len(),
                offset == i % 65536,
                text_fits(x as int, text@.len() as int),
                self.wf(),
                self.columns() == old(self).columns(),
                self.rows() == old(self).rows(),
                self.screen() == put_text(old(self).screen(), x as int, y as int, text@.take(i as int)),
                self.shown() == old(self).shown(),
            decreases text@.len() - i,
        {
            self.set_cell(x + offset, y, text[i]);
            proof {
                let next = text@.take(i + 1);
                assert(next.drop_last() =~= text@.take(i as int));
                assert(next.last() == text@[i as int]);
            }
            offset = offset.wrapping_add(1);
            i = i + 1;
        }
        assert(text@.take(text@.len() as int) =~= text@);
    }

    /// Blanks every cell of the frame being drawn.
    pub fn clear(&mut self)
        requires
            old(self).wf(),
        ensures
            final(self).wf(),
            final(self).columns() == old(self).columns(),
            final(self).rows() == old(self).rows(),
            final(self).screen() == blank_screen(old(self).columns(), old(self).rows()),
            final(self).shown() == old(self).shown(),
    {
        let w = self.width as usize;
        let h = self.height as usize;
        let mut y: usize = 0;
        while y < h
            invariant
                self.wf(),
                w == self.columns(),
                h == self.rows(),
                self.columns() == old(self).columns(),
                self.rows() == old(self).rows(),
                self.shown() == old(self).shown(),
                y <= h,
                forall|r: int| 0 <= r < y ==> #[trigger] self.screen()[r] == blank_screen(w as nat, h as nat)[r],
            decreases h - y,
        {
            let mut x: usize = 0;
            while x < w
                invariant
                    self.wf(),
                    w == self.columns(),
                    h == self.rows(),
                    self.columns() == old(self).columns(),
                    self.rows() == old(self).rows(),
                    self.shown() == old(self).shown(),
                    y < h,
                    x <= w,
                    forall|r: int| 0 <= r < y ==> #[trigger] self.screen()[r] == blank_screen(w as nat, h as nat)[r],
                    forall|c: int| 0 <= c < x ==> #[trigger] self.screen()[y as int][c] == ' ',
                decreases w - x,
            {
                self.set_cell(x as u16, y as u16, ' ');
                x = x + 1;
            }
            assert(self.screen()[y as int] =~= blank_screen(w as nat, h as nat)[y as int]);
            y = y + 1;
        }
        assert(self.screen() =~= blank_screen(w as nat, h as nat));
    }

    /// Sends nothing itself: returns what must be written to the terminal to
    /// turn the shown frame into the drawn one (one cursor move and character
    /// per changed cell, then the sequence that hides the cursor), and swaps
    /// the two frames, so that the drawn frame becomes the shown one.
    pub fn flush(&mut self) -> (out: Vec<char>)
        requires
            old(self).wf(),
        ensures
            final(self).wf(),
            final(self).columns() == old(self).columns(),
            final(self).rows() == old(self).rows(),
            final(self).screen() == old(self).shown(),
            final(self).shown() == old(self).screen(),
            out@ == frame_output(
                old(self).shown(),
                old(self).screen(),
                old(self).columns() as int,
                old(self).rows() as int,
            ),
            out@ == encode_updates(
                screen_change_cells(
                    old(self).shown(),
                    old(self).screen(),
                    old(self).columns() as int,
                    old(self).rows() as int,
                ),
            ) + hide_cursor(),
            apply_updates(
                old(self).shown(),
                screen_change_cells(
                    old(self).shown(),
                    old(self).screen(),
                    old(self).columns() as int,
                    old(self).rows() as int,
                ),
            ) == old(self).screen(),
    {
        proof {
            law_flush_repaints(self.shown(), self.screen(), self.columns(), self.rows());
        }
        let ghost prev = self.shown();
        let ghost cur = self.screen();
        let mut out: Vec<char> = Vec::new();
        let w = self.width as usize;
        let h = self.height as usize;
        let mut y: usize = 0;
        while y < h
            invariant
                self.wf(),
                self.shown() == prev,
                self.screen() == cur,
                w == self.columns(),
                h == self.rows(),
                y <= h,
                out@ == screen_changes(prev, cur, w as int, y as int),
            decreases h - y,
        {
            let mut x: usize = 0;
            while x < w
                invariant
                    self.wf(),
                    self.shown() == prev,
                    self.screen() == cur,
                    w == self.columns(),
                    h == self.rows(),
                    y < h,
                    x <= w,
                    out@ == screen_changes(prev, cur, w as int, y as int) + row_changes(
                        prev[y as int],
                        cur[y as int],
                        y as int,
                        x as int,
                    ),
                decreases w - x,
            {
                let ghost before = out@;
                assert(cur[y as int].len() == w && prev[y as int].len() == w);
                assert(self.current_buffer@[y as int]@ == cur[y as int]);
                assert(self.prev_buffer@[y as int]@ == prev[y as int]);
                let c = self.current_buffer[y][x];
                if c != self.prev_buffer[y][x] {
                    out.push('\x1b');
                    out.push('[');
                    push_decimal(&mut out, (y + 1) as u32);
                    out.push(';');
                    push_decimal(&mut out, (x + 1) as u32);
                    out.push('H');
                    out.push(c);
                    assert(out@ =~= before + cell_update(y as int, x as int, c));
                } else {
                    assert(out@ =~= before + seq![]);
                }
                x = x + 1;
            }
            y = y + 1;
        }
        let ghost before = out@;
        out.push('\x1b');
        out.push('[');
        out.push('?');
        out.push('2');
        out.push('5');
        out.push('l');
        assert(out@ =~= before + hide_cursor());
        std::mem::swap(&mut self.current_buffer, &mut self.prev_buffer);
        out
    }
}

} // verus!
