use vstd::prelude::*;
use vstd::wrapping::u64_specs;

verus! {

/// Sparkle characters drawn around popular confessions.
pub open spec fn sparkle_chars() -> Seq<char> {
    seq!['✦', '✧', '·', '*']
}

/// A fixed pseudo-random hash of a screen cell, so that sparkles stay in place
/// from one frame to the next.
pub open spec fn sparkle_hash_spec(x: i64, y: i64) -> u64 {
    let h0 = u64_specs::wrapping_mul(x as u64, 374761393);
    let h1 = u64_specs::wrapping_add(h0, u64_specs::wrapping_mul(y as u64, 668265263));
    let h2 = h1 ^ (h1 >> 13u64);
    let h3 = u64_specs::wrapping_mul(h2, 1274126177);
    h3 ^ (h3 >> 16u64)
}

/// Hashes a screen cell (see `sparkle_hash_spec`).
pub fn sparkle_hash(x: i64, y: i64) -> (h: u64)
    ensures
        h == sparkle_hash_spec(x, y),
{
    let mut h = (x as u64).wrapping_mul(374761393);
    h = h.wrapping_add((y as u64).wrapping_mul(668265263));
    h ^= h >> 13;
    h = h.wrapping_mul(1274126177);
    h ^= h >> 16;
    h
}

/// Whether `h` is a multiple of `d`, as `u64::is_multiple_of` answers (only 0 is a
/// multiple of 0).
pub open spec fn multiple_of(h: u64, d: u64) -> bool {
    if d == 0 {
        h == 0
    } else {
        h % d == 0
    }
}

/// The sparkle drawn at a cell of a glow ring: only cells whose hash is a multiple of
/// `density` get one, chosen by the hash.
pub open spec fn sparkle_at(x: i64, y: i64, density: u64) -> Option<char> {
    let h = sparkle_hash_spec(x, y);
    if multiple_of(h, density) {
        Some(sparkle_chars()[((h / 7) % 4) as int])
    } else {
        None
    }
}

/// The sparkle (if any) at screen cell (`x`, `y`) of a ring drawn with `density`.
pub fn sparkle_for(x: i64, y: i64, density: u64) -> (c: Option<char>)
    ensures
        c == sparkle_at(x, y, density),
{
    let h = sparkle_hash(x, y);
    let hit = if density == 0 {
        h == 0
    } else {
        h % density == 0
    };
    if !hit {
        return None;
    }
    let i = h / 7 % 4;
    let c = if i == 0 {
        '✦'
    } else if i == 1 {
        '✧'
    } else if i == 2 {
        '·'
    } else {
        '*'
    };
    Some(c)
}

/* Glow around popular confessions. */

/// Reactions above which a confession glows.
pub const VOTES_GLOW: i64 = 2;

/// Reactions above which a confession is drawn in the middle accent colour.
pub const VOTES_CYAN: i64 = 2;

/// Reactions above which a confession glows brightly (denser, in magenta).
pub const VOTES_MAGENTA: i64 = 9;

/// One cell in this many (by hash) sparkles around a brightly glowing confession.
pub const GLOW_DENSITY_HIGH: u64 = 3;

/// One cell in this many (by hash) sparkles around another glowing confession.
pub const GLOW_DENSITY_LOW: u64 = 5;

/// Whether a confession with `votes` reactions glows.
pub fn glows(votes: i64) -> (b: bool)
    ensures
        b == (votes > VOTES_GLOW),
{
    votes > VOTES_GLOW
}

/// Whether a confession with `votes` reactions glows brightly.
pub fn glows_brightly(votes: i64) -> (b: bool)
    ensures
        b == (votes > VOTES_MAGENTA),
{
    votes > VOTES_MAGENTA
}

pub open spec fn glow_density_spec(votes: i64) -> u64 {
    if votes > VOTES_MAGENTA {
        GLOW_DENSITY_HIGH
    } else {
        GLOW_DENSITY_LOW
    }
}

/// How sparse the sparkles around a confession with `votes` reactions are.
pub fn glow_density(votes: i64) -> (d: u64)
    ensures
        d == glow_density_spec(votes),
{
    if votes > VOTES_MAGENTA {
        GLOW_DENSITY_HIGH
    } else {
        GLOW_DENSITY_LOW
    }
}

/// A screen rectangle: left, top, width, height.
pub type Area = (u16, u16, u16, u16);

/// Cell (`x`, `y`) lies within `d` cells of rectangle `r` (`d == 0`: inside it).
pub open spec fn within(x: int, y: int, r: Area, d: int) -> bool {
    &&& r.0 - d <= x <= r.0 + r.2 - 1 + d
    &&& r.1 - d <= y <= r.1 + r.3 - 1 + d
}

pub open spec fn inside(x: int, y: int, c: Area) -> bool {
    &&& c.0 <= x < c.0 + c.2
    &&& c.1 <= y < c.1 + c.3
}

/// The sparkle, if any, at cell (`x`, `y`) of ring `ring` (1 or 2) around `rect`: the
/// cell lies exactly `ring` cells from the rectangle, inside `clip`, and its hash is a
/// multiple of the density for `votes`.
pub open spec fn glow_cell(votes: i64, rect: Area, clip: Area, x: int, y: int, ring: int) -> Option<char> {
    if 1 <= ring <= 2 && 0 <= x <= u16::MAX && 0 <= y <= u16::MAX && within(x, y, rect, ring)
        && !within(x, y, rect, ring - 1) && inside(x, y, clip) {
        sparkle_at(x as i64, y as i64, glow_density_spec(votes))
    } else {
        None
    }
}

/// The drawing order of glow cells: ring 1 before ring 2, then row by row, then by column.
pub open spec fn glow_key(ring: int, y: int, x: int) -> int {
    ring * 0x1_0000_0000 + y * 0x1_0000 + x
}

pub open spec fn cell_key(c: (u16, u16, char, u8)) -> int {
    glow_key(c.3 as int, c.1 as int, c.0 as int)
}

/// What `glow_cells` has gathered once every cell before `k` (in drawing order) is done.
pub open spec fn gathered(votes: i64, rect: Area, clip: Area, cells: Seq<(u16, u16, char, u8)>, k: int) -> bool {
    &&& forall|i: int|
        0 <= i < cells.len() ==> glow_cell(votes, rect, clip, cells[i].0 as int, cells[i].1 as int, cells[i].3 as int)
            == Some(#[trigger] cells[i].2)
    &&& forall|i: int, j: int| 0 <= i < j < cells.len() ==> cell_key(#[trigger] cells[i]) < cell_key(#[trigger] cells[j])
    &&& forall|i: int| 0 <= i < cells.len() ==> cell_key(#[trigger] cells[i]) < k
    &&& forall|ring: int, x: int, y: int|
        #[trigger] glow_cell(votes, rect, clip, x, y, ring) is Some && glow_key(ring, y, x) < k
            ==> cells.contains((x as u16, y as u16, glow_cell(votes, rect, clip, x, y, ring)->0, ring as u8))
}

fn glow_cell_exec(votes: i64, rect: Area, clip: Area, x: u16, y: u16, ring: u8) -> (c: Option<char>)
    requires
        1 <= ring <= 2,
    ensures
        c == glow_cell(votes, rect, clip, x as int, y as int, ring as int),
{
    let (xi, yi, r) = (x as i64, y as i64, ring as i64);
    let (rx, ry, rw, rh) = (rect.0 as i64, rect.1 as i64, rect.2 as i64, rect.3 as i64);
    let (cx, cy, cw, ch) = (clip.0 as i64, clip.1 as i64, clip.2 as i64, clip.3 as i64);
    let in_ring = rx - r <= xi && xi <= rx + rw - 1 + r && ry - r <= yi && yi <= ry + rh - 1 + r;
    let in_inner = rx - (r - 1) <= xi && xi <= rx + rw - 1 + (r - 1) && ry - (r - 1) <= yi && yi
        <= ry + rh - 1 + (r - 1);
    let in_clip = cx <= xi && xi < cx + cw && cy <= yi && yi < cy + ch;
    if in_ring && !in_inner && in_clip {
        sparkle_for(xi, yi, glow_density(votes))
    } else {
        None
    }
}

/// Gathering stays complete across a stretch of the drawing order without sparkles.
proof fn lemma_skip(votes: i64, rect: Area, clip: Area, cells: Seq<(u16, u16, char, u8)>, k1: int, k2: int)
    requires
        k1 <= k2,
        gathered(votes, rect, clip, cells, k1),
        forall|ring: int, x: int, y: int|
            #[trigger] glow_cell(votes, rect, clip, x, y, ring) is Some ==> !(k1 <= glow_key(ring, y, x) < k2),
    ensures
        gathered(votes, rect, clip, cells, k2),
{
}

/// No sparkle lies on the rows of ring `ring` above `lo_y`, the first row of the ring
/// inside the clip.
proof fn lemma_rows_before(votes: i64, rect: Area, clip: Area, cells: Seq<(u16, u16, char, u8)>, ring: int, lo_y: int)
    requires
        1 <= ring <= 2,
        lo_y == (if rect.1 - ring > clip.1 { rect.1 - ring } else { clip.1 as int }),
        gathered(votes, rect, clip, cells, glow_key(ring, 0, 0)),
    ensures
        gathered(votes, rect, clip, cells, glow_key(ring, lo_y, 0)),
{
    assert forall|ring2: int, x: int, y: int|
        #[trigger] glow_cell(votes, rect, clip, x, y, ring2) is Some implies !(glow_key(ring, 0, 0) <= glow_key(ring2, y, x)
            < glow_key(ring, lo_y, 0)) by {
        if glow_key(ring, 0, 0) <= glow_key(ring2, y, x) < glow_key(ring, lo_y, 0) {
            assert(ring2 == ring);
        }
    }
    lemma_skip(votes, rect, clip, cells, glow_key(ring, 0, 0), glow_key(ring, lo_y, 0));
}

/// No sparkle lies on the rows of ring `ring` below `hi_y`, its last row inside the clip.
proof fn lemma_rows_after(votes: i64, rect: Area, clip: Area, cells: Seq<(u16, u16, char, u8)>, ring: int, hi_y: int, from: int)
    requires
        1 <= ring <= 2,
        hi_y <= 65535,
        hi_y <= rect.1 + rect.3 - 1 + ring,
        hi_y <= clip.1 + clip.3 - 1,
        hi_y == 65535 || hi_y == rect.1 + rect.3 - 1 + ring || hi_y == clip.1 + clip.3 - 1,
        hi_y + 1 <= from <= 65536,
        gathered(votes, rect, clip, cells, glow_key(ring, from, 0)),
    ensures
        gathered(votes, rect, clip, cells, glow_key(ring + 1, 0, 0)),
{
    assert forall|ring2: int, x: int, y: int|
        #[trigger] glow_cell(votes, rect, clip, x, y, ring2) is Some implies !(glow_key(ring, from, 0) <= glow_key(ring2, y, x)
            < glow_key(ring + 1, 0, 0)) by {
        if glow_key(ring, from, 0) <= glow_key(ring2, y, x) < glow_key(ring + 1, 0, 0) {
            assert(ring2 == ring);
        }
    }
    lemma_skip(votes, rect, clip, cells, glow_key(ring, from, 0), glow_key(ring + 1, 0, 0));
}

/// Gathers the sparkles of ring `ring` on row `y`, columns `lo_x` to `hi_x`.
fn glow_row(
    votes: i64,
    rect: Area,
    clip: Area,
    ring: u8,
    y: u16,
    lo_x: i64,
    hi_x: i64,
    cells: &mut Vec<(u16, u16, char, u8)>,
)
    requires
        1 <= ring <= 2,
        0 <= lo_x,
        hi_x <= 65535,
        lo_x <= hi_x + 1,
        gathered(votes, rect, clip, old(cells)@, glow_key(ring as int, y as int, lo_x as int)),
    ensures
        gathered(votes, rect, clip, final(cells)@, glow_key(ring as int, y as int, hi_x + 1)),
{
    let mut x: i64 = lo_x;
    while x <= hi_x
        invariant
            1 <= ring <= 2,
            0 <= lo_x <= x <= hi_x + 1,
            hi_x <= 65535,
            gathered(votes, rect, clip, cells@, glow_key(ring as int, y as int, x as int)),
        decreases hi_x + 1 - x,
    {
        let got = glow_cell_exec(votes, rect, clip, x as u16, y, ring);
        let ghost before = cells@;
        match got {
            Some(c) => {
                let cell = (x as u16, y, c, ring);
                cells.push(cell);
                proof {
                    assert(cells@ == before.push(cell));
                    assert forall|i: int| 0 <= i < before.len() implies cells@[i] == before[i] by {}
                    assert(cells@[cells@.len() - 1] == cell);
                    assert forall|ring2: int, x2: int, y2: int|
                        #[trigger] glow_cell(votes, rect, clip, x2, y2, ring2) is Some && glow_key(ring2, y2, x2)
                            < glow_key(ring as int, y as int, x + 1) implies cells@.contains(
                        (x2 as u16, y2 as u16, glow_cell(votes, rect, clip, x2, y2, ring2)->0, ring2 as u8),
                    ) by {
                        if glow_key(ring2, y2, x2) < glow_key(ring as int, y as int, x as int) {
                            let e = (x2 as u16, y2 as u16, glow_cell(votes, rect, clip, x2, y2, ring2)->0, ring2 as u8);
                            assert(before.contains(e));
                            let w = choose|w: int| 0 <= w < before.len() && before[w] == e;
                            assert(cells@[w] == e);
                        } else {
                            assert(ring2 == ring && y2 == y && x2 == x);
                        }
                    }
                }
            },
            None => {
                proof {
                    assert forall|ring2: int, x2: int, y2: int|
                        #[trigger] glow_cell(votes, rect, clip, x2, y2, ring2) is Some implies !(glow_key(
                            ring as int,
                            y as int,
                            x as int,
                        ) <= glow_key(ring2, y2, x2) < glow_key(ring as int, y as int, x + 1)) by {
                        if glow_key(ring as int, y as int, x as int) <= glow_key(ring2, y2, x2) < glow_key(
                            ring as int,
                            y as int,
                            x + 1,
                        ) {
                            assert(ring2 == ring && y2 == y && x2 == x);
                        }
                    }
                    lemma_skip(votes, rect, clip, cells@, glow_key(ring as int, y as int, x as int), glow_key(ring as int, y as int, x + 1));
                }
            },
        }
        x += 1;
    }
}

/// The sparkles of the glow around `rect`, clipped to `clip`, in drawing order: every
/// cell one cell from the rectangle, then every cell two cells from it, each ring row
/// by row; a cell is listed (column, row, sparkle, ring) exactly when `glow_cell` gives it
/// a sparkle.
pub fn glow_cells(votes: i64, rect: Area, clip: Area) -> (cells: Vec<(u16, u16, char, u8)>)
    ensures
        forall|i: int|
            0 <= i < cells@.len() ==> glow_cell(votes, rect, clip, cells@[i].0 as int, cells@[i].1 as int, cells@[i].3 as int)
                == Some(#[trigger] cells@[i].2),
        forall|i: int, j: int|
            0 <= i < j < cells@.len() ==> cell_key(#[trigger] cells@[i]) < cell_key(#[trigger] cells@[j]),
        forall|ring: int, x: int, y: int|
            #[trigger] glow_cell(votes, rect, clip, x, y, ring) is Some ==> cells@.contains(
                (x as u16, y as u16, glow_cell(votes, rect, clip, x, y, ring)->0, ring as u8),
            ),
{
    let mut cells: Vec<(u16, u16, char, u8)> = Vec::new();
    let (rx, ry, rw, rh) = (rect.0 as i64, rect.1 as i64, rect.2 as i64, rect.3 as i64);
    let (cx, cy, cw, ch) = (clip.0 as i64, clip.1 as i64, clip.2 as i64, clip.3 as i64);
    let mut ring: u8 = 1;
    while ring <= 2
        invariant
            1 <= ring <= 3,
            rx == rect.0 && ry == rect.1 && rw == rect.2 && rh == rect.3,
            cx == clip.0 && cy == clip.1 && cw == clip.2 && ch == clip.3,
            gathered(votes, rect, clip, cells@, glow_key(ring as int, 0, 0)),
        decreases 3 - ring,
    {
        let r = ring as i64;
        let lo_y = if ry - r > cy { ry - r } else { cy };
        let top = if ry + rh - 1 + r < cy + ch - 1 { ry + rh - 1 + r } else { cy + ch - 1 };
        let hi_y = if top < 65535 { top } else { 65535 };
        let lo_x = if rx - r > cx { rx - r } else { cx };
        let right = if rx + rw - 1 + r < cx + cw - 1 { rx + rw - 1 + r } else { cx + cw - 1 };
        let hi_x = if right < 65535 { right } else { 65535 };
        proof {
            lemma_rows_before(votes, rect, clip, cells@, ring as int, lo_y as int);
        }
        let mut y: i64 = lo_y;
        while y <= hi_y
            invariant
                1 <= ring <= 2,
                r == ring,
                rx == rect.0 && ry == rect.1 && rw == rect.2 && rh == rect.3,
                cx == clip.0 && cy == clip.1 && cw == clip.2 && ch == clip.3,
                hi_y <= 65535,
                hi_y <= ry + rh - 1 + r,
                hi_y <= cy + ch - 1,
                hi_y == 65535 || hi_y == ry + rh - 1 + r || hi_y == cy + ch - 1,
                lo_x == (if rx - r > cx { rx - r } else { cx as int }),
                hi_x <= 65535,
                hi_x <= rx + rw - 1 + r,
                hi_x <= cx + cw - 1,
                hi_x == 65535 || hi_x == rx + rw - 1 + r || hi_x == cx + cw - 1,
                0 <= lo_y <= y,
                lo_y <= 65535,
                y <= hi_y + 1 || y == lo_y,
                gathered(votes, rect, clip, cells@, glow_key(ring as int, y as int, 0)),
            decreases hi_y + 1 - y,
        {
            proof {
                assert forall|ring2: int, x: int, y2: int|
                    #[trigger] glow_cell(votes, rect, clip, x, y2, ring2) is Some implies !(glow_key(
                        ring as int,
                        y as int,
                        0,
                    ) <= glow_key(ring2, y2, x) < glow_key(ring as int, y as int, lo_x as int)) by {
                    if glow_key(ring as int, y as int, 0) <= glow_key(ring2, y2, x) < glow_key(
                        ring as int,
                        y as int,
                        lo_x as int,
                    ) {
                        assert(ring2 == ring && y2 == y);
                    }
                }
                lemma_skip(votes, rect, clip, cells@, glow_key(ring as int, y as int, 0), glow_key(ring as int, y as int, lo_x as int));
            }
            if lo_x <= hi_x + 1 {
                glow_row(votes, rect, clip, ring, y as u16, lo_x, hi_x, &mut cells);
            }
            proof {
                let from = if lo_x <= hi_x + 1 { hi_x + 1 } else { lo_x as int };
                assert forall|ring2: int, x: int, y2: int|
                    #[trigger] glow_cell(votes, rect, clip, x, y2, ring2) is Some implies !(glow_key(
                        ring as int,
                        y as int,
                        from,
                    ) <= glow_key(ring2, y2, x) < glow_key(ring as int, y + 1, 0)) by {
                    if glow_key(ring as int, y as int, from) <= glow_key(ring2, y2, x) < glow_key(ring as int, y + 1, 0) {
                        assert(ring2 == ring && y2 == y);
                    }
                }
                lemma_skip(votes, rect, clip, cells@, glow_key(ring as int, y as int, from), glow_key(ring as int, y + 1, 0));
            }
            y += 1;
        }
        proof {
            lemma_rows_after(votes, rect, clip, cells@, ring as int, hi_y as int, y as int);
        }
        ring += 1;
    }
    cells
}

} // verus!
