use vstd::prelude::*;
use crate::confession::{box_height, confession_height, height_fits, height_ok, Confession, BOX_WIDTH};

verus! {

/* Which confessions a camera sees. */

/// The box of `c` (width `BOX_WIDTH`, height of its text) meets the view whose
/// top-left corner is (`cam_x`, `cam_y`) and whose size is `width` by `height`.
pub open spec fn is_visible(c: Confession, cam_x: int, cam_y: int, width: int, height: int) -> bool {
    &&& c.x < cam_x + width
    &&& c.x + BOX_WIDTH > cam_x
    &&& c.y < cam_y + height
    &&& c.y + box_height(c.text@) > cam_y
}

/// Indices, in increasing order, of the first `n` confessions that the view shows.
pub open spec fn visible_prefix(
    cs: Seq<Confession>,
    n: nat,
    cam_x: int,
    cam_y: int,
    width: int,
    height: int,
) -> Seq<usize>
    decreases n,
{
    if n == 0 {
        Seq::empty()
    } else {
        let p = visible_prefix(cs, (n - 1) as nat, cam_x, cam_y, width, height);
        if is_visible(cs[n - 1], cam_x, cam_y, width, height) {
            p.push((n - 1) as usize)
        } else {
            p
        }
    }
}

/// Indices, in increasing order, of all confessions that the view shows.
pub open spec fn visible_list(
    cs: Seq<Confession>,
    cam_x: int,
    cam_y: int,
    width: int,
    height: int,
) -> Seq<usize> {
    visible_prefix(cs, cs.len(), cam_x, cam_y, width, height)
}

/// The box of `c` can be measured and its far corner computed without overflow.
pub open spec fn box_fits(c: Confession) -> bool {
    &&& height_ok(c.text@)
    &&& c.x + BOX_WIDTH <= i64::MAX
    &&& c.y + box_height(c.text@) <= i64::MAX
}

pub open spec fn all_boxes_fit(cs: Seq<Confession>) -> bool {
    forall|i: int| 0 <= i < cs.len() ==> box_fits(#[trigger] cs[i])
}

pub proof fn lemma_visible_prefix_props(
    cs: Seq<Confession>,
    n: nat,
    cam_x: int,
    cam_y: int,
    width: int,
    height: int,
)
    requires
        n <= cs.len(),
        n <= usize::MAX,
    ensures
        visible_prefix(cs, n, cam_x, cam_y, width, height).len() <= n,
        forall|k: int|
            0 <= k < visible_prefix(cs, n, cam_x, cam_y, width, height).len() ==> {
                let i = #[trigger] visible_prefix(cs, n, cam_x, cam_y, width, height)[k];
                &&& i < n
                &&& is_visible(cs[i as int], cam_x, cam_y, width, height)
            },
        forall|k1: int, k2: int|
            0 <= k1 < k2 < visible_prefix(cs, n, cam_x, cam_y, width, height).len() ==> #[trigger] visible_prefix(cs, n, cam_x, cam_y, width, height)[k1]
                < #[trigger] visible_prefix(cs, n, cam_x, cam_y, width, height)[k2],
    decreases n,
{
    if n > 0 {
        lemma_visible_prefix_props(cs, (n - 1) as nat, cam_x, cam_y, width, height);
        let p = visible_prefix(cs, (n - 1) as nat, cam_x, cam_y, width, height);
        let r = visible_prefix(cs, n, cam_x, cam_y, width, height);
        if is_visible(cs[n - 1], cam_x, cam_y, width, height) {
            assert(r == p.push((n - 1) as usize));
            assert forall|k: int| 0 <= k < r.len() implies {
                let i = #[trigger] r[k];
                &&& i < n
                &&& is_visible(cs[i as int], cam_x, cam_y, width, height)
            } by {
                if k < p.len() {
                    assert(r[k] == p[k]);
                }
            }
            assert forall|k1: int, k2: int| 0 <= k1 < k2 < r.len() implies #[trigger] r[k1]
                < #[trigger] r[k2] by {
                assert(r[k1] == p[k1]);
                if k2 < p.len() {
                    assert(r[k2] == p[k2]);
                }
            }
        }
    }
}

/// Indices of the confessions whose boxes meet the view of `width` by `height`
/// cells whose top-left corner is at (`cam_x`, `cam_y`).
pub fn visible_confessions(
    confessions: &[Confession],
    cam_x: i64,
    cam_y: i64,
    width: u16,
    height: u16,
) -> (v: Vec<usize>)
    requires
        cam_x + width <= i64::MAX,
        cam_y + height <= i64::MAX,
        all_boxes_fit(confessions@),
    ensures
        v@ == visible_list(confessions@, cam_x as int, cam_y as int, width as int, height as int),
{
    let vx1 = cam_x;
    let vy1 = cam_y;
    let vx2 = cam_x + width as i64;
    let vy2 = cam_y + height as i64;
    let mut v: Vec<usize> = Vec::new();
    let mut i: usize = 0;
    while i < confessions.len()
        invariant
            i <= confessions.len(),
            vx2 == cam_x + width,
            vy2 == cam_y + height,
            vx1 == cam_x,
            vy1 == cam_y,
            all_boxes_fit(confessions@),
            v@ == visible_prefix(
                confessions@,
                i as nat,
                cam_x as int,
                cam_y as int,
                width as int,
                height as int,
            ),
        decreases confessions.len() - i,
    {
        let c = &confessions[i];
        assert(box_fits(confessions@[i as int]));
        let bw = BOX_WIDTH as i64;
        let bh = confession_height(&c.text) as i64;
        let cx2 = c.x + bw;
        let cy2 = c.y + bh;
        if c.x < vx2 && cx2 > vx1 && c.y < vy2 && cy2 > vy1 {
            v.push(i);
        }
        i += 1;
    }
    v
}

/* Whether a new box would crowd an existing one. */

/// The box of `c`, grown by `padding` on every side, meets the `w` by `h` box at (`x`, `y`).
pub open spec fn crowds(c: Confession, x: int, y: int, w: int, h: int, padding: int) -> bool {
    &&& x < c.x + BOX_WIDTH + padding
    &&& x + w + padding > c.x
    &&& y < c.y + box_height(c.text@) + padding
    &&& y + h + padding > c.y
}

pub open spec fn crowds_any(cs: Seq<Confession>, x: int, y: int, w: int, h: int, padding: int) -> bool {
    exists|i: int| 0 <= i < cs.len() && crowds(#[trigger] cs[i], x, y, w, h, padding)
}

/// Every sum that the overlap test forms stays within `i64`.
pub open spec fn overlap_sums_fit(c: Confession, x: int, y: int, w: int, h: int, padding: int) -> bool {
    &&& height_ok(c.text@)
    &&& i64::MIN <= c.x + BOX_WIDTH + padding <= i64::MAX
    &&& c.x + BOX_WIDTH <= i64::MAX
    &&& i64::MIN <= x + w + padding <= i64::MAX
    &&& i64::MIN <= x + w <= i64::MAX
    &&& i64::MIN <= c.y + box_height(c.text@) + padding <= i64::MAX
    &&& i64::MIN <= c.y + box_height(c.text@) <= i64::MAX
    &&& i64::MIN <= y + h + padding <= i64::MAX
    &&& i64::MIN <= y + h <= i64::MAX
}

/// Whether the `w` by `h` box at (`x`, `y`) comes within `padding` cells of any confession.
pub fn overlaps_any(x: i64, y: i64, w: i64, h: i64, confessions: &[Confession], padding: i64) -> (b: bool)
    requires
        forall|i: int|
            0 <= i < confessions@.len() ==> overlap_sums_fit(
                #[trigger] confessions@[i],
                x as int,
                y as int,
                w as int,
                h as int,
                padding as int,
            ),
    ensures
        b == crowds_any(confessions@, x as int, y as int, w as int, h as int, padding as int),
{
    let mut i: usize = 0;
    while i < confessions.len()
        invariant
            i <= confessions.len(),
            forall|k: int|
                0 <= k < confessions@.len() ==> overlap_sums_fit(
                    #[trigger] confessions@[k],
                    x as int,
                    y as int,
                    w as int,
                    h as int,
                    padding as int,
                ),
            forall|k: int|
                0 <= k < i ==> !crowds(
                    #[trigger] confessions@[k],
                    x as int,
                    y as int,
                    w as int,
                    h as int,
                    padding as int,
                ),
        decreases confessions.len() - i,
    {
        let c = &confessions[i];
        assert(overlap_sums_fit(confessions@[i as int], x as int, y as int, w as int, h as int, padding as int));
        let cw = BOX_WIDTH as i64;
        let ch = confession_height(&c.text) as i64;
        if x < c.x + cw + padding && x + w + padding > c.x && y < c.y + ch + padding && y + h
            + padding > c.y {
            assert(crowds(confessions@[i as int], x as int, y as int, w as int, h as int, padding as int));
            return true;
        }
        i += 1;
    }
    false
}


/* Choosing where a new viewer's camera starts. */

/// Inserts index `i` into `l` (ordered by votes, highest first) after every index
/// with at least as many votes.
pub open spec fn insert_by_votes(cs: Seq<Confession>, l: Seq<usize>, i: usize) -> Seq<usize>
    decreases l.len(),
{
    if l.len() == 0 {
        seq![i]
    } else if cs[l[0] as int].votes < cs[i as int].votes {
        seq![i] + l
    } else {
        seq![l[0]] + insert_by_votes(cs, l.drop_first(), i)
    }
}

/// The indices `0..n` stably sorted by votes, highest first (ties keep index order).
pub open spec fn sorted_by_votes(cs: Seq<Confession>, n: nat) -> Seq<usize>
    decreases n,
{
    if n == 0 {
        Seq::empty()
    } else {
        insert_by_votes(cs, sorted_by_votes(cs, (n - 1) as nat), (n - 1) as usize)
    }
}

/// How many of the most voted confessions are tried as camera targets.
pub const CAMERA_CANDIDATES: usize = 50;

/// The most voted confessions (at most `CAMERA_CANDIDATES`), highest first.
pub open spec fn camera_candidates(cs: Seq<Confession>) -> Seq<usize> {
    let s = sorted_by_votes(cs, cs.len());
    if s.len() <= CAMERA_CANDIDATES {
        s
    } else {
        s.take(CAMERA_CANDIDATES as int)
    }
}

/// The camera that centres the view of `width` by `height` on confession `c`.
pub open spec fn camera_on(c: Confession, width: int, height: int) -> (int, int) {
    (c.x - width / 2 + BOX_WIDTH / 2, c.y - height / 2 + 2)
}

/// Scanning candidates in order, keep the first camera that shows strictly more
/// confessions than any before it: (camera x, camera y, count).
pub open spec fn best_scan(cs: Seq<Confession>, cands: Seq<usize>, width: int, height: int) -> (
    int,
    int,
    nat,
)
    decreases cands.len(),
{
    if cands.len() == 0 {
        (0, 0, 0)
    } else {
        let prev = best_scan(cs, cands.drop_last(), width, height);
        let cam = camera_on(cs[cands.last() as int], width, height);
        let count = visible_list(cs, cam.0, cam.1, width, height).len();
        if count > prev.2 {
            (cam.0, cam.1, count)
        } else {
            prev
        }
    }
}

/// The camera position a viewer starts at.
pub open spec fn best_camera_spec(cs: Seq<Confession>, width: int, height: int) -> (int, int) {
    if cs.len() == 0 {
        (-(width / 2), -(height / 2))
    } else {
        let r = best_scan(cs, camera_candidates(cs), width, height);
        (r.0, r.1)
    }
}

/// The camera centred on `c` can be computed and used without overflow.
pub open spec fn camera_fits(c: Confession, width: int, height: int) -> bool {
    let cam = camera_on(c, width, height);
    &&& i64::MIN <= c.x - width / 2
    &&& i64::MIN <= c.y - height / 2
    &&& cam.0 + width <= i64::MAX
    &&& cam.1 + height <= i64::MAX
}

pub proof fn lemma_insert_at(cs: Seq<Confession>, l: Seq<usize>, i: usize, p: int)
    requires
        0 <= p <= l.len(),
        forall|k: int| 0 <= k < p ==> !(cs[#[trigger] l[k] as int].votes < cs[i as int].votes),
        p < l.len() ==> cs[l[p] as int].votes < cs[i as int].votes,
    ensures
        insert_by_votes(cs, l, i) == l.insert(p, i),
    decreases l.len(),
{
    if l.len() == 0 {
        assert(l.insert(p, i) =~= seq![i]);
    } else if p == 0 {
        assert(l.insert(p, i) =~= seq![i] + l);
    } else {
        let t = l.drop_first();
        assert forall|k: int| 0 <= k < p - 1 implies !(cs[#[trigger] t[k] as int].votes
            < cs[i as int].votes) by {
            assert(t[k] == l[k + 1]);
        }
        if p < l.len() {
            assert(t[p - 1] == l[p]);
        }
        lemma_insert_at(cs, t, i, p - 1);
        assert(!(cs[l[0] as int].votes < cs[i as int].votes));
        assert(seq![l[0]] + t.insert(p - 1, i) =~= l.insert(p, i));
    }
}

pub proof fn lemma_insert_elems(cs: Seq<Confession>, l: Seq<usize>, i: usize, bound: nat)
    requires
        i < bound,
        forall|k: int| 0 <= k < l.len() ==> #[trigger] l[k] < bound,
    ensures
        insert_by_votes(cs, l, i).len() == l.len() + 1,
        forall|k: int|
            0 <= k < insert_by_votes(cs, l, i).len() ==> #[trigger] insert_by_votes(cs, l, i)[k]
                < bound,
    decreases l.len(),
{
    if l.len() > 0 && !(cs[l[0] as int].votes < cs[i as int].votes) {
        let t = l.drop_first();
        assert forall|k: int| 0 <= k < t.len() implies #[trigger] t[k] < bound by {
            assert(t[k] == l[k + 1]);
        }
        lemma_insert_elems(cs, t, i, bound);
        let r = insert_by_votes(cs, l, i);
        assert forall|k: int| 0 <= k < r.len() implies #[trigger] r[k] < bound by {
            if k > 0 {
                assert(r[k] == insert_by_votes(cs, t, i)[k - 1]);
            }
        }
    } else if l.len() > 0 {
        let r = insert_by_votes(cs, l, i);
        assert forall|k: int| 0 <= k < r.len() implies #[trigger] r[k] < bound by {
            if k > 0 {
                assert(r[k] == l[k - 1]);
            }
        }
    }
}

pub proof fn lemma_sorted_in_range(cs: Seq<Confession>, n: nat)
    requires
        n <= usize::MAX + 1,
    ensures
        sorted_by_votes(cs, n).len() == n,
        forall|k: int| 0 <= k < sorted_by_votes(cs, n).len() ==> #[trigger] sorted_by_votes(cs, n)[k] < n,
    decreases n,
{
    if n > 0 {
        lemma_sorted_in_range(cs, (n - 1) as nat);
        let p = sorted_by_votes(cs, (n - 1) as nat);
        assert forall|k: int| 0 <= k < p.len() implies #[trigger] p[k] < n by {}
        lemma_insert_elems(cs, p, (n - 1) as usize, n);
    }
}

/// The camera candidates are indices of confessions.
pub proof fn lemma_candidates_in_range(cs: Seq<Confession>)
    requires
        cs.len() <= usize::MAX,
    ensures
        forall|k: int| 0 <= k < camera_candidates(cs).len() ==> #[trigger] camera_candidates(cs)[k] < cs.len(),
{
    lemma_sorted_in_range(cs, cs.len());
    let s = sorted_by_votes(cs, cs.len());
    if s.len() > CAMERA_CANDIDATES {
        assert forall|k: int| 0 <= k < camera_candidates(cs).len() implies #[trigger] camera_candidates(cs)[k] < cs.len() by {
            assert(camera_candidates(cs)[k] == s[k]);
        }
    }
}

/// Index order by votes, highest first and stable: the first `min(n, 50)` are the candidates.
fn candidates_by_votes(confessions: &[Confession]) -> (c: Vec<usize>)
    ensures
        c@ == camera_candidates(confessions@),
        forall|k: int| 0 <= k < c@.len() ==> #[trigger] c@[k] < confessions@.len(),
{
    let mut l: Vec<usize> = Vec::new();
    let mut i: usize = 0;
    while i < confessions.len()
        invariant
            i <= confessions.len(),
            l@ == sorted_by_votes(confessions@, i as nat),
            l@.len() == i,
            forall|k: int| 0 <= k < l@.len() ==> #[trigger] l@[k] < i,
        decreases confessions.len() - i,
    {
        let v = confessions[i].votes;
        let mut p: usize = 0;
        while p < l.len() && !(confessions[l[p]].votes < v)
            invariant
                p <= l.len(),
                l@.len() == i,
                i < confessions.len(),
                v == confessions@[i as int].votes,
                forall|k: int| 0 <= k < l@.len() ==> #[trigger] l@[k] < i,
                forall|k: int|
                    0 <= k < p ==> !(confessions@[#[trigger] l@[k] as int].votes < v),
            decreases l.len() - p,
        {
            p += 1;
        }
        proof {
            lemma_insert_at(confessions@, l@, i, p as int);
        }
        let ghost old_l = l@;
        l.insert(p, i);
        assert forall|k: int| 0 <= k < l@.len() implies #[trigger] l@[k] < i + 1 by {
            if k < p {
                assert(l@[k] == old_l[k]);
            } else if k > p {
                assert(l@[k] == old_l[k - 1]);
            }
        }
        i += 1;
    }
    if l.len() > CAMERA_CANDIDATES {
        l.truncate(CAMERA_CANDIDATES);
    }
    l
}

/// Where a new viewer's camera starts: centred on the candidate (among the 50 most
/// voted confessions, most voted first) whose view shows the most confessions, the
/// first such on ties; (0, 0) when no candidate view shows any; centred on the
/// origin when there are no confessions.
pub fn best_camera(confessions: &[Confession], width: u16, height: u16) -> (cam: (i64, i64))
    requires
        all_boxes_fit(confessions@),
        forall|i: int|
            0 <= i < confessions@.len() ==> camera_fits(
                #[trigger] confessions@[i],
                width as int,
                height as int,
            ),
    ensures
        cam.0 == best_camera_spec(confessions@, width as int, height as int).0,
        cam.1 == best_camera_spec(confessions@, width as int, height as int).1,
{
    if confessions.len() == 0 {
        return (-((width as i64) / 2), -((height as i64) / 2));
    }
    let mut best_x: i64 = 0;
    let mut best_y: i64 = 0;
    let mut best_count: usize = 0;
    let candidates = candidates_by_votes(confessions);
    let ghost cands = candidates@;
    let mut j: usize = 0;
    while j < candidates.len()
        invariant
            j <= candidates.len(),
            cands == candidates@,
            cands == camera_candidates(confessions@),
            forall|k: int| 0 <= k < cands.len() ==> #[trigger] cands[k] < confessions@.len(),
            all_boxes_fit(confessions@),
            forall|i: int|
                0 <= i < confessions@.len() ==> camera_fits(
                    #[trigger] confessions@[i],
                    width as int,
                    height as int,
                ),
            best_x == best_scan(confessions@, cands.take(j as int), width as int, height as int).0,
            best_y == best_scan(confessions@, cands.take(j as int), width as int, height as int).1,
            best_count == best_scan(confessions@, cands.take(j as int), width as int, height as int).2,
        decreases candidates.len() - j,
    {
        let idx = candidates[j];
        assert(idx < confessions@.len());
        let c = &confessions[idx];
        assert(camera_fits(confessions@[idx as int], width as int, height as int));
        let cam_x = c.x - (width as i64) / 2 + (BOX_WIDTH as i64) / 2;
        let cam_y = c.y - (height as i64) / 2 + 2;
        let count = visible_confessions(confessions, cam_x, cam_y, width, height).len();
        proof {
            assert(cands.take(j as int + 1).drop_last() =~= cands.take(j as int));
            assert(cands.take(j as int + 1).last() == idx);
        }
        if count > best_count {
            best_count = count;
            best_x = cam_x;
            best_y = cam_y;
        }
        j += 1;
    }
    assert(cands.take(candidates.len() as int) =~= cands);
    (best_x, best_y)
}

/* Checks that callers make before handing confessions over. */

/// Whether every box can be measured and its far corner computed (`all_boxes_fit`).
pub fn boxes_fit(cs: &[Confession]) -> (b: bool)
    ensures
        b == all_boxes_fit(cs@),
{
    let mut i: usize = 0;
    while i < cs.len()
        invariant
            i <= cs@.len(),
            forall|j: int| 0 <= j < i ==> box_fits(#[trigger] cs@[j]),
        decreases cs.len() - i,
    {
        let c = &cs[i];
        if !height_fits(c.text.as_str()) {
            assert(!box_fits(cs@[i as int]));
            return false;
        }
        let h = confession_height(c.text.as_str());
        if c.x as i128 + BOX_WIDTH as i128 > i64::MAX as i128 || c.y as i128 + h as i128
            > i64::MAX as i128 {
            assert(!box_fits(cs@[i as int]));
            return false;
        }
        i += 1;
    }
    true
}

/// Whether every confession leaves room to place a new one around it (`placement_fits`).
pub fn placements_fit(cs: &[Confession]) -> (b: bool)
    ensures
        b == forall|i: int| 0 <= i < cs@.len() ==> placement_fits(#[trigger] cs@[i]),
{
    let mut i: usize = 0;
    while i < cs.len()
        invariant
            i <= cs@.len(),
            forall|j: int| 0 <= j < i ==> placement_fits(#[trigger] cs@[j]),
        decreases cs.len() - i,
    {
        let c = &cs[i];
        if !height_fits(c.text.as_str()) {
            assert(!placement_fits(cs@[i as int]));
            return false;
        }
        let h = confession_height(c.text.as_str());
        if c.x as i128 + BOX_WIDTH as i128 + PLACE_PADDING as i128 > i64::MAX as i128 || c.y as i128
            + h as i128 + PLACE_PADDING as i128 + 2 > i64::MAX as i128 {
            assert(!placement_fits(cs@[i as int]));
            return false;
        }
        i += 1;
    }
    true
}

/// Whether a camera centred on any confession, with a view of `width` by `height`,
/// can be computed (`camera_fits`).
pub fn cameras_fit(cs: &[Confession], width: u16, height: u16) -> (b: bool)
    ensures
        b == forall|i: int|
            0 <= i < cs@.len() ==> camera_fits(#[trigger] cs@[i], width as int, height as int),
{
    let lo = i64::MIN as i128;
    let hi = i64::MAX as i128;
    let hw = (width / 2) as i128;
    let hh = (height / 2) as i128;
    let mut i: usize = 0;
    while i < cs.len()
        invariant
            i <= cs@.len(),
            lo == i64::MIN,
            hi == i64::MAX,
            hw == width / 2,
            hh == height / 2,
            forall|j: int|
                0 <= j < i ==> camera_fits(#[trigger] cs@[j], width as int, height as int),
        decreases cs.len() - i,
    {
        let c = &cs[i];
        let x = c.x as i128;
        let y = c.y as i128;
        if x - hw < lo || y - hh < lo || x - hw + BOX_WIDTH as i128 / 2 + width as i128 > hi || y - hh
            + 2 + height as i128 > hi {
            assert(!camera_fits(cs@[i as int], width as int, height as int));
            return false;
        }
        i += 1;
    }
    true
}

/* Laws of the view and of the starting camera. */

proof fn lemma_visible_prefix_complete(
    cs: Seq<Confession>,
    n: nat,
    i: int,
    cam_x: int,
    cam_y: int,
    width: int,
    height: int,
)
    requires
        0 <= i < n <= cs.len(),
        n <= usize::MAX,
    ensures
        visible_prefix(cs, n, cam_x, cam_y, width, height).contains(i as usize) <==> is_visible(
            cs[i],
            cam_x,
            cam_y,
            width,
            height,
        ),
    decreases n,
{
    let p = visible_prefix(cs, (n - 1) as nat, cam_x, cam_y, width, height);
    let r = visible_prefix(cs, n, cam_x, cam_y, width, height);
    lemma_visible_prefix_props(cs, (n - 1) as nat, cam_x, cam_y, width, height);
    if i < n - 1 {
        lemma_visible_prefix_complete(cs, (n - 1) as nat, i, cam_x, cam_y, width, height);
        if is_visible(cs[n - 1], cam_x, cam_y, width, height) {
            if r.contains(i as usize) {
                let k = choose|k: int| 0 <= k < r.len() && r[k] == i as usize;
                if k < p.len() {
                    assert(r[k] == p[k]);
                }
                assert(p.contains(i as usize));
            }
            if p.contains(i as usize) {
                let k = choose|k: int| 0 <= k < p.len() && p[k] == i as usize;
                assert(r[k] == p[k]);
            }
        }
    } else {
        if is_visible(cs[n - 1], cam_x, cam_y, width, height) {
            assert(r[r.len() - 1] == (n - 1) as usize);
        } else {
            if r.contains(i as usize) {
                let k = choose|k: int| 0 <= k < r.len() && r[k] == i as usize;
                assert(p[k] < n - 1);
            }
        }
    }
}

/// The view lists each confession whose box meets it, and no other, each once and in
/// index order.
pub proof fn law_visible_exactly(
    cs: Seq<Confession>,
    cam_x: int,
    cam_y: int,
    width: int,
    height: int,
)
    requires
        cs.len() <= usize::MAX,
    ensures
        forall|i: int|
            0 <= i < cs.len() ==> (visible_list(cs, cam_x, cam_y, width, height).contains(
                i as usize,
            ) <==> is_visible(#[trigger] cs[i], cam_x, cam_y, width, height)),
        forall|k: int|
            0 <= k < visible_list(cs, cam_x, cam_y, width, height).len() ==> #[trigger] visible_list(
                cs,
                cam_x,
                cam_y,
                width,
                height,
            )[k] < cs.len(),
        forall|k1: int, k2: int|
            0 <= k1 < k2 < visible_list(cs, cam_x, cam_y, width, height).len() ==> #[trigger] visible_list(
                cs,
                cam_x,
                cam_y,
                width,
                height,
            )[k1] < #[trigger] visible_list(cs, cam_x, cam_y, width, height)[k2],
{
    lemma_visible_prefix_props(cs, cs.len(), cam_x, cam_y, width, height);
    assert forall|i: int| 0 <= i < cs.len() implies (visible_list(
        cs,
        cam_x,
        cam_y,
        width,
        height,
    ).contains(i as usize) <==> is_visible(#[trigger] cs[i], cam_x, cam_y, width, height)) by {
        lemma_visible_prefix_complete(cs, cs.len(), i, cam_x, cam_y, width, height);
    }
}

/// `l` lists confessions by votes, highest first, and in index order among equal votes.
pub open spec fn ranked_by_votes(cs: Seq<Confession>, l: Seq<usize>) -> bool {
    forall|a: int, b: int|
        0 <= a < b < l.len() ==> {
            ||| cs[#[trigger] l[a] as int].votes > cs[#[trigger] l[b] as int].votes
            ||| (cs[l[a] as int].votes == cs[l[b] as int].votes && l[a] < l[b])
        }
}

proof fn lemma_insert_keeps(cs: Seq<Confession>, l: Seq<usize>, i: usize, p: spec_fn(usize) -> bool)
    requires
        forall|k: int| 0 <= k < l.len() ==> p(#[trigger] l[k]),
        p(i),
    ensures
        forall|k: int|
            0 <= k < insert_by_votes(cs, l, i).len() ==> p(#[trigger] insert_by_votes(cs, l, i)[k]),
        insert_by_votes(cs, l, i).contains(i),
        forall|x: usize| l.contains(x) ==> insert_by_votes(cs, l, i).contains(x),
    decreases l.len(),
{
    let r = insert_by_votes(cs, l, i);
    if l.len() == 0 {
        assert(r[0] == i);
    } else if cs[l[0] as int].votes < cs[i as int].votes {
        assert(r[0] == i);
        assert forall|k: int| 0 <= k < r.len() implies p(#[trigger] r[k]) by {
            if k > 0 {
                assert(r[k] == l[k - 1]);
            }
        }
        assert forall|x: usize| l.contains(x) implies r.contains(x) by {
            let k = choose|k: int| 0 <= k < l.len() && l[k] == x;
            assert(r[k + 1] == l[k]);
        }
    } else {
        let t = l.drop_first();
        assert forall|k: int| 0 <= k < t.len() implies p(#[trigger] t[k]) by {
            assert(t[k] == l[k + 1]);
        }
        lemma_insert_keeps(cs, t, i, p);
        let rt = insert_by_votes(cs, t, i);
        assert(r == seq![l[0]] + rt);
        assert forall|k: int| 0 <= k < r.len() implies p(#[trigger] r[k]) by {
            if k > 0 {
                assert(r[k] == rt[k - 1]);
            }
        }
        let j = choose|j: int| 0 <= j < rt.len() && rt[j] == i;
        assert(r[j + 1] == rt[j]);
        assert forall|x: usize| l.contains(x) implies r.contains(x) by {
            let k = choose|k: int| 0 <= k < l.len() && l[k] == x;
            if k == 0 {
                assert(r[0] == x);
            } else {
                assert(t[k - 1] == x);
                assert(t.contains(x));
                let m = choose|m: int| 0 <= m < rt.len() && rt[m] == x;
                assert(r[m + 1] == rt[m]);
            }
        }
    }
}

proof fn lemma_insert_ranked(cs: Seq<Confession>, l: Seq<usize>, i: usize)
    requires
        ranked_by_votes(cs, l),
        forall|k: int| 0 <= k < l.len() ==> #[trigger] l[k] < i,
    ensures
        ranked_by_votes(cs, insert_by_votes(cs, l, i)),
    decreases l.len(),
{
    let r = insert_by_votes(cs, l, i);
    if l.len() == 0 {
    } else if cs[l[0] as int].votes < cs[i as int].votes {
        assert forall|a: int, b: int| 0 <= a < b < r.len() implies {
            ||| cs[#[trigger] r[a] as int].votes > cs[#[trigger] r[b] as int].votes
            ||| (cs[r[a] as int].votes == cs[r[b] as int].votes && r[a] < r[b])
        } by {
            assert(r[b] == l[b - 1]);
            if a > 0 {
                assert(r[a] == l[a - 1]);
            } else if b > 1 {
                assert(cs[l[0] as int].votes > cs[l[b - 1] as int].votes || cs[l[0] as int].votes
                    == cs[l[b - 1] as int].votes);
            }
        }
    } else {
        let t = l.drop_first();
        assert(ranked_by_votes(cs, t)) by {
            assert forall|a: int, b: int| 0 <= a < b < t.len() implies {
                ||| cs[#[trigger] t[a] as int].votes > cs[#[trigger] t[b] as int].votes
                ||| (cs[t[a] as int].votes == cs[t[b] as int].votes && t[a] < t[b])
            } by {
                assert(t[a] == l[a + 1] && t[b] == l[b + 1]);
            }
        }
        assert forall|k: int| 0 <= k < t.len() implies #[trigger] t[k] < i by {
            assert(t[k] == l[k + 1]);
        }
        lemma_insert_ranked(cs, t, i);
        let rt = insert_by_votes(cs, t, i);
        let head = l[0];
        let after_head = |x: usize|
            cs[head as int].votes > cs[x as int].votes || (cs[head as int].votes
                == cs[x as int].votes && head < x);
        assert forall|k: int| 0 <= k < t.len() implies after_head(#[trigger] t[k]) by {
            assert(t[k] == l[k + 1]);
        }
        lemma_insert_keeps(cs, t, i, after_head);
        assert(r == seq![head] + rt);
        assert forall|a: int, b: int| 0 <= a < b < r.len() implies {
            ||| cs[#[trigger] r[a] as int].votes > cs[#[trigger] r[b] as int].votes
            ||| (cs[r[a] as int].votes == cs[r[b] as int].votes && r[a] < r[b])
        } by {
            assert(r[b] == rt[b - 1]);
            if a > 0 {
                assert(r[a] == rt[a - 1]);
            } else {
                assert(after_head(rt[b - 1]));
            }
        }
    }
}

proof fn lemma_sorted_ranked(cs: Seq<Confession>, n: nat)
    requires
        n <= usize::MAX + 1,
    ensures
        ranked_by_votes(cs, sorted_by_votes(cs, n)),
        forall|j: usize| j < n ==> #[trigger] sorted_by_votes(cs, n).contains(j),
    decreases n,
{
    if n > 0 {
        let m = (n - 1) as nat;
        lemma_sorted_ranked(cs, m);
        lemma_sorted_in_range(cs, m);
        let p = sorted_by_votes(cs, m);
        lemma_insert_ranked(cs, p, m as usize);
        lemma_insert_keeps(cs, p, m as usize, |x: usize| true);
        assert forall|j: usize| j < n implies #[trigger] sorted_by_votes(cs, n).contains(j) by {
            if j < m {
                assert(p.contains(j));
            }
        }
    }
}

/// The camera candidates are the most voted confessions, highest first and in index
/// order among equal votes: at most `CAMERA_CANDIDATES` of them, each confession at
/// most once, and no confession left out has more votes than any candidate.
pub proof fn law_candidates_most_voted(cs: Seq<Confession>)
    requires
        cs.len() <= usize::MAX,
    ensures
        ranked_by_votes(cs, camera_candidates(cs)),
        camera_candidates(cs).len() == if cs.len() <= CAMERA_CANDIDATES {
            cs.len()
        } else {
            CAMERA_CANDIDATES as nat
        },
        forall|k: int|
            0 <= k < camera_candidates(cs).len() ==> #[trigger] camera_candidates(cs)[k] < cs.len(),
        forall|j: int, k: int|
            0 <= j < cs.len() && 0 <= k < camera_candidates(cs).len() && !camera_candidates(
                cs,
            ).contains(j as usize) ==> #[trigger] cs[j].votes <= #[trigger] cs[camera_candidates(cs)[k] as int].votes,
{
    let n = cs.len();
    let s = sorted_by_votes(cs, n);
    let c = camera_candidates(cs);
    lemma_sorted_in_range(cs, n);
    lemma_sorted_ranked(cs, n);
    lemma_candidates_in_range(cs);
    assert(ranked_by_votes(cs, c)) by {
        assert forall|a: int, b: int| 0 <= a < b < c.len() implies {
            ||| cs[#[trigger] c[a] as int].votes > cs[#[trigger] c[b] as int].votes
            ||| (cs[c[a] as int].votes == cs[c[b] as int].votes && c[a] < c[b])
        } by {
            assert(c[a] == s[a] && c[b] == s[b]);
        }
    }
    assert forall|j: int, k: int|
        0 <= j < cs.len() && 0 <= k < c.len() && !c.contains(j as usize) implies #[trigger] cs[j].votes
        <= #[trigger] cs[c[k] as int].votes by {
        assert(s.contains(j as usize));
        let m = choose|m: int| 0 <= m < s.len() && s[m] == j as usize;
        if m < c.len() {
            assert(c[m] == s[m]);
        }
        assert(c[k] == s[k]);
        assert(k < m);
    }
}

proof fn lemma_best_scan_is_best(cs: Seq<Confession>, cands: Seq<usize>, width: int, height: int)
    ensures
        ({
            let r = best_scan(cs, cands, width, height);
            &&& forall|k: int|
                0 <= k < cands.len() ==> visible_list(
                    cs,
                    camera_on(cs[#[trigger] cands[k] as int], width, height).0,
                    camera_on(cs[cands[k] as int], width, height).1,
                    width,
                    height,
                ).len() <= r.2
            &&& r.2 > 0 ==> visible_list(cs, r.0, r.1, width, height).len() == r.2
        }),
    decreases cands.len(),
{
    if cands.len() > 0 {
        let d = cands.drop_last();
        lemma_best_scan_is_best(cs, d, width, height);
        let prev = best_scan(cs, d, width, height);
        let r = best_scan(cs, cands, width, height);
        assert(prev.2 <= r.2);
        assert forall|k: int| 0 <= k < cands.len() implies visible_list(
            cs,
            camera_on(cs[#[trigger] cands[k] as int], width, height).0,
            camera_on(cs[cands[k] as int], width, height).1,
            width,
            height,
        ).len() <= r.2 by {
            if k < d.len() {
                assert(d[k] == cands[k]);
            } else {
                assert(cands[k] == cands.last());
            }
        }
    }
}

/// No candidate camera shows more confessions than the one a viewer starts at.
pub proof fn law_best_camera_shows_most(cs: Seq<Confession>, width: int, height: int)
    requires
        cs.len() > 0,
    ensures
        forall|k: int|
            0 <= k < camera_candidates(cs).len() ==> visible_list(
                cs,
                camera_on(cs[#[trigger] camera_candidates(cs)[k] as int], width, height).0,
                camera_on(cs[camera_candidates(cs)[k] as int], width, height).1,
                width,
                height,
            ).len() <= visible_list(
                cs,
                best_camera_spec(cs, width, height).0,
                best_camera_spec(cs, width, height).1,
                width,
                height,
            ).len(),
{
    lemma_best_scan_is_best(cs, camera_candidates(cs), width, height);
}


/* Placing a new confession. */

#[verifier::external_type_specification]
#[verifier::external_body]
pub struct ExThreadRng(rand::rngs::ThreadRng);

/// A handle on the thread-local random number generator.
/// Trusted: calls `rand::rng()`; nothing is claimed of the generator's state
/// (it panics only if the operating system's entropy source fails while seeding).
#[verifier::external_body]
fn thread_rng() -> rand::rngs::ThreadRng {
    rand::rng()
}

/// A random integer in `lo..=hi`.
/// Trusted: calls `RngExt::random_range` with the inclusive range `lo..=hi`; the
/// source samples within the bounds and panics only when the range is empty.
/// Which value comes out is left open.
#[verifier::external_body]
fn random_in(rng: &mut rand::rngs::ThreadRng, lo: i64, hi: i64) -> (r: i64)
    requires
        lo <= hi,
    ensures
        lo <= r <= hi,
{
    rand::RngExt::random_range(rng, lo..=hi)
}

/// `r` is the integer square root of `m`.
pub open spec fn is_isqrt(m: nat, r: nat) -> bool {
    r * r <= m < (r + 1) * (r + 1)
}

pub proof fn lemma_isqrt_unique(m: nat, r1: nat, r2: nat)
    requires
        is_isqrt(m, r1),
        is_isqrt(m, r2),
    ensures
        r1 == r2,
{
    if r1 < r2 {
        assert((r1 + 1) * (r1 + 1) <= r2 * r2) by (nonlinear_arith)
            requires
                r1 + 1 <= r2,
        ;
    } else if r2 < r1 {
        assert((r2 + 1) * (r2 + 1) <= r1 * r1) by (nonlinear_arith)
            requires
                r2 + 1 <= r1,
        ;
    }
}

/// ⌊√m⌋.
pub open spec fn isqrt(m: nat) -> nat {
    choose|r: nat| is_isqrt(m, r)
}

/// Integer square root by bisection.
fn isqrt_exec(m: u128) -> (r: u128)
    requires
        m < 0x1_0000_0000_0000_0000_0000,
    ensures
        is_isqrt(m as nat, r as nat),
        r == isqrt(m as nat),
{
    let mut lo: u128 = 0;
    let mut hi: u128 = 0x100_0000_0000;
    assert(hi * hi > m) by (nonlinear_arith)
        requires
            hi == 0x100_0000_0000u128,
            m < 0x1_0000_0000_0000_0000_0000,
    ;
    while hi - lo > 1
        invariant
            lo < hi <= 0x100_0000_0000,
            lo * lo <= m,
            m < hi * hi,
        decreases hi - lo,
    {
        let mid = lo + (hi - lo) / 2;
        assert(mid * mid <= 0x100_0000_0000u128 * 0x100_0000_0000u128) by (nonlinear_arith)
            requires
                mid <= 0x100_0000_0000u128,
        ;
        if mid * mid <= m {
            lo = mid;
        } else {
            hi = mid;
        }
    }
    assert(hi == lo + 1);
    proof {
        assert(is_isqrt(m as nat, lo as nat));
        lemma_isqrt_unique(m as nat, lo as nat, isqrt(m as nat));
    }
    lo
}

/// Columns of the scatter area for `n` confessions: ⌊1.5·√n⌋ = ⌊√(9n)⌋ / 2, at least 3.
pub open spec fn spread_cols(n: nat) -> int {
    let c = isqrt(9 * n) / 2;
    if c < 3 {
        3
    } else {
        c as int
    }
}

/// The bottom edge of the lowest confession box, or 0 when there are none.
pub open spec fn lowest_bottom(cs: Seq<Confession>, n: nat) -> Option<int>
    decreases n,
{
    if n == 0 {
        None
    } else {
        let b = cs[n - 1].y + box_height(cs[n - 1].text@);
        match lowest_bottom(cs, (n - 1) as nat) {
            None => Some(b),
            Some(m) => Some(if m < b {
                b
            } else {
                m
            }),
        }
    }
}

pub open spec fn max_bottom(cs: Seq<Confession>) -> int {
    match lowest_bottom(cs, cs.len()) {
        Some(m) => m,
        None => 0,
    }
}

/// Spacing kept around a new box.
pub const PLACE_PADDING: i64 = 2;

/// How many random spots are tried before falling back below everything.
pub const PLACE_ATTEMPTS: i64 = 300;

/// The sums formed while placing a box near `c` stay within `i64`.
pub open spec fn placement_fits(c: Confession) -> bool {
    &&& height_ok(c.text@)
    &&& c.x + BOX_WIDTH + PLACE_PADDING <= i64::MAX
    &&& c.y + box_height(c.text@) + PLACE_PADDING + 2 <= i64::MAX
}

pub proof fn lemma_lowest_bottom(cs: Seq<Confession>, n: nat)
    requires
        n <= cs.len(),
    ensures
        forall|i: int|
            0 <= i < n ==> (lowest_bottom(cs, n) matches Some(m) && #[trigger] cs[i].y + box_height(cs[i].text@) <= m),
        n > 0 ==> lowest_bottom(cs, n) is Some,
        n > 0 ==> exists|i: int| 0 <= i < n && lowest_bottom(cs, n) == Some(#[trigger] cs[i].y + box_height(cs[i].text@)),
    decreases n,
{
    if n > 0 {
        lemma_lowest_bottom(cs, (n - 1) as nat);
        let b = cs[n - 1].y + box_height(cs[n - 1].text@);
        if n > 1 {
            let i0 = choose|i: int| 0 <= i < n - 1 && lowest_bottom(cs, (n - 1) as nat) == Some(#[trigger] cs[i].y + box_height(cs[i].text@));
            match lowest_bottom(cs, (n - 1) as nat) {
                Some(m) => {
                    if m < b {
                        assert(lowest_bottom(cs, n) == Some(cs[n - 1].y + box_height(cs[n - 1].text@)));
                    } else {
                        assert(lowest_bottom(cs, n) == Some(cs[i0].y + box_height(cs[i0].text@)));
                    }
                },
                None => {},
            }
        } else {
            assert(lowest_bottom(cs, n) == Some(cs[n - 1].y + box_height(cs[n - 1].text@)));
        }
    }
}

/// Some integer square root exists for every `m`.
proof fn lemma_some_isqrt(m: nat) -> (r: nat)
    ensures
        is_isqrt(m, r),
    decreases m,
{
    if m == 0 {
        assert(is_isqrt(0, 0)) by (nonlinear_arith);
        0
    } else {
        let r0 = lemma_some_isqrt((m - 1) as nat);
        if (r0 + 1) * (r0 + 1) <= m {
            let r1 = r0 + 1;
            assert(m < (r1 + 1) * (r1 + 1)) by (nonlinear_arith)
                requires
                    r1 == r0 + 1,
                    r1 * r1 <= m,
                    m - 1 < r1 * r1,
            ;
            assert(is_isqrt(m, r1));
            r1
        } else {
            assert(r0 * r0 <= m);
            assert(is_isqrt(m, r0));
            r0
        }
    }
}

/// The scatter area never gets wider than 2^33 columns.
proof fn lemma_spread_cols_bound(n: nat)
    requires
        n <= usize::MAX,
    ensures
        3 <= spread_cols(n) <= 0x2_0000_0000,
{
    let witness = lemma_some_isqrt(9 * n);
    assert(is_isqrt(9 * n, witness));
    let r = isqrt(9 * n);
    assert(is_isqrt(9 * n, r));
    assert(r <= 0x3_0000_0000) by (nonlinear_arith)
        requires
            r * r <= 9 * n,
            n <= 0xffff_ffff_ffff_ffff,
    ;
}

/// Draw `k` of a placement lies in its area: a square centred on the origin, as wide
/// as the scatter columns allow, widened by 46 cells every 30 draws.
pub open spec fn draw_ok(n: nat, k: int, d: (i64, i64)) -> bool {
    let extra = (k / 30) * (BOX_WIDTH + 4);
    let sx = spread_cols(n) * (BOX_WIDTH + PLACE_PADDING + 4) + extra;
    let sy = spread_cols(n) * 8 + extra;
    &&& -(sx / 2) <= d.0 <= sx / 2
    &&& -(sy / 2) <= d.1 <= sy / 2
}

/// The random values a placement among `n` confessions uses: `PLACE_ATTEMPTS` spots,
/// each in its area, and a fallback column within the scatter width.
pub open spec fn draws_ok(n: nat, draws: Seq<(i64, i64)>, fallback_x: i64) -> bool {
    &&& draws.len() == PLACE_ATTEMPTS
    &&& forall|k: int| 0 <= k < draws.len() ==> draw_ok(n, k, #[trigger] draws[k])
    &&& 0 <= fallback_x < spread_cols(n) * (BOX_WIDTH + PLACE_PADDING + 4)
}

/// The first of the draws from `k` on where a box of height `h` crowds no confession.
pub open spec fn first_free(cs: Seq<Confession>, draws: Seq<(i64, i64)>, h: int, k: nat) -> Option<nat>
    decreases draws.len() - k,
{
    if k >= draws.len() {
        None
    } else if !crowds_any(cs, draws[k as int].0 as int, draws[k as int].1 as int, BOX_WIDTH as int, h, PLACE_PADDING as int) {
        Some(k)
    } else {
        first_free(cs, draws, h, k + 1)
    }
}

/// Where a box of height `h` goes: the first draw that crowds no confession, or else
/// the fallback column, four rows below the lowest box.
pub open spec fn placement(cs: Seq<Confession>, h: int, draws: Seq<(i64, i64)>, fallback_x: i64) -> (int, int) {
    match first_free(cs, draws, h, 0) {
        Some(k) => (draws[k as int].0 as int, draws[k as int].1 as int),
        None => (fallback_x as int, max_bottom(cs) + PLACE_PADDING + 2),
    }
}

pub proof fn lemma_first_free(cs: Seq<Confession>, draws: Seq<(i64, i64)>, h: int, k: nat)
    ensures
        first_free(cs, draws, h, k) matches Some(j) ==> k <= j < draws.len() && !crowds_any(
            cs,
            draws[j as int].0 as int,
            draws[j as int].1 as int,
            BOX_WIDTH as int,
            h,
            PLACE_PADDING as int,
        ),
    decreases draws.len() - k,
{
    if k < draws.len() {
        lemma_first_free(cs, draws, h, k + 1);
    }
}

/// Places a new confession of text `new_text` from random values drawn beforehand:
/// the first of the `draws` whose box keeps two cells clear of every confession, or,
/// when none does, column `fallback_x` four rows below the lowest box.
pub fn place_from_draws(
    confessions: &[Confession],
    new_text: &str,
    draws: &[(i64, i64)],
    fallback_x: i64,
) -> (pos: (i64, i64))
    requires
        height_ok(new_text@),
        forall|i: int| 0 <= i < confessions@.len() ==> placement_fits(#[trigger] confessions@[i]),
        draws_ok(confessions@.len(), draws@, fallback_x),
    ensures
        (pos.0 as int, pos.1 as int) == placement(confessions@, box_height(new_text@), draws@, fallback_x),
        !crowds_any(
            confessions@,
            pos.0 as int,
            pos.1 as int,
            BOX_WIDTH as int,
            box_height(new_text@),
            PLACE_PADDING as int,
        ),
{
    let ghost n = confessions@.len();
    let ghost h = box_height(new_text@);
    proof {
        assert(confessions.len() == confessions@.len());
        lemma_spread_cols_bound(n);
    }
    let new_w = BOX_WIDTH as i64;
    let new_h = confession_height(new_text) as i64;
    let padding: i64 = PLACE_PADDING;
    let mut k: usize = 0;
    while k < draws.len()
        invariant
            k <= draws@.len(),
            n == confessions@.len(),
            h == box_height(new_text@),
            3 <= spread_cols(n) <= 0x2_0000_0000,
            draws_ok(n, draws@, fallback_x),
            new_w == BOX_WIDTH,
            new_h == h,
            new_h <= u16::MAX,
            padding == PLACE_PADDING,
            forall|i: int| 0 <= i < confessions@.len() ==> placement_fits(#[trigger] confessions@[i]),
            first_free(confessions@, draws@, h, 0) == first_free(confessions@, draws@, h, k as nat),
        decreases draws@.len() - k,
    {
        let (x, y) = draws[k];
        assert(draw_ok(n, k as int, draws@[k as int]));
        let ghost c = spread_cols(n);
        assert(0 <= (k as int) / 30 <= 9);
        assert(c * 48 <= 0x60_0000_0000) by (nonlinear_arith)
            requires
                c <= 0x2_0000_0000,
        ;
        assert(-0x40_0000_0000 <= x <= 0x40_0000_0000);
        assert(-0x40_0000_0000 <= y <= 0x40_0000_0000);
        if !overlaps_any(x, y, new_w, new_h, confessions, padding) {
            return (x, y);
        }
        k += 1;
    }
    let mut max_y: i64 = 0;
    let mut seen = false;
    let mut i: usize = 0;
    while i < confessions.len()
        invariant
            i <= confessions.len(),
            forall|k: int| 0 <= k < confessions@.len() ==> placement_fits(#[trigger] confessions@[k]),
            seen == (i > 0),
            seen ==> lowest_bottom(confessions@, i as nat) == Some(max_y as int),
            !seen ==> max_y == 0,
        decreases confessions.len() - i,
    {
        let c = &confessions[i];
        assert(placement_fits(confessions@[i as int]));
        let b = c.y + confession_height(&c.text) as i64;
        if !seen || max_y < b {
            max_y = b;
        }
        seen = true;
        i += 1;
    }
    proof {
        lemma_lowest_bottom(confessions@, confessions@.len());
        if confessions@.len() > 0 {
            let k = choose|k: int| 0 <= k < confessions@.len() && lowest_bottom(confessions@, confessions@.len()) == Some(#[trigger] confessions@[k].y + box_height(confessions@[k].text@));
            assert(placement_fits(confessions@[k]));
        }
    }
    let x = fallback_x;
    let y = max_y + padding + 2;
    proof {
        assert forall|k: int| 0 <= k < confessions@.len() implies !crowds(
            #[trigger] confessions@[k],
            x as int,
            y as int,
            BOX_WIDTH as int,
            box_height(new_text@),
            PLACE_PADDING as int,
        ) by {
            assert(confessions@[k].y + box_height(confessions@[k].text@) <= max_y);
        }
    }
    (x, y)
}

/// A random spot for a new confession of text `new_text`: `PLACE_ATTEMPTS` spots are
/// drawn (in a square area that grows with the number of confessions and every 30
/// draws) together with a fallback column, and `place_from_draws` picks among them.
/// Either way the new box crowds no existing one.
pub fn random_position(confessions: &[Confession], new_text: &str) -> (pos: (i64, i64))
    requires
        height_ok(new_text@),
        forall|i: int| 0 <= i < confessions@.len() ==> placement_fits(#[trigger] confessions@[i]),
    ensures
        exists|draws: Seq<(i64, i64)>, fallback_x: i64|
            draws_ok(confessions@.len(), draws, fallback_x) && (pos.0 as int, pos.1 as int)
                == #[trigger] placement(confessions@, box_height(new_text@), draws, fallback_x),
        !crowds_any(
            confessions@,
            pos.0 as int,
            pos.1 as int,
            BOX_WIDTH as int,
            box_height(new_text@),
            PLACE_PADDING as int,
        ),
{
    let mut rng = thread_rng();
    let n = confessions.len();
    let r = isqrt_exec(9 * (n as u128));
    assert(r < 0x4_0000_0000) by (nonlinear_arith)
        requires
            r * r <= 9 * (n as u128),
            n <= usize::MAX,
    ;
    let cols: i64 = if r / 2 < 3 {
        3
    } else {
        (r / 2) as i64
    };
    assert(cols == spread_cols(n as nat));
    let spread_x = cols * (BOX_WIDTH as i64 + PLACE_PADDING + 4);
    let spread_y = cols * 8;
    let mut draws: Vec<(i64, i64)> = Vec::new();
    let mut attempt: i64 = 0;
    while attempt < PLACE_ATTEMPTS
        invariant
            0 <= attempt <= PLACE_ATTEMPTS,
            draws@.len() == attempt,
            3 <= cols <= 0x2_0000_0000,
            cols == spread_cols(confessions@.len()),
            spread_x == cols * 48,
            spread_y == cols * 8,
            forall|k: int| 0 <= k < draws@.len() ==> draw_ok(confessions@.len(), k, #[trigger] draws@[k]),
        decreases PLACE_ATTEMPTS - attempt,
    {
        let q = attempt / 30;
        assert(0 <= q <= 9);
        let extra = q * (BOX_WIDTH as i64 + 4);
        assert(0 <= extra <= 9 * 46) by (nonlinear_arith)
            requires
                0 <= q <= 9,
                extra == q * 46,
        ;
        let sx = spread_x + extra;
        let sy = spread_y + extra;
        let x = random_in(&mut rng, -(sx / 2), sx / 2);
        let y = random_in(&mut rng, -(sy / 2), sy / 2);
        let ghost before = draws@;
        draws.push((x, y));
        assert forall|k: int| 0 <= k < draws@.len() implies draw_ok(confessions@.len(), k, #[trigger] draws@[k]) by {
            if k < before.len() {
                assert(draws@[k] == before[k]);
            }
        }
        attempt += 1;
    }
    let fallback_x = random_in(&mut rng, 0, spread_x - 1);
    let pos = place_from_draws(confessions, new_text, draws.as_slice(), fallback_x);
    assert(draws_ok(confessions@.len(), draws@, fallback_x));
    pos
}

} // verus!
