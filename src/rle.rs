use vstd::prelude::*;
use crate::glyph::{glyph_index, pixel_glyph_index, RAMP_LEN};

verus! {

/// A decoded RGB raster, row-major: pixel `(x, y)` is `pixels[y * width + x]`.
pub struct Raster {
    pub width: u32,
    pub height: u32,
    pub pixels: Vec<[u8; 3]>,
}

impl Raster {
    pub open spec fn wf(&self) -> bool {
        self.pixels@.len() == self.width * self.height
    }
}

/// One run of identical cells: `count` copies of glyph `ascii_idx` in `color`.
#[derive(Clone, Copy, Debug)]
pub struct RleRun {
    pub ascii_idx: u8,
    pub color: [u8; 3],
    pub count: u16,
}

/// A character-grid frame: `width` cells per row and the run-length
/// encoding of its cells, row-major.
#[derive(Clone, Debug)]
pub struct RleFrame {
    pub width: u16,
    pub runs: Vec<RleRun>,
}

/// What a grid cell shows: a glyph index and a colour.
pub type Cell = (u8, [u8; 3]);

/// The cells that a run stands for.
pub open spec fn run_cells(r: RleRun) -> Seq<Cell> {
    Seq::new(r.count as nat, |_i: int| (r.ascii_idx, r.color))
}

/// The cells of a run sequence, reconstructed one run after the other.
pub open spec fn expand_runs(runs: Seq<RleRun>) -> Seq<Cell>
    decreases runs.len(),
{
    if runs.len() == 0 {
        Seq::empty()
    } else {
        expand_runs(runs.drop_last()) + run_cells(runs.last())
    }
}

/// The canonical encoding of one row: a cell either lengthens the last run,
/// where that run shows the same glyph and colour, or starts a new run.
pub open spec fn encode_row(row: Seq<Cell>) -> Seq<RleRun>
    decreases row.len(),
{
    if row.len() == 0 {
        Seq::empty()
    } else {
        let prev = encode_row(row.drop_last());
        let c = row.last();
        if prev.len() > 0 && prev.last().ascii_idx == c.0 && prev.last().color == c.1 {
            prev.update(
                prev.len() - 1,
                RleRun { ascii_idx: c.0, color: c.1, count: (prev.last().count + 1) as u16 },
            )
        } else {
            prev.push(RleRun { ascii_idx: c.0, color: c.1, count: 1 })
        }
    }
}

/// Row `y` of a grid of rows of `w` cells.
pub open spec fn grid_row(cells: Seq<Cell>, w: nat, y: nat) -> Seq<Cell> {
    cells.subrange((y * w) as int, (y * w + w) as int)
}

/// The encoding of the first `h` rows: the rows' encodings one after the
/// other, so that no run spans two rows.
pub open spec fn encode_rows(cells: Seq<Cell>, w: nat, h: nat) -> Seq<RleRun>
    decreases h,
{
    if h == 0 {
        Seq::empty()
    } else {
        encode_rows(cells, w, (h - 1) as nat) + encode_row(grid_row(cells, w, (h - 1) as nat))
    }
}

/// The cells of a raster under a ramp of `ramp_len` glyphs.
pub open spec fn raster_cells(pixels: Seq<[u8; 3]>, ramp_len: nat) -> Seq<Cell> {
    pixels.map_values(|p: [u8; 3]| (glyph_index(p, ramp_len) as u8, p))
}

/// The frame that a raster encodes to under a ramp of `ramp_len` glyphs.
pub open spec fn raster_runs(img: Raster, ramp_len: nat) -> Seq<RleRun> {
    encode_rows(raster_cells(img.pixels@, ramp_len), img.width as nat, img.height as nat)
}

/// A row encoding that is maximal: every run holds a cell, two neighbouring
/// runs differ in glyph or colour, and the runs reproduce the row exactly.
pub open spec fn canonical_row(runs: Seq<RleRun>, row: Seq<Cell>) -> bool {
    &&& expand_runs(runs) == row
    &&& forall|j: int| 0 <= j < runs.len() ==> #[trigger] runs[j].count >= 1
    &&& forall|j: int|
        0 < j < runs.len() ==> !(runs[j - 1].ascii_idx == #[trigger] runs[j].ascii_idx
            && runs[j - 1].color == runs[j].color)
}

pub proof fn lemma_expand_append(a: Seq<RleRun>, b: Seq<RleRun>)
    ensures
        expand_runs(a + b) == expand_runs(a) + expand_runs(b),
    decreases b.len(),
{
    if b.len() == 0 {
        assert(a + b =~= a);
        assert(expand_runs(a) + expand_runs(b) =~= expand_runs(a));
    } else {
        assert((a + b).drop_last() =~= a + b.drop_last());
        lemma_expand_append(a, b.drop_last());
        assert((a + b).last() == b.last());
        assert(expand_runs(a) + expand_runs(b) =~= expand_runs(a) + expand_runs(b.drop_last())
            + run_cells(b.last()));
    }
}

/// The canonical encoding of a row is maximal and reproduces the row, and it
/// is empty exactly for the empty row.
pub proof fn lemma_encode_row(row: Seq<Cell>)
    requires
        row.len() <= 65535,
    ensures
        canonical_row(encode_row(row), row),
        (encode_row(row).len() == 0) == (row.len() == 0),
        forall|j: int|
            0 <= j < encode_row(row).len() ==> #[trigger] encode_row(row)[j].count <= row.len(),
    decreases row.len(),
{
    if row.len() > 0 {
        let prev = encode_row(row.drop_last());
        let c = row.last();
        lemma_encode_row(row.drop_last());
        assert(row.drop_last() + seq![c] =~= row);
        if prev.len() > 0 && prev.last().ascii_idx == c.0 && prev.last().color == c.1 {
            let last = prev.last();
            let nr = RleRun { ascii_idx: c.0, color: c.1, count: (last.count + 1) as u16 };
            let cur = prev.update(prev.len() - 1, nr);
            assert(encode_row(row) == cur);
            assert(cur.drop_last() =~= prev.drop_last());
            assert(cur.last() == nr);
            assert(run_cells(nr) =~= run_cells(last) + seq![c]);
            assert(expand_runs(prev) == expand_runs(prev.drop_last()) + run_cells(last));
            assert(expand_runs(cur) =~= expand_runs(prev) + seq![c]);
            assert forall|j: int| 0 < j < cur.len() implies !(cur[j - 1].ascii_idx
                == #[trigger] cur[j].ascii_idx && cur[j - 1].color == cur[j].color) by {
                assert(cur[j - 1] == prev[j - 1]);
                assert(prev[j].ascii_idx == cur[j].ascii_idx && prev[j].color == cur[j].color);
            }
            assert forall|j: int| 0 <= j < cur.len() implies #[trigger] cur[j].count >= 1
                && cur[j].count <= row.len() by {
                if j < cur.len() - 1 {
                    assert(cur[j] == prev[j]);
                } else {
                    assert(prev[j].count <= row.len() - 1);
                }
            }
        } else {
            let nr = RleRun { ascii_idx: c.0, color: c.1, count: 1 };
            let cur = prev.push(nr);
            assert(encode_row(row) == cur);
            assert(cur.drop_last() =~= prev);
            assert(run_cells(nr) =~= seq![c]);
            assert(expand_runs(cur) =~= expand_runs(prev) + seq![c]);
            assert forall|j: int| 0 < j < cur.len() implies !(cur[j - 1].ascii_idx
                == #[trigger] cur[j].ascii_idx && cur[j - 1].color == cur[j].color) by {
                assert(cur[j - 1] == prev[j - 1]);
                if j < cur.len() - 1 {
                    assert(cur[j] == prev[j]);
                }
            }
            assert forall|j: int| 0 <= j < cur.len() implies #[trigger] cur[j].count >= 1
                && cur[j].count <= row.len() by {
                if j < cur.len() - 1 {
                    assert(cur[j] == prev[j]);
                }
            }
        }
    } else {
        assert(row =~= Seq::<Cell>::empty());
    }
}

/// Reconstructing the cells from the runs of a frame reproduces the grid
/// exactly, whatever its size and content.
pub proof fn lemma_rle_round_trip(cells: Seq<Cell>, w: nat, h: nat)
    requires
        cells.len() == w * h,
        w <= 65535,
    ensures
        expand_runs(encode_rows(cells, w, h)) == cells,
{
    lemma_rle_round_trip_rows(cells, w, h, h);
    assert(h * w == w * h) by (nonlinear_arith);
    assert(cells.subrange(0, (h * w) as int) =~= cells);
}

proof fn lemma_rle_round_trip_rows(cells: Seq<Cell>, w: nat, k: nat, h: nat)
    requires
        cells.len() == w * h,
        k <= h,
        w <= 65535,
    ensures
        expand_runs(encode_rows(cells, w, k)) == cells.subrange(0, (k * w) as int),
    decreases k,
{
    if k > 0 {
        let kp = (k - 1) as nat;
        lemma_rle_round_trip_rows(cells, w, kp, h);
        let row = grid_row(cells, w, kp);
        assert(kp * w + w == k * w) by (nonlinear_arith)
            requires
                kp + 1 == k,
        ;
        assert(k * w <= w * h) by (nonlinear_arith)
            requires
                k <= h,
        ;
        lemma_encode_row(row);
        lemma_expand_append(encode_rows(cells, w, kp), encode_row(row));
        assert(cells.subrange(0, (kp * w) as int) + row =~= cells.subrange(0, (k * w) as int));
    } else {
        assert(cells.subrange(0, 0) =~= Seq::<Cell>::empty());
    }
}

} // verus!

verus! {

/// Whether two colours are equal, channel by channel.
pub fn same_color(a: [u8; 3], b: [u8; 3]) -> (r: bool)
    ensures
        r == (a == b),
{
    broadcast use vstd::array::group_array_axioms;

    let r = a[0] == b[0] && a[1] == b[1] && a[2] == b[2];
    if r {
        assert(a =~= b);
    }
    r
}

proof fn lemma_row_step(cells: Seq<Cell>, w: nat, y: nat, x: nat)
    requires
        x < w,
        y * w + w <= cells.len(),
    ensures
        cells.subrange((y * w) as int, (y * w + x + 1) as int).drop_last()
            == cells.subrange((y * w) as int, (y * w + x) as int),
        cells.subrange((y * w) as int, (y * w + x + 1) as int).last() == cells[(y * w + x) as int],
        cells.subrange((y * w) as int, (y * w + x + 1) as int).len() == x + 1,
{
    assert(cells.subrange((y * w) as int, (y * w + x + 1) as int).drop_last()
        =~= cells.subrange((y * w) as int, (y * w + x) as int));
}

/// Encodes a raster into a frame under a ramp of `ramp_len` glyphs: each
/// pixel becomes the cell (glyph index of its luminance, its colour), and the
/// cells are run-length encoded row by row, left to right, top to bottom.
pub fn encode_raster(img: &Raster, ramp_len: usize) -> (frame: RleFrame)
    requires
        img.wf(),
        img.width <= 65535,
        1 <= ramp_len <= 256,
    ensures
        frame.width == img.width,
        frame.runs@ == raster_runs(*img, ramp_len as nat),
        expand_runs(frame.runs@) == raster_cells(img.pixels@, ramp_len as nat),
{
    proof {
        lemma_rle_round_trip(
            raster_cells(img.pixels@, ramp_len as nat),
            img.width as nat,
            img.height as nat,
        );
    }
    let w: usize = img.width as usize;
    let h: usize = img.height as usize;
    let total: usize = img.pixels.len();
    let ghost cells = raster_cells(img.pixels@, ramp_len as nat);
    let mut runs: Vec<RleRun> = Vec::new();
    let mut y: usize = 0;
    while y < h
        invariant
            y <= h,
            w == img.width,
            h == img.height,
            w <= 65535,
            1 <= ramp_len <= 256,
            img.pixels@.len() == w * h,
            total == w * h,
            cells == raster_cells(img.pixels@, ramp_len as nat),
            runs@ == encode_rows(cells, w as nat, y as nat),
        decreases h - y,
    {
        let ghost base = runs@;
        assert(y * w + w <= w * h) by (nonlinear_arith)
            requires
                y < h,
        ;
        let row_start: usize = y * w;
        let mut x: usize = 0;
        while x < w
            invariant
                x <= w,
                y < h,
                w == img.width,
                h == img.height,
                w <= 65535,
                1 <= ramp_len <= 256,
                img.pixels@.len() == w * h,
                total == w * h,
                y * w + w <= w * h,
                row_start == y * w,
                cells == raster_cells(img.pixels@, ramp_len as nat),
                runs@ == base + encode_row(
                    cells.subrange((y * w) as int, (y * w + x) as int),
                ),
            decreases w - x,
        {
            let ghost prefix = cells.subrange((y * w) as int, (y * w + x) as int);
            let ghost next = cells.subrange((y * w) as int, (y * w + x + 1) as int);
            proof {
                lemma_row_step(cells, w as nat, y as nat, x as nat);
                lemma_encode_row(prefix);
            }
            let px = img.pixels[row_start + x];
            let idx = pixel_glyph_index(px, ramp_len);
            assert(next.last() == (idx, px));
            let n = runs.len();
            if x > 0 && runs[n - 1].ascii_idx == idx && same_color(runs[n - 1].color, px) {
                let ghost er = encode_row(prefix);
                assert(runs@[n - 1] == er.last());
                let last = runs[n - 1];
                let nr = RleRun { ascii_idx: idx, color: px, count: last.count + 1 };
                runs.set(n - 1, nr);
                assert(runs@ =~= base + er.update(er.len() - 1, nr));
            } else {
                let ghost er = encode_row(prefix);
                if x > 0 {
                    assert(runs@[n - 1] == er.last());
                }
                runs.push(RleRun { ascii_idx: idx, color: px, count: 1 });
                assert(runs@ =~= base + er.push(RleRun { ascii_idx: idx, color: px, count: 1 }));
            }
            x = x + 1;
        }
        assert(encode_rows(cells, w as nat, (y + 1) as nat) == base + encode_row(
            grid_row(cells, w as nat, y as nat),
        ));
        y = y + 1;
    }
    RleFrame { width: img.width as u16, runs }
}

/// Encodes a raster into a frame over `GLYPH_RAMP`.
pub fn convert_image_to_ascii(img: &Raster) -> (frame: RleFrame)
    requires
        img.wf(),
        img.width <= 65535,
    ensures
        frame.width == img.width,
        frame.runs@ == raster_runs(*img, RAMP_LEN as nat),
        expand_runs(frame.runs@) == raster_cells(img.pixels@, RAMP_LEN as nat),
{
    encode_raster(img, RAMP_LEN)
}

} // verus!

verus! {

proof fn lemma_encode_rows_prefix(cells: Seq<Cell>, w: nat, k: nat, h: nat)
    requires
        k <= h,
    ensures
        encode_rows(cells, w, k).len() <= encode_rows(cells, w, h).len(),
        encode_rows(cells, w, h).subrange(0, encode_rows(cells, w, k).len() as int)
            == encode_rows(cells, w, k),
    decreases h - k,
{
    if k < h {
        let hp = (h - 1) as nat;
        lemma_encode_rows_prefix(cells, w, k, hp);
        let a = encode_rows(cells, w, hp);
        let b = encode_row(grid_row(cells, w, hp));
        assert((a + b).subrange(0, encode_rows(cells, w, k).len() as int) =~= a.subrange(
            0,
            encode_rows(cells, w, k).len() as int,
        ));
    } else {
        assert(encode_rows(cells, w, h).subrange(0, encode_rows(cells, w, h).len() as int)
            =~= encode_rows(cells, w, h));
    }
}

/// Runs are maximal and never cross a row boundary: the runs of a frame
/// with index from `encode_rows(.., y).len()` up to `encode_rows(.., y + 1).len()`
/// are exactly the encoding of row `y`, which reproduces that row alone, with
/// runs of at least one cell and no two neighbours sharing glyph and colour.
pub proof fn lemma_runs_maximal(cells: Seq<Cell>, w: nat, h: nat, y: nat)
    requires
        cells.len() == w * h,
        w <= 65535,
        y < h,
    ensures
        encode_rows(cells, w, h).subrange(
            encode_rows(cells, w, y).len() as int,
            encode_rows(cells, w, y + 1).len() as int,
        ) == encode_row(grid_row(cells, w, y)),
        canonical_row(encode_row(grid_row(cells, w, y)), grid_row(cells, w, y)),
        grid_row(cells, w, y).len() == w,
{
    assert(y * w + w <= w * h) by (nonlinear_arith)
        requires
            y < h,
    ;
    lemma_encode_row(grid_row(cells, w, y));
    lemma_encode_rows_prefix(cells, w, y + 1, h);
    let all = encode_rows(cells, w, h);
    let a = encode_rows(cells, w, y);
    let b = encode_row(grid_row(cells, w, y));
    assert(encode_rows(cells, w, y + 1) == a + b);
    assert(all.subrange(a.len() as int, (a + b).len() as int) =~= (a + b).subrange(
        a.len() as int,
        (a + b).len() as int,
    ));
    assert((a + b).subrange(a.len() as int, (a + b).len() as int) =~= b);
}

} // verus!

verus! {

/// The index of the first cell of run `i`: the cells of the runs before it.
pub open spec fn run_start(runs: Seq<RleRun>, i: int) -> int {
    expand_runs(runs.take(i)).len() as int
}

proof fn lemma_run_start_step(runs: Seq<RleRun>, i: int)
    requires
        0 <= i < runs.len(),
    ensures
        run_start(runs, i + 1) == run_start(runs, i) + runs[i].count,
{
    assert(runs.take(i + 1).drop_last() =~= runs.take(i));
}

proof fn lemma_run_end_bound(runs: Seq<RleRun>, j: int)
    requires
        0 <= j < runs.len(),
    ensures
        run_start(runs, j) + runs[j].count <= expand_runs(runs).len(),
{
    lemma_run_start_step(runs, j);
    assert(runs.take(j + 1) + runs.skip(j + 1) =~= runs);
    lemma_expand_append(runs.take(j + 1), runs.skip(j + 1));
}

proof fn lemma_run_start_append(a: Seq<RleRun>, b: Seq<RleRun>, i: int)
    requires
        0 <= i <= a.len() + b.len(),
    ensures
        i <= a.len() ==> run_start(a + b, i) == run_start(a, i),
        i >= a.len() ==> run_start(a + b, i) == expand_runs(a).len() + run_start(
            b,
            i - a.len(),
        ),
{
    if i <= a.len() {
        assert((a + b).take(i) =~= a.take(i));
        if i == a.len() {
            assert(a.take(i) =~= a);
            assert(b.take(0) =~= Seq::<RleRun>::empty());
        }
    } else {
        assert((a + b).take(i) =~= a + b.take(i - a.len()));
        lemma_expand_append(a, b.take(i - a.len()));
    }
}

/// Every run holds at least one cell and starts and ends in the same row
/// of rows `w` cells wide.
pub open spec fn runs_within_rows(r: Seq<RleRun>, w: nat) -> bool {
    forall|i: int|
        0 <= i < r.len() ==> #[trigger] r[i].count >= 1 && run_start(r, i) / (w as int) == (
        run_start(r, i) + r[i].count - 1) / (w as int)
}

/// Two neighbouring runs of which the second does not start a row differ
/// in glyph or colour.
pub open spec fn runs_maximal(r: Seq<RleRun>, w: nat) -> bool {
    forall|i: int|
        0 <= i && i + 1 < r.len() && #[trigger] run_start(r, i + 1) % (w as int) != 0 ==> !(
        r[i].ascii_idx == r[i + 1].ascii_idx && r[i].color == r[i + 1].color)
}

/// Row `y` of rows `w` cells wide starts with a run.
pub open spec fn row_starts_run(r: Seq<RleRun>, w: nat, y: nat) -> bool {
    exists|i: int| 0 <= i < r.len() && #[trigger] run_start(r, i) == (y * w) as int
}

proof fn lemma_rows_bounded(cells: Seq<Cell>, w: nat, k: nat, h: nat)
    requires
        cells.len() == w * h,
        1 <= w <= 65535,
        k <= h,
    ensures
        expand_runs(encode_rows(cells, w, k)).len() == k * w,
        runs_within_rows(encode_rows(cells, w, k), w),
        runs_maximal(encode_rows(cells, w, k), w),
    decreases k,
{
    lemma_rle_round_trip_rows(cells, w, k, h);
    assert(k * w <= w * h) by (nonlinear_arith)
        requires
            k <= h,
    ;
    if k > 0 {
        let kp = (k - 1) as nat;
        lemma_rows_bounded(cells, w, kp, h);
        let a = encode_rows(cells, w, kp);
        let row = grid_row(cells, w, kp);
        let b = encode_row(row);
        let r = encode_rows(cells, w, k);
        assert(r == a + b);
        assert(kp * w + w == k * w) by (nonlinear_arith)
            requires
                kp + 1 == k,
        ;
        lemma_encode_row(row);
        assert(row.len() == w);
        assert forall|i: int| 0 <= i < r.len() implies {
            &&& #[trigger] r[i].count >= 1
            &&& run_start(r, i) / (w as int) == (run_start(r, i) + r[i].count - 1) / (w as int)
        } by {
            lemma_run_start_append(a, b, i);
            if i < a.len() {
                assert(r[i] == a[i]);
            } else {
                let j = i - a.len();
                assert(r[i] == b[j]);
                lemma_run_end_bound(b, j);
                let s = run_start(b, j);
                vstd::arithmetic::div_mod::lemma_fundamental_div_mod_converse(
                    (kp * w + s) as int,
                    w as int,
                    kp as int,
                    s as int,
                );
                vstd::arithmetic::div_mod::lemma_fundamental_div_mod_converse(
                    (kp * w + s + b[j].count - 1) as int,
                    w as int,
                    kp as int,
                    (s + b[j].count - 1) as int,
                );
            }
        }
        assert forall|i: int|
            0 <= i && i + 1 < r.len() && #[trigger] run_start(r, i + 1) % (w as int)
                != 0 implies !(r[i].ascii_idx == r[i + 1].ascii_idx && r[i].color == r[i
            + 1].color) by {
            lemma_run_start_append(a, b, i + 1);
            if i + 1 < a.len() {
                assert(r[i] == a[i] && r[i + 1] == a[i + 1]);
                assert(run_start(a, i + 1) % (w as int) != 0);
            } else if i + 1 == a.len() {
                assert(run_start(b, 0) == 0) by {
                    assert(b.take(0) =~= Seq::<RleRun>::empty());
                }
                vstd::arithmetic::div_mod::lemma_fundamental_div_mod_converse(
                    (kp * w) as int,
                    w as int,
                    kp as int,
                    0,
                );
            } else {
                let j = i - a.len();
                assert(r[i] == b[j] && r[i + 1] == b[j + 1]);
            }
        }
    }
}

/// Runs never cross a row boundary and are maximal, stated over run
/// positions: with `run_start` the index of a run's first cell, every run
/// holds at least one cell and starts and ends in the same row; two
/// neighbouring runs of which the second does not start a row differ in
/// glyph or colour; and every row starts a run.
pub proof fn lemma_runs_within_rows(cells: Seq<Cell>, w: nat, h: nat)
    requires
        cells.len() == w * h,
        1 <= w <= 65535,
    ensures
        runs_within_rows(encode_rows(cells, w, h), w),
        runs_maximal(encode_rows(cells, w, h), w),
        forall|y: nat| y < h ==> #[trigger] row_starts_run(encode_rows(cells, w, h), w, y),
{
    lemma_rows_bounded(cells, w, h, h);
    let r = encode_rows(cells, w, h);
    assert forall|y: nat| y < h implies #[trigger] row_starts_run(r, w, y) by {
        lemma_rows_bounded(cells, w, y, h);
        lemma_encode_rows_prefix(cells, w, y, h);
        lemma_encode_rows_prefix(cells, w, y + 1, h);
        let a = encode_rows(cells, w, y);
        assert(y * w + w <= w * h) by (nonlinear_arith)
            requires
                y < h,
        ;
        lemma_encode_row(grid_row(cells, w, y));
        assert(encode_rows(cells, w, y + 1) == a + encode_row(grid_row(cells, w, y)));
        assert(r.take(a.len() as int) == a);
        assert(y * w == w * y) by (nonlinear_arith);
        assert(run_start(r, a.len() as int) == (y * w) as int);
    }
}

} // verus!
