use vstd::prelude::*;

verus! {

/// Where one spectrum bin lands on the logarithmic frequency axis.
#[derive(Debug, Clone, Copy, PartialEq, Eq, Structural)]
pub enum BinPlacement {
    /// The bin's frequency lies outside the axis range: it writes no row and
    /// leaves the carried level as it was.
    Skipped,
    /// The bin maps to `row` rows below the top of the band, with quantized
    /// magnitude `level`.
    Mapped { row: u32, level: u8 },
}

/// A pixel with all four channels set to `level`.
pub open spec fn gray(level: u8) -> [u8; 4] {
    [level, level, level, level]
}

/// Level that the step-hold fill leaves on row `r` of the band, with the bins
/// from index `i` on still to come and `prev` the level carried so far: the
/// carried level is written on every row that the next mapped bin's row lies
/// beyond, and that bin's level is carried from then on.
pub open spec fn held_level(bins: Seq<BinPlacement>, i: int, r: int, prev: u8) -> u8
    decreases bins.len() - i,
{
    if i < 0 || i >= bins.len() {
        prev
    } else {
        match bins[i] {
            BinPlacement::Skipped => held_level(bins, i + 1, r, prev),
            BinPlacement::Mapped { row, level } => if row > r {
                prev
            } else {
                held_level(bins, i + 1, r, level)
            },
        }
    }
}

/// Level of row `r` of a column filled from `bins`, starting from level zero.
pub open spec fn column_level(bins: Seq<BinPlacement>, r: int) -> u8 {
    held_level(bins, 0, r, 0)
}

/// Fills one band-high column on the logarithmic axis: walking the bins in
/// order, every row above the next mapped bin's row takes the level carried
/// so far, then that bin's level is carried; rows below the last mapped bin
/// take the last level. Rows past `rows_per_band` are never written.
pub fn log_column(bins: &Vec<BinPlacement>, rows_per_band: u32) -> (col: Vec<[u8; 4]>)
    ensures
        col@.len() == rows_per_band,
        forall|r: int| 0 <= r < rows_per_band ==> #[trigger] col@[r] == gray(column_level(bins@, r)),
{
    let rows = rows_per_band as usize;
    let mut col: Vec<[u8; 4]> = Vec::new();
    let mut prev: u8 = 0;
    let mut i: usize = 0;
    while i < bins.len()
        invariant
            rows == rows_per_band,
            i <= bins.len(),
            col@.len() <= rows,
            forall|r: int| col@.len() <= r < rows ==> column_level(bins@, r) == #[trigger] held_level(bins@, i as int, r, prev),
            forall|r: int| 0 <= r < col@.len() ==> #[trigger] col@[r] == gray(column_level(bins@, r)),
        decreases bins.len() - i,
    {
        match bins[i] {
            BinPlacement::Skipped => {
                assert(forall|r: int| held_level(bins@, i as int, r, prev) == #[trigger] held_level(bins@, i + 1, r, prev));
            },
            BinPlacement::Mapped { row, level } => {
                let target = row as usize;
                while col.len() < target && col.len() < rows
                    invariant
                        rows == rows_per_band,
                        i < bins.len(),
                        bins@[i as int] == (BinPlacement::Mapped { row, level }),
                        target == row,
                        col@.len() <= rows,
                        forall|r: int| col@.len() <= r < rows ==> column_level(bins@, r) == #[trigger] held_level(bins@, i as int, r, prev),
                        forall|r: int| 0 <= r < col@.len() ==> #[trigger] col@[r] == gray(column_level(bins@, r)),
                    decreases rows - col@.len(),
                {
                    let ghost r = col@.len() as int;
                    assert(held_level(bins@, i as int, r, prev) == prev);
                    col.push([prev, prev, prev, prev]);
                }
                assert(forall|r: int| col@.len() <= r < rows ==> held_level(bins@, i as int, r, prev) == #[trigger] held_level(bins@, i + 1, r, level));
                prev = level;
            },
        }
        i = i + 1;
    }
    while col.len() < rows
        invariant
            rows == rows_per_band,
            i == bins.len(),
            col@.len() <= rows,
            forall|r: int| col@.len() <= r < rows ==> column_level(bins@, r) == #[trigger] held_level(bins@, i as int, r, prev),
            forall|r: int| 0 <= r < col@.len() ==> #[trigger] col@[r] == gray(column_level(bins@, r)),
        decreases rows - col@.len(),
    {
        let ghost r = col@.len() as int;
        assert(held_level(bins@, i as int, r, prev) == prev);
        col.push([prev, prev, prev, prev]);
    }
    col
}

proof fn lemma_skip_later(bins: Seq<BinPlacement>, k: int, i: int, r: int, prev: u8)
    requires
        0 <= k <= i <= bins.len(),
    ensures
        held_level(bins.insert(k, BinPlacement::Skipped), i + 1, r, prev) == held_level(bins, i, r, prev),
    decreases bins.len() - i,
{
    let ins = bins.insert(k, BinPlacement::Skipped);
    if i < bins.len() {
        assert(ins[i + 1] == bins[i]);
        match bins[i] {
            BinPlacement::Skipped => lemma_skip_later(bins, k, i + 1, r, prev),
            BinPlacement::Mapped { row, level } => lemma_skip_later(bins, k, i + 1, r, level),
        }
    }
}

proof fn lemma_skip_earlier(bins: Seq<BinPlacement>, k: int, i: int, r: int, prev: u8)
    requires
        0 <= i <= k <= bins.len(),
    ensures
        held_level(bins.insert(k, BinPlacement::Skipped), i, r, prev) == held_level(bins, i, r, prev),
    decreases k - i,
{
    let ins = bins.insert(k, BinPlacement::Skipped);
    if i == k {
        assert(ins[k] == BinPlacement::Skipped);
        lemma_skip_later(bins, k, k, r, prev);
    } else {
        assert(ins[i] == bins[i]);
        match bins[i] {
            BinPlacement::Skipped => lemma_skip_earlier(bins, k, i + 1, r, prev),
            BinPlacement::Mapped { row, level } => lemma_skip_earlier(bins, k, i + 1, r, level),
        }
    }
}

/// A bin outside the axis range, wherever it stands among the others,
/// changes no row of the column: it writes nothing and the level carried
/// past it is the one carried before it.
pub proof fn lemma_skipped_bin_changes_nothing(bins: Seq<BinPlacement>, k: int, r: int)
    requires
        0 <= k <= bins.len(),
    ensures
        column_level(bins.insert(k, BinPlacement::Skipped), r) == column_level(bins, r),
{
    lemma_skip_earlier(bins, k, 0, r, 0);
}

/// The mapped bins of `bins` come in order of their rows.
pub open spec fn rows_ordered(bins: Seq<BinPlacement>) -> bool {
    forall|i: int, j: int|
        0 <= i < j < bins.len() && bins[i] is Mapped && bins[j] is Mapped ==> (#[trigger] bins[i])->row
            <= (#[trigger] bins[j])->row
}

/// Level of the last mapped bin among `bins[0 .. n]` whose row is at most `r`,
/// or zero when there is none.
pub open spec fn last_level_at_or_above(bins: Seq<BinPlacement>, n: int, r: int) -> u8
    decreases n,
{
    if n <= 0 || n > bins.len() {
        0
    } else {
        match bins[n - 1] {
            BinPlacement::Mapped { row, level } if row <= r => level,
            _ => last_level_at_or_above(bins, n - 1, r),
        }
    }
}

proof fn lemma_carry_prefix(bins: Seq<BinPlacement>, i: int, r: int)
    requires
        0 <= i <= bins.len(),
        forall|j: int| 0 <= j < i && bins[j] is Mapped ==> (#[trigger] bins[j])->row <= r,
    ensures
        column_level(bins, r) == held_level(bins, i, r, last_level_at_or_above(bins, i, r)),
    decreases i,
{
    if i > 0 {
        lemma_carry_prefix(bins, i - 1, r);
    }
}

proof fn lemma_last_level_stays(bins: Seq<BinPlacement>, i: int, n: int, r: int)
    requires
        0 <= i <= n <= bins.len(),
        forall|j: int| i <= j < n && bins[j] is Mapped ==> (#[trigger] bins[j])->row > r,
    ensures
        last_level_at_or_above(bins, n, r) == last_level_at_or_above(bins, i, r),
    decreases n - i,
{
    if n > i {
        lemma_last_level_stays(bins, i, n - 1, r);
    }
}

/// When the mapped bins come in order of their rows, as they do for bins in
/// ascending frequency, the fill is a step function: every row holds the level
/// of the last bin mapped at or above it, and zero above the first one.
pub proof fn lemma_ordered_rows_step(bins: Seq<BinPlacement>, r: int)
    requires
        rows_ordered(bins),
    ensures
        column_level(bins, r) == last_level_at_or_above(bins, bins.len() as int, r),
{
    let k = if exists|j: int| 0 <= j < bins.len() && bins[j] is Mapped && (#[trigger] bins[j])->row > r {
        choose|j: int| 0 <= j < bins.len() && bins[j] is Mapped && (#[trigger] bins[j])->row > r && forall|m: int|
            0 <= m < j && bins[m] is Mapped ==> (#[trigger] bins[m])->row <= r
    } else {
        bins.len() as int
    };
    if exists|j: int| 0 <= j < bins.len() && bins[j] is Mapped && (#[trigger] bins[j])->row > r {
        let j0 = choose|j: int| 0 <= j < bins.len() && bins[j] is Mapped && (#[trigger] bins[j])->row > r;
        lemma_first_mapped_beyond(bins, r, j0);
    }
    lemma_carry_prefix(bins, k, r);
    lemma_last_level_stays(bins, k, bins.len() as int, r);
}

proof fn lemma_first_mapped_beyond(bins: Seq<BinPlacement>, r: int, j0: int)
    requires
        0 <= j0 < bins.len(),
        bins[j0] is Mapped,
        bins[j0]->row > r,
    ensures
        exists|j: int| 0 <= j < bins.len() && bins[j] is Mapped && (#[trigger] bins[j])->row > r && forall|m: int|
            0 <= m < j && bins[m] is Mapped ==> (#[trigger] bins[m])->row <= r,
    decreases j0,
{
    if exists|m: int| 0 <= m < j0 && bins[m] is Mapped && (#[trigger] bins[m])->row > r {
        let m = choose|m: int| 0 <= m < j0 && bins[m] is Mapped && (#[trigger] bins[m])->row > r;
        lemma_first_mapped_beyond(bins, r, m);
    }
}

/// Channel value taken from bin `j`: its level, or zero past the frame's end.
pub open spec fn bin_level(levels: Seq<u8>, j: int) -> u8 {
    if 0 <= j < levels.len() {
        levels[j]
    } else {
        0
    }
}

/// Pixel `k` of a strided column: bins `4k .. 4k+3` packed into its four channels.
pub open spec fn strided_pixel(levels: Seq<u8>, k: int) -> [u8; 4] {
    [
        bin_level(levels, 4 * k),
        bin_level(levels, 4 * k + 1),
        bin_level(levels, 4 * k + 2),
        bin_level(levels, 4 * k + 3),
    ]
}

/// Number of bins that a strided column starts a pixel at: those below
/// half the band height and below the frame's length.
pub open spec fn strided_span(levels: Seq<u8>, rows_per_band: u32) -> int {
    let half = rows_per_band as int / 2;
    if half < levels.len() {
        half
    } else {
        levels.len() as int
    }
}

/// Fills a column on the linear axis: for every bin index `y` that is a
/// multiple of four below `strided_span`, the pixel of row `y / 4` holds the
/// levels of bins `y .. y+3`, zero for bins past the frame's end. Nothing is
/// carried forward from one pixel to the next.
pub fn strided_column(levels: &Vec<u8>, rows_per_band: u32) -> (col: Vec<[u8; 4]>)
    ensures
        col@.len() == (strided_span(levels@, rows_per_band) + 3) / 4,
        forall|k: int| 0 <= k < col@.len() ==> #[trigger] col@[k] == strided_pixel(levels@, k),
{
    let n = levels.len();
    let half = (rows_per_band / 2) as usize;
    let span = if half < n {
        half
    } else {
        n
    };
    let mut col: Vec<[u8; 4]> = Vec::new();
    let mut y: usize = 0;
    while y < span
        invariant
            n == levels@.len(),
            span == strided_span(levels@, rows_per_band),
            y == 4 * col@.len(),
            y < span + 4,
            y >= span ==> col@.len() == (span + 3) / 4,
            y < span ==> col@.len() == y / 4,
            forall|k: int| 0 <= k < col@.len() ==> #[trigger] col@[k] == strided_pixel(levels@, k),
            span <= 0x8000_0000,
        decreases span + 4 - y,
    {
        let mut px: [u8; 4] = [0, 0, 0, 0];
        let mut c: usize = 0;
        while c < 4
            invariant
                n == levels@.len(),
                y < span,
                span <= n,
                c <= 4,
                forall|d: int| 0 <= d < c ==> #[trigger] px@[d] == bin_level(levels@, y + d),
                forall|d: int| c <= d < 4 ==> #[trigger] px@[d] == 0,
            decreases 4 - c,
        {
            if c < n - y {
                px[c] = levels[y + c];
            }
            c = c + 1;
        }
        let ghost k = col@.len() as int;
        assert(px@ =~= strided_pixel(levels@, k)@);
        col.push(px);
        y = y + 4;
    }
    col
}

} // verus!
