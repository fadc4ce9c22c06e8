//! Filling a grid with characters, row by row in alternating directions.

use vstd::arithmetic::div_mod::{
    lemma_fundamental_div_mod, lemma_fundamental_div_mod_converse, lemma_mod_multiples_basic,
};
use vstd::prelude::*;

verus! {

/// The error of [`pack`]: with a height of zero the row-break rule has no
/// meaning, and the input is long enough for the rule to be consulted.
pub const INDEXING_FAULT: &'static str = "indexing fault, row break is undefined for height zero";

/// The row-break rule: a new row begins at index `i` when `i` is greater than
/// one and a multiple of the height. No index is a multiple of a height of
/// zero.
pub open spec fn starts_row(i: nat, height: nat) -> bool {
    i > 1 && height > 0 && i % height == 0
}

/// The index of the first character of row `r`.
///
/// Index 0 and index 1 never begin a new row, so with a height of one the
/// first row holds two characters and every later row holds one.
pub open spec fn row_start(r: nat, height: nat) -> nat {
    if r == 0 {
        0
    } else if height == 1 {
        r + 1
    } else {
        r * height
    }
}

/// The number of rows that `n` characters fill. An empty input still gives
/// one (empty) row.
pub open spec fn row_count(n: nat, height: nat) -> nat {
    if n == 0 || height == 0 {
        1
    } else if height == 1 {
        if n <= 2 {
            1
        } else {
            (n - 1) as nat
        }
    } else {
        ((n - 1) / (height as int) + 1) as nat
    }
}

/// A run of characters as it stands in row `r`: rows with an even index read
/// left to right, rows with an odd index right to left.
pub open spec fn oriented(run: Seq<char>, r: nat) -> Seq<char> {
    if r % 2 == 0 {
        run
    } else {
        run.reverse()
    }
}

/// Row `r` of the grid for `chars`: the characters from the start of row `r`
/// up to the start of the next row (or the end of the input, in the last
/// row), in the direction of row `r`.
pub open spec fn packed_row(chars: Seq<char>, height: nat, r: nat) -> Seq<char> {
    let from = row_start(r, height);
    let to = if r + 1 >= row_count(chars.len(), height) {
        chars.len()
    } else {
        row_start(r + 1, height)
    };
    oriented(chars.subrange(from as int, to as int), r)
}

/// The grid for `chars`.
pub open spec fn packed_rows(chars: Seq<char>, height: nat) -> Seq<Seq<char>> {
    Seq::new(row_count(chars.len(), height), |r: int| packed_row(chars, height, r as nat))
}

/// Where an index lies in a row of `height` characters: row `r` spans the
/// indices from `r * height` up to `(r + 1) * height`.
pub proof fn lemma_position_in_row(i: nat, r: nat, height: nat)
    requires
        height > 0,
        r * height <= i < (r + 1) * height,
    ensures
        i / height == r,
        i % height == i - r * height,
{
    assert((r + 1) * height == r * height + height) by (nonlinear_arith);
    lemma_fundamental_div_mod_converse(i as int, height as int, r as int, i - r * height);
}

/// The starts of the rows are increasing.
pub proof fn lemma_row_start_increases(r: nat, height: nat)
    requires
        height > 0,
    ensures
        row_start(r, height) < row_start(r + 1, height),
{
    assert((r + 1) * height == r * height + height) by (nonlinear_arith);
}

/// The row-break rule and the closed form agree: among the indices after the
/// start of row `r`, up to and including the start of row `r + 1`, the rule
/// picks the start of row `r + 1` and no other.
pub proof fn lemma_row_break(i: nat, r: nat, height: nat)
    requires
        height > 0,
        row_start(r, height) < i <= row_start(r + 1, height),
    ensures
        starts_row(i, height) <==> i == row_start(r + 1, height),
{
    if height >= 2 {
        assert((r + 1) * height == r * height + height) by (nonlinear_arith);
        if i == (r + 1) * height {
            lemma_mod_multiples_basic((r + 1) as int, height as int);
        } else {
            lemma_position_in_row(i, r, height);
        }
    }
}

/// The number of rows, from the row that holds the last character.
pub proof fn lemma_row_count(n: nat, r: nat, height: nat)
    requires
        height > 0,
        row_start(r, height) < n <= row_start(r + 1, height),
    ensures
        row_count(n, height) == r + 1,
{
    if height >= 2 {
        lemma_position_in_row((n - 1) as nat, r, height);
    }
}

/// The row that holds the last character, from the number of rows.
pub proof fn lemma_last_row(n: nat, height: nat)
    requires
        height > 0,
        n > 0,
    ensures
        row_start((row_count(n, height) - 1) as nat, height) < n <= row_start(
            row_count(n, height),
            height,
        ),
{
    if height >= 2 {
        let r = (n - 1) / (height as int);
        lemma_fundamental_div_mod(n - 1, height as int);
        assert(height * r == r * height) by (nonlinear_arith);
        assert((r + 1) * height == r * height + height) by (nonlinear_arith);
    }
}

/// The rows before row `r` end where the next row starts, at or before the
/// start of row `r`.
pub proof fn lemma_row_bounds(j: nat, r: nat, height: nat)
    requires
        height > 0,
        j < r,
    ensures
        row_start(j, height) < row_start(j + 1, height) <= row_start(r, height),
{
    lemma_row_start_increases(j, height);
    assert((j + 1) * height <= r * height) by (nonlinear_arith)
        requires
            j + 1 <= r,
    ;
}

/// The grid of no characters is one empty row.
pub proof fn lemma_packed_rows_empty(height: nat)
    ensures
        packed_rows(Seq::empty(), height) == seq![Seq::<char>::empty()],
{
    assert(packed_rows(Seq::empty(), height)[0] =~= Seq::<char>::empty());
    assert(packed_rows(Seq::empty(), height) =~= seq![Seq::<char>::empty()]);
}

/// The grid grows by one character as the packing rule has it.
///
/// Where the index of the new character begins a row, a row of that one
/// character is added. Where it does not, the character joins the last row:
/// at the end where that row is filled left to right (an even row index), and
/// where it is filled right to left at the offset that is the length of the
/// row less the index modulo the height. That offset lies within the row: it
/// is zero.
pub proof fn lemma_packed_rows_step(chars: Seq<char>, c: char, height: nat)
    ensures
        ({
            let i = chars.len();
            let before = packed_rows(chars, height);
            let after = packed_rows(chars.push(c), height);
            let last = before.len() - 1;
            if starts_row(i, height) {
                after == before.push(seq![c])
            } else if last % 2 == 0 {
                after == before.update(last, before[last].push(c))
            } else {
                let offset = before[last].len() - i % height;
                &&& height > 0
                &&& offset == 0
                &&& after == before.update(last, before[last].insert(offset, c))
            }
        }),
{
    let n = chars.len();
    let longer = chars.push(c);
    let before = packed_rows(chars, height);
    let after = packed_rows(longer, height);
    let r = (row_count(n, height) - 1) as nat;
    if height == 0 || n == 0 {
        assert(after.len() == 1);
        assert(after[0] =~= before[0].push(c));
        assert(after =~= before.update(0, before[0].push(c)));
    } else {
        lemma_last_row(n, height);
        lemma_row_break(n, r, height);
        if starts_row(n, height) {
            lemma_row_start_increases(r + 1, height);
            lemma_row_count(n + 1, r + 1, height);
            assert forall|j: int| 0 <= j <= r implies #[trigger] after[j] == before[j] by {
                if j < r {
                    lemma_row_bounds(j as nat, r, height);
                }
                let from = row_start(j as nat, height) as int;
                let to = row_start((j + 1) as nat, height) as int;
                assert(longer.subrange(from, to) =~= chars.subrange(from, to));
            }
            assert(after[(r + 1) as int] =~= seq![c]);
            assert(after =~= before.push(seq![c]));
        } else {
            lemma_row_count(n + 1, r, height);
            assert forall|j: int| 0 <= j < r implies #[trigger] after[j] == before[j] by {
                lemma_row_bounds(j as nat, r, height);
                let from = row_start(j as nat, height) as int;
                let to = row_start((j + 1) as nat, height) as int;
                assert(longer.subrange(from, to) =~= chars.subrange(from, to));
            }
            if r % 2 == 0 {
                assert(after[r as int] =~= before[r as int].push(c));
                assert(after =~= before.update(r as int, before[r as int].push(c)));
            } else {
                lemma_position_in_row(n, r, height);
                assert(after[r as int] =~= before[r as int].insert(0, c));
                assert(after =~= before.update(r as int, before[r as int].insert(0, c)));
            }
        }
    }
}

/// A grid of full rows: `width * height` characters with a height of 2 or
/// more fill `width` rows of `height` characters each.
pub proof fn lemma_full_rows(chars: Seq<char>, width: nat, height: nat)
    requires
        height >= 2,
        width >= 1,
        chars.len() == width * height,
    ensures
        packed_rows(chars, height).len() == width,
        forall|r: int|
            0 <= r < width ==> (#[trigger] packed_rows(chars, height)[r]).len() == height,
{
    let n = chars.len();
    assert(width * height == (width - 1) * height + height) by (nonlinear_arith);
    lemma_position_in_row((n - 1) as nat, (width - 1) as nat, height);
    assert(row_count(n, height) == width);
    assert forall|r: int| 0 <= r < width implies (#[trigger] packed_rows(chars, height)[r]).len()
        == height by {
        assert((r + 1) * height == r * height + height) by (nonlinear_arith);
        assert((r + 1) * height <= width * height) by (nonlinear_arith)
            requires
                r + 1 <= width,
        ;
        let from = row_start(r as nat, height) as int;
        assert(from == r * height);
        let run = chars.subrange(from, from + height);
        assert(packed_rows(chars, height)[r] == oriented(run, r as nat));
        assert(run.reverse().len() == run.len());
    }
}

/// Arranges `chars` in rows.
///
/// The characters are taken in order. A new row begins at every index that
/// is greater than one and a multiple of `height`, and the direction turns
/// with every new row: the first row is filled left to right by appending,
/// the next right to left by inserting at the offset `len - (i mod height)`
/// of the row under construction, and so on. No row is padded or cut.
///
/// The offset of an insertion never leaves the row: it is shown to be zero
/// every time, so nothing is clamped and nothing can fail there. The rows
/// that are filled right to left therefore hold their characters in reverse.
///
/// With a height of zero the row-break rule is undefined. It is first
/// consulted at index 2, so such a call fails, with [`INDEXING_FAULT`],
/// exactly when `chars` holds more than two characters. No other call fails.
pub fn pack(chars: &Vec<char>, height: u64) -> (res: Result<Vec<Vec<char>>, &'static str>)
    ensures
        match res {
            Ok(grid) => {
                &&& height > 0 || chars.len() <= 2
                &&& grid.deep_view() == packed_rows(chars@, height as nat)
            },
            Err(msg) => height == 0 && chars.len() > 2 && msg@ == INDEXING_FAULT@,
        },
{
    if height == 0 && chars.len() > 2 {
        return Err(INDEXING_FAULT);
    }
    let ghost h = height as nat;
    let mut grid: Vec<Vec<char>> = Vec::new();
    let mut row: Vec<char> = Vec::new();
    let mut reversed = false;
    let mut i: usize = 0;
    proof {
        lemma_packed_rows_empty(h);
        assert(chars@.take(0) =~= Seq::empty());
        assert(grid.deep_view().push(row@) =~= seq![Seq::<char>::empty()]);
    }
    while i < chars.len()
        invariant
            i <= chars.len(),
            h == height,
            height > 0 || chars.len() <= 2,
            reversed == (grid.len() % 2 == 1),
            grid.deep_view().push(row@) == packed_rows(chars@.take(i as int), h),
        decreases chars.len() - i,
    {
        let c = chars[i];
        proof {
            lemma_packed_rows_step(chars@.take(i as int), c, h);
            assert(chars@.take(i + 1) =~= chars@.take(i as int).push(c));
        }
        let ghost before = grid.deep_view().push(row@);
        let ghost begins = starts_row(i as nat, h);
        assert(before[grid.len() as int] == row@);
        if i > 1 && (i as u64) % height == 0 {
            let ghost full = row@;
            grid.push(row);
            row = Vec::new();
            reversed = !reversed;
            assert(grid.deep_view() =~= before) by {
                assert(grid@[grid.len() - 1].deep_view() =~= full);
            }
        }
        if reversed {
            let past: u64 = (i as u64) % height;
            row.insert(row.len() - past as usize, c);
        } else {
            row.push(c);
        }
        assert(begins ==> row@ =~= seq![c]);
        assert(grid.deep_view().push(row@) =~= packed_rows(chars@.take(i + 1), h));
        i += 1;
    }
    proof {
        assert(chars@.take(i as int) =~= chars@);
    }
    let ghost last = row@;
    grid.push(row);
    assert(grid.deep_view() =~= packed_rows(chars@, h)) by {
        assert(grid@[grid.len() - 1].deep_view() =~= last);
    }
    Ok(grid)
}

} // verus!
