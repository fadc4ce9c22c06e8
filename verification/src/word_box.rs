//! The word box: a sentence packed into a grid, with the shape of the grid.

use crate::dimensions::{
    find_dimensions, grid_height, grid_width, lemma_composite_height, lemma_shape_covers,
    lemma_shape_of_square,
};
use crate::packer::{lemma_full_rows, pack, packed_rows};
use crate::primality::{is_prime, is_prime_number};
use vstd::prelude::*;

verus! {

/// The error of [`pack_box`]: a prime number of characters fills no grid.
pub const INVALID_LENGTH: &'static str = "invalid sentence length, cannot be prime";

/// A sentence packed into a grid.
pub struct WordBox {
    start: (u64, u64),
    container: Vec<Vec<char>>,
    pub dimensions: (u64, u64),
}

/// What a word box holds.
pub struct WordBoxView {
    /// The anchor of the box.
    pub start: (nat, nat),
    /// The shape of the grid, as (width, height).
    pub dimensions: (nat, nat),
    /// The rows of the grid, from the top.
    pub rows: Seq<Seq<char>>,
}

impl WordBoxView {
    /// The invariant of a word box. It is anchored at (1, 1) and it is at
    /// least as wide as it is high. Its grid is never without a row, every row
    /// holds as many characters as the box is high, and there are as many
    /// rows as the box is wide (one empty row in the box of no characters): in
    /// all, width times height characters.
    pub open spec fn well_formed(self) -> bool {
        let (width, height) = self.dimensions;
        &&& self.start == (1nat, 1nat)
        &&& width >= height
        &&& self.rows.len() == if width == 0 {
            1
        } else {
            width
        }
        &&& forall|r: int| 0 <= r < self.rows.len() ==> (#[trigger] self.rows[r]).len() == height
    }
}

impl View for WordBox {
    type V = WordBoxView;

    closed spec fn view(&self) -> WordBoxView {
        WordBoxView {
            start: (self.start.0 as nat, self.start.1 as nat),
            dimensions: (self.dimensions.0 as nat, self.dimensions.1 as nat),
            rows: self.container.deep_view(),
        }
    }
}

/// The word box of a sentence: anchored at (1, 1), with the shape that the
/// number of characters calls for, and the characters packed at that height.
pub open spec fn word_box_of(sentence: Seq<char>) -> WordBoxView {
    WordBoxView {
        start: (1, 1),
        dimensions: (grid_width(sentence.len()), grid_height(sentence.len())),
        rows: packed_rows(sentence, grid_height(sentence.len())),
    }
}

/// What [`pack_box`] returns for a sentence: the error [`INVALID_LENGTH`]
/// where the number of characters is prime, and else the word box of the
/// sentence.
pub open spec fn is_pack_box_result(
    sentence: Seq<char>,
    res: Result<WordBox, &'static str>,
) -> bool {
    match res {
        Ok(word_box) => {
            &&& !is_prime_number(sentence.len())
            &&& word_box@ == word_box_of(sentence)
            &&& word_box@.dimensions.0 * word_box@.dimensions.1 == sentence.len()
            &&& word_box.well_formed()
        },
        Err(msg) => is_prime_number(sentence.len()) && msg@ == INVALID_LENGTH@,
    }
}

impl WordBox {
    /// Whether the box has the invariant of a word box.
    pub open spec fn well_formed(&self) -> bool {
        self@.well_formed()
    }

    /// The anchor of the box.
    pub fn start(&self) -> (start: (u64, u64))
        ensures
            (start.0 as nat, start.1 as nat) == self@.start,
    {
        self.start
    }

    /// The shape of the grid, as (width, height).
    pub fn dimensions(&self) -> (dimensions: (u64, u64))
        ensures
            (dimensions.0 as nat, dimensions.1 as nat) == self@.dimensions,
    {
        self.dimensions
    }

    /// The rows of the grid.
    pub fn container(&self) -> (rows: &Vec<Vec<char>>)
        ensures
            rows.deep_view() == self@.rows,
    {
        &self.container
    }
}

/// Unless the number of its characters is prime, the word box of a sentence
/// has the invariant of a word box, and its width times its height is the
/// number of characters.
pub proof fn lemma_word_box_well_formed(sentence: Seq<char>)
    requires
        !is_prime_number(sentence.len()),
    ensures
        word_box_of(sentence).well_formed(),
        word_box_of(sentence).dimensions.0 * word_box_of(sentence).dimensions.1 == sentence.len(),
{
    let len = sentence.len();
    lemma_shape_covers(len);
    let width = grid_width(len);
    let height = grid_height(len);
    if len >= 4 {
        lemma_composite_height(len);
        assert(width >= 1) by (nonlinear_arith)
            requires
                width * height >= 4,
                width >= 0,
        ;
        lemma_full_rows(sentence, width, height);
    } else {
        assert(len == 0 || len == 1) by {
            if len == 3 {
                assert(is_prime_number(3)) by {
                    assert(3nat % 2 != 0);
                }
            }
            if len == 2 {
                assert(is_prime_number(2));
            }
        }
        if len == 1 {
            lemma_shape_of_square(1);
        } else {
            lemma_shape_of_square(0);
        }
    }
}

/// Packing is a function of the sentence alone: whatever [`pack_box`] returns
/// for one sentence on two occasions, it fails both times, with the same
/// error, or gives two boxes that hold the same.
pub proof fn lemma_pack_box_deterministic(
    sentence: Seq<char>,
    first: Result<WordBox, &'static str>,
    second: Result<WordBox, &'static str>,
)
    requires
        is_pack_box_result(sentence, first),
        is_pack_box_result(sentence, second),
    ensures
        match (first, second) {
            (Ok(a), Ok(b)) => a@ == b@,
            (Err(a), Err(b)) => a@ == b@,
            _ => false,
        },
{
}

/// The characters of `s`, in order.
pub fn characters(s: &str) -> (chars: Vec<char>)
    ensures
        chars@ == s@,
{
    let mut chars: Vec<char> = Vec::new();
    for c in it: s.chars()
        invariant
            it.seq() == s@,
            chars@ == s@.take(it.index() as int),
    {
        chars.push(c);
    }
    chars
}

/// Packs a sentence into a word box.
///
/// A sentence with a prime number of characters is refused. Any other is
/// given the shape that [`find_dimensions`] finds for its number of
/// characters, and its characters are packed at that height by [`pack`].
pub fn pack_box(sentence: String) -> (res: Result<WordBox, &'static str>)
    ensures
        is_pack_box_result(sentence@, res),
{
    let chars = characters(sentence.as_str());
    let len: u64 = chars.len() as u64;
    if is_prime(len) {
        return Err(INVALID_LENGTH);
    }
    let (width, height) = find_dimensions(len);
    proof {
        lemma_word_box_well_formed(sentence@);
    }
    // The packer fails only at height zero, which is the height of the empty
    // sentence alone, and that one it packs.
    match pack(&chars, height) {
        Ok(grid) => Ok(WordBox { start: (1, 1), container: grid, dimensions: (width, height) }),
        Err(fault) => Err(fault),
    }
}

} // verus!
