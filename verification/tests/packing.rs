use wordbox::packer::{pack, INDEXING_FAULT};
use wordbox::render::push_decimal;
use wordbox::word_box::{pack_box, WordBox, INVALID_LENGTH};

fn chars(s: &str) -> Vec<char> {
    s.chars().collect()
}

fn rows(lines: &[&str]) -> Vec<Vec<char>> {
    lines.iter().map(|line| chars(line)).collect()
}

fn packed(s: &str) -> WordBox {
    match pack_box(s.to_string()) {
        Ok(word_box) => word_box,
        Err(msg) => panic!("{}", msg),
    }
}

#[test]
fn pack_turns_at_every_row() {
    assert_eq!(pack(&chars("HELLOWORLD"), 2), Ok(rows(&["HE", "LL", "OW", "RO", "LD"])));
    assert_eq!(pack(&chars("ABCDEFGHI"), 3), Ok(rows(&["ABC", "FED", "GHI"])));
    assert_eq!(pack(&chars("ABCDEFGHIJKL"), 4), Ok(rows(&["ABCD", "HGFE", "IJKL"])));
}

#[test]
fn pack_leaves_the_last_row_short() {
    assert_eq!(pack(&chars("ABCDEFG"), 3), Ok(rows(&["ABC", "FED", "G"])));
    assert_eq!(pack(&chars("ABCDEF"), 4), Ok(rows(&["ABCD", "FE"])));
    assert_eq!(pack(&chars("ABCDE"), 3), Ok(rows(&["ABC", "ED"])));
}

#[test]
fn pack_keeps_one_row_when_the_height_is_not_reached() {
    assert_eq!(pack(&chars("ABC"), 5), Ok(rows(&["ABC"])));
    assert_eq!(pack(&chars("ABCDE"), 5), Ok(rows(&["ABCDE"])));
    assert_eq!(pack(&chars("ABCDEF"), 5), Ok(rows(&["ABCDE", "F"])));
}

#[test]
fn pack_of_nothing_is_one_empty_row() {
    assert_eq!(pack(&chars(""), 0), Ok(rows(&[""])));
    assert_eq!(pack(&chars(""), 1), Ok(rows(&[""])));
    assert_eq!(pack(&chars(""), 7), Ok(rows(&[""])));
}

#[test]
fn pack_at_height_one_starts_with_two_characters() {
    assert_eq!(pack(&chars("A"), 1), Ok(rows(&["A"])));
    assert_eq!(pack(&chars("AB"), 1), Ok(rows(&["AB"])));
    assert_eq!(pack(&chars("ABC"), 1), Ok(rows(&["AB", "C"])));
    assert_eq!(pack(&chars("ABCDE"), 1), Ok(rows(&["AB", "C", "D", "E"])));
}

#[test]
fn pack_at_height_zero_fails_from_the_third_character() {
    assert_eq!(pack(&chars("A"), 0), Ok(rows(&["A"])));
    assert_eq!(pack(&chars("AB"), 0), Ok(rows(&["AB"])));
    assert_eq!(pack(&chars("ABC"), 0), Err(INDEXING_FAULT));
    assert_eq!(pack(&chars("ABCDEFGH"), 0), Err(INDEXING_FAULT));
}

#[test]
fn pack_box_of_hello_world() {
    let word_box = packed("HELLOWORLD");
    assert_eq!(word_box.dimensions, (5, 2));
    assert_eq!(word_box.dimensions(), (5, 2));
    assert_eq!(word_box.start(), (1, 1));
    assert_eq!(word_box.container(), &rows(&["HE", "LL", "OW", "RO", "LD"]));
}

#[test]
fn pack_box_refuses_a_prime_length() {
    assert_eq!(pack_box("ABCDEFG".to_string()).err(), Some(INVALID_LENGTH));
    assert_eq!(pack_box("AB".to_string()).err(), Some(INVALID_LENGTH));
    assert_eq!(pack_box("ABC".to_string()).err(), Some(INVALID_LENGTH));
    assert_eq!(
        pack_box("ABCDEFG".to_string()).err(),
        Some("invalid sentence length, cannot be prime")
    );
}

#[test]
fn pack_box_of_nothing() {
    let word_box = packed("");
    assert_eq!(word_box.dimensions, (0, 0));
    assert_eq!(word_box.start(), (1, 1));
    assert_eq!(word_box.container(), &rows(&[""]));
}

#[test]
fn pack_box_of_one_character() {
    let word_box = packed("A");
    assert_eq!(word_box.dimensions, (1, 1));
    assert_eq!(word_box.container(), &rows(&["A"]));
}

#[test]
fn pack_box_of_a_square_length() {
    let word_box = packed("ABCD");
    assert_eq!(word_box.dimensions, (2, 2));
    assert_eq!(word_box.container(), &rows(&["AB", "DC"]));
    let word_box = packed("ABCDEFGHI");
    assert_eq!(word_box.dimensions, (3, 3));
    assert_eq!(word_box.container(), &rows(&["ABC", "FED", "GHI"]));
}

#[test]
fn pack_box_of_twelve_characters() {
    let word_box = packed("ABCDEFGHIJKL");
    assert_eq!(word_box.dimensions, (4, 3));
    assert_eq!(word_box.container(), &rows(&["ABC", "FED", "GHI", "LKJ"]));
}

#[test]
fn pack_box_counts_characters_not_bytes() {
    // Four characters in eight bytes.
    let word_box = packed("ÄÖÜß");
    assert_eq!(word_box.dimensions, (2, 2));
    assert_eq!(word_box.container(), &rows(&["ÄÖ", "ßÜ"]));
    // Five characters in ten bytes: a prime number of characters.
    assert_eq!(pack_box("ÄÖÜßé".to_string()).err(), Some(INVALID_LENGTH));
}

#[test]
fn pack_box_has_as_many_rows_as_it_is_wide() {
    let sentence: String = "THEQUICKBROWNFOXJUMPSOVERTHELAZYDOGAGAINANDAGAIN".to_string();
    for len in 0..=sentence.len() {
        let part = &sentence[..len];
        match pack_box(part.to_string()) {
            Ok(word_box) => {
                let (width, height) = word_box.dimensions;
                assert_eq!(width * height, len as u64);
                assert!(width >= height);
                let grid = word_box.container();
                assert_eq!(grid.len() as u64, if width == 0 { 1 } else { width });
                for row in grid {
                    assert_eq!(row.len() as u64, height);
                }
                // Every second row reads backwards; turned round, the rows give
                // the sentence again.
                let mut read: Vec<char> = Vec::new();
                for (r, row) in grid.iter().enumerate() {
                    if r % 2 == 0 {
                        read.extend(row.iter());
                    } else {
                        read.extend(row.iter().rev());
                    }
                }
                assert_eq!(read, chars(part));
            }
            Err(msg) => {
                assert_eq!(msg, INVALID_LENGTH);
                assert!(wordbox::primality::is_prime(len as u64));
            }
        }
    }
}

#[test]
fn pack_box_gives_the_same_box_every_time() {
    let first = packed("HELLOWORLD");
    let second = packed("HELLOWORLD");
    assert_eq!(first.dimensions, second.dimensions);
    assert_eq!(first.start(), second.start());
    assert_eq!(first.container(), second.container());
    assert_eq!(first.render(), second.render());
    assert_eq!(pack_box("ABCDE".to_string()).err(), pack_box("ABCDE".to_string()).err());
}

#[test]
fn render_writes_the_anchor_and_the_rows() {
    assert_eq!(packed("HELLOWORLD").render(), "1, 1\n\tH\tE\n\tL\tL\n\tO\tW\n\tR\tO\n\tL\tD\n");
    assert_eq!(packed("ABCD").render(), "1, 1\n\tA\tB\n\tD\tC\n");
}

#[test]
fn render_of_the_smallest_boxes() {
    assert_eq!(packed("").render(), "1, 1\n\n");
    assert_eq!(packed("A").render(), "1, 1\n\tA\n");
}

#[test]
fn push_decimal_writes_at_the_end() {
    let mut text = String::from("n=");
    push_decimal(&mut text, 0);
    assert_eq!(text, "n=0");
    push_decimal(&mut text, 7);
    assert_eq!(text, "n=07");
    let mut text = String::new();
    push_decimal(&mut text, 1_234_567_890);
    assert_eq!(text, "1234567890");
    let mut text = String::new();
    push_decimal(&mut text, 100);
    assert_eq!(text, "100");
    let mut text = String::new();
    push_decimal(&mut text, u64::MAX);
    assert_eq!(text, "18446744073709551615");
}

#[test]
fn characters_are_taken_one_by_one() {
    assert_eq!(wordbox::word_box::characters(""), Vec::<char>::new());
    assert_eq!(wordbox::word_box::characters("AB C"), vec!['A', 'B', ' ', 'C']);
    assert_eq!(wordbox::word_box::characters("Äß"), vec!['Ä', 'ß']);
}
