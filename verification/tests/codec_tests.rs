use unjosefizer::Error;
use unjosefizer::paint_convert::convert_triangle_color;

fn table(pairs: &[(usize, usize)], len: usize) -> Vec<Option<usize>> {
    let mut t = vec![None; len];
    for (from, to) in pairs {
        t[*from] = Some(*to);
    }
    t
}

#[test]
fn simple_color_is_remapped() {
    // A single leaf nibble holding simple color 0, remapped to 1,
    // re-encodes as `1 << 2`.
    let t = table(&[(0, 1)], 1);
    assert_eq!(convert_triangle_color("0", &t), Ok("4".to_string()));
}

#[test]
fn empty_string_stays_empty() {
    let t = table(&[(0, 1)], 1);
    assert_eq!(convert_triangle_color("", &t), Ok(String::new()));
}

#[test]
fn unmapped_string_round_trips() {
    // Colors 1, 5 and 0: nibble stream [4, C, 2, 0] written back to
    // front. An empty table leaves every color alone, so the exact
    // input comes back.
    let t: Vec<Option<usize>> = Vec::new();
    assert_eq!(convert_triangle_color("02C4", &t), Ok("02C4".to_string()));
}

#[test]
fn identity_table_round_trips() {
    let t = table(&[(0, 0), (1, 1), (5, 5)], 6);
    assert_eq!(convert_triangle_color("02C4", &t), Ok("02C4".to_string()));
}

#[test]
fn extended_to_simple() {
    // "2C" decodes to the single extended color 5; mapped to 1 it
    // becomes the simple nibble 4.
    let t = table(&[(5, 1)], 6);
    assert_eq!(convert_triangle_color("2C", &t), Ok("4".to_string()));
}

#[test]
fn simple_to_extended() {
    // Color 0 mapped to 7 needs the escape: nibbles [C, 4], written
    // back to front as "4C".
    let t = table(&[(0, 7)], 1);
    assert_eq!(convert_triangle_color("0", &t), Ok("4C".to_string()));
}

#[test]
fn largest_color_round_trips() {
    // "FC" is the extended encoding of color 18, the largest the
    // codec can carry.
    let t: Vec<Option<usize>> = Vec::new();
    assert_eq!(convert_triangle_color("FC", &t), Ok("FC".to_string()));
}

#[test]
fn split_triangle_is_rejected() {
    // Nibble 1 has a non-zero split marker in its low two bits.
    let t: Vec<Option<usize>> = Vec::new();
    assert_eq!(
        convert_triangle_color("1", &t),
        Err(Error::UnsupportedPaintStructure)
    );
}

#[test]
fn split_after_leaves_is_rejected() {
    // A valid leaf followed (in scan order) by a split nibble still
    // fails, with nothing truncated or reordered.
    let t: Vec<Option<usize>> = Vec::new();
    assert_eq!(
        convert_triangle_color("14", &t),
        Err(Error::UnsupportedPaintStructure)
    );
}

#[test]
fn non_hex_character_is_malformed() {
    let t: Vec<Option<usize>> = Vec::new();
    assert_eq!(convert_triangle_color("G", &t), Err(Error::MalformedPaintString));
    assert_eq!(convert_triangle_color("a", &t), Err(Error::MalformedPaintString));
}

#[test]
fn truncated_escape_is_malformed() {
    // A lone escape nibble promises a color nibble that never comes.
    let t: Vec<Option<usize>> = Vec::new();
    assert_eq!(convert_triangle_color("C", &t), Err(Error::MalformedPaintString));
}

#[test]
fn error_description_is_short_prose() {
    assert_eq!(
        Error::UnsupportedPaintStructure.describe(),
        "split paint triangles are not supported"
    );
}
