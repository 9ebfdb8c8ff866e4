use assembly_theory::schema::{check_shape, parse_unsigned, read_grid, read_scalars, ValueShape};
use assembly_theory::scalar::Scalar;
use assembly_theory::text::{blank, chars_of, numeral, same_text, split, Separator};

fn strings(v: &[&str]) -> Vec<String> {
    v.iter().map(|s| s.to_string()).collect()
}

#[test]
fn single_spaces_cut_tokens_and_keep_empty_ones() {
    assert_eq!(split(Separator::Space, "1 2 3"), strings(&["1", "2", "3"]));
    assert_eq!(split(Separator::Space, "1  2"), strings(&["1", "", "2"]));
    assert_eq!(split(Separator::Space, ""), strings(&[""]));
    assert_eq!(split(Separator::Space, " a "), strings(&["", "a", ""]));
    assert_eq!(split(Separator::Space, "a\tb"), strings(&["a\tb"]));
}

#[test]
fn white_space_cuts_tokens_without_empty_ones() {
    assert_eq!(split(Separator::Blank, "  1 \t 2\n3  "), strings(&["1", "2", "3"]));
    assert_eq!(split(Separator::Blank, ""), Vec::<String>::new());
    assert_eq!(split(Separator::Blank, "   "), Vec::<String>::new());
    assert_eq!(split(Separator::Blank, "a\u{3000}b"), strings(&["a", "b"]));
}

#[test]
fn splitting_agrees_with_the_standard_library() {
    let samples = ["", " ", "a", "a b", " a  b ", "1 2 3", "\t1\n2 ", "x\u{85}y", "é è"];
    for s in samples {
        let by_space: Vec<String> = s.split(' ').map(|t| t.to_string()).collect();
        assert_eq!(split(Separator::Space, s), by_space, "space: {:?}", s);
        let by_blank: Vec<String> = s.split_whitespace().map(|t| t.to_string()).collect();
        assert_eq!(split(Separator::Blank, s), by_blank, "blank: {:?}", s);
    }
}

#[test]
fn blank_characters_are_those_of_the_standard_library() {
    for n in 0u32..0x3100 {
        if let Some(c) = char::from_u32(n) {
            assert_eq!(blank(c), c.is_whitespace(), "U+{:04X}", n);
        }
    }
}

#[test]
fn numerals_are_what_parses_as_a_number() {
    let samples = [
        "0", "1", "-1", "+1", "1.5", "1.", ".5", "-.5", "1e5", "1E5", "1e+5", "1e-5", "1.5e3",
        ".5e3", "1.e3", "inf", "-inf", "+inf", "INF", "Infinity", "infinity", "iNfInItY", "nan",
        "NaN", "-nan", "", " ", "+", "-", ".", "e", "e5", "1e", "1e+", "1e5.0", "1 ", " 1",
        "1,5", "0x10", "1_000", "--1", "1.2.3", "infinit", "infinityy", "na", "1f", "abc",
        "１", "1e5e5", ".e5", "+.e5", "∞",
    ];
    for s in samples {
        assert_eq!(numeral(s), s.parse::<f32>().is_ok(), "{:?}", s);
    }
}

#[test]
fn unsigned_numbers_are_what_parses_as_one() {
    let samples = [
        "0", "1", "+1", "-1", "", "+", "007", "4294967295", "4294967296", "99999999999999999999",
        "1.0", " 1", "1 ", "a", "+-1", "12a",
    ];
    for s in samples {
        assert_eq!(parse_unsigned(s), s.parse::<u32>().ok(), "{:?}", s);
    }
}

#[test]
fn shapes_of_values() {
    assert!(check_shape(ValueShape::Text, "anything at all"));
    assert!(check_shape(ValueShape::Three, "1 2 3"));
    assert!(!check_shape(ValueShape::Three, "1 2"));
    assert!(!check_shape(ValueShape::Three, "1 2 3 4"));
    assert!(!check_shape(ValueShape::Three, "1  2 3"));
    assert!(!check_shape(ValueShape::Three, "1 2 three"));
    assert!(check_shape(ValueShape::Four, "1 0.5 0 1"));
    assert!(!check_shape(ValueShape::Four, "1 0.5 0"));
    assert!(check_shape(ValueShape::UpToThree, "1"));
    assert!(check_shape(ValueShape::UpToThree, "1 2"));
    assert!(check_shape(ValueShape::UpToThree, "1 2 3"));
    assert!(!check_shape(ValueShape::UpToThree, "1 2 3 4"));
    assert!(!check_shape(ValueShape::UpToThree, ""));
    assert!(check_shape(ValueShape::LeadingThree, " 1\t2  3 "));
    assert!(check_shape(ValueShape::LeadingThree, "1 2 3 and more"));
    assert!(!check_shape(ValueShape::LeadingThree, "1 2"));
    assert!(!check_shape(ValueShape::LeadingThree, "1 2 x 4"));
    assert!(check_shape(ValueShape::Numerals, ""));
    assert!(check_shape(ValueShape::Numerals, "1 2 3 4 5 6 7"));
    assert!(!check_shape(ValueShape::Numerals, "1 2 3 4 5 6 x"));
    assert!(check_shape(ValueShape::Grid, "3 4"));
    assert!(!check_shape(ValueShape::Grid, "3"));
    assert!(!check_shape(ValueShape::Grid, "3 4 5"));
    assert!(!check_shape(ValueShape::Grid, "3 -4"));
    assert!(!check_shape(ValueShape::Grid, "3 4.0"));
}

#[test]
fn scalars_keep_the_tokens_they_were_read_from() {
    let v = read_scalars(ValueShape::Three, "1 -2.5 3e2").unwrap();
    let texts: Vec<String> = v
        .iter()
        .map(|s| match s {
            Scalar::Numeral(t) => t.clone(),
            Scalar::Bits(_) => panic!("a numeral was read"),
        })
        .collect();
    assert_eq!(texts, strings(&["1", "-2.5", "3e2"]));
    let lead = read_scalars(ValueShape::LeadingThree, "1 2 3 4 x").unwrap();
    assert_eq!(lead.len(), 3);
    assert!(read_scalars(ValueShape::Three, "1 2").is_none());
    assert_eq!(read_grid("3 4"), Some((3, 4)));
    assert_eq!(read_grid("3 x"), None);
}

#[test]
fn texts_compare_by_their_characters() {
    assert!(same_text("class", "class"));
    assert!(!same_text("class", "childclass"));
    assert!(!same_text("", "a"));
    assert_eq!(chars_of("aé∞"), vec!['a', 'é', '∞']);
}

#[test]
fn lines_and_slashes_cut_tokens_and_keep_empty_ones() {
    assert_eq!(split(Separator::Line, "a b\n\nc\n"), strings(&["a b", "", "c", ""]));
    assert_eq!(split(Separator::Line, "one line"), strings(&["one line"]));
    assert_eq!(split(Separator::Slash, "1//3"), strings(&["1", "", "3"]));
    assert_eq!(split(Separator::Slash, "1"), strings(&["1"]));
    assert_eq!(split(Separator::Slash, "/"), strings(&["", ""]));
}
