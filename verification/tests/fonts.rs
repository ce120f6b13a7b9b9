use sm_logic::presets::display::{char_width, flatten, text_fits, text_has, Font};

fn picture(rows: &[&str]) -> Vec<Vec<bool>> {
    rows.iter().map(|row| row.chars().map(|c| c == '#').collect()).collect()
}

fn digits() -> Font {
    Font::new(
        vec![('0', picture(&["##", "##"])), ('1', picture(&[".#", ".#"]))],
        "01".to_string(),
        2,
        2,
    )
    .unwrap()
}

#[test]
fn a_font_knows_its_symbols_and_their_pictures() {
    let font = digits();
    assert_eq!(font.all_symbols(), "01");
    assert_eq!(font.symbol_size(), (2, 2));
    assert_eq!(font.symbol_id('0'), Some(0));
    assert_eq!(font.symbol_id('1'), Some(1));
    assert_eq!(font.symbol_id('2'), None);
    assert_eq!(font.symbol_texture('0'), Some(&vec![true, true, true, true]));
    assert_eq!(font.symbol_texture('1'), Some(&vec![false, true, false, true]));
    assert_eq!(font.symbol_texture('2'), None);
}

#[test]
fn every_symbol_needs_a_picture_and_every_picture_a_symbol() {
    let stray = Font::new(
        vec![('0', picture(&["#"])), ('x', picture(&["#"]))],
        "0".to_string(),
        1,
        1,
    );
    assert_eq!(stray.err().unwrap(), "'look' must contain textures for every symbol in 'order'");
    let bare = Font::new(vec![('0', picture(&["#"]))], "01".to_string(), 1, 1);
    assert_eq!(bare.err().unwrap(), "'order' must contain every symbol in 'look'");
    // Both at once: the stray picture is told first.
    let both = Font::new(vec![('x', picture(&["#"]))], "01".to_string(), 1, 1);
    assert_eq!(both.err().unwrap(), "'look' must contain textures for every symbol in 'order'");
    // No symbols and no pictures make a font.
    let none = Font::new(vec![], String::new(), 3, 5).unwrap();
    assert_eq!(none.all_symbols(), "");
    assert_eq!(none.symbol_id(' '), None);
}

#[test]
fn the_last_picture_of_a_symbol_counts() {
    let font = Font::new(
        vec![('a', picture(&["#."])), ('b', picture(&[".."])), ('a', picture(&[".#"]))],
        "ab".to_string(),
        2,
        1,
    )
    .unwrap();
    assert_eq!(font.symbol_texture('a'), Some(&vec![false, true]));
    assert_eq!(font.symbol_texture('b'), Some(&vec![false, false]));
}

#[test]
fn symbols_are_numbered_by_the_byte_of_their_last_occurrence() {
    let looks = vec![
        ('a', picture(&["#"])),
        ('я', picture(&["#"])),
        ('€', picture(&["#"])),
        ('𝄞', picture(&["#"])),
        ('z', picture(&["#"])),
    ];
    let order = "aя€𝄞za".to_string();
    let font = Font::new(looks, order.clone(), 1, 1).unwrap();
    assert_eq!(font.symbol_id('a'), Some(11));
    assert_eq!(font.symbol_id('я'), Some(1));
    assert_eq!(font.symbol_id('€'), Some(3));
    assert_eq!(font.symbol_id('𝄞'), Some(6));
    assert_eq!(font.symbol_id('z'), Some(10));
    for symbol in order.chars() {
        assert_eq!(font.symbol_id(symbol), order.rfind(symbol));
    }
    assert_eq!(font.symbol_id('b'), order.rfind('b'));
}

#[test]
fn texts_are_measured_in_bytes() {
    assert_eq!(char_width('a'), 1);
    assert_eq!(char_width('\u{7f}'), 1);
    assert_eq!(char_width('\u{80}'), 2);
    assert_eq!(char_width('\u{7ff}'), 2);
    assert_eq!(char_width('\u{800}'), 3);
    assert_eq!(char_width('\u{ffff}'), 3);
    assert_eq!(char_width('\u{10000}'), 4);
    for symbol in ['a', 'я', '€', '𝄞'] {
        assert_eq!(char_width(symbol), symbol.len_utf8());
    }
    assert!(text_fits(&"aя€𝄞".to_string()));
    assert!(text_has(&"aя€".to_string(), '€'));
    assert!(!text_has(&"aя€".to_string(), 'b'));
    assert_eq!(flatten(&vec![vec![true], vec![], vec![false, true]]), vec![true, false, true]);
    assert_eq!(flatten(&vec![]), Vec::<bool>::new());
}
