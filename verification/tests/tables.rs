use okanimoji::tables::{block_char, braille_char};

#[test]
fn block_table_total_and_zero_is_space() {
    // every mask in [0, 16) maps to exactly one character, mask 0 to a space
    let mut seen: Vec<char> = Vec::new();
    for m in 0u8..16 {
        let c = block_char(m);
        assert!(!seen.contains(&c), "mask {} repeats {}", m, c);
        seen.push(c);
    }
    assert_eq!(block_char(0), ' ');
}

#[test]
fn block_table_known_entries() {
    assert_eq!(block_char(1), '▘');
    assert_eq!(block_char(2), '▝');
    assert_eq!(block_char(4), '▖');
    assert_eq!(block_char(8), '▗');
    assert_eq!(block_char(5), '▌');
    assert_eq!(block_char(10), '▐');
    assert_eq!(block_char(3), '▀');
    assert_eq!(block_char(12), '▄');
    assert_eq!(block_char(15), '█');
}

#[test]
fn braille_table_total_and_zero_is_space() {
    let mut seen: Vec<char> = Vec::new();
    for m in 0u8..=255 {
        let c = braille_char(m);
        assert!(!seen.contains(&c), "mask {} repeats {}", m, c);
        seen.push(c);
    }
    assert_eq!(braille_char(0), ' ');
}

#[test]
fn braille_table_known_entries() {
    assert_eq!(braille_char(1), '⠁');
    assert_eq!(braille_char(2), '⠂');
    assert_eq!(braille_char(64), '⡀');
    assert_eq!(braille_char(128), '⢀');
    assert_eq!(braille_char(255), '⣿');
    for m in 1u8..=255 {
        assert_eq!(braille_char(m) as u32, 0x2800 + m as u32);
    }
}
