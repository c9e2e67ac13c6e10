use sauvequipeut::radar::{
    decode_b64, decode_bytes, is_white_space, process_blocks, render_line, value_of_symbol,
    words_of, RadarError,
};

const ALPHABET: &str = "abcdefghijklmnopqrstuvwxyzABCDEFGHIJKLMNOPQRSTUVWXYZ0123456789+/";

fn encode(bytes: &[u8]) -> String {
    let symbols: Vec<char> = ALPHABET.chars().collect();
    let mut bits: Vec<bool> = Vec::new();
    for byte in bytes {
        for place in (0..8).rev() {
            bits.push((byte >> place) & 1 == 1);
        }
    }
    let mut out = String::new();
    for group in bits.chunks(6) {
        if group.len() == 6 {
            let mut value = 0usize;
            for bit in group {
                value = value * 2 + usize::from(*bit);
            }
            out.push(symbols[value]);
        }
    }
    out
}

fn strings(rows: &[&str]) -> Vec<String> {
    rows.iter().map(|row| row.to_string()).collect()
}

#[test]
fn test_decode_b64() {
    let encoded = "abcdefghijklmnopqrstuvwxyzABCDEFGHIJKLMNOPQRSTUVWXYZ0123456789+/";
    let decoded = decode_b64(encoded);
    assert!(decoded.is_ok());
}

#[test]
fn decode_of_the_whole_alphabet() {
    let decoded = decode_b64(ALPHABET).unwrap();
    assert_eq!(
        decoded,
        "00000000 00010000 10000011 00010000 01010001 10000111 20 92 8B 30 D3 8F 41 14 93 51 55 97 \
         61 96 9B 71 D7 9F 82 18 A3 92 59 A7 A2 9A AB B2 DB AF C3 1C B3 D3 5D B7 E3 9E BB F3 DF BF"
    );
}

#[test]
fn decode_of_a_radar_view() {
    assert_eq!(
        decode_b64("zveKvsuL8a8aaaa").unwrap(),
        "01100101 01010001 00100100 01010101 00100101 00100101 F0 0F 00 00 00"
    );
    assert_eq!(
        decode_b64("ieysGjGO8papaaa").unwrap(),
        "00100000 01000110 00010010 10000000 10011000 00101000 F0 F0 0F 00 00"
    );
}

#[test]
fn decode_of_the_empty_string_is_empty() {
    assert_eq!(decode_b64(""), Ok(String::new()));
    assert_eq!(decode_bytes(""), Ok(Vec::new()));
}

#[test]
fn decode_rejects_a_character_outside_the_alphabet() {
    assert_eq!(decode_b64("!"), Err(RadarError::InvalidSymbol('!')));
    assert_eq!(decode_b64("abc!def"), Err(RadarError::InvalidSymbol('!')));
    assert_eq!(decode_b64("ab=="), Err(RadarError::InvalidSymbol('=')));
    assert_eq!(decode_b64("a b"), Err(RadarError::InvalidSymbol(' ')));
    assert_eq!(decode_b64("a-b_c"), Err(RadarError::InvalidSymbol('-')));
    assert_eq!(decode_b64("aé!"), Err(RadarError::InvalidSymbol('é')));
    assert_eq!(decode_bytes("ab\n"), Err(RadarError::InvalidSymbol('\n')));
}

#[test]
fn decode_drops_a_trailing_partial_byte() {
    assert_eq!(decode_b64("a").unwrap(), "");
    assert_eq!(decode_b64("/").unwrap(), "");
    assert_eq!(decode_b64("ab").unwrap(), "00000000");
    assert_eq!(decode_b64("abc").unwrap(), "00000000 00010000");
    assert_eq!(decode_b64("abcd").unwrap(), "00000000 00010000 10000011");
    assert_eq!(decode_b64("Hello").unwrap(), "10000100 01000010 11001011");
    assert_eq!(decode_b64("////").unwrap(), "11111111 11111111 11111111");
    assert_eq!(decode_bytes("//").unwrap(), vec![0xff]);
    assert_eq!(decode_bytes("Hello").unwrap(), vec![0x84, 0x42, 0xcb]);
}

#[test]
fn symbol_values_follow_the_alphabet() {
    for (value, symbol) in ALPHABET.chars().enumerate() {
        assert_eq!(value_of_symbol(symbol), Some(value as u8));
    }
    for other in ['!', '=', '-', '_', ' ', '`', '{', '@', '[', ':', '.', 'é', '\0'] {
        assert_eq!(value_of_symbol(other), None);
    }
}

#[test]
fn line_is_binary_for_six_bytes_and_hexadecimal_after() {
    assert_eq!(render_line(&vec![]), "");
    assert_eq!(render_line(&vec![0]), "00000000");
    assert_eq!(render_line(&vec![1, 2, 4, 8, 16, 32]), "00000001 00000010 00000100 00001000 00010000 00100000");
    assert_eq!(
        render_line(&vec![255, 128, 64, 170, 85, 3, 0, 9, 10, 15, 16, 171, 255]),
        "11111111 10000000 01000000 10101010 01010101 00000011 00 09 0A 0F 10 AB FF"
    );
}

#[test]
fn decode_then_encode_gives_whole_bytes_back() {
    for text in ["", "abcd", "zveKvsuL", "Hello+World/0123", ALPHABET] {
        assert_eq!(text.len() * 6 % 8, 0);
        let bytes = decode_bytes(text).unwrap();
        assert_eq!(bytes.len(), text.len() * 6 / 8);
        assert_eq!(encode(&bytes), text);
    }
}

#[test]
fn decode_then_encode_loses_only_trailing_bits() {
    for text in ["a", "ab", "abc", "Hello", "zveKvsuL8a8aaaa", "/+/+/+/"] {
        let bytes = decode_bytes(text).unwrap();
        assert_eq!(bytes.len(), text.len() * 6 / 8);
        let kept = bytes.len() * 8 / 6;
        assert_eq!(encode(&bytes), text[..kept]);
        assert!(text.len() - kept <= 2);
    }
}

#[test]
fn blocks_of_a_radar_view() {
    let line = decode_b64("zveKvsuL8a8aaaa").unwrap();
    let (horizontal, vertical, cells) = process_blocks(&line).unwrap();
    assert_eq!(horizontal, strings(&["00 10 01", "00 01 01", "00 01 01", "10 01 01"]));
    assert_eq!(vertical, strings(&["00 10 01 01", "00 10 01 01", "01 01 01 01"]));
    assert_eq!(cells, strings(&["F00", "F00", "000"]));

    let line = decode_b64("ieysGjGO8papaaa").unwrap();
    let (horizontal, vertical, cells) = process_blocks(&line).unwrap();
    assert_eq!(horizontal, strings(&["00 01 00", "10 01 00", "01 10 00", "10 00 00"]));
    assert_eq!(vertical, strings(&["00 10 10 00", "10 01 10 00", "10 00 00 00"]));
    assert_eq!(cells, strings(&["F0F", "00F", "000"]));
}

#[test]
fn blocks_of_the_whole_alphabet() {
    let line = decode_b64(ALPHABET).unwrap();
    let (horizontal, vertical, cells) = process_blocks(&line).unwrap();
    assert_eq!(horizontal, strings(&["10 00 00", "11 00 01", "00 00 00", "00 00 00"]));
    assert_eq!(vertical, strings(&["10 00 01 11", "01 01 00 01", "00 01 00 00"]));
    assert_eq!(cells, strings(&["209", "28B", "30D"]));
}

#[test]
fn blocks_of_a_line_with_odd_tokens() {
    let (horizontal, vertical, cells) =
        process_blocks("a\tb cd efg 12345 6 7 89 ab cdefg hi").unwrap();
    assert_eq!(horizontal, strings(&["ef g cd", "a b"]));
    assert_eq!(vertical, strings(&["7 6 12 34", "5"]));
    assert_eq!(cells, strings(&["89a", "bcd", "efg"]));
}

#[test]
fn blocks_with_empty_wall_tokens() {
    let (horizontal, vertical, cells) = process_blocks("      123 456 789").unwrap();
    assert_eq!(horizontal, Vec::<String>::new());
    assert_eq!(vertical, Vec::<String>::new());
    assert_eq!(cells, strings(&["123", "456", "789"]));
}

#[test]
fn blocks_reject_a_line_with_fewer_than_nine_tokens() {
    assert_eq!(process_blocks(""), Err(RadarError::MalformedRadarPayload));
    assert_eq!(process_blocks("00000000"), Err(RadarError::MalformedRadarPayload));
    assert_eq!(
        process_blocks("00000000 00010000 10000011"),
        Err(RadarError::MalformedRadarPayload)
    );
    assert_eq!(
        process_blocks("1 2 3 4 5 6 abcdefghi"),
        Err(RadarError::MalformedRadarPayload)
    );
    assert_eq!(
        process_blocks("1 2 3 4 5 6 abcdefgh ijk"),
        Err(RadarError::MalformedRadarPayload)
    );
    assert!(process_blocks("1 2 3 4 5 6 abcdefg h i").is_ok());
}

#[test]
fn blocks_reject_cell_tokens_with_fewer_than_nine_characters() {
    assert_eq!(
        process_blocks("1 2 3 4 5 6 ab cd efgh"),
        Err(RadarError::MalformedRadarPayload)
    );
    assert_eq!(
        process_blocks("1 2 3 4 5 6 F0 0F 00 00"),
        Err(RadarError::MalformedRadarPayload)
    );
    assert_eq!(
        process_blocks("1 2 3 4 5 6   "),
        Err(RadarError::MalformedRadarPayload)
    );
    assert!(process_blocks("1 2 3 4 5 6 ab cd efghi").is_ok());
    let line = decode_b64("zveKvsuL8a8aa").unwrap();
    assert_eq!(line, "01100101 01010001 00100100 01010101 00100101 00100101 F0 0F 00");
    assert_eq!(process_blocks(&line), Err(RadarError::MalformedRadarPayload));
}

#[test]
fn white_space_is_what_the_standard_library_says() {
    for code in 0..=0x10FFFFu32 {
        if let Some(c) = char::from_u32(code) {
            assert_eq!(is_white_space(c), c.is_whitespace(), "U+{:04X}", code);
        }
    }
}

#[test]
fn words_are_runs_without_white_space() {
    let words = |text: &str| -> Vec<String> {
        words_of(&text.chars().collect())
            .iter()
            .map(|word| word.iter().collect())
            .collect()
    };
    for text in ["", " ", "a", " a", "a ", "ab  cd\te\n\nf", "\u{3000}x\u{a0}y z\u{2003}", "  0 1  "] {
        let expected: Vec<String> = text.split_whitespace().map(|word| word.to_string()).collect();
        assert_eq!(words(text), expected);
    }
}
