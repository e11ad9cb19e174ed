use oauth_loopback::space::{end_of_word, skip_space, space_len, space_len_before, trim};

#[test]
fn space_len_knows_every_white_space_character() {
    let mut c = 0u32;
    while c <= 0x10ffff {
        if let Some(ch) = char::from_u32(c) {
            let mut buf = [0u8; 4];
            let bytes = ch.encode_utf8(&mut buf).as_bytes();
            let expected = if ch.is_whitespace() { bytes.len() } else { 0 };
            assert_eq!(space_len(bytes, 0), expected, "U+{:04X}", c);
            assert_eq!(space_len_before(bytes, bytes.len()), expected, "U+{:04X}", c);
        }
        c += 1;
    }
}

#[test]
fn space_len_of_the_ascii_spaces() {
    assert_eq!(space_len(b" ", 0), 1);
    assert_eq!(space_len(b"\t", 0), 1);
    assert_eq!(space_len(b"\n", 0), 1);
    assert_eq!(space_len(b"\x0b", 0), 1);
    assert_eq!(space_len(b"\x0c", 0), 1);
    assert_eq!(space_len(b"\r", 0), 1);
    assert_eq!(space_len(b"\x08", 0), 0);
    assert_eq!(space_len(b"\x0e", 0), 0);
    assert_eq!(space_len(b"\x1f", 0), 0);
    assert_eq!(space_len(b"a", 0), 0);
}

#[test]
fn space_len_of_the_wider_spaces() {
    assert_eq!(space_len("\u{85}".as_bytes(), 0), 2);
    assert_eq!(space_len("\u{a0}".as_bytes(), 0), 2);
    assert_eq!(space_len("\u{1680}".as_bytes(), 0), 3);
    assert_eq!(space_len("\u{2000}".as_bytes(), 0), 3);
    assert_eq!(space_len("\u{200a}".as_bytes(), 0), 3);
    assert_eq!(space_len("\u{200b}".as_bytes(), 0), 0);
    assert_eq!(space_len("\u{2028}".as_bytes(), 0), 3);
    assert_eq!(space_len("\u{2029}".as_bytes(), 0), 3);
    assert_eq!(space_len("\u{202f}".as_bytes(), 0), 3);
    assert_eq!(space_len("\u{205f}".as_bytes(), 0), 3);
    assert_eq!(space_len("\u{3000}".as_bytes(), 0), 3);
}

#[test]
fn space_len_needs_the_whole_character() {
    assert_eq!(space_len(&[0xc2], 0), 0);
    assert_eq!(space_len(&[0xe2, 0x80], 0), 0);
    assert_eq!(space_len(&[0xa0], 0), 0);
    assert_eq!(space_len(&[0x20, 0xc2, 0xa0], 1), 2);
    assert_eq!(space_len(&[0x20, 0xc2, 0xa0], 2), 0);
    assert_eq!(space_len(&[0x20], 1), 0);
    assert_eq!(space_len(&[0x20], 7), 0);
    assert_eq!(space_len(&[], 0), 0);
}

#[test]
fn space_len_before_looks_backwards() {
    assert_eq!(space_len_before(b"a ", 2), 1);
    assert_eq!(space_len_before(b"a ", 1), 0);
    assert_eq!(space_len_before(b"a ", 0), 0);
    assert_eq!(space_len_before(b"a ", 3), 0);
    assert_eq!(space_len_before("a\u{a0}".as_bytes(), 3), 2);
    assert_eq!(space_len_before("a\u{a0}".as_bytes(), 2), 0);
    assert_eq!(space_len_before("a\u{3000}".as_bytes(), 4), 3);
    assert_eq!(space_len_before(&[0x80, 0xa0], 2), 0);
}

#[test]
fn skip_space_and_end_of_word_walk_a_line() {
    let line = b"  GET\t/login  HTTP/1.1";
    assert_eq!(skip_space(line, 0), 2);
    assert_eq!(end_of_word(line, 2), 5);
    assert_eq!(skip_space(line, 5), 6);
    assert_eq!(end_of_word(line, 6), 12);
    assert_eq!(skip_space(line, 12), 14);
    assert_eq!(end_of_word(line, 14), 22);
    assert_eq!(skip_space(line, 22), 22);
    assert_eq!(end_of_word(line, 22), 22);
    assert_eq!(skip_space(line, 40), 40);
    assert_eq!(end_of_word(line, 40), 40);
}

#[test]
fn words_agree_with_split_whitespace() {
    let samples = [
        "GET / HTTP/1.1",
        "  POST\t/callback  HTTP/1.1 ",
        "POST\u{3000}/callback\u{2003}HTTP/1.1",
        "\u{a0}\u{85}x\u{1680}y",
        "",
        "   ",
        "one",
        "caf\u{e9} \u{2028}na\u{ef}ve\u{205f}",
        "a\u{200b}b c",
    ];
    for s in samples {
        let bytes = s.as_bytes();
        let mut words: Vec<&[u8]> = Vec::new();
        let mut at = 0;
        loop {
            let start = skip_space(bytes, at);
            let end = end_of_word(bytes, start);
            if start == end {
                break;
            }
            words.push(&bytes[start..end]);
            at = end;
        }
        let expected: Vec<&[u8]> = s.split_whitespace().map(|w| w.as_bytes()).collect();
        assert_eq!(words, expected, "{:?}", s);
    }
}

#[test]
fn trim_agrees_with_the_trim_of_text() {
    let samples = [
        " 13 ",
        "13",
        "",
        " ",
        "\r\n\t 13\r",
        "\u{a0}13\u{3000}",
        "\u{2003}\u{85} a b \u{1680}\u{202f}",
        "\u{a0}",
        "x\u{a0}",
        "\u{a0}x",
        "\u{e9}",
        " \u{200b} ",
    ];
    for s in samples {
        assert_eq!(trim(s.as_bytes()), s.trim().as_bytes(), "{:?}", s);
    }
}

#[test]
fn trim_keeps_bytes_that_are_no_text() {
    assert_eq!(trim(&[0x20, 0xc2, 0x20]), &[0xc2][..]);
    assert_eq!(trim(&[0x85]), &[0x85][..]);
    assert_eq!(trim(&[0x20, 0xe2, 0x80, 0x20]), &[0xe2, 0x80][..]);
    assert_eq!(trim(&[0xff, 0x20, 0xfe]), &[0xff, 0x20, 0xfe][..]);
}
