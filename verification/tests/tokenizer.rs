use bitllm::server::cli::create_byte_tokenizer;
use bitllm::tokenizer::bpe::{BpeTokenizer, TokenizerConfig, TokenizerError};
use bitllm::tokenizer::bytelevel::{byte_encode, contraction_len, decode_byte, encode_byte, pretokenize_byte_level};
use bitllm::tokenizer::pretokens::{test_class, Class};
use bitllm::tokenizer::sentencepiece::read_varint;
use bitllm::tokenizer::simple::SimpleTokenizer;

fn vocab(list: &[(&str, u32)]) -> Vec<(String, u32)> {
    list.iter().map(|(t, id)| (t.to_string(), *id)).collect()
}

fn merges(list: &[(&str, &str)]) -> Vec<(String, String)> {
    list.iter().map(|(l, r)| (l.to_string(), r.to_string())).collect()
}

#[test]
fn test_simple_tokenizer() {
    let vocab = vec![('a', 0), ('b', 1), ('c', 2), ('d', 3), (' ', 4), ('!', 5)];
    let tok = SimpleTokenizer::from_vocab(&vocab);

    let encoded = tok.encode("abc");
    assert_eq!(encoded, vec![0, 1, 2]);

    let decoded = tok.decode(&encoded);
    assert_eq!(decoded, "abc");
}

#[test]
fn test_simple_tokenizer_with_spaces() {
    let vocab = vec![('h', 0), ('i', 1), (' ', 2)];
    let tok = SimpleTokenizer::from_vocab(&vocab);

    let encoded = tok.encode("hi hi");
    assert_eq!(encoded, vec![0, 1, 2, 0, 1]);
}

#[test]
fn simple_tokenizer_counts_characters_and_passes_over_unknown_ones() {
    let tok = SimpleTokenizer::from_vocab(&[('a', 0), ('b', 1), ('a', 7)]);
    assert_eq!(tok.vocab_size(), 2);
    assert_eq!(tok.encode("a?b"), vec![7, 1]);
    assert_eq!(tok.decode(&[7, 9, 1, 0]), "aba");
}

#[test]
fn test_bpe_basic() {
    let tok = BpeTokenizer::from_vocab_and_merges(
        vocab(&[("a", 0), ("b", 1), ("c", 2), ("ab", 3), ("bc", 4)]),
        merges(&[("a", "b"), ("b", "c")]),
    );

    let encoded = tok.encode("abc");
    assert!(encoded.contains(&3) || encoded.contains(&0));
}

#[test]
fn merges_go_by_rank_and_then_from_the_left() {
    let tok = BpeTokenizer::from_vocab_and_merges(
        vocab(&[("a", 0), ("b", 1), ("c", 2), ("ab", 3), ("bc", 4), ("aa", 5)]),
        merges(&[("b", "c"), ("a", "b"), ("a", "a"), ("b", "c")]),
    );
    assert_eq!(tok.encode("abc"), vec![0, 4]);
    assert_eq!(tok.encode("aaa"), vec![5, 0]);
    assert_eq!(tok.encode("ab"), vec![3]);
    assert_eq!(tok.vocab_size(), 6);
}

#[test]
fn a_part_without_a_token_falls_apart() {
    let config = TokenizerConfig { unk_token: Some(9), ..TokenizerConfig::default() };
    let tok = BpeTokenizer::from_vocab_and_merges_with_config(vocab(&[("a", 0), ("b", 1)]), merges(&[("a", "b")]), config);
    assert_eq!(tok.encode("ab"), vec![0, 1]);
    assert_eq!(tok.encode("az"), vec![0, 9]);
    let plain = BpeTokenizer::from_vocab_and_merges(vocab(&[("a", 0)]), vec![]);
    assert_eq!(plain.encode("az"), vec![0]);
}

#[test]
fn test_decode_with_eos() {
    let config = TokenizerConfig { vocab_size: 3, eos_token: Some(2), ..Default::default() };
    let tok = BpeTokenizer::from_vocab_and_merges_with_config(vocab(&[("a", 0), ("b", 1), ("eos", 2)]), vec![], config);
    let decoded = tok.decode(&[0, 1, 2, 0]).unwrap();
    assert_eq!(decoded, "ab");
}

#[test]
fn test_encode_with_special() {
    let config = TokenizerConfig { vocab_size: 4, bos_token: Some(1), eos_token: Some(2), ..Default::default() };
    let tok = BpeTokenizer::from_vocab_and_merges_with_config(vocab(&[("x", 3)]), vec![], config);

    let tokens = tok.encode_with_special("x", true, true);
    assert_eq!(tokens, vec![1, 3, 2]);
}

#[test]
fn marks_are_added_only_where_asked_for_and_do_not_show() {
    let config = TokenizerConfig { bos_token: Some(1), eos_token: Some(2), ..Default::default() };
    let tok = BpeTokenizer::from_vocab_and_merges_with_config(vocab(&[("x", 3)]), vec![], config);
    assert_eq!(tok.encode_with_special("x", false, false), vec![3]);
    assert_eq!(tok.encode_with_special("x", true, false), vec![1, 3]);
    assert_eq!(tok.decode(&tok.encode_with_special("x", true, true)).unwrap(), "x");
    let bare = BpeTokenizer::new(TokenizerConfig::default());
    assert!(bare.encode_with_special("x", true, true).is_empty());
    assert_eq!(bare.vocab_size(), 0);
}

#[test]
fn test_regex_split() {
    let tok = BpeTokenizer::new(TokenizerConfig::default());
    let words = tok.regex_split("hello, world!");
    assert_eq!(words, vec!["hello", ",", " ", "world", "!"]);
}

#[test]
fn words_keep_the_text() {
    let tok = BpeTokenizer::new(TokenizerConfig::default());
    let text = "  a\u{a0}b...c\td ";
    assert_eq!(tok.regex_split(text).concat(), text);
    assert!(tok.regex_split("").is_empty());
}

#[test]
fn test_byte_level_no_unk_for_spaces() {
    let mut list: Vec<(String, u32)> = Vec::new();
    for b in 33u8..=126 {
        list.push(((b as char).to_string(), (b - 33) as u32));
    }
    list.push(("Ġ".to_string(), 100));
    list.push(("Ġhello".to_string(), 101));
    list.push(("Ġworld".to_string(), 102));
    list.push(("hello".to_string(), 103));
    list.push(("world".to_string(), 104));
    let mut config = TokenizerConfig::default();
    config.byte_level = true;
    let tok = BpeTokenizer::from_vocab_and_merges_with_config(list, vec![], config);

    let encoded = tok.encode("hello world");
    if let Some(unk_id) = tok.config().unk_token {
        assert!(!encoded.contains(&unk_id), "byte-level mode should not emit unk for space-prefixed words");
    }
    assert!(encoded.contains(&100));
}

#[test]
fn bytes_are_found_again_in_their_characters() {
    for b in 0u8..=255 {
        assert_eq!(decode_byte(encode_byte(b)), Some(b));
    }
    assert_eq!(encode_byte(b' '), 'Ġ');
    assert_eq!(encode_byte(b'\n'), 'Ċ');
    assert_eq!(encode_byte(b'\t'), 'ĉ');
    assert_eq!(encode_byte(b'A'), 'A');
    assert_eq!(encode_byte(173), '\u{143}');
    assert_eq!(decode_byte('\u{2603}'), None);
    assert_eq!(byte_encode(&[' ', 'é']), "ĠÃ©");
}

#[test]
fn chunks_follow_the_byte_level_rules() {
    assert_eq!(pretokenize_byte_level("I'm  here, we'LL see 42x!\n", false), vec![
        "I", "'m", "Ġ", "Ġhere", ",", "Ġwe", "'LL", "Ġsee", "Ġ", "42", "x", "!Ċ"
    ]);
    assert_eq!(pretokenize_byte_level("a 12", true), vec!["a", "Ġ", "1", "2"]);
    assert_eq!(pretokenize_byte_level("'quote' ...", false), vec!["'", "quote", "'", "Ġ..."]);
    assert_eq!(pretokenize_byte_level("  ", false), vec!["ĠĠ"]);
    assert!(pretokenize_byte_level("", false).is_empty());
}

#[test]
fn contractions_are_seen_in_any_case() {
    let chars: Vec<char> = "'S'll'VE'rx".chars().collect();
    assert_eq!(contraction_len(&chars, 0), Some(2));
    assert_eq!(contraction_len(&chars, 2), Some(3));
    assert_eq!(contraction_len(&chars, 5), Some(3));
    assert_eq!(contraction_len(&chars, 8), None);
}

#[test]
fn byte_level_round_trip() {
    let mut list: Vec<(String, u32)> = (0u8..=255).map(|b| (encode_byte(b).to_string(), b as u32)).collect();
    list.push(("Ġw".to_string(), 300));
    list.push(("Ġwö".to_string(), 301));
    let config = TokenizerConfig { byte_level: true, digits_individual: true, ..Default::default() };
    let tok = BpeTokenizer::from_vocab_and_merges_with_config(list, merges(&[("Ġ", "w")]), config);
    for text in ["hello wörld 123\n\n  end", "", "it's \u{1f600} ok", "\t\r\n"] {
        assert_eq!(tok.decode(&tok.encode(text)).unwrap(), text);
    }
    assert!(tok.encode("a w").contains(&300));
}

#[test]
fn plain_round_trip() {
    let tok = create_byte_tokenizer();
    assert_eq!(tok.vocab_size(), 256);
    assert_eq!(tok.encode("hé!"), vec![104, 233, 33]);
    assert_eq!(tok.decode(&tok.encode("hé, ÿ 1!")).unwrap(), "hé, ÿ 1!");
    assert!(tok.encode("\u{2603}").is_empty());
}

#[test]
fn decode_names_an_unknown_token() {
    let tok = create_byte_tokenizer();
    match tok.decode(&[65, 999, 1000]) {
        Err(TokenizerError::UnknownToken(m)) => assert_eq!(m, "token_id=999"),
        other => panic!("{:?}", other.is_ok()),
    }
    assert_eq!(TokenizerError::UnknownToken("token_id=999".to_string()).message(), "Unknown token: token_id=999");
}

#[test]
fn decode_replaces_bytes_that_are_no_text() {
    let list: Vec<(String, u32)> = (0u8..=255).map(|b| (encode_byte(b).to_string(), b as u32)).collect();
    let config = TokenizerConfig { byte_level: true, ..Default::default() };
    let tok = BpeTokenizer::from_vocab_and_merges_with_config(list, vec![], config);
    assert_eq!(tok.decode(&[97, 255, 98]).unwrap(), "a\u{fffd}b");
}

#[test]
fn test_load_from_json() {
    let json = r#"{
        "model": {
            "type": "BPE",
            "vocab": {
                "hello": 0,
                "world": 1,
                "lo": 2,
                "wor": 3,
                " </s>": 4
            },
            "merges": ["l o", "lo r", "wor ld", "hello world"]
        },
        "added_tokens": [
            {"id": 4, "content": "</s>", "special": true}
        ]
    }"#;

    let tok = BpeTokenizer::from_json(json).unwrap();
    assert_eq!(tok.vocab_size(), 5);
    assert_eq!(tok.config().eos_token, Some(4));

    let encoded = tok.encode("hello");
    assert!(!encoded.is_empty());
}

#[test]
fn test_load_from_json_with_bos_eos() {
    let json = r#"{
        "model": {
            "type": "BPE",
            "vocab": {"a": 0, "b": 1, "c": 2},
            "merges": []
        },
        "added_tokens": [
            {"id": 3, "content": "<s>", "special": true},
            {"id": 4, "content": "</s>", "special": true}
        ]
    }"#;

    let tok = BpeTokenizer::from_json(json).unwrap();
    assert_eq!(tok.config().bos_token, Some(3));
    assert_eq!(tok.config().eos_token, Some(4));
}

#[test]
fn test_load_json_no_added_tokens() {
    let json = r#"{
        "model": {
            "type": "BPE",
            "vocab": {"x": 0, "y": 1},
            "merges": []
        }
    }"#;

    let tok = BpeTokenizer::from_json(json).unwrap();
    assert_eq!(tok.vocab_size(), 2);
    assert_eq!(tok.config().bos_token, None);
    assert_eq!(tok.config().eos_token, None);
}

#[test]
fn test_load_json_unsupported_type() {
    let json = r#"{
        "model": {
            "type": "WordPiece",
            "vocab": {},
            "merges": []
        }
    }"#;

    assert!(BpeTokenizer::from_json(json).is_err());
}

#[test]
fn test_load_json_missing_model() {
    let json = r#"{"not_model": {}}"#;
    assert!(BpeTokenizer::from_json(json).is_err());
}

fn load_error(json: &str) -> String {
    match BpeTokenizer::from_json(json) {
        Err(e) => e.message(),
        Ok(_) => panic!("loaded"),
    }
}

#[test]
fn json_errors_say_what_is_wrong() {
    assert_eq!(load_error("{}"), "Load error: missing 'model' field");
    assert_eq!(load_error(r#"{"model": {"type": "Unigram"}}"#), "Load error: unsupported model type: Unigram");
    assert_eq!(load_error(r#"{"model": {}}"#), "Load error: missing 'model.vocab'");
    assert_eq!(load_error(r#"{"model": {"vocab": []}}"#), "Load error: model.vocab must be an object");
    assert_eq!(load_error(r#"{"model": {"vocab": {"a": 0}}}"#), "Load error: missing 'model.merges'");
    assert_eq!(
        load_error(r#"{"model": {"vocab": {"a": 4294967296}, "merges": []}}"#),
        "Load error: token id 4294967296 exceeds u32 range for token 'a'"
    );
    assert!(load_error("{").starts_with("JSON error: "));
}

#[test]
fn json_flags_are_found_at_any_depth() {
    let json = r#"{
        "model": {"vocab": {"a": 0, "<unk>": 5, "no": "x"}, "merges": ["a b c", "single", 3]},
        "pre_tokenizer": {"type": "Sequence", "pretokenizers": [
            {"type": "Digits", "individual_digits": true},
            {"type": "Sequence", "pretokenizers": [{"type": "ByteLevel"}]}
        ]}
    }"#;
    let tok = BpeTokenizer::from_json(json).unwrap();
    assert!(tok.config().byte_level);
    assert!(tok.config().digits_individual);
    assert_eq!(tok.config().unk_token, Some(5));
    assert_eq!(tok.vocab_size(), 2);
    let plain = BpeTokenizer::from_json(r#"{"model": {"vocab": {}, "merges": {}}, "pre_tokenizer": {"type": "Digits"}}"#).unwrap();
    assert!(!plain.config().byte_level);
    assert!(!plain.config().digits_individual);
}

fn write_varint(buf: &mut Vec<u8>, mut val: u64) {
    while val >= 0x80 {
        buf.push((val & 0x7F) as u8 | 0x80);
        val >>= 7;
    }
    buf.push(val as u8);
}

fn write_piece(buf: &mut Vec<u8>, piece: &str, score: f32, piece_type: i32) {
    let mut piece_data = Vec::new();
    piece_data.push(0x0A);
    write_varint(&mut piece_data, piece.len() as u64);
    piece_data.extend_from_slice(piece.as_bytes());
    piece_data.push(0x15);
    piece_data.extend_from_slice(&score.to_le_bytes());
    piece_data.push(0x18);
    write_varint(&mut piece_data, piece_type as u64);

    buf.push(0x0A);
    write_varint(buf, piece_data.len() as u64);
    buf.extend_from_slice(&piece_data);
}

#[test]
fn test_sentencepiece_proto_parsing() {
    let mut data = Vec::new();
    write_piece(&mut data, "<s>", 0.0, 3);
    write_piece(&mut data, "hello", -1.5, 1);
    write_piece(&mut data, "</s>", 0.0, 3);

    let tok = BpeTokenizer::from_sentencepiece_bytes(&data).unwrap();
    assert_eq!(tok.vocab_size(), 3);
    assert_eq!(tok.config().bos_token, Some(0));
    assert_eq!(tok.config().eos_token, Some(2));
}

#[test]
fn sentencepiece_reads_pieces_as_text() {
    let mut data = Vec::new();
    write_piece(&mut data, "hello", 0.0, 1);
    write_piece(&mut data, "gr\u{fc}n", 0.0, 1);
    // A piece of one byte that is no text.
    data.extend_from_slice(&[0x0A, 3, 0x0A, 1, 0xff]);
    let tok = BpeTokenizer::from_sentencepiece_bytes(&data).unwrap();
    assert_eq!(tok.decode(&[0]).unwrap(), "hello");
    assert_eq!(tok.decode(&[1]).unwrap(), "gr\u{fc}n");
    assert_eq!(tok.decode(&[2]).unwrap(), "\u{fffd}");
}

#[test]
fn sentencepiece_marks_what_is_unknown() {
    let mut data = Vec::new();
    write_piece(&mut data, "?", 0.0, 2);
    write_piece(&mut data, "!", 0.0, 2);
    write_piece(&mut data, "a", 0.0, 1);
    data.push(0x10);
    write_varint(&mut data, 300);
    data.push(0x1D);
    data.extend_from_slice(&[0; 4]);
    let tok = BpeTokenizer::from_sentencepiece_bytes(&data).unwrap();
    assert_eq!(tok.config().unk_token, Some(0));
    assert_eq!(tok.encode("ax"), vec![2, 0]);
    write_piece(&mut data, "<unk>", 0.0, 3);
    let tok = BpeTokenizer::from_sentencepiece_bytes(&data).unwrap();
    assert_eq!(tok.config().unk_token, Some(3));
}

fn proto_error(data: &[u8]) -> String {
    match BpeTokenizer::from_sentencepiece_bytes(data) {
        Err(e) => e.message(),
        Ok(_) => panic!("parsed"),
    }
}

#[test]
fn sentencepiece_errors_say_what_is_wrong() {
    assert_eq!(proto_error(&[0x80]), "Protobuf error: truncated varint");
    assert_eq!(proto_error(&[0xff; 10]), "Protobuf error: varint too long");
    assert_eq!(proto_error(&[0x0A, 5, 1]), "Protobuf error: truncated piece data");
    assert_eq!(proto_error(&[0x11, 5, 1]), "Protobuf error: truncated 64-bit field");
    assert_eq!(proto_error(&[0x12, 5, 1]), "Protobuf error: truncated length-delimited field");
    assert_eq!(proto_error(&[0x15, 5, 1]), "Protobuf error: truncated 32-bit field");
    assert_eq!(proto_error(&[0x13]), "Protobuf error: unknown wire type 3 for field 2");
    assert_eq!(proto_error(&[0x0A, 2, 0x0A, 9]), "Protobuf error: truncated piece string");
    assert_eq!(proto_error(&[0x0A, 2, 0x15, 9]), "Protobuf error: truncated score");
    assert_eq!(proto_error(&[0x0A, 1, 0x1C]), "Protobuf error: unknown wire type in piece: 4 for field 3");
}

#[test]
fn varints_have_sixty_four_bits() {
    let mut buf = Vec::new();
    write_varint(&mut buf, u64::MAX);
    assert_eq!(read_varint(&buf, 0).unwrap(), (u64::MAX, 10));
    assert_eq!(read_varint(&[0xac, 0x02, 7], 0).unwrap(), (300, 2));
    assert_eq!(read_varint(&[0xac, 0x02, 7], 2).unwrap(), (7, 3));
    let wide = [0x80, 0x80, 0x80, 0x80, 0x80, 0x80, 0x80, 0x80, 0x80, 0x7f];
    assert_eq!(read_varint(&wide, 0).unwrap(), (1 << 63, 10));
}

#[test]
fn classes_of_characters() {
    let white: Vec<u32> = (0u32..0x11_0000)
        .filter(|v| char::from_u32(*v).is_some_and(|c| test_class(c, Class::Space)))
        .collect();
    assert_eq!(white.len(), 25);
    assert!(white.contains(&0x3000) && white.contains(&0x85) && !white.contains(&0x200b));
    for v in 0u8..128 {
        let c = v as char;
        assert_eq!(test_class(c, Class::Letter), c.is_ascii_alphabetic());
        assert_eq!(test_class(c, Class::Number), c.is_ascii_digit());
    }
    assert!(test_class('\u{e9}', Class::Letter));
    assert!(test_class('\u{b2}', Class::Number));
}
