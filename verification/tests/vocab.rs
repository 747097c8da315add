use rustc_hash::FxHashMap;
use tiktoken_interop::text::{as_text, split_valid_prefix};
use tiktoken_interop::vocab::{Vocabulary, VocabularyMiss};
use tiktoken_interop::Rank;

fn vocabulary() -> Vocabulary {
    let pieces: Vec<(&[u8], Rank)> =
        vec![(b"a", 1), (b"b", 2), (b"ab", 3), (&[0xC3], 4), (&[0xA9], 5), (&[0xC3, 0xA9], 6)];
    let mut encoder: FxHashMap<Vec<u8>, Rank> = FxHashMap::default();
    let mut decoder: FxHashMap<Rank, Vec<u8>> = FxHashMap::default();
    for (bytes, rank) in &pieces {
        encoder.insert(bytes.to_vec(), *rank);
        decoder.insert(*rank, bytes.to_vec());
    }
    let mut special_encoder: FxHashMap<String, Rank> = FxHashMap::default();
    let mut special_decoder: FxHashMap<Rank, Vec<u8>> = FxHashMap::default();
    special_encoder.insert("<|eot|>".to_string(), 100);
    special_decoder.insert(100, b"<|eot|>".to_vec());
    let mut sorted: Vec<Vec<u8>> = pieces.iter().map(|(bytes, _)| bytes.to_vec()).collect();
    sorted.sort();
    Vocabulary::new(encoder, special_encoder, decoder, special_decoder, sorted)
}

fn piece_of(miss: VocabularyMiss) -> Vec<u8> {
    match miss {
        VocabularyMiss::Piece(bytes) => bytes,
        VocabularyMiss::Token(token) => panic!("a token was missed: {}", token),
    }
}

fn token_of(miss: VocabularyMiss) -> Rank {
    match miss {
        VocabularyMiss::Token(token) => token,
        VocabularyMiss::Piece(bytes) => panic!("a piece was missed: {:?}", bytes),
    }
}

#[test]
fn lookup_is_exact_match_only() {
    let vocab = vocabulary();
    assert_eq!(vocab.lookup(b"a"), Some(1));
    assert_eq!(vocab.lookup(b"ab"), Some(3));
    assert_eq!(vocab.lookup(&[0xC3]), Some(4));
    assert_eq!(vocab.lookup(b"abb"), None);
    assert_eq!(vocab.lookup(b""), None);
    assert_eq!(vocab.lookup(b"<|eot|>"), None);
}

#[test]
fn single_token_of_an_ordinary_piece() {
    let vocab = vocabulary();
    assert_eq!(vocab.encode_single_token(b"b").unwrap(), 2);
    assert_eq!(vocab.encode_single_token(&[0xC3, 0xA9]).unwrap(), 6);
}

#[test]
fn single_token_of_a_special_name() {
    assert_eq!(vocabulary().encode_single_token(b"<|eot|>").unwrap(), 100);
}

#[test]
fn single_token_miss_carries_the_bytes() {
    let vocab = vocabulary();
    assert_eq!(piece_of(vocab.encode_single_token(b"ba").unwrap_err()), b"ba".to_vec());
    assert_eq!(piece_of(vocab.encode_single_token(&[0xFF]).unwrap_err()), vec![0xFF]);
    assert_eq!(piece_of(vocab.encode_single_token(b"").unwrap_err()), Vec::<u8>::new());
}

#[test]
fn bytes_of_an_ordinary_token() {
    let vocab = vocabulary();
    assert_eq!(vocab.decode_single_token_bytes(3).unwrap(), b"ab");
    assert_eq!(vocab.decode_single_token_bytes(4).unwrap(), &[0xC3]);
}

#[test]
fn bytes_of_a_special_token() {
    assert_eq!(vocabulary().decode_single_token_bytes(100).unwrap(), b"<|eot|>");
}

#[test]
fn bytes_of_an_unknown_token_carry_the_rank() {
    let vocab = vocabulary();
    assert_eq!(token_of(vocab.decode_single_token_bytes(0).unwrap_err()), 0);
    assert_eq!(token_of(vocab.decode_single_token_bytes(77).unwrap_err()), 77);
}

#[test]
fn decode_joins_the_bytes_in_order() {
    let vocab = vocabulary();
    assert_eq!(vocab.decode_bytes(&[3, 1, 100, 2]).unwrap(), b"aba<|eot|>b".to_vec());
    assert_eq!(vocab.decode_bytes(&[4, 5]).unwrap(), vec![0xC3, 0xA9]);
    assert_eq!(vocab.decode_bytes(&[]).unwrap(), Vec::<u8>::new());
}

#[test]
fn decode_fails_on_the_first_unknown_token() {
    let vocab = vocabulary();
    assert_eq!(token_of(vocab.decode_bytes(&[1, 50, 2, 60]).unwrap_err()), 50);
    assert_eq!(token_of(vocab.decode_bytes(&[0]).unwrap_err()), 0);
}

#[test]
fn token_byte_values_are_listed_in_order() {
    let expected: Vec<Vec<u8>> = vec![
        b"a".to_vec(),
        b"ab".to_vec(),
        b"b".to_vec(),
        vec![0xA9],
        vec![0xC3],
        vec![0xC3, 0xA9],
    ];
    assert_eq!(vocabulary().token_byte_values(), &expected);
}

#[test]
fn valid_bytes_are_text() {
    assert_eq!(as_text(b"ab"), Ok("ab"));
    assert_eq!(as_text(b""), Ok(""));
    assert_eq!(as_text("h\u{e9}llo \u{20ac}".as_bytes()), Ok("h\u{e9}llo \u{20ac}"));
}

#[test]
fn invalid_bytes_give_the_length_of_the_valid_prefix() {
    assert_eq!(as_text(&[0xC3]), Err(0));
    assert_eq!(as_text(&[b'a', b'b', 0xC3]), Err(2));
    assert_eq!(as_text(&[b'a', 0xE2, 0x82]), Err(1));
    assert_eq!(as_text(&[b'a', 0xC3, 0xA9, 0xFF, b'b']), Err(3));
    assert_eq!(as_text(&[0xC0, 0x80]), Err(0));
    assert_eq!(as_text(&[0xED, 0xA0, 0x80]), Err(0));
}

#[test]
fn split_behind_the_valid_prefix() {
    assert_eq!(split_valid_prefix(b"ab"), ("ab", &b""[..]));
    assert_eq!(split_valid_prefix(&[b'a', b'b', 0xC3]), ("ab", &[0xC3][..]));
    assert_eq!(split_valid_prefix(&[0xC3]), ("", &[0xC3][..]));
    assert_eq!(split_valid_prefix(&[b'a', 0xFF, b'b']), ("a", &[0xFF, b'b'][..]));
    assert_eq!(split_valid_prefix(b""), ("", &b""[..]));
}
