use qpl_parser::api::{feed_decoded, FeedResult};
use qpl_parser::registry::SchemaRegistry;
use qpl_parser::schemas::concert_singer;
use std::str::FromStr;
use tokenizers::Tokenizer;

const WORDS: [&str; 14] = [
    "concert_singer", "|", "#1", "=", "Scan", "Table", "[", "stadium", "]", "Output", "Location",
    "]</s>", "<unk>", "Nowhere",
];

/// A word-level tokenizer over `WORDS`; decoding joins words with spaces.
fn word_tokenizer() -> Tokenizer {
    let vocab = WORDS
        .iter()
        .enumerate()
        .map(|(i, w)| format!("\"{}\": {}", w, i))
        .collect::<Vec<_>>()
        .join(", ");
    let json = format!(
        "{{\"version\": \"1.0\", \"truncation\": null, \"padding\": null, \"added_tokens\": [], \"normalizer\": null, \"pre_tokenizer\": null, \"post_processor\": null, \"decoder\": null, \"model\": {{\"type\": \"WordLevel\", \"vocab\": {{{}}}, \"unk_token\": \"<unk>\"}}}}",
        vocab
    );
    Tokenizer::from_str(&json).unwrap()
}

fn id(word: &str) -> u32 {
    WORDS.iter().position(|w| *w == word).unwrap() as u32
}

fn row() -> Vec<u32> {
    ["concert_singer", "|", "#1", "=", "Scan", "Table", "[", "stadium", "]", "Output", "[", "Location"]
        .iter()
        .map(|w| id(w))
        .collect()
}

fn registry() -> SchemaRegistry {
    let mut reg = SchemaRegistry::new();
    reg.register(concert_singer());
    reg
}

fn feed(reg: &SchemaRegistry, tc: bool, tokenizer: &Tokenizer, ids: &[u32], token: u32) -> FeedResult {
    let mut all = ids.to_vec();
    all.push(token);
    feed_decoded(reg, tc, &tokenizer.decode(&all, false).unwrap())
}

#[test]
fn decoded_candidates_are_classified() {
    let tokenizer = word_tokenizer();
    let reg = registry();
    let ids = row();
    assert_eq!(feed(&reg, true, &tokenizer, &ids, id("]</s>")), FeedResult::Complete);
    assert_eq!(feed(&reg, true, &tokenizer, &ids, id("]")), FeedResult::Partial);
    assert_eq!(feed(&reg, true, &tokenizer, &ids, id("Nowhere")), FeedResult::Failure);
}
