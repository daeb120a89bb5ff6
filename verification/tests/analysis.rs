use lecture_analyzer::analyze::{
    count_words, scrub_text, split_sentences, split_words, summarize, take_top, top_keywords,
    top_sentences,
};
use lecture_analyzer::util::suggest_links;

fn strings(items: &[&str]) -> Vec<String> {
    items.iter().map(|s| s.to_string()).collect()
}

#[test]
fn links_search_for_the_keywords() {
    let links = suggest_links(&strings(&["rust", "machine learning", " a  b "]));
    assert_eq!(
        links,
        strings(&[
            "https://www.google.com/search?q=rust",
            "https://www.google.com/search?q=machine+learning",
            "https://www.google.com/search?q=+a++b+",
        ])
    );
}

#[test]
fn no_keyword_gives_no_link() {
    assert_eq!(suggest_links(&[]), Vec::<String>::new());
}

#[test]
fn only_spaces_become_plus_signs() {
    let links = suggest_links(&strings(&["a\tb+c&d"]));
    assert_eq!(links, strings(&["https://www.google.com/search?q=a\tb+c&d"]));
}

#[test]
fn scrubbing_replaces_punctuation_by_spaces() {
    assert_eq!(scrub_text("data-driven, (really)!"), "data driven   really  ");
    assert_eq!(scrub_text("tab\tand\nline"), "tab\tand\nline");
    assert_eq!(scrub_text("caf\u{e9} 123"), "caf\u{e9} 123");
    assert_eq!(scrub_text(""), "");
}

#[test]
fn words_are_split_at_white_space() {
    assert_eq!(split_words("  one two\tthree\n"), strings(&["one", "two", "three"]));
    assert_eq!(split_words("single"), strings(&["single"]));
    assert_eq!(split_words(" \n "), Vec::<String>::new());
    assert_eq!(split_words(""), Vec::<String>::new());
}

#[test]
fn sentences_are_split_at_marks() {
    assert_eq!(split_sentences("One. Two! Three? Four"), strings(&["One", " Two", " Three", " Four"]));
    assert_eq!(split_sentences("End."), strings(&["End", ""]));
    assert_eq!(split_sentences(""), strings(&[""]));
    assert_eq!(split_sentences("?!"), strings(&["", "", ""]));
}

#[test]
fn long_words_are_counted_in_first_seen_order() {
    let words = strings(&["beta", "alpha", "the", "beta", "gamma", "alpha", "beta", "abc"]);
    assert_eq!(
        count_words(&words),
        vec![("beta".to_string(), 3), ("alpha".to_string(), 2), ("gamma".to_string(), 1)]
    );
}

#[test]
fn word_length_is_counted_in_bytes() {
    let words = strings(&["\u{e9}\u{e9}", "abc", "\u{e9}a"]);
    assert_eq!(count_words(&words), vec![("\u{e9}\u{e9}".to_string(), 1)]);
}

#[test]
fn top_takes_the_greatest_and_the_earlier_among_equals() {
    let items = vec![
        ("a".to_string(), 2),
        ("b".to_string(), 5),
        ("c".to_string(), 2),
        ("d".to_string(), 5),
        ("e".to_string(), 1),
    ];
    assert_eq!(take_top(items.clone(), 3), strings(&["b", "d", "a"]));
    assert_eq!(take_top(items.clone(), 0), Vec::<String>::new());
    assert_eq!(take_top(items.clone(), 9), strings(&["b", "d", "a", "c", "e"]));
    assert_eq!(take_top(Vec::new(), 3), Vec::<String>::new());
}

#[test]
fn keywords_are_the_five_most_frequent_long_words() {
    let text = "zeta alpha beta gamma delta epsilon alpha beta gamma alpha beta alpha eta";
    assert_eq!(top_keywords(text), strings(&["alpha", "beta", "gamma", "zeta", "delta"]));
}

#[test]
fn summary_is_the_three_longest_sentences() {
    let text = "Short one. This is the longest sentence of all! Medium sized here? Tiny.";
    assert_eq!(
        top_sentences(text),
        strings(&["This is the longest sentence of all", "Medium sized here", "Short one"])
    );
}

#[test]
fn summary_of_equally_long_sentences_keeps_their_order() {
    assert_eq!(top_sentences("bbb.aaa.ccc.ddd"), strings(&["bbb", "aaa", "ccc"]));
}

#[test]
fn summary_of_a_text_without_marks_is_the_text() {
    assert_eq!(top_sentences("  no marks here "), strings(&["no marks here"]));
    assert_eq!(top_sentences(""), strings(&[""]));
}

#[test]
fn summarize_counts_words_in_lower_case() {
    let (keywords, summary) = summarize("Hello HELLO hello World, world! Again");
    assert_eq!(keywords, strings(&["hello", "world", "again"]));
    assert_eq!(summary, strings(&["Hello HELLO hello World, world", "Again"]));
}

#[test]
fn summarize_scrubs_punctuation_from_keywords() {
    let (keywords, _) = summarize("data-driven (data) \"driven\" data; short: a an the");
    assert_eq!(keywords, strings(&["data", "driven", "short"]));
}

#[test]
fn summarize_of_nothing() {
    let (keywords, summary) = summarize("");
    assert_eq!(keywords, Vec::<String>::new());
    assert_eq!(summary, strings(&[""]));
}
