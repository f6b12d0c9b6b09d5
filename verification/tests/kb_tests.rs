use matsux_term::kb::{
    count_hits, example_paths, goal_words, is_example_file, match_score, rank_by_score,
    rank_candidates, render_examples, KbCandidate, KbExample,
};

fn cand(stem: &str, goal: &str) -> KbCandidate {
    KbCandidate { stem: stem.to_string(), meta_goal: goal.to_string() }
}

#[test]
fn example_files() {
    assert!(is_example_file(&Some("rs".to_string())));
    assert!(!is_example_file(&Some("json".to_string())));
    assert!(!is_example_file(&None));
}

#[test]
fn scoring_counts_long_words() {
    let ws = goal_words("Skriv en SERVER med tokio  och http");
    assert_eq!(ws, vec!["Skriv", "en", "SERVER", "med", "tokio", "och", "http"]);
    let c = cand("1700_http_server", "en enkel Tokio-server");
    // counted: "Skriv"? no; "SERVER" yes; "tokio" yes; "http" yes (4 bytes); short words never count
    assert_eq!(match_score(&ws, &c), 3);
    assert_eq!(match_score(&goal_words("abc"), &cand("abc", "")), 0);
    // two characters, but four bytes in UTF-8: long enough to count
    assert_eq!(match_score(&goal_words("åä"), &cand("ÅÄ", "")), 1);
}

#[test]
fn ranking_is_stable_and_limited() {
    let cs = vec![
        cand("a_parser", "json parser"),
        cand("b_other", "nothing here"),
        cand("c_parser_json", "json parser tokens"),
        cand("d_parser", "parser"),
        cand("e_tokens", "tokens"),
    ];
    assert_eq!(rank_candidates("json parser tokens", &cs, 10), vec![2, 0, 3, 4]);
    assert_eq!(rank_candidates("json parser tokens", &cs, 2), vec![2, 0]);
    assert_eq!(rank_candidates("json parser tokens", &cs, 0), Vec::<usize>::new());
    assert_eq!(rank_candidates("xyz", &cs, 5), Vec::<usize>::new());
    assert_eq!(rank_candidates("", &Vec::new(), 5), Vec::<usize>::new());
}

#[test]
fn hits_use_the_given_lowercase_forms() {
    let ws = vec!["Tokio".to_string(), "http".to_string(), "en".to_string()];
    let lws = vec!["tokio".to_string(), "http".to_string(), "en".to_string()];
    assert_eq!(count_hits(&ws, &lws, "en tokio http server"), 2);
    // the word's own spelling is not looked for, only its lowercase form
    let other = vec!["xxxx".to_string(), "http".to_string(), "en".to_string()];
    assert_eq!(count_hits(&ws, &other, "en tokio http server"), 1);
    assert_eq!(count_hits(&Vec::new(), &Vec::new(), "anything"), 0);
}

#[test]
fn ranking_by_scores() {
    assert_eq!(rank_by_score(&vec![2, 0, 3, 2, 1], 10), vec![2, 0, 3, 4]);
    assert_eq!(rank_by_score(&vec![2, 0, 3, 2, 1], 3), vec![2, 0, 3]);
    assert_eq!(rank_by_score(&vec![0, 0], 3), Vec::<usize>::new());
    assert_eq!(rank_by_score(&vec![1, 1, 1], 2), vec![0, 1]);
}

#[test]
fn rendering_examples() {
    assert_eq!(render_examples(&Vec::new()), "");
    let hits = vec![
        KbExample { name: "1_a.rs".to_string(), ext: "rs".to_string(), code: Some("fn main() {}".to_string()) },
        KbExample { name: "2_b.py".to_string(), ext: "py".to_string(), code: None },
    ];
    assert_eq!(
        render_examples(&hits),
        "### Relevanta exempel från kunskapsbasen\n\n#### 1_a.rs\n```rs\nfn main() {}\n```\n\n"
    );
}

#[test]
fn saved_example_names() {
    let (code, meta, lang) = example_paths("/kb", 1700, Some("hello".to_string()), Some("rs".to_string()));
    assert_eq!(code, "/kb/1700_hello.rs");
    assert_eq!(meta, "/kb/1700_hello.meta.json");
    assert_eq!(lang, "rs");
    let (code, meta, lang) = example_paths("/kb/", 5, None, None);
    assert_eq!(code, "/kb/5_fil.txt");
    assert_eq!(meta, "/kb/5_fil.meta.json");
    assert_eq!(lang, "txt");
}

#[test]
fn a_saved_example_is_found_again() {
    let (code, _, _) = example_paths("/kb", 1700, Some("hello".to_string()), Some("py".to_string()));
    assert_eq!(code, "/kb/1700_hello.py");
    let cs = vec![cand("1700_hello", "Skriv ett Hello-program")];
    assert_eq!(rank_candidates("skriv ett hello-program i python", &cs, 1), vec![0]);
    let hits = vec![KbExample { name: "1700_hello.py".to_string(), ext: "py".to_string(), code: Some("print(1)".to_string()) }];
    assert_eq!(
        render_examples(&hits),
        "### Relevanta exempel från kunskapsbasen\n\n#### 1700_hello.py\n```py\nprint(1)\n```\n\n"
    );
}
