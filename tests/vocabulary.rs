use english_vocabulary_test::book::{draw_indices, weighted_index, Book};
use english_vocabulary_test::card::{tag, Card, CardList};
use english_vocabulary_test::exam_maker::{make_tex_string, ExamMaker, CLOSING, PREAMBLE};
use rand::rngs::StdRng;
use rand::SeedableRng;

fn word(priority: i64, id: u64) -> Card {
    Card {
        priority,
        page: 1,
        id,
        english: format!("word{}", id),
        noun: Some(vec![format!("meaning{}", id)]),
        ..Card::default()
    }
}

fn list_of(priorities: &[i64]) -> CardList {
    CardList {
        card: priorities
            .iter()
            .enumerate()
            .map(|(i, p)| word(*p, i as u64))
            .collect(),
    }
}

fn book_of(priorities: &[i64]) -> Book {
    Book::try_new("cards.toml".to_string(), list_of(priorities))
}

fn ids(cards: &[Card]) -> Vec<u64> {
    cards.iter().map(|c| c.id).collect()
}

#[test]
fn empty_card_has_nothing_to_ask() {
    assert!(Card::default().is_empty());
    let blank = Card {
        english: "run".to_string(),
        sentence: Some(String::new()),
        noun: Some(vec![]),
        adjective: Some(vec![]),
        verb: Some(vec![]),
        adverb: Some(vec![]),
        preposition: Some(vec![]),
        ..Card::default()
    };
    assert!(blank.is_empty());
}

#[test]
fn any_meaning_or_sentence_makes_a_card_usable() {
    let with_sentence = Card {
        sentence: Some("He ran.".to_string()),
        ..Card::default()
    };
    assert!(!with_sentence.is_empty());
    let groups: Vec<fn(&mut Card)> = vec![
        |c| c.noun = Some(vec!["a".to_string()]),
        |c| c.adjective = Some(vec!["a".to_string()]),
        |c| c.verb = Some(vec!["a".to_string()]),
        |c| c.adverb = Some(vec!["a".to_string()]),
        |c| c.preposition = Some(vec!["a".to_string()]),
    ];
    for set in groups {
        let mut c = Card::default();
        set(&mut c);
        assert!(!c.is_empty());
    }
}

#[test]
fn drop_empty_card_keeps_order_of_the_rest() {
    let mut list = CardList {
        card: vec![word(1, 0), Card::default(), word(2, 2), Card::default(), word(3, 4)],
    };
    list.drop_empty_card();
    assert_eq!(ids(&list.card), vec![0, 2, 4]);
}

#[test]
fn try_new_drops_empty_cards() {
    let list = CardList {
        card: vec![Card::default(), word(1, 7)],
    };
    let book = Book::try_new("a/b.toml".to_string(), list);
    assert_eq!(book.card_file(), "a/b.toml");
    assert_eq!(ids(&book.card_list.card), vec![7]);
}

#[test]
fn priority_offset_maps_least_priority_to_one() {
    let list = list_of(&[-3, 0, 5]);
    assert_eq!(list.priority_offset(), 4);
    assert_eq!(list.effective_weights(), vec![1, 4, 9]);
}

#[test]
fn effective_weights_of_extreme_priorities() {
    let list = list_of(&[i64::MIN, i64::MAX]);
    assert_eq!(list.priority_offset(), 1 - i64::MIN as i128);
    assert_eq!(
        list.effective_weights(),
        vec![1, u64::MAX as u128 + 1]
    );
    assert!(list_of(&[]).effective_weights().is_empty());
}

#[test]
fn weighted_index_walks_weights_in_order() {
    let w = vec![1u128, 4, 9];
    assert_eq!(weighted_index(&w, 0), 0);
    assert_eq!(weighted_index(&w, 1), 1);
    assert_eq!(weighted_index(&w, 4), 1);
    assert_eq!(weighted_index(&w, 5), 2);
    assert_eq!(weighted_index(&w, 13), 2);
    let zeroed = vec![0u128, 4, 0, 9];
    assert_eq!(weighted_index(&zeroed, 0), 1);
    assert_eq!(weighted_index(&zeroed, 4), 3);
}

#[test]
fn draw_indices_are_distinct_and_capped() {
    let mut rng = StdRng::seed_from_u64(7);
    let r = draw_indices(&vec![1, 2, 3, 4, 5], 3, &mut rng);
    assert_eq!(r.len(), 3);
    let mut s = r.clone();
    s.sort();
    s.dedup();
    assert_eq!(s.len(), 3);
    assert!(r.iter().all(|i| *i < 5));
}

#[test]
fn full_draw_is_a_permutation_of_the_pool() {
    for seed in 0..50u64 {
        let book = book_of(&[3, -1, 0, 8, 2, 2]);
        let mut rng = StdRng::seed_from_u64(seed);
        let r = book.pick_up_card_list_randomly_according_to_priority(10, &mut rng);
        let mut got = ids(&r);
        got.sort();
        assert_eq!(got, vec![0, 1, 2, 3, 4, 5]);
    }
}

#[test]
fn draw_never_exceeds_request_or_repeats() {
    for seed in 0..50u64 {
        let book = book_of(&[5, 1, 1, 9, -4, 0, 3]);
        let mut rng = StdRng::seed_from_u64(seed);
        let r = book.pick_up_card_list_randomly_according_to_priority(4, &mut rng);
        assert_eq!(r.len(), 4);
        let mut got = ids(&r);
        got.sort();
        got.dedup();
        assert_eq!(got.len(), 4);
    }
}

#[test]
fn empty_pool_gives_empty_draw() {
    for seed in 0..5u64 {
        let book = book_of(&[]);
        let mut rng = StdRng::seed_from_u64(seed);
        for n in [0usize, 1, 100] {
            assert!(book
                .pick_up_card_list_randomly_according_to_priority(n, &mut rng)
                .is_empty());
        }
    }
}

#[test]
fn zero_requested_gives_empty_draw() {
    let book = book_of(&[1, 2, 3]);
    let mut rng = StdRng::seed_from_u64(1);
    assert!(book
        .pick_up_card_list_randomly_according_to_priority(0, &mut rng)
        .is_empty());
}

#[test]
fn same_seed_gives_same_draw() {
    let book = book_of(&[4, 1, 7, 0, -2, 3, 3, 9]);
    for seed in 0..20u64 {
        let mut a = StdRng::seed_from_u64(seed);
        let mut b = StdRng::seed_from_u64(seed);
        let ra = book.pick_up_card_list_randomly_according_to_priority(5, &mut a);
        let rb = book.pick_up_card_list_randomly_according_to_priority(5, &mut b);
        assert_eq!(ids(&ra), ids(&rb));
    }
}

#[test]
fn high_priority_card_is_drawn_far_more_often() {
    let book = book_of(&[1, 1, 100]);
    let trials = 10_000u64;
    let mut count = [0u64; 3];
    for seed in 0..trials {
        let mut rng = StdRng::seed_from_u64(seed);
        let r = book.pick_up_card_list_randomly_according_to_priority(2, &mut rng);
        assert_eq!(r.len(), 2);
        for c in &r {
            count[c.id as usize] += 1;
        }
    }
    // Weights are 1, 1, 100: the heavy card is missed only when both light
    // cards are drawn, with chance 2 * (1/102) * (1/2) ~ 0.0098.
    let heavy = count[2] as f64 / trials as f64;
    assert!(heavy > 0.98, "heavy card frequency {}", heavy);
    let a = count[0] as f64 / trials as f64;
    let b = count[1] as f64 / trials as f64;
    assert!(a < 0.6 && b < 0.6 && a > 0.4 && b > 0.4, "{} {}", a, b);
    assert!((a - b).abs() < 0.05);
}

#[test]
fn question_with_sentence() {
    let c = Card {
        page: 12,
        id: 3,
        sentence: Some("He ran fast.".to_string()),
        ..Card::default()
    };
    let q = c.exam_tex_string();
    let p = q.find("p.12").unwrap();
    let i = q.find("#3").unwrap();
    let t = q.find("[文章]").unwrap();
    let s = q.find("He ran fast.").unwrap();
    assert!(p < i && i < t && t < s);
    assert_eq!(q, "p.12~\\#3 [文章] He ran fast.");
}

#[test]
fn question_with_meanings_in_fixed_order() {
    let c = Card {
        page: 105,
        id: 0,
        verb: Some(vec!["走る".to_string()]),
        noun: Some(vec!["犬".to_string(), "猫".to_string(), "鳥".to_string()]),
        adverb: Some(vec![]),
        preposition: Some(vec!["上に".to_string()]),
        ..Card::default()
    };
    assert_eq!(
        c.exam_tex_string(),
        "p.105~\\#0  [名詞] 犬、猫、鳥  [動詞] 走る  [前置詞] 上に"
    );
}

#[test]
fn question_for_phrase_marks_tags() {
    let c = Card {
        page: 9,
        id: 41,
        phrase: Some(true),
        sentence: Some(String::new()),
        adjective: Some(vec!["速い".to_string()]),
        ..Card::default()
    };
    assert_eq!(c.exam_tex_string(), "p.9~\\#41  [形容詞節] 速い");
}

#[test]
fn answer_shows_the_english_term() {
    let c = Card {
        page: 5,
        id: 17,
        english: "run out of".to_string(),
        sentence: Some("x".to_string()),
        ..Card::default()
    };
    assert_eq!(c.answer_tex_string(), "p.5~\\#17 run out of");
}

#[test]
fn tag_of_word_and_phrase() {
    assert_eq!(tag(false, "名詞"), "[名詞]");
    assert_eq!(tag(true, "名詞"), "[名詞節]");
}

#[test]
fn empty_document_is_preamble_and_closing() {
    let doc = make_tex_string(&[], true);
    assert_eq!(doc, format!("{}{}", PREAMBLE, CLOSING));
    assert!(doc.starts_with("\\documentclass[a4paper,11pt]{jsarticle}\n"));
    assert!(doc.ends_with("\\end{enumerate}\n\\end{document}\n"));
}

#[test]
fn document_items_and_page_breaks() {
    let cards: Vec<Card> = (0..21).map(|i| word(1, i)).collect();
    let exam = make_tex_string(&cards, true);
    assert_eq!(exam.matches("  \\item\n").count(), 21);
    assert_eq!(exam.matches("  \\clearpage\n").count(), 2);
    assert!(exam.contains("  \\item\n    p.1~\\#0  [名詞] meaning0\n"));
    let answer = make_tex_string(&cards[..1], false);
    assert_eq!(
        answer,
        format!("{}  \\item\n    p.1~\\#0 word0\n{}", PREAMBLE, CLOSING)
    );
}

#[test]
fn exam_maker_names_documents_after_card_file() {
    let m = ExamMaker::new(book_of(&[1]), "/tmp/w".to_string(), "lesson1");
    assert_eq!(m.work_dir, "/tmp/w");
    assert_eq!(m.exam_tex_file, "exam_of_lesson1.tex");
    assert_eq!(m.answer_tex_file, "answer_of_lesson1.tex");
}

#[test]
fn exam_and_answers_follow_the_same_draw() {
    let m = ExamMaker::new(book_of(&[1, 5, 2, 8]), "w".to_string(), "s");
    let mut rng = StdRng::seed_from_u64(3);
    let (exam, answer) = m.tex_strings(3, &mut rng);
    assert_eq!(exam.matches("  \\item\n").count(), 3);
    let order = |doc: &str| -> Vec<u64> {
        doc.lines()
            .filter(|l| l.starts_with("    p.1~\\#"))
            .map(|l| l["    p.1~\\#".len()..].split(' ').next().unwrap().parse().unwrap())
            .collect()
    };
    assert_eq!(order(&exam), order(&answer));
    assert_eq!(order(&exam).len(), 3);
}

#[test]
fn final_order_does_not_follow_priority() {
    // The heavy card is nearly always drawn first; after the shuffle it
    // stands first in only about a quarter of the draws.
    let book = book_of(&[1000, 1, 1, 1]);
    let trials = 2_000u64;
    let mut first = 0u64;
    for seed in 0..trials {
        let mut rng = StdRng::seed_from_u64(seed);
        let r = book.pick_up_card_list_randomly_according_to_priority(4, &mut rng);
        if r[0].id == 0 {
            first += 1;
        }
    }
    let share = first as f64 / trials as f64;
    assert!(share > 0.15 && share < 0.35, "share {}", share);
}
