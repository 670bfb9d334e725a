use dhammapada::chapters::{
    chapter_ends, chapter_id, chapter_label, chapters_data, start_chapter, verse_ids, CHAPTER_COUNT,
};

#[test]
fn chapter_ends_are_the_book_layout() {
    assert_eq!(
        chapter_ends(),
        vec![
            20, 32, 43, 59, 75, 89, 99, 115, 128, 145, 156, 166, 178, 196, 208, 220, 234, 255, 272,
            289, 305, 319, 333, 359, 382, 423
        ]
    );
}

#[test]
fn first_and_last_chapters() {
    let chapters = chapters_data();
    assert_eq!(chapters.len(), CHAPTER_COUNT);
    assert_eq!(chapters[0].0, "chap1");
    let first: Vec<String> = (1..=20).map(|n: u32| n.to_string()).collect();
    assert_eq!(chapters[0].1, first);
    assert_eq!(chapters[25].0, "chap26");
    let last: Vec<String> = (383..=423).map(|n: u32| n.to_string()).collect();
    assert_eq!(chapters[25].1, last);
}

#[test]
fn the_book_has_423_verses_in_order() {
    let chapters = chapters_data();
    let all: Vec<String> = chapters.iter().flat_map(|c| c.1.iter().cloned()).collect();
    assert_eq!(all.len(), 423);
    for (i, id) in all.iter().enumerate() {
        assert_eq!(*id, (i + 1).to_string());
    }
    for (i, c) in chapters.iter().enumerate() {
        assert!(!c.1.is_empty());
        assert_eq!(c.0, format!("chap{}", i + 1));
    }
}

#[test]
fn chapter_ids_and_labels() {
    assert_eq!(chapter_id(0), "chap1");
    assert_eq!(chapter_id(9), "chap10");
    assert_eq!(chapter_id(25), "chap26");
    assert_eq!(chapter_label(3, "Citta Vagga"), "3. Citta Vagga");
    assert_eq!(chapter_label(26, ""), "26. ");
}

#[test]
fn verse_ids_of_a_range() {
    assert_eq!(verse_ids(99, 101), vec!["99", "100", "101"]);
    assert_eq!(verse_ids(5, 5), vec!["5"]);
    assert!(verse_ids(6, 5).is_empty());
}

fn ids() -> Vec<String> {
    chapters_data().into_iter().map(|c| c.0).collect()
}

#[test]
fn start_chapter_reopens_the_saved_one() {
    assert_eq!(start_chapter(&ids(), &Some("chap5".to_string())), Some(4));
    assert_eq!(start_chapter(&ids(), &Some("chap26".to_string())), Some(25));
    for i in 0..CHAPTER_COUNT {
        assert_eq!(start_chapter(&ids(), &Some(chapter_id(i))), Some(i));
    }
}

#[test]
fn start_chapter_falls_back_to_the_first() {
    assert_eq!(start_chapter(&ids(), &None), Some(0));
    assert_eq!(start_chapter(&ids(), &Some("chap99".to_string())), Some(0));
    assert_eq!(start_chapter(&Vec::new(), &Some("chap1".to_string())), None);
    assert_eq!(start_chapter(&Vec::new(), &None), None);
}

#[test]
fn start_chapter_takes_the_last_match() {
    let ids = vec!["a".to_string(), "b".to_string(), "a".to_string()];
    assert_eq!(start_chapter(&ids, &Some("a".to_string())), Some(2));
    assert_eq!(start_chapter(&ids, &Some("b".to_string())), Some(1));
}
