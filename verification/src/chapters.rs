//! The chapters of the Dhammapada: which verses each holds, the identifiers
//! under which their titles and verses are translated, and which chapter
//! the reader opens at start-up.
use vstd::prelude::*;
use crate::text::{decimal, lemma_decimal_injective, push_decimal};

verus! {

/// The number of chapters.
pub const CHAPTER_COUNT: usize = 26;

/// The number of the last verse of chapter `k` (counted from 0); the last
/// chapter ends with verse 423, the last verse of the book.
pub open spec fn last_verse(k: int) -> int {
    if k == 0 {
        20
    } else if k == 1 {
        32
    } else if k == 2 {
        43
    } else if k == 3 {
        59
    } else if k == 4 {
        75
    } else if k == 5 {
        89
    } else if k == 6 {
        99
    } else if k == 7 {
        115
    } else if k == 8 {
        128
    } else if k == 9 {
        145
    } else if k == 10 {
        156
    } else if k == 11 {
        166
    } else if k == 12 {
        178
    } else if k == 13 {
        196
    } else if k == 14 {
        208
    } else if k == 15 {
        220
    } else if k == 16 {
        234
    } else if k == 17 {
        255
    } else if k == 18 {
        272
    } else if k == 19 {
        289
    } else if k == 20 {
        305
    } else if k == 21 {
        319
    } else if k == 22 {
        333
    } else if k == 23 {
        359
    } else if k == 24 {
        382
    } else {
        423
    }
}

/// The number of the first verse of chapter `k`: verse 1 for the first
/// chapter, and the verse after the last one of the chapter before for the
/// others.
pub open spec fn first_verse(k: int) -> int {
    if k == 0 {
        1
    } else {
        last_verse(k - 1) + 1
    }
}

/// The numbers of the last verses of the chapters, in order.
pub fn chapter_ends() -> (v: Vec<u32>)
    ensures
        v.len() == CHAPTER_COUNT,
        forall|k: int| 0 <= k < CHAPTER_COUNT ==> #[trigger] v@[k] == last_verse(k),
{
    let v: Vec<u32> = vec![
        20, 32, 43, 59, 75, 89, 99, 115, 128, 145, 156, 166, 178, 196, 208, 220, 234, 255, 272, 289,
        305, 319, 333, 359, 382, 423,
    ];
    v
}

/// The chapters follow each other without gap or overlap: the first
/// begins with verse 1, each one holds at least one verse and begins right
/// after the one before, and the last ends with verse 423.
pub proof fn lemma_chapters_contiguous()
    ensures
        first_verse(0) == 1,
        last_verse(CHAPTER_COUNT - 1) == 423,
        forall|k: int|
            0 <= k < CHAPTER_COUNT ==> 1 <= #[trigger] first_verse(k) <= last_verse(k) <= 423,
        forall|k: int| 0 <= k < CHAPTER_COUNT - 1 ==> #[trigger] first_verse(k + 1) == last_verse(k) + 1,
{
}

/// Later chapters hold later verses.
pub proof fn lemma_chapters_ordered(k1: int, k2: int)
    requires
        0 <= k1 < k2 < CHAPTER_COUNT,
    ensures
        last_verse(k1) < first_verse(k2),
    decreases k2 - k1,
{
    lemma_chapters_contiguous();
    if k1 + 1 < k2 {
        lemma_chapters_ordered(k1 + 1, k2);
    }
}

/// Whether verse `v` is in chapter `k`.
pub open spec fn in_chapter(k: int, v: int) -> bool {
    0 <= k < CHAPTER_COUNT && first_verse(k) <= v <= last_verse(k)
}

/// Whether verse `v` is in one of the chapters up to `k`.
spec fn covered_upto(k: int, v: int) -> bool {
    exists|j: int| j <= k && #[trigger] in_chapter(j, v)
}

/// Every verse up to the last one of chapter `k` is in one of the chapters
/// up to `k`.
proof fn lemma_verses_covered_upto(k: int)
    requires
        0 <= k < CHAPTER_COUNT,
    ensures
        forall|v: int| 1 <= v <= last_verse(k) ==> #[trigger] covered_upto(k, v),
    decreases k,
{
    lemma_chapters_contiguous();
    if k > 0 {
        lemma_verses_covered_upto(k - 1);
    }
    assert forall|v: int| 1 <= v <= last_verse(k) implies #[trigger] covered_upto(k, v) by {
        if v >= first_verse(k) {
            assert(in_chapter(k, v));
        } else {
            assert(covered_upto(k - 1, v));
            let j = choose|j: int| j <= k - 1 && #[trigger] in_chapter(j, v);
            assert(in_chapter(j, v));
        }
    }
}

/// The chapter that holds verse `v`.
pub open spec fn chapter_of_verse(v: int) -> int {
    choose|k: int| in_chapter(k, v)
}

/// The 423 verses are split among the chapters: each verse from 1 to 423
/// is in exactly one chapter, and no other number is in any.
pub proof fn lemma_each_verse_in_one_chapter()
    ensures
        forall|v: int| 1 <= v <= 423 ==> in_chapter(#[trigger] chapter_of_verse(v), v),
        forall|v: int, k1: int, k2: int|
            #[trigger] in_chapter(k1, v) && #[trigger] in_chapter(k2, v) ==> k1 == k2,
        forall|v: int, k: int| #[trigger] in_chapter(k, v) ==> 1 <= v <= 423,
{
    lemma_chapters_contiguous();
    lemma_verses_covered_upto(CHAPTER_COUNT - 1);
    assert forall|v: int| 1 <= v <= 423 implies in_chapter(#[trigger] chapter_of_verse(v), v) by {
        assert(covered_upto(CHAPTER_COUNT - 1, v));
        let j = choose|j: int| j <= CHAPTER_COUNT - 1 && #[trigger] in_chapter(j, v);
        assert(in_chapter(j, v));
    }
    assert forall|v: int, k1: int, k2: int|
        #[trigger] in_chapter(k1, v) && #[trigger] in_chapter(k2, v) implies k1 == k2 by {
        if k1 < k2 {
            lemma_chapters_ordered(k1, k2);
        } else if k2 < k1 {
            lemma_chapters_ordered(k2, k1);
        }
    }
}

// ------------------------------------------------------------------------
// Identifiers
// ------------------------------------------------------------------------

/// The identifier of chapter `k` (counted from 0): `chap1` for the first.
pub open spec fn chapter_id_of(k: int) -> Seq<char> {
    "chap"@ + decimal((k + 1) as nat)
}

/// The identifier of the chapter at `index` (counted from 0), under which
/// its title is translated.
pub fn chapter_id(index: usize) -> (id: String)
    requires
        index < usize::MAX,
    ensures
        id@ == chapter_id_of(index as int),
{
    let mut id = String::new();
    id.append("chap");
    push_decimal(&mut id, (index + 1) as u64);
    id
}

/// Different chapters have different identifiers.
pub proof fn lemma_chapter_ids_distinct(k1: int, k2: int)
    requires
        0 <= k1,
        0 <= k2,
        chapter_id_of(k1) == chapter_id_of(k2),
    ensures
        k1 == k2,
{
    reveal_strlit("chap");
    let a = chapter_id_of(k1);
    let b = chapter_id_of(k2);
    assert(a.skip(4) =~= decimal((k1 + 1) as nat));
    assert(b.skip(4) =~= decimal((k2 + 1) as nat));
    lemma_decimal_injective((k1 + 1) as nat, (k2 + 1) as nat);
}

/// The identifiers of the verses numbered `first` to `last`: their numbers
/// in decimal.
pub open spec fn verse_ids_between(first: int, last: int) -> Seq<Seq<char>> {
    Seq::new(
        if first <= last {
            (last - first + 1) as nat
        } else {
            0
        },
        |j: int| decimal((first + j) as nat),
    )
}

/// The identifiers of the verses of chapter `k`, under which their texts
/// are translated.
pub open spec fn verse_ids_of(k: int) -> Seq<Seq<char>> {
    verse_ids_between(first_verse(k), last_verse(k))
}

/// The contents of a vector of strings.
pub open spec fn strings_view(v: Seq<String>) -> Seq<Seq<char>> {
    v.map_values(|s: String| s@)
}

/// The identifiers of the verses numbered `first` to `last`.
pub fn verse_ids(first: u32, last: u32) -> (ids: Vec<String>)
    ensures
        strings_view(ids@) == verse_ids_between(first as int, last as int),
{
    let mut ids: Vec<String> = Vec::new();
    let mut n: u64 = first as u64;
    while n <= last as u64
        invariant
            first <= n <= last as u64 + 1 || (n == first && first > last),
            strings_view(ids@) == verse_ids_between(first as int, (n - 1) as int),
        decreases last as u64 + 1 - n,
    {
        let ghost before = ids@;
        ids.push(crate::text::decimal_string(n));
        assert(strings_view(ids@) =~= verse_ids_between(first as int, n as int)) by {
            assert(strings_view(ids@) =~= strings_view(before).push(decimal(n as nat)));
        }
        n = n + 1;
    }
    ids
}

/// All chapters with their identifiers and the identifiers of their verses,
/// in order.
pub fn chapters_data() -> (chapters: Vec<(String, Vec<String>)>)
    ensures
        chapters.len() == CHAPTER_COUNT,
        forall|k: int|
            0 <= k < CHAPTER_COUNT ==> (#[trigger] chapters@[k]).0@ == chapter_id_of(k)
                && strings_view(chapters@[k].1@) == verse_ids_of(k),
{
    let ends = chapter_ends();
    let mut chapters: Vec<(String, Vec<String>)> = Vec::new();
    let mut current_start: u32 = 1;
    let mut i: usize = 0;
    proof {
        lemma_chapters_contiguous();
    }
    while i < ends.len()
        invariant
            i <= ends.len() == CHAPTER_COUNT,
            forall|k: int| 0 <= k < CHAPTER_COUNT ==> #[trigger] ends@[k] == last_verse(k),
            forall|k: int|
                0 <= k < CHAPTER_COUNT ==> 1 <= #[trigger] first_verse(k) <= last_verse(k) <= 423,
            chapters.len() == i,
            current_start == first_verse(i as int),
            forall|k: int|
                0 <= k < i ==> (#[trigger] chapters@[k]).0@ == chapter_id_of(k) && strings_view(
                    chapters@[k].1@,
                ) == verse_ids_of(k),
        decreases ends.len() - i,
    {
        let end = ends[i];
        let id = chapter_id(i);
        let verses = verse_ids(current_start, end);
        chapters.push((id, verses));
        current_start = end + 1;
        i = i + 1;
    }
    chapters
}

/// The label of the chapter button: its number, a dot and its title.
pub fn chapter_label(number: usize, title: &str) -> (label: String)
    ensures
        label@ == decimal(number as nat) + ". "@ + title@,
{
    let mut label = String::new();
    push_decimal(&mut label, number as u64);
    label.append(". ");
    label.append(title);
    label
}

/// No two verses of the book share an identifier.
pub proof fn lemma_verse_ids_distinct(k1: int, j1: int, k2: int, j2: int)
    requires
        0 <= k1 < CHAPTER_COUNT,
        0 <= k2 < CHAPTER_COUNT,
        0 <= j1 < verse_ids_of(k1).len(),
        0 <= j2 < verse_ids_of(k2).len(),
        verse_ids_of(k1)[j1] == verse_ids_of(k2)[j2],
    ensures
        k1 == k2,
        j1 == j2,
{
    lemma_chapters_contiguous();
    let v1 = first_verse(k1) + j1;
    let v2 = first_verse(k2) + j2;
    lemma_decimal_injective(v1 as nat, v2 as nat);
    lemma_each_verse_in_one_chapter();
    assert(in_chapter(k1, v1));
    assert(in_chapter(k2, v2));
}

// ------------------------------------------------------------------------
// The chapter opened at start-up
// ------------------------------------------------------------------------

/// The position of the last identifier in `ids` equal to `id`, if any.
pub open spec fn last_index_of(ids: Seq<Seq<char>>, id: Seq<char>) -> Option<int>
    decreases ids.len(),
{
    if ids.len() == 0 {
        None
    } else if ids.last() == id {
        Some(ids.len() - 1)
    } else {
        last_index_of(ids.drop_last(), id)
    }
}

/// The chapter opened at start-up: the one whose identifier was saved as
/// the last one read, or else the first chapter; none where there is no
/// chapter.
pub open spec fn start_choice(ids: Seq<Seq<char>>, last_chapter: Option<Seq<char>>) -> Option<int> {
    let found = match last_chapter {
        Some(id) => last_index_of(ids, id),
        None => None,
    };
    match found {
        Some(k) => Some(k),
        None => if ids.len() > 0 {
            Some(0)
        } else {
            None
        },
    }
}

/// The view of an optional string.
pub open spec fn option_view(s: Option<String>) -> Option<Seq<char>> {
    match s {
        Some(t) => Some(t@),
        None => None,
    }
}

/// The position of the chapter to open at start-up, among the chapters with
/// identifiers `ids`, given the identifier of the chapter read last.
pub fn start_chapter(ids: &Vec<String>, last_chapter: &Option<String>) -> (r: Option<usize>)
    ensures
        r is Some <==> start_choice(strings_view(ids@), option_view(*last_chapter)) is Some,
        r matches Some(i) ==> start_choice(strings_view(ids@), option_view(*last_chapter))
            == Some(i as int),
{
    let ghost all = strings_view(ids@);
    let mut found: Option<usize> = None;
    let mut i: usize = 0;
    while i < ids.len()
        invariant
            i <= ids.len(),
            all == strings_view(ids@),
            match *last_chapter {
                Some(id) => match found {
                    Some(k) => last_index_of(all.take(i as int), id@) == Some(k as int),
                    None => last_index_of(all.take(i as int), id@) is None,
                },
                None => found is None,
            },
        decreases ids.len() - i,
    {
        if let Some(id) = last_chapter {
            assert(all.take(i + 1).drop_last() =~= all.take(i as int));
            if ids[i] == *id {
                found = Some(i);
            }
        }
        i = i + 1;
    }
    assert(all.take(i as int) =~= all);
    match found {
        Some(k) => Some(k),
        None => if ids.len() > 0 {
            Some(0)
        } else {
            None
        },
    }
}

/// The position found by `last_index_of` holds the identifier, and one is
/// found whenever the identifier is in the list.
pub proof fn lemma_last_index_of(ids: Seq<Seq<char>>, id: Seq<char>, k: int)
    requires
        0 <= k < ids.len(),
        ids[k] == id,
    ensures
        last_index_of(ids, id) matches Some(j) && 0 <= j < ids.len() && ids[j] == id && k <= j,
    decreases ids.len(),
{
    if ids.last() != id {
        lemma_last_index_of(ids.drop_last(), id, k);
    }
}

/// Identifiers that are all different.
pub open spec fn all_distinct(ids: Seq<Seq<char>>) -> bool {
    forall|a: int, b: int| 0 <= a < b < ids.len() ==> ids[a] != ids[b]
}

/// Where chapter identifiers are all different, the chapter saved as the
/// last one read is the one opened at the next start.
pub proof fn lemma_restart_opens_saved_chapter(ids: Seq<Seq<char>>, k: int)
    requires
        all_distinct(ids),
        0 <= k < ids.len(),
    ensures
        start_choice(ids, Some(ids[k])) == Some(k),
{
    lemma_last_index_of(ids, ids[k], k);
}

/// The identifiers of all chapters, in order.
pub open spec fn chapter_ids() -> Seq<Seq<char>> {
    Seq::new(CHAPTER_COUNT as nat, |k: int| chapter_id_of(k))
}

/// The chapters of the book have different identifiers, so the chapter read
/// last is the one reopened.
pub proof fn lemma_book_reopens_saved_chapter(k: int)
    requires
        0 <= k < CHAPTER_COUNT,
    ensures
        start_choice(chapter_ids(), Some(chapter_id_of(k))) == Some(k),
{
    let ids = chapter_ids();
    assert forall|a: int, b: int| 0 <= a < b < ids.len() implies ids[a] != ids[b] by {
        if ids[a] == ids[b] {
            lemma_chapter_ids_distinct(a, b);
        }
    }
    lemma_restart_opens_saved_chapter(ids, k);
}

/// `last_index_of` finds nothing only where the identifier is absent.
proof fn lemma_last_index_of_none(ids: Seq<Seq<char>>, id: Seq<char>)
    ensures
        last_index_of(ids, id) is None <==> forall|j: int| 0 <= j < ids.len() ==> ids[j] != id,
        last_index_of(ids, id) matches Some(k) ==> 0 <= k < ids.len() && ids[k] == id && forall|j: int|
            k < j < ids.len() ==> ids[j] != id,
    decreases ids.len(),
{
    if ids.len() > 0 {
        lemma_last_index_of_none(ids.drop_last(), id);
        if ids.last() != id {
            assert forall|j: int| 0 <= j < ids.len() - 1 implies ids.drop_last()[j] == ids[j] by {}
        }
    }
}

/// The chapter opened at start-up holds the identifier saved as read last,
/// and is the last one that does; where no chapter holds it (or none was
/// saved) the first chapter is opened; nothing is opened only where there
/// are no chapters.
pub proof fn lemma_start_opens_saved_or_first(ids: Seq<Seq<char>>, last_chapter: Option<Seq<char>>)
    ensures
        start_choice(ids, last_chapter) is None <==> ids.len() == 0,
        start_choice(ids, last_chapter) matches Some(k) ==> 0 <= k < ids.len() && match last_chapter {
            Some(id) => if exists|j: int| 0 <= j < ids.len() && ids[j] == id {
                ids[k] == id && forall|j: int| k < j < ids.len() ==> ids[j] != id
            } else {
                k == 0
            },
            None => k == 0,
        },
{
    if let Some(id) = last_chapter {
        lemma_last_index_of_none(ids, id);
    }
}

} // verus!
