//! The text shown for a verse: its Pango markup, the plain text copied to
//! the clipboard, and the markup rebuilt from a label when the font size
//! changes.
use vstd::prelude::*;
use crate::text::{
    chars_of, decimal, is_trimmed, is_white_space, lemma_split_lines_nonempty, join_lines, lemma_join_split, lemma_split_lines_after_line,
    lemma_trim_trimmed, prepend_to_first, lines_view, push_decimal, push_joined, split_lines,
    split_lines_of, string_of, sub_vec, trim, trim_str, trimmed_bounds,
};

verus! {

/// The markup of a verse: its number, half transparent, a blank line, and
/// its text at `font_size` (in 1024ths of a point, as Pango's `size`
/// attribute reads it).
pub open spec fn markup_of(verse_id: Seq<char>, font_size: nat, text: Seq<char>) -> Seq<char> {
    "<span alpha='50%'>"@ + verse_id + "</span>\n\n<span size='"@ + decimal(font_size) + "'>"@
        + text + "</span>"@
}

fn markup_from(verse_id: &str, font_size: u32, text: &str) -> (r: String)
    ensures
        r@ == markup_of(verse_id@, font_size as nat, text@),
{
    let mut r = String::new();
    r.append("<span alpha='50%'>");
    r.append(verse_id);
    r.append("</span>\n\n<span size='");
    push_decimal(&mut r, font_size as u64);
    r.append("'>");
    r.append(text);
    r.append("</span>");
    r
}

/// The markup of a verse, with white space trimmed from both its number and
/// its text.
pub fn verse_markup(verse_id: &str, font_size: u32, text: &str) -> (r: String)
    ensures
        r@ == markup_of(trim(verse_id@), font_size as nat, trim(text@)),
{
    let id = trim_str(verse_id);
    let body = trim_str(text);
    markup_from(id.as_str(), font_size, body.as_str())
}

/// The text copied to the clipboard for a verse: its number, a line break,
/// and its text.
pub fn clipboard_text(verse_id: &str, text: &str) -> (r: String)
    ensures
        r@ == verse_id@ + seq!['\n'] + text@,
{
    let mut r = String::new();
    r.append(verse_id);
    r.append("\n");
    r.append(text);
    proof {
        reveal_strlit("\n");
    }
    r
}

/// Every line trimmed.
pub open spec fn trim_all(lines: Seq<Seq<char>>) -> Seq<Seq<char>> {
    lines.map_values(|l: Seq<char>| trim(l))
}

/// The lines that are not empty.
pub open spec fn drop_blank(lines: Seq<Seq<char>>) -> Seq<Seq<char>> {
    lines.filter(|l: Seq<char>| l.len() > 0)
}

/// The trimmed, non-empty lines of a label's text.
pub open spec fn verse_parts(label: Seq<char>) -> Seq<Seq<char>> {
    drop_blank(trim_all(split_lines(label)))
}

/// The markup that a label showing `label` gets at `font_size`: its first
/// part is the verse number and the other parts, one per line, are the
/// verse; a label with fewer than two parts is left as it is (`None`).
pub open spec fn resized_markup_of(label: Seq<char>, font_size: nat) -> Option<Seq<char>> {
    let parts = verse_parts(label);
    if parts.len() >= 2 {
        Some(markup_of(parts[0], font_size, join_lines(parts.skip(1))))
    } else {
        None
    }
}

/// The markup for the verse that a label shows as `label_text`, at the new
/// `font_size`; `None` where the label does not hold a number and a text.
pub fn resized_markup(label_text: &str, font_size: u32) -> (r: Option<String>)
    ensures
        r is Some <==> resized_markup_of(label_text@, font_size as nat) is Some,
        r matches Some(m) ==> resized_markup_of(label_text@, font_size as nat) == Some(m@),
{
    let chars = chars_of(label_text);
    let lines = split_lines_of(&chars);
    let ghost all = lines_view(lines@);
    let mut parts: Vec<Vec<char>> = Vec::new();
    let mut k: usize = 0;
    proof {
        reveal_with_fuel(Seq::filter, 1);
        assert(all.take(0) =~= Seq::<Seq<char>>::empty());
        assert(trim_all(all.take(0)) =~= Seq::<Seq<char>>::empty());
        assert(lines_view(parts@) =~= Seq::<Seq<char>>::empty());
    }
    while k < lines.len()
        invariant
            k <= lines.len(),
            all == lines_view(lines@),
            all == split_lines(label_text@),
            lines_view(parts@) == drop_blank(trim_all(all.take(k as int))),
        decreases lines.len() - k,
    {
        let line = &lines[k];
        let (a, b) = trimmed_bounds(line);
        proof {
            assert(trim_all(all.take(k + 1)) =~= trim_all(all.take(k as int)).push(trim(all[k as int])));
            trim_all(all.take(k as int)).lemma_filter_push(trim(all[k as int]), |l: Seq<char>| l.len() > 0);
        }
        if a < b {
            let t = sub_vec(line, a, b);
            let ghost old_parts = parts@;
            parts.push(t);
            assert(lines_view(parts@) =~= lines_view(old_parts).push(trim(all[k as int])));
        }
        k = k + 1;
    }
    assert(all.take(k as int) =~= all);
    if parts.len() >= 2 {
        let id = string_of(&parts[0]);
        let mut body = String::new();
        push_joined(&mut body, &parts, 1);
        Some(markup_from(id.as_str(), font_size, body.as_str()))
    } else {
        None
    }
}

/// A text whose every line is non-empty and has no white space at its ends.
pub open spec fn clean_lines(text: Seq<char>) -> bool {
    forall|i: int|
        0 <= i < split_lines(text).len() ==> (#[trigger] split_lines(text)[i]).len() > 0
            && is_trimmed(split_lines(text)[i])
}

/// Dropping blank lines from lines that are all non-empty keeps them all.
pub proof fn lemma_drop_blank_keeps_nonblank(lines: Seq<Seq<char>>)
    requires
        forall|i: int| 0 <= i < lines.len() ==> (#[trigger] lines[i]).len() > 0,
    ensures
        drop_blank(lines) == lines,
    decreases lines.len(),
{
    reveal_with_fuel(Seq::filter, 1);
    if lines.len() > 0 {
        let init = lines.drop_last();
        assert forall|i: int| 0 <= i < init.len() implies (#[trigger] init[i]).len() > 0 by {
            assert(init[i] == lines[i]);
        }
        lemma_drop_blank_keeps_nonblank(init);
        assert(init.push(lines.last()) =~= lines);
    }
}

/// Changing the font size keeps the verse: a label that shows the number
/// `verse_id` above the text `text` is given the markup of the same verse
/// at the new size, as `verse_markup` writes it, when the number is one
/// line and every line of the text is non-empty with no white space at
/// its ends.
pub proof fn lemma_resize_keeps_verse(verse_id: Seq<char>, text: Seq<char>, font_size: nat)
    requires
        verse_id.len() > 0,
        !verse_id.contains('\n'),
        is_trimmed(verse_id),
        is_trimmed(text),
        clean_lines(text),
    ensures
        resized_markup_of(verse_id + seq!['\n', '\n'] + text, font_size) == Some(
            markup_of(trim(verse_id), font_size, trim(text)),
        ),
{
    let label = verse_id + seq!['\n', '\n'] + text;
    let lines = split_lines(text);
    let empty = Seq::<char>::empty();
    lemma_split_lines_after_line(empty, text);
    assert(empty + seq!['\n'] + text =~= seq!['\n'] + text);
    lemma_split_lines_after_line(verse_id, seq!['\n'] + text);
    assert(label =~= verse_id + seq!['\n'] + (seq!['\n'] + text));
    let all = seq![verse_id] + (seq![empty] + lines);
    assert(split_lines(label) == all);
    lemma_trim_trimmed(verse_id);
    lemma_trim_trimmed(text);
    assert(trim(empty) == empty);
    assert forall|i: int| 0 <= i < lines.len() implies trim(#[trigger] lines[i]) == lines[i] by {
        lemma_trim_trimmed(lines[i]);
    }
    assert(trim_all(all) =~= seq![verse_id] + (seq![empty] + lines));
    lemma_drop_blank_keeps_nonblank(lines);
    (seq![empty] + lines).lemma_filter_prepend(verse_id, |l: Seq<char>| l.len() > 0);
    lines.lemma_filter_prepend(empty, |l: Seq<char>| l.len() > 0);
    assert(drop_blank(seq![empty] + lines) =~= lines);
    assert(verse_parts(label) =~= seq![verse_id] + lines);
    crate::text::lemma_split_lines_nonempty(text);
    assert(verse_parts(label).skip(1) =~= lines);
    lemma_join_split(text);
}

/// The markup shows the whole verse number, the font size and the whole
/// text, each at its place: the number right after the 18 characters of the
/// opening tag, the size after the number and the 21 characters that
/// separate them, and the text just before the 7 characters of the closing
/// tag, which ends the markup.
pub proof fn lemma_markup_holds_number_size_and_text(verse_id: Seq<char>, font_size: nat, text: Seq<char>)
    ensures
        ({
            let m = markup_of(verse_id, font_size, text);
            let after_id: int = 18 + verse_id.len() as int;
            let size = decimal(font_size);
            &&& m.len() == after_id + 21 + size.len() + 2 + text.len() + 7
            &&& m.subrange(18, after_id) == verse_id
            &&& m.subrange(after_id + 21, after_id + 21 + size.len()) == size
            &&& m.subrange(m.len() - 7 - text.len(), m.len() - 7) == text
            &&& m.subrange(m.len() - 7, m.len() as int) == "</span>"@
        }),
{
    reveal_strlit("<span alpha='50%'>");
    reveal_strlit("</span>\n\n<span size='");
    reveal_strlit("'>");
    reveal_strlit("</span>");
    let m = markup_of(verse_id, font_size, text);
    let a = "<span alpha='50%'>"@;
    let b = "</span>\n\n<span size='"@;
    let c = "'>"@;
    let d = "</span>"@;
    let size = decimal(font_size);
    let after_id: int = 18 + verse_id.len() as int;
    assert(m == a + verse_id + b + size + c + text + d);
    assert(m.subrange(18, after_id) =~= verse_id);
    assert(m.subrange(after_id + 21, after_id + 21 + size.len()) =~= size);
    assert(m.subrange(m.len() - 7 - text.len(), m.len() - 7) =~= text);
    assert(m.subrange(m.len() - 7, m.len() as int) =~= d);
}

/// A text without line break is a single line.
proof fn lemma_split_single_line(s: Seq<char>)
    requires
        !s.contains('\n'),
    ensures
        split_lines(s) == seq![s],
    decreases s.len(),
{
    if s.len() > 0 {
        let r = s.drop_first();
        assert(!r.contains('\n')) by {
            if r.contains('\n') {
                let j = choose|j: int| 0 <= j < r.len() && r[j] == '\n';
                assert(s[j + 1] == '\n');
            }
        }
        lemma_split_single_line(r);
        assert(s[0] != '\n');
        assert(seq![s[0]] + r =~= s);
        assert(prepend_to_first(seq![s[0]], seq![r]) =~= seq![s]);
    } else {
        assert(s =~= Seq::<char>::empty());
    }
}

/// The lines of two texts put together with a line break between them are
/// the lines of the first followed by the lines of the second.
pub proof fn lemma_split_lines_concat(a: Seq<char>, b: Seq<char>)
    ensures
        split_lines(a + seq!['\n'] + b) == split_lines(a) + split_lines(b),
    decreases a.len(),
{
    let s = a + seq!['\n'] + b;
    if a.len() == 0 {
        assert(s.drop_first() =~= b);
        assert(split_lines(a) =~= seq![Seq::<char>::empty()]);
    } else {
        let r = a.drop_first();
        lemma_split_lines_concat(r, b);
        lemma_split_lines_nonempty(r);
        assert(s.drop_first() =~= r + seq!['\n'] + b);
        assert(s[0] == a[0]);
        if a[0] == '\n' {
            assert(split_lines(s) =~= split_lines(a) + split_lines(b));
        } else {
            assert(prepend_to_first(seq![a[0]], split_lines(r) + split_lines(b)) =~= prepend_to_first(
                seq![a[0]],
                split_lines(r),
            ) + split_lines(b));
        }
    }
}

/// Trimming a list of lines piece by piece.
proof fn lemma_trim_all_add(x: Seq<Seq<char>>, y: Seq<Seq<char>>)
    ensures
        trim_all(x + y) == trim_all(x) + trim_all(y),
{
    assert(trim_all(x + y) =~= trim_all(x) + trim_all(y));
}

/// A line of white space only trims to nothing.
proof fn lemma_trim_white(w: Seq<char>)
    requires
        forall|i: int| 0 <= i < w.len() ==> is_white_space(#[trigger] w[i]),
    ensures
        trim(w).len() == 0,
    decreases w.len(),
{
    if w.len() > 0 {
        let r = w.drop_first();
        assert forall|i: int| 0 <= i < r.len() implies is_white_space(#[trigger] r[i]) by {
            assert(r[i] == w[i + 1]);
        }
        lemma_trim_white(r);
        assert(crate::text::trim_start(w) == crate::text::trim_start(r));
    }
}

/// Blank lines do not change the rebuilt markup: a label with a line of
/// white space only (or an empty line) between two parts of its text is
/// rebuilt as the label without it, so no line of a verse is lost or added
/// at an empty line (such as the one between two stanzas).
pub proof fn lemma_blank_lines_do_not_matter(a: Seq<char>, w: Seq<char>, b: Seq<char>, font_size: nat)
    requires
        forall|i: int| 0 <= i < w.len() ==> is_white_space(#[trigger] w[i]) && w[i] != '\n',
    ensures
        resized_markup_of(a + seq!['\n'] + w + seq!['\n'] + b, font_size) == resized_markup_of(
            a + seq!['\n'] + b,
            font_size,
        ),
{
    reveal_with_fuel(Seq::filter, 1);
    let with_blank = a + seq!['\n'] + w + seq!['\n'] + b;
    assert(!w.contains('\n')) by {
        if w.contains('\n') {
            let j = choose|j: int| 0 <= j < w.len() && w[j] == '\n';
            assert(w[j] != '\n');
        }
    }
    lemma_split_single_line(w);
    lemma_split_lines_concat(w, b);
    assert(with_blank =~= a + seq!['\n'] + (w + seq!['\n'] + b));
    lemma_split_lines_concat(a, w + seq!['\n'] + b);
    lemma_split_lines_concat(a, b);
    let la = split_lines(a);
    let lb = split_lines(b);
    assert(split_lines(with_blank) == la + (seq![w] + lb));
    lemma_trim_all_add(la, seq![w] + lb);
    lemma_trim_all_add(seq![w], lb);
    lemma_trim_all_add(la, lb);
    lemma_trim_white(w);
    assert(trim_all(seq![w]) =~= seq![trim(w)]);
    let pred = |l: Seq<char>| l.len() > 0;
    Seq::filter_distributes_over_add(trim_all(la), trim_all(seq![w]) + trim_all(lb), pred);
    Seq::filter_distributes_over_add(trim_all(seq![w]), trim_all(lb), pred);
    Seq::filter_distributes_over_add(trim_all(la), trim_all(lb), pred);
    assert(seq![trim(w)].drop_last() =~= Seq::<Seq<char>>::empty());
    assert(drop_blank(trim_all(seq![w])) =~= Seq::<Seq<char>>::empty()) by {
        reveal_with_fuel(Seq::filter, 2);
        assert(seq![trim(w)].last() == trim(w));
    }
    assert(verse_parts(with_blank) =~= verse_parts(a + seq!['\n'] + b));
}

/// A label of a single line holds a number but no text, and is left as it
/// is.
pub proof fn lemma_single_line_label_kept(label: Seq<char>, font_size: nat)
    requires
        !label.contains('\n'),
    ensures
        resized_markup_of(label, font_size) is None,
{
    lemma_split_single_line(label);
    assert(verse_parts(label).len() <= 1) by {
        Seq::lemma_filter_len(trim_all(split_lines(label)), |l: Seq<char>| l.len() > 0);
    }
}

} // verus!
