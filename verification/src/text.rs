//! Character-level text utilities: Unicode white space, trimming, line
//! splitting and joining, and decimal rendering of integers.
use vstd::prelude::*;

verus! {

// ------------------------------------------------------------------------
// White space
// ------------------------------------------------------------------------

/// The Unicode `White_Space` property, the set of characters that
/// `char::is_whitespace` (and hence `str::trim`) treats as white space.
pub open spec fn is_white_space(c: char) -> bool {
    let u = c as int;
    ||| 0x09 <= u <= 0x0D
    ||| u == 0x20
    ||| u == 0x85
    ||| u == 0xA0
    ||| u == 0x1680
    ||| 0x2000 <= u <= 0x200A
    ||| u == 0x2028
    ||| u == 0x2029
    ||| u == 0x202F
    ||| u == 0x205F
    ||| u == 0x3000
}

/// Whether `c` is Unicode white space.
pub fn is_whitespace(c: char) -> (r: bool)
    ensures
        r == is_white_space(c),
{
    let u: u32 = c as u32;
    (0x09 <= u && u <= 0x0D) || u == 0x20 || u == 0x85 || u == 0xA0 || u == 0x1680 || (0x2000
        <= u && u <= 0x200A) || u == 0x2028 || u == 0x2029 || u == 0x202F || u == 0x205F || u
        == 0x3000
}

// ------------------------------------------------------------------------
// Trimming
// ------------------------------------------------------------------------

/// `s` without its leading white space.
pub open spec fn trim_start(s: Seq<char>) -> Seq<char>
    decreases s.len(),
{
    if s.len() > 0 && is_white_space(s[0]) {
        trim_start(s.drop_first())
    } else {
        s
    }
}

/// `s` without its trailing white space.
pub open spec fn trim_end(s: Seq<char>) -> Seq<char>
    decreases s.len(),
{
    if s.len() > 0 && is_white_space(s.last()) {
        trim_end(s.drop_last())
    } else {
        s
    }
}

/// `s` without leading and trailing white space (what `str::trim` gives).
pub open spec fn trim(s: Seq<char>) -> Seq<char> {
    trim_end(trim_start(s))
}

/// A text with no white space at either end.
pub open spec fn is_trimmed(s: Seq<char>) -> bool {
    s.len() > 0 ==> !is_white_space(s[0]) && !is_white_space(s.last())
}

/// Trimming a text that has no white space at its ends leaves it as it is.
pub proof fn lemma_trim_trimmed(s: Seq<char>)
    requires
        is_trimmed(s),
    ensures
        trim(s) == s,
{
}

/// The bounds `(a, b)` of the trimmed part of `s`.
pub fn trimmed_bounds(s: &Vec<char>) -> (r: (usize, usize))
    ensures
        r.0 <= r.1 <= s.len(),
        s@.subrange(r.0 as int, r.1 as int) == trim(s@),
{
    let len = s.len();
    let mut i: usize = 0;
    assert(s@.skip(0) =~= s@);
    while i < len && is_whitespace(s[i])
        invariant
            i <= len == s.len(),
            trim_start(s@) == trim_start(s@.skip(i as int)),
        decreases len - i,
    {
        assert(s@.skip(i as int).drop_first() =~= s@.skip(i + 1));
        i = i + 1;
    }
    assert(trim_start(s@) == s@.subrange(i as int, len as int)) by {
        assert(s@.skip(i as int) =~= s@.subrange(i as int, len as int));
    }
    let mut j: usize = len;
    while j > i && is_whitespace(s[j - 1])
        invariant
            i <= j <= len == s.len(),
            trim_start(s@) == s@.subrange(i as int, len as int),
            trim(s@) == trim_end(s@.subrange(i as int, j as int)),
        decreases j,
    {
        assert(s@.subrange(i as int, j as int).drop_last() =~= s@.subrange(
            i as int,
            j - 1,
        ));
        j = j - 1;
    }
    (i, j)
}

// ------------------------------------------------------------------------
// Conversions between strings and characters
// ------------------------------------------------------------------------

/// `String::push`: appends the character `c` at the end of `s`.
#[verifier::external_body]
fn push_char(s: &mut String, c: char)
    ensures
        final(s)@ == old(s)@.push(c),
{
    s.push(c);
}

/// The characters of `s`, in order.
pub fn chars_of(s: &str) -> (v: Vec<char>)
    ensures
        v@ == s@,
{
    let mut v: Vec<char> = Vec::new();
    for c in it: s.chars()
        invariant
            v@ == it.seq().take(it.index() as int),
    {
        v.push(c);
    }
    v
}

/// Appends the characters `v[from..to]` to `s`.
pub fn push_chars(s: &mut String, v: &Vec<char>, from: usize, to: usize)
    requires
        from <= to <= v.len(),
    ensures
        final(s)@ == old(s)@ + v@.subrange(from as int, to as int),
{
    let mut i = from;
    while i < to
        invariant
            from <= i <= to <= v.len(),
            s@ == old(s)@ + v@.subrange(from as int, i as int),
        decreases to - i,
    {
        push_char(s, v[i]);
        assert(v@.subrange(from as int, i + 1) =~= v@.subrange(from as int, i as int).push(
            v@[i as int],
        ));
        i = i + 1;
    }
}

/// The characters `v[from..to]`.
pub fn sub_vec(v: &Vec<char>, from: usize, to: usize) -> (r: Vec<char>)
    requires
        from <= to <= v.len(),
    ensures
        r@ == v@.subrange(from as int, to as int),
{
    let mut r: Vec<char> = Vec::new();
    let mut i = from;
    while i < to
        invariant
            from <= i <= to <= v.len(),
            r@ == v@.subrange(from as int, i as int),
        decreases to - i,
    {
        r.push(v[i]);
        assert(v@.subrange(from as int, i + 1) =~= v@.subrange(from as int, i as int).push(
            v@[i as int],
        ));
        i = i + 1;
    }
    r
}

/// The string made of the characters of `v`.
pub fn string_of(v: &Vec<char>) -> (s: String)
    ensures
        s@ == v@,
{
    let mut s = String::new();
    push_chars(&mut s, v, 0, v.len());
    assert(v@.subrange(0, v@.len() as int) =~= v@);
    s
}

/// `s` without leading and trailing white space.
pub fn trim_str(s: &str) -> (r: String)
    ensures
        r@ == trim(s@),
{
    let v = chars_of(s);
    let (a, b) = trimmed_bounds(&v);
    let mut r = String::new();
    push_chars(&mut r, &v, a, b);
    r
}

// ------------------------------------------------------------------------
// Decimal numbers
// ------------------------------------------------------------------------

/// The character of the decimal digit `d`.
pub open spec fn digit_char(d: nat) -> char {
    seq!['0', '1', '2', '3', '4', '5', '6', '7', '8', '9'][d as int]
}

/// The decimal representation of `n`, as `format!("{}", n)` writes it:
/// no sign, no leading zeros, and `"0"` for zero.
pub open spec fn decimal(n: nat) -> Seq<char>
    decreases n,
{
    if n < 10 {
        seq![digit_char(n)]
    } else {
        decimal(n / 10).push(digit_char(n % 10))
    }
}

fn digit(d: u64) -> (c: char)
    requires
        d < 10,
    ensures
        c == digit_char(d as nat),
{
    if d == 0 {
        '0'
    } else if d == 1 {
        '1'
    } else if d == 2 {
        '2'
    } else if d == 3 {
        '3'
    } else if d == 4 {
        '4'
    } else if d == 5 {
        '5'
    } else if d == 6 {
        '6'
    } else if d == 7 {
        '7'
    } else if d == 8 {
        '8'
    } else {
        '9'
    }
}

/// Appends the decimal representation of `n` to `s`.
pub fn push_decimal(s: &mut String, n: u64)
    ensures
        final(s)@ == old(s)@ + decimal(n as nat),
    decreases n,
{
    if n < 10 {
        push_char(s, digit(n));
    } else {
        push_decimal(s, n / 10);
        push_char(s, digit(n % 10));
    }
}

/// The decimal representation of `n`.
pub fn decimal_string(n: u64) -> (s: String)
    ensures
        s@ == decimal(n as nat),
{
    let mut s = String::new();
    push_decimal(&mut s, n);
    assert(s@ =~= decimal(n as nat));
    s
}

/// Different digits have different characters.
pub proof fn lemma_digit_char_injective(x: nat, y: nat)
    requires
        x < 10,
        y < 10,
        digit_char(x) == digit_char(y),
    ensures
        x == y,
{
    let d = seq!['0', '1', '2', '3', '4', '5', '6', '7', '8', '9'];
    assert(d[0] == '0' && d[1] == '1' && d[2] == '2' && d[3] == '3' && d[4] == '4');
    assert(d[5] == '5' && d[6] == '6' && d[7] == '7' && d[8] == '8' && d[9] == '9');
}

/// A decimal representation is never empty, and holds only digits.
pub proof fn lemma_decimal_digits(n: nat)
    ensures
        decimal(n).len() >= 1,
        n >= 10 ==> decimal(n).len() >= 2,
        forall|i: int|
            0 <= i < decimal(n).len() ==> '0' <= #[trigger] decimal(n)[i] && decimal(n)[i]
                <= '9',
    decreases n,
{
    if n >= 10 {
        lemma_decimal_digits(n / 10);
    }
}

/// Different numbers have different decimal representations.
pub proof fn lemma_decimal_injective(a: nat, b: nat)
    requires
        decimal(a) == decimal(b),
    ensures
        a == b,
    decreases a,
{
    lemma_decimal_digits(a);
    lemma_decimal_digits(b);
    if a < 10 && b < 10 {
        assert(decimal(a) == seq![digit_char(a)]);
        assert(decimal(b) == seq![digit_char(b)]);
        assert(decimal(a)[0] == digit_char(a));
        assert(decimal(b)[0] == digit_char(b));
        lemma_digit_char_injective(a, b);
    } else if a >= 10 && b >= 10 {
        assert(decimal(a).last() == digit_char(a % 10));
        assert(decimal(b).last() == digit_char(b % 10));
        assert(decimal(a / 10) =~= decimal(a).drop_last());
        assert(decimal(b / 10) =~= decimal(b).drop_last());
        lemma_decimal_injective(a / 10, b / 10);
        lemma_digit_char_injective(a % 10, b % 10);
    }
}

// ------------------------------------------------------------------------
// Lines
// ------------------------------------------------------------------------

/// `lines` with `p` put in front of its first line.
pub open spec fn prepend_to_first(p: Seq<char>, lines: Seq<Seq<char>>) -> Seq<Seq<char>> {
    lines.update(0, p + lines[0])
}

/// The pieces of `s` between its `'\n'` characters, as `str::split('\n')`
/// yields them: a text with `n` line breaks has `n + 1` lines, and the
/// empty text has one, empty, line.
pub open spec fn split_lines(s: Seq<char>) -> Seq<Seq<char>>
    decreases s.len(),
{
    if s.len() == 0 {
        seq![Seq::<char>::empty()]
    } else if s[0] == '\n' {
        seq![Seq::<char>::empty()] + split_lines(s.drop_first())
    } else {
        prepend_to_first(seq![s[0]], split_lines(s.drop_first()))
    }
}

/// The lines `parts` put together with a `'\n'` between each two, as
/// `[..].join("\n")` does.
pub open spec fn join_lines(parts: Seq<Seq<char>>) -> Seq<char>
    decreases parts.len(),
{
    if parts.len() == 0 {
        Seq::empty()
    } else if parts.len() == 1 {
        parts[0]
    } else {
        parts[0] + seq!['\n'] + join_lines(parts.drop_first())
    }
}

/// The contents of a vector of character vectors.
pub open spec fn lines_view(v: Seq<Vec<char>>) -> Seq<Seq<char>> {
    v.map_values(|l: Vec<char>| l@)
}

/// A text always has at least one line.
pub proof fn lemma_split_lines_nonempty(s: Seq<char>)
    ensures
        split_lines(s).len() >= 1,
    decreases s.len(),
{
    if s.len() > 0 {
        lemma_split_lines_nonempty(s.drop_first());
    }
}

/// Splitting `p`, a line break and `r` gives `p` followed by the lines of `r`,
/// when `p` holds no line break.
pub proof fn lemma_split_lines_after_line(p: Seq<char>, r: Seq<char>)
    requires
        !p.contains('\n'),
    ensures
        split_lines(p + seq!['\n'] + r) == seq![p] + split_lines(r),
    decreases p.len(),
{
    let s = p + seq!['\n'] + r;
    if p.len() == 0 {
        assert(s.drop_first() =~= r);
        assert(p =~= Seq::<char>::empty());
    } else {
        let q = p.drop_first();
        assert(!q.contains('\n')) by {
            if q.contains('\n') {
                let j = choose|j: int| 0 <= j < q.len() && q[j] == '\n';
                assert(p[j + 1] == '\n');
            }
        }
        assert(s.drop_first() =~= q + seq!['\n'] + r);
        lemma_split_lines_after_line(q, r);
        assert(s[0] == p[0]);
        assert(seq![p[0]] + q =~= p);
        assert(prepend_to_first(seq![p[0]], seq![q] + split_lines(r)) =~= seq![p] + split_lines(
            r,
        ));
    }
}

/// Joining puts a line in front of the first line.
pub proof fn lemma_join_prepend(p: Seq<char>, lines: Seq<Seq<char>>)
    requires
        lines.len() >= 1,
    ensures
        join_lines(prepend_to_first(p, lines)) == p + join_lines(lines),
{
    let l2 = prepend_to_first(p, lines);
    if lines.len() == 1 {
        assert(l2.len() == 1);
    } else {
        assert(l2.drop_first() =~= lines.drop_first());
        assert(join_lines(l2) =~= p + join_lines(lines));
    }
}

/// Joining a list with one more line adds a line break and that line.
pub proof fn lemma_join_push(lines: Seq<Seq<char>>, x: Seq<char>)
    requires
        lines.len() >= 1,
    ensures
        join_lines(lines.push(x)) == join_lines(lines) + seq!['\n'] + x,
    decreases lines.len(),
{
    if lines.len() == 1 {
        assert(lines.push(x).drop_first() =~= seq![x]);
        assert(join_lines(seq![x]) == x);
        assert(lines.push(x)[0] == lines[0]);
        assert(join_lines(lines) == lines[0]);
        assert(join_lines(lines.push(x)) =~= join_lines(lines) + seq!['\n'] + x);
    } else {
        assert(lines.push(x).drop_first() =~= lines.drop_first().push(x));
        lemma_join_push(lines.drop_first(), x);
        assert(join_lines(lines.push(x)) =~= join_lines(lines) + seq!['\n'] + x);
    }
}

/// Joining the lines of a text gives the text back.
pub proof fn lemma_join_split(s: Seq<char>)
    ensures
        join_lines(split_lines(s)) == s,
    decreases s.len(),
{
    if s.len() > 0 {
        let rest = split_lines(s.drop_first());
        lemma_join_split(s.drop_first());
        lemma_split_lines_nonempty(s.drop_first());
        if s[0] == '\n' {
            let l = seq![Seq::<char>::empty()] + rest;
            assert(l.drop_first() =~= rest);
            assert(join_lines(l) =~= s);
        } else {
            lemma_join_prepend(seq![s[0]], rest);
            assert(seq![s[0]] + s.drop_first() =~= s);
        }
    }
}

/// The lines of the text `s`.
pub fn split_lines_of(s: &Vec<char>) -> (lines: Vec<Vec<char>>)
    ensures
        lines_view(lines@) == split_lines(s@),
{
    let mut done: Vec<Vec<char>> = Vec::new();
    let mut cur: Vec<char> = Vec::new();
    let mut i: usize = 0;
    proof {
        lemma_split_lines_nonempty(s@);
        assert(s@.skip(0) =~= s@);
        assert(prepend_to_first(cur@, split_lines(s@)) =~= split_lines(s@));
        assert(lines_view(done@) =~= Seq::<Seq<char>>::empty());
    }
    while i < s.len()
        invariant
            i <= s.len(),
            split_lines(s@) == lines_view(done@) + prepend_to_first(
                cur@,
                split_lines(s@.skip(i as int)),
            ),
        decreases s.len() - i,
    {
        let c = s[i];
        let ghost rest = split_lines(s@.skip(i + 1));
        proof {
            assert(s@.skip(i as int).drop_first() =~= s@.skip(i + 1));
            assert(s@.skip(i as int)[0] == c);
            lemma_split_lines_nonempty(s@.skip(i + 1));
        }
        if c == '\n' {
            let ghost old_done = done@;
            let ghost old_cur = cur@;
            done.push(cur);
            cur = Vec::new();
            proof {
                assert(lines_view(done@) =~= lines_view(old_done).push(old_cur));
                assert(prepend_to_first(old_cur, seq![Seq::<char>::empty()] + rest) =~= seq![
                    old_cur,
                ] + rest);
                assert(prepend_to_first(cur@, rest) =~= rest);
            }
        } else {
            let ghost old_cur = cur@;
            cur.push(c);
            proof {
                assert(old_cur + (seq![c] + rest[0]) =~= cur@ + rest[0]);
                assert(prepend_to_first(old_cur, prepend_to_first(seq![c], rest))
                    =~= prepend_to_first(cur@, rest));
            }
        }
        i = i + 1;
    }
    proof {
        assert(s@.skip(i as int) =~= Seq::<char>::empty());
    }
    let ghost old_done = done@;
    let ghost last = cur@;
    done.push(cur);
    proof {
        assert(lines_view(done@) =~= lines_view(old_done).push(last));
        assert(prepend_to_first(last, seq![Seq::<char>::empty()]) =~= seq![last]);
    }
    done
}

/// Appends to `out` the lines `parts[from..]` joined by line breaks.
pub fn push_joined(out: &mut String, parts: &Vec<Vec<char>>, from: usize)
    requires
        from <= parts.len(),
    ensures
        final(out)@ == old(out)@ + join_lines(lines_view(parts@).skip(from as int)),
{
    let ghost lines = lines_view(parts@);
    if from == parts.len() {
        assert(lines.skip(from as int) =~= Seq::<Seq<char>>::empty());
        return;
    }
    let first = &parts[from];
    push_chars(out, first, 0, first.len());
    proof {
        assert(first@.subrange(0, first@.len() as int) =~= first@);
        assert(lines.subrange(from as int, from + 1) =~= seq![first@]);
    }
    let mut k = from + 1;
    while k < parts.len()
        invariant
            from < k <= parts.len(),
            lines == lines_view(parts@),
            out@ == old(out)@ + join_lines(lines.subrange(from as int, k as int)),
        decreases parts.len() - k,
    {
        let part = &parts[k];
        push_char(out, '\n');
        push_chars(out, part, 0, part.len());
        proof {
            assert(part@.subrange(0, part@.len() as int) =~= part@);
            assert(lines.subrange(from as int, k + 1) =~= lines.subrange(from as int, k as int).push(
                part@,
            ));
            lemma_join_push(lines.subrange(from as int, k as int), part@);
        }
        k = k + 1;
    }
    assert(lines.subrange(from as int, k as int) =~= lines.skip(from as int));
}

// ------------------------------------------------------------------------
// Laws
// ------------------------------------------------------------------------

/// Every character of `s` is white space.
pub open spec fn all_white(s: Seq<char>) -> bool {
    forall|i: int| 0 <= i < s.len() ==> is_white_space(#[trigger] s[i])
}

proof fn lemma_trim_start_skips_white(s: Seq<char>) -> (a: int)
    ensures
        0 <= a <= s.len(),
        trim_start(s) == s.skip(a),
        all_white(s.take(a)),
        a < s.len() ==> !is_white_space(s[a]),
    decreases s.len(),
{
    if s.len() > 0 && is_white_space(s[0]) {
        let b = lemma_trim_start_skips_white(s.drop_first());
        assert(s.drop_first().skip(b) =~= s.skip(b + 1));
        assert forall|i: int| 0 <= i < b + 1 implies is_white_space(#[trigger] s.take(b + 1)[i]) by {
            if i > 0 {
                assert(s.take(b + 1)[i] == s.drop_first().take(b)[i - 1]);
            }
        }
        b + 1
    } else {
        assert(s.skip(0) =~= s);
        0
    }
}

proof fn lemma_trim_end_takes_white(s: Seq<char>) -> (b: int)
    ensures
        0 <= b <= s.len(),
        trim_end(s) == s.take(b),
        all_white(s.skip(b)),
        b > 0 ==> !is_white_space(s[b - 1]),
    decreases s.len(),
{
    if s.len() > 0 && is_white_space(s.last()) {
        let c = lemma_trim_end_takes_white(s.drop_last());
        assert(s.drop_last().take(c) =~= s.take(c));
        assert forall|i: int| 0 <= i < s.len() - c implies is_white_space(#[trigger] s.skip(c)[i]) by {
            if i < s.len() - 1 - c {
                assert(s.skip(c)[i] == s.drop_last().skip(c)[i]);
            }
        }
        c
    } else {
        assert(s.take(s.len() as int) =~= s);
        s.len() as int
    }
}

/// Trimming removes white space at both ends and nothing else: `s` is the
/// trimmed text with white space before and after it, and the trimmed text
/// neither starts nor ends with white space.
pub proof fn lemma_trim_removes_only_outer_white_space(s: Seq<char>)
    ensures
        is_trimmed(trim(s)),
        exists|a: int|
            0 <= a && a + trim(s).len() <= s.len() && #[trigger] s.subrange(a, a + trim(s).len())
                == trim(s) && all_white(s.take(a)) && all_white(s.skip(a + trim(s).len())),
{
    let a = lemma_trim_start_skips_white(s);
    let t = s.skip(a);
    let b = lemma_trim_end_takes_white(t);
    assert(trim(s) == t.take(b));
    assert(s.subrange(a, a + b) =~= t.take(b));
    assert(s.skip(a + b) =~= t.skip(b));
    if b > 0 {
        assert(trim(s)[0] == s[a]);
        assert(trim(s).last() == t[b - 1]);
    }
}

/// The number that a text of decimal digits stands for.
pub open spec fn digits_value(s: Seq<char>) -> int
    decreases s.len(),
{
    if s.len() == 0 {
        0
    } else {
        digits_value(s.drop_last()) * 10 + (s.last() as int - '0' as int)
    }
}

/// The decimal representation of `n` stands for `n`, is made of digits, and
/// starts with a zero only for zero itself.
pub proof fn lemma_decimal_reads_back(n: nat)
    ensures
        digits_value(decimal(n)) == n,
        forall|i: int| 0 <= i < decimal(n).len() ==> '0' <= #[trigger] decimal(n)[i] <= '9',
        decimal(n)[0] == '0' ==> n == 0,
    decreases n,
{
    lemma_decimal_digits(n);
    let d = seq!['0', '1', '2', '3', '4', '5', '6', '7', '8', '9'];
    assert(d[0] == '0' && d[1] == '1' && d[2] == '2' && d[3] == '3' && d[4] == '4');
    assert(d[5] == '5' && d[6] == '6' && d[7] == '7' && d[8] == '8' && d[9] == '9');
    assert(digit_char(n % 10) as int - '0' as int == n % 10);
    if n >= 10 {
        lemma_decimal_reads_back(n / 10);
        assert(decimal(n).drop_last() =~= decimal(n / 10));
        assert(decimal(n)[0] == decimal(n / 10)[0]);
        assert(decimal(n).last() == digit_char(n % 10));
        assert(digits_value(decimal(n)) == digits_value(decimal(n / 10)) * 10 + (n % 10));
    } else {
        assert(decimal(n).drop_last() =~= Seq::<char>::empty());
        assert(decimal(n).last() == digit_char(n % 10));
        assert(digits_value(Seq::<char>::empty()) == 0);
    }
}

/// Splitting a text into lines and joining them back are inverse: the lines
/// hold no line break, and joining them with line breaks gives the text.
pub proof fn lemma_lines_of_text(s: Seq<char>)
    ensures
        join_lines(split_lines(s)) == s,
        split_lines(s).len() >= 1,
        forall|i: int|
            0 <= i < split_lines(s).len() ==> !(#[trigger] split_lines(s)[i]).contains('\n'),
    decreases s.len(),
{
    lemma_join_split(s);
    lemma_split_lines_nonempty(s);
    if s.len() > 0 {
        let rest = split_lines(s.drop_first());
        lemma_lines_of_text(s.drop_first());
        if s[0] != '\n' {
            assert forall|i: int| 0 <= i < split_lines(s).len() implies !(
            #[trigger] split_lines(s)[i]).contains('\n') by {
                if i == 0 {
                    let l = seq![s[0]] + rest[0];
                    assert(split_lines(s)[0] == l);
                    if l.contains('\n') {
                        let j = choose|j: int| 0 <= j < l.len() && l[j] == '\n';
                        assert(rest[0][j - 1] == '\n');
                    }
                } else {
                    assert(split_lines(s)[i] == rest[i]);
                }
            }
        } else {
            assert forall|i: int| 0 <= i < split_lines(s).len() implies !(
            #[trigger] split_lines(s)[i]).contains('\n') by {
                if i > 0 {
                    assert(split_lines(s)[i] == rest[i - 1]);
                } else {
                    assert(split_lines(s)[0] =~= Seq::<char>::empty());
                }
            }
        }
    }
}

/// White space in ASCII is exactly tab, line feed, vertical tab, form feed,
/// carriage return and space; no character above U+3000 is white space.
pub proof fn lemma_white_space_bounds(c: char)
    ensures
        (c as int) < 0x80 ==> (is_white_space(c) <==> (c == '\t' || c == '\n' || c == '\u{b}'
            || c == '\u{c}' || c == '\r' || c == ' ')),
        (c as int) > 0x3000 ==> !is_white_space(c),
{
}

} // verus!
