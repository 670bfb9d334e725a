//! Start-up choices: the language of the interface, where the translations
//! are looked for, and the colour scheme.
use vstd::prelude::*;
use crate::text::{chars_of, push_chars};

verus! {

/// The part of `s` before the first `c`, or all of `s` where it holds no
/// `c` (the first piece that `str::split(c)` yields).
pub open spec fn prefix_before(s: Seq<char>, c: char) -> Seq<char>
    decreases s.len(),
{
    if s.len() == 0 || s[0] == c {
        Seq::empty()
    } else {
        seq![s[0]] + prefix_before(s.drop_first(), c)
    }
}

/// The language code in a locale name such as `de_DE.UTF-8`: what comes
/// before the first `_` of what comes before the first `.`.
pub open spec fn language_code_of(lang: Seq<char>) -> Seq<char> {
    prefix_before(prefix_before(lang, '.'), '_')
}

/// `prefix_before(s, c)` is `s` up to the first `c`.
proof fn lemma_prefix_before_take(s: Seq<char>, c: char, i: int)
    requires
        0 <= i <= s.len(),
        forall|j: int| 0 <= j < i ==> s[j] != c,
        i == s.len() || s[i] == c,
    ensures
        prefix_before(s, c) == s.take(i),
    decreases s.len(),
{
    if s.len() > 0 && s[0] != c {
        assert forall|j: int| 0 <= j < i - 1 implies s.drop_first()[j] != c by {
            assert(s.drop_first()[j] == s[j + 1]);
        }
        lemma_prefix_before_take(s.drop_first(), c, i - 1);
        assert(seq![s[0]] + s.drop_first().take(i - 1) =~= s.take(i));
    } else {
        assert(s.take(i) =~= Seq::<char>::empty());
    }
}

/// `prefix_before(s, c)` is the longest start of `s` without `c`: a prefix
/// of `s` that holds no `c` and is followed by a `c` or by the end of `s`.
pub proof fn lemma_prefix_before_is_leading_run(s: Seq<char>, c: char)
    ensures
        ({
            let p = prefix_before(s, c);
            &&& p.len() <= s.len()
            &&& p == s.take(p.len() as int)
            &&& !p.contains(c)
            &&& p.len() == s.len() || s[p.len() as int] == c
        }),
    decreases s.len(),
{
    if s.len() > 0 && s[0] != c {
        let r = s.drop_first();
        lemma_prefix_before_is_leading_run(r, c);
        let q = prefix_before(r, c);
        let p = prefix_before(s, c);
        assert(p == seq![s[0]] + q);
        assert(p =~= s.take(p.len() as int));
        if p.contains(c) {
            let j = choose|j: int| 0 <= j < p.len() && p[j] == c;
            assert(q[j - 1] == c);
        }
        if p.len() < s.len() {
            assert(s[p.len() as int] == r[q.len() as int]);
        }
    } else {
        assert(prefix_before(s, c) =~= s.take(0));
    }
}

/// A separator in a locale name: the `.` before the encoding or the `_`
/// before the territory.
pub open spec fn is_locale_separator(c: char) -> bool {
    c == '.' || c == '_'
}

/// The language code is the leading name of the locale: the start of `lang`
/// up to its first `.` or `_`, or all of `lang` where it has neither
/// (`de_DE.UTF-8`, `de_DE`, `de.UTF-8` and `de` all give `de`).
pub proof fn lemma_language_code_is_leading_name(lang: Seq<char>)
    ensures
        ({
            let code = language_code_of(lang);
            &&& code.len() <= lang.len()
            &&& code == lang.take(code.len() as int)
            &&& forall|j: int| 0 <= j < code.len() ==> !is_locale_separator(#[trigger] code[j])
            &&& code.len() == lang.len() || is_locale_separator(lang[code.len() as int])
        }),
{
    let p = prefix_before(lang, '.');
    lemma_prefix_before_is_leading_run(lang, '.');
    lemma_prefix_before_is_leading_run(p, '_');
    let code = prefix_before(p, '_');
    assert(code =~= lang.take(code.len() as int));
    assert forall|j: int| 0 <= j < code.len() implies !is_locale_separator(#[trigger] code[j]) by {
        assert(code[j] == p[j]);
        if code[j] == '.' {
            assert(p.contains('.'));
        }
        if code[j] == '_' {
            assert(code.contains('_'));
        }
    }
    if code.len() < p.len() {
        assert(lang[code.len() as int] == p[code.len() as int]);
    }
}

/// The length of `v` up to its first `c`.
fn position_of(v: &Vec<char>, c: char) -> (i: usize)
    ensures
        i <= v.len(),
        prefix_before(v@, c) == v@.take(i as int),
{
    let mut i: usize = 0;
    while i < v.len() && v[i] != c
        invariant
            i <= v.len(),
            forall|j: int| 0 <= j < i ==> v@[j] != c,
        decreases v.len() - i,
    {
        i = i + 1;
    }
    proof {
        lemma_prefix_before_take(v@, c, i as int);
    }
    i
}

/// The language code in the locale name `lang` (the value of `LANG`).
pub fn language_code(lang: &str) -> (code: String)
    ensures
        code@ == language_code_of(lang@),
{
    let v = chars_of(lang);
    let a = position_of(&v, '.');
    let mut w: Vec<char> = Vec::new();
    let mut k: usize = 0;
    while k < a
        invariant
            k <= a <= v.len(),
            w@ == v@.take(k as int),
        decreases a - k,
    {
        w.push(v[k]);
        assert(v@.take(k + 1) =~= v@.take(k as int).push(v@[k as int]));
        k = k + 1;
    }
    let b = position_of(&w, '_');
    let mut code = String::new();
    push_chars(&mut code, &w, 0, b);
    assert(w@.subrange(0, b as int) =~= w@.take(b as int));
    code
}

/// Whether the interface falls back to English: the language is set, is
/// not English, and has no translation catalog.
pub fn needs_english_fallback(language: &str, catalog_exists: bool) -> (r: bool)
    ensures
        r == (language@.len() > 0 && language@ != seq!['e', 'n'] && !catalog_exists),
{
    let v = chars_of(language);
    let is_english = v.len() == 2 && v[0] == 'e' && v[1] == 'n';
    assert(is_english <==> v@ == seq!['e', 'n']) by {
        if v.len() == 2 && v[0] == 'e' && v[1] == 'n' {
            assert(v@ =~= seq!['e', 'n']);
        }
    }
    v.len() > 0 && !is_english && !catalog_exists
}

/// Where the translation catalogs are looked for.
#[derive(Debug, Clone, Copy, PartialEq, Eq)]
pub enum LocaleDir {
    /// `usr/share/locale` inside the AppImage (the directory in `APPDIR`).
    AppImage,
    /// `locales` in the working directory.
    WorkingDirectory,
    /// The system's `/usr/share/locale`.
    System,
}

/// The directory of the translation catalogs: the AppImage's when running
/// from one, else `locales` in the working directory where it exists, else
/// the system's.
pub fn locale_dir(running_from_appimage: bool, local_dir_exists: bool) -> (d: LocaleDir)
    ensures
        running_from_appimage ==> d == LocaleDir::AppImage,
        !running_from_appimage && local_dir_exists ==> d == LocaleDir::WorkingDirectory,
        !running_from_appimage && !local_dir_exists ==> d == LocaleDir::System,
{
    if running_from_appimage {
        LocaleDir::AppImage
    } else if local_dir_exists {
        LocaleDir::WorkingDirectory
    } else {
        LocaleDir::System
    }
}

/// The colour scheme asked of the platform.
#[derive(Debug, Clone, Copy, PartialEq, Eq)]
pub enum ColorScheme {
    PreferDark,
    PreferLight,
}

/// The colour scheme for the dark-mode setting.
pub fn color_scheme(dark_mode: bool) -> (c: ColorScheme)
    ensures
        dark_mode ==> c == ColorScheme::PreferDark,
        !dark_mode ==> c == ColorScheme::PreferLight,
{
    if dark_mode {
        ColorScheme::PreferDark
    } else {
        ColorScheme::PreferLight
    }
}

/// Whether the light/dark switch is offered: not when running from an
/// AppImage, where switching the scheme does not reach the desktop portal.
pub fn theme_toggle_visible(running_from_appimage: bool) -> (visible: bool)
    ensures
        visible == !running_from_appimage,
{
    !running_from_appimage
}

} // verus!
