//! The text of a new translation file for a list of languages.
use vstd::prelude::*;
use crate::text::{chars_of, push_all, push_str, same_chars, string_of};

verus! {

/// What `str::to_uppercase` gives for `s`.
pub uninterp spec fn upper_of(s: Seq<char>) -> Seq<char>;

/// Relies on str::to_uppercase: the upper-case mapping of each character,
/// which depends on the characters alone.
#[verifier::external_body]
fn to_upper(s: &str) -> (r: String)
    ensures
        r@ == upper_of(s@),
{
    s.to_uppercase()
}

/// What `char::to_uppercase` yields for `c`.
pub uninterp spec fn char_upper_of(c: char) -> Seq<char>;

/// Relies on char::to_uppercase: the characters of the upper-case mapping
/// of `c`, which depend on `c` alone.
#[verifier::external_body]
fn char_to_upper(c: char) -> (r: Vec<char>)
    ensures
        r@ == char_upper_of(c),
{
    c.to_uppercase().collect()
}

/// `s` with its first character in upper case.
pub open spec fn capitalized(s: Seq<char>) -> Seq<char> {
    if s.len() == 0 {
        seq![]
    } else {
        char_upper_of(s[0]) + s.subrange(1, s.len() as int)
    }
}

pub fn capitalize_first(s: &str) -> (r: String)
    ensures
        r@ == capitalized(s@),
{
    let cs = chars_of(s);
    if cs.len() == 0 {
        return string_of(&cs);
    }
    let mut out = char_to_upper(cs[0]);
    let mut i: usize = 1;
    while i < cs.len()
        invariant
            1 <= i <= cs.len(),
            out@ == char_upper_of(cs@[0]) + cs@.subrange(1, i as int),
        decreases cs.len() - i,
    {
        out.push(cs[i]);
        i = i + 1;
        assert(out@ =~= char_upper_of(cs@[0]) + cs@.subrange(1, i as int));
    }
    string_of(&out)
}

pub open spec fn default_title(lang: Seq<char>) -> Seq<char> {
    if lang == "fr"@ {
        "Application Elm"@
    } else if lang == "es"@ {
        "Aplicación Elm"@
    } else if lang == "de"@ {
        "Elm Anwendung"@
    } else {
        "Elm Application"@
    }
}

pub open spec fn default_welcome(lang: Seq<char>) -> Seq<char> {
    if lang == "fr"@ {
        "Bienvenue!"@
    } else if lang == "es"@ {
        "¡Bienvenido!"@
    } else if lang == "de"@ {
        "Willkommen!"@
    } else {
        "Welcome!"@
    }
}

pub open spec fn default_loading(lang: Seq<char>) -> Seq<char> {
    if lang == "fr"@ {
        "Chargement..."@
    } else if lang == "es"@ {
        "Cargando..."@
    } else if lang == "de"@ {
        "Laden..."@
    } else {
        "Loading..."@
    }
}

fn is_lang(lang: &Vec<char>, code: &str) -> (r: bool)
    ensures
        r == (lang@ == code@),
{
    same_chars(lang, &chars_of(code))
}

/// The application title for a language code.
pub fn get_default_title(lang: &str) -> (r: &'static str)
    ensures
        r@ == default_title(lang@),
{
    let l = chars_of(lang);
    if is_lang(&l, "fr") {
        "Application Elm"
    } else if is_lang(&l, "es") {
        "Aplicación Elm"
    } else if is_lang(&l, "de") {
        "Elm Anwendung"
    } else {
        "Elm Application"
    }
}

/// The welcome message for a language code.
pub fn get_default_welcome(lang: &str) -> (r: &'static str)
    ensures
        r@ == default_welcome(lang@),
{
    let l = chars_of(lang);
    if is_lang(&l, "fr") {
        "Bienvenue!"
    } else if is_lang(&l, "es") {
        "¡Bienvenido!"
    } else if is_lang(&l, "de") {
        "Willkommen!"
    } else {
        "Welcome!"
    }
}

/// The loading message for a language code.
pub fn get_default_loading(lang: &str) -> (r: &'static str)
    ensures
        r@ == default_loading(lang@),
{
    let l = chars_of(lang);
    if is_lang(&l, "fr") {
        "Chargement..."
    } else if is_lang(&l, "es") {
        "Cargando..."
    } else if is_lang(&l, "de") {
        "Laden..."
    } else {
        "Loading..."
    }
}

/// The concatenation of `f(i, ls[i])` over the languages, in order.
pub open spec fn concat_map(ls: Seq<Seq<char>>, f: spec_fn(int, Seq<char>) -> Seq<char>) -> Seq<char>
    decreases ls.len(),
{
    if ls.len() == 0 {
        seq![]
    } else {
        concat_map(ls.drop_last(), f) + f(ls.len() - 1, ls.last())
    }
}

pub open spec fn header_text() -> Seq<char> {
    "module I18n exposing (..)\n\n{-| This module handles internationalization (i18n) for the application.\nIt provides translations for all UI text in supported languages.\n-}\n\n\n-- TYPES\n\n\ntype Language\n"@
}

pub open spec fn types_text() -> Seq<char> {
    "\n\n\ntype alias Translations =\n    { appTitle : String\n    , appName : String\n    , welcome : String\n    , loading : String\n    }\n\n\n-- FUNCTIONS\n\n\n"@
}

pub open spec fn variant_text(i: int, lang: Seq<char>) -> Seq<char> {
    (if i == 0 { "    = "@ } else { "    | "@ }) + upper_of(lang) + "\n"@
}

pub open spec fn record_text(lang: Seq<char>) -> Seq<char> {
    "translations"@ + capitalized(lang) + " : Translations\ntranslations"@ + capitalized(lang)
        + " =\n    { appTitle = \""@ + default_title(lang) + "\"\n    , appName = \"My App\"\n    , welcome = \""@
        + default_welcome(lang) + "\"\n    , loading = \""@ + default_loading(lang)
        + "\"\n    }\n\n\n"@
}

pub open spec fn to_string_case(lang: Seq<char>) -> Seq<char> {
    "        "@ + upper_of(lang) + " ->\n            \""@ + lang + "\"\n\n"@
}

pub open spec fn from_string_case(lang: Seq<char>) -> Seq<char> {
    "        \""@ + lang + "\" ->\n            "@ + upper_of(lang) + "\n\n"@
}

pub open spec fn translations_case(lang: Seq<char>) -> Seq<char> {
    "        "@ + upper_of(lang) + " ->\n            translations"@ + capitalized(lang) + "\n\n"@
}

/// The piece of each section that a language contributes: 0 its variant,
/// 1 its record, 2 and 3 its cases of the two conversions, 4 its case of
/// `translations`.
pub open spec fn case_fn(kind: u8) -> spec_fn(int, Seq<char>) -> Seq<char> {
    |i: int, l: Seq<char>|
        if kind == 0 {
            variant_text(i, l)
        } else if kind == 1 {
            record_text(l)
        } else if kind == 2 {
            to_string_case(l)
        } else if kind == 3 {
            from_string_case(l)
        } else {
            translations_case(l)
        }
}

/// The languages a template is written for: those given, else English and
/// French.
pub open spec fn template_langs(languages: Seq<Seq<char>>) -> Seq<Seq<char>> {
    if languages.len() == 0 {
        seq!["en"@, "fr"@]
    } else {
        languages
    }
}

/// The text of a new translation file.
pub open spec fn template_text(languages: Seq<Seq<char>>) -> Seq<char> {
    let langs = template_langs(languages);
    header_text() + (if languages.len() == 0 {
        "    = EN\n    | FR\n"@
    } else {
        concat_map(languages, case_fn(0))
    }) + types_text() + concat_map(langs, case_fn(1))
        + "{-| Convert Language to String for storage\n-}\nlanguageToString : Language -> String\nlanguageToString lang =\n    case lang of\n"@
        + concat_map(langs, case_fn(2))
        + "\n\n{-| Convert String to Language with fallback to "@ + upper_of(langs[0])
        + "\n-}\nstringToLanguage : String -> Language\nstringToLanguage str =\n    case str of\n"@
        + concat_map(langs.subrange(1, langs.len() as int), case_fn(3))
        + "        _ ->\n            "@ + upper_of(langs[0]) + "\n\n\n"@
        + "{{-| Get translations for a given language\n-}}\ntranslations : Language -> Translations\ntranslations lang =\n    case lang of\n"@
        + concat_map(langs, case_fn(4))
}

pub proof fn lemma_concat_map_step(ls: Seq<Seq<char>>, f: spec_fn(int, Seq<char>) -> Seq<char>, i: int)
    requires
        0 <= i < ls.len(),
    ensures
        concat_map(ls.subrange(0, i + 1), f) == concat_map(ls.subrange(0, i), f) + f(i, ls[i]),
{
    assert(ls.subrange(0, i + 1).drop_last() =~= ls.subrange(0, i));
}

fn upper_chars(l: &Vec<char>) -> (r: Vec<char>)
    ensures
        r@ == upper_of(l@),
{
    chars_of(to_upper(string_of(l).as_str()).as_str())
}

fn cap_chars(l: &Vec<char>) -> (r: Vec<char>)
    ensures
        r@ == capitalized(l@),
{
    chars_of(capitalize_first(string_of(l).as_str()).as_str())
}

pub open spec fn lang_views(ls: Seq<Vec<char>>) -> Seq<Seq<char>> {
    ls.map_values(|l: Vec<char>| l@)
}

/// Appends `f(i, langs[i])` for every language, as `concat_map` states.
fn push_cases(out: &mut Vec<char>, langs: &Vec<Vec<char>>, from: usize, kind: u8)
    requires
        from <= langs.len(),
        kind <= 4,
    ensures
        final(out)@ == old(out)@ + concat_map(lang_views(langs@).subrange(from as int, langs.len() as int), case_fn(kind)),
{
    let ghost ls = lang_views(langs@).subrange(from as int, langs.len() as int);
    let ghost base = out@;
    let mut i = from;
    while i < langs.len()
        invariant
            from <= i <= langs.len(),
            kind <= 4,
            ls == lang_views(langs@).subrange(from as int, langs.len() as int),
            out@ == base + concat_map(ls.subrange(0, i - from), case_fn(kind)),
        decreases langs.len() - i,
    {
        let l = &langs[i];
        assert(ls[i - from] == l@);
        let ghost pre = out@;
        if kind == 0 {
            if i == from {
                push_str(out, "    = ");
            } else {
                push_str(out, "    | ");
            }
            push_all(out, &upper_chars(l));
            push_str(out, "\n");
        } else if kind == 1 {
            push_str(out, "translations");
            let cap = cap_chars(l);
            push_all(out, &cap);
            push_str(out, " : Translations\ntranslations");
            push_all(out, &cap);
            push_str(out, " =\n    { appTitle = \"");
            let s = string_of(l);
            push_str(out, get_default_title(s.as_str()));
            push_str(out, "\"\n    , appName = \"My App\"\n    , welcome = \"");
            push_str(out, get_default_welcome(s.as_str()));
            push_str(out, "\"\n    , loading = \"");
            push_str(out, get_default_loading(s.as_str()));
            push_str(out, "\"\n    }\n\n\n");
        } else if kind == 2 {
            push_str(out, "        ");
            push_all(out, &upper_chars(l));
            push_str(out, " ->\n            \"");
            push_all(out, l);
            push_str(out, "\"\n\n");
        } else if kind == 3 {
            push_str(out, "        \"");
            push_all(out, l);
            push_str(out, "\" ->\n            ");
            push_all(out, &upper_chars(l));
            push_str(out, "\n\n");
        } else {
            push_str(out, "        ");
            push_all(out, &upper_chars(l));
            push_str(out, " ->\n            translations");
            push_all(out, &cap_chars(l));
            push_str(out, "\n\n");
        }
        proof {
            lemma_concat_map_step(ls, case_fn(kind), i - from);
        }
        assert(out@ =~= pre + case_fn(kind)(i - from, l@));
        i = i + 1;
    }
    assert(ls.subrange(0, langs.len() - from) =~= ls);
}

/// The text of a new translation file for `languages` (English and French
/// when the list is empty).
pub fn get_i18n_template(languages: &Vec<String>) -> (r: String)
    ensures
        r@ == template_text(languages@.map_values(|l: String| l@)),
{
    let mut langs: Vec<Vec<char>> = Vec::new();
    let mut k: usize = 0;
    while k < languages.len()
        invariant
            k <= languages.len(),
            lang_views(langs@) =~= languages@.map_values(|l: String| l@).subrange(0, k as int),
        decreases languages.len() - k,
    {
        let ghost pre = lang_views(langs@);
        langs.push(chars_of(languages[k].as_str()));
        assert(lang_views(langs@) =~= pre.push(languages@[k as int]@));
        k = k + 1;
    }
    let ghost given = languages@.map_values(|l: String| l@);
    assert(lang_views(langs@) =~= given);
    let mut out: Vec<char> = Vec::new();
    push_str(&mut out, "module I18n exposing (..)\n\n{-| This module handles internationalization (i18n) for the application.\nIt provides translations for all UI text in supported languages.\n-}\n\n\n-- TYPES\n\n\ntype Language\n");
    if langs.len() == 0 {
        push_str(&mut out, "    = EN\n    | FR\n");
    } else {
        push_cases(&mut out, &langs, 0, 0);
        assert(lang_views(langs@).subrange(0, langs.len() as int) =~= given);
    }
    push_str(&mut out, "\n\n\ntype alias Translations =\n    { appTitle : String\n    , appName : String\n    , welcome : String\n    , loading : String\n    }\n\n\n-- FUNCTIONS\n\n\n");
    if langs.len() == 0 {
        langs.push(chars_of("en"));
        langs.push(chars_of("fr"));
    }
    let ghost ls = lang_views(langs@);
    assert(ls =~= template_langs(given));
    assert(ls.subrange(0, langs.len() as int) =~= ls);
    push_cases(&mut out, &langs, 0, 1);
    push_str(&mut out, "{-| Convert Language to String for storage\n-}\nlanguageToString : Language -> String\nlanguageToString lang =\n    case lang of\n");
    push_cases(&mut out, &langs, 0, 2);
    let first = upper_chars(&langs[0]);
    push_str(&mut out, "\n\n{-| Convert String to Language with fallback to ");
    push_all(&mut out, &first);
    push_str(&mut out, "\n-}\nstringToLanguage : String -> Language\nstringToLanguage str =\n    case str of\n");
    push_cases(&mut out, &langs, 1, 3);
    push_str(&mut out, "        _ ->\n            ");
    push_all(&mut out, &first);
    push_str(&mut out, "\n\n\n");
    push_str(&mut out, "{{-| Get translations for a given language\n-}}\ntranslations : Language -> Translations\ntranslations lang =\n    case lang of\n");
    push_cases(&mut out, &langs, 0, 4);
    assert(out@ =~= template_text(given));
    string_of(&out)
}

} // verus!
