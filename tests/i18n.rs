use elm_i18n::generator::{
    add_translation, escape_elm_string, find_last_field_line, remove_record_field,
    remove_translation, remove_type_field,
};
use elm_i18n::parser::{check_key_exists, parse_i18n_file, parse_record_fields};
use elm_i18n::templates::{capitalize_first, get_default_loading, get_default_title, get_default_welcome, get_i18n_template};
use elm_i18n::text::{join_lines, split_lines};
use elm_i18n::types::{I18nError, Translation};

fn template() -> String {
    get_i18n_template(&vec!["en".to_string(), "fr".to_string()])
}

fn plain(key: &str, en: &str, fr: &str) -> Translation {
    Translation {
        key: key.to_string(),
        en: en.to_string(),
        fr: fr.to_string(),
        is_function: false,
        type_signature: None,
    }
}

fn lines_of(text: &str) -> Vec<String> {
    split_lines(text).iter().map(|l| l.iter().collect()).collect()
}

fn chars(s: &str) -> Vec<char> {
    s.chars().collect()
}

#[test]
fn template_parses_to_its_defaults() {
    let t = template();
    let p = parse_i18n_file(&t).unwrap();
    let keys: Vec<&str> = p.translations.iter().map(|t| t.key.as_str()).collect();
    assert_eq!(keys, vec!["appTitle", "appName", "welcome", "loading"]);
    let title = check_key_exists(&t, "appTitle").unwrap().unwrap();
    assert_eq!(title.en, "\"Elm Application\"");
    assert_eq!(title.fr, "\"Application Elm\"");
    assert!(!title.is_function);
    assert_eq!(title.type_signature, None);
    let welcome = check_key_exists(&t, "welcome").unwrap().unwrap();
    assert_eq!(welcome.en, "\"Welcome!\"");
    assert_eq!(welcome.fr, "\"Bienvenue!\"");
    let loading = check_key_exists(&t, "loading").unwrap().unwrap();
    assert_eq!(loading.fr, "\"Chargement...\"");
    assert_eq!(check_key_exists(&t, "absent").unwrap(), None);
}

#[test]
fn template_regions_and_text() {
    let t = template();
    assert!(t.starts_with("module I18n exposing (..)\n"));
    assert!(t.contains("type Language\n    = EN\n    | FR\n"));
    assert!(t.contains("translationsFr : Translations\ntranslationsFr =\n    { appTitle = \"Application Elm\"\n"));
    assert!(t.contains("        \"fr\" ->\n            FR\n\n"));
    assert!(t.contains("        _ ->\n            EN\n\n\n"));
    let p = parse_i18n_file(&t).unwrap();
    let lines = lines_of(&t);
    assert!(lines[p.type_start_line].contains("type alias Translations"));
    assert_eq!(lines[p.type_end_line], "    }");
    assert!(lines[p.en_start_line].starts_with("translationsEn"));
    assert!(lines[p.fr_start_line].starts_with("translationsFr"));
    assert_eq!(p.en_end_line - p.en_start_line, 6);
}

#[test]
fn template_with_no_languages_is_english_and_french() {
    assert_eq!(get_i18n_template(&vec![]), template());
}

#[test]
fn template_for_other_languages() {
    let t = get_i18n_template(&vec!["de".to_string(), "es".to_string()]);
    assert!(t.contains("    = DE\n    | ES\n"));
    assert!(t.contains("translationsDe =\n    { appTitle = \"Elm Anwendung\""));
    assert!(t.contains("welcome = \"¡Bienvenido!\""));
    assert!(t.contains("        ES ->\n            translationsEs\n\n"));
}

#[test]
fn insert_then_find() {
    let t = template();
    let out = add_translation(&t, &plain("goodbye", "Bye", "Au revoir")).unwrap();
    let found = check_key_exists(&out, "goodbye").unwrap().unwrap();
    assert_eq!(found.key, "goodbye");
    assert_eq!(found.en, "\"Bye\"");
    assert_eq!(found.fr, "\"Au revoir\"");
    assert!(!found.is_function);
    let lines = lines_of(&out);
    assert!(lines.contains(&"    , goodbye : String".to_string()));
    let p = parse_i18n_file(&out).unwrap();
    assert_eq!(lines[p.type_end_line - 1], "    , goodbye : String");
    assert_eq!(lines[p.en_end_line - 1], "    , goodbye = \"Bye\"");
    assert_eq!(lines[p.fr_end_line - 1], "    , goodbye = \"Au revoir\"");
}

#[test]
fn insert_then_delete_restores_fields() {
    let t = template().trim_end().to_string();
    let before = parse_i18n_file(&t).unwrap().translations.len();
    let added = add_translation(&t, &plain("goodbye", "Bye", "Au revoir")).unwrap();
    assert_eq!(parse_i18n_file(&added).unwrap().translations.len(), before + 1);
    let removed = remove_translation(&added, "goodbye").unwrap();
    assert_eq!(parse_i18n_file(&removed).unwrap().translations.len(), before);
    assert!(!removed.contains("goodbye"));
    assert_eq!(removed, t);
}

#[test]
fn escaped_value_round_trips() {
    let t = template();
    let value = "say \"hi\"\\\tnow\nplease";
    let out = add_translation(&t, &plain("tricky", value, "x")).unwrap();
    let raw = check_key_exists(&out, "tricky").unwrap().unwrap().en;
    assert!(raw.starts_with('"') && raw.ends_with('"'));
    let inner = &raw[1..raw.len() - 1];
    let mut decoded = String::new();
    let mut it = inner.chars();
    while let Some(c) = it.next() {
        if c == '\\' {
            match it.next() {
                Some('n') => decoded.push('\n'),
                Some('t') => decoded.push('\t'),
                Some('r') => decoded.push('\r'),
                Some(o) => decoded.push(o),
                None => {}
            }
        } else {
            decoded.push(c);
        }
    }
    assert_eq!(decoded, value);
}

#[test]
fn escape_elm_string_exact() {
    assert_eq!(escape_elm_string("a\\b\"c\nd\re\tf"), "a\\\\b\\\"c\\nd\\re\\tf");
    assert_eq!(escape_elm_string(""), "");
    assert_eq!(escape_elm_string("plain"), "plain");
}

#[test]
fn missing_type_declaration_fails_closed() {
    let t = template().replace("type alias Translations", "type alias Strings");
    let label = I18nError::RegionNotFound("Translations".to_string());
    assert_eq!(parse_i18n_file(&t).unwrap_err(), label);
    assert_eq!(check_key_exists(&t, "appTitle").unwrap_err(), label);
    assert_eq!(add_translation(&t, &plain("k", "a", "b")).unwrap_err(), label);
    assert_eq!(remove_translation(&t, "appTitle").unwrap_err(), label);
}

#[test]
fn missing_records_are_named() {
    let no_en = template().replace("translationsEn :", "englishRecord :");
    assert_eq!(parse_i18n_file(&no_en).unwrap_err(), I18nError::RegionNotFound("translationsEn".to_string()));
    let no_fr = template().replace("translationsFr :", "frenchRecord :");
    assert_eq!(parse_i18n_file(&no_fr).unwrap_err(), I18nError::RegionNotFound("translationsFr".to_string()));
}

#[test]
fn removing_absent_key_is_key_not_found() {
    assert_eq!(remove_translation(&template(), "nothing").unwrap_err(), I18nError::KeyNotFound("nothing".to_string()));
}

#[test]
fn duplicate_insert_declares_key_twice() {
    let t = template();
    let out = add_translation(&t, &plain("welcome", "Hi", "Salut")).unwrap();
    let lines = lines_of(&out);
    let p = parse_i18n_file(&out).unwrap();
    let declared = lines[p.type_start_line..=p.type_end_line].iter().filter(|l| l.contains("welcome :")).count();
    assert_eq!(declared, 2);
    let en_fields = lines[p.en_start_line..=p.en_end_line].iter().filter(|l| l.contains("welcome =")).count();
    assert_eq!(en_fields, 2);
}

#[test]
fn multi_line_function_is_parsed_and_deleted() {
    let t = template().trim_end().to_string();
    let f = Translation {
        key: "itemCount".to_string(),
        en: "\\n ->\n    case n of\n        1 -> \"one item\"\n        _ -> \"many items\"".to_string(),
        fr: "\\n ->\n    case n of\n        1 -> \"un article\"\n        _ -> \"des articles\"".to_string(),
        is_function: true,
        type_signature: Some("Int -> String".to_string()),
    };
    let out = add_translation(&t, &f).unwrap();
    let found = check_key_exists(&out, "itemCount").unwrap().unwrap();
    assert!(found.is_function);
    assert_eq!(found.type_signature, Some("Int -> String".to_string()));
    assert_eq!(found.en, "\\n ->\n        case n of\n        1 -> \"one item\"\n        _ -> \"many items\"");
    assert_eq!(lines_of(&out).len(), lines_of(&t).len() + 1 + 4 + 4);
    let removed = remove_translation(&out, "itemCount").unwrap();
    assert_eq!(removed, t);
    assert!(removed.contains("    , loading = \"Loading...\"\n    }"));
}

#[test]
fn record_fields_collect_continuation_lines() {
    let lines: Vec<Vec<char>> = vec![
        chars("translationsEn ="),
        chars("    { count = \\n ->"),
        chars("            String.fromInt n"),
        chars("    , other = \"x\""),
        chars("    }"),
    ];
    let fields = parse_record_fields(&lines, 0, 4);
    assert_eq!(fields.len(), 2);
    assert_eq!(fields[0].name, "count");
    assert_eq!(fields[0].value, "\\n ->\n        String.fromInt n");
    assert_eq!(fields[1].name, "other");
    assert_eq!(fields[1].value, "\"x\"");
}

#[test]
fn type_field_removal_keeps_opening_line() {
    let mut lines: Vec<Vec<char>> = vec![
        chars("type alias Translations ="),
        chars("    { appTitle : String"),
        chars("    , appName : String"),
        chars("    }"),
    ];
    remove_type_field(&mut lines, &chars("appTitle"));
    assert_eq!(lines.len(), 4);
    remove_type_field(&mut lines, &chars("appName"));
    assert_eq!(lines.len(), 3);
    assert_eq!(lines[2], chars("    }"));
}

#[test]
fn record_field_removal_single_line() {
    let mut lines: Vec<Vec<char>> = vec![chars("    { a = \"1\""), chars("    , b = \"2\""), chars("    }")];
    remove_record_field(&mut lines, &chars("b"));
    assert_eq!(lines, vec![chars("    { a = \"1\""), chars("    }")]);
    remove_record_field(&mut lines, &chars("zzz"));
    assert_eq!(lines.len(), 2);
}

#[test]
fn last_field_line_of_empty_region_is_opener() {
    let lines: Vec<Vec<char>> = vec![chars("translationsEn ="), chars("    {"), chars("    }")];
    assert_eq!(find_last_field_line(&lines, 0, 2), 0);
    let lines2: Vec<Vec<char>> = vec![chars("x"), chars("    { a = 1"), chars("    }")];
    assert_eq!(find_last_field_line(&lines2, 0, 2), 1);
}

#[test]
fn split_lines_like_str_lines() {
    let ls = split_lines("a\r\nb\n\nc\n");
    assert_eq!(ls, vec![chars("a"), chars("b"), chars(""), chars("c")]);
    assert_eq!(split_lines(""), Vec::<Vec<char>>::new());
    assert_eq!(join_lines(&ls), "a\nb\n\nc");
}

#[test]
fn capitalize_and_defaults() {
    assert_eq!(capitalize_first("en"), "En");
    assert_eq!(capitalize_first(""), "");
    assert_eq!(capitalize_first("ß"), "SS");
    assert_eq!(get_default_title("fr"), "Application Elm");
    assert_eq!(get_default_title("xx"), "Elm Application");
    assert_eq!(get_default_welcome("de"), "Willkommen!");
    assert_eq!(get_default_loading("es"), "Cargando...");
}

#[test]
fn uppercase_of_language_codes() {
    let t = get_i18n_template(&vec!["pt".to_string()]);
    assert!(t.contains("    = PT\n"));
    assert!(t.contains("fallback to PT\n"));
}
