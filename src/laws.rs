//! Properties that relate the locator and the mutator.
use vstd::prelude::*;
use crate::generator::{
    keeps_type_line, kept_lines, added_lines, lemma_last_field_line, last_field_line, shifted, block_end, ends_block, escape_char, escaped, first_line_with, opens_block, record_field_line,
    record_removed, type_field_line,
};
use crate::parser::{
    field_head, lemma_scan_bounds, name_start, parse_spec, record_field_of, type_field_of, type_region, word_end,
    ParseView,
};
use crate::types::TranslationView;
use crate::text::{ascii_word, contains, is_ws, occurs_at, rskip_ws, skip_ws, starts_with, trim, trim_start, word_char};

verus! {

/// A file without the type declaration parses to the error that names it;
/// `add_translation` and `remove_translation` then return that error and
/// leave the lines as they were.
pub proof fn law_missing_type_region_fails(ls: Seq<Seq<char>>)
    requires
        type_region(ls) is None,
    ensures
        parse_spec(ls) == Err::<ParseView, Seq<char>>("Translations"@),
{
}

proof fn lemma_block_end_at(ls: Seq<Seq<char>>, j: int, e: int)
    requires
        0 <= j <= e <= ls.len(),
        forall|k: int| j <= k < e ==> !ends_block(#[trigger] ls[k]),
        e < ls.len() ==> ends_block(ls[e]),
    ensures
        block_end(ls, j) == e,
    decreases e - j,
{
    if j < e {
        lemma_block_end_at(ls, j + 1, e);
    }
}

/// Deleting a field whose value opens a block on line `i` and goes on for
/// `n` continuation lines removes exactly those `n + 1` lines: the lines
/// before and after stay as they were, in order.
pub proof fn law_multi_line_deletion(ls: Seq<Seq<char>>, key: Seq<char>, i: int, n: int)
    requires
        first_line_with(ls, key + " ="@, 0) == Some(i),
        0 <= i,
        0 <= n,
        i + n < ls.len(),
        opens_block(ls[i]),
        forall|j: int| i < j <= i + n ==> !ends_block(#[trigger] ls[j]),
        i + n + 1 < ls.len() ==> ends_block(ls[i + n + 1]),
    ensures
        record_removed(ls, key) == ls.subrange(0, i) + ls.subrange(i + n + 1, ls.len() as int),
        record_removed(ls, key).len() == ls.len() - (n + 1),
{
    lemma_block_end_at(ls, i + 1, i + n + 1);
}

/// Reads escape sequences back: `\n`, `\r`, `\t` to their characters, any
/// other escaped character to itself.
pub open spec fn unescape_char(c: char) -> char {
    if c == 'n' {
        '\n'
    } else if c == 'r' {
        '\r'
    } else if c == 't' {
        '\t'
    } else {
        c
    }
}

pub open spec fn unescaped(s: Seq<char>) -> Seq<char>
    decreases s.len(),
{
    if s.len() == 0 {
        seq![]
    } else if s[0] == '\\' && s.len() >= 2 {
        seq![unescape_char(s[1])] + unescaped(s.subrange(2, s.len() as int))
    } else {
        seq![s[0]] + unescaped(s.subrange(1, s.len() as int))
    }
}

proof fn lemma_escaped_front(s: Seq<char>)
    requires
        s.len() > 0,
    ensures
        escaped(s) == escape_char(s[0]) + escaped(s.subrange(1, s.len() as int)),
    decreases s.len(),
{
    if s.len() == 1 {
        assert(s.drop_last() =~= seq![]);
        assert(s.subrange(1, 1) =~= seq![]);
        assert(escaped(seq![]) == Seq::<char>::empty());
        assert(escaped(s) =~= escape_char(s[0]));
    } else {
        let d = s.drop_last();
        lemma_escaped_front(d);
        let t = s.subrange(1, s.len() as int);
        assert(t.drop_last() =~= d.subrange(1, d.len() as int));
        assert(t.last() == s.last());
        assert(escaped(s) =~= escape_char(s[0]) + escaped(t));
    }
}

/// Escaping then reading the escapes back gives the value again.
pub proof fn law_escape_round_trip(s: Seq<char>)
    ensures
        unescaped(escaped(s)) == s,
    decreases s.len(),
{
    if s.len() > 0 {
        lemma_escaped_front(s);
        let rest = s.subrange(1, s.len() as int);
        law_escape_round_trip(rest);
        let ec = escape_char(s[0]);
        let e = ec + escaped(rest);
        if ec.len() == 2 {
            assert(e.subrange(2, e.len() as int) =~= escaped(rest));
            assert(unescape_char(ec[1]) == s[0]);
        } else {
            assert(e.subrange(1, e.len() as int) =~= escaped(rest));
        }
        assert(unescaped(e) =~= seq![s[0]] + rest);
        assert(seq![s[0]] + rest =~= s);
    }
}

/// A key that the field grammar reads as one name.
pub open spec fn is_identifier(k: Seq<char>) -> bool {
    k.len() > 0 && forall|i: int| 0 <= i < k.len() ==> ascii_word(#[trigger] k[i])
}

proof fn lemma_skip_ws_to(s: Seq<char>, i: int, j: int)
    requires
        0 <= i <= j <= s.len(),
        forall|k: int| i <= k < j ==> is_ws(#[trigger] s[k]),
        j < s.len() ==> !is_ws(s[j]),
    ensures
        skip_ws(s, i) == j,
    decreases j - i,
{
    if i < j {
        lemma_skip_ws_to(s, i + 1, j);
    }
}

proof fn lemma_word_end_to(s: Seq<char>, i: int, j: int)
    requires
        0 <= i <= j <= s.len(),
        forall|k: int| i <= k < j ==> word_char(#[trigger] s[k]),
        j < s.len() ==> !word_char(s[j]),
    ensures
        word_end(s, i) == j,
    decreases j - i,
{
    if i < j {
        lemma_word_end_to(s, i + 1, j);
    }
}

/// The name of a line `    , key` followed by ` <sep> `.
proof fn lemma_field_head(key: Seq<char>, sep: char, rest: Seq<char>)
    requires
        is_identifier(key),
        sep == ':' || sep == '=',
    ensures
        field_head("    , "@ + key + seq![' ', sep] + rest, sep) == Some((key, key.len() + 8int)),
{
    reveal_strlit("    , ");
    let s = "    , "@ + key + seq![' ', sep] + rest;
    let kl = key.len() as int;
    assert(forall|m: int| 0 <= m < kl ==> s[6 + m] == key[m]);
    assert(s[6 + kl] == ' ');
    assert(s[7 + kl] == sep);
    assert forall|k: int| 0 <= k < 4 implies is_ws(#[trigger] s[k]) by {
        assert(s[k] == ' ');
    }
    lemma_skip_ws_to(s, 0, 4);
    assert(s[4] == ',');
    assert(s[5] == ' ');
    assert(ascii_word(key[0]));
    assert(s[6] == key[0]);
    assert forall|k: int| 5 <= k < 6 implies is_ws(#[trigger] s[k]) by {}
    lemma_skip_ws_to(s, 5, 6);
    assert(name_start(s) == 6);
    assert forall|k: int| 6 <= k < 6 + kl implies word_char(#[trigger] s[k]) by {
        assert(s[k] == key[k - 6]);
        assert(ascii_word(key[k - 6]));
    }
    lemma_word_end_to(s, 6, 6 + kl);
    assert forall|k: int| 6 + kl <= k < 7 + kl implies is_ws(#[trigger] s[k]) by {}
    lemma_skip_ws_to(s, 6 + kl, 7 + kl);
    assert(s.subrange(6, 6 + kl) =~= key);
}

proof fn lemma_type_line(key: Seq<char>)
    requires
        is_identifier(key),
    ensures
        type_field_of(type_field_line(key, None)) == Some((key, "String"@)),
{
    reveal_strlit(" : ");
    reveal_strlit("String");
    reveal_strlit("    , ");
    let kl = key.len() as int;
    let t = type_field_line(key, None);
    let st = "String"@;
    let trest = seq![' '] + st;
    assert(t =~= "    , "@ + key + seq![' ', ':'] + trest);
    lemma_field_head(key, ':', trest);
    assert(t.subrange(kl + 8, t.len() as int) =~= trest);
    assert forall|k: int| 0 <= k < 1 implies is_ws(#[trigger] trest[k]) by {}
    lemma_skip_ws_to(trest, 0, 1);
    assert(trim_start(trest) =~= st);
    assert(!is_ws(st[5]));
    assert(rskip_ws(st, 6) == 6);
    assert(st.subrange(0, 6) =~= st);
}

proof fn lemma_record_line(key: Seq<char>, value: Seq<char>)
    requires
        is_identifier(key),
    ensures
        record_field_of(record_field_line(key, value, false)) == Some((key, seq!['"'] + escaped(value) + seq!['"'])),
{
    reveal_strlit(" = \"");
    reveal_strlit("\"");
    reveal_strlit("    , ");
    let kl = key.len() as int;
    let r = record_field_line(key, value, false);
    let rrest = seq![' ', '"'] + escaped(value) + seq!['"'];
    assert(r =~= "    , "@ + key + seq![' ', '='] + rrest);
    lemma_field_head(key, '=', rrest);
    assert(r[kl + 8] == ' ');
    assert(r[kl + 9] == '"');
    assert forall|k: int| kl + 8 <= k < kl + 9 implies is_ws(#[trigger] r[k]) by {}
    lemma_skip_ws_to(r, kl + 8, kl + 9);
    assert(r.subrange(kl + 9, r.len() as int) =~= seq!['"'] + escaped(value) + seq!['"']);
}

/// The lines that an insertion of a plain value writes read back as what
/// was inserted: the declaration as `key` of type `String`, and the record
/// field as `key` whose value is the escaped text between double quotes.
pub proof fn law_inserted_lines_parse_back(key: Seq<char>, value: Seq<char>)
    requires
        is_identifier(key),
    ensures
        type_field_of(type_field_line(key, None)) == Some((key, "String"@)),
        record_field_of(record_field_line(key, value, false)) == Some((key, seq!['"'] + escaped(value) + seq!['"'])),
{
    lemma_type_line(key);
    lemma_record_line(key, value);
}

proof fn lemma_insert_index(ls: Seq<Seq<char>>, pos: int, x: Seq<char>, i: int)
    requires
        0 <= pos <= ls.len(),
        0 <= i < ls.len(),
    ensures
        ls.insert(pos, x)[shifted(i, pos)] == ls[i],
        ls.insert(pos, x)[pos] == x,
        ls.insert(pos, x).len() == ls.len() + 1,
        0 <= shifted(i, pos) < ls.len() + 1,
{
}

/// Adding a key that is already declared does not deduplicate: the result
/// holds two distinct lines that declare it.
pub proof fn law_duplicate_key_declared_twice(ls: Seq<Seq<char>>, t: TranslationView, p: ParseView, k: int)
    requires
        parse_spec(ls) == Ok::<ParseView, Seq<char>>(p),
        is_identifier(t.key),
        t.type_signature is None,
        0 <= k < ls.len(),
        type_field_of(ls[k]) matches Some(f) && f.0 == t.key,
    ensures
        exists|i: int, j: int|
            0 <= i < added_lines(ls, t, p).len() && 0 <= j < added_lines(ls, t, p).len() && i != j
                && (type_field_of(#[trigger] added_lines(ls, t, p)[i]) matches Some(f) && f.0 == t.key)
                && (type_field_of(#[trigger] added_lines(ls, t, p)[j]) matches Some(g) && g.0 == t.key),
{
    lemma_scan_bounds(ls, None, 0, None, 0);
    lemma_scan_bounds(ls, Some("translationsEn"@), 0, None, 0);
    lemma_scan_bounds(ls, Some("translationsFr"@), 0, None, 0);
    lemma_type_line(t.key);
    let x1 = type_field_line(t.key, t.type_signature);
    let a = last_field_line(ls, p.type_region.0, p.type_region.1) + 1;
    lemma_last_field_line(ls, p.type_region.0, p.type_region.1);
    let ls1 = ls.insert(a, x1);
    lemma_insert_index(ls, a, x1, k);
    let es = shifted(p.en_region.0, a);
    let ee = shifted(p.en_region.1, a);
    let b = last_field_line(ls1, es, ee) + 1;
    lemma_last_field_line(ls1, es, ee);
    let x2 = crate::generator::record_field_line(t.key, t.en, t.is_function);
    let ls2 = ls1.insert(b, x2);
    let k1 = shifted(k, a);
    lemma_insert_index(ls1, b, x2, k1);
    lemma_insert_index(ls1, b, x2, a);
    let fs = shifted(shifted(p.fr_region.0, a), b);
    let fe = shifted(shifted(p.fr_region.1, a), b);
    let c = last_field_line(ls2, fs, fe) + 1;
    lemma_last_field_line(ls2, fs, fe);
    let x3 = crate::generator::record_field_line(t.key, t.fr, t.is_function);
    let k2 = shifted(k1, b);
    let a2 = shifted(a, b);
    lemma_insert_index(ls2, c, x3, k2);
    lemma_insert_index(ls2, c, x3, a2);
    let out = ls2.insert(c, x3);
    assert(out == added_lines(ls, t, p));
    let i = shifted(a2, c);
    let j = shifted(k2, c);
    assert(out[i] == x1);
    assert(out[j] == ls[k]);
    assert(i != j);
}

proof fn lemma_kept_lines_keep(ls: Seq<Seq<char>>, key: Seq<char>)
    ensures
        forall|i: int| 0 <= i < kept_lines(ls, key).len() ==> keeps_type_line(#[trigger] kept_lines(ls, key)[i], key),
    decreases ls.len(),
{
    if ls.len() > 0 {
        let r = kept_lines(ls.drop_last(), key);
        lemma_kept_lines_keep(ls.drop_last(), key);
        if keeps_type_line(ls.last(), key) {
            assert forall|i: int| 0 <= i < r.push(ls.last()).len() implies keeps_type_line(#[trigger] r.push(ls.last())[i], key) by {
                if i < r.len() {
                    assert(r.push(ls.last())[i] == r[i]);
                }
            }
        }
    }
}

/// Removing a key from the type declaration drops the line that adding it
/// wrote, and no line that holds `key :` and starts with a comma or a
/// closing brace is left.
pub proof fn law_removal_drops_declaration(ls: Seq<Seq<char>>, key: Seq<char>)
    requires
        is_identifier(key),
    ensures
        !keeps_type_line(type_field_line(key, None), key),
        forall|i: int| 0 <= i < kept_lines(ls, key).len() ==> keeps_type_line(#[trigger] kept_lines(ls, key)[i], key),
{
    reveal_strlit(" : ");
    reveal_strlit(" :");
    reveal_strlit("String");
    reveal_strlit("    , ");
    lemma_kept_lines_keep(ls, key);
    let kl = key.len() as int;
    let x = type_field_line(key, None);
    assert(x.subrange(6, 6 + kl + 2) =~= key + " :"@);
    assert(occurs_at(x, key + " :"@, 6));
    assert(contains(x, key + " :"@));
    assert forall|k: int| 0 <= k < 4 implies is_ws(#[trigger] x[k]) by {
        assert(x[k] == ' ');
    }
    assert(x[4] == ',');
    lemma_skip_ws_to(x, 0, 4);
    let ts = trim_start(x);
    assert(ts[0] == ',');
    assert(ts.last() == 'g');
    assert(rskip_ws(ts, ts.len() as int) == ts.len());
    assert(trim(x).subrange(0, 1) =~= seq![',']);
    assert(starts_with(trim(x), seq![',']));
}

} // verus!
