//! The region mutator: inserts a field after the last field of a region, and
//! deletes the lines of a field.
use vstd::prelude::*;
use crate::parser::{continuation_indent, fits_counter, lookup, lookup_spec, parse_i18n_lines, parse_spec, ParseView};
use crate::text::{
    chars_of, contains, contains_exec, has_char, joined, join_lines, lines_of, push_all,
    split_lines, starts_with, starts_with_exec, string_of, trim, trim_of, trim_start,
    trim_start_of, views_of,
};
use crate::types::{opt_view, I18nError, Translation, TranslationView};

verus! {

/// A line that declares a field of either kind.
pub open spec fn is_field_line(l: Seq<char>) -> bool {
    contains(l, " = "@) || contains(l, " : "@)
}

/// The last field line among `start .. i`, else `start`.
pub open spec fn last_field_line(lines: Seq<Seq<char>>, start: int, i: int) -> int
    decreases i - start,
{
    if i <= start {
        start
    } else if is_field_line(lines[i - 1]) {
        i - 1
    } else {
        last_field_line(lines, start, i - 1)
    }
}

pub proof fn lemma_last_field_line(lines: Seq<Seq<char>>, start: int, i: int)
    ensures
        i <= start ==> last_field_line(lines, start, i) == start,
        i > start ==> start <= last_field_line(lines, start, i) < i,
    decreases i - start,
{
    if i > start && !is_field_line(lines[i - 1]) {
        lemma_last_field_line(lines, start, i - 1);
    }
}

/// Where a new field of the region `start ..= end` goes after: its last
/// field line, or its opening line when it has none.
pub fn find_last_field_line(lines: &Vec<Vec<char>>, start: usize, end: usize) -> (r: usize)
    requires
        start <= end <= lines.len(),
    ensures
        r as int == last_field_line(views_of(lines@), start as int, end as int),
        start <= r,
        start < end ==> r < end,
{
    let eq = chars_of(" = ");
    let colon = chars_of(" : ");
    let ghost ls = views_of(lines@);
    let mut i = end;
    while i > start
        invariant
            start <= i <= end <= lines.len(),
            ls == views_of(lines@),
            eq@ == " = "@,
            colon@ == " : "@,
            last_field_line(ls, start as int, i as int) == last_field_line(ls, start as int, end as int),
        decreases i,
    {
        assert(ls[i - 1] == lines@[i - 1]@);
        if contains_exec(&lines[i - 1], &eq) || contains_exec(&lines[i - 1], &colon) {
            proof {
                lemma_last_field_line(ls, start as int, end as int);
            }
            return i - 1;
        }
        i = i - 1;
    }
    proof {
        lemma_last_field_line(ls, start as int, end as int);
    }
    start
}

/// The line that declares `key` in the type declaration.
pub open spec fn type_field_line(key: Seq<char>, sig: Option<Seq<char>>) -> Seq<char> {
    "    , "@ + key + " : "@ + match sig {
        Some(s) => s,
        None => "String"@,
    }
}

/// Inserts the declaration of `key` after line `after`; the annotation is
/// `type_sig`, or `String` when there is none.
pub fn insert_type_field(lines: &mut Vec<Vec<char>>, after: usize, key: &Vec<char>, type_sig: &Option<String>)
    requires
        after < old(lines).len(),
    ensures
        views_of(final(lines)@) == views_of(old(lines)@).insert(after + 1, type_field_line(key@, opt_view(*type_sig))),
        final(lines).len() == old(lines).len() + 1,
{
    let mut line = chars_of("    , ");
    push_all(&mut line, key);
    push_all(&mut line, &chars_of(" : "));
    match type_sig {
        Some(s) => push_all(&mut line, &chars_of(s.as_str())),
        None => push_all(&mut line, &chars_of("String")),
    }
    let ghost l = line@;
    lines.insert(after + 1, line);
    assert(views_of(lines@) =~= views_of(old(lines)@).insert(after + 1, l));
}

/// How a character is written inside an Elm string literal.
pub open spec fn escape_char(c: char) -> Seq<char> {
    if c == '\\' {
        seq!['\\', '\\']
    } else if c == '"' {
        seq!['\\', '"']
    } else if c == '\n' {
        seq!['\\', 'n']
    } else if c == '\r' {
        seq!['\\', 'r']
    } else if c == '\t' {
        seq!['\\', 't']
    } else {
        seq![c]
    }
}

/// `s` with backslash, double quote, newline, carriage return and tab
/// escaped.
pub open spec fn escaped(s: Seq<char>) -> Seq<char>
    decreases s.len(),
{
    if s.len() == 0 {
        seq![]
    } else {
        escaped(s.drop_last()) + escape_char(s.last())
    }
}

fn escape_chars(s: &Vec<char>) -> (r: Vec<char>)
    ensures
        r@ == escaped(s@),
{
    let mut out: Vec<char> = Vec::new();
    let mut i: usize = 0;
    while i < s.len()
        invariant
            i <= s.len(),
            out@ == escaped(s@.subrange(0, i as int)),
        decreases s.len() - i,
    {
        let c = s[i];
        let ghost pre = out@;
        if c == '\\' {
            out.push('\\');
            out.push('\\');
        } else if c == '"' {
            out.push('\\');
            out.push('"');
        } else if c == '\n' {
            out.push('\\');
            out.push('n');
        } else if c == '\r' {
            out.push('\\');
            out.push('r');
        } else if c == '\t' {
            out.push('\\');
            out.push('t');
        } else {
            out.push(c);
        }
        assert(s@.subrange(0, i + 1).drop_last() =~= s@.subrange(0, i as int));
        assert(out@ =~= pre + escape_char(c));
        i = i + 1;
    }
    assert(s@.subrange(0, s.len() as int) =~= s@);
    out
}

/// Escapes a value for an Elm string literal.
pub fn escape_elm_string(s: &str) -> (r: String)
    ensures
        r@ == escaped(s@),
{
    string_of(&escape_chars(&chars_of(s)))
}

/// The lines of a function body, every line after the first indented as a
/// continuation.
pub open spec fn reindented(ls: Seq<Seq<char>>) -> Seq<Seq<char>> {
    Seq::new(ls.len(), |i: int| if i == 0 { ls[0] } else { continuation_indent() + ls[i] })
}

/// The text that declares `key` in a record literal.
pub open spec fn record_field_line(key: Seq<char>, value: Seq<char>, is_function: bool) -> Seq<char> {
    if is_function {
        "    , "@ + key + " = "@ + joined(reindented(lines_of(value)))
    } else {
        "    , "@ + key + " = \""@ + escaped(value) + "\""@
    }
}

fn reindent(value: &str) -> (r: String)
    ensures
        r@ == joined(reindented(lines_of(value@))),
{
    let ls = split_lines(value);
    let indent = vec![' ', ' ', ' ', ' ', ' ', ' ', ' ', ' '];
    assert(indent@ =~= continuation_indent());
    let mut out: Vec<Vec<char>> = Vec::new();
    let mut i: usize = 0;
    while i < ls.len()
        invariant
            i <= ls.len(),
            indent@ == continuation_indent(),
            views_of(out@) =~= reindented(views_of(ls@)).subrange(0, i as int),
        decreases ls.len() - i,
    {
        let mut l: Vec<char> = Vec::new();
        if i > 0 {
            push_all(&mut l, &indent);
        }
        push_all(&mut l, &ls[i]);
        let ghost pre = views_of(out@);
        out.push(l);
        assert(views_of(out@) =~= pre.push(l@));
        i = i + 1;
    }
    assert(reindented(views_of(ls@)).subrange(0, ls.len() as int) =~= reindented(views_of(ls@)));
    join_lines(&out)
}

/// Inserts the field `key` with `value` after line `after`: a function value
/// as given, its later lines indented; any other value as an escaped string.
pub fn insert_record_field(lines: &mut Vec<Vec<char>>, after: usize, key: &Vec<char>, value: &str, is_function: bool)
    requires
        after < old(lines).len(),
    ensures
        views_of(final(lines)@) == views_of(old(lines)@).insert(after + 1, record_field_line(key@, value@, is_function)),
        final(lines).len() == old(lines).len() + 1,
{
    let mut line = chars_of("    , ");
    push_all(&mut line, key);
    if is_function {
        push_all(&mut line, &chars_of(" = "));
        let body = reindent(value);
        push_all(&mut line, &chars_of(body.as_str()));
    } else {
        push_all(&mut line, &chars_of(" = \""));
        push_all(&mut line, &escape_chars(&chars_of(value)));
        push_all(&mut line, &chars_of("\""));
    }
    let ghost l = line@;
    lines.insert(after + 1, line);
    assert(views_of(lines@) =~= views_of(old(lines)@).insert(after + 1, l));
}

/// A line of the type declaration that `remove_type_field` keeps: it does
/// not hold `key :`, or it does but starts, once trimmed, with neither a
/// comma nor a closing brace.
pub open spec fn keeps_type_line(l: Seq<char>, key: Seq<char>) -> bool {
    !contains(l, key + " :"@) || (!starts_with(trim(l), seq![',']) && !starts_with(trim(l), seq!['}']))
}

/// The lines that `remove_type_field` keeps, in order.
pub open spec fn kept_lines(ls: Seq<Seq<char>>, key: Seq<char>) -> Seq<Seq<char>>
    decreases ls.len(),
{
    if ls.len() == 0 {
        seq![]
    } else {
        let r = kept_lines(ls.drop_last(), key);
        if keeps_type_line(ls.last(), key) {
            r.push(ls.last())
        } else {
            r
        }
    }
}

fn keeps_type_line_exec(l: &Vec<char>, key: &Vec<char>, pat: &Vec<char>) -> (r: bool)
    requires
        pat@ == key@ + " :"@,
    ensures
        r == keeps_type_line(l@, key@),
{
    if !contains_exec(l, pat) {
        return true;
    }
    let t = trim_of(l);
    let comma = vec![','];
    let brace = vec!['}'];
    assert(comma@ =~= seq![',']);
    assert(brace@ =~= seq!['}']);
    !starts_with_exec(&t, &comma) && !starts_with_exec(&t, &brace)
}

/// Removes every line that declares `key` in the sense of `keeps_type_line`.
pub fn remove_type_field(lines: &mut Vec<Vec<char>>, key: &Vec<char>)
    ensures
        views_of(final(lines)@) == kept_lines(views_of(old(lines)@), key@),
{
    let ghost ls = views_of(old(lines)@);
    let mut pat: Vec<char> = Vec::new();
    push_all(&mut pat, key);
    push_all(&mut pat, &chars_of(" :"));
    let mut i: usize = 0;
    let ghost mut c: int = 0;
    while i < lines.len()
        invariant
            0 <= c <= ls.len(),
            pat@ == key@ + " :"@,
            i <= lines.len(),
            views_of(lines@) == kept_lines(ls.subrange(0, c), key@) + ls.subrange(c, ls.len() as int),
            i == kept_lines(ls.subrange(0, c), key@).len(),
        decreases lines.len() - i,
    {
        let ghost pre = kept_lines(ls.subrange(0, c), key@);
        assert(views_of(lines@)[i as int] == lines@[i as int]@);
        assert(ls.subrange(0, c + 1).drop_last() =~= ls.subrange(0, c));
        assert(lines@[i as int]@ == ls[c]);
        if keeps_type_line_exec(&lines[i], key, &pat) {
            assert(views_of(lines@) =~= pre.push(ls[c]) + ls.subrange(c + 1, ls.len() as int));
            i = i + 1;
        } else {
            let ghost before = views_of(lines@);
            lines.remove(i);
            assert(views_of(lines@) =~= before.remove(i as int));
            assert(views_of(lines@) =~= pre + ls.subrange(c + 1, ls.len() as int));
        }
        proof {
            c = c + 1;
        }
    }
    assert(ls.subrange(c, ls.len() as int).len() == 0);
    assert(ls.subrange(0, c) =~= ls);
    assert(views_of(lines@) =~= kept_lines(ls, key@));
}

/// The first line from `i` on that holds `p`.
pub open spec fn first_line_with(ls: Seq<Seq<char>>, p: Seq<char>, i: int) -> Option<int>
    decreases ls.len() - i,
{
    if i < 0 || i >= ls.len() {
        None
    } else if contains(ls[i], p) {
        Some(i)
    } else {
        first_line_with(ls, p, i + 1)
    }
}

/// A record line whose value spans several lines.
pub open spec fn opens_block(l: Seq<char>) -> bool {
    l.contains('\\') || contains(l, "case"@)
}

/// A line that is not part of the value before it: it starts (once trimmed)
/// with a comma or a closing brace, or it holds ` = ` without the
/// continuation indentation.
pub open spec fn ends_block(l: Seq<char>) -> bool {
    starts_with(trim_start(l), seq![',']) || starts_with(trim_start(l), seq!['}']) || (contains(l, " = "@)
        && !starts_with(l, continuation_indent()))
}

/// The first line from `j` on that ends a block, or the number of lines.
pub open spec fn block_end(ls: Seq<Seq<char>>, j: int) -> int
    decreases ls.len() - j,
{
    if j < 0 || j >= ls.len() {
        ls.len() as int
    } else if ends_block(ls[j]) {
        j
    } else {
        block_end(ls, j + 1)
    }
}

/// The lines once the first field `key =` is removed, with its continuation
/// lines when its value spans several.
pub open spec fn record_removed(ls: Seq<Seq<char>>, key: Seq<char>) -> Seq<Seq<char>> {
    match first_line_with(ls, key + " ="@, 0) {
        None => ls,
        Some(i) => {
            let e = if opens_block(ls[i]) { block_end(ls, i + 1) } else { i + 1 };
            ls.subrange(0, i) + ls.subrange(e, ls.len() as int)
        },
    }
}

fn ends_block_exec(l: &Vec<char>, eq: &Vec<char>, indent: &Vec<char>) -> (r: bool)
    requires
        eq@ == " = "@,
        indent@ == continuation_indent(),
    ensures
        r == ends_block(l@),
{
    let t = trim_start_of(l);
    let comma = vec![','];
    let brace = vec!['}'];
    assert(comma@ =~= seq![',']);
    assert(brace@ =~= seq!['}']);
    starts_with_exec(&t, &comma) || starts_with_exec(&t, &brace) || (contains_exec(l, eq)
        && !starts_with_exec(l, indent))
}

/// Removes the first field `key =` of the file, with its continuation lines
/// when its value spans several.
pub fn remove_record_field(lines: &mut Vec<Vec<char>>, key: &Vec<char>)
    ensures
        views_of(final(lines)@) == record_removed(views_of(old(lines)@), key@),
{
    let ghost ls = views_of(old(lines)@);
    let mut pat: Vec<char> = Vec::new();
    push_all(&mut pat, key);
    push_all(&mut pat, &chars_of(" ="));
    let mut idx: usize = 0;
    let mut found = false;
    while idx < lines.len() && !found
        invariant
            idx <= lines.len(),
            ls == views_of(lines@),
            pat@ == key@ + " ="@,
            first_line_with(ls, pat@, idx as int) == first_line_with(ls, pat@, 0),
            found ==> idx < lines.len() && contains(ls[idx as int], pat@),
        decreases lines.len() - idx, if found { 0int } else { 1int },
    {
        assert(ls[idx as int] == lines@[idx as int]@);
        if contains_exec(&lines[idx], &pat) {
            found = true;
        } else {
            idx = idx + 1;
        }
    }
    if !found {
        return;
    }
    proof {
        assert(first_line_with(ls, pat@, idx as int) == Some(idx as int));
    }
    assert(ls[idx as int] == lines@[idx as int]@);
    let case_word = chars_of("case");
    let mut end = idx + 1;
    let block = has_char(&lines[idx], '\\') || contains_exec(&lines[idx], &case_word);
    assert(block == opens_block(ls[idx as int]));
    if block {
        let eq = chars_of(" = ");
        let indent = vec![' ', ' ', ' ', ' ', ' ', ' ', ' ', ' '];
        assert(indent@ =~= continuation_indent());
        let mut stop = false;
        while end < lines.len() && !stop
            invariant
                idx < end <= lines.len(),
                ls == views_of(lines@),
                eq@ == " = "@,
                indent@ == continuation_indent(),
                block_end(ls, end as int) == block_end(ls, idx + 1),
                stop ==> end < lines.len() && ends_block(ls[end as int]),
            decreases lines.len() - end, if stop { 0int } else { 1int },
        {
            assert(ls[end as int] == lines@[end as int]@);
            if ends_block_exec(&lines[end], &eq, &indent) {
                stop = true;
            } else {
                end = end + 1;
            }
        }
        proof {
            if end == lines.len() {
                assert(block_end(ls, end as int) == end);
            } else {
                assert(block_end(ls, end as int) == end);
            }
        }
    }
    assert(end == if opens_block(ls[idx as int]) { block_end(ls, idx + 1) } else { idx + 1 });
    let ghost e = end as int;
    let mut k = idx;
    while k < end
        invariant
            idx <= k <= end <= ls.len(),
            e == end,
            lines.len() == idx + ls.len() - k,
            views_of(lines@) == ls.subrange(0, idx as int) + ls.subrange(k as int, ls.len() as int),
        decreases end - k,
    {
        let ghost before = views_of(lines@);
        lines.remove(idx);
        assert(views_of(lines@) =~= before.remove(idx as int));
        assert(views_of(lines@) =~= ls.subrange(0, idx as int) + ls.subrange(k + 1, ls.len() as int));
        k = k + 1;
    }
    assert(views_of(lines@) == record_removed(ls, key@));
}

/// Bounds shifted for a line inserted at `pos`.
pub open spec fn shifted(b: int, pos: int) -> int {
    if b >= pos {
        b + 1
    } else {
        b
    }
}

/// The lines once `t` is added: its declaration after the last field of
/// the type declaration, then its values after the last field of each
/// record, each region's bounds following the lines inserted before it.
pub open spec fn added_lines(ls: Seq<Seq<char>>, t: TranslationView, p: ParseView) -> Seq<Seq<char>> {
    let a = last_field_line(ls, p.type_region.0, p.type_region.1) + 1;
    let ls1 = ls.insert(a, type_field_line(t.key, t.type_signature));
    let b = last_field_line(ls1, shifted(p.en_region.0, a), shifted(p.en_region.1, a)) + 1;
    let ls2 = ls1.insert(b, record_field_line(t.key, t.en, t.is_function));
    let c = last_field_line(ls2, shifted(shifted(p.fr_region.0, a), b), shifted(shifted(p.fr_region.1, a), b)) + 1;
    ls2.insert(c, record_field_line(t.key, t.fr, t.is_function))
}

/// The lines once `key` is removed from the type declaration and from the
/// first two records that declare it.
pub open spec fn removed_lines(ls: Seq<Seq<char>>, key: Seq<char>) -> Seq<Seq<char>> {
    record_removed(record_removed(kept_lines(ls, key), key), key)
}

fn shift(b: usize, pos: usize) -> (r: usize)
    requires
        b < usize::MAX,
    ensures
        r as int == shifted(b as int, pos as int),
        r == b || r == b + 1,
{
    if b >= pos { b + 1 } else { b }
}

/// Adds `t` to the lines of a translation file. It does not look for `t.key`
/// among the fields already there.
pub fn add_translation_lines(lines: &mut Vec<Vec<char>>, t: &Translation) -> (r: Result<(), I18nError>)
    requires
        fits_counter(old(lines).len() as int),
    ensures
        match parse_spec(views_of(old(lines)@)) {
            Ok(p) => r is Ok && views_of(final(lines)@) == added_lines(views_of(old(lines)@), t@, p),
            Err(label) => r matches Err(I18nError::RegionNotFound(l)) && l@ == label && final(lines)@ == old(lines)@,
        },
{
    let p = match parse_i18n_lines(lines) {
        Ok(p) => p,
        Err(e) => return Err(e),
    };
    let key = chars_of(t.key.as_str());
    let a = find_last_field_line(lines, p.type_start_line, p.type_end_line) + 1;
    insert_type_field(lines, a - 1, &key, &t.type_signature);
    let es = shift(p.en_start_line, a);
    let ee = shift(p.en_end_line, a);
    assert(es <= ee <= lines.len());
    let b = find_last_field_line(lines, es, ee) + 1;
    insert_record_field(lines, b - 1, &key, t.en.as_str(), t.is_function);
    let fs = shift(shift(p.fr_start_line, a), b);
    let fe = shift(shift(p.fr_end_line, a), b);
    assert(fs <= fe <= lines.len());
    let c = find_last_field_line(lines, fs, fe) + 1;
    insert_record_field(lines, c - 1, &key, t.fr.as_str(), t.is_function);
    Ok(())
}

/// Removes `key` from the lines of a translation file: its declaration and
/// its field in the first two records that declare it.
pub fn remove_translation_lines(lines: &mut Vec<Vec<char>>, key: &str) -> (r: Result<(), I18nError>)
    requires
        fits_counter(old(lines).len() as int),
    ensures
        match parse_spec(views_of(old(lines)@)) {
            Ok(p) => if lookup_spec(p.translations, key@) is Some {
                r is Ok && views_of(final(lines)@) == removed_lines(views_of(old(lines)@), key@)
            } else {
                r matches Err(I18nError::KeyNotFound(k)) && k@ == key@ && final(lines)@ == old(lines)@
            },
            Err(label) => r matches Err(I18nError::RegionNotFound(l)) && l@ == label && final(lines)@ == old(lines)@,
        },
{
    let p = match parse_i18n_lines(lines) {
        Ok(p) => p,
        Err(e) => return Err(e),
    };
    if lookup(&p.translations, key).is_none() {
        return Err(I18nError::KeyNotFound(string_of(&chars_of(key))));
    }
    let k = chars_of(key);
    remove_type_field(lines, &k);
    remove_record_field(lines, &k);
    remove_record_field(lines, &k);
    Ok(())
}

/// Adds `t` to the text of a translation file and gives the new text, its
/// lines joined with `\n`.
pub fn add_translation(content: &str, t: &Translation) -> (r: Result<String, I18nError>)
    requires
        fits_counter(content@.len() as int),
    ensures
        match parse_spec(lines_of(content@)) {
            Ok(p) => r matches Ok(s) && s@ == joined(added_lines(lines_of(content@), t@, p)),
            Err(label) => r matches Err(I18nError::RegionNotFound(l)) && l@ == label,
        },
{
    let mut lines = split_lines(content);
    match add_translation_lines(&mut lines, t) {
        Ok(()) => Ok(join_lines(&lines)),
        Err(e) => Err(e),
    }
}

/// Removes `key` from the text of a translation file and gives the new
/// text, its lines joined with `\n`.
pub fn remove_translation(content: &str, key: &str) -> (r: Result<String, I18nError>)
    requires
        fits_counter(content@.len() as int),
    ensures
        match parse_spec(lines_of(content@)) {
            Ok(p) => if lookup_spec(p.translations, key@) is Some {
                r matches Ok(s) && s@ == joined(removed_lines(lines_of(content@), key@))
            } else {
                r matches Err(I18nError::KeyNotFound(k)) && k@ == key@
            },
            Err(label) => r matches Err(I18nError::RegionNotFound(l)) && l@ == label,
        },
{
    let mut lines = split_lines(content);
    match remove_translation_lines(&mut lines, key) {
        Ok(()) => Ok(join_lines(&lines)),
        Err(e) => Err(e),
    }
}

} // verus!
