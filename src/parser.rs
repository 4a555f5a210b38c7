//! The region locator: finds the type declaration and the record literals by
//! counting braces line by line, and reads their fields.
use vstd::prelude::*;
use crate::text::{
    chars_of, contains, occurs_at_exec, contains_exec, count, count_char, has_char, is_word_character,
    lemma_count_le, lemma_skip_ws, push_all, skip_ws, skip_ws_from, slice_of, starts_with,
    lines_of, split_lines, starts_with_exec, string_of, trim, trim_of, trim_start, trim_start_of, views_of,
    word_char,
};
use crate::types::{I18nError, ParseResult, RecordField, Translation, TranslationView, TypeField};
use vstd::math::min;

verus! {

/// The brace counter is proved free of overflow for fewer than 2^63 lines,
/// more than any file that fits in memory.
pub open spec fn fits_counter(n: int) -> bool {
    n < 0x8000_0000_0000_0000
}

/// A line opens the region: the type declaration (`name` is `None`) or the
/// record called `name`.
pub open spec fn opens_region(line: Seq<char>, name: Option<Seq<char>>) -> bool {
    match name {
        None => contains(line, "type alias Translations"@),
        Some(n) => starts_with(line, n) && contains(line, "Translations"@),
    }
}

/// A line closes the region, `depth` being the count after that line.
pub open spec fn closes_region(line: Seq<char>, depth: int, name: Option<Seq<char>>) -> bool {
    depth == 0 && match name {
        None => line.contains('}'),
        Some(_) => starts_with(trim(line), seq!['}']),
    }
}

pub open spec fn brace_delta(line: Seq<char>) -> int {
    count(line, '{') - count(line, '}')
}

/// The scan from line `i` on, having seen the region open at `start` (if
/// any) with the brace count at `depth`.
pub open spec fn scan_region(
    lines: Seq<Seq<char>>,
    name: Option<Seq<char>>,
    i: int,
    start: Option<int>,
    depth: int,
) -> Option<(int, int)>
    decreases lines.len() - i,
{
    if i < 0 || i >= lines.len() {
        None
    } else if opens_region(lines[i], name) {
        scan_region(lines, name, i + 1, Some(i), depth)
    } else if start is Some {
        let d = depth + brace_delta(lines[i]);
        if closes_region(lines[i], d, name) {
            Some((start->Some_0, i))
        } else {
            scan_region(lines, name, i + 1, start, d)
        }
    } else {
        scan_region(lines, name, i + 1, start, depth)
    }
}

/// Bounds of the region, or `None` when the lines do not hold it.
pub open spec fn region(lines: Seq<Seq<char>>, name: Option<Seq<char>>) -> Option<(int, int)> {
    scan_region(lines, name, 0, None, 0)
}

pub open spec fn type_region(lines: Seq<Seq<char>>) -> Option<(int, int)> {
    region(lines, None)
}

pub open spec fn record_region(lines: Seq<Seq<char>>, name: Seq<char>) -> Option<(int, int)> {
    region(lines, Some(name))
}

pub proof fn lemma_scan_bounds(
    lines: Seq<Seq<char>>,
    name: Option<Seq<char>>,
    i: int,
    start: Option<int>,
    depth: int,
)
    requires
        0 <= i,
        start is Some ==> 0 <= start->Some_0 < i,
    ensures
        scan_region(lines, name, i, start, depth) matches Some((s, e)) ==> 0 <= s < e < lines.len(),
    decreases lines.len() - i,
{
    if 0 <= i < lines.len() {
        if opens_region(lines[i], name) {
            lemma_scan_bounds(lines, name, i + 1, Some(i), depth);
        } else if start is Some {
            let d = depth + brace_delta(lines[i]);
            if !closes_region(lines[i], d, name) {
                lemma_scan_bounds(lines, name, i + 1, start, d);
            }
        } else {
            lemma_scan_bounds(lines, name, i + 1, start, depth);
        }
    }
}

fn opens_region_exec(line: &Vec<char>, name: Option<&Vec<char>>, marker: &Vec<char>) -> (r: bool)
    requires
        marker@ == (if name is None { "type alias Translations"@ } else { "Translations"@ }),
    ensures
        r == opens_region(line@, opt_seq(name)),
{
    match name {
        None => contains_exec(line, marker),
        Some(n) => starts_with_exec(line, n) && contains_exec(line, marker),
    }
}

pub open spec fn opt_seq(name: Option<&Vec<char>>) -> Option<Seq<char>> {
    match name {
        Some(n) => Some(n@),
        None => None,
    }
}

fn closes_region_exec(line: &Vec<char>, depth: i128, name: Option<&Vec<char>>) -> (r: bool)
    ensures
        r == closes_region(line@, depth as int, opt_seq(name)),
{
    if depth != 0 {
        return false;
    }
    match name {
        None => has_char(line, '}'),
        Some(_) => {
            let t = trim_of(line);
            let close = vec!['}'];
            assert(close@ =~= seq!['}']);
            starts_with_exec(&t, &close)
        },
    }
}

/// The shared scan behind both region finders.
fn find_region(lines: &Vec<Vec<char>>, name: Option<&Vec<char>>) -> (r: Option<(usize, usize)>)
    requires
        fits_counter(lines.len() as int),
    ensures
        r matches Some((s, e)) ==> region(lines@.map_values(|l: Vec<char>| l@), opt_seq(name)) == Some((s as int, e as int)),
        r is None ==> region(lines@.map_values(|l: Vec<char>| l@), opt_seq(name)) is None,
{
    let ghost ls = lines@.map_values(|l: Vec<char>| l@);
    let ghost nm = opt_seq(name);
    let marker = match name {
        None => chars_of("type alias Translations"),
        Some(_) => chars_of("Translations"),
    };
    let mut start: Option<usize> = None;
    let mut depth: i128 = 0;
    let mut i: usize = 0;
    while i < lines.len()
        invariant
            i <= lines.len(),
            fits_counter(lines.len() as int),
            ls == lines@.map_values(|l: Vec<char>| l@),
            nm == opt_seq(name),
            marker@ == (if name is None { "type alias Translations"@ } else { "Translations"@ }),
            -(i as int) * 0x1_0000_0000_0000_0000 <= depth <= (i as int) * 0x1_0000_0000_0000_0000,
            start matches Some(s) ==> s < i,
            scan_region(ls, nm, i as int, match start { Some(s) => Some(s as int), None => None }, depth as int)
                == region(ls, nm),
        decreases lines.len() - i,
    {
        let line = &lines[i];
        assert(ls[i as int] == line@);
        if opens_region_exec(line, name, &marker) {
            start = Some(i);
        } else if start.is_some() {
            let opens = count_char(line, '{');
            let closes = count_char(line, '}');
            proof {
                lemma_count_le(line@, '{');
                lemma_count_le(line@, '}');
                assert(-((i + 1) as int) * 0x1_0000_0000_0000_0000 <= depth + opens - closes
                    <= ((i + 1) as int) * 0x1_0000_0000_0000_0000) by (nonlinear_arith)
                    requires
                        -(i as int) * 0x1_0000_0000_0000_0000 <= depth <= (i as int) * 0x1_0000_0000_0000_0000,
                        0 <= opens < 0x1_0000_0000_0000_0000,
                        0 <= closes < 0x1_0000_0000_0000_0000,
                ;
                assert(((i + 1) as int) * 0x1_0000_0000_0000_0000 <= 0x7fff_ffff_ffff_ffff_ffff_ffff_ffff_ffff) by (nonlinear_arith)
                    requires i + 1 < 0x8000_0000_0000_0000;
            }
            depth = depth + opens as i128 - closes as i128;
            if closes_region_exec(line, depth, name) {
                let s = start.unwrap();
                return Some((s, i));
            }
        }
        proof {
            assert(-(i as int) * 0x1_0000_0000_0000_0000 <= ((i + 1) as int) * 0x1_0000_0000_0000_0000) by (nonlinear_arith);
        }
        i = i + 1;
    }
    None
}

/// Bounds of the type declaration.
pub fn find_type_definition(lines: &Vec<Vec<char>>) -> (r: Option<(usize, usize)>)
    requires
        fits_counter(lines.len() as int),
    ensures
        r matches Some((s, e)) ==> type_region(lines@.map_values(|l: Vec<char>| l@)) == Some((s as int, e as int)),
        r is None ==> type_region(lines@.map_values(|l: Vec<char>| l@)) is None,
{
    find_region(lines, None)
}

/// Bounds of the record literal called `name`.
pub fn find_translation_record(lines: &Vec<Vec<char>>, name: &Vec<char>) -> (r: Option<(usize, usize)>)
    requires
        fits_counter(lines.len() as int),
    ensures
        r matches Some((s, e)) ==> record_region(lines@.map_values(|l: Vec<char>| l@), name@) == Some((s as int, e as int)),
        r is None ==> record_region(lines@.map_values(|l: Vec<char>| l@), name@) is None,
{
    find_region(lines, Some(name))
}

/// Where the field name starts: after leading whitespace, one optional
/// separator (the comma between fields, or the brace before the first), and
/// more whitespace.
pub open spec fn name_start(s: Seq<char>) -> int {
    let a = skip_ws(s, 0);
    if a < s.len() && (s[a] == ',' || s[a] == '{') {
        skip_ws(s, a + 1)
    } else {
        a
    }
}

/// End of the run of word characters that starts at `i`.
pub open spec fn word_end(s: Seq<char>, i: int) -> int
    decreases s.len() - i,
{
    if 0 <= i < s.len() && word_char(s[i]) {
        word_end(s, i + 1)
    } else {
        i
    }
}

/// A field line: its name, then `sep` after optional whitespace. Gives the
/// name and the index just past `sep`.
pub open spec fn field_head(s: Seq<char>, sep: char) -> Option<(Seq<char>, int)> {
    let a = name_start(s);
    let b = word_end(s, a);
    let c = skip_ws(s, b);
    if a < b && c < s.len() && s[c] == sep {
        Some((s.subrange(a, b), c + 1))
    } else {
        None
    }
}

/// A field of the type declaration: name, `:`, and a non-empty rest, which
/// trimmed is the annotation.
pub open spec fn type_field_of(s: Seq<char>) -> Option<(Seq<char>, Seq<char>)> {
    match field_head(s, ':') {
        Some((n, k)) => if k < s.len() {
            Some((n, trim(s.subrange(k, s.len() as int))))
        } else {
            None
        },
        None => None,
    }
}

/// A field of a record literal: name, `=`, and the rest from its first
/// non-blank character.
pub open spec fn record_field_of(s: Seq<char>) -> Option<(Seq<char>, Seq<char>)> {
    match field_head(s, '=') {
        Some((n, k)) => Some((n, s.subrange(skip_ws(s, k), s.len() as int))),
        None => None,
    }
}

fn word_end_from(s: &Vec<char>, i: usize) -> (r: usize)
    requires
        i <= s.len(),
    ensures
        r as int == word_end(s@, i as int),
        i <= r <= s.len(),
{
    let mut j = i;
    while j < s.len() && is_word_character(s[j])
        invariant
            i <= j <= s.len(),
            word_end(s@, j as int) == word_end(s@, i as int),
        decreases s.len() - j,
    {
        j = j + 1;
    }
    j
}

fn field_head_exec(s: &Vec<char>, sep: char) -> (r: Option<(Vec<char>, usize)>)
    ensures
        match r {
            Some((n, k)) => field_head(s@, sep) == Some((n@, k as int)) && k <= s.len(),
            None => field_head(s@, sep) is None,
        },
{
    proof {
        lemma_skip_ws(s@, 0);
    }
    let a0 = skip_ws_from(s, 0);
    let a = if a0 < s.len() && (s[a0] == ',' || s[a0] == '{') {
        proof {
            lemma_skip_ws(s@, a0 + 1);
        }
        skip_ws_from(s, a0 + 1)
    } else {
        a0
    };
    let b = word_end_from(s, a);
    proof {
        lemma_skip_ws(s@, b as int);
    }
    let c = skip_ws_from(s, b);
    if a < b && c < s.len() && s[c] == sep {
        Some((slice_of(s, a, b), c + 1))
    } else {
        None
    }
}

/// The type fields of lines `lo .. hi`, in order.
pub open spec fn type_fields_between(lines: Seq<Seq<char>>, lo: int, hi: int) -> Seq<(Seq<char>, Seq<char>)>
    decreases hi - lo,
{
    if lo >= hi {
        seq![]
    } else {
        let rest = type_fields_between(lines, lo, hi - 1);
        match type_field_of(lines[hi - 1]) {
            Some(f) => rest.push(f),
            None => rest,
        }
    }
}

pub open spec fn type_field_views(fs: Seq<TypeField>) -> Seq<(Seq<char>, Seq<char>)> {
    fs.map_values(|f: TypeField| (f.name@, f.type_annotation@))
}

pub open spec fn record_field_views(fs: Seq<RecordField>) -> Seq<(Seq<char>, Seq<char>)> {
    fs.map_values(|f: RecordField| (f.name@, f.value@))
}


/// The fields of the type declaration strictly between `start` and `end`.
pub fn parse_type_fields(lines: &Vec<Vec<char>>, start: usize, end: usize) -> (r: Vec<TypeField>)
    requires
        start < end <= lines.len(),
    ensures
        type_field_views(r@) == type_fields_between(views_of(lines@), start + 1, end as int),
{
    let ghost ls = views_of(lines@);
    let mut fields: Vec<TypeField> = Vec::new();
    let mut i = start + 1;
    while i < end
        invariant
            start < i <= end <= lines.len(),
            ls == views_of(lines@),
            type_field_views(fields@) == type_fields_between(ls, start + 1, i as int),
        decreases end - i,
    {
        let line = &lines[i];
        assert(ls[i as int] == line@);
        match field_head_exec(line, ':') {
            Some((name, k)) => {
                if k < line.len() {
                    let rest = slice_of(line, k, line.len());
                    let annotation = trim_of(&rest);
                    let f = TypeField { name: string_of(&name), type_annotation: string_of(&annotation) };
                    fields.push(f);
                    assert(type_field_views(fields@) =~= type_fields_between(ls, start + 1, i as int).push((name@, annotation@)));
                }
            },
            None => {},
        }
        i = i + 1;
    }
    fields
}

/// The indentation of a continuation line of a multi-line value.
pub open spec fn continuation_indent() -> Seq<char> {
    seq![' ', ' ', ' ', ' ', ' ', ' ', ' ', ' ']
}

/// Line `k` exists and is indented as a continuation.
pub open spec fn indented(lines: Seq<Seq<char>>, k: int) -> bool {
    0 <= k < lines.len() && starts_with(lines[k], continuation_indent())
}

/// From line `j` on (before `end`), how many lines pass before the first
/// whose successor is not indented; `None` when none such comes before `end`.
pub open spec fn block_span(lines: Seq<Seq<char>>, end: int, j: int) -> Option<nat>
    decreases end - j,
{
    if j < 0 || j >= end {
        None
    } else if !indented(lines, j + 1) {
        Some(0)
    } else {
        match block_span(lines, end, j + 1) {
            Some(k) => Some(k + 1),
            None => None,
        }
    }
}

/// A continuation line as it is added to a multi-line value.
pub open spec fn continuation(line: Seq<char>) -> Seq<char> {
    seq!['\n'] + continuation_indent() + trim_start(line)
}

/// The continuations of lines `lo .. hi`.
pub open spec fn block_text(lines: Seq<Seq<char>>, lo: int, hi: int) -> Seq<char>
    decreases hi - lo,
{
    if lo >= hi {
        seq![]
    } else {
        block_text(lines, lo, hi - 1) + continuation(lines[hi - 1])
    }
}

/// A value that starts a lambda or holds a `case` spans several lines.
pub open spec fn starts_block(v: Seq<char>) -> bool {
    starts_with(v, seq!['\\']) || contains(v, "case"@)
}

/// The record fields from line `i` up to (not including) `end`.
pub open spec fn record_fields_from(lines: Seq<Seq<char>>, end: int, i: int) -> Seq<(Seq<char>, Seq<char>)>
    decreases end - i,
{
    if i < 0 || i >= end || i >= lines.len() {
        seq![]
    } else {
        match record_field_of(lines[i]) {
            None => record_fields_from(lines, end, i + 1),
            Some((n, v)) => if starts_block(v) {
                match block_span(lines, end, i + 1) {
                    Some(k) => seq![(n, trim(v + block_text(lines, i + 1, i + 2 + k)))]
                        + record_fields_from(lines, end, min(i + 2 + k, end)),
                    None => seq![(n, trim(v + block_text(lines, i + 1, end)))]
                        + record_fields_from(lines, end, i + 1),
                }
            } else {
                seq![(n, trim(v))] + record_fields_from(lines, end, i + 1)
            },
        }
    }
}

fn indented_exec(lines: &Vec<Vec<char>>, k: usize, indent: &Vec<char>) -> (r: bool)
    requires
        indent@ == continuation_indent(),
    ensures
        r == indented(views_of(lines@), k as int),
{
    if k < lines.len() {
        assert(views_of(lines@)[k as int] == lines@[k as int]@);
        starts_with_exec(&lines[k], indent)
    } else {
        false
    }
}

/// The fields of a record literal strictly between `start` and `end`; a
/// value that starts a block takes the indented lines after it.
pub fn parse_record_fields(lines: &Vec<Vec<char>>, start: usize, end: usize) -> (r: Vec<RecordField>)
    requires
        start < end <= lines.len(),
    ensures
        record_field_views(r@) == record_fields_from(views_of(lines@), end as int, start + 1),
{
    let ghost ls = views_of(lines@);
    let indent = vec![' ', ' ', ' ', ' ', ' ', ' ', ' ', ' '];
    assert(indent@ =~= continuation_indent());
    let case_word = chars_of("case");
    let mut fields: Vec<RecordField> = Vec::new();
    let mut i = start + 1;
    while i < end
        invariant
            start < i <= end <= lines.len(),
            ls == views_of(lines@),
            indent@ == continuation_indent(),
            case_word@ == "case"@,
            record_field_views(fields@) + record_fields_from(ls, end as int, i as int)
                == record_fields_from(ls, end as int, start + 1),
        decreases end - i,
    {
        let line = &lines[i];
        assert(ls[i as int] == line@);
        match field_head_exec(line, '=') {
            Some((name, k)) => {
                proof {
                    lemma_skip_ws(line@, k as int);
                }
                let vs = skip_ws_from(line, k);
                let mut value = slice_of(line, vs, line.len());
                let ghost v0 = value@;
                let backslash = vec!['\\'];
                assert(backslash@ =~= seq!['\\']);
                let mut next = i + 1;
                assert(record_field_of(ls[i as int]) == Some((name@, v0)));
                let block = starts_with_exec(&value, &backslash) || contains_exec(&value, &case_word);
                assert(block == starts_block(v0));
                if block {
                    let mut j = i + 1;
                    let mut stopped = false;
                    while j < end && !stopped
                        invariant
                            i < j <= end <= lines.len(),
                            ls == views_of(lines@),
                            indent@ == continuation_indent(),
                            value@ == v0 + block_text(ls, i + 1, j as int),
                            stopped ==> next == j && j >= i + 2 && block_span(ls, end as int, i + 1) == Some((j - i - 2) as nat),
                            !stopped ==> next == i + 1 && block_span(ls, end as int, i + 1) == match block_span(ls, end as int, j as int) {
                                Some(m) => Some((m + (j - i - 1)) as nat),
                                None => None,
                            },
                        decreases end - j,
                    {
                        let cont = trim_start_of(&lines[j]);
                        assert(ls[j as int] == lines@[j as int]@);
                        value.push('\n');
                        push_all(&mut value, &indent);
                        push_all(&mut value, &cont);
                        assert(value@ =~= v0 + block_text(ls, i + 1, j + 1));
                        if !indented_exec(lines, j + 1, &indent) {
                            next = j + 1;
                            stopped = true;
                        }
                        j = j + 1;
                    }
                    proof {
                        if !stopped {
                            assert(j == end);
                            assert(block_span(ls, end as int, j as int) is None);
                        } else {
                            assert(min(i + 2 + (j - i - 2), end as int) == next);
                        }
                    }
                }
                let v = trim_of(&value);
                let f = RecordField { name: string_of(&name), value: string_of(&v) };
                let ghost before = record_field_views(fields@);
                fields.push(f);
                assert(record_field_views(fields@) =~= before.push((name@, v@)));
                assert(record_fields_from(ls, end as int, i as int)
                    == seq![(name@, v@)] + record_fields_from(ls, end as int, next as int));
                assert(record_field_views(fields@) + record_fields_from(ls, end as int, next as int)
                    =~= before + record_fields_from(ls, end as int, i as int));
                i = next;
            },
            None => {
                i = i + 1;
            },
        }
    }
    fields
}

/// The value of the first field called `name` from index `k` on; empty
/// when there is none.
pub open spec fn value_from(fs: Seq<(Seq<char>, Seq<char>)>, name: Seq<char>, k: int) -> Seq<char>
    decreases fs.len() - k,
{
    if k < 0 || k >= fs.len() {
        seq![]
    } else if fs[k].0 == name {
        fs[k].1
    } else {
        value_from(fs, name, k + 1)
    }
}

/// The translation that a field of the type declaration stands for.
pub open spec fn translation_of(
    tf: (Seq<char>, Seq<char>),
    en: Seq<(Seq<char>, Seq<char>)>,
    fr: Seq<(Seq<char>, Seq<char>)>,
) -> TranslationView {
    let f = contains(tf.1, "->"@);
    TranslationView {
        key: tf.0,
        en: value_from(en, tf.0, 0),
        fr: value_from(fr, tf.0, 0),
        is_function: f,
        type_signature: if f { Some(tf.1) } else { None },
    }
}

pub open spec fn translations_of(
    tfs: Seq<(Seq<char>, Seq<char>)>,
    en: Seq<(Seq<char>, Seq<char>)>,
    fr: Seq<(Seq<char>, Seq<char>)>,
) -> Seq<TranslationView> {
    tfs.map_values(|tf: (Seq<char>, Seq<char>)| translation_of(tf, en, fr))
}

/// What a parse yields: the three regions and the translations.
pub struct ParseView {
    pub type_region: (int, int),
    pub en_region: (int, int),
    pub fr_region: (int, int),
    pub translations: Seq<TranslationView>,
}

pub open spec fn translation_views(ts: Seq<Translation>) -> Seq<TranslationView> {
    ts.map_values(|t: Translation| t@)
}

pub open spec fn parse_view(p: ParseResult) -> ParseView {
    ParseView {
        type_region: (p.type_start_line as int, p.type_end_line as int),
        en_region: (p.en_start_line as int, p.en_end_line as int),
        fr_region: (p.fr_start_line as int, p.fr_end_line as int),
        translations: translation_views(p.translations@),
    }
}

/// The parse of a file: `Err` carries the label of the first region
/// (type declaration, English record, French record) that is missing.
pub open spec fn parse_spec(lines: Seq<Seq<char>>) -> Result<ParseView, Seq<char>> {
    match type_region(lines) {
        None => Err("Translations"@),
        Some(t) => match record_region(lines, "translationsEn"@) {
            None => Err("translationsEn"@),
            Some(e) => match record_region(lines, "translationsFr"@) {
                None => Err("translationsFr"@),
                Some(f) => Ok(ParseView {
                    type_region: t,
                    en_region: e,
                    fr_region: f,
                    translations: translations_of(
                        type_fields_between(lines, t.0 + 1, t.1),
                        record_fields_from(lines, e.1, e.0 + 1),
                        record_fields_from(lines, f.1, f.0 + 1),
                    ),
                }),
            },
        },
    }
}

/// The result of a parse agrees with `parse_spec`.
pub open spec fn parse_agrees(r: Result<ParseResult, I18nError>, lines: Seq<Seq<char>>) -> bool {
    match parse_spec(lines) {
        Ok(v) => r matches Ok(p) && parse_view(p) == v,
        Err(label) => r matches Err(I18nError::RegionNotFound(l)) && l@ == label,
    }
}

fn find_value(fs: &Vec<RecordField>, name: &String) -> (r: String)
    ensures
        r@ == value_from(record_field_views(fs@), name@, 0),
{
    let ghost vs = record_field_views(fs@);
    let mut k: usize = 0;
    while k < fs.len()
        invariant
            k <= fs.len(),
            vs == record_field_views(fs@),
            value_from(vs, name@, k as int) == value_from(vs, name@, 0),
        decreases fs.len() - k,
    {
        if fs[k].name == *name {
            return fs[k].value.clone();
        }
        k = k + 1;
    }
    String::new()
}

/// Joins the fields of the three regions into translations, one per field
/// of the type declaration.
fn build_translations(tfs: &Vec<TypeField>, en: &Vec<RecordField>, fr: &Vec<RecordField>) -> (r: Vec<Translation>)
    ensures
        translation_views(r@) == translations_of(type_field_views(tfs@), record_field_views(en@), record_field_views(fr@)),
{
    let arrow = chars_of("->");
    let mut out: Vec<Translation> = Vec::new();
    let mut k: usize = 0;
    while k < tfs.len()
        invariant
            k <= tfs.len(),
            arrow@ == "->"@,
            translation_views(out@) =~= translations_of(type_field_views(tfs@), record_field_views(en@), record_field_views(fr@)).subrange(0, k as int),
        decreases tfs.len() - k,
    {
        let tf = &tfs[k];
        let ann = chars_of(tf.type_annotation.as_str());
        let is_function = contains_exec(&ann, &arrow);
        let t = Translation {
            key: tf.name.clone(),
            en: find_value(en, &tf.name),
            fr: find_value(fr, &tf.name),
            is_function,
            type_signature: if is_function { Some(tf.type_annotation.clone()) } else { None },
        };
        let ghost full = translations_of(type_field_views(tfs@), record_field_views(en@), record_field_views(fr@));
        assert(type_field_views(tfs@)[k as int] == (tf.name@, tf.type_annotation@));
        assert(t@.type_signature == full[k as int].type_signature);
        assert(t@ == full[k as int]);
        let ghost before = translation_views(out@);
        out.push(t);
        assert(translation_views(out@) =~= before.push(t@));
        assert(full.subrange(0, k + 1) =~= full.subrange(0, k as int).push(full[k as int]));
        k = k + 1;
    }
    out
}

/// Locates the three regions of the lines and reads their translations.
pub fn parse_i18n_lines(lines: &Vec<Vec<char>>) -> (r: Result<ParseResult, I18nError>)
    requires
        fits_counter(lines.len() as int),
    ensures
        parse_agrees(r, views_of(lines@)),
        r matches Ok(p) ==> p.type_start_line < p.type_end_line < lines.len() && p.en_start_line
            < p.en_end_line < lines.len() && p.fr_start_line < p.fr_end_line < lines.len(),
{
    let ghost ls = views_of(lines@);
    let t = match find_type_definition(lines) {
        Some(b) => b,
        None => return Err(I18nError::RegionNotFound(string_of(&chars_of("Translations")))),
    };
    let en_name = chars_of("translationsEn");
    let e = match find_translation_record(lines, &en_name) {
        Some(b) => b,
        None => return Err(I18nError::RegionNotFound(string_of(&en_name))),
    };
    let fr_name = chars_of("translationsFr");
    let f = match find_translation_record(lines, &fr_name) {
        Some(b) => b,
        None => return Err(I18nError::RegionNotFound(string_of(&fr_name))),
    };
    proof {
        lemma_scan_bounds(ls, None, 0, None, 0);
        lemma_scan_bounds(ls, Some(en_name@), 0, None, 0);
        lemma_scan_bounds(ls, Some(fr_name@), 0, None, 0);
    }
    let tfs = parse_type_fields(lines, t.0, t.1);
    let efs = parse_record_fields(lines, e.0, e.1);
    let ffs = parse_record_fields(lines, f.0, f.1);
    let translations = build_translations(&tfs, &efs, &ffs);
    Ok(ParseResult {
        type_start_line: t.0,
        type_end_line: t.1,
        en_start_line: e.0,
        en_end_line: e.1,
        fr_start_line: f.0,
        fr_end_line: f.1,
        translations,
    })
}

/// Parses the text of a translation file.
pub fn parse_i18n_file(content: &str) -> (r: Result<ParseResult, I18nError>)
    requires
        fits_counter(content@.len() as int),
    ensures
        parse_agrees(r, lines_of(content@)),
{
    let lines = split_lines(content);
    parse_i18n_lines(&lines)
}

/// The translation with `key` that a map built from `ts` in order holds:
/// the last one, as a later entry replaces an earlier one.
pub open spec fn lookup_spec(ts: Seq<TranslationView>, key: Seq<char>) -> Option<TranslationView>
    decreases ts.len(),
{
    if ts.len() == 0 {
        None
    } else if ts.last().key == key {
        Some(ts.last())
    } else {
        lookup_spec(ts.drop_last(), key)
    }
}

pub open spec fn opt_translation_view(o: Option<Translation>) -> Option<TranslationView> {
    match o {
        Some(t) => Some(t@),
        None => None,
    }
}

fn copy_translation(t: &Translation) -> (r: Translation)
    ensures
        r@ == t@,
{
    Translation {
        key: t.key.clone(),
        en: t.en.clone(),
        fr: t.fr.clone(),
        is_function: t.is_function,
        type_signature: match &t.type_signature {
            Some(s) => Some(s.clone()),
            None => None,
        },
    }
}

/// The translation with `key`, if any.
pub fn lookup(translations: &Vec<Translation>, key: &str) -> (r: Option<Translation>)
    ensures
        opt_translation_view(r) == lookup_spec(translation_views(translations@), key@),
{
    let ghost ts = translation_views(translations@);
    let k = chars_of(key);
    let mut i = translations.len();
    assert(ts.subrange(0, i as int) =~= ts);
    while i > 0
        invariant
            i <= translations.len(),
            k@ == key@,
            ts == translation_views(translations@),
            lookup_spec(ts.subrange(0, i as int), key@) == lookup_spec(ts, key@),
        decreases i,
    {
        assert(ts.subrange(0, i as int).drop_last() =~= ts.subrange(0, i - 1));
        let name = chars_of(translations[i - 1].key.as_str());
        if name.len() == k.len() && occurs_at_exec(&name, &k, 0) {
            assert(name@ =~= k@.subrange(0, k@.len() as int)) by {
                assert(name@.subrange(0, k@.len() as int) == k@);
            }
            assert(k@.subrange(0, k@.len() as int) =~= k@);
            return Some(copy_translation(&translations[i - 1]));
        }
        proof {
            if name@ == k@ {
                assert(name@.subrange(0, k@.len() as int) =~= k@);
            }
        }
        i = i - 1;
    }
    assert(ts.subrange(0, 0) =~= Seq::<TranslationView>::empty());
    None
}

/// Parses the text and looks `key` up among its translations.
pub fn check_key_exists(content: &str, key: &str) -> (r: Result<Option<Translation>, I18nError>)
    requires
        fits_counter(content@.len() as int),
    ensures
        match parse_spec(lines_of(content@)) {
            Ok(v) => r matches Ok(o) && opt_translation_view(o) == lookup_spec(v.translations, key@),
            Err(label) => r matches Err(I18nError::RegionNotFound(l)) && l@ == label,
        },
{
    match parse_i18n_file(content) {
        Ok(p) => Ok(lookup(&p.translations, key)),
        Err(e) => Err(e),
    }
}

} // verus!
