//! Parser for emulated-registry exports: an INI-like text format with
//! bracketed section headers, `#time=` directives, comment lines and
//! `key=value` lines whose values are strings or `dword:` hex numbers.
//! Parsing never fails; malformed lines are skipped.

use vstd::prelude::*;
use vstd::string::StrSliceExecFns;
use vstd::string::StringExecFns;

use crate::strutil::{
    lemma_sep_from_at, lemma_sep_from_none, spec_sep_from, spec_split, spec_trim, split_chars,
    starts_with_at, str_eq, trim_ws, views_of,
};

verus! {

/// A registry value: a string or a 32-bit unsigned number.
pub enum RegValueEnum {
    String(String),
    Number(u32),
}

/// The mathematical model of a registry value.
pub enum RegValueSpec {
    Str(Seq<char>),
    Num(u32),
}

impl View for RegValueEnum {
    type V = RegValueSpec;

    open spec fn view(&self) -> RegValueSpec {
        match self {
            RegValueEnum::String(s) => RegValueSpec::Str(s@),
            RegValueEnum::Number(n) => RegValueSpec::Num(*n),
        }
    }
}

/// One parsed section of a registry export.
pub struct RegEntry {
    /// The section key between the brackets.
    pub path: String,
    /// The token of a `#time=` directive seen inside this section.
    pub timestamp: Option<String>,
    /// The section's values, in insertion order, keys unique.
    pub values: Vec<(String, RegValueEnum)>,
}

/// The mathematical model of a parsed section.
pub struct RegEntrySpec {
    pub path: Seq<char>,
    pub timestamp: Option<Seq<char>>,
    pub values: Seq<(Seq<char>, RegValueSpec)>,
}

impl View for RegEntry {
    type V = RegEntrySpec;

    open spec fn view(&self) -> RegEntrySpec {
        RegEntrySpec {
            path: self.path@,
            timestamp: match self.timestamp {
                Some(t) => Some(t@),
                None => None,
            },
            values: self.values@.map_values(|p: (String, RegValueEnum)| (p.0@, p.1@)),
        }
    }
}

/// The views of a sequence of entries.
pub open spec fn entry_views(es: Seq<RegEntry>) -> Seq<RegEntrySpec> {
    es.map_values(|e: RegEntry| e@)
}

/// Text with a leading byte-order mark removed.
pub open spec fn spec_strip_bom(s: Seq<char>) -> Seq<char> {
    if s.len() > 0 && s[0] == '\u{FEFF}' {
        s.drop_first()
    } else {
        s
    }
}

/// A word character: an ASCII letter, digit or underscore.
pub open spec fn is_word_char(c: char) -> bool {
    ('a' <= c && c <= 'z') || ('A' <= c && c <= 'Z') || ('0' <= c && c <= '9') || c == '_'
}

/// Length of the run of word characters starting at `i`.
pub open spec fn spec_word_run(s: Seq<char>, i: int) -> int
    decreases s.len() - i + 1,
{
    if i < 0 || i >= s.len() || !is_word_char(s[i]) {
        0
    } else {
        1 + spec_word_run(s, i + 1)
    }
}

proof fn lemma_word_run_exact(s: Seq<char>, i0: int, j: int)
    requires
        0 <= i0 <= j <= s.len(),
        forall|k: int| i0 <= k < j ==> is_word_char(s[k]),
        j == s.len() || !is_word_char(s[j]),
    ensures
        spec_word_run(s, i0) == j - i0,
    decreases j - i0,
{
    if i0 < j {
        lemma_word_run_exact(s, i0 + 1, j);
    }
}

/// The timestamp token of a `#time=<token>` directive line, when the
/// line carries one: at least one word character must follow the
/// marker, and the token is the maximal run of word characters.
pub open spec fn spec_time_token(l: Seq<char>) -> Option<Seq<char>> {
    if l.len() >= 7 && l.subrange(0, 6) == "#time="@ && is_word_char(l[6]) {
        Some(l.subrange(6, 6 + spec_word_run(l, 6)))
    } else {
        None
    }
}

/// The section path of a bracketed header line: the line must start
/// with `[` and the path runs to the first `]` at index 2 or later
/// (so the path is never empty); anything after that `]` is ignored.
pub open spec fn spec_section_path(l: Seq<char>) -> Option<Seq<char>> {
    if l.len() > 0 && l[0] == '[' {
        match spec_sep_from(l, ']', ']', 2) {
            Some(j) => Some(l.subrange(1, j)),
            None => None,
        }
    } else {
        None
    }
}

/// Value of a hexadecimal digit; zero on any other character.
pub open spec fn hex_digit_val(c: char) -> nat {
    if '0' <= c && c <= '9' {
        (c as nat - '0' as nat) as nat
    } else if 'a' <= c && c <= 'f' {
        (c as nat - 'a' as nat + 10) as nat
    } else if 'A' <= c && c <= 'F' {
        (c as nat - 'A' as nat + 10) as nat
    } else {
        0
    }
}

/// A hexadecimal digit.
pub open spec fn is_hex_digit(c: char) -> bool {
    ('0' <= c && c <= '9') || ('a' <= c && c <= 'f') || ('A' <= c && c <= 'F')
}

/// The number denoted by a sequence of hexadecimal digits, most
/// significant first.
pub open spec fn hex_val(s: Seq<char>) -> nat
    decreases s.len(),
{
    if s.len() == 0 {
        0
    } else {
        hex_val(s.drop_last()) * 16 + hex_digit_val(s.last())
    }
}

/// A non-empty all-hexadecimal digit string.
pub open spec fn all_hex(s: Seq<char>) -> bool {
    s.len() > 0 && forall|k: int| 0 <= k < s.len() ==> is_hex_digit(s[k])
}

/// The digits of a `dword:` payload: an optional leading `+` is
/// accepted and removed.
pub open spec fn spec_dword_digits(s: Seq<char>) -> Seq<char> {
    if s.len() > 0 && s[0] == '+' {
        s.drop_first()
    } else {
        s
    }
}

/// What decoding the text after `dword:` yields: anything that is
/// not a hexadecimal number fitting 32 bits degrades to zero.
pub open spec fn spec_dword_val(s: Seq<char>) -> u32 {
    if all_hex(spec_dword_digits(s)) && hex_val(spec_dword_digits(s)) <= u32::MAX {
        hex_val(spec_dword_digits(s)) as u32
    } else {
        0
    }
}

proof fn lemma_hex_val_take(t: Seq<char>, k: int)
    requires
        0 <= k <= t.len(),
    ensures
        hex_val(t) >= hex_val(t.take(k)),
    decreases t.len() - k,
{
    if k == t.len() {
        assert(t.take(k) =~= t);
    } else {
        lemma_hex_val_take(t.drop_last(), k);
        assert(t.drop_last().take(k) =~= t.take(k));
    }
}

/// Hexadecimal digit value of a character, when it is one.
fn hex_digit_of(c: char) -> (r: Option<u32>)
    ensures
        match r {
            Some(d) => is_hex_digit(c) && d == hex_digit_val(c),
            None => !is_hex_digit(c),
        },
{
    if '0' <= c && c <= '9' {
        Some(c as u32 - '0' as u32)
    } else if 'a' <= c && c <= 'f' {
        Some(c as u32 - 'a' as u32 + 10)
    } else if 'A' <= c && c <= 'F' {
        Some(c as u32 - 'A' as u32 + 10)
    } else {
        None
    }
}

/// Decodes the hexadecimal text of a `dword:` value; malformed or
/// overflowing text degrades to zero rather than failing.
pub fn parse_hex_u32(s: &str) -> (r: u32)
    ensures
        r == spec_dword_val(s@),
{
    let n = s.unicode_len();
    let mut start: usize = 0;
    if n > 0 && s.get_char(0) == '+' {
        start = 1;
    }
    let ghost t = spec_dword_digits(s@);
    proof {
        assert(t =~= s@.subrange(start as int, n as int));
    }
    if start == n {
        return 0;
    }
    let mut acc: u64 = 0;
    let mut i: usize = start;
    proof {
        assert(s@.subrange(start as int, start as int) =~= Seq::<char>::empty());
    }
    while i < n
        invariant
            start <= i <= n,
            n == s@.len(),
            t == spec_dword_digits(s@),
            t == s@.subrange(start as int, n as int),
            acc == hex_val(s@.subrange(start as int, i as int)),
            acc <= u32::MAX,
            forall|k: int| start <= k < i ==> is_hex_digit(s@[k]),
        decreases n - i,
    {
        let c = s.get_char(i);
        let ghost pre = s@.subrange(start as int, i as int);
        proof {
            assert(t[i - start] == s@[i as int]);
        }
        match hex_digit_of(c) {
            Some(d) => {
                proof {
                    assert(s@.subrange(start as int, i + 1).drop_last() =~= pre);
                    assert(s@.subrange(start as int, i + 1).last() == s@[i as int]);
                }
                acc = acc * 16 + d as u64;
                if acc > 0xFFFF_FFFF {
                    proof {
                        assert(t.take(i + 1 - start) =~= s@.subrange(start as int, i + 1));
                        lemma_hex_val_take(t, i + 1 - start);
                        assert(hex_val(t) > u32::MAX);
                        assert(spec_dword_val(s@) == 0);
                    }
                    return 0;
                }
            },
            None => {
                proof {
                    assert(!is_hex_digit(t[i - start]));
                    assert(!all_hex(t));
                    assert(spec_dword_val(s@) == 0);
                }
                return 0;
            },
        }
        i += 1;
    }
    proof {
        assert forall|j: int| 0 <= j < t.len() implies is_hex_digit(t[j]) by {
            assert(t[j] == s@[start + j]);
        }
        assert(all_hex(t));
    }
    acc as u32
}

/// `s` with leading double quotes removed.
pub open spec fn spec_trim_q_front(s: Seq<char>) -> Seq<char>
    decreases s.len(),
{
    if s.len() > 0 && s[0] == '"' {
        spec_trim_q_front(s.drop_first())
    } else {
        s
    }
}

/// `s` with trailing double quotes removed.
pub open spec fn spec_trim_q_back(s: Seq<char>) -> Seq<char>
    decreases s.len(),
{
    if s.len() > 0 && s.last() == '"' {
        spec_trim_q_back(s.drop_last())
    } else {
        s
    }
}

/// `s` with all surrounding double quotes removed.
pub open spec fn spec_trim_quotes(s: Seq<char>) -> Seq<char> {
    spec_trim_q_back(spec_trim_q_front(s))
}

/// Removes all surrounding double quotes.
fn trim_quotes(s: &str) -> (r: &str)
    ensures
        r@ == spec_trim_quotes(s@),
{
    let n = s.unicode_len();
    let mut a: usize = 0;
    proof {
        assert(s@.skip(0) =~= s@);
    }
    while a < n && s.get_char(a) == '"'
        invariant
            n == s@.len(),
            a <= n,
            spec_trim_q_front(s@) == spec_trim_q_front(s@.skip(a as int)),
        decreases n - a,
    {
        proof {
            assert(s@.skip(a as int).drop_first() =~= s@.skip(a + 1));
        }
        a += 1;
    }
    proof {
        if a < n {
            assert(s@.skip(a as int)[0] == s@[a as int]);
        }
        assert(spec_trim_q_front(s@) =~= s@.skip(a as int));
        assert(s@.skip(a as int) =~= s@.subrange(a as int, n as int));
    }
    let mut b: usize = n;
    while b > a && s.get_char(b - 1) == '"'
        invariant
            n == s@.len(),
            a <= b <= n,
            spec_trim_q_front(s@) == s@.skip(a as int),
            spec_trim_q_back(s@.skip(a as int)) == spec_trim_q_back(
                s@.subrange(a as int, b as int),
            ),
        decreases b,
    {
        proof {
            assert(s@.subrange(a as int, b as int).drop_last() =~= s@.subrange(
                a as int,
                b - 1,
            ));
        }
        b -= 1;
    }
    proof {
        if b > a {
            assert(s@.subrange(a as int, b as int).last() == s@[b - 1]);
        }
        assert(spec_trim_q_back(s@.subrange(a as int, b as int)) =~= s@.subrange(
            a as int,
            b as int,
        ));
    }
    s.substring_char(a, b)
}

/// The key segment with at most one surrounding quote pair removed,
/// as the key/value line pattern does before the empty-key test.
pub open spec fn spec_strip_one_quote(seg: Seq<char>) -> Seq<char> {
    let a = if seg.len() > 0 && seg[0] == '"' {
        seg.drop_first()
    } else {
        seg
    };
    if a.len() > 0 && a.last() == '"' {
        a.drop_last()
    } else {
        a
    }
}

/// What the key of a `key=value` line is: the segment before the
/// first `=`, less one surrounding quote pair; an empty key becomes
/// the registry's default-value key `@`, any other key loses all its
/// surrounding quotes.
pub open spec fn spec_key_of(seg: Seq<char>) -> Seq<char> {
    let s1 = spec_strip_one_quote(seg);
    if s1.len() == 0 {
        "@"@
    } else {
        spec_trim_quotes(s1)
    }
}

/// Extracts the key from the segment before the `=`.
fn key_of(seg: &str) -> (r: String)
    ensures
        r@ == spec_key_of(seg@),
{
    let n = seg.unicode_len();
    let a: usize = if n > 0 && seg.get_char(0) == '"' {
        1
    } else {
        0
    };
    let b: usize = if n > a && seg.get_char(n - 1) == '"' {
        n - 1
    } else {
        n
    };
    let stripped = seg.substring_char(a, b);
    proof {
        assert(stripped@ =~= spec_strip_one_quote(seg@));
    }
    if stripped.is_empty() {
        let r = "@".to_owned();
        proof {
            reveal_strlit("@");
        }
        r
    } else {
        trim_quotes(stripped).to_owned()
    }
}

/// What decoding a (trimmed) raw value yields: `""` is the empty
/// string, `dword:` prefixes a hexadecimal number, a fully quoted
/// value is its inner text, anything else is taken verbatim.
pub open spec fn spec_value_of(raw: Seq<char>) -> RegValueSpec {
    if raw.len() == 2 && raw[0] == '"' && raw[1] == '"' {
        RegValueSpec::Str(Seq::empty())
    } else if raw.len() >= 6 && raw.subrange(0, 6) == "dword:"@ {
        RegValueSpec::Num(spec_dword_val(raw.skip(6)))
    } else if raw.len() >= 2 && raw[0] == '"' && raw.last() == '"' {
        RegValueSpec::Str(raw.subrange(1, raw.len() - 1))
    } else {
        RegValueSpec::Str(raw)
    }
}

/// Decodes a (trimmed) raw value.
fn value_of(raw: &str) -> (r: RegValueEnum)
    ensures
        r@ == spec_value_of(raw@),
{
    let n = raw.unicode_len();
    proof {
        reveal_strlit("dword:");
    }
    if n == 2 && raw.get_char(0) == '"' && raw.get_char(1) == '"' {
        RegValueEnum::String(String::new())
    } else if n >= 6 && starts_with_at(raw, "dword:", 0) {
        proof {
            assert(raw@.skip(6) =~= raw@.subrange(6, n as int));
        }
        RegValueEnum::Number(parse_hex_u32(raw.substring_char(6, n)))
    } else if n >= 2 && raw.get_char(0) == '"' && raw.get_char(n - 1) == '"' {
        RegValueEnum::String(raw.substring_char(1, n - 1).to_owned())
    } else {
        RegValueEnum::String(raw.to_owned())
    }
}

/// Inserting into a value list: an existing key is overwritten in
/// place, a new key is appended.
pub open spec fn spec_insert_value(
    vs: Seq<(Seq<char>, RegValueSpec)>,
    k: Seq<char>,
    v: RegValueSpec,
) -> Seq<(Seq<char>, RegValueSpec)>
    decreases vs.len(),
{
    if vs.len() == 0 {
        seq![(k, v)]
    } else if vs[0].0 == k {
        seq![(k, v)] + vs.drop_first()
    } else {
        seq![vs[0]] + spec_insert_value(vs.drop_first(), k, v)
    }
}

/// The views of a value list.
pub open spec fn value_views(vs: Seq<(String, RegValueEnum)>) -> Seq<(Seq<char>, RegValueSpec)> {
    vs.map_values(|p: (String, RegValueEnum)| (p.0@, p.1@))
}

proof fn lemma_insert_found(
    vs: Seq<(Seq<char>, RegValueSpec)>,
    k: Seq<char>,
    v: RegValueSpec,
    j: int,
)
    requires
        0 <= j < vs.len(),
        vs[j].0 == k,
        forall|i: int| 0 <= i < j ==> vs[i].0 != k,
    ensures
        spec_insert_value(vs, k, v) == vs.update(j, (k, v)),
    decreases j,
{
    if j == 0 {
        assert(spec_insert_value(vs, k, v) =~= vs.update(0, (k, v)));
    } else {
        lemma_insert_found(vs.drop_first(), k, v, j - 1);
        assert(vs.drop_first().update(j - 1, (k, v)) =~= vs.update(j, (k, v)).drop_first());
        assert(spec_insert_value(vs, k, v) =~= vs.update(j, (k, v)));
    }
}

proof fn lemma_insert_absent(vs: Seq<(Seq<char>, RegValueSpec)>, k: Seq<char>, v: RegValueSpec)
    requires
        forall|i: int| 0 <= i < vs.len() ==> vs[i].0 != k,
    ensures
        spec_insert_value(vs, k, v) == vs.push((k, v)),
    decreases vs.len(),
{
    if vs.len() == 0 {
        assert(spec_insert_value(vs, k, v) =~= vs.push((k, v)));
    } else {
        lemma_insert_absent(vs.drop_first(), k, v);
        assert(vs.drop_first().push((k, v)) =~= vs.push((k, v)).drop_first());
        assert(spec_insert_value(vs, k, v) =~= vs.push((k, v)));
    }
}

/// Inserts a key/value pair, overwriting an existing key in place.
fn insert_value(values: &mut Vec<(String, RegValueEnum)>, k: String, v: RegValueEnum)
    ensures
        value_views(final(values)@) == spec_insert_value(value_views(old(values)@), k@, v@),
{
    let ghost orig = value_views(values@);
    let mut j: usize = 0;
    while j < values.len()
        invariant
            j <= values@.len(),
            orig == value_views(values@),
            orig == value_views(old(values)@),
            forall|i: int| 0 <= i < j ==> orig[i].0 != k@,
        decreases values@.len() - j,
    {
        let hit = str_eq(values[j].0.as_str(), k.as_str());
        proof {
            assert(orig[j as int] == (values@[j as int].0@, values@[j as int].1@));
        }
        if hit {
            proof {
                assert(orig[j as int].0 == k@);
                lemma_insert_found(orig, k@, v@, j as int);
            }
            values.remove(j);
            values.insert(j, (k, v));
            proof {
                assert(value_views(values@) =~= orig.update(j as int, (k@, v@)));
            }
            return ;
        }
        j += 1;
    }
    proof {
        lemma_insert_absent(orig, k@, v@);
    }
    values.push((k, v));
    proof {
        assert(value_views(values@) =~= orig.push((k@, v@)));
    }
}

/// A fresh entry opened by a section header.
pub open spec fn spec_entry_new(path: Seq<char>) -> RegEntrySpec {
    RegEntrySpec { path: path, timestamp: None, values: Seq::empty() }
}

/// The effect of one (untrimmed) line on the parse state: the
/// entries it emits and the open entry afterwards.
pub open spec fn spec_line_step(cur: Option<RegEntrySpec>, line: Seq<char>) -> (Seq<RegEntrySpec>,
    Option<RegEntrySpec>) {
    let l = spec_trim(line);
    if l.len() == 0 || l[0] == ';' {
        (Seq::empty(), cur)
    } else if l[0] == '#' {
        match (spec_time_token(l), cur) {
            (Some(t), Some(e)) => (
                Seq::empty(),
                Some(RegEntrySpec { timestamp: Some(t), ..e }),
            ),
            (_, c) => (Seq::empty(), c),
        }
    } else {
        match spec_section_path(l) {
            Some(p) => (
                match cur {
                    Some(e) => seq![e],
                    None => Seq::empty(),
                },
                Some(spec_entry_new(p)),
            ),
            None => spec_kv_step(cur, l),
        }
    }
}

/// The effect of a line that is not blank, comment, directive or
/// section header: a `key=value` line updates the open entry, and is
/// dropped when no entry is open or the line has no `=`.
pub open spec fn spec_kv_step(cur: Option<RegEntrySpec>, l: Seq<char>) -> (Seq<RegEntrySpec>,
    Option<RegEntrySpec>) {
    match (spec_sep_from(l, '=', '=', 0), cur) {
        (Some(i), Some(e)) => {
            let k = spec_key_of(l.subrange(0, i));
            let v = spec_value_of(spec_trim(l.subrange(i + 1, l.len() as int)));
            (
                Seq::empty(),
                Some(RegEntrySpec { values: spec_insert_value(e.values, k, v), ..e }),
            )
        },
        (_, c) => (Seq::empty(), c),
    }
}

/// The entries that parsing the remaining lines emits, given the
/// currently open entry; an entry still open at end of input is
/// finalized.
pub open spec fn spec_parse_lines(lines: Seq<Seq<char>>, cur: Option<RegEntrySpec>) -> Seq<
    RegEntrySpec,
>
    decreases lines.len(),
{
    if lines.len() == 0 {
        match cur {
            Some(e) => seq![e],
            None => Seq::empty(),
        }
    } else {
        let (em, cur2) = spec_line_step(cur, lines[0]);
        em + spec_parse_lines(lines.drop_first(), cur2)
    }
}

/// What parsing a registry export yields: the byte-order mark is
/// stripped, the text split into lines, and the lines folded in
/// order.
pub open spec fn spec_parse_reg_file(text: Seq<char>) -> Seq<RegEntrySpec> {
    spec_parse_lines(spec_split(spec_strip_bom(text), '\n', '\n'), None)
}

/// The view of an optionally open entry.
pub open spec fn opt_entry_view(cur: &Option<RegEntry>) -> Option<RegEntrySpec> {
    match cur {
        Some(e) => Some(e@),
        None => None,
    }
}

/// Parses a registry export. Never fails: blank lines, comments and
/// malformed lines are skipped, sections are emitted in order of
/// appearance.
pub fn parse_reg_file(content: &str) -> (r: Vec<RegEntry>)
    ensures
        entry_views(r@) == spec_parse_reg_file(content@),
{
    let n = content.unicode_len();
    let body: &str = if n > 0 && content.get_char(0) == '\u{FEFF}' {
        content.substring_char(1, n)
    } else {
        content
    };
    proof {
        assert(body@ =~= spec_strip_bom(content@));
    }
    let lines = split_chars(body, '\n', '\n');
    let ghost glines = spec_split(spec_strip_bom(content@), '\n', '\n');
    let mut entries: Vec<RegEntry> = Vec::new();
    let mut cur: Option<RegEntry> = None;
    let mut i: usize = 0;
    proof {
        assert(glines.skip(0) =~= glines);
        assert(entry_views(entries@) + spec_parse_lines(glines, None) =~= spec_parse_lines(
            glines,
            None,
        ));
    }
    while i < lines.len()
        invariant
            i <= lines@.len(),
            glines == views_of(lines@),
            glines.len() == lines@.len(),
            spec_parse_reg_file(content@) == entry_views(entries@) + spec_parse_lines(
                glines.skip(i as int),
                opt_entry_view(&cur),
            ),
        decreases lines@.len() - i,
    {
        let raw_line = lines[i];
        let line = trim_ws(raw_line);
        let ln = line.unicode_len();
        let ghost pre_entries = entry_views(entries@);
        let ghost pre_cur = opt_entry_view(&cur);
        let ghost step = spec_line_step(pre_cur, glines[i as int]);
        proof {
            assert(glines.skip(i as int)[0] == glines[i as int]);
            assert(glines.skip(i as int).drop_first() =~= glines.skip(i + 1));
        }
        if ln == 0 || line.get_char(0) == ';' {
            // blank line or comment: skipped
        } else if line.get_char(0) == '#' {
            match time_token_of(line) {
                Some(tok) => {
                    cur = match cur {
                        Some(mut e) => {
                            e.timestamp = Some(tok);
                            Some(e)
                        },
                        None => None,
                    };
                },
                None => {},
            }
        } else {
            match section_path_of(line) {
                Some(path) => {
                    match cur {
                        Some(e) => {
                            entries.push(e);
                            proof {
                                assert(entry_views(entries@) =~= entry_views(
                                    entries@.drop_last(),
                                ).push(entries@.last()@));
                            }
                        },
                        None => {},
                    }
                    cur = Some(RegEntry { path, timestamp: None, values: Vec::new() });
                    proof {
                        assert(value_views(Seq::<(String, RegValueEnum)>::empty()) =~= Seq::<
                            (Seq<char>, RegValueSpec),
                        >::empty());
                        assert(opt_entry_view(&cur) == step.1);
                    }
                },
                None => {
                    match first_eq_index(line) {
                        Some(eq) => {
                            let key = key_of(line.substring_char(0, eq));
                            let raw_value = trim_ws(line.substring_char(eq + 1, ln));
                            let val = value_of(raw_value);
                            cur = match cur {
                                Some(mut e) => {
                                    insert_value(&mut e.values, key, val);
                                    Some(e)
                                },
                                None => None,
                            };
                        },
                        None => {},
                    }
                },
            }
        }
        proof {
            assert(entry_views(entries@) =~= pre_entries + step.0);
            assert(opt_entry_view(&cur) == step.1);
            assert((pre_entries + step.0) + spec_parse_lines(glines.skip(i + 1), step.1)
                =~= pre_entries + (step.0 + spec_parse_lines(glines.skip(i + 1), step.1)));
            assert(spec_parse_reg_file(content@) == entry_views(entries@) + spec_parse_lines(
                glines.skip(i + 1),
                opt_entry_view(&cur),
            ));
        }
        i += 1;
    }
    match cur {
        Some(e) => {
            entries.push(e);
            proof {
                assert(glines.skip(i as int) =~= Seq::<Seq<char>>::empty());
                assert(entry_views(entries@) =~= entry_views(entries@.drop_last()).push(
                    entries@.last()@,
                ));
            }
        },
        None => {
            proof {
                assert(glines.skip(i as int) =~= Seq::<Seq<char>>::empty());
                assert(entry_views(entries@) + Seq::<RegEntrySpec>::empty() =~= entry_views(
                    entries@,
                ));
            }
        },
    }
    entries
}

/// The timestamp token of a trimmed directive line, when present.
fn time_token_of(line: &str) -> (r: Option<String>)
    ensures
        match r {
            Some(t) => spec_time_token(line@) == Some(t@),
            None => spec_time_token(line@) is None,
        },
{
    let n = line.unicode_len();
    proof {
        reveal_strlit("#time=");
    }
    if n < 7 || !starts_with_at(line, "#time=", 0) {
        return None;
    }
    let mut j: usize = 6;
    while j < n && is_word_char_exec(line.get_char(j))
        invariant
            6 <= j <= n,
            n == line@.len(),
            forall|k: int| 6 <= k < j ==> is_word_char(line@[k]),
        decreases n - j,
    {
        j += 1;
    }
    if j == 6 {
        proof {
            assert(!is_word_char(line@[6]));
        }
        return None;
    }
    proof {
        lemma_word_run_exact(line@, 6, j as int);
    }
    Some(line.substring_char(6, j).to_owned())
}

/// Word-character test.
fn is_word_char_exec(c: char) -> (r: bool)
    ensures
        r == is_word_char(c),
{
    ('a' <= c && c <= 'z') || ('A' <= c && c <= 'Z') || ('0' <= c && c <= '9') || c == '_'
}

/// The section path of a trimmed header line, when it is one.
fn section_path_of(line: &str) -> (r: Option<String>)
    ensures
        match r {
            Some(p) => spec_section_path(line@) == Some(p@),
            None => spec_section_path(line@) is None,
        },
{
    let n = line.unicode_len();
    if n == 0 || line.get_char(0) != '[' {
        return None;
    }
    if n <= 2 {
        return None;
    }
    let mut j: usize = 2;
    while j < n && line.get_char(j) != ']'
        invariant
            2 <= j <= n,
            n == line@.len(),
            forall|k: int| 2 <= k < j ==> line@[k] != ']',
        decreases n - j,
    {
        j += 1;
    }
    if j >= n {
        proof {
            lemma_sep_from_none(line@, ']', ']', 2);
        }
        return None;
    }
    proof {
        lemma_sep_from_at(line@, ']', ']', 2, j as int);
    }
    Some(line.substring_char(1, j).to_owned())
}

/// Position of the first `=` in a line, when it has one.
fn first_eq_index(line: &str) -> (r: Option<usize>)
    ensures
        match r {
            Some(i) => spec_sep_from(line@, '=', '=', 0) == Some(i as int) && i < line@.len(),
            None => spec_sep_from(line@, '=', '=', 0) is None,
        },
{
    let n = line.unicode_len();
    let mut j: usize = 0;
    while j < n && line.get_char(j) != '='
        invariant
            j <= n,
            n == line@.len(),
            forall|k: int| 0 <= k < j ==> line@[k] != '=',
        decreases n - j,
    {
        j += 1;
    }
    if j >= n {
        proof {
            lemma_sep_from_none(line@, '=', '=', 0);
        }
        None
    } else {
        proof {
            lemma_sep_from_at(line@, '=', '=', 0, j as int);
        }
        Some(j)
    }
}

} // verus!

verus! {

/// Lowercase hexadecimal digit character for a value below 16.
pub open spec fn hex_digit_char(d: nat) -> char {
    if d == 0 { '0' } else if d == 1 { '1' } else if d == 2 { '2' } else if d == 3 { '3' }
    else if d == 4 { '4' } else if d == 5 { '5' } else if d == 6 { '6' } else if d == 7 { '7' }
    else if d == 8 { '8' } else if d == 9 { '9' } else if d == 10 { 'a' } else if d == 11 { 'b' }
    else if d == 12 { 'c' } else if d == 13 { 'd' } else if d == 14 { 'e' } else { 'f' }
}

/// The lowercase hexadecimal spelling of a number, no sign, no
/// leading zeros (a single `0` for zero).
pub open spec fn spec_hex_fmt(n: nat) -> Seq<char>
    decreases n,
{
    if n < 16 {
        seq![hex_digit_char(n)]
    } else {
        spec_hex_fmt(n / 16).push(hex_digit_char(n % 16))
    }
}

proof fn lemma_hex_fmt_val(n: nat)
    ensures
        all_hex(spec_hex_fmt(n)),
        hex_val(spec_hex_fmt(n)) == n,
        spec_hex_fmt(n)[0] != '+',
    decreases n,
{
    if n < 16 {
        assert(hex_val(spec_hex_fmt(n)) == hex_val(Seq::<char>::empty()) * 16 + hex_digit_val(
            hex_digit_char(n),
        )) by {
            assert(spec_hex_fmt(n).drop_last() =~= Seq::<char>::empty());
        }
    } else {
        assert(n / 16 < n) by (nonlinear_arith)
            requires n >= 16,
        ;
        lemma_hex_fmt_val(n / 16);
        let f = spec_hex_fmt(n);
        assert(f.drop_last() =~= spec_hex_fmt(n / 16));
        assert(hex_val(f) == (n / 16) * 16 + hex_digit_val(hex_digit_char(n % 16)));
        assert(hex_digit_val(hex_digit_char(n % 16)) == n % 16);
        assert((n / 16) * 16 + n % 16 == n) by (nonlinear_arith);
        assert forall|k: int| 0 <= k < f.len() implies is_hex_digit(f[k]) by {
            if k < f.len() - 1 {
                assert(f[k] == spec_hex_fmt(n / 16)[k]);
            }
        }
    }
}

/// For any valid `dword:` hex token, the decoded number round-trips:
/// spelling it back as lowercase hexadecimal and re-decoding yields
/// the same number.
pub proof fn lemma_dword_round_trip(s: Seq<char>)
    requires
        all_hex(spec_dword_digits(s)),
        hex_val(spec_dword_digits(s)) <= u32::MAX,
    ensures
        spec_dword_val(spec_hex_fmt(spec_dword_val(s) as nat)) == spec_dword_val(s),
{
    let n = spec_dword_val(s);
    let f = spec_hex_fmt(n as nat);
    lemma_hex_fmt_val(n as nat);
    assert(f[0] != '+');
    assert(spec_dword_digits(f) == f);
}

proof fn lemma_parse_lines_no_sections(lines: Seq<Seq<char>>)
    requires
        forall|i: int| 0 <= i < lines.len() ==> spec_section_path(spec_trim(#[trigger] lines[i]))
            is None,
    ensures
        spec_parse_lines(lines, None) == Seq::<RegEntrySpec>::empty(),
    decreases lines.len(),
{
    if lines.len() > 0 {
        let step = spec_line_step(None, lines[0]);
        assert(step.0 =~= Seq::<RegEntrySpec>::empty());
        assert(step.1 is None);
        assert(forall|i: int|
            0 <= i < lines.drop_first().len() ==> spec_section_path(
                spec_trim(#[trigger] lines.drop_first()[i]),
            ) is None);
        lemma_parse_lines_no_sections(lines.drop_first());
        assert(spec_parse_lines(lines, None) =~= Seq::<RegEntrySpec>::empty());
    }
}

/// A text none of whose lines is a section header parses to no
/// entries at all.
pub proof fn lemma_parse_without_sections(text: Seq<char>)
    requires
        forall|i: int|
            0 <= i < spec_split(spec_strip_bom(text), '\n', '\n').len() ==> spec_section_path(
                spec_trim(#[trigger] spec_split(spec_strip_bom(text), '\n', '\n')[i]),
            ) is None,
    ensures
        spec_parse_reg_file(text) == Seq::<RegEntrySpec>::empty(),
{
    lemma_parse_lines_no_sections(spec_split(spec_strip_bom(text), '\n', '\n'));
}

} // verus!
