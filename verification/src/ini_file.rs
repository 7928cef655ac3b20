//! The INI documents of the `ini` crate, as this library uses them.
//!
//! An `Ini` is modelled by its sections in order: each is a name (`None` for
//! the general section) and its key/value pairs in order. What the crate's
//! own parser and writer do is not written out here; `ini_parse` names the
//! result of parsing a text.
use vstd::prelude::*;
use ini::{Ini, ParseError, Properties};
use crate::text::{is_whitespace, trim_end, trim_start, trimmed};

verus! {

/// The key/value pairs of one section, in order.
pub type IniPairs = Seq<(Seq<char>, Seq<char>)>;

/// The sections of a document, in order.
pub type IniSections = Seq<(Option<Seq<char>>, Seq<(Seq<char>, Seq<char>)>)>;

#[verifier::external_type_specification]
#[verifier::external_body]
pub struct ExIni(Ini);

#[verifier::external_type_specification]
#[verifier::external_body]
pub struct ExIniParseError(ParseError);

#[verifier::external_type_specification]
#[verifier::external_body]
pub struct ExIniProperties(Properties);

/// The sections that an `Ini` holds, in the order in which the crate keeps
/// and writes them.
pub uninterp spec fn ini_sections(ini: Ini) -> Seq<(Option<Seq<char>>, Seq<(Seq<char>, Seq<char>)>)>;

/// The sections that `Ini::load_from_str` reads from a text, or `None` where
/// it reports a parse error.
pub uninterp spec fn ini_parse(text: Seq<char>) -> Option<Seq<(Option<Seq<char>>, Seq<(Seq<char>, Seq<char>)>)>>;

/// The pairs of the first section named `name`, if there is one.
pub open spec fn first_section(secs: IniSections, name: Seq<char>) -> Option<IniPairs>
    decreases secs.len(),
{
    if secs.len() == 0 {
        None
    } else if secs[0].0 == Some(name) {
        Some(secs[0].1)
    } else {
        first_section(secs.drop_first(), name)
    }
}

/// The first value of `key` among `pairs`, if there is one.
pub open spec fn first_value(pairs: IniPairs, key: Seq<char>) -> Option<Seq<char>>
    decreases pairs.len(),
{
    if pairs.len() == 0 {
        None
    } else if pairs[0].0 == key {
        Some(pairs[0].1)
    } else {
        first_value(pairs.drop_first(), key)
    }
}

/// The first value of `key` in the first section named `name`.
pub open spec fn ini_lookup(secs: IniSections, name: Seq<char>, key: Seq<char>) -> Option<Seq<char>> {
    match first_section(secs, name) {
        Some(pairs) => first_value(pairs, key),
        None => None,
    }
}

/// `pairs` without any pair of `key`.
pub open spec fn without_key(pairs: IniPairs, key: Seq<char>) -> IniPairs
    decreases pairs.len(),
{
    if pairs.len() == 0 {
        pairs
    } else if pairs[0].0 == key {
        without_key(pairs.drop_first(), key)
    } else {
        seq![pairs[0]] + without_key(pairs.drop_first(), key)
    }
}

/// The sections after `key` is set to `value` in the section named `name`:
/// the first such section loses its pairs of `key` and gains `(key, value)`
/// at its end; where there is no such section, one is added at the end.
pub open spec fn sections_with_value(
    secs: IniSections,
    name: Seq<char>,
    key: Seq<char>,
    value: Seq<char>,
) -> IniSections
    decreases secs.len(),
{
    if secs.len() == 0 {
        seq![(Some(name), seq![(key, value)])]
    } else if secs[0].0 == Some(name) {
        seq![(secs[0].0, without_key(secs[0].1, key).push((key, value)))] + secs.drop_first()
    } else {
        seq![secs[0]] + sections_with_value(secs.drop_first(), name, key, value)
    }
}

/// Whether `s` is a non-empty run of ASCII letters.
pub open spec fn is_ascii_word(s: Seq<char>) -> bool {
    &&& s.len() > 0
    &&& forall|i: int|
        0 <= i < s.len() ==> {
            let v = (#[trigger] s[i]) as u32;
            (65 <= v <= 90) || (97 <= v <= 122)
        }
}

/// Whether `c` is written and read back unchanged inside a value: the writer
/// escapes backslashes and control characters and the parser unescapes them,
/// except the vertical tab and the form feed, which come back as `v` and `f`.
pub open spec fn is_plain_char(c: char) -> bool {
    let v = c as u32;
    v != 0x0b && v != 0x0c
}

/// Whether a value is written and read back unchanged: plain characters
/// only (see `is_plain_char`), no whitespace at either end (the parser trims
/// values), and no quote at the start (the parser reads a quoted value).
pub open spec fn is_plain_value(s: Seq<char>) -> bool {
    &&& forall|i: int| 0 <= i < s.len() ==> is_plain_char(#[trigger] s[i])
    &&& s.len() > 0 ==> !is_whitespace(s[0]) && !is_whitespace(s.last())
    &&& s.len() > 0 ==> s[0] != '"' && s[0] != '\''
}

/// What a value's character is read back as: the writer writes the vertical
/// tab and the form feed as `\v` and `\f`, which the parser reads as `v` and
/// `f`; every other character comes back as written.
pub open spec fn read_back_char(c: char) -> char {
    if c as u32 == 0x0b {
        'v'
    } else if c as u32 == 0x0c {
        'f'
    } else {
        c
    }
}

/// What a value is read back as: its characters read back (see
/// `read_back_char`), then trimmed, as the parser trims values.
pub open spec fn read_back_value(v: Seq<char>) -> Seq<char> {
    trimmed(v.map_values(|c: char| read_back_char(c)))
}

/// Whether the writer writes `c` as it is and the parser skips it before a
/// value: whitespace other than the control characters, which are escaped.
pub open spec fn is_raw_blank(c: char) -> bool {
    is_whitespace(c) && !(0x09 <= c as u32 <= 0x0d)
}

/// Whether a value, as written, opens with a quote once the parser has
/// skipped its leading blanks; the parser reads such a value as quoted.
pub open spec fn opens_with_quote(v: Seq<char>) -> bool
    decreases v.len(),
{
    if v.len() == 0 {
        false
    } else if is_raw_blank(v[0]) {
        opens_with_quote(v.drop_first())
    } else {
        v[0] == '"' || v[0] == '\''
    }
}

/// Whether a document is the empty general section followed by one named
/// section, whose name and keys are ASCII words and none of whose values
/// opens with a quote.
pub open spec fn is_word_document(secs: IniSections) -> bool {
    &&& secs.len() == 2
    &&& secs[0].0 is None
    &&& secs[0].1.len() == 0
    &&& secs[1].0 is Some
    &&& is_ascii_word(secs[1].0->0)
    &&& forall|i: int|
        0 <= i < secs[1].1.len() ==> is_ascii_word((#[trigger] secs[1].1[i]).0)
            && !opens_with_quote(secs[1].1[i].1)
}

/// The pairs with their values read back (see `read_back_value`).
pub open spec fn read_back_pairs(pairs: IniPairs) -> IniPairs {
    pairs.map_values(|p: (Seq<char>, Seq<char>)| (p.0, read_back_value(p.1)))
}

/// The sections of a document of two sections with the values of the second
/// read back (see `read_back_value`).
pub open spec fn read_back_sections(secs: IniSections) -> IniSections {
    seq![secs[0], (secs[1].0, read_back_pairs(secs[1].1))]
}

/// The character of the hexadecimal digit `d`, in small letters.
pub open spec fn hex_digit_char(d: int) -> char {
    if d < 10 {
        (48 + d) as char
    } else {
        (87 + d) as char
    }
}

/// How the writer writes one character (escaping under its default policy):
/// a backslash doubled, the control characters as `\0`, `\a`, `\b`, `\t`,
/// `\n`, `\v`, `\f`, `\r`, or `\x` and four hexadecimal digits, and every
/// other character as it is.
pub open spec fn escaped_char(c: char) -> Seq<char> {
    let v = c as u32;
    if c == '\\' {
        seq!['\\', '\\']
    } else if v == 0 {
        seq!['\\', '0']
    } else if v == 7 {
        seq!['\\', 'a']
    } else if v == 8 {
        seq!['\\', 'b']
    } else if v == 9 {
        seq!['\\', 't']
    } else if v == 10 {
        seq!['\\', 'n']
    } else if v == 11 {
        seq!['\\', 'v']
    } else if v == 12 {
        seq!['\\', 'f']
    } else if v == 13 {
        seq!['\\', 'r']
    } else if v < 0x20 || v == 0x7f {
        seq!['\\', 'x', '0', '0', hex_digit_char((v / 16) as int), hex_digit_char((v % 16) as int)]
    } else {
        seq![c]
    }
}

/// How the writer writes a text: each character escaped (see `escaped_char`).
pub open spec fn escaped(s: Seq<char>) -> Seq<char>
    decreases s.len(),
{
    if s.len() == 0 {
        Seq::empty()
    } else {
        escaped(s.drop_last()) + escaped_char(s.last())
    }
}

/// The lines that the writer writes for a section's pairs: `key=value` for
/// each, escaped, each ended by `sep`.
pub open spec fn pairs_text(pairs: IniPairs, sep: Seq<char>) -> Seq<char>
    decreases pairs.len(),
{
    if pairs.len() == 0 {
        Seq::empty()
    } else {
        pairs_text(pairs.drop_last(), sep) + escaped(pairs.last().0) + seq!['='] + escaped(
            pairs.last().1,
        ) + sep
    }
}

/// Whether a document is the empty general section followed by one named
/// section.
pub open spec fn is_one_section_document(secs: IniSections) -> bool {
    &&& secs.len() == 2
    &&& secs[0].0 is None
    &&& secs[0].1.len() == 0
    &&& secs[1].0 is Some
}

/// The text that the writer writes for a document of one named section (see
/// `is_one_section_document`), with the line separator `sep`: the header
/// `[name]`, then the section's lines (see `pairs_text`).
pub open spec fn one_section_text(secs: IniSections, sep: Seq<char>) -> Seq<char> {
    seq!['['] + escaped(secs[1].0->0) + seq![']'] + sep + pairs_text(secs[1].1, sep)
}

/// A plain value is no quoted value, and it is read back unchanged.
pub proof fn plain_value_reads_back(v: Seq<char>)
    requires
        is_plain_value(v),
    ensures
        !opens_with_quote(v),
        read_back_value(v) == v,
{
    let m = v.map_values(|c: char| read_back_char(c));
    assert(m =~= v) by {
        assert forall|i: int| 0 <= i < v.len() implies m[i] == v[i] by {
            assert(is_plain_char(v[i]));
        }
    }
    assert(trim_start(v) == v);
    assert(trim_end(v) == v);
}

/// `Ini::new`: a document with only the (empty) general section.
#[verifier::external_body]
pub(crate) fn ini_new() -> (r: Ini)
    ensures
        ini_sections(r) == seq![(None::<Seq<char>>, Seq::<(Seq<char>, Seq<char>)>::empty())],
{
    Ini::new()
}

/// `Ini::set_to`: sets `key` to `value` in the first section named `section`,
/// replacing its earlier values there and adding the section if it is missing.
#[verifier::external_body]
pub(crate) fn ini_set_to(ini: &mut Ini, section: &str, key: String, value: String)
    ensures
        ini_sections(*final(ini)) == sections_with_value(
            ini_sections(*old(ini)),
            section@,
            key@,
            value@,
        ),
{
    ini.set_to(Some(section), key, value)
}

/// `Ini::section`: the first section named `name`, if there is one.
#[verifier::external_body]
pub(crate) fn ini_section<'a>(ini: &'a Ini, name: &str) -> (r: Option<&'a Properties>)
    ensures
        r is Some <==> first_section(ini_sections(*ini), name@) is Some,
{
    ini.section(Some(name))
}

/// `Ini::get_from`: the first value of `key` in the first section named
/// `section`.
#[verifier::external_body]
pub(crate) fn ini_get_from(ini: &Ini, section: &str, key: &str) -> (r: Option<String>)
    ensures
        match r {
            Some(v) => ini_lookup(ini_sections(*ini), section@, key@) == Some(v@),
            None => ini_lookup(ini_sections(*ini), section@, key@) is None,
        },
{
    ini.get_from(Some(section), key).map(String::from)
}

/// `Ini::load_from_str`: parses a text with the crate's default options.
#[verifier::external_body]
pub(crate) fn ini_load_from_str(text: &str) -> (r: Result<Ini, ParseError>)
    ensures
        match r {
            Ok(ini) => ini_parse(text@) == Some(ini_sections(ini)),
            Err(_) => ini_parse(text@) is None,
        },
{
    Ini::load_from_str(text)
}

/// `Ini::write_to`, into memory: the text of the document as the crate writes
/// it with its default options. The crate fails only where its writer fails,
/// and writing into a `Vec<u8>` does not fail, so the result is `Ok`.
/// Of a document made of the empty general section and one named section
/// (see `is_one_section_document`) the claim is that the text is that
/// section's header and lines, escaped (see `one_section_text`), with the
/// platform's line separator, `\n` or `\r\n`. Where the section's name and
/// keys are ASCII words and no value opens with a quote (see
/// `is_word_document`), the claim is also that parsing the text gives the same
/// sections back, each value as the parser reads it back (see
/// `read_back_value`).
#[verifier::external_body]
pub(crate) fn ini_write(ini: &Ini) -> (r: Result<String, String>)
    ensures
        r is Ok,
        r matches Ok(t) ==> (is_one_section_document(ini_sections(*ini)) ==> (t@
            == one_section_text(ini_sections(*ini), seq!['\n']) || t@ == one_section_text(
            ini_sections(*ini),
            seq!['\r', '\n'],
        ))),
        r matches Ok(t) ==> (is_word_document(ini_sections(*ini)) ==> {
            &&& ini_parse(t@) == Some(read_back_sections(ini_sections(*ini)))
            &&& t@.len() > 0
            &&& t@[0] == '['
        }),
{
    let mut buf: Vec<u8> = Vec::new();
    match ini.write_to(&mut buf) {
        Ok(()) => Ok(String::from_utf8_lossy(&buf).into_owned()),
        Err(e) => Err(e.to_string()),
    }
}

} // verus!
