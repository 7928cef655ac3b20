//! The setup file: an INI document with one `[setup]` section.
//!
//! Reading and writing the file itself is left to the caller; this module
//! turns the file's text into a `SetupDto` and a `SetupDto` into the text.
use vstd::prelude::*;
use crate::ini_file::{
    first_section, first_value, ini_get_from, ini_load_from_str, ini_new, ini_parse, ini_section,
    ini_sections, ini_set_to, ini_write, escaped, escaped_char, is_ascii_word, is_one_section_document, is_plain_value,
    is_word_document, one_section_text, pairs_text, opens_with_quote,
    plain_value_reads_back, read_back_pairs, read_back_sections, read_back_value,
    sections_with_value, without_key, IniPairs, IniSections,
};
use crate::models::{theme_name, theme_name_round_trip, theme_named, SetupDto, SetupView, Theme};
use crate::text::{
    decimal, decimal_text, is_digit, lemma_decimal_digits, lemma_decimal_parses, parse_unsigned,
    parse_unsigned_text, str_equal,
};

verus! {

/// The name under which a flag is written and read: `true` or `false`.
pub open spec fn bool_name(b: bool) -> Seq<char> {
    if b {
        "true"@
    } else {
        "false"@
    }
}

/// The flag that a name stands for, as `str::parse::<bool>` reads it.
pub open spec fn bool_named(s: Seq<char>) -> Option<bool> {
    if s == "true"@ {
        Some(true)
    } else if s == "false"@ {
        Some(false)
    } else {
        None
    }
}

/// The name of a flag: `true` or `false`.
pub fn bool_text(b: bool) -> (r: String)
    ensures
        r@ == bool_name(b),
{
    if b {
        String::from_str("true")
    } else {
        String::from_str("false")
    }
}

/// The flag named `s`, if `s` is exactly `true` or `false`.
pub fn parse_bool(s: &str) -> (r: Option<bool>)
    ensures
        r == bool_named(s@),
{
    if str_equal(s, "true") {
        Some(true)
    } else if str_equal(s, "false") {
        Some(false)
    } else {
        None
    }
}

/// Reading a flag's name gives the flag back, and a name that is read as a
/// flag is that flag's name.
pub proof fn bool_name_round_trip(b: bool, s: Seq<char>)
    ensures
        bool_named(bool_name(b)) == Some(b),
        bool_named(s) == Some(b) ==> s == bool_name(b),
{
    reveal_strlit("true");
    reveal_strlit("false");
    assert("true"@ != "false"@) by {
        assert("true"@.len() != "false"@.len());
    }
}

/// `o`'s text, or `d` where there is none.
pub open spec fn text_or(o: Option<Seq<char>>, d: Seq<char>) -> Seq<char> {
    match o {
        Some(t) => t,
        None => d,
    }
}

/// The setup that the five entries of a `[setup]` section describe: a missing
/// entry takes its default (`Ward`, `light`, `4000`, `true`, `default`), and a
/// theme, port or flag that does not parse makes the whole setup unreadable.
pub open spec fn setup_from_values(
    name: Option<Seq<char>>,
    theme: Option<Seq<char>>,
    port: Option<Seq<char>>,
    fog: Option<Seq<char>>,
    background: Option<Seq<char>>,
) -> Option<SetupView> {
    let t = theme_named(text_or(theme, "light"@));
    let p = parse_unsigned(text_or(port, "4000"@), 65535);
    let f = bool_named(text_or(fog, "true"@));
    if t is Some && p is Some && f is Some {
        Some(
            SetupView {
                server_name: text_or(name, "Ward"@),
                theme: t->0,
                port: p->0 as u16,
                enable_fog: f->0,
                background_color: text_or(background, "default"@),
            },
        )
    } else {
        None
    }
}

fn text_or_default(o: Option<String>, d: &str) -> (r: String)
    ensures
        r@ == text_or(
            match o {
                Some(s) => Some(s@),
                None => None,
            },
            d@,
        ),
{
    match o {
        Some(s) => s,
        None => String::from_str(d),
    }
}

/// The view of an optional text.
pub open spec fn opt_view(o: Option<String>) -> Option<Seq<char>> {
    match o {
        Some(s) => Some(s@),
        None => None,
    }
}

/// The setup that the entries of a `[setup]` section describe (see
/// `setup_from_values`).
pub fn setup_from_entries(
    name: Option<String>,
    theme: Option<String>,
    port: Option<String>,
    fog: Option<String>,
    background: Option<String>,
) -> (r: Option<SetupDto>)
    ensures
        match r {
            Some(d) => setup_from_values(
                opt_view(name),
                opt_view(theme),
                opt_view(port),
                opt_view(fog),
                opt_view(background),
            ) == Some(d@),
            None => setup_from_values(
                opt_view(name),
                opt_view(theme),
                opt_view(port),
                opt_view(fog),
                opt_view(background),
            ) is None,
        },
{
    let theme_text = text_or_default(theme, "light");
    let t = match Theme::parse(theme_text.as_str()) {
        Ok(t) => t,
        Err(_) => return None,
    };
    let port_text = text_or_default(port, "4000");
    let p = match parse_unsigned_text(port_text.as_str(), 65535) {
        Some(p) => p as u16,
        None => return None,
    };
    let fog_text = text_or_default(fog, "true");
    let f = match parse_bool(fog_text.as_str()) {
        Some(f) => f,
        None => return None,
    };
    let server_name = text_or_default(name, "Ward");
    let background_color = text_or_default(background, "default");
    Some(SetupDto { server_name, theme: t, port: p, enable_fog: f, background_color })
}

/// The byte order mark that may open a file.
pub open spec fn is_byte_order_mark(c: char) -> bool {
    c as u32 == 0xfeff
}

/// A file's text without the byte order mark that may open it.
pub open spec fn without_bom(t: Seq<char>) -> Seq<char> {
    if t.len() > 0 && is_byte_order_mark(t[0]) {
        t.drop_first()
    } else {
        t
    }
}

fn without_bom_text(t: &str) -> (r: &str)
    ensures
        r@ == without_bom(t@),
{
    let n = t.unicode_len();
    if n > 0 && t.get_char(0) as u32 == 0xfeff {
        t.substring_char(1, n)
    } else {
        t
    }
}

/// The setup that a setup file's text holds: the entries of its first
/// `[setup]` section (see `setup_from_values`), or `None` where the text is no
/// INI document or has no such section.
pub open spec fn config_from_text(t: Seq<char>) -> Option<SetupView> {
    match ini_parse(without_bom(t)) {
        None => None,
        Some(secs) => match first_section(secs, "setup"@) {
            None => None,
            Some(pairs) => setup_from_values(
                first_value(pairs, "serverName"@),
                first_value(pairs, "theme"@),
                first_value(pairs, "port"@),
                first_value(pairs, "enableFog"@),
                first_value(pairs, "backgroundColor"@),
            ),
        },
    }
}

/// The setup that a setup file holds; `None` stands for a file that could not
/// be read.
pub open spec fn config_in_file(file: Option<Seq<char>>) -> Option<SetupView> {
    match file {
        Some(t) => config_from_text(t),
        None => None,
    }
}

/// The view of an optional borrowed text.
pub open spec fn opt_str_view(o: Option<&str>) -> Option<Seq<char>> {
    match o {
        Some(s) => Some(s@),
        None => None,
    }
}

/// The document that a setup is written as: one `[setup]` section with its
/// five entries in order.
pub open spec fn setup_sections(s: SetupView) -> IniSections {
    seq![
        (None::<Seq<char>>, Seq::<(Seq<char>, Seq<char>)>::empty()),
        (
            Some("setup"@),
            seq![
                ("serverName"@, s.server_name),
                ("theme"@, theme_name(s.theme)),
                ("port"@, decimal(s.port as nat)),
                ("enableFog"@, bool_name(s.enable_fog)),
                ("backgroundColor"@, s.background_color),
            ],
        ),
    ]
}

/// Whether a setup's free texts, its name and its background, are written
/// and read back unchanged (see `is_plain_value`).
pub open spec fn fits_ini(s: SetupView) -> bool {
    is_plain_value(s.server_name) && is_plain_value(s.background_color)
}

/// The text of the setup file written for `s`, with the line separator
/// `sep`: the `[setup]` header, then the five entries as `key=value` lines, the
/// name and the background escaped as the writer escapes them (see `escaped`).
pub open spec fn setup_text(s: SetupView, sep: Seq<char>) -> Seq<char> {
    seq!['['] + "setup"@ + seq![']'] + sep
        + "serverName"@ + seq!['='] + escaped(s.server_name) + sep
        + "theme"@ + seq!['='] + theme_name(s.theme) + sep
        + "port"@ + seq!['='] + decimal(s.port as nat) + sep
        + "enableFog"@ + seq!['='] + bool_name(s.enable_fog) + sep
        + "backgroundColor"@ + seq!['='] + escaped(s.background_color) + sep
}

/// Whether a setup can be written and read back: neither its name nor its
/// background opens with a quote (see `opens_with_quote`), which the parser
/// would read as a quoted value.
pub open spec fn writable_setup(s: SetupView) -> bool {
    !opens_with_quote(s.server_name) && !opens_with_quote(s.background_color)
}

/// The setup that is read back from the file written for `s`: its name and
/// background as the parser reads them back (see `read_back_value`): trimmed,
/// with a vertical tab or form feed read as `v` or `f`.
pub open spec fn read_back_setup(s: SetupView) -> SetupView {
    SetupView {
        server_name: read_back_value(s.server_name),
        theme: s.theme,
        port: s.port,
        enable_fog: s.enable_fog,
        background_color: read_back_value(s.background_color),
    }
}

/// Whether `t` is a setup file written for `s`: it parses to the document
/// that `s` is written as, each value as the parser reads it back, and it
/// begins with that document's first header.
pub open spec fn config_written(s: SetupView, t: Seq<char>) -> bool {
    &&& ini_parse(t) == Some(read_back_sections(setup_sections(s)))
    &&& t.len() > 0
    &&& t[0] == '['
}

proof fn lemma_without_absent_key(pairs: IniPairs, key: Seq<char>)
    requires
        forall|i: int| 0 <= i < pairs.len() ==> (#[trigger] pairs[i]).0 != key,
    ensures
        without_key(pairs, key) == pairs,
    decreases pairs.len(),
{
    if pairs.len() > 0 {
        lemma_without_absent_key(pairs.drop_first(), key);
        assert(seq![pairs[0]] + pairs.drop_first() =~= pairs);
    }
}

proof fn lemma_first_entry(name: Seq<char>, key: Seq<char>, value: Seq<char>)
    ensures
        sections_with_value(
            seq![(None::<Seq<char>>, Seq::<(Seq<char>, Seq<char>)>::empty())],
            name,
            key,
            value,
        ) == seq![
            (None::<Seq<char>>, Seq::<(Seq<char>, Seq<char>)>::empty()),
            (Some(name), seq![(key, value)]),
        ],
{
    let secs = seq![(None::<Seq<char>>, Seq::<(Seq<char>, Seq<char>)>::empty())];
    assert(secs.drop_first() =~= Seq::<(Option<Seq<char>>, IniPairs)>::empty());
    assert(sections_with_value(secs.drop_first(), name, key, value) == seq![
        (Some(name), seq![(key, value)]),
    ]);
    assert(sections_with_value(secs, name, key, value) =~= seq![
        (None::<Seq<char>>, Seq::<(Seq<char>, Seq<char>)>::empty()),
        (Some(name), seq![(key, value)]),
    ]);
}

proof fn lemma_next_entry(name: Seq<char>, pairs: IniPairs, key: Seq<char>, value: Seq<char>)
    requires
        forall|i: int| 0 <= i < pairs.len() ==> (#[trigger] pairs[i]).0 != key,
    ensures
        sections_with_value(
            seq![(None::<Seq<char>>, Seq::<(Seq<char>, Seq<char>)>::empty()), (Some(name), pairs)],
            name,
            key,
            value,
        ) == seq![
            (None::<Seq<char>>, Seq::<(Seq<char>, Seq<char>)>::empty()),
            (Some(name), pairs.push((key, value))),
        ],
{
    let secs = seq![
        (None::<Seq<char>>, Seq::<(Seq<char>, Seq<char>)>::empty()),
        (Some(name), pairs),
    ];
    lemma_without_absent_key(pairs, key);
    let rest = secs.drop_first();
    assert(rest =~= seq![(Some(name), pairs)]);
    assert(rest.drop_first() =~= Seq::<(Option<Seq<char>>, IniPairs)>::empty());
    assert(sections_with_value(rest, name, key, value) =~= seq![
        (Some(name), pairs.push((key, value))),
    ]);
    assert(sections_with_value(secs, name, key, value) =~= seq![
        (None::<Seq<char>>, Seq::<(Seq<char>, Seq<char>)>::empty()),
        (Some(name), pairs.push((key, value))),
    ]);
}

proof fn lemma_setup_keys_distinct()
    ensures
        "serverName"@.len() == 10,
        "theme"@.len() == 5,
        "port"@.len() == 4,
        "enableFog"@.len() == 9,
        "backgroundColor"@.len() == 15,
{
    reveal_strlit("serverName");
    reveal_strlit("theme");
    reveal_strlit("port");
    reveal_strlit("enableFog");
    reveal_strlit("backgroundColor");
}

proof fn lemma_plain_words()
    ensures
        is_ascii_word("setup"@),
        is_ascii_word("serverName"@),
        is_ascii_word("theme"@),
        is_ascii_word("port"@),
        is_ascii_word("enableFog"@),
        is_ascii_word("backgroundColor"@),
        is_plain_value("light"@),
        is_plain_value("dark"@),
        is_plain_value("true"@),
        is_plain_value("false"@),
        is_ascii_word("light"@),
        is_ascii_word("dark"@),
        is_ascii_word("true"@),
        is_ascii_word("false"@),
{
    reveal_strlit("setup");
    reveal_strlit("serverName");
    reveal_strlit("theme");
    reveal_strlit("port");
    reveal_strlit("enableFog");
    reveal_strlit("backgroundColor");
    reveal_strlit("light");
    reveal_strlit("dark");
    reveal_strlit("true");
    reveal_strlit("false");
}

proof fn lemma_decimal_plain(n: nat)
    ensures
        is_plain_value(decimal(n)),
{
    lemma_decimal_digits(n);
    let d = decimal(n);
    assert(is_digit(d[0]));
    assert(is_digit(d.last()));
}

proof fn lemma_escaped_unchanged(t: Seq<char>)
    requires
        forall|i: int|
            0 <= i < t.len() ==> {
                let v = (#[trigger] t[i]) as u32;
                (48 <= v <= 57) || (65 <= v <= 90) || (97 <= v <= 122)
            },
    ensures
        escaped(t) == t,
    decreases t.len(),
{
    if t.len() > 0 {
        assert forall|i: int| 0 <= i < t.drop_last().len() implies {
            let v = (#[trigger] t.drop_last()[i]) as u32;
            (48 <= v <= 57) || (65 <= v <= 90) || (97 <= v <= 122)
        } by {
            assert(t.drop_last()[i] == t[i]);
        }
        lemma_escaped_unchanged(t.drop_last());
        let c = t.last();
        assert(c == t[t.len() - 1]);
        assert(escaped_char(c) == seq![c]);
        assert(t.drop_last() + seq![c] =~= t);
    }
}

proof fn lemma_word_escaped_unchanged(t: Seq<char>)
    requires
        is_ascii_word(t),
    ensures
        escaped(t) == t,
{
    lemma_escaped_unchanged(t);
}

proof fn lemma_pairs_text_push(ps: IniPairs, q: (Seq<char>, Seq<char>), sep: Seq<char>)
    ensures
        pairs_text(ps.push(q), sep) == pairs_text(ps, sep) + escaped(q.0) + seq!['='] + escaped(q.1)
            + sep,
{
    assert(ps.push(q).drop_last() =~= ps);
}

proof fn lemma_setup_words_unescaped(s: SetupView)
    ensures
        escaped("setup"@) == "setup"@,
        escaped("serverName"@) == "serverName"@,
        escaped("theme"@) == "theme"@,
        escaped("port"@) == "port"@,
        escaped("enableFog"@) == "enableFog"@,
        escaped("backgroundColor"@) == "backgroundColor"@,
        escaped(theme_name(s.theme)) == theme_name(s.theme),
        escaped(decimal(s.port as nat)) == decimal(s.port as nat),
        escaped(bool_name(s.enable_fog)) == bool_name(s.enable_fog),
{
    lemma_plain_words();
    lemma_word_escaped_unchanged("setup"@);
    lemma_word_escaped_unchanged("serverName"@);
    lemma_word_escaped_unchanged("theme"@);
    lemma_word_escaped_unchanged("port"@);
    lemma_word_escaped_unchanged("enableFog"@);
    lemma_word_escaped_unchanged("backgroundColor"@);
    match s.theme {
        Theme::Light => lemma_word_escaped_unchanged("light"@),
        Theme::Dark => lemma_word_escaped_unchanged("dark"@),
    }
    if s.enable_fog {
        lemma_word_escaped_unchanged("true"@);
    } else {
        lemma_word_escaped_unchanged("false"@);
    }
    lemma_decimal_digits(s.port as nat);
    let d = decimal(s.port as nat);
    assert forall|i: int| 0 <= i < d.len() implies {
        let v = (#[trigger] d[i]) as u32;
        (48 <= v <= 57) || (65 <= v <= 90) || (97 <= v <= 122)
    } by {
        assert(is_digit(d[i]));
    }
    lemma_escaped_unchanged(d);
}

proof fn lemma_setup_text(s: SetupView, sep: Seq<char>)
    ensures
        one_section_text(setup_sections(s), sep) == setup_text(s, sep),
{
    lemma_setup_words_unescaped(s);
    let a = ("serverName"@, s.server_name);
    let b = ("theme"@, theme_name(s.theme));
    let c = ("port"@, decimal(s.port as nat));
    let d = ("enableFog"@, bool_name(s.enable_fog));
    let e = ("backgroundColor"@, s.background_color);
    let p0 = Seq::<(Seq<char>, Seq<char>)>::empty();
    let p1 = p0.push(a);
    let p2 = p1.push(b);
    let p3 = p2.push(c);
    let p4 = p3.push(d);
    let p5 = p4.push(e);
    assert(setup_sections(s)[1].1 =~= p5);
    lemma_pairs_text_push(p0, a, sep);
    lemma_pairs_text_push(p1, b, sep);
    lemma_pairs_text_push(p2, c, sep);
    lemma_pairs_text_push(p3, d, sep);
    lemma_pairs_text_push(p4, e, sep);
    assert(pairs_text(p0, sep) == Seq::<char>::empty());
    let l0 = seq!['['] + "setup"@ + seq![']'] + sep;
    let s1 = l0 + "serverName"@ + seq!['='] + escaped(s.server_name) + sep;
    let s2 = s1 + "theme"@ + seq!['='] + theme_name(s.theme) + sep;
    let s3 = s2 + "port"@ + seq!['='] + decimal(s.port as nat) + sep;
    let s4 = s3 + "enableFog"@ + seq!['='] + bool_name(s.enable_fog) + sep;
    let s5 = s4 + "backgroundColor"@ + seq!['='] + escaped(s.background_color) + sep;
    lemma_prefix_step(l0, pairs_text(p0, sep), l0, "serverName"@, escaped(s.server_name), sep);
    lemma_prefix_step(l0, pairs_text(p1, sep), s1, "theme"@, theme_name(s.theme), sep);
    lemma_prefix_step(l0, pairs_text(p2, sep), s2, "port"@, decimal(s.port as nat), sep);
    lemma_prefix_step(l0, pairs_text(p3, sep), s3, "enableFog"@, bool_name(s.enable_fog), sep);
    lemma_prefix_step(l0, pairs_text(p4, sep), s4, "backgroundColor"@, escaped(s.background_color), sep);
    assert(l0 + pairs_text(p0, sep) =~= l0);
    assert(setup_text(s, sep) == s5);
    assert(one_section_text(setup_sections(s), sep) == l0 + pairs_text(p5, sep));
}

proof fn lemma_prefix_step(
    l: Seq<char>,
    body: Seq<char>,
    done: Seq<char>,
    key: Seq<char>,
    value: Seq<char>,
    sep: Seq<char>,
)
    requires
        l + body == done,
    ensures
        l + (body + key + seq!['='] + value + sep) == done + key + seq!['='] + value + sep,
{
    assert(l + (body + key + seq!['='] + value + sep) =~= done + key + seq!['='] + value + sep);
}

proof fn lemma_fixed_values_plain(s: SetupView)
    ensures
        is_plain_value(theme_name(s.theme)),
        is_plain_value(decimal(s.port as nat)),
        is_plain_value(bool_name(s.enable_fog)),
{
    lemma_plain_words();
    lemma_decimal_plain(s.port as nat);
    match s.theme {
        Theme::Light => {},
        Theme::Dark => {},
    }
}

proof fn lemma_setup_document_words(s: SetupView)
    requires
        writable_setup(s),
    ensures
        is_word_document(setup_sections(s)),
{
    lemma_plain_words();
    lemma_fixed_values_plain(s);
    plain_value_reads_back(theme_name(s.theme));
    plain_value_reads_back(decimal(s.port as nat));
    plain_value_reads_back(bool_name(s.enable_fog));
    let secs = setup_sections(s);
    let pairs = secs[1].1;
    assert forall|i: int| 0 <= i < pairs.len() implies is_ascii_word((#[trigger] pairs[i]).0)
        && !opens_with_quote(pairs[i].1) by {}
}

proof fn lemma_setup_sections_read_back(s: SetupView)
    ensures
        read_back_sections(setup_sections(s)) == setup_sections(read_back_setup(s)),
{
    lemma_fixed_values_plain(s);
    plain_value_reads_back(theme_name(s.theme));
    plain_value_reads_back(decimal(s.port as nat));
    plain_value_reads_back(bool_name(s.enable_fog));
    let secs = setup_sections(s);
    let r = setup_sections(read_back_setup(s));
    assert(read_back_pairs(secs[1].1) =~= r[1].1);
    assert(read_back_sections(secs) =~~= r);
}

proof fn lemma_reads_setup_document(setup: SetupView, text: Seq<char>)
    requires
        ini_parse(text) == Some(setup_sections(setup)),
        text.len() > 0,
        text[0] == '[',
    ensures
        config_in_file(Some(text)) == Some(setup),
{
    lemma_setup_keys_distinct();
    assert(without_bom(text) == text);
    let secs = setup_sections(setup);
    let pairs = secs[1].1;
    assert(secs.drop_first()[0] == secs[1]);
    assert(first_section(secs.drop_first(), "setup"@) == Some(pairs));
    assert(first_section(secs, "setup"@) == Some(pairs));
    let p1 = pairs.drop_first();
    let p2 = p1.drop_first();
    let p3 = p2.drop_first();
    let p4 = p3.drop_first();
    assert(p1[0] == pairs[1] && p2[0] == pairs[2] && p3[0] == pairs[3] && p4[0] == pairs[4]);
    assert(first_value(pairs, "serverName"@) == Some(setup.server_name));
    assert(first_value(p1, "theme"@) == Some(theme_name(setup.theme)));
    assert(first_value(pairs, "theme"@) == Some(theme_name(setup.theme)));
    assert(first_value(p2, "port"@) == Some(decimal(setup.port as nat)));
    assert(first_value(p1, "port"@) == Some(decimal(setup.port as nat)));
    assert(first_value(pairs, "port"@) == Some(decimal(setup.port as nat)));
    assert(first_value(p3, "enableFog"@) == Some(bool_name(setup.enable_fog)));
    assert(first_value(p2, "enableFog"@) == Some(bool_name(setup.enable_fog)));
    assert(first_value(p1, "enableFog"@) == Some(bool_name(setup.enable_fog)));
    assert(first_value(pairs, "enableFog"@) == Some(bool_name(setup.enable_fog)));
    assert(first_value(p4, "backgroundColor"@) == Some(setup.background_color));
    assert(first_value(p3, "backgroundColor"@) == Some(setup.background_color));
    assert(first_value(p2, "backgroundColor"@) == Some(setup.background_color));
    assert(first_value(p1, "backgroundColor"@) == Some(setup.background_color));
    assert(first_value(pairs, "backgroundColor"@) == Some(setup.background_color));
    theme_name_round_trip(setup.theme, theme_name(setup.theme));
    lemma_decimal_parses(setup.port as nat, 65535);
    bool_name_round_trip(setup.enable_fog, bool_name(setup.enable_fog));
    let read = setup_from_values(
        Some(setup.server_name),
        Some(theme_name(setup.theme)),
        Some(decimal(setup.port as nat)),
        Some(bool_name(setup.enable_fog)),
        Some(setup.background_color),
    );
    assert(read == Some(setup));
}

/// Reading a setup file gives back the setup that was written to it, its
/// name and background as the parser reads them back (see
/// `read_back_setup`); for a setup whose name and background are plain values
/// (see `fits_ini`) that is the very setup written.
pub proof fn read_config_returns_written(setup: SetupView, text: Seq<char>)
    requires
        writable_setup(setup),
        config_written(setup, text),
    ensures
        config_in_file(Some(text)) == Some(read_back_setup(setup)),
        fits_ini(setup) ==> read_back_setup(setup) == setup,
{
    lemma_setup_sections_read_back(setup);
    lemma_reads_setup_document(read_back_setup(setup), text);
    if fits_ini(setup) {
        plain_value_reads_back(setup.server_name);
        plain_value_reads_back(setup.background_color);
    }
}

/// Reads and writes the setup file at `file_path`.
pub struct ConfigManager {
    pub file_path: String,
}

impl ConfigManager {
    /// A manager of the setup file at `file_path`.
    pub fn new(file_path: &str) -> (r: Self)
        ensures
            r.file_path@ == file_path@,
    {
        ConfigManager { file_path: String::from_str(file_path) }
    }

    /// Whether the setup file holds a readable setup; `file_text` is the
    /// file's text, or `None` where it could not be read.
    pub fn is_configured(&self, file_text: Option<&str>) -> (r: bool)
        ensures
            r == config_in_file(opt_str_view(file_text)) is Some,
    {
        self.read_config(file_text).is_some()
    }

    /// The setup that the setup file holds; `file_text` is the file's text,
    /// or `None` where it could not be read.
    pub fn read_config(&self, file_text: Option<&str>) -> (r: Option<SetupDto>)
        ensures
            match r {
                Some(d) => config_in_file(opt_str_view(file_text)) == Some(d@),
                None => config_in_file(opt_str_view(file_text)) is None,
            },
    {
        let text = match file_text {
            Some(t) => t,
            None => return None,
        };
        let body = without_bom_text(text);
        let ini = match ini_load_from_str(body) {
            Ok(ini) => ini,
            Err(_) => return None,
        };
        if ini_section(&ini, "setup").is_none() {
            return None;
        }
        let name = ini_get_from(&ini, "setup", "serverName");
        let theme = ini_get_from(&ini, "setup", "theme");
        let port = ini_get_from(&ini, "setup", "port");
        let fog = ini_get_from(&ini, "setup", "enableFog");
        let background = ini_get_from(&ini, "setup", "backgroundColor");
        setup_from_entries(name, theme, port, fog, background)
    }

    /// The text of the setup file that holds `setup_dto`: one `[setup]`
    /// section with its five entries. The caller writes it to `file_path`.
    pub fn write_config(&self, setup_dto: &SetupDto) -> (r: Result<String, String>)
        ensures
            r is Ok,
            r matches Ok(t) ==> (t@ == setup_text(setup_dto@, seq!['\n']) || t@ == setup_text(
                setup_dto@,
                seq!['\r', '\n'],
            )),
            r matches Ok(t) ==> (writable_setup(setup_dto@) ==> config_written(setup_dto@, t@)
                && config_in_file(Some(t@)) == Some(read_back_setup(setup_dto@))),
    {
        let ghost s = setup_dto@;
        proof {
            lemma_setup_keys_distinct();
        }
        let mut ini = ini_new();
        ini_set_to(&mut ini, "setup", String::from_str("serverName"), setup_dto.server_name.clone());
        proof {
            lemma_first_entry("setup"@, "serverName"@, s.server_name);
        }
        let ghost p1 = seq![("serverName"@, s.server_name)];
        ini_set_to(&mut ini, "setup", String::from_str("theme"), setup_dto.theme.to_string());
        proof {
            lemma_next_entry("setup"@, p1, "theme"@, theme_name(s.theme));
        }
        let ghost p2 = p1.push(("theme"@, theme_name(s.theme)));
        ini_set_to(&mut ini, "setup", String::from_str("port"), decimal_text(setup_dto.port as u64));
        proof {
            lemma_next_entry("setup"@, p2, "port"@, decimal(s.port as nat));
        }
        let ghost p3 = p2.push(("port"@, decimal(s.port as nat)));
        ini_set_to(&mut ini, "setup", String::from_str("enableFog"), bool_text(setup_dto.enable_fog));
        proof {
            lemma_next_entry("setup"@, p3, "enableFog"@, bool_name(s.enable_fog));
        }
        let ghost p4 = p3.push(("enableFog"@, bool_name(s.enable_fog)));
        ini_set_to(
            &mut ini,
            "setup",
            String::from_str("backgroundColor"),
            setup_dto.background_color.clone(),
        );
        proof {
            lemma_next_entry("setup"@, p4, "backgroundColor"@, s.background_color);
            assert(ini_sections(ini) =~~= setup_sections(s));
            if writable_setup(s) {
                lemma_setup_document_words(s);
            }
            lemma_setup_text(s, seq!['\n']);
            lemma_setup_text(s, seq!['\r', '\n']);
            assert(is_one_section_document(setup_sections(s)));
        }
        let r = ini_write(&ini);
        proof {
            if writable_setup(s) {
                if r is Ok {
                    read_config_returns_written(s, r->Ok_0@);
                }
            }
        }
        r
    }
}

} // verus!
