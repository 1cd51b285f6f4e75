//! Choosing the serialisation format of a configuration file.

use vstd::prelude::*;
use crate::text::{ascii_lower, char_lower_eq, lower_char};

verus! {

/// Why loading or saving a configuration failed.
#[derive(Debug)]
pub enum ConfigError {
    /// Reading, writing or creating a file or directory failed.
    Io(std::io::Error),
    /// The text could not be parsed or produced in the chosen format.
    Parse(String),
    /// The format name (or the file extension) is not one of the known formats.
    UnknownFormat,
}

/// The serialisation formats a configuration file can have.
#[derive(PartialEq, Eq, Structural, Clone, Copy, Debug)]
pub enum ConfigFormat {
    Yaml,
    Json,
    Toml,
}

/// The message of a parse failure in `format` whose cause reads `detail`:
/// YAML and JSON failures are prefixed with the format's name, TOML ones are
/// the cause alone.
pub open spec fn parse_failure_text(format: ConfigFormat, detail: Seq<char>) -> Seq<char> {
    match format {
        ConfigFormat::Yaml => "YAML解析错误: "@ + detail,
        ConfigFormat::Json => "JSON解析错误: "@ + detail,
        ConfigFormat::Toml => detail,
    }
}

impl ConfigError {
    /// The error for a text that could not be read or written in `format`,
    /// where `detail` describes the cause.
    pub fn parse_failure(format: ConfigFormat, detail: &str) -> (e: ConfigError)
        ensures
            e matches ConfigError::Parse(m) && m@ == parse_failure_text(format, detail@),
    {
        let mut m = match format {
            ConfigFormat::Yaml => String::from_str("YAML解析错误: "),
            ConfigFormat::Json => String::from_str("JSON解析错误: "),
            ConfigFormat::Toml => String::new(),
        };
        m.append(detail);
        proof {
            if format == ConfigFormat::Toml {
                assert(m@ =~= detail@);
            }
        }
        ConfigError::Parse(m)
    }
}

/// The text after the last `.` of `s`, or all of `s` when it has no `.`.
pub open spec fn last_segment(s: Seq<char>) -> Seq<char>
    decreases s.len(),
{
    if s.len() == 0 {
        s
    } else if s.last() == '.' {
        Seq::empty()
    } else {
        last_segment(s.drop_last()).push(s.last())
    }
}

/// The format that a format name stands for, compared without regard to
/// ASCII case: `yaml` or `yml`, `json`, `toml`.
pub open spec fn format_of_name(name: Seq<char>) -> Option<ConfigFormat> {
    let l = ascii_lower(name);
    if l == "yaml"@ || l == "yml"@ {
        Some(ConfigFormat::Yaml)
    } else if l == "json"@ {
        Some(ConfigFormat::Json)
    } else if l == "toml"@ {
        Some(ConfigFormat::Toml)
    } else {
        None
    }
}

/// The canonical name of a format.
pub open spec fn format_name(f: ConfigFormat) -> Seq<char> {
    match f {
        ConfigFormat::Yaml => "yaml"@,
        ConfigFormat::Json => "json"@,
        ConfigFormat::Toml => "toml"@,
    }
}

/// The format name that the extension of `filename` selects: the canonical
/// name of the format of the text after the last `.`.
pub open spec fn detected_format(filename: Seq<char>) -> Option<Seq<char>> {
    match format_of_name(last_segment(filename)) {
        Some(f) => Some(format_name(f)),
        None => None,
    }
}

proof fn lemma_last_segment_split(s: Seq<char>, i: int)
    requires
        0 <= i <= s.len(),
        forall|j: int| i <= j < s.len() ==> s[j] != '.',
    ensures
        last_segment(s) == last_segment(s.subrange(0, i)) + s.subrange(i, s.len() as int),
    decreases s.len() - i,
{
    if i < s.len() {
        lemma_last_segment_split(s.drop_last(), i);
        assert(s.drop_last().subrange(0, i) =~= s.subrange(0, i));
        assert(s.subrange(i, s.len() as int) =~= s.drop_last().subrange(
            i,
            s.drop_last().len() as int,
        ).push(s.last()));
    } else {
        assert(s.subrange(i, s.len() as int) =~= Seq::<char>::empty());
        assert(s.subrange(0, i) =~= s);
    }
}

/// Whether the characters `start..` of `s`, ASCII lower-cased, spell `target`.
fn segment_is(s: &str, start: usize, target: &str) -> (r: bool)
    requires
        start <= s@.len(),
    ensures
        r == (ascii_lower(s@.subrange(start as int, s@.len() as int)) == target@),
{
    let n = s.unicode_len();
    let tn = target.unicode_len();
    let ghost seg = s@.subrange(start as int, n as int);
    if n - start != tn {
        assert(ascii_lower(seg).len() != target@.len());
        return false;
    }
    let mut i: usize = 0;
    while i < tn
        invariant
            n == s@.len(),
            tn == target@.len(),
            n - start == tn,
            start <= n,
            seg == s@.subrange(start as int, n as int),
            i <= tn,
            forall|j: int| 0 <= j < i ==> lower_char(seg[j]) == target@[j],
        decreases tn - i,
    {
        let c = s.get_char(start + i);
        let t = target.get_char(i);
        if !char_lower_eq(c, t) {
            assert(ascii_lower(seg)[i as int] != target@[i as int]);
            return false;
        }
        i = i + 1;
    }
    assert(ascii_lower(seg) =~= target@);
    true
}

/// Reads a format name the way configuration loading and saving do:
/// `yaml`/`yml`, `json` and `toml`, in any ASCII case. Any other name is
/// `ConfigError::UnknownFormat`.
pub fn parse_format(format: &str) -> (r: Result<ConfigFormat, ConfigError>)
    ensures
        r is Ok <==> format_of_name(format@) is Some,
        r matches Ok(f) ==> format_of_name(format@) == Some(f),
        r matches Err(e) ==> e is UnknownFormat,
{
    proof {
        reveal_strlit("yaml");
        reveal_strlit("yml");
        reveal_strlit("json");
        reveal_strlit("toml");
    }
    assert(format@.subrange(0, format@.len() as int) =~= format@);
    if segment_is(format, 0, "yaml") || segment_is(format, 0, "yml") {
        Ok(ConfigFormat::Yaml)
    } else if segment_is(format, 0, "json") {
        Ok(ConfigFormat::Json)
    } else if segment_is(format, 0, "toml") {
        Ok(ConfigFormat::Toml)
    } else {
        Err(ConfigError::UnknownFormat)
    }
}

/// The format name selected by the extension of `filename`: `"yaml"` for
/// `.yml`/`.yaml`, `"json"` for `.json`, `"toml"` for `.toml`, in any ASCII
/// case. The extension is the text after the last `.`; a name without `.`
/// is its own extension. Any other extension gives `None`.
pub fn detect_format(filename: &str) -> (r: Option<&str>)
    ensures
        match r {
            Some(f) => detected_format(filename@) == Some(f@),
            None => detected_format(filename@) is None,
        },
{
    let n = filename.unicode_len();
    let mut start: usize = n;
    while start > 0 && filename.get_char(start - 1) != '.'
        invariant
            n == filename@.len(),
            start <= n,
            forall|j: int| start <= j < n ==> filename@[j] != '.',
        decreases start,
    {
        start = start - 1;
    }
    proof {
        lemma_last_segment_split(filename@, start as int);
        let pre = filename@.subrange(0, start as int);
        if start > 0 {
            assert(pre.last() == '.');
        } else {
            assert(pre.len() == 0);
        }
        assert(last_segment(pre) =~= Seq::<char>::empty());
        assert(last_segment(filename@) =~= filename@.subrange(start as int, n as int));
        reveal_strlit("yaml");
        reveal_strlit("yml");
        reveal_strlit("json");
        reveal_strlit("toml");
    }
    if segment_is(filename, start, "yaml") || segment_is(filename, start, "yml") {
        Some("yaml")
    } else if segment_is(filename, start, "json") {
        Some("json")
    } else if segment_is(filename, start, "toml") {
        Some("toml")
    } else {
        None
    }
}

/// Every format name that `detect_format` gives is one that `parse_format`
/// accepts, and it names the format of the file's extension.
pub proof fn lemma_detected_format_is_accepted(filename: Seq<char>)
    requires
        detected_format(filename) is Some,
    ensures
        format_of_name(detected_format(filename).unwrap()) == format_of_name(
            last_segment(filename),
        ),
{
    reveal_strlit("yaml");
    reveal_strlit("yml");
    reveal_strlit("json");
    reveal_strlit("toml");
    let f = format_of_name(last_segment(filename)).unwrap();
    assert(ascii_lower(format_name(f)) =~= format_name(f));
}

proof fn lemma_lower_char_facts(c: char)
    ensures
        lower_char(lower_char(c)) == lower_char(c),
        (lower_char(c) == '.') == (c == '.'),
{
    if 'A' <= c && c <= 'Z' {
        let v = (c as u32) + 32;
        assert(97 <= v <= 122);
        assert((v as char) as u32 == v);
    }
}

proof fn lemma_last_segment_lower(s: Seq<char>)
    ensures
        last_segment(ascii_lower(s)) == ascii_lower(last_segment(s)),
    decreases s.len(),
{
    if s.len() > 0 {
        lemma_lower_char_facts(s.last());
        assert(ascii_lower(s).drop_last() =~= ascii_lower(s.drop_last()));
        lemma_last_segment_lower(s.drop_last());
        if s.last() != '.' {
            assert(ascii_lower(last_segment(s.drop_last()).push(s.last())) =~= ascii_lower(
                last_segment(s.drop_last()),
            ).push(lower_char(s.last())));
        } else {
            assert(ascii_lower(Seq::<char>::empty()) =~= Seq::<char>::empty());
        }
    } else {
        assert(ascii_lower(s) =~= s);
    }
}

/// Format detection does not depend on the ASCII case of the file name: a
/// name and its lower-cased form select the same format.
pub proof fn law_detection_ignores_case(filename: Seq<char>)
    ensures
        detected_format(ascii_lower(filename)) == detected_format(filename),
{
    lemma_last_segment_lower(filename);
    let seg = last_segment(filename);
    assert forall|i: int| 0 <= i < seg.len() implies #[trigger] ascii_lower(ascii_lower(seg))[i]
        == ascii_lower(seg)[i] by {
        lemma_lower_char_facts(seg[i]);
    }
    assert(ascii_lower(ascii_lower(seg)) =~= ascii_lower(seg));
}

/// Whether `ext` spells the word whose lower-case letters are `lower` and
/// upper-case letters are `upper`, each letter in either case.
pub open spec fn spells_either_case(ext: Seq<char>, lower: Seq<char>, upper: Seq<char>) -> bool {
    ext.len() == lower.len() && forall|i: int|
        0 <= i < ext.len() ==> ext[i] == lower[i] || ext[i] == upper[i]
}

proof fn lemma_spelled_lowers(ext: Seq<char>, lower: Seq<char>, upper: Seq<char>)
    requires
        spells_either_case(ext, lower, upper),
        lower.len() == upper.len(),
        forall|i: int| 0 <= i < lower.len() ==> lower_char(#[trigger] lower[i]) == lower[i],
        forall|i: int| 0 <= i < lower.len() ==> lower_char(#[trigger] upper[i]) == lower[i],
    ensures
        ascii_lower(ext) == lower,
{
    assert forall|i: int| 0 <= i < ext.len() implies #[trigger] ascii_lower(ext)[i] == lower[i] by {
        if ext[i] == lower[i] {
        } else {
            assert(ext[i] == upper[i]);
        }
    }
    assert(ascii_lower(ext) =~= lower);
}

proof fn lemma_segment_after_dot(prefix: Seq<char>, ext: Seq<char>)
    requires
        forall|i: int| 0 <= i < ext.len() ==> ext[i] != '.',
    ensures
        last_segment(prefix + seq!['.'] + ext) == ext,
{
    let s = prefix + seq!['.'] + ext;
    let k: int = prefix.len() as int + 1;
    assert forall|j: int| k <= j < s.len() implies s[j] != '.' by {
        assert(s[j] == ext[j - k]);
    }
    lemma_last_segment_split(s, k);
    assert(s.subrange(0, k) =~= prefix + seq!['.']);
    assert((prefix + seq!['.']).drop_last() =~= prefix);
    assert(last_segment(prefix + seq!['.']) =~= Seq::<char>::empty());
    assert(s.subrange(k, s.len() as int) =~= ext);
    assert(Seq::<char>::empty() + ext =~= ext);
}

proof fn lemma_word_cases()
    ensures
        forall|i: int| 0 <= i < 4 ==> lower_char(#[trigger] "yaml"@[i]) == "yaml"@[i],
        forall|i: int| 0 <= i < 4 ==> lower_char(#[trigger] "YAML"@[i]) == "yaml"@[i],
        forall|i: int| 0 <= i < 3 ==> lower_char(#[trigger] "yml"@[i]) == "yml"@[i],
        forall|i: int| 0 <= i < 3 ==> lower_char(#[trigger] "YML"@[i]) == "yml"@[i],
        forall|i: int| 0 <= i < 4 ==> lower_char(#[trigger] "json"@[i]) == "json"@[i],
        forall|i: int| 0 <= i < 4 ==> lower_char(#[trigger] "JSON"@[i]) == "json"@[i],
        forall|i: int| 0 <= i < 4 ==> lower_char(#[trigger] "toml"@[i]) == "toml"@[i],
        forall|i: int| 0 <= i < 4 ==> lower_char(#[trigger] "TOML"@[i]) == "toml"@[i],
        "yaml"@.len() == 4 && "YAML"@.len() == 4 && "yml"@.len() == 3 && "YML"@.len() == 3,
        "json"@.len() == 4 && "JSON"@.len() == 4 && "toml"@.len() == 4 && "TOML"@.len() == 4,
{
    reveal_strlit("yaml");
    reveal_strlit("YAML");
    reveal_strlit("yml");
    reveal_strlit("YML");
    reveal_strlit("json");
    reveal_strlit("JSON");
    reveal_strlit("toml");
    reveal_strlit("TOML");
}

/// A file name whose text after its last `.` spells `yaml` or `yml`,
/// `json` or `toml`, each letter in either case, is detected as `"yaml"`,
/// `"json"` or `"toml"`, whatever comes before that `.` and however long
/// the name is.
pub proof fn law_detect_by_extension(prefix: Seq<char>, ext: Seq<char>)
    requires
        forall|i: int| 0 <= i < ext.len() ==> ext[i] != '.',
    ensures
        spells_either_case(ext, "yaml"@, "YAML"@) || spells_either_case(ext, "yml"@, "YML"@)
            ==> detected_format(prefix + seq!['.'] + ext) == Some("yaml"@),
        spells_either_case(ext, "json"@, "JSON"@) ==> detected_format(prefix + seq!['.'] + ext)
            == Some("json"@),
        spells_either_case(ext, "toml"@, "TOML"@) ==> detected_format(prefix + seq!['.'] + ext)
            == Some("toml"@),
{
    lemma_segment_after_dot(prefix, ext);
    lemma_word_cases();
    if spells_either_case(ext, "yaml"@, "YAML"@) {
        lemma_spelled_lowers(ext, "yaml"@, "YAML"@);
    }
    if spells_either_case(ext, "yml"@, "YML"@) {
        lemma_spelled_lowers(ext, "yml"@, "YML"@);
    }
    if spells_either_case(ext, "json"@, "JSON"@) {
        lemma_spelled_lowers(ext, "json"@, "JSON"@);
    }
    if spells_either_case(ext, "toml"@, "TOML"@) {
        lemma_spelled_lowers(ext, "toml"@, "TOML"@);
    }
}

proof fn lemma_lowered_spells(ext: Seq<char>, lower: Seq<char>, upper: Seq<char>)
    requires
        ascii_lower(ext) == lower,
        lower.len() == upper.len(),
        forall|i: int|
            0 <= i < lower.len() ==> 'a' <= #[trigger] lower[i] <= 'z' && (upper[i] as u32) + 32
                == (lower[i] as u32),
    ensures
        spells_either_case(ext, lower, upper),
{
    assert forall|i: int| 0 <= i < ext.len() implies ext[i] == lower[i] || ext[i] == upper[i] by {
        assert(ascii_lower(ext)[i] == lower_char(ext[i]));
        let c = ext[i];
        assert('a' <= lower[i] <= 'z' && (upper[i] as u32) + 32 == (lower[i] as u32));
        if 'A' <= c && c <= 'Z' {
            let v = (c as u32) + 32;
            assert((v as char) as u32 == v);
            assert(lower_char(c) == lower[i]);
            assert(v == lower[i] as u32);
            assert(c as u32 == upper[i] as u32);
            vstd::utf8::char_u32_cast(c, c as u32);
            vstd::utf8::char_u32_cast(upper[i], upper[i] as u32);
            assert(c == upper[i]);
        } else {
            assert(c == lower[i]);
        }
    }
}

proof fn lemma_word_letters()
    ensures
        forall|i: int|
            0 <= i < 4 ==> 'a' <= #[trigger] "yaml"@[i] <= 'z' && ("YAML"@[i] as u32) + 32 == (
            "yaml"@[i] as u32),
        forall|i: int|
            0 <= i < 3 ==> 'a' <= #[trigger] "yml"@[i] <= 'z' && ("YML"@[i] as u32) + 32 == (
            "yml"@[i] as u32),
        forall|i: int|
            0 <= i < 4 ==> 'a' <= #[trigger] "json"@[i] <= 'z' && ("JSON"@[i] as u32) + 32 == (
            "json"@[i] as u32),
        forall|i: int|
            0 <= i < 4 ==> 'a' <= #[trigger] "toml"@[i] <= 'z' && ("TOML"@[i] as u32) + 32 == (
            "toml"@[i] as u32),
        "yaml"@.len() == 4 && "YAML"@.len() == 4 && "yml"@.len() == 3 && "YML"@.len() == 3,
        "json"@.len() == 4 && "JSON"@.len() == 4 && "toml"@.len() == 4 && "TOML"@.len() == 4,
{
    reveal_strlit("yaml");
    reveal_strlit("YAML");
    reveal_strlit("yml");
    reveal_strlit("YML");
    reveal_strlit("json");
    reveal_strlit("JSON");
    reveal_strlit("toml");
    reveal_strlit("TOML");
}

/// A format name is accepted exactly when it spells `yaml` or `yml`,
/// `json` or `toml`, each letter in either case, and it stands for that
/// format; nothing else is accepted.
pub proof fn law_format_names(name: Seq<char>)
    ensures
        format_of_name(name) == Some(ConfigFormat::Yaml) <==> spells_either_case(
            name,
            "yaml"@,
            "YAML"@,
        ) || spells_either_case(name, "yml"@, "YML"@),
        format_of_name(name) == Some(ConfigFormat::Json) <==> spells_either_case(
            name,
            "json"@,
            "JSON"@,
        ),
        format_of_name(name) == Some(ConfigFormat::Toml) <==> spells_either_case(
            name,
            "toml"@,
            "TOML"@,
        ),
{
    lemma_word_cases();
    lemma_word_letters();
    reveal_strlit("yaml");
    reveal_strlit("yml");
    reveal_strlit("json");
    reveal_strlit("toml");
    assert("json"@[0] != "yaml"@[0] && "json"@[0] != "yml"@[0]);
    assert("toml"@[0] != "yaml"@[0] && "toml"@[0] != "yml"@[0] && "toml"@[0] != "json"@[0]);
    let l = ascii_lower(name);
    if l == "yaml"@ {
        lemma_lowered_spells(name, "yaml"@, "YAML"@);
    }
    if l == "yml"@ {
        lemma_lowered_spells(name, "yml"@, "YML"@);
    }
    if l == "json"@ {
        lemma_lowered_spells(name, "json"@, "JSON"@);
    }
    if l == "toml"@ {
        lemma_lowered_spells(name, "toml"@, "TOML"@);
    }
    if spells_either_case(name, "yaml"@, "YAML"@) {
        lemma_spelled_lowers(name, "yaml"@, "YAML"@);
    }
    if spells_either_case(name, "yml"@, "YML"@) {
        lemma_spelled_lowers(name, "yml"@, "YML"@);
    }
    if spells_either_case(name, "json"@, "JSON"@) {
        lemma_spelled_lowers(name, "json"@, "JSON"@);
    }
    if spells_either_case(name, "toml"@, "TOML"@) {
        lemma_spelled_lowers(name, "toml"@, "TOML"@);
    }
}

/// Only those extensions are detected: when a name whose text after its
/// last `.` is `ext` gets a format, `ext` spells `yaml`, `yml`, `json` or
/// `toml` in some mix of cases.
pub proof fn law_detect_only_known_extensions(prefix: Seq<char>, ext: Seq<char>)
    requires
        forall|i: int| 0 <= i < ext.len() ==> ext[i] != '.',
        detected_format(prefix + seq!['.'] + ext) is Some,
    ensures
        spells_either_case(ext, "yaml"@, "YAML"@) || spells_either_case(ext, "yml"@, "YML"@)
            || spells_either_case(ext, "json"@, "JSON"@) || spells_either_case(
            ext,
            "toml"@,
            "TOML"@,
        ),
{
    lemma_segment_after_dot(prefix, ext);
    law_format_names(ext);
}

/// A name without any `.` is its own extension: `yaml`, `YML`, `Json` and
/// the like are detected as their format.
pub proof fn law_detect_name_without_dot(name: Seq<char>)
    requires
        forall|i: int| 0 <= i < name.len() ==> name[i] != '.',
    ensures
        spells_either_case(name, "yaml"@, "YAML"@) || spells_either_case(name, "yml"@, "YML"@)
            ==> detected_format(name) == Some("yaml"@),
        spells_either_case(name, "json"@, "JSON"@) ==> detected_format(name) == Some("json"@),
        spells_either_case(name, "toml"@, "TOML"@) ==> detected_format(name) == Some("toml"@),
        detected_format(name) is Some ==> spells_either_case(name, "yaml"@, "YAML"@)
            || spells_either_case(name, "yml"@, "YML"@) || spells_either_case(
            name,
            "json"@,
            "JSON"@,
        ) || spells_either_case(name, "toml"@, "TOML"@),
{
    lemma_last_segment_split(name, 0);
    assert(name.subrange(0, 0) =~= Seq::<char>::empty());
    assert(name.subrange(0, name.len() as int) =~= name);
    assert(Seq::<char>::empty() + name =~= name);
    law_format_names(name);
}

} // verus!
