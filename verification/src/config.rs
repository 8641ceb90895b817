//! A `key = value` configuration store read from the lines of a file.

use vstd::prelude::*;
use vstd::string::{StrSliceExecFns, StringExecFns};
use crate::error::ConfigError;
use crate::text::{
    is_split_at_first, lemma_split_at_first_unique, parse_bool, parse_u32, parse_u64, parse_usize,
    parses_within, spec_parse_bool, spec_parse_unsigned, spec_trim, split_once, trim,
};

verus! {

/// The text of each string.
pub open spec fn texts(lines: Seq<String>) -> Seq<Seq<char>> {
    lines.map_values(|l: String| l@)
}

/// The texts of the keys and values of stored pairs.
pub open spec fn pair_texts(entries: Seq<(String, String)>) -> Seq<(Seq<char>, Seq<char>)> {
    entries.map_values(|e: (String, String)| (e.0@, e.1@))
}

/// The map that assigns each key its value, later pairs overriding earlier
/// ones.
pub open spec fn pairs_to_map(p: Seq<(Seq<char>, Seq<char>)>) -> Map<Seq<char>, Seq<char>>
    decreases p.len(),
{
    if p.len() == 0 {
        Map::empty()
    } else {
        pairs_to_map(p.drop_last()).insert(p.last().0, p.last().1)
    }
}

/// No key occurs twice.
pub open spec fn keys_distinct(p: Seq<(Seq<char>, Seq<char>)>) -> bool {
    forall|i: int, j: int|
        0 <= i < j < p.len() ==> #[trigger] p[i].0 != #[trigger] p[j].0
}

/// `s` split at its first occurrence of `delim`, as `str::split_once` does.
pub open spec fn spec_split_once(s: Seq<char>, delim: char) -> Option<(Seq<char>, Seq<char>)> {
    if s.contains(delim) {
        Some(choose|b: Seq<char>, a: Seq<char>| is_split_at_first(s, delim, b, a))
    } else {
        None
    }
}

/// The setting that a line makes, if any: blank lines, comments (lines
/// that start with `#` once trimmed) and lines without `=` make none; any
/// other line sets the trimmed text before its first `=` to the trimmed
/// text after it.
pub open spec fn spec_line_setting(line: Seq<char>) -> Option<(Seq<char>, Seq<char>)> {
    let t = spec_trim(line);
    if t.len() == 0 || t[0] == '#' {
        None
    } else {
        match spec_split_once(t, '=') {
            Some((k, v)) => Some((spec_trim(k), spec_trim(v))),
            None => None,
        }
    }
}

/// The settings made by `lines`, read in order.
pub open spec fn spec_config_of(lines: Seq<Seq<char>>) -> Map<Seq<char>, Seq<char>>
    decreases lines.len(),
{
    if lines.len() == 0 {
        Map::empty()
    } else {
        let m = spec_config_of(lines.drop_last());
        match spec_line_setting(lines.last()) {
            Some((k, v)) => m.insert(k, v),
            None => m,
        }
    }
}

/// The result of reading `key` as text: `KeyNotFound` naming the key when
/// it is absent.
pub open spec fn lookup_result(m: Map<Seq<char>, Seq<char>>, key: Seq<char>, r: Result<Seq<char>, ConfigError>) -> bool {
    if m.contains_key(key) {
        r == Ok::<Seq<char>, ConfigError>(m[key])
    } else {
        r matches Err(ConfigError::KeyNotFound(k)) && k@ == key
    }
}

/// The configuration: the settings read from the lines of a file.
pub struct Config {
    entries: Vec<(String, String)>,
}

impl View for Config {
    type V = Map<Seq<char>, Seq<char>>;

    closed spec fn view(&self) -> Map<Seq<char>, Seq<char>> {
        pairs_to_map(pair_texts(self.entries@))
    }
}

proof fn lemma_pairs_lookup(p: Seq<(Seq<char>, Seq<char>)>, i: int)
    requires
        keys_distinct(p),
        0 <= i < p.len(),
    ensures
        pairs_to_map(p).contains_key(p[i].0),
        pairs_to_map(p)[p[i].0] == p[i].1,
    decreases p.len(),
{
    if i < p.len() - 1 {
        let q = p.drop_last();
        assert(q[i] == p[i]);
        assert(keys_distinct(q));
        lemma_pairs_lookup(q, i);
        assert(p[i].0 != p[p.len() - 1].0);
    }
}

proof fn lemma_pairs_absent(p: Seq<(Seq<char>, Seq<char>)>, k: Seq<char>)
    requires
        forall|i: int| 0 <= i < p.len() ==> #[trigger] p[i].0 != k,
    ensures
        !pairs_to_map(p).contains_key(k),
    decreases p.len(),
{
    if p.len() > 0 {
        let q = p.drop_last();
        assert forall|i: int| 0 <= i < q.len() implies #[trigger] q[i].0 != k by {
            assert(q[i] == p[i]);
        }
        lemma_pairs_absent(q, k);
        assert(p[p.len() - 1].0 != k);
    }
}

proof fn lemma_pairs_update(p: Seq<(Seq<char>, Seq<char>)>, i: int, v: Seq<char>)
    requires
        keys_distinct(p),
        0 <= i < p.len(),
    ensures
        pairs_to_map(p.update(i, (p[i].0, v))) == pairs_to_map(p).insert(p[i].0, v),
    decreases p.len(),
{
    let u = p.update(i, (p[i].0, v));
    let q = p.drop_last();
    if i == p.len() - 1 {
        assert(u.drop_last() =~= q);
        assert(pairs_to_map(q).insert(p[i].0, p[i].1).insert(p[i].0, v) =~= pairs_to_map(
            q,
        ).insert(p[i].0, v));
    } else {
        assert(q[i] == p[i]);
        assert(keys_distinct(q));
        lemma_pairs_update(q, i, v);
        assert(u.drop_last() =~= q.update(i, (q[i].0, v)));
        assert(p[i].0 != p[p.len() - 1].0);
        assert(pairs_to_map(u) =~= pairs_to_map(p).insert(p[i].0, v));
    }
}

/// Sets `key` to `value` in a list of pairs with distinct keys.
fn set_pair(entries: &mut Vec<(String, String)>, key: String, value: String)
    requires
        keys_distinct(pair_texts(old(entries)@)),
    ensures
        keys_distinct(pair_texts(final(entries)@)),
        pairs_to_map(pair_texts(final(entries)@)) == pairs_to_map(pair_texts(old(entries)@)).insert(
            key@,
            value@,
        ),
{
    let ghost p = pair_texts(entries@);
    let n = entries.len();
    let mut i: usize = 0;
    while i < n
        invariant
            n == entries.len(),
            i <= n,
            p == pair_texts(entries@),
            keys_distinct(p),
            forall|j: int| 0 <= j < i ==> #[trigger] p[j].0 != key@,
            pairs_to_map(p) == pairs_to_map(pair_texts(old(entries)@)),
        decreases n - i,
    {
        if entries[i].0 == key {
            proof {
                lemma_pairs_update(p, i as int, value@);
            }
            let k = entries[i].0.clone();
            entries.set(i, (k, value));
            assert(pair_texts(entries@) =~= p.update(i as int, (p[i as int].0, value@)));
            return;
        }
        i = i + 1;
    }
    entries.push((key, value));
    assert(pair_texts(entries@) =~= p.push((key@, value@)));
    assert(pair_texts(entries@).drop_last() =~= p);
}

impl Config {
    #[verifier::type_invariant]
    spec fn well_formed(self) -> bool {
        keys_distinct(pair_texts(self.entries@))
    }

    /// Reads the settings from the lines of a configuration file: blank
    /// lines and lines starting with `#` are skipped, any other line is split
    /// at its first `=` into a trimmed key and a trimmed value, and a later
    /// setting of a key replaces an earlier one. Lines without `=` are
    /// ignored.
    pub fn from_lines(lines: &Vec<String>) -> (r: Config)
        ensures
            r@ == spec_config_of(texts(lines@)),
    {
        let mut entries: Vec<(String, String)> = Vec::new();
        let n = lines.len();
        let mut i: usize = 0;
        while i < n
            invariant
                n == lines.len(),
                i <= n,
                keys_distinct(pair_texts(entries@)),
                pairs_to_map(pair_texts(entries@)) == spec_config_of(texts(lines@).take(i as int)),
            decreases n - i,
        {
            let ghost before = texts(lines@).take(i as int);
            assert(texts(lines@).take(i + 1).drop_last() =~= before);
            assert(texts(lines@).take(i + 1).last() == lines@[i as int]@);
            let line = trim(lines[i].as_str());
            if line.unicode_len() > 0 && line.get_char(0) != '#' {
                match split_once(line, '=') {
                    Some((k, v)) => {
                        proof {
                            let (k2, v2) = spec_split_once(line@, '=').unwrap();
                            assert(is_split_at_first(line@, '=', k2, v2));
                            lemma_split_at_first_unique(line@, '=', k@, v@, k2, v2);
                        }
                        set_pair(&mut entries, String::from_str(trim(k)), String::from_str(trim(v)));
                    },
                    None => {},
                }
            }
            i = i + 1;
        }
        assert(texts(lines@).take(n as int) =~= texts(lines@));
        Config { entries }
    }

    /// The text of the value set for `key`, or `KeyNotFound` naming the key.
    pub fn get_string(&self, key: &str) -> (r: Result<&String, ConfigError>)
        ensures
            r is Ok <==> self@.contains_key(key@),
            r matches Ok(v) ==> v@ == self@[key@],
            r matches Err(e) ==> (e matches ConfigError::KeyNotFound(k) && k@ == key@),
            lookup_result(
                self@,
                key@,
                match r {
                    Ok(v) => Ok(v@),
                    Err(e) => Err(e),
                },
            ),
    {
        proof {
            use_type_invariant(self);
        }
        let key_string = String::from_str(key);
        let ghost p = pair_texts(self.entries@);
        let n = self.entries.len();
        let mut i: usize = 0;
        while i < n
            invariant
                n == self.entries@.len(),
                i <= n,
                p == pair_texts(self.entries@),
                keys_distinct(p),
                key_string@ == key@,
                forall|j: int| 0 <= j < i ==> #[trigger] p[j].0 != key@,
            decreases n - i,
        {
            if self.entries[i].0 == key_string {
                proof {
                    lemma_pairs_lookup(p, i as int);
                }
                return Ok(&self.entries[i].1);
            }
            i = i + 1;
        }
        proof {
            lemma_pairs_absent(p, key@);
        }
        Err(ConfigError::KeyNotFound(key_string))
    }

    /// The value set for `key` read as a `usize`: `KeyNotFound` naming the key
    /// when it is absent, `ParseU32` when its text is not an optional `+`
    /// followed by decimal digits whose value fits in `usize`.
    pub fn get_usize(&self, key: &str) -> (r: Result<usize, ConfigError>)
        ensures
            !self@.contains_key(key@) ==> (r matches Err(ConfigError::KeyNotFound(k)) && k@ == key@),
            self@.contains_key(key@) ==> (r is Ok <==> parses_within(self@[key@], usize::MAX as nat)),
            self@.contains_key(key@) && r is Err ==> r matches Err(ConfigError::ParseU32(_)),
            r matches Ok(n) ==> spec_parse_unsigned(self@[key@]) == Some(n as nat),
    {
        match self.get_string(key) {
            Err(e) => Err(e),
            Ok(text) => match parse_usize(text.as_str()) {
                Ok(n) => Ok(n),
                Err(e) => Err(ConfigError::ParseU32(e)),
            },
        }
    }

    /// The value set for `key` read as a `u64`: `KeyNotFound` naming the key
    /// when it is absent, `ParseU32` when its text is not an optional `+`
    /// followed by decimal digits whose value fits in `u64`.
    pub fn get_u64(&self, key: &str) -> (r: Result<u64, ConfigError>)
        ensures
            !self@.contains_key(key@) ==> (r matches Err(ConfigError::KeyNotFound(k)) && k@ == key@),
            self@.contains_key(key@) ==> (r is Ok <==> parses_within(self@[key@], u64::MAX as nat)),
            self@.contains_key(key@) && r is Err ==> r matches Err(ConfigError::ParseU32(_)),
            r matches Ok(n) ==> spec_parse_unsigned(self@[key@]) == Some(n as nat),
    {
        match self.get_string(key) {
            Err(e) => Err(e),
            Ok(text) => match parse_u64(text.as_str()) {
                Ok(n) => Ok(n),
                Err(e) => Err(ConfigError::ParseU32(e)),
            },
        }
    }

    /// The value set for `key` read as a `u32`: `KeyNotFound` naming the key
    /// when it is absent, `ParseU32` when its text is not an optional `+`
    /// followed by decimal digits whose value fits in `u32`.
    pub fn get_u32(&self, key: &str) -> (r: Result<u32, ConfigError>)
        ensures
            !self@.contains_key(key@) ==> (r matches Err(ConfigError::KeyNotFound(k)) && k@ == key@),
            self@.contains_key(key@) ==> (r is Ok <==> parses_within(self@[key@], u32::MAX as nat)),
            self@.contains_key(key@) && r is Err ==> r matches Err(ConfigError::ParseU32(_)),
            r matches Ok(n) ==> spec_parse_unsigned(self@[key@]) == Some(n as nat),
    {
        match self.get_string(key) {
            Err(e) => Err(e),
            Ok(text) => match parse_u32(text.as_str()) {
                Ok(n) => Ok(n),
                Err(e) => Err(ConfigError::ParseU32(e)),
            },
        }
    }

    /// The value set for `key` read as a `bool`: `KeyNotFound` naming the key
    /// when it is absent, `ParseBool` when its text is neither `true` nor
    /// `false`.
    pub fn get_bool(self, key: &str) -> (r: Result<bool, ConfigError>)
        ensures
            !self@.contains_key(key@) ==> (r matches Err(ConfigError::KeyNotFound(k)) && k@ == key@),
            self@.contains_key(key@) ==> (r is Ok <==> spec_parse_bool(self@[key@]) is Some),
            self@.contains_key(key@) && r is Err ==> r matches Err(ConfigError::ParseBool(_)),
            r matches Ok(b) ==> spec_parse_bool(self@[key@]) == Some(b),
    {
        match self.get_string(key) {
            Err(e) => Err(e),
            Ok(text) => match parse_bool(text.as_str()) {
                Ok(b) => Ok(b),
                Err(e) => Err(ConfigError::ParseBool(e)),
            },
        }
    }
}

/// A setting overrides every earlier setting of the same key, and leaves
/// the other keys as they were.
pub proof fn lemma_later_setting_wins(lines: Seq<Seq<char>>, line: Seq<char>, key: Seq<char>, value: Seq<char>)
    requires
        spec_line_setting(line) == Some((key, value)),
    ensures
        spec_config_of(lines.push(line)) == spec_config_of(lines).insert(key, value),
        spec_config_of(lines.push(line))[key] == value,
{
    assert(lines.push(line).drop_last() =~= lines);
}

/// Blank lines and comment lines change no setting.
pub proof fn lemma_comment_ignored(lines: Seq<Seq<char>>, line: Seq<char>)
    requires
        spec_trim(line).len() == 0 || spec_trim(line)[0] == '#',
    ensures
        spec_config_of(lines.push(line)) == spec_config_of(lines),
{
    assert(lines.push(line).drop_last() =~= lines);
}

/// A line that makes no setting (blank once trimmed, a comment starting with
/// `#`, or one without `=`) leaves every setting made by the earlier lines as
/// it was.
pub proof fn lemma_line_without_setting_ignored(lines: Seq<Seq<char>>, line: Seq<char>)
    requires
        spec_trim(line).len() == 0 || spec_trim(line)[0] == '#' || !spec_trim(line).contains('='),
    ensures
        spec_config_of(lines.push(line)) == spec_config_of(lines),
{
    assert(lines.push(line).drop_last() =~= lines);
}

/// A line `key = value` (once trimmed, not a comment, split at its first
/// `=`) sets the trimmed key to the trimmed value and keeps every other
/// setting made by the earlier lines.
pub proof fn lemma_setting_line(lines: Seq<Seq<char>>, line: Seq<char>, key: Seq<char>, value: Seq<char>)
    requires
        spec_trim(line).len() > 0,
        spec_trim(line)[0] != '#',
        is_split_at_first(spec_trim(line), '=', key, value),
    ensures
        spec_config_of(lines.push(line)) == spec_config_of(lines).insert(
            spec_trim(key),
            spec_trim(value),
        ),
        spec_config_of(lines.push(line))[spec_trim(key)] == spec_trim(value),
        forall|k: Seq<char>|
            k != spec_trim(key) ==> (#[trigger] spec_config_of(lines.push(line)).contains_key(k)
                <==> spec_config_of(lines).contains_key(k)) && (spec_config_of(lines).contains_key(k)
                ==> spec_config_of(lines.push(line))[k] == spec_config_of(lines)[k]),
{
    let t = spec_trim(line);
    assert(lines.push(line).drop_last() =~= lines);
    assert(t[key.len() as int] == '=');
    assert(t.contains('='));
    let (k2, v2) = spec_split_once(t, '=').unwrap();
    assert(is_split_at_first(t, '=', k2, v2));
    lemma_split_at_first_unique(t, '=', key, value, k2, v2);
}

} // verus!
