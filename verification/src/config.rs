//! The settings the server starts with.

use vstd::prelude::*;

use crate::handlers::blob::split_on;
use crate::handlers::util::opt_view;
use crate::text::{chars_of, dec_nat, digit_char, push_dec, push_str, string_of, trim, trim_ws_end, trim_ws_start};

verus! {

/// Where the repositories are, how the site is titled and owned, and where
/// the server listens.
#[derive(Debug)]
pub struct AppConfig {
    pub repos_path: String,
    pub site_title: String,
    pub owner: String,
    pub host: String,
    pub port: u16,
}

/// Why the settings could not be read.
#[derive(Debug)]
pub enum ConfigError {
    /// A required setting is not set; its name.
    Missing(&'static str),
    /// PORT is not a port number.
    BadPort,
    /// Line `n` (from 1) of the settings file is neither blank, a comment,
    /// nor a `key = value` setting.
    BadLine(usize),
    /// A key is set twice in the settings file.
    DuplicateKey(String),
    /// A key of the settings file has a value of the wrong type.
    WrongType(&'static str),
    /// A required key is missing from the settings file.
    MissingKey(&'static str),
}

/// The value of a decimal numeral.
pub open spec fn decimal_value(s: Seq<char>) -> nat
    decreases s.len(),
{
    if s.len() == 0 {
        0
    } else {
        decimal_value(s.drop_last()) * 10 + ((s.last() as nat) - ('0' as nat)) as nat
    }
}

/// Whether every character is an ASCII digit.
pub open spec fn all_digits(s: Seq<char>) -> bool {
    forall|i: int| 0 <= i < s.len() ==> '0' <= #[trigger] s[i] <= '9'
}

/// The port number a setting names, as `str::parse::<u16>` reads it: an
/// optional '+' and then at least one digit, with a value that fits.
pub open spec fn port_value(s: Seq<char>) -> Option<u16> {
    let d = if s.len() > 0 && s[0] == '+' {
        s.drop_first()
    } else {
        s
    };
    if d.len() > 0 && all_digits(d) && decimal_value(d) <= 65535 {
        Some(decimal_value(d) as u16)
    } else {
        None
    }
}

/// Reads a port number (see `port_value`).
pub fn parse_port(s: &str) -> (r: Option<u16>)
    ensures
        r == port_value(s@),
{
    let cs = chars_of(s);
    let start: usize = if cs.len() > 0 && cs[0] == '+' {
        1
    } else {
        0
    };
    let ghost d = if s@.len() > 0 && s@[0] == '+' {
        s@.drop_first()
    } else {
        s@
    };
    assert(d =~= cs@.skip(start as int));
    if start >= cs.len() {
        return None;
    }
    let mut acc: u32 = 0;
    let mut i: usize = start;
    assert(cs@.subrange(start as int, start as int) =~= Seq::<char>::empty());
    while i < cs.len()
        invariant
            start <= i <= cs@.len(),
            cs@ == s@,
            d == cs@.skip(start as int),
            d == (if s@.len() > 0 && s@[0] == '+' { s@.drop_first() } else { s@ }),
            all_digits(cs@.subrange(start as int, i as int)),
            acc == if decimal_value(cs@.subrange(start as int, i as int)) < 65536 {
                decimal_value(cs@.subrange(start as int, i as int))
            } else {
                65536
            },
        decreases cs.len() - i,
    {
        let c = cs[i];
        if c < '0' || c > '9' {
            assert(!all_digits(d)) by {
                assert(d[i - start] == c);
            }
            assert(port_value(s@) is None);
            return None;
        }
        let digit: u32 = (c as u32) - ('0' as u32);
        assert(cs@.subrange(start as int, i + 1).drop_last() =~= cs@.subrange(start as int, i as int));
        if acc >= 6554 {
            acc = 65536;
        } else {
            acc = acc * 10 + digit;
            if acc > 65536 {
                acc = 65536;
            }
        }
        i += 1;
        assert(all_digits(cs@.subrange(start as int, i as int))) by {
            assert forall|k: int| 0 <= k < i - start implies '0' <= #[trigger] cs@.subrange(start as int, i as int)[k]
                <= '9' by {
                if k < i - 1 - start {
                    assert(cs@.subrange(start as int, i as int)[k] == cs@.subrange(start as int, i - 1)[k]);
                }
            }
        }
    }
    assert(cs@.subrange(start as int, cs@.len() as int) =~= d);
    if acc > 65535 {
        None
    } else {
        Some(acc as u16)
    }
}

/// The settings from the values of REPOS_PATH, SITE_TITLE, OWNER, HOST and
/// PORT (none when unset): the first missing one, in that order, or a PORT
/// that is not a port number, is an error.
pub fn config_from_vars(
    repos_path: Option<String>,
    site_title: Option<String>,
    owner: Option<String>,
    host: Option<String>,
    port: Option<String>,
) -> (r: Result<AppConfig, ConfigError>)
    ensures
        repos_path is None ==> r == Err::<AppConfig, ConfigError>(ConfigError::Missing("REPOS_PATH")),
        repos_path is Some && site_title is None ==> r == Err::<AppConfig, ConfigError>(
            ConfigError::Missing("SITE_TITLE"),
        ),
        repos_path is Some && site_title is Some && owner is None ==> r == Err::<AppConfig, ConfigError>(
            ConfigError::Missing("OWNER"),
        ),
        repos_path is Some && site_title is Some && owner is Some && host is None ==> r == Err::<
            AppConfig,
            ConfigError,
        >(ConfigError::Missing("HOST")),
        repos_path is Some && site_title is Some && owner is Some && host is Some && port is None ==> r
            == Err::<AppConfig, ConfigError>(ConfigError::Missing("PORT")),
        repos_path is Some && site_title is Some && owner is Some && host is Some && port is Some ==> match
            port_value(port.unwrap()@) {
            None => r == Err::<AppConfig, ConfigError>(ConfigError::BadPort),
            Some(p) => r is Ok && r.unwrap().repos_path == repos_path.unwrap() && r.unwrap().site_title
                == site_title.unwrap() && r.unwrap().owner == owner.unwrap() && r.unwrap().host == host.unwrap()
                && r.unwrap().port == p,
        },
{
    let repos_path = match repos_path {
        Some(v) => v,
        None => return Err(ConfigError::Missing("REPOS_PATH")),
    };
    let site_title = match site_title {
        Some(v) => v,
        None => return Err(ConfigError::Missing("SITE_TITLE")),
    };
    let owner = match owner {
        Some(v) => v,
        None => return Err(ConfigError::Missing("OWNER")),
    };
    let host = match host {
        Some(v) => v,
        None => return Err(ConfigError::Missing("HOST")),
    };
    let port_text = match port {
        Some(v) => v,
        None => return Err(ConfigError::Missing("PORT")),
    };
    match parse_port(port_text.as_str()) {
        Some(port) => Ok(AppConfig { repos_path, site_title, owner, host, port }),
        None => Err(ConfigError::BadPort),
    }
}

/// The message an error is reported with.
pub open spec fn config_error_message(e: ConfigError) -> Seq<char> {
    match e {
        ConfigError::Missing(name) => "missing required env var: "@ + name@,
        ConfigError::BadPort => "failed to parse PORT as an integer"@,
        ConfigError::BadLine(n) => "config.toml: invalid line "@ + dec_nat(n as nat),
        ConfigError::DuplicateKey(k) => "config.toml: duplicate key "@ + k@,
        ConfigError::WrongType(k) => "config.toml: wrong type for "@ + k@,
        ConfigError::MissingKey(k) => "config.toml: missing "@ + k@,
    }
}

impl ConfigError {
    /// The message this error is reported with (see `config_error_message`).
    pub fn message(&self) -> (r: String)
        ensures
            r@ == config_error_message(*self),
    {
        let mut out = String::new();
        match self {
            ConfigError::Missing(name) => {
                push_str(&mut out, "missing required env var: ");
                push_str(&mut out, name);
            },
            ConfigError::BadPort => {
                push_str(&mut out, "failed to parse PORT as an integer");
            },
            ConfigError::BadLine(n) => {
                push_str(&mut out, "config.toml: invalid line ");
                push_dec(&mut out, *n as u64);
            },
            ConfigError::DuplicateKey(k) => {
                push_str(&mut out, "config.toml: duplicate key ");
                push_str(&mut out, k.as_str());
            },
            ConfigError::WrongType(k) => {
                push_str(&mut out, "config.toml: wrong type for ");
                push_str(&mut out, k);
            },
            ConfigError::MissingKey(k) => {
                push_str(&mut out, "config.toml: missing ");
                push_str(&mut out, k);
            },
        }
        out
    }
}

proof fn lemma_digit_value(d: nat)
    requires
        d < 10,
    ensures
        (digit_char(d) as nat) - ('0' as nat) == d,
        '0' <= digit_char(d) <= '9',
{
    assert(((48 + d) as u32) as nat == 48 + d);
    assert((((48 + d) as u32) as char) as nat == 48 + d);
}

proof fn lemma_decimal_round_trip(n: nat)
    ensures
        dec_nat(n).len() > 0,
        all_digits(dec_nat(n)),
        decimal_value(dec_nat(n)) == n,
    decreases n,
{
    lemma_digit_value(n % 10);
    if n < 10 {
        assert(dec_nat(n) == seq![digit_char(n)]);
        assert(seq![digit_char(n)].drop_last() =~= Seq::<char>::empty());
        assert(decimal_value(Seq::<char>::empty()) == 0);
        assert(n % 10 == n);
        assert(decimal_value(dec_nat(n)) == decimal_value(Seq::<char>::empty()) * 10 + ((digit_char(n) as nat) - ('0' as nat)) as nat);
    } else {
        lemma_decimal_round_trip(n / 10);
        let d = dec_nat(n);
        assert(d == dec_nat(n / 10).push(digit_char(n % 10)));
        assert(d.drop_last() =~= dec_nat(n / 10));
        assert(d.last() == digit_char(n % 10));
        assert(n == (n / 10) * 10 + n % 10);
        assert(decimal_value(d) == decimal_value(dec_nat(n / 10)) * 10 + ((digit_char(n % 10) as nat) - ('0' as nat)) as nat);
        assert forall|i: int| 0 <= i < d.len() implies '0' <= #[trigger] d[i] <= '9' by {
            if i < d.len() - 1 {
                assert(d[i] == dec_nat(n / 10)[i]);
            }
        }
    }
}

/// A port written in decimal reads back as itself.
pub proof fn law_port_round_trip(p: u16)
    ensures
        port_value(dec_nat(p as nat)) == Some(p),
{
    lemma_decimal_round_trip(p as nat);
    let s = dec_nat(p as nat);
    assert('0' <= s[0] <= '9');
}

/// `s` without surrounding whitespace.
pub open spec fn trimmed(s: Seq<char>) -> Seq<char> {
    trim_ws_end(trim_ws_start(s))
}

/// A character of a bare key: ASCII letter, digit, '_' or '-'.
pub open spec fn is_key_char(c: char) -> bool {
    ('a' <= c && c <= 'z') || ('A' <= c && c <= 'Z') || ('0' <= c && c <= '9') || c == '_' || c == '-'
}

/// A bare key: one or more key characters.
pub open spec fn is_bare_key(k: Seq<char>) -> bool {
    k.len() > 0 && forall|i: int| 0 <= i < k.len() ==> is_key_char(#[trigger] k[i])
}

/// Whether `i` is where the first '=' of `s` stands.
pub open spec fn is_first_eq(s: Seq<char>, i: int) -> bool {
    0 <= i < s.len() && s[i] == '=' && forall|k: int| 0 <= k < i ==> s[k] != '='
}

/// One line of the settings file: none when it is malformed; a blank or
/// comment line holds no setting; otherwise the key and the raw value
/// around its first '=', each trimmed.
pub open spec fn setting_of_line(line: Seq<char>) -> Option<Option<(Seq<char>, Seq<char>)>> {
    let t = trimmed(line);
    if t.len() == 0 || t[0] == '#' {
        Some(None)
    } else if exists|i: int| is_first_eq(t, i) {
        let i = choose|i: int| is_first_eq(t, i);
        let key = trimmed(t.take(i));
        let value = trimmed(t.skip(i + 1));
        if is_bare_key(key) && value.len() > 0 {
            Some(Some((key, value)))
        } else {
            None
        }
    } else {
        None
    }
}

/// The settings of the lines, in order, or the number (from 1) of the first
/// malformed line.
pub open spec fn settings_of(lines: Seq<Seq<char>>) -> Result<Seq<(Seq<char>, Seq<char>)>, nat>
    decreases lines.len(),
{
    if lines.len() == 0 {
        Ok(Seq::empty())
    } else {
        match settings_of(lines.drop_last()) {
            Err(n) => Err(n),
            Ok(prev) => match setting_of_line(lines.last()) {
                None => Err(lines.len()),
                Some(None) => Ok(prev),
                Some(Some(e)) => Ok(prev.push(e)),
            },
        }
    }
}

/// The first key, in order, that was already set before.
pub open spec fn first_duplicate(entries: Seq<(Seq<char>, Seq<char>)>) -> Option<Seq<char>>
    decreases entries.len(),
{
    if entries.len() == 0 {
        None
    } else {
        match first_duplicate(entries.drop_last()) {
            Some(k) => Some(k),
            None => if exists|i: int| 0 <= i < entries.len() - 1 && #[trigger] entries[i].0 == entries.last().0 {
                Some(entries.last().0)
            } else {
                None
            },
        }
    }
}

/// The raw value of `key`, if it is set.
pub open spec fn setting_value(entries: Seq<(Seq<char>, Seq<char>)>, key: Seq<char>) -> Option<Seq<char>>
    decreases entries.len(),
{
    if entries.len() == 0 {
        None
    } else if entries.last().0 == key {
        Some(entries.last().1)
    } else {
        setting_value(entries.drop_last(), key)
    }
}

/// A quoted text value: the characters between two double quotes, none of
/// them a quote or a backslash.
pub open spec fn text_value(v: Seq<char>) -> Option<Seq<char>> {
    if v.len() >= 2 && v[0] == '"' && v.last() == '"' && forall|i: int|
        1 <= i < v.len() - 1 ==> #[trigger] v[i] != '"' && v[i] != '\\' {
        Some(v.subrange(1, v.len() - 1))
    } else {
        None
    }
}

fn parse_setting_line(line: &str) -> (r: Option<Option<(String, String)>>)
    ensures
        match r {
            None => setting_of_line(line@) is None,
            Some(None) => setting_of_line(line@) == Some(None::<(Seq<char>, Seq<char>)>),
            Some(Some((k, v))) => setting_of_line(line@) == Some(Some((k@, v@))),
        },
{
    let t = trim(line);
    let cs = chars_of(t.as_str());
    if cs.len() == 0 || cs[0] == '#' {
        return Some(None);
    }
    let mut i: usize = 0;
    while i < cs.len() && cs[i] != '='
        invariant
            i <= cs@.len(),
            cs@ == trimmed(line@),
            forall|k: int| 0 <= k < i ==> cs@[k] != '=',
        decreases cs.len() - i,
    {
        i += 1;
    }
    if i == cs.len() {
        assert(!exists|j: int| is_first_eq(cs@, j));
        return None;
    }
    assert(is_first_eq(cs@, i as int));
    proof {
        let j = choose|j: int| is_first_eq(cs@, j);
        if j < i {
            assert(cs@[j] == '=');
        } else if j > i {
            assert(cs@[i as int] == '=');
        }
        assert(j == i);
    }
    let mut head: Vec<char> = Vec::new();
    let mut k: usize = 0;
    while k < i
        invariant
            k <= i < cs@.len(),
            head@ == cs@.take(k as int),
        decreases i - k,
    {
        head.push(cs[k]);
        k += 1;
        assert(head@ =~= cs@.take(k as int));
    }
    let mut tail: Vec<char> = Vec::new();
    let mut m: usize = i + 1;
    while m < cs.len()
        invariant
            i < m <= cs@.len(),
            tail@ == cs@.subrange(i + 1, m as int),
        decreases cs.len() - m,
    {
        tail.push(cs[m]);
        m += 1;
        assert(tail@ =~= cs@.subrange(i + 1, m as int));
    }
    assert(tail@ =~= cs@.skip(i + 1));
    let key = trim(string_of(&head).as_str());
    let value = trim(string_of(&tail).as_str());
    proof {
        let j = choose|j: int| is_first_eq(cs@, j);
        assert(j == i);
        assert(key@ == trimmed(cs@.take(j)));
        assert(value@ == trimmed(cs@.skip(j + 1)));
    }
    let kc = chars_of(key.as_str());
    let ghost t = trimmed(line@);
    assert(t == cs@);
    assert(exists|j: int| is_first_eq(t, j));
    assert((choose|j: int| is_first_eq(t, j)) == i);
    if kc.len() == 0 || value.as_str().is_empty() {
        assert(!is_bare_key(key@) || value@.len() == 0);
        return None;
    }
    assert(trimmed(t.take(i as int)) == key@);
    assert(trimmed(t.skip(i + 1)) == value@);
    assert(setting_of_line(line@) == (if is_bare_key(key@) && value@.len() > 0 {
        Some(Some((key@, value@)))
    } else {
        None
    }));
    let mut q: usize = 0;
    while q < kc.len()
        invariant
            q <= kc@.len(),
            kc@ == key@,
            kc@.len() > 0,
            value@.len() > 0,
            setting_of_line(line@) == (if is_bare_key(key@) && value@.len() > 0 {
                Some(Some((key@, value@)))
            } else {
                None
            }),
            forall|j: int| 0 <= j < q ==> is_key_char(#[trigger] kc@[j]),
        decreases kc.len() - q,
    {
        let c = kc[q];
        if !(('a' <= c && c <= 'z') || ('A' <= c && c <= 'Z') || ('0' <= c && c <= '9') || c == '_' || c == '-') {
            assert(!is_key_char(kc@[q as int]));
            return None;
        }
        q += 1;
    }
    Some(Some((key, value)))
}

/// Reads the settings of a settings file, in order, or the number of its
/// first malformed line (see `settings_of`).
pub fn parse_settings(text: &str) -> (r: Result<Vec<(String, String)>, usize>)
    ensures
        match r {
            Ok(v) => settings_of(split_on(text@, '\n')) == Ok::<Seq<(Seq<char>, Seq<char>)>, nat>(
                v@.map_values(|e: (String, String)| (e.0@, e.1@)),
            ),
            Err(n) => settings_of(split_on(text@, '\n')) == Err::<Seq<(Seq<char>, Seq<char>)>, nat>(n as nat),
        },
{
    let cs = chars_of(text);
    let mut entries: Vec<(String, String)> = Vec::new();
    assert(entries@.map_values(|e: (String, String)| (e.0@, e.1@)) =~= Seq::<(Seq<char>, Seq<char>)>::empty());
    let mut cur: Vec<char> = Vec::new();
    let mut done: usize = 0;
    let ghost mut lines: Seq<Seq<char>> = Seq::empty();
    let mut i: usize = 0;
    assert(cs@.take(0) =~= Seq::<char>::empty());
    while i < cs.len()
        invariant
            i <= cs@.len(),
            cs@ == text@,
            lines.push(cur@) == split_on(cs@.take(i as int), '\n'),
            done == lines.len(),
            done + cur@.len() <= i,
            settings_of(lines) == Ok::<Seq<(Seq<char>, Seq<char>)>, nat>(
                entries@.map_values(|e: (String, String)| (e.0@, e.1@)),
            ),
        decreases cs.len() - i,
    {
        assert(cs@.take(i + 1).drop_last() =~= cs@.take(i as int));
        if cs[i] == '\n' {
            let line = string_of(&cur);
            let ghost old_entries = entries@;
            match parse_setting_line(line.as_str()) {
                None => {
                    proof {
                        let ls = lines.push(cur@);
                        assert(ls.drop_last() =~= lines);
                        assert(settings_of(ls) == Err::<Seq<(Seq<char>, Seq<char>)>, nat>((done + 1) as nat));
                        assert(cs@.take(i + 1) =~= cs@.take(i + 1));
                        assert(split_on(cs@.take(i + 1), '\n') == ls.push(Seq::empty()));
                        assert(split_on(cs@.take(i + 1), '\n').drop_last() =~= ls);
                        lemma_split_on_prefix(cs@, i + 1);
                        lemma_settings_prefix(ls, split_on(cs@, '\n'));
                    }
                    return Err(done + 1);
                },
                Some(None) => {},
                Some(Some(e)) => {
                    entries.push(e);
                    assert(entries@.map_values(|e: (String, String)| (e.0@, e.1@)) =~= old_entries.map_values(
                        |e: (String, String)| (e.0@, e.1@),
                    ).push((entries@.last().0@, entries@.last().1@)));
                },
            }
            proof {
                let ls = lines.push(cur@);
                assert(ls.drop_last() =~= lines);
                lines = ls;
            }
            cur = Vec::new();
            done += 1;
            assert(lines.push(cur@) =~= split_on(cs@.take(i as int), '\n').push(Seq::empty()));
        } else {
            let ghost before = lines.push(cur@);
            cur.push(cs[i]);
            assert(lines.push(cur@) =~= before.update(before.len() - 1, before.last().push(cs@[i as int])));
        }
        i += 1;
    }
    assert(cs@.take(cs@.len() as int) =~= cs@);
    let line = string_of(&cur);
    let ghost old_entries = entries@;
    let ghost all = lines.push(cur@);
    assert(all.drop_last() =~= lines);
    match parse_setting_line(line.as_str()) {
        None => {
            proof {
                if cur@.len() == 0 {
                    reveal_with_fuel(trim_ws_start, 1);
                    reveal_with_fuel(trim_ws_end, 1);
                    assert(trimmed(cur@).len() == 0);
                }
            }
            return Err(done + 1);
        },
        Some(None) => {},
        Some(Some(e)) => {
            entries.push(e);
            assert(entries@.map_values(|e: (String, String)| (e.0@, e.1@)) =~= old_entries.map_values(
                |e: (String, String)| (e.0@, e.1@),
            ).push((entries@.last().0@, entries@.last().1@)));
        },
    }
    Ok(entries)
}

/// Whether `a` begins `b`.
pub open spec fn is_prefix_of<T>(a: Seq<T>, b: Seq<T>) -> bool {
    a.len() <= b.len() && b.take(a.len() as int) == a
}

/// The pieces completed within a prefix of a text are pieces of the text.
proof fn lemma_split_on_prefix(s: Seq<char>, j: int)
    requires
        0 <= j <= s.len(),
    ensures
        is_prefix_of(split_on(s.take(j), '\n').drop_last(), split_on(s, '\n')),
    decreases s.len() - j,
{
    crate::handlers::blob::lemma_split_on_nonempty(s.take(j), '\n');
    if j == s.len() {
        assert(s.take(j) =~= s);
    } else {
        lemma_split_on_prefix(s, j + 1);
        let p = split_on(s.take(j), '\n');
        let q = split_on(s.take(j + 1), '\n');
        assert(s.take(j + 1).drop_last() =~= s.take(j));
        crate::handlers::blob::lemma_split_on_nonempty(s.take(j + 1), '\n');
        let full = split_on(s, '\n');
        if s[j] == '\n' {
            assert(q == p.push(Seq::empty()));
            assert(q.drop_last() =~= p);
            assert(full.take(p.len() - 1) =~= q.drop_last().take(p.len() - 1));
            assert(p.drop_last() =~= p.take(p.len() - 1));
        } else {
            assert(q.drop_last() =~= p.drop_last());
        }
    }
}

/// A malformed line stays the first malformed one as more lines follow.
proof fn lemma_settings_prefix(a: Seq<Seq<char>>, b: Seq<Seq<char>>)
    requires
        is_prefix_of(a, b),
        settings_of(a) is Err,
    ensures
        settings_of(b) == settings_of(a),
    decreases b.len(),
{
    if b.len() == a.len() {
        assert(b.take(a.len() as int) =~= b);
    } else {
        assert(b.drop_last().take(a.len() as int) =~= b.take(a.len() as int));
        lemma_settings_prefix(a, b.drop_last());
    }
}

/// Views of settings.
pub open spec fn setting_views(v: Seq<(String, String)>) -> Seq<(Seq<char>, Seq<char>)> {
    v.map_values(|e: (String, String)| (e.0@, e.1@))
}

fn find_setting(entries: &Vec<(String, String)>, key: &str) -> (r: Option<String>)
    ensures
        opt_view(r) == setting_value(setting_views(entries@), key@),
{
    let ghost ev = setting_views(entries@);
    let mut i: usize = entries.len();
    assert(ev.take(ev.len() as int) =~= ev);
    while i > 0
        invariant
            i <= entries@.len(),
            ev == setting_views(entries@),
            setting_value(ev.take(i as int), key@) == setting_value(ev, key@),
        decreases i,
    {
        assert(ev.take(i as int).drop_last() =~= ev.take(i - 1));
        if crate::text::str_eq(entries[i - 1].0.as_str(), key) {
            return Some(entries[i - 1].1.clone());
        }
        i -= 1;
    }
    None
}

fn parse_text_value(v: &str) -> (r: Option<String>)
    ensures
        opt_view(r) == text_value(v@),
{
    let cs = chars_of(v);
    if cs.len() < 2 || cs[0] != '"' || cs[cs.len() - 1] != '"' {
        return None;
    }
    let mut out: Vec<char> = Vec::new();
    let mut i: usize = 1;
    while i < cs.len() - 1
        invariant
            1 <= i <= cs@.len() - 1,
            cs@ == v@,
            cs@.len() >= 2,
            out@ == cs@.subrange(1, i as int),
            forall|k: int| 1 <= k < i ==> #[trigger] cs@[k] != '"' && cs@[k] != '\\',
        decreases cs.len() - 1 - i,
    {
        if cs[i] == '"' || cs[i] == '\\' {
            return None;
        }
        out.push(cs[i]);
        i += 1;
        assert(out@ =~= cs@.subrange(1, i as int));
    }
    Some(string_of(&out))
}

proof fn lemma_first_duplicate_prefix(s: Seq<(Seq<char>, Seq<char>)>, k: int)
    requires
        0 <= k <= s.len(),
        first_duplicate(s.take(k)) is Some,
    ensures
        first_duplicate(s) == first_duplicate(s.take(k)),
    decreases s.len() - k,
{
    if k == s.len() {
        assert(s.take(k) =~= s);
    } else {
        assert(s.take(k + 1).drop_last() =~= s.take(k));
        assert(first_duplicate(s.take(k + 1)) == first_duplicate(s.take(k)));
        lemma_first_duplicate_prefix(s, k + 1);
    }
}

fn first_duplicate_key(entries: &Vec<(String, String)>) -> (r: Option<String>)
    ensures
        opt_view(r) == first_duplicate(setting_views(entries@)),
{
    let ghost ev = setting_views(entries@);
    let mut j: usize = 0;
    assert(ev.take(0) =~= Seq::<(Seq<char>, Seq<char>)>::empty());
    while j < entries.len()
        invariant
            j <= entries@.len(),
            ev == setting_views(entries@),
            first_duplicate(ev.take(j as int)) is None,
        decreases entries.len() - j,
    {
        let mut i: usize = 0;
        while i < j
            invariant
                i <= j < entries@.len(),
                ev == setting_views(entries@),
                forall|k: int| 0 <= k < i ==> #[trigger] ev[k].0 != ev[j as int].0,
                first_duplicate(ev.take(j as int)) is None,
            decreases j - i,
        {
            if crate::text::str_eq(entries[i].0.as_str(), entries[j].0.as_str()) {
                proof {
                    let pre = ev.take(j + 1);
                    assert(pre.drop_last() =~= ev.take(j as int));
                    assert(pre[i as int].0 == pre.last().0);
                    assert(first_duplicate(pre) == Some(ev[j as int].0));
                    lemma_first_duplicate_prefix(ev, j + 1);
                }
                return Some(entries[j].0.clone());
            }
            i += 1;
        }
        proof {
            let pre = ev.take(j + 1);
            assert(pre.drop_last() =~= ev.take(j as int));
            assert forall|k: int| 0 <= k < pre.len() - 1 implies #[trigger] pre[k].0 != pre.last().0 by {
                assert(pre[k] == ev[k]);
            }
        }
        j += 1;
    }
    assert(ev.take(entries@.len() as int) =~= ev);
    None
}

/// What the settings file gives for a text key: none when the key is not
/// set, else its text, if its value is a quoted text.
pub open spec fn text_setting(entries: Seq<(Seq<char>, Seq<char>)>, key: Seq<char>) -> Option<Option<Seq<char>>> {
    match setting_value(entries, key) {
        None => None,
        Some(v) => Some(text_value(v)),
    }
}

fn text_key(entries: &Vec<(String, String)>, key: &'static str) -> (r: Result<String, ConfigError>)
    ensures
        match text_setting(setting_views(entries@), key@) {
            None => r == Err::<String, ConfigError>(ConfigError::MissingKey(key)),
            Some(None) => r == Err::<String, ConfigError>(ConfigError::WrongType(key)),
            Some(Some(t)) => r is Ok && r.unwrap()@ == t,
        },
{
    match find_setting(entries, key) {
        None => Err(ConfigError::MissingKey(key)),
        Some(v) => match parse_text_value(v.as_str()) {
            None => Err(ConfigError::WrongType(key)),
            Some(t) => Ok(t),
        },
    }
}

/// The settings from the text of config.toml: `key = value` lines, blank
/// lines and '#' comments; repos_path, site_title, owner and host are
/// quoted texts and port a port number. The first malformed line, then the
/// first key set twice, then the first of those keys missing or of the
/// wrong type, in that order, is the error.
pub fn config_from_toml(text: &str) -> (r: Result<AppConfig, ConfigError>)
    ensures
        match settings_of(split_on(text@, '\n')) {
            Err(n) => r is Err && (r->Err_0 matches ConfigError::BadLine(m) && m == n),
            Ok(es) => match first_duplicate(es) {
                Some(k) => r is Err && (r->Err_0 matches ConfigError::DuplicateKey(d) && d@ == k),
                None => {
                    let rp = text_setting(es, "repos_path"@);
                    let st = text_setting(es, "site_title"@);
                    let ow = text_setting(es, "owner"@);
                    let ho = text_setting(es, "host"@);
                    let po = setting_value(es, "port"@);
                    if rp is None {
                        r == Err::<AppConfig, ConfigError>(ConfigError::MissingKey("repos_path"))
                    } else if rp == Some(None::<Seq<char>>) {
                        r == Err::<AppConfig, ConfigError>(ConfigError::WrongType("repos_path"))
                    } else if st is None {
                        r == Err::<AppConfig, ConfigError>(ConfigError::MissingKey("site_title"))
                    } else if st == Some(None::<Seq<char>>) {
                        r == Err::<AppConfig, ConfigError>(ConfigError::WrongType("site_title"))
                    } else if ow is None {
                        r == Err::<AppConfig, ConfigError>(ConfigError::MissingKey("owner"))
                    } else if ow == Some(None::<Seq<char>>) {
                        r == Err::<AppConfig, ConfigError>(ConfigError::WrongType("owner"))
                    } else if ho is None {
                        r == Err::<AppConfig, ConfigError>(ConfigError::MissingKey("host"))
                    } else if ho == Some(None::<Seq<char>>) {
                        r == Err::<AppConfig, ConfigError>(ConfigError::WrongType("host"))
                    } else if po is None {
                        r == Err::<AppConfig, ConfigError>(ConfigError::MissingKey("port"))
                    } else if port_value(po.unwrap()) is None {
                        r == Err::<AppConfig, ConfigError>(ConfigError::WrongType("port"))
                    } else {
                        r is Ok && r.unwrap().repos_path@ == rp.unwrap().unwrap() && r.unwrap().site_title@
                            == st.unwrap().unwrap() && r.unwrap().owner@ == ow.unwrap().unwrap()
                            && r.unwrap().host@ == ho.unwrap().unwrap() && r.unwrap().port == port_value(
                            po.unwrap(),
                        ).unwrap()
                    }
                },
            },
        },
{
    let entries = match parse_settings(text) {
        Ok(v) => v,
        Err(n) => return Err(ConfigError::BadLine(n)),
    };
    assert(setting_views(entries@) == entries@.map_values(|e: (String, String)| (e.0@, e.1@)));
    if let Some(k) = first_duplicate_key(&entries) {
        return Err(ConfigError::DuplicateKey(k));
    }
    let repos_path = match text_key(&entries, "repos_path") {
        Ok(v) => v,
        Err(e) => return Err(e),
    };
    let site_title = match text_key(&entries, "site_title") {
        Ok(v) => v,
        Err(e) => return Err(e),
    };
    let owner = match text_key(&entries, "owner") {
        Ok(v) => v,
        Err(e) => return Err(e),
    };
    let host = match text_key(&entries, "host") {
        Ok(v) => v,
        Err(e) => return Err(e),
    };
    let port_text = match find_setting(&entries, "port") {
        Some(v) => v,
        None => return Err(ConfigError::MissingKey("port")),
    };
    match parse_port(port_text.as_str()) {
        Some(port) => Ok(AppConfig { repos_path, site_title, owner, host, port }),
        None => Err(ConfigError::WrongType("port")),
    }
}

} // verus!
