//! The decisions of the Redis driver: its connection URL, the commands it
//! sends, how it renders a key's value and how it reads the INFO report.

use vstd::prelude::*;
use crate::keyed::KeyedList;
use crate::api::{ConnectionConfig, KeyValue, ServerInfo};
use crate::text::{
    hex_digit,
    join_with,
    chars_of, contains_char_in, decimal, has_prefix, push_chars, push_decimal, slice_chars,
    split_chars, split_on, str_is, string_of, string_views, trim, trim_chars, views_of,
};

verus! {

// ------------------------------------------------------------------
// Connecting
// ------------------------------------------------------------------

/// The Redis URL of a configuration: with the password as the URL's
/// credentials when one is given and not empty.
pub open spec fn redis_url(config: ConnectionConfig) -> Seq<char> {
    let host_port = config.host@ + ":"@ + decimal(config.port as nat) + "/"@;
    match config.password {
        Some(p) => if p@.len() > 0 {
            "redis://:"@ + p@ + "@"@ + host_port
        } else {
            "redis://"@ + host_port
        },
        None => "redis://"@ + host_port,
    }
}

pub fn redis_connection_url(config: &ConnectionConfig) -> (s: String)
    ensures
        s@ == redis_url(*config),
{
    let mut s = String::from_str("redis://");
    match &config.password {
        Some(p) => {
            let cs = chars_of(p.as_str());
            if cs.len() > 0 {
                s.append(":");
                s.append(p.as_str());
                s.append("@");
            }
        },
        None => {},
    }
    s.append(config.host.as_str());
    s.append(":");
    push_decimal(&mut s, config.port as u64);
    s.append("/");
    proof {
        reveal_strlit(":");
        reveal_strlit("@");
        reveal_strlit("/");
        reveal_strlit("redis://");
        reveal_strlit("redis://:");
    }
    assert(s@ =~= redis_url(*config));
    s
}

// ------------------------------------------------------------------
// Commands
// ------------------------------------------------------------------

/// The words of a SCAN command: the cursor, then a MATCH clause when a
/// pattern is given, then a COUNT hint when it is positive.
pub open spec fn scan_words(pattern: Seq<char>, cursor: nat, count: nat) -> Seq<Seq<char>> {
    let w0 = seq!["SCAN"@, decimal(cursor)];
    let w1 = if pattern.len() > 0 { w0 + seq!["MATCH"@, pattern] } else { w0 };
    if count > 0 { w1 + seq!["COUNT"@, decimal(count)] } else { w1 }
}

fn decimal_string(n: u64) -> (s: String)
    ensures
        s@ == decimal(n as nat),
{
    let mut s = String::new();
    push_decimal(&mut s, n);
    s
}

pub fn scan_command(pattern: &str, cursor: u64, count: usize) -> (words: Vec<String>)
    ensures
        string_views(words@) == scan_words(pattern@, cursor as nat, count as nat),
{
    let mut w: Vec<String> = Vec::new();
    w.push(String::from_str("SCAN"));
    w.push(decimal_string(cursor));
    assert(string_views(w@) =~= seq!["SCAN"@, decimal(cursor as nat)]);
    let ghost w0 = string_views(w@);
    let p = chars_of(pattern);
    if p.len() > 0 {
        w.push(String::from_str("MATCH"));
        w.push(String::from_str(pattern));
        assert(string_views(w@) =~= w0 + seq!["MATCH"@, pattern@]);
    }
    let ghost w1 = string_views(w@);
    if count > 0 {
        w.push(String::from_str("COUNT"));
        w.push(decimal_string(count as u64));
        assert(string_views(w@) =~= w1 + seq!["COUNT"@, decimal(count as nat)]);
    }
    w
}

/// The words of a SET command: the key and value, then an expiry in
/// seconds when a positive time to live is given.
pub open spec fn set_words(key: Seq<char>, value: Seq<char>, ttl: Option<i64>) -> Seq<Seq<char>> {
    let w = seq!["SET"@, key, value];
    match ttl {
        Some(t) => if t > 0 { w + seq!["EX"@, decimal(t as nat)] } else { w },
        None => w,
    }
}

pub fn set_command(key: &str, value: &str, ttl: Option<i64>) -> (words: Vec<String>)
    ensures
        string_views(words@) == set_words(key@, value@, ttl),
{
    let mut w: Vec<String> = Vec::new();
    w.push(String::from_str("SET"));
    w.push(String::from_str(key));
    w.push(String::from_str(value));
    assert(string_views(w@) =~= seq!["SET"@, key@, value@]);
    let ghost w0 = string_views(w@);
    match ttl {
        Some(t) => {
            if t > 0 {
                w.push(String::from_str("EX"));
                w.push(decimal_string(t as u64));
                assert(string_views(w@) =~= w0 + seq!["EX"@, decimal(t as nat)]);
            }
        },
        None => {},
    }
    w
}

/// The remaining time to live from a TTL reply: none for the negative
/// replies that mean "no expiry" or "no key".
pub fn ttl_from_reply(ttl: i64) -> (r: Option<i64>)
    ensures
        r == (if ttl >= 0 { Some(ttl) } else { None::<i64> }),
{
    if ttl >= 0 {
        Some(ttl)
    } else {
        None
    }
}

/// How the value of a key of a given type is read.
#[derive(Debug, Clone, Copy, PartialEq, Eq, Structural)]
pub enum KeyFetch {
    /// The key does not exist.
    Missing,
    Get,
    HashAll,
    ListRange,
    Members,
    SortedRangeWithScores,
    /// A type that the viewer does not render.
    Unsupported,
}

pub open spec fn fetch_for(val_type: Seq<char>) -> KeyFetch {
    if val_type == "none"@ {
        KeyFetch::Missing
    } else if val_type == "string"@ {
        KeyFetch::Get
    } else if val_type == "hash"@ {
        KeyFetch::HashAll
    } else if val_type == "list"@ {
        KeyFetch::ListRange
    } else if val_type == "set"@ {
        KeyFetch::Members
    } else if val_type == "zset"@ {
        KeyFetch::SortedRangeWithScores
    } else {
        KeyFetch::Unsupported
    }
}

/// How to read a key whose TYPE reply is `val_type`.
pub fn fetch_for_type(val_type: &str) -> (f: KeyFetch)
    ensures
        f == fetch_for(val_type@),
{
    if str_is(val_type, "none") {
        KeyFetch::Missing
    } else if str_is(val_type, "string") {
        KeyFetch::Get
    } else if str_is(val_type, "hash") {
        KeyFetch::HashAll
    } else if str_is(val_type, "list") {
        KeyFetch::ListRange
    } else if str_is(val_type, "set") {
        KeyFetch::Members
    } else if str_is(val_type, "zset") {
        KeyFetch::SortedRangeWithScores
    } else {
        KeyFetch::Unsupported
    }
}

pub open spec fn fetch_words(f: KeyFetch, key: Seq<char>) -> Option<Seq<Seq<char>>> {
    match f {
        KeyFetch::Get => Some(seq!["GET"@, key]),
        KeyFetch::HashAll => Some(seq!["HGETALL"@, key]),
        KeyFetch::ListRange => Some(seq!["LRANGE"@, key, "0"@, "-1"@]),
        KeyFetch::Members => Some(seq!["SMEMBERS"@, key]),
        KeyFetch::SortedRangeWithScores => Some(seq!["ZRANGE"@, key, "0"@, "-1"@, "WITHSCORES"@]),
        _ => None,
    }
}

/// The command that reads the value, for the types that have one.
pub fn fetch_command(f: KeyFetch, key: &str) -> (words: Option<Vec<String>>)
    ensures
        match words {
            Some(w) => fetch_words(f, key@) == Some(string_views(w@)),
            None => fetch_words(f, key@) is None,
        },
{
    let mut w: Vec<String> = Vec::new();
    match f {
        KeyFetch::Get => {
            w.push(String::from_str("GET"));
            w.push(String::from_str(key));
            assert(string_views(w@) =~= seq!["GET"@, key@]);
        },
        KeyFetch::HashAll => {
            w.push(String::from_str("HGETALL"));
            w.push(String::from_str(key));
            assert(string_views(w@) =~= seq!["HGETALL"@, key@]);
        },
        KeyFetch::ListRange => {
            w.push(String::from_str("LRANGE"));
            w.push(String::from_str(key));
            w.push(String::from_str("0"));
            w.push(String::from_str("-1"));
            assert(string_views(w@) =~= seq!["LRANGE"@, key@, "0"@, "-1"@]);
        },
        KeyFetch::Members => {
            w.push(String::from_str("SMEMBERS"));
            w.push(String::from_str(key));
            assert(string_views(w@) =~= seq!["SMEMBERS"@, key@]);
        },
        KeyFetch::SortedRangeWithScores => {
            w.push(String::from_str("ZRANGE"));
            w.push(String::from_str(key));
            w.push(String::from_str("0"));
            w.push(String::from_str("-1"));
            w.push(String::from_str("WITHSCORES"));
            assert(string_views(w@) =~= seq!["ZRANGE"@, key@, "0"@, "-1"@, "WITHSCORES"@]);
        },
        _ => {
            return None;
        },
    }
    Some(w)
}

// ------------------------------------------------------------------
// Rendering values
// ------------------------------------------------------------------

/// How one character is written inside a JSON string: the quote and the
/// backslash escaped, the control characters escaped by their short form or
/// as `\u00XX`, every other character as itself.
pub open spec fn json_escaped_char(c: char) -> Seq<char> {
    if c == '"' {
        seq!['\\', '"']
    } else if c == '\\' {
        seq!['\\', '\\']
    } else if c == '\u{8}' {
        seq!['\\', 'b']
    } else if c == '\t' {
        seq!['\\', 't']
    } else if c == '\n' {
        seq!['\\', 'n']
    } else if c == '\u{c}' {
        seq!['\\', 'f']
    } else if c == '\r' {
        seq!['\\', 'r']
    } else if (c as int) < 0x20 {
        seq!['\\', 'u', '0', '0', hex_digit((c as int) / 16), hex_digit((c as int) % 16)]
    } else {
        seq![c]
    }
}

/// The characters of a text, each written as inside a JSON string.
pub open spec fn json_escaped(s: Seq<char>) -> Seq<char>
    decreases s.len(),
{
    if s.len() == 0 {
        Seq::empty()
    } else {
        json_escaped(s.drop_last()) + json_escaped_char(s.last())
    }
}

/// A text as a JSON string literal.
pub open spec fn json_string(s: Seq<char>) -> Seq<char> {
    seq!['"'] + json_escaped(s) + seq!['"']
}

/// A list of strings as pretty JSON: `[]` when empty, otherwise one string
/// per line, indented by two spaces, between `[` and `]` on lines of their
/// own.
pub open spec fn pretty_json_strings(items: Seq<Seq<char>>) -> Seq<char> {
    if items.len() == 0 {
        "[]"@
    } else {
        "[\n  "@ + join_with(items.map_values(|t: Seq<char>| json_string(t)), ",\n  "@) + "\n]"@
    }
}

/// Whether text `a` comes before text `b` character by character, a
/// proper prefix first (the order of `String` keys, since UTF-8 keeps the
/// order of code points).
pub open spec fn text_before(a: Seq<char>, b: Seq<char>) -> bool
    decreases a.len(),
{
    if a.len() == 0 {
        b.len() > 0
    } else if b.len() == 0 {
        false
    } else if a[0] != b[0] {
        (a[0] as int) < (b[0] as int)
    } else {
        text_before(a.drop_first(), b.drop_first())
    }
}

/// The fields of a JSON object in key order after the field `k` is set to
/// `v`: an existing field of that key takes the new value, otherwise the
/// field goes before the first larger key.
pub open spec fn set_field(es: Seq<(Seq<char>, Seq<char>)>, k: Seq<char>, v: Seq<char>) -> Seq<
    (Seq<char>, Seq<char>),
>
    decreases es.len(),
{
    if es.len() == 0 {
        seq![(k, v)]
    } else if es[0].0 == k {
        es.update(0, (k, v))
    } else if text_before(k, es[0].0) {
        seq![(k, v)] + es
    } else {
        seq![es[0]] + set_field(es.drop_first(), k, v)
    }
}

/// The fields of the JSON object built from the pairs in order: in key
/// order, a later pair replacing the value of an earlier one of its key.
pub open spec fn object_fields(pairs: Seq<(Seq<char>, Seq<char>)>) -> Seq<(Seq<char>, Seq<char>)>
    decreases pairs.len(),
{
    if pairs.len() == 0 {
        Seq::empty()
    } else {
        set_field(object_fields(pairs.drop_last()), pairs.last().0, pairs.last().1)
    }
}

/// A JSON object of string fields as pretty JSON: `{}` when empty,
/// otherwise one `"key": "value"` per line, indented by two spaces, between
/// `{` and `}` on lines of their own.
pub open spec fn pretty_json_object(pairs: Seq<(Seq<char>, Seq<char>)>) -> Seq<char> {
    let fields = object_fields(pairs);
    if fields.len() == 0 {
        "{}"@
    } else {
        "{\n  "@ + join_with(
            fields.map_values(|f: (Seq<char>, Seq<char>)| json_string(f.0) + ": "@ + json_string(f.1)),
            ",\n  "@,
        ) + "\n}"@
    }
}

pub open spec fn option_text(o: Option<String>) -> Option<Seq<char>> {
    match o {
        Some(s) => Some(s@),
        None => None,
    }
}

pub open spec fn pair_views(pairs: Seq<(String, String)>) -> Seq<(Seq<char>, Seq<char>)> {
    pairs.map_values(|p: (String, String)| (p.0@, p.1@))
}

/// `serde_json::to_string_pretty` on a list of strings. Trusted: it states
/// the text that serde_json's pretty formatter writes for a sequence of
/// strings (two-space indent, serde_json's string escapes); writing into
/// memory cannot fail, so the result is always there.
#[verifier::external_body]
fn serde_pretty_strings(items: &Vec<String>) -> (r: Option<String>)
    ensures
        option_text(r) == Some(pretty_json_strings(string_views(items@))),
{
    serde_json::to_string_pretty(items).ok()
}

/// `serde_json::to_string_pretty` on a JSON object whose fields are inserted
/// from the pairs in order into a `serde_json::Map` (a sorted map, as no
/// crate turns on `preserve_order`; a later pair replaces the value of an
/// earlier one of the same field). Trusted: it states the text that
/// serde_json's pretty formatter writes for that object; writing into
/// memory cannot fail, so the result is always there.
#[verifier::external_body]
fn serde_pretty_pairs(pairs: &Vec<(String, String)>) -> (r: Option<String>)
    ensures
        option_text(r) == Some(pretty_json_object(pair_views(pairs@))),
{
    let mut map = serde_json::Map::new();
    for (k, v) in pairs.iter() {
        map.insert(k.clone(), serde_json::Value::String(v.clone()));
    }
    serde_json::to_string_pretty(&serde_json::Value::Object(map)).ok()
}

/// A list or set value as pretty JSON.
pub fn render_string_list(items: &Vec<String>) -> (s: String)
    ensures
        s@ == pretty_json_strings(string_views(items@)),
{
    match serde_pretty_strings(items) {
        Some(t) => t,
        None => String::from_str("[]"),
    }
}

/// A hash value as a pretty JSON object.
pub fn render_hash(fields: &Vec<(String, String)>) -> (s: String)
    ensures
        s@ == pretty_json_object(pair_views(fields@)),
{
    match serde_pretty_pairs(fields) {
        Some(t) => t,
        None => String::from_str("{}"),
    }
}

/// The key as the viewer shows it: refused when TYPE reported `none`; the
/// rendered value for the types it reads; a note naming the type otherwise.
pub fn finish_key_value(key: &str, val_type: String, ttl_reply: i64, rendered: String) -> (r: Result<KeyValue, String>)
    ensures
        fetch_for(val_type@) == KeyFetch::Missing ==> (r matches Err(m) && m@ == "Key does not exist"@),
        fetch_for(val_type@) != KeyFetch::Missing ==> (r matches Ok(kv) && {
            &&& kv.key@ == key@
            &&& kv.value_type@ == val_type@
            &&& kv.ttl == (if ttl_reply >= 0 { Some(ttl_reply) } else { None::<i64> })
            &&& kv.value@ == if fetch_for(val_type@) == KeyFetch::Unsupported {
                "(Unsupported key type: "@ + val_type@ + ")"@
            } else {
                rendered@
            }
        }),
{
    let ttl = ttl_from_reply(ttl_reply);
    let f = fetch_for_type(val_type.as_str());
    match f {
        KeyFetch::Missing => Err(String::from_str("Key does not exist")),
        KeyFetch::Unsupported => {
            let mut v = String::from_str("(Unsupported key type: ");
            v.append(val_type.as_str());
            v.append(")");
            Ok(KeyValue { key: String::from_str(key), value: v, value_type: val_type, ttl })
        },
        _ => Ok(KeyValue { key: String::from_str(key), value: rendered, value_type: val_type, ttl }),
    }
}

// ------------------------------------------------------------------
// INFO report
// ------------------------------------------------------------------

/// `s` without one trailing carriage return.
pub open spec fn strip_cr(s: Seq<char>) -> Seq<char> {
    if s.len() > 0 && s.last() == '\r' {
        s.drop_last()
    } else {
        s
    }
}

/// The lines of a text (std `str::lines`): split at line feeds, a carriage
/// return before a line feed dropped, no final empty line after a trailing
/// line feed.
pub open spec fn text_lines(s: Seq<char>) -> Seq<Seq<char>> {
    let parts = split_on(s, '\n');
    let full = parts.drop_last().map_values(|p: Seq<char>| strip_cr(p));
    if parts.last().len() == 0 {
        full
    } else {
        full.push(parts.last())
    }
}

/// The position of the first `c` in `s`.
pub open spec fn first_index_of(s: Seq<char>, c: char) -> Option<int>
    decreases s.len(),
{
    if s.len() == 0 {
        None
    } else {
        match first_index_of(s.drop_last(), c) {
            Some(i) => Some(i),
            None => if s.last() == c {
                Some(s.len() - 1)
            } else {
                None
            },
        }
    }
}

/// The statistics that the INFO report's lines give, in order: section
/// headers (`#`) and blank lines are skipped; every other line with a colon
/// gives the trimmed text before its first colon as the name and the
/// trimmed text after it as the value; a later line replaces an earlier
/// one of the same name.
pub open spec fn info_stats(lines: Seq<Seq<char>>) -> Map<Seq<char>, Seq<char>>
    decreases lines.len(),
{
    if lines.len() == 0 {
        Map::empty()
    } else {
        let m = info_stats(lines.drop_last());
        let line = lines.last();
        if has_prefix(line, "#"@) || trim(line).len() == 0 {
            m
        } else {
            match first_index_of(line, ':') {
                Some(p) => m.insert(trim(line.take(p)), trim(line.skip(p + 1))),
                None => m,
            }
        }
    }
}

pub open spec fn text_values(m: Map<Seq<char>, String>) -> Map<Seq<char>, Seq<char>> {
    m.map_values(|v: String| v@)
}

fn find_char(v: &Vec<char>, c: char) -> (r: Option<usize>)
    ensures
        match r {
            Some(i) => first_index_of(v@, c) == Some(i as int) && i < v@.len(),
            None => first_index_of(v@, c) is None,
        },
{
    let n = v.len();
    for i in 0..n
        invariant
            n == v@.len(),
            first_index_of(v@.take(i as int), c) is None,
    {
        proof {
            assert(v@.take(i + 1).drop_last() =~= v@.take(i as int));
            assert(v@.take(i + 1).last() == v@[i as int]);
        }
        if v[i] == c {
            proof {
                lemma_first_index_prefix(v@, i as int + 1, c);
            }
            return Some(i);
        }
    }
    assert(v@.take(n as int) =~= v@);
    None
}

proof fn lemma_first_index_prefix(s: Seq<char>, k: int, c: char)
    requires
        0 <= k <= s.len(),
        first_index_of(s.take(k), c) is Some,
    ensures
        first_index_of(s, c) == first_index_of(s.take(k), c),
    decreases s.len() - k,
{
    if k < s.len() {
        lemma_first_index_prefix_step(s, k, c);
        lemma_first_index_prefix(s, k + 1, c);
    } else {
        assert(s.take(k) =~= s);
    }
}

proof fn lemma_first_index_prefix_step(s: Seq<char>, k: int, c: char)
    requires
        0 <= k < s.len(),
        first_index_of(s.take(k), c) is Some,
    ensures
        first_index_of(s.take(k + 1), c) == first_index_of(s.take(k), c),
{
    assert(s.take(k + 1).drop_last() =~= s.take(k));
}

fn info_line_into(stats: &mut KeyedList<String>, line: &Vec<char>)
    ensures
        text_values(final(stats)@) == {
            let m = text_values(old(stats)@);
            if has_prefix(line@, "#"@) || trim(line@).len() == 0 {
                m
            } else {
                match first_index_of(line@, ':') {
                    Some(p) => m.insert(trim(line@.take(p)), trim(line@.skip(p + 1))),
                    None => m,
                }
            }
        },
{
    let hash = chars_of("#");
    let t = trim_chars(line);
    if crate::text::has_prefix_chars(line, &hash) || t.len() == 0 {
        return;
    }
    let len = line.len();
    match find_char(line, ':') {
        Some(p) => {
            let before = slice_chars(line, 0, p);
            let after = slice_chars(line, p + 1, len);
            let k = trim_chars(&before);
            let v = trim_chars(&after);
            assert(before@ =~= line@.take(p as int));
            assert(after@ =~= line@.skip(p + 1));
            let key = string_of(&k);
            let value = string_of(&v);
            stats.insert(key, value);
            assert(text_values(stats@) =~= text_values(old(stats)@).insert(k@, v@));
        },
        None => {},
    }
}

/// The statistics of an INFO report.
pub fn parse_server_info(info: &str) -> (r: ServerInfo)
    ensures
        text_values(r.stats@) == info_stats(text_lines(info@)),
{
    let cs = chars_of(info);
    let parts = split_chars(&cs, '\n');
    proof {
        crate::text::lemma_split_nonempty(info@, '\n');
    }
    let ghost ps = split_on(info@, '\n');
    let mut lines: Vec<Vec<char>> = Vec::new();
    let n = parts.len();
    for i in 0..n - 1
        invariant
            n == parts@.len() >= 1,
            views_of(parts@) == ps,
            views_of(lines@) == ps.take(i as int).map_values(|p: Seq<char>| strip_cr(p)),
    {
        let part = &parts[i];
        let line = if part.len() > 0 && part[part.len() - 1] == '\r' {
            slice_chars(part, 0, part.len() - 1)
        } else {
            slice_chars(part, 0, part.len())
        };
        assert(line@ =~= strip_cr(ps[i as int]));
        let ghost before = lines@;
        lines.push(line);
        assert(views_of(lines@) =~= views_of(before).push(line@));
        assert(ps.take(i + 1).map_values(|p: Seq<char>| strip_cr(p)) =~= ps.take(i as int).map_values(
            |p: Seq<char>| strip_cr(p),
        ).push(strip_cr(ps[i as int])));
    }
    assert(ps.take(n - 1) =~= ps.drop_last());
    if parts[n - 1].len() > 0 {
        let last = slice_chars(&parts[n - 1], 0, parts[n - 1].len());
        let ghost before = lines@;
        lines.push(last);
        assert(views_of(lines@) =~= views_of(before).push(last@));
        assert(last@ =~= ps.last());
    }
    assert(views_of(lines@) == text_lines(info@));
    let mut stats: KeyedList<String> = KeyedList::new();
    let ghost ls = views_of(lines@);
    let m = lines.len();
    assert(text_values(stats@) =~= Map::<Seq<char>, Seq<char>>::empty());
    for i in 0..m
        invariant
            m == lines@.len(),
            ls == views_of(lines@),
            text_values(stats@) == info_stats(ls.take(i as int)),
    {
        assert(ls.take(i + 1).drop_last() =~= ls.take(i as int));
        assert(ls.take(i + 1).last() == lines@[i as int]@);
        info_line_into(&mut stats, &lines[i]);
    }
    assert(ls.take(m as int) =~= ls);
    ServerInfo { stats }
}

// ------------------------------------------------------------------
// Laws
// ------------------------------------------------------------------

/// Each Redis data type that the viewer shows is read with its own command:
/// `string` with GET, `hash` with HGETALL, `list` with LRANGE 0 -1, `set`
/// with SMEMBERS, `zset` with ZRANGE 0 -1 WITHSCORES. A key of type `none`
/// is missing; every other type, and only those, is unsupported and read
/// with no command.
pub proof fn law_each_type_read_with_its_command(val_type: Seq<char>, key: Seq<char>)
    ensures
        val_type == "string"@ ==> fetch_words(fetch_for(val_type), key) == Some(seq!["GET"@, key]),
        val_type == "hash"@ ==> fetch_words(fetch_for(val_type), key) == Some(seq!["HGETALL"@, key]),
        val_type == "list"@ ==> fetch_words(fetch_for(val_type), key) == Some(seq!["LRANGE"@, key, "0"@, "-1"@]),
        val_type == "set"@ ==> fetch_words(fetch_for(val_type), key) == Some(seq!["SMEMBERS"@, key]),
        val_type == "zset"@ ==> fetch_words(fetch_for(val_type), key) == Some(
            seq!["ZRANGE"@, key, "0"@, "-1"@, "WITHSCORES"@],
        ),
        (fetch_for(val_type) == KeyFetch::Missing) <==> val_type == "none"@,
        (fetch_for(val_type) == KeyFetch::Unsupported) <==> (val_type != "none"@ && val_type != "string"@
            && val_type != "hash"@ && val_type != "list"@ && val_type != "set"@ && val_type != "zset"@),
        (fetch_words(fetch_for(val_type), key) is None) <==> (val_type != "string"@ && val_type != "hash"@
            && val_type != "list"@ && val_type != "set"@ && val_type != "zset"@),
{
    reveal_strlit("none");
    reveal_strlit("string");
    reveal_strlit("hash");
    reveal_strlit("list");
    reveal_strlit("set");
    reveal_strlit("zset");
    assert("none"@[0] == 'n' && "string"@[0] == 's' && "hash"@[0] == 'h' && "list"@[0] == 'l' && "set"@[0] == 's'
        && "zset"@[0] == 'z');
    assert("string"@.len() != "set"@.len());
}

/// What the viewer shows for a key: for each of the five types it reads,
/// the rendered value, never the note for an unsupported type; for a
/// missing key, the error "Key does not exist".
pub proof fn law_supported_types_show_their_value(val_type: Seq<char>)
    ensures
        (val_type == "string"@ || val_type == "hash"@ || val_type == "list"@ || val_type == "set"@
            || val_type == "zset"@) ==> fetch_for(val_type) != KeyFetch::Unsupported && fetch_for(val_type)
            != KeyFetch::Missing,
{
    law_each_type_read_with_its_command(val_type, Seq::empty());
}

} // verus!
