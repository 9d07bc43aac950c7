//! Saved connection profiles, SQL snippets, query history, editor sessions
//! and result export.

use vstd::prelude::*;
use crate::api::{CellValue, ConnectionConfig};
use crate::text::{
    chars_of, contains_char_in, join_with, push_char, push_chars, replace_char,
    replace_char_chars, str_is, string_of, string_views, views_of,
};

verus! {

// ------------------------------------------------------------------
// Connection profiles
// ------------------------------------------------------------------

/// A saved connection: its driver, a display name and its settings.
#[derive(Debug, Clone)]
pub struct ConnectionProfile {
    pub driver_id: String,
    pub name: String,
    pub config: ConnectionConfig,
}

/// A saved connection as listed to the user, with whether a password is
/// saved for it.
#[derive(Debug, Clone)]
pub struct ConnectionProfileResponse {
    pub driver_id: String,
    pub name: String,
    pub config: ConnectionConfig,
    pub has_password_saved: bool,
}

/// The position of the first item whose key is `key`.
pub open spec fn first_position(keys: Seq<Seq<char>>, key: Seq<char>) -> Option<int>
    decreases keys.len(),
{
    if keys.len() == 0 {
        None
    } else {
        match first_position(keys.drop_last(), key) {
            Some(i) => Some(i),
            None => if keys.last() == key {
                Some(keys.len() - 1)
            } else {
                None
            },
        }
    }
}

proof fn lemma_first_position_found(keys: Seq<Seq<char>>, key: Seq<char>, i: int)
    requires
        0 <= i < keys.len(),
        keys[i] == key,
        forall|j: int| 0 <= j < i ==> keys[j] != key,
    ensures
        first_position(keys, key) == Some(i),
    decreases keys.len(),
{
    if i < keys.len() - 1 {
        lemma_first_position_found(keys.drop_last(), key, i);
    } else {
        lemma_first_position_absent(keys.drop_last(), key);
    }
}

proof fn lemma_first_position_absent(keys: Seq<Seq<char>>, key: Seq<char>)
    requires
        forall|j: int| 0 <= j < keys.len() ==> keys[j] != key,
    ensures
        first_position(keys, key) is None,
    decreases keys.len(),
{
    if keys.len() > 0 {
        lemma_first_position_absent(keys.drop_last(), key);
    }
}

pub open spec fn profile_ids(ps: Seq<ConnectionProfile>) -> Seq<Seq<char>> {
    ps.map_values(|p: ConnectionProfile| p.config.id@)
}

/// The profiles with `p` saved: it replaces the first profile of the same
/// connection id, or is appended when there is none.
pub open spec fn with_profile(ps: Seq<ConnectionProfile>, p: ConnectionProfile) -> Seq<ConnectionProfile> {
    match first_position(profile_ids(ps), p.config.id@) {
        Some(i) => ps.update(i, p),
        None => ps.push(p),
    }
}

fn position_of_id(profiles: &Vec<ConnectionProfile>, id: &str) -> (r: Option<usize>)
    ensures
        match r {
            Some(i) => first_position(profile_ids(profiles@), id@) == Some(i as int) && i < profiles@.len(),
            None => first_position(profile_ids(profiles@), id@) is None,
        },
{
    let n = profiles.len();
    for i in 0..n
        invariant
            n == profiles@.len(),
            forall|j: int| 0 <= j < i ==> profile_ids(profiles@)[j] != id@,
    {
        if str_is(profiles[i].config.id.as_str(), id) {
            proof {
                lemma_first_position_found(profile_ids(profiles@), id@, i as int);
            }
            return Some(i);
        }
    }
    proof {
        lemma_first_position_absent(profile_ids(profiles@), id@);
    }
    None
}

/// Saves a profile into the list (see `with_profile`).
pub fn upsert_profile(profiles: &mut Vec<ConnectionProfile>, profile: ConnectionProfile)
    ensures
        final(profiles)@ == with_profile(old(profiles)@, profile),
{
    match position_of_id(profiles, profile.config.id.as_str()) {
        Some(i) => profiles.set(i, profile),
        None => profiles.push(profile),
    }
}

/// The profiles that do not belong to connection `id`, in order.
pub open spec fn without_profile(ps: Seq<ConnectionProfile>, id: Seq<char>) -> Seq<ConnectionProfile>
    decreases ps.len(),
{
    if ps.len() == 0 {
        ps
    } else if ps.last().config.id@ == id {
        without_profile(ps.drop_last(), id)
    } else {
        without_profile(ps.drop_last(), id).push(ps.last())
    }
}

/// Removes every profile of connection `id`.
pub fn remove_profile(profiles: Vec<ConnectionProfile>, id: &str) -> (r: Vec<ConnectionProfile>)
    ensures
        r@ == without_profile(profiles@, id@),
{
    let ghost all = profiles@;
    let total = profiles.len();
    let mut rest = profiles;
    let mut kept: Vec<ConnectionProfile> = Vec::new();
    let mut i: usize = 0;
    assert(all.skip(0) =~= all);
    while rest.len() > 0
        invariant
            i <= all.len(),
            total == all.len(),
            rest@ == all.skip(i as int),
            kept@ == without_profile(all.take(i as int), id@),
        decreases rest@.len(),
    {
        let p = rest.remove(0);
        assert(all.take(i + 1).drop_last() =~= all.take(i as int));
        assert(all.take(i + 1).last() == p);
        if !str_is(p.config.id.as_str(), id) {
            kept.push(p);
        }
        assert(rest@ =~= all.skip(i + 1));
        i = i + 1;
    }
    assert(all.take(i as int) =~= all);
    kept
}

/// The configuration as it is written to the profile file, without its
/// password, and the password to save in the keychain: the given one when
/// it is not empty.
pub fn split_off_password(config: ConnectionConfig) -> (r: (ConnectionConfig, Option<String>))
    ensures
        r.0.id == config.id,
        r.0.host == config.host,
        r.0.port == config.port,
        r.0.user == config.user,
        r.0.db_name == config.db_name,
        r.0.password is None,
        r.1 == match config.password {
            Some(p) => if p@.len() > 0 { Some(p) } else { None::<String> },
            None => None::<String>,
        },
{
    let mut config = config;
    let mut password: Option<String> = None;
    std::mem::swap(&mut password, &mut config.password);
    let keep = match &password {
        Some(p) => p.as_str().unicode_len() > 0,
        None => false,
    };
    if keep {
        (config, password)
    } else {
        (config, None)
    }
}

proof fn lemma_first_position_facts(keys: Seq<Seq<char>>, key: Seq<char>)
    ensures
        match first_position(keys, key) {
            Some(i) => 0 <= i < keys.len() && keys[i] == key && forall|j: int| 0 <= j < i ==> keys[j] != key,
            None => forall|j: int| 0 <= j < keys.len() ==> keys[j] != key,
        },
    decreases keys.len(),
{
    if keys.len() > 0 {
        lemma_first_position_facts(keys.drop_last(), key);
        assert forall|j: int| 0 <= j < keys.len() - 1 implies keys.drop_last()[j] == keys[j] by {}
    }
}

/// Keys stay free of duplicates when the first occurrence of `key` is
/// rewritten, or `key` is appended where it is absent.
proof fn lemma_upsert_keeps_keys_unique(keys: Seq<Seq<char>>, key: Seq<char>)
    requires
        keys.no_duplicates(),
    ensures
        match first_position(keys, key) {
            Some(i) => keys.update(i, key) == keys,
            None => keys.push(key).no_duplicates(),
        },
{
    lemma_first_position_facts(keys, key);
    match first_position(keys, key) {
        Some(i) => {
            assert(keys.update(i, key) =~= keys);
        },
        None => {
            let k2 = keys.push(key);
            assert forall|a: int, b: int| 0 <= a < k2.len() && 0 <= b < k2.len() && a != b implies k2[a]
                != k2[b] by {
                if a < keys.len() && b < keys.len() {
                    assert(k2[a] == keys[a] && k2[b] == keys[b]);
                }
            }
        },
    }
}

/// After a profile is saved, the first profile of its connection id is the
/// saved one: loading the list gives back what was saved.
pub proof fn law_saved_profile_is_found(ps: Seq<ConnectionProfile>, p: ConnectionProfile)
    ensures
        match first_position(profile_ids(with_profile(ps, p)), p.config.id@) {
            Some(i) => with_profile(ps, p)[i] == p,
            None => false,
        },
{
    let ids = profile_ids(ps);
    let key = p.config.id@;
    lemma_first_position_facts(ids, key);
    match first_position(ids, key) {
        Some(i) => {
            assert(profile_ids(ps.update(i, p)) =~= ids.update(i, key));
            assert(ids.update(i, key) =~= ids);
        },
        None => {
            let after = profile_ids(ps.push(p));
            assert(after =~= ids.push(key));
            assert forall|j: int| 0 <= j < ps.len() implies after[j] != key by {
                assert(after[j] == ids[j]);
            }
            lemma_first_position_found(after, key, ps.len() as int);
        },
    }
}

/// Saving a profile keeps connection ids unique in the list.
pub proof fn law_save_keeps_ids_unique(ps: Seq<ConnectionProfile>, p: ConnectionProfile)
    requires
        profile_ids(ps).no_duplicates(),
    ensures
        profile_ids(with_profile(ps, p)).no_duplicates(),
{
    let ids = profile_ids(ps);
    lemma_first_position_facts(ids, p.config.id@);
    lemma_upsert_keeps_keys_unique(ids, p.config.id@);
    match first_position(ids, p.config.id@) {
        Some(i) => {
            assert(profile_ids(ps.update(i, p)) =~= ids.update(i, p.config.id@));
        },
        None => {
            assert(profile_ids(ps.push(p)) =~= ids.push(p.config.id@));
        },
    }
}

/// Saving a profile leaves the profiles of every other connection in place
/// and holds the saved one.
pub proof fn law_save_keeps_other_profiles(ps: Seq<ConnectionProfile>, p: ConnectionProfile)
    ensures
        with_profile(ps, p).contains(p),
        forall|j: int|
            0 <= j < ps.len() && ps[j].config.id@ != p.config.id@ ==> with_profile(ps, p)[j] == ps[j],
        with_profile(ps, p).len() == ps.len() || with_profile(ps, p).len() == ps.len() + 1,
{
    let ids = profile_ids(ps);
    lemma_first_position_facts(ids, p.config.id@);
    match first_position(ids, p.config.id@) {
        Some(i) => {
            assert(ps.update(i, p)[i] == p);
            assert forall|j: int| 0 <= j < ps.len() && ps[j].config.id@ != p.config.id@ implies ps.update(
                i,
                p,
            )[j] == ps[j] by {
                assert(ids[j] == ps[j].config.id@);
            }
        },
        None => {
            assert(ps.push(p)[ps.len() as int] == p);
        },
    }
}

/// A profile file holds no password: when no saved profile holds one and the
/// profile being saved has had its password split off, none does after.
pub proof fn law_saved_profiles_hold_no_password(ps: Seq<ConnectionProfile>, p: ConnectionProfile)
    requires
        forall|j: int| 0 <= j < ps.len() ==> ps[j].config.password is None,
        p.config.password is None,
    ensures
        forall|j: int| 0 <= j < with_profile(ps, p).len() ==> with_profile(ps, p)[j].config.password is None,
{
    let ids = profile_ids(ps);
    lemma_first_position_facts(ids, p.config.id@);
    let after = with_profile(ps, p);
    assert forall|j: int| 0 <= j < after.len() implies after[j].config.password is None by {
        match first_position(ids, p.config.id@) {
            Some(i) => {
                if j != i {
                    assert(after[j] == ps[j]);
                }
            },
            None => {
                if j < ps.len() {
                    assert(after[j] == ps[j]);
                }
            },
        }
    }
}

/// Deleting a connection's profiles leaves none of that connection and every
/// profile of another connection.
pub proof fn law_delete_removes_only_that_connection(ps: Seq<ConnectionProfile>, id: Seq<char>)
    ensures
        forall|j: int| 0 <= j < without_profile(ps, id).len() ==> without_profile(ps, id)[j].config.id@ != id,
        forall|q: ConnectionProfile| ps.contains(q) && q.config.id@ != id ==> without_profile(ps, id).contains(q),
    decreases ps.len(),
{
    if ps.len() > 0 {
        let rest = ps.drop_last();
        law_delete_removes_only_that_connection(rest, id);
        assert forall|q: ConnectionProfile| ps.contains(q) && q.config.id@ != id implies without_profile(
            ps,
            id,
        ).contains(q) by {
            let k = choose|k: int| 0 <= k < ps.len() && ps[k] == q;
            if k < ps.len() - 1 {
                assert(rest[k] == q);
                assert(rest.contains(q));
                let w = without_profile(rest, id);
                assert(w.contains(q));
                let m = choose|m: int| 0 <= m < w.len() && w[m] == q;
                if ps.last().config.id@ != id {
                    assert(w.push(ps.last())[m] == q);
                }
            } else {
                assert(ps.last() == q);
                let w = without_profile(rest, id);
                assert(w.push(ps.last())[w.len() as int] == q);
            }
        }
    }
}

/// A listed profile.
pub fn profile_response(profile: ConnectionProfile, has_password_saved: bool) -> (r: ConnectionProfileResponse)
    ensures
        r.driver_id == profile.driver_id,
        r.name == profile.name,
        r.config == profile.config,
        r.has_password_saved == has_password_saved,
{
    ConnectionProfileResponse {
        driver_id: profile.driver_id,
        name: profile.name,
        config: profile.config,
        has_password_saved,
    }
}

// ------------------------------------------------------------------
// Snippets, history and sessions
// ------------------------------------------------------------------

/// A saved SQL snippet.
#[derive(Debug, Clone)]
pub struct Snippet {
    pub name: String,
    pub sql: String,
}

/// One executed statement of a connection's history.
#[derive(Debug, Clone)]
pub struct HistoryEntry {
    pub timestamp: String,
    pub sql: String,
    pub duration_ms: u64,
    pub status: String,
}

/// One editor tab.
#[derive(Debug, Clone)]
pub struct SessionTab {
    pub id: String,
    pub name: String,
    pub sql: String,
}

/// The editor's tabs and which one is active.
#[derive(Debug, Clone)]
pub struct SessionState {
    pub active_tab_id: Option<String>,
    pub tabs: Vec<SessionTab>,
}

pub open spec fn snippet_views(s: Seq<Snippet>) -> Seq<(Seq<char>, Seq<char>)> {
    s.map_values(|x: Snippet| (x.name@, x.sql@))
}

/// The snippets with `name` saved as `sql`: the first snippet of that name
/// gets the new text, or a new snippet is appended when there is none.
pub open spec fn with_snippet(s: Seq<(Seq<char>, Seq<char>)>, name: Seq<char>, sql: Seq<char>) -> Seq<
    (Seq<char>, Seq<char>),
> {
    match first_position(s.map_values(|x: (Seq<char>, Seq<char>)| x.0), name) {
        Some(i) => s.update(i, (name, sql)),
        None => s.push((name, sql)),
    }
}

fn position_of_name(snippets: &Vec<Snippet>, name: &str) -> (r: Option<usize>)
    ensures
        match r {
            Some(i) => first_position(snippet_views(snippets@).map_values(|x: (Seq<char>, Seq<char>)| x.0), name@)
                == Some(i as int) && i < snippets@.len(),
            None => first_position(snippet_views(snippets@).map_values(|x: (Seq<char>, Seq<char>)| x.0), name@) is None,
        },
{
    let ghost keys = snippet_views(snippets@).map_values(|x: (Seq<char>, Seq<char>)| x.0);
    let n = snippets.len();
    for i in 0..n
        invariant
            n == snippets@.len(),
            keys == snippet_views(snippets@).map_values(|x: (Seq<char>, Seq<char>)| x.0),
            forall|j: int| 0 <= j < i ==> keys[j] != name@,
    {
        assert(keys[i as int] == snippets@[i as int].name@);
        if str_is(snippets[i].name.as_str(), name) {
            proof {
                lemma_first_position_found(keys, name@, i as int);
            }
            return Some(i);
        }
    }
    proof {
        lemma_first_position_absent(keys, name@);
    }
    None
}

/// Saves a snippet into the list (see `with_snippet`).
pub fn upsert_snippet(snippets: &mut Vec<Snippet>, name: String, sql: String)
    ensures
        snippet_views(final(snippets)@) == with_snippet(snippet_views(old(snippets)@), name@, sql@),
{
    let ghost keys = snippet_views(snippets@).map_values(|x: (Seq<char>, Seq<char>)| x.0);
    let found = position_of_name(snippets, name.as_str());
    match found {
        Some(k) => {
            let ghost before = snippets@;
            snippets.set(k, Snippet { name, sql });
            assert(snippet_views(snippets@) =~= snippet_views(before).update(k as int, (name@, sql@)));
        },
        None => {
            let ghost before = snippets@;
            let ghost entry = (name@, sql@);
            snippets.push(Snippet { name, sql });
            assert(snippet_views(snippets@) =~= snippet_views(before).push(entry));
        },
    }
}

/// The snippets not named `name`, in order.
pub open spec fn without_snippet(s: Seq<(Seq<char>, Seq<char>)>, name: Seq<char>) -> Seq<(Seq<char>, Seq<char>)>
    decreases s.len(),
{
    if s.len() == 0 {
        s
    } else if s.last().0 == name {
        without_snippet(s.drop_last(), name)
    } else {
        without_snippet(s.drop_last(), name).push(s.last())
    }
}

pub open spec fn snippet_names(s: Seq<(Seq<char>, Seq<char>)>) -> Seq<Seq<char>> {
    s.map_values(|x: (Seq<char>, Seq<char>)| x.0)
}

/// After a snippet is saved, the first snippet of that name holds the saved
/// text.
pub proof fn law_saved_snippet_is_found(s: Seq<(Seq<char>, Seq<char>)>, name: Seq<char>, sql: Seq<char>)
    ensures
        match first_position(snippet_names(with_snippet(s, name, sql)), name) {
            Some(i) => with_snippet(s, name, sql)[i] == (name, sql),
            None => false,
        },
{
    let names = snippet_names(s);
    assert(names =~= s.map_values(|x: (Seq<char>, Seq<char>)| x.0));
    lemma_first_position_facts(names, name);
    match first_position(names, name) {
        Some(i) => {
            assert(snippet_names(s.update(i, (name, sql))) =~= names);
        },
        None => {
            let after = snippet_names(s.push((name, sql)));
            assert(after =~= names.push(name));
            assert forall|j: int| 0 <= j < s.len() implies after[j] != name by {
                assert(after[j] == names[j]);
            }
            lemma_first_position_found(after, name, s.len() as int);
        },
    }
}

/// Saving a snippet keeps snippet names unique.
pub proof fn law_snippet_names_stay_unique(s: Seq<(Seq<char>, Seq<char>)>, name: Seq<char>, sql: Seq<char>)
    requires
        snippet_names(s).no_duplicates(),
    ensures
        snippet_names(with_snippet(s, name, sql)).no_duplicates(),
{
    let names = snippet_names(s);
    assert(names =~= s.map_values(|x: (Seq<char>, Seq<char>)| x.0));
    lemma_first_position_facts(names, name);
    lemma_upsert_keeps_keys_unique(names, name);
    match first_position(names, name) {
        Some(i) => {
            assert(snippet_names(s.update(i, (name, sql))) =~= names.update(i, name));
        },
        None => {
            assert(snippet_names(s.push((name, sql))) =~= names.push(name));
        },
    }
}

/// Removes every snippet named `name`.
pub fn remove_snippet(snippets: Vec<Snippet>, name: &str) -> (r: Vec<Snippet>)
    ensures
        snippet_views(r@) == without_snippet(snippet_views(snippets@), name@),
{
    let ghost all = snippets@;
    let total = snippets.len();
    let mut rest = snippets;
    let mut kept: Vec<Snippet> = Vec::new();
    let mut i: usize = 0;
    assert(all.skip(0) =~= all);
    while rest.len() > 0
        invariant
            i <= all.len(),
            total == all.len(),
            rest@ == all.skip(i as int),
            snippet_views(kept@) == without_snippet(snippet_views(all.take(i as int)), name@),
        decreases rest@.len(),
    {
        let s = rest.remove(0);
        assert(snippet_views(all.take(i + 1)).drop_last() =~= snippet_views(all.take(i as int)));
        assert(snippet_views(all.take(i + 1)).last() == (s.name@, s.sql@));
        if !str_is(s.name.as_str(), name) {
            let ghost before = kept@;
            let ghost entry = (s.name@, s.sql@);
            kept.push(s);
            assert(snippet_views(kept@) =~= snippet_views(before).push(entry));
        }
        assert(rest@ =~= all.skip(i + 1));
        i = i + 1;
    }
    assert(all.take(i as int) =~= all);
    kept
}

/// The history with the newest entry first (the file holds it oldest
/// first).
pub fn newest_first(entries: Vec<HistoryEntry>) -> (r: Vec<HistoryEntry>)
    ensures
        r@ == entries@.reverse(),
{
    let ghost all = entries@;
    let mut rest = entries;
    let mut out: Vec<HistoryEntry> = Vec::new();
    while rest.len() > 0
        invariant
            rest@.len() <= all.len(),
            rest@ == all.take(rest@.len() as int),
            out@ == all.skip(rest@.len() as int).reverse(),
        decreases rest@.len(),
    {
        let ghost k = rest@.len();
        match rest.pop() {
            Some(e) => {
                assert(e == all[k - 1]);
                out.push(e);
                assert(rest@ =~= all.take(k - 1));
                assert(out@ =~= all.skip(k - 1).reverse());
            },
            None => {},
        }
    }
    assert(all.skip(0) =~= all);
    out
}

// ------------------------------------------------------------------
// Result export
// ------------------------------------------------------------------

/// A text field that needs quoting in CSV: it holds a comma, a double
/// quote or a line break.
pub open spec fn needs_csv_quotes(s: Seq<char>) -> bool {
    s.contains(',') || s.contains('"') || s.contains('\n') || s.contains('\r')
}

/// A cell as a CSV field: empty for null, quoted with inner quotes doubled
/// for text that needs it, the text or JSON text otherwise.
pub open spec fn csv_field(c: CellValue) -> Seq<char> {
    match c {
        CellValue::Null => Seq::empty(),
        CellValue::Text(s) => if needs_csv_quotes(s@) {
            seq!['"'] + replace_char(s@, '"', seq!['"', '"']) + seq!['"']
        } else {
            s@
        },
        CellValue::Json(t) => t@,
    }
}

pub fn escape_csv_field(cell: &CellValue) -> (r: String)
    ensures
        r@ == csv_field(*cell),
{
    match cell {
        CellValue::Null => String::new(),
        CellValue::Text(s) => {
            let cs = chars_of(s.as_str());
            if contains_char_in(&cs, ',') || contains_char_in(&cs, '"') || contains_char_in(&cs, '\n')
                || contains_char_in(&cs, '\r') {
                let dq = vec!['"', '"'];
                let inner = replace_char_chars(&cs, '"', &dq);
                let mut out = String::new();
                push_char(&mut out, '"');
                push_chars(&mut out, &inner);
                push_char(&mut out, '"');
                assert(out@ =~= seq!['"'] + replace_char(s@, '"', seq!['"', '"']) + seq!['"']);
                out
            } else {
                s.clone()
            }
        },
        CellValue::Json(t) => t.clone(),
    }
}

/// A CSV line: the fields joined with commas, then a line feed.
pub open spec fn csv_line(fields: Seq<Seq<char>>) -> Seq<char> {
    join_with(fields, ","@) + seq!['\n']
}

/// The header line of a CSV export: the column names.
pub fn csv_header_line(column_names: &Vec<String>) -> (r: String)
    ensures
        r@ == csv_line(string_views(column_names@)),
{
    let mut parts: Vec<Vec<char>> = Vec::new();
    let n = column_names.len();
    for i in 0..n
        invariant
            n == column_names@.len(),
            views_of(parts@) == string_views(column_names@.take(i as int)),
    {
        let ghost before = parts@;
        parts.push(chars_of(column_names[i].as_str()));
        assert(views_of(parts@) =~= views_of(before).push(column_names@[i as int]@));
        assert(string_views(column_names@.take(i + 1)) =~= string_views(column_names@.take(i as int)).push(column_names@[i as int]@));
    }
    assert(column_names@.take(n as int) =~= column_names@);
    let mut out = String::new();
    let sep = chars_of(",");
    crate::text::push_joined(&mut out, &parts, &sep);
    push_char(&mut out, '\n');
    out
}

/// One row of a CSV export: each cell as a CSV field.
pub fn csv_row_line(cells: &Vec<CellValue>) -> (r: String)
    ensures
        r@ == csv_line(cells@.map_values(|c: CellValue| csv_field(c))),
{
    let mut parts: Vec<Vec<char>> = Vec::new();
    let n = cells.len();
    for i in 0..n
        invariant
            n == cells@.len(),
            views_of(parts@) == cells@.take(i as int).map_values(|c: CellValue| csv_field(c)),
    {
        let f = escape_csv_field(&cells[i]);
        let ghost before = parts@;
        parts.push(chars_of(f.as_str()));
        assert(views_of(parts@) =~= views_of(before).push(f@));
        assert(cells@.take(i + 1).map_values(|c: CellValue| csv_field(c)) =~= cells@.take(i as int).map_values(
            |c: CellValue| csv_field(c),
        ).push(csv_field(cells@[i as int])));
    }
    assert(cells@.take(n as int) =~= cells@);
    let mut out = String::new();
    let sep = chars_of(",");
    crate::text::push_joined(&mut out, &parts, &sep);
    push_char(&mut out, '\n');
    out
}

/// The file formats of an export; any other name writes no rows.
#[derive(Debug, Clone, Copy, PartialEq, Eq, Structural)]
pub enum ExportFormat {
    Csv,
    Json,
    Other,
}

pub open spec fn format_named(name: Seq<char>) -> ExportFormat {
    if name == "csv"@ {
        ExportFormat::Csv
    } else if name == "json"@ {
        ExportFormat::Json
    } else {
        ExportFormat::Other
    }
}

pub fn export_format(name: &str) -> (f: ExportFormat)
    ensures
        f == format_named(name@),
{
    if str_is(name, "csv") {
        ExportFormat::Csv
    } else if str_is(name, "json") {
        ExportFormat::Json
    } else {
        ExportFormat::Other
    }
}

/// Where an export stands: whether a batch has arrived and whether a JSON
/// row has been written.
#[derive(Debug, Clone, Copy, PartialEq, Eq, Structural)]
pub struct ExportState {
    pub is_first_batch: bool,
    pub has_written_any_rows: bool,
}

pub fn export_start() -> (s: ExportState)
    ensures
        s.is_first_batch,
        !s.has_written_any_rows,
{
    ExportState { is_first_batch: true, has_written_any_rows: false }
}

/// The text written when a batch arrives, before its rows: on the first
/// batch only, the header line for CSV and the opening bracket for JSON.
pub fn batch_preamble(state: &mut ExportState, format: ExportFormat, column_names: &Vec<String>) -> (r: String)
    ensures
        !final(state).is_first_batch,
        final(state).has_written_any_rows == old(state).has_written_any_rows,
        r@ == if old(state).is_first_batch {
            match format {
                ExportFormat::Csv => csv_line(string_views(column_names@)),
                ExportFormat::Json => "[\n"@,
                ExportFormat::Other => Seq::empty(),
            }
        } else {
            Seq::empty()
        },
{
    if state.is_first_batch {
        state.is_first_batch = false;
        match format {
            ExportFormat::Csv => csv_header_line(column_names),
            ExportFormat::Json => String::from_str("[\n"),
            ExportFormat::Other => String::new(),
        }
    } else {
        String::new()
    }
}

/// The JSON text of one row object as it is appended: after a separator
/// unless it is the first row.
pub open spec fn json_chunk(has_written_any_rows: bool, row: Seq<char>) -> Seq<char> {
    if has_written_any_rows {
        ",\n"@ + row
    } else {
        row
    }
}

pub fn json_row_chunk(state: &mut ExportState, row_json: &str) -> (r: String)
    ensures
        final(state).has_written_any_rows,
        final(state).is_first_batch == old(state).is_first_batch,
        r@ == json_chunk(old(state).has_written_any_rows, row_json@),
{
    let mut out = String::new();
    if state.has_written_any_rows {
        out.append(",\n");
    } else {
        state.has_written_any_rows = true;
    }
    out.append(row_json);
    out
}

/// The text that ends an export: for JSON, the closing bracket, after an
/// opening one when no batch arrived.
pub fn export_epilogue(state: &ExportState, format: ExportFormat) -> (r: String)
    ensures
        r@ == match format {
            ExportFormat::Json => (if state.is_first_batch { "[\n"@ } else { Seq::empty() }) + "\n]\n"@,
            _ => Seq::<char>::empty(),
        },
{
    match format {
        ExportFormat::Json => {
            let mut out = String::new();
            if state.is_first_batch {
                out.append("[\n");
            }
            out.append("\n]\n");
            out
        },
        _ => String::new(),
    }
}

/// The JSON chunks of a sequence of rows appended one after another from a
/// given state, concatenated.
pub open spec fn json_chunks(has_written_any_rows: bool, rows: Seq<Seq<char>>) -> Seq<char>
    decreases rows.len(),
{
    if rows.len() == 0 {
        Seq::empty()
    } else {
        json_chunks(has_written_any_rows, rows.drop_last()) + json_chunk(
            has_written_any_rows || rows.len() > 1,
            rows.last(),
        )
    }
}

/// The rows of a JSON export, appended one by one from the start, form the
/// rows joined by ",\n": with the opening and closing brackets the file is
/// one JSON array of the row objects.
pub proof fn law_json_rows_form_array(rows: Seq<Seq<char>>)
    ensures
        json_chunks(false, rows) == join_with(rows, ",\n"@),
    decreases rows.len(),
{
    if rows.len() > 1 {
        law_json_rows_form_array(rows.drop_last());
    } else if rows.len() == 1 {
        assert(rows.drop_last() =~= Seq::<Seq<char>>::empty());
        assert(json_chunks(false, rows.drop_last()) == Seq::<char>::empty());
        assert(json_chunks(false, rows) =~= rows.last());
        assert(rows.last() == rows[0]);
    }
}

} // verus!
