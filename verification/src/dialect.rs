//! PostgreSQL quoting, escaping and paging rules.

use vstd::prelude::*;
use crate::api::SqlDialect;
use crate::text::{
    chars_of, contains_char_in, contains_chars, contains_seq, decimal, has_prefix, has_prefix_chars,
    join_with, lowercase_of, push_char, push_chars, push_decimal, replace_char, replace_char_chars,
    slice_chars, split_chars, split_on, string_of, to_lowercase, trim, trim_chars, views_of,
};

verus! {

// ------------------------------------------------------------------
// Specification
// ------------------------------------------------------------------

/// One identifier part in double quotes, each inner double quote doubled.
pub open spec fn quoted_part(part: Seq<char>) -> Seq<char> {
    seq!['"'] + replace_char(part, '"', seq!['"', '"']) + seq!['"']
}

/// A possibly schema-qualified identifier: each dot-separated part quoted
/// on its own, the parts joined again with dots.
pub open spec fn quoted_identifier(ident: Seq<char>) -> Seq<char> {
    join_with(split_on(ident, '.').map_values(|p: Seq<char>| quoted_part(p)), seq!['.'])
}

/// The body of a string literal: quotes doubled, and backslashes doubled
/// first when the server does not treat backslashes literally.
pub open spec fn escaped_literal(val: Seq<char>, standard_conforming_strings: bool) -> Seq<char> {
    if standard_conforming_strings {
        replace_char(val, '\'', seq!['\'', '\''])
    } else {
        replace_char(replace_char(val, '\\', seq!['\\', '\\']), '\'', seq!['\'', '\''])
    }
}

/// Column types that need a cast to text before comparison: those whose
/// lowercased name mentions json, xml or enum.
pub open spec fn needs_text_cast(lower_type: Seq<char>) -> bool {
    contains_seq(lower_type, "json"@) || contains_seq(lower_type, "xml"@) || contains_seq(
        lower_type,
        "enum"@,
    )
}

/// The statement without surrounding whitespace and without one trailing
/// semicolon (and the whitespace before it).
pub open spec fn query_body(sql: Seq<char>) -> Seq<char> {
    let t = trim(sql);
    if t.len() > 0 && t.last() == ';' {
        trim(t.drop_last())
    } else {
        t
    }
}

/// A lowercased statement that returns rows: it begins with `select` or
/// `with`.
pub open spec fn is_row_query(lower: Seq<char>) -> bool {
    has_prefix(lower, "select"@) || has_prefix(lower, "with"@)
}

/// The statement wrapped in a subquery with a row limit and an optional
/// offset.
pub open spec fn limited_query(body: Seq<char>, limit: nat, offset: Option<nat>) -> Seq<char> {
    "SELECT * FROM ("@ + body + ") AS _odv_wrapper LIMIT "@ + decimal(limit) + match offset {
        Some(o) => " OFFSET "@ + decimal(o),
        None => Seq::<char>::empty(),
    }
}

pub open spec fn offset_nat(offset: Option<usize>) -> Option<nat> {
    match offset {
        Some(o) => Some(o as nat),
        None => None,
    }
}

/// The paged form of a statement: row-returning statements are wrapped,
/// every other statement is left exactly as given.
pub open spec fn paged_query(sql: Seq<char>, limit: nat, offset: Option<nat>) -> Seq<char> {
    let body = query_body(sql);
    if is_row_query(lowercase_of(body)) {
        limited_query(body, limit, offset)
    } else {
        sql
    }
}

// ------------------------------------------------------------------
// Implementation
// ------------------------------------------------------------------

/// The PostgreSQL dialect. Whether backslashes are ordinary characters in
/// string literals follows the server's `standard_conforming_strings`.
pub struct PostgreDialect {
    standard_conforming_strings: bool,
}

impl PostgreDialect {
    pub closed spec fn conforming(&self) -> bool {
        self.standard_conforming_strings
    }

    pub fn new(standard_conforming_strings: bool) -> (d: Self)
        ensures
            d.conforming() == standard_conforming_strings,
    {
        PostgreDialect { standard_conforming_strings }
    }

    pub fn standard_conforming_strings(&self) -> (b: bool)
        ensures
            b == self.conforming(),
    {
        self.standard_conforming_strings
    }

    pub fn set_standard_conforming_strings(&mut self, on: bool)
        ensures
            final(self).conforming() == on,
    {
        self.standard_conforming_strings = on;
    }
}

impl Default for PostgreDialect {
    /// Servers conform to the standard unless they report otherwise.
    fn default() -> (d: Self)
        ensures
            d.conforming(),
    {
        PostgreDialect { standard_conforming_strings: true }
    }
}

/// The value of the server setting `standard_conforming_strings`, as the
/// text that `SHOW standard_conforming_strings` returns: on only for `on`.
pub fn standard_conforming_strings_from_setting(value: &str) -> (on: bool)
    ensures
        on == (value@ == "on"@),
{
    let v = chars_of(value);
    let on = chars_of("on");
    proof {
        reveal_strlit("on");
    }
    if v.len() != 2 {
        return false;
    }
    let b = has_prefix_chars(&v, &on);
    assert(v@.take(2) =~= v@);
    b
}

proof fn lemma_split_without_sep(s: Seq<char>, sep: char)
    requires
        !s.contains(sep),
    ensures
        split_on(s, sep) == seq![s],
    decreases s.len(),
{
    if s.len() > 0 {
        let p = s.drop_last();
        assert(!p.contains(sep)) by {
            if p.contains(sep) {
                let k = choose|k: int| 0 <= k < p.len() && p[k] == sep;
                assert(s[k] == sep);
            }
        }
        lemma_split_without_sep(p, sep);
        assert(s.last() != sep) by {
            assert(s[s.len() - 1] == s.last());
        }
        assert(p.push(s.last()) =~= s);
        assert(seq![p].update(0, p.push(s.last())) =~= seq![s]);
    } else {
        assert(s =~= Seq::<char>::empty());
    }
}

fn push_quoted_part(out: &mut String, part: &Vec<char>)
    ensures
        final(out)@ == old(out)@ + quoted_part(part@),
{
    let dq = vec!['"', '"'];
    push_char(out, '"');
    let doubled = replace_char_chars(part, '"', &dq);
    push_chars(out, &doubled);
    push_char(out, '"');
    assert(old(out)@.push('"') + doubled@ + seq!['"'] =~= old(out)@.push('"').add(doubled@).push('"'));
    assert(old(out)@ + quoted_part(part@) =~= old(out)@.push('"').add(doubled@).push('"'));
}

impl SqlDialect for PostgreDialect {
    fn quote_identifier(&self, ident: &str) -> (r: String)
        ensures
            r@ == quoted_identifier(ident@),
    {
        let chars = chars_of(ident);
        let mut out = String::new();
        if contains_char_in(&chars, '.') {
            let parts = split_chars(&chars, '.');
            let n = parts.len();
            let ghost pieces = split_on(ident@, '.');
            let ghost quoted = pieces.map_values(|p: Seq<char>| quoted_part(p));
            for i in 0..n
                invariant
                    n == parts@.len(),
                    views_of(parts@) == pieces,
                    pieces == split_on(ident@, '.'),
                    quoted == pieces.map_values(|p: Seq<char>| quoted_part(p)),
                    out@ == join_with(quoted.take(i as int), seq!['.']),
            {
                assert(parts@[i as int]@ == pieces[i as int]);
                assert(quoted.take(i + 1).drop_last() =~= quoted.take(i as int));
                if i > 0 {
                    push_char(&mut out, '.');
                    assert(out@ == join_with(quoted.take(i as int), seq!['.']) + seq!['.']);
                } else {
                    assert(quoted.take(1) =~= seq![quoted[0]]);
                }
                push_quoted_part(&mut out, &parts[i]);
            }
            assert(quoted.take(n as int) =~= quoted);
        } else {
            push_quoted_part(&mut out, &chars);
            proof {
                lemma_split_without_sep(ident@, '.');
                assert(seq![ident@].map_values(|p: Seq<char>| quoted_part(p)) =~= seq![quoted_part(ident@)]);
                assert(out@ =~= quoted_part(ident@));
            }
        }
        out
    }

    fn escape_string_literal(&self, val: &str) -> (r: String)
        ensures
            r@ == escaped_literal(val@, self.conforming()),
    {
        let chars = chars_of(val);
        let quotes = vec!['\'', '\''];
        if self.standard_conforming_strings {
            let out = replace_char_chars(&chars, '\'', &quotes);
            string_of(&out)
        } else {
            let slashes = vec!['\\', '\\'];
            let once = replace_char_chars(&chars, '\\', &slashes);
            let out = replace_char_chars(&once, '\'', &quotes);
            string_of(&out)
        }
    }

    fn get_type_cast_clause(&self, column_type: &str) -> (r: Option<String>)
        ensures
            r is Some <==> needs_text_cast(lowercase_of(column_type@)),
            r matches Some(t) ==> t@ == "::text"@,
    {
        let lower = to_lowercase(column_type);
        let ty = chars_of(lower.as_str());
        let json = chars_of("json");
        let xml = chars_of("xml");
        let en = chars_of("enum");
        if contains_chars(&ty, &json) || contains_chars(&ty, &xml) || contains_chars(&ty, &en) {
            Some(String::from_str("::text"))
        } else {
            None
        }
    }

    fn transform_query_limit(&self, sql: &str, limit: usize, offset: Option<usize>) -> (r: String)
        ensures
            r@ == paged_query(sql@, limit as nat, offset_nat(offset)),
            !(has_prefix(lowercase_of(query_body(sql@)), "select"@) || has_prefix(
                lowercase_of(query_body(sql@)),
                "with"@,
            )) ==> r@ == sql@,
    {
        let chars = chars_of(sql);
        let mut body = trim_chars(&chars);
        if body.len() > 0 && body[body.len() - 1] == ';' {
            let inner = slice_chars(&body, 0, body.len() - 1);
            assert(inner@ =~= trim(sql@).drop_last());
            body = trim_chars(&inner);
        }
        let body_text = string_of(&body);
        let lower = to_lowercase(body_text.as_str());
        if starts_row_query(lower.as_str()) {
            let mut out = String::from_str("SELECT * FROM (");
            push_chars(&mut out, &body);
            out.append(") AS _odv_wrapper LIMIT ");
            push_decimal(&mut out, limit as u64);
            match offset {
                Some(off) => {
                    out.append(" OFFSET ");
                    push_decimal(&mut out, off as u64);
                },
                None => {},
            }
            assert(out@ =~= limited_query(body@, limit as nat, offset_nat(offset)));
            out
        } else {
            String::from_str(sql)
        }
    }
}

/// Whether an already lowercased statement returns rows, that is, begins
/// with `select` or `with`.
pub fn starts_row_query(lower: &str) -> (b: bool)
    ensures
        b == is_row_query(lower@),
        b == (has_prefix(lower@, "select"@) || has_prefix(lower@, "with"@)),
{
    let l = chars_of(lower);
    let select = chars_of("select");
    let with = chars_of("with");
    has_prefix_chars(&l, &select) || has_prefix_chars(&l, &with)
}

// ------------------------------------------------------------------
// Laws
// ------------------------------------------------------------------

proof fn lemma_doubling_injective(a: Seq<char>, b: Seq<char>, q: char)
    requires
        replace_char(a, q, seq![q, q]) == replace_char(b, q, seq![q, q]),
    ensures
        a == b,
    decreases a.len() + b.len(),
{
    let ra = replace_char(a, q, seq![q, q]);
    if a.len() == 0 && b.len() == 0 {
    } else if a.len() == 0 {
        assert(replace_char(b, q, seq![q, q]).len() > 0) by {
            lemma_replace_len_positive(b, q);
        }
    } else if b.len() == 0 {
        lemma_replace_len_positive(a, q);
    } else {
        let pa = replace_char(a.drop_last(), q, seq![q, q]);
        let pb = replace_char(b.drop_last(), q, seq![q, q]);
        if a.last() == q && b.last() == q {
            assert(pa =~= ra.subrange(0, ra.len() - 2));
            assert(pb =~= ra.subrange(0, ra.len() - 2));
            lemma_doubling_injective(a.drop_last(), b.drop_last(), q);
            assert(a =~= a.drop_last().push(q));
            assert(b =~= b.drop_last().push(q));
        } else if a.last() != q && b.last() != q {
            assert(ra.last() == a.last());
            assert(ra.last() == b.last());
            assert(pa =~= ra.drop_last());
            assert(pb =~= ra.drop_last());
            lemma_doubling_injective(a.drop_last(), b.drop_last(), q);
            assert(a =~= a.drop_last().push(a.last()));
            assert(b =~= b.drop_last().push(b.last()));
        } else if a.last() == q {
            assert(ra.last() == q);
            assert(ra.last() == b.last());
        } else {
            assert(ra.last() == a.last());
            assert(ra.last() == q);
        }
    }
}

proof fn lemma_replace_len_positive(s: Seq<char>, q: char)
    requires
        s.len() > 0,
    ensures
        replace_char(s, q, seq![q, q]).len() > 0,
{
}

/// Quoting is injective: two different identifier parts never give the
/// same quoted text, so a quoted name always denotes the name it was made
/// from.
pub proof fn law_quoted_part_injective(a: Seq<char>, b: Seq<char>)
    requires
        quoted_part(a) == quoted_part(b),
    ensures
        a == b,
{
    let qa = quoted_part(a);
    assert(replace_char(a, '"', seq!['"', '"']) =~= qa.subrange(1, qa.len() - 1));
    assert(replace_char(b, '"', seq!['"', '"']) =~= qa.subrange(1, qa.len() - 1));
    lemma_doubling_injective(a, b, '"');
}

/// Escaping is injective in either server mode: two different values never
/// give the same literal body, so the literal always stands for the value it
/// was made from.
pub proof fn law_escaped_literal_injective(a: Seq<char>, b: Seq<char>, standard_conforming_strings: bool)
    requires
        escaped_literal(a, standard_conforming_strings) == escaped_literal(b, standard_conforming_strings),
    ensures
        a == b,
{
    if standard_conforming_strings {
        lemma_doubling_injective(a, b, '\'');
    } else {
        lemma_doubling_injective(
            replace_char(a, '\\', seq!['\\', '\\']),
            replace_char(b, '\\', seq!['\\', '\\']),
            '\'',
        );
        lemma_doubling_injective(a, b, '\\');
    }
}

/// A statement that does not begin with `select` or `with` (after trimming
/// and lowercasing) is passed through unchanged, whatever the limit.
pub proof fn law_non_row_queries_unchanged(sql: Seq<char>, limit: nat, offset: Option<nat>)
    requires
        !is_row_query(lowercase_of(query_body(sql))),
    ensures
        paged_query(sql, limit, offset) == sql,
{
}

/// Paging wraps exactly the statements whose trimmed, lowercased body begins
/// with `select` or `with`; every statement that begins otherwise (`show`,
/// `insert`, `update`, `delete`, ...) is returned exactly as given.
pub proof fn law_only_select_and_with_are_paged(sql: Seq<char>, limit: nat, offset: Option<nat>)
    ensures
        (has_prefix(lowercase_of(query_body(sql)), "select"@) || has_prefix(lowercase_of(query_body(sql)), "with"@))
            ==> paged_query(sql, limit, offset) == "SELECT * FROM ("@ + query_body(sql)
            + ") AS _odv_wrapper LIMIT "@ + decimal(limit) + match offset {
            Some(o) => " OFFSET "@ + decimal(o),
            None => Seq::<char>::empty(),
        },
        !(has_prefix(lowercase_of(query_body(sql)), "select"@) || has_prefix(lowercase_of(query_body(sql)), "with"@))
            ==> paged_query(sql, limit, offset) == sql,
{
}

} // verus!
