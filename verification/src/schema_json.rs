//! Reading the persisted schema registry snapshot back: a parser for the
//! JSON array that `SchemaCollection::to_json` emits. Its contract states
//! the round trip in both directions: every accepted snapshot re-serializes
//! to exactly the input, and every serialized collection whose text fields
//! carry no double quote is accepted and returned unchanged.
use crate::schema::{
    bool_text, decl_json, decls_json, schema_json, ColumnType, DeclModel, SchemaCollection,
    SchemaDeclaration,
};
use crate::text::{
    all_digits, dec_digits, digits_value, is_digit_char, lemma_dec_digits_value,
    lemma_dec_digits_wf, min_cap, str_eq,
};
use vstd::prelude::*;

verus! {

/// Whether the characters `lit` stand at position `i` of `s`.
pub open spec fn lit_at(s: Seq<char>, i: int, lit: Seq<char>) -> bool {
    0 <= i && i + lit.len() <= s.len() && s.subrange(i, i + lit.len()) == lit
}

/// A text field the persisted form can carry between quotes: one holding
/// no double quote of its own.
pub open spec fn text_safe(t: Seq<char>) -> bool {
    forall|k: int| 0 <= k < t.len() ==> t[k] != '"'
}

/// Whether every text field of the declaration is quote-free, so that its
/// persisted form can be read back.
pub open spec fn decl_json_safe(m: DeclModel) -> bool {
    text_safe(m.name) && text_safe(m.display_name) && text_safe(m.default) && text_safe(m.hint)
        && text_safe(m.layout)
}

/// Whether every declaration of the collection is quote-free.
pub open spec fn schema_json_safe(c: Seq<DeclModel>) -> bool {
    forall|i: int| 0 <= i < c.len() ==> decl_json_safe(#[trigger] c[i])
}

/// Splits a known occurrence of `a + b` into its two halves.
proof fn lemma_peel(s: Seq<char>, i: int, a: Seq<char>, b: Seq<char>)
    requires
        0 <= i,
        i + a.len() + b.len() <= s.len(),
        s.subrange(i, i + a.len() + b.len()) == a + b,
    ensures
        lit_at(s, i, a),
        lit_at(s, i + a.len(), b),
        s.subrange(i, i + a.len()) == a,
        s.subrange(i + a.len(), i + a.len() + b.len()) == b,
{
    assert forall|k: int| 0 <= k < a.len() implies s[i + k] == a[k] by {
        assert(s.subrange(i, i + a.len() + b.len())[k] == s[i + k]);
    }
    assert forall|k: int| 0 <= k < b.len() implies s[i + a.len() + k] == b[k] by {
        assert(s.subrange(i, i + a.len() + b.len())[a.len() + k] == s[i + a.len() + k]);
    }
    assert(s.subrange(i, i + a.len()) =~= a);
    assert(s.subrange(i + a.len(), i + a.len() + b.len()) =~= b);
}

/// Where each piece of a persisted declaration stands, relative to the
/// object's start `i`: the name field, then each delimiter, field and
/// closing quote in order, ending one past the closing brace.
pub open spec fn layout_facts(s: Seq<char>, i: int, m: DeclModel) -> bool {
    let o_name = i + "{\"name\":\""@.len();
    let o_q1 = o_name + m.name.len();
    let o_dn = o_q1 + 1 + ",\"display_name\":\""@.len();
    let o_q2 = o_dn + m.display_name.len();
    let o_bu = o_q2 + 1 + ",\"unique\":"@.len();
    let o_ml = o_bu + bool_text(m.unique).len() + ",\"max_length\":"@.len();
    let o_mnl = o_ml + dec_digits(m.max_length as nat).len() + ",\"min_length\":"@.len();
    let o_mx = o_mnl + dec_digits(m.min_length as nat).len() + ",\"max\":"@.len();
    let o_mn = o_mx + dec_digits(m.max as nat).len() + ",\"min\":"@.len();
    let o_bn = o_mn + dec_digits(m.min as nat).len() + ",\"nullable\":"@.len();
    let o_ct = o_bn + bool_text(m.nullable).len() + ",\"column_type\":\""@.len();
    let o_q3 = o_ct + m.column_type.text().len();
    let o_df = o_q3 + 1 + ",\"default\":\""@.len();
    let o_q4 = o_df + m.default.len();
    let o_ht = o_q4 + 1 + ",\"hint\":\""@.len();
    let o_q5 = o_ht + m.hint.len();
    let o_lt = o_q5 + 1 + ",\"layout\":\""@.len();
    let o_q6 = o_lt + m.layout.len();
    &&& lit_at(s, i, "{\"name\":\""@)
    &&& s.subrange(o_name, o_q1) == m.name
    &&& s[o_q1] == '"'
    &&& lit_at(s, o_q1 + 1, ",\"display_name\":\""@)
    &&& s.subrange(o_dn, o_q2) == m.display_name
    &&& s[o_q2] == '"'
    &&& lit_at(s, o_q2 + 1, ",\"unique\":"@)
    &&& lit_at(s, o_bu, bool_text(m.unique))
    &&& lit_at(s, o_bu + bool_text(m.unique).len(), ",\"max_length\":"@)
    &&& s.subrange(o_ml, o_ml + dec_digits(m.max_length as nat).len()) == dec_digits(
        m.max_length as nat,
    )
    &&& s[o_ml + dec_digits(m.max_length as nat).len()] == ','
    &&& lit_at(s, o_ml + dec_digits(m.max_length as nat).len(), ",\"min_length\":"@)
    &&& s.subrange(o_mnl, o_mnl + dec_digits(m.min_length as nat).len()) == dec_digits(
        m.min_length as nat,
    )
    &&& s[o_mnl + dec_digits(m.min_length as nat).len()] == ','
    &&& lit_at(s, o_mnl + dec_digits(m.min_length as nat).len(), ",\"max\":"@)
    &&& s.subrange(o_mx, o_mx + dec_digits(m.max as nat).len()) == dec_digits(m.max as nat)
    &&& s[o_mx + dec_digits(m.max as nat).len()] == ','
    &&& lit_at(s, o_mx + dec_digits(m.max as nat).len(), ",\"min\":"@)
    &&& s.subrange(o_mn, o_mn + dec_digits(m.min as nat).len()) == dec_digits(m.min as nat)
    &&& s[o_mn + dec_digits(m.min as nat).len()] == ','
    &&& lit_at(s, o_mn + dec_digits(m.min as nat).len(), ",\"nullable\":"@)
    &&& lit_at(s, o_bn, bool_text(m.nullable))
    &&& lit_at(s, o_bn + bool_text(m.nullable).len(), ",\"column_type\":\""@)
    &&& lit_at(s, o_ct, m.column_type.text())
    &&& s[o_q3] == '"'
    &&& lit_at(s, o_q3, "\""@)
    &&& lit_at(s, o_q3 + 1, ",\"default\":\""@)
    &&& s.subrange(o_df, o_q4) == m.default
    &&& s[o_q4] == '"'
    &&& lit_at(s, o_q4 + 1, ",\"hint\":\""@)
    &&& s.subrange(o_ht, o_q5) == m.hint
    &&& s[o_q5] == '"'
    &&& lit_at(s, o_q5 + 1, ",\"layout\":\""@)
    &&& s.subrange(o_lt, o_q6) == m.layout
    &&& s[o_q6] == '"'
    &&& s[o_q6 + 1] == '}'
    &&& o_q6 + 2 == i + decl_json(m).len()
    &&& i + decl_json(m).len() <= s.len()
}

/// A persisted declaration occurring at `i` decomposes into its pieces at
/// the positions `layout_facts` names.
#[verifier::rlimit(100)]
proof fn lemma_decl_layout(s: Seq<char>, i: int, m: DeclModel)
    requires
        lit_at(s, i, decl_json(m)),
    ensures
        layout_facts(s, i, m),
{
    reveal(crate::schema::decl_json_bounds);
    reveal(crate::schema::decl_json_typing);
    reveal(crate::schema::decl_json_meta);
    reveal_strlit("\"");
    reveal_strlit("}");
    reveal_strlit(",\"min_length\":");
    reveal_strlit(",\"max\":");
    reveal_strlit(",\"min\":");
    reveal_strlit(",\"nullable\":");
    let q: Seq<char> = "\""@;
    let rb: Seq<char> = "}"@;
    let t_meta = crate::schema::decl_json_meta(m);
    let t_typing = crate::schema::decl_json_typing(m);
    let t_bounds = crate::schema::decl_json_bounds(m);
    // head
    let t1 = m.name + (q + (",\"display_name\":\""@ + (m.display_name + (q + (",\"unique\":"@ + (
    bool_text(m.unique) + t_bounds))))));
    lemma_peel(s, i, "{\"name\":\""@, t1);
    let p1 = i + "{\"name\":\""@.len();
    let t2 = q + (",\"display_name\":\""@ + (m.display_name + (q + (",\"unique\":"@ + (bool_text(
        m.unique,
    ) + t_bounds)))));
    lemma_peel(s, p1, m.name, t2);
    let p2 = p1 + m.name.len();
    let t3 = ",\"display_name\":\""@ + (m.display_name + (q + (",\"unique\":"@ + (bool_text(
        m.unique,
    ) + t_bounds))));
    lemma_peel(s, p2, q, t3);
    let p3 = p2 + 1;
    let t4 = m.display_name + (q + (",\"unique\":"@ + (bool_text(m.unique) + t_bounds)));
    lemma_peel(s, p3, ",\"display_name\":\""@, t4);
    let p4 = p3 + ",\"display_name\":\""@.len();
    let t5 = q + (",\"unique\":"@ + (bool_text(m.unique) + t_bounds));
    lemma_peel(s, p4, m.display_name, t5);
    let p5 = p4 + m.display_name.len();
    let t6 = ",\"unique\":"@ + (bool_text(m.unique) + t_bounds);
    lemma_peel(s, p5, q, t6);
    let p6 = p5 + 1;
    let t7 = bool_text(m.unique) + t_bounds;
    lemma_peel(s, p6, ",\"unique\":"@, t7);
    let p7 = p6 + ",\"unique\":"@.len();
    lemma_peel(s, p7, bool_text(m.unique), t_bounds);
    let p8 = p7 + bool_text(m.unique).len();
    // bounds segment
    let dd1 = dec_digits(m.max_length as nat);
    let dd2 = dec_digits(m.min_length as nat);
    let dd3 = dec_digits(m.max as nat);
    let dd4 = dec_digits(m.min as nat);
    let b1 = dd1 + (",\"min_length\":"@ + (dd2 + (",\"max\":"@ + (dd3 + (",\"min\":"@ + (dd4
        + t_typing))))));
    lemma_peel(s, p8, ",\"max_length\":"@, b1);
    let p9 = p8 + ",\"max_length\":"@.len();
    let b2 = ",\"min_length\":"@ + (dd2 + (",\"max\":"@ + (dd3 + (",\"min\":"@ + (dd4 + t_typing)))));
    lemma_peel(s, p9, dd1, b2);
    let p10 = p9 + dd1.len();
    let b3 = dd2 + (",\"max\":"@ + (dd3 + (",\"min\":"@ + (dd4 + t_typing))));
    lemma_peel(s, p10, ",\"min_length\":"@, b3);
    let p11 = p10 + ",\"min_length\":"@.len();
    let b4 = ",\"max\":"@ + (dd3 + (",\"min\":"@ + (dd4 + t_typing)));
    lemma_peel(s, p11, dd2, b4);
    let p12 = p11 + dd2.len();
    let b5 = dd3 + (",\"min\":"@ + (dd4 + t_typing));
    lemma_peel(s, p12, ",\"max\":"@, b5);
    let p13 = p12 + ",\"max\":"@.len();
    let b6 = ",\"min\":"@ + (dd4 + t_typing);
    lemma_peel(s, p13, dd3, b6);
    let p14 = p13 + dd3.len();
    let b7 = dd4 + t_typing;
    lemma_peel(s, p14, ",\"min\":"@, b7);
    let p15 = p14 + ",\"min\":"@.len();
    lemma_peel(s, p15, dd4, t_typing);
    let p16 = p15 + dd4.len();
    // typing segment
    let ct = m.column_type.text();
    let y1 = bool_text(m.nullable) + (",\"column_type\":\""@ + (ct + (q + (",\"default\":\""@ + (
    m.default + (q + t_meta))))));
    lemma_peel(s, p16, ",\"nullable\":"@, y1);
    let p17 = p16 + ",\"nullable\":"@.len();
    let y2 = ",\"column_type\":\""@ + (ct + (q + (",\"default\":\""@ + (m.default + (q + t_meta)))));
    lemma_peel(s, p17, bool_text(m.nullable), y2);
    let p18 = p17 + bool_text(m.nullable).len();
    let y3 = ct + (q + (",\"default\":\""@ + (m.default + (q + t_meta))));
    lemma_peel(s, p18, ",\"column_type\":\""@, y3);
    let p19 = p18 + ",\"column_type\":\""@.len();
    let y4 = q + (",\"default\":\""@ + (m.default + (q + t_meta)));
    lemma_peel(s, p19, ct, y4);
    let p20 = p19 + ct.len();
    let y5 = ",\"default\":\""@ + (m.default + (q + t_meta));
    lemma_peel(s, p20, q, y5);
    let p21 = p20 + 1;
    let y6 = m.default + (q + t_meta);
    lemma_peel(s, p21, ",\"default\":\""@, y6);
    let p22 = p21 + ",\"default\":\""@.len();
    let y7 = q + t_meta;
    lemma_peel(s, p22, m.default, y7);
    let p23 = p22 + m.default.len();
    lemma_peel(s, p23, q, t_meta);
    let p24 = p23 + 1;
    // meta segment
    let z1 = m.hint + (q + (",\"layout\":\""@ + (m.layout + (q + rb))));
    lemma_peel(s, p24, ",\"hint\":\""@, z1);
    let p25 = p24 + ",\"hint\":\""@.len();
    let z2 = q + (",\"layout\":\""@ + (m.layout + (q + rb)));
    lemma_peel(s, p25, m.hint, z2);
    let p26 = p25 + m.hint.len();
    let z3 = ",\"layout\":\""@ + (m.layout + (q + rb));
    lemma_peel(s, p26, q, z3);
    let p27 = p26 + 1;
    let z4 = m.layout + (q + rb);
    lemma_peel(s, p27, ",\"layout\":\""@, z4);
    let p28 = p27 + ",\"layout\":\""@.len();
    let z5 = q + rb;
    lemma_peel(s, p28, m.layout, z5);
    let p29 = p28 + m.layout.len();
    lemma_peel(s, p29, q, rb);
    // character-level facts behind the quote, comma and brace clauses
    assert(s.subrange(p2, p2 + 1) == q && s[p2] == q[0]);
    assert(s.subrange(p5, p5 + 1) == q && s[p5] == q[0]);
    assert(s.subrange(p10, p10 + ",\"min_length\":"@.len() as int) == ",\"min_length\":"@);
    assert(s[p10] == ",\"min_length\":"@[0]);
    assert(s.subrange(p12, p12 + ",\"max\":"@.len() as int) == ",\"max\":"@);
    assert(s[p12] == ",\"max\":"@[0]);
    assert(s.subrange(p14, p14 + ",\"min\":"@.len() as int) == ",\"min\":"@);
    assert(s[p14] == ",\"min\":"@[0]);
    assert(s.subrange(p16, p16 + ",\"nullable\":"@.len() as int) == ",\"nullable\":"@);
    assert(s[p16] == ",\"nullable\":"@[0]);
    assert(s.subrange(p20, p20 + 1) == q && s[p20] == q[0]);
    assert(s.subrange(p23, p23 + 1) == q && s[p23] == q[0]);
    assert(s.subrange(p26, p26 + 1) == q && s[p26] == q[0]);
    assert(s.subrange(p29, p29 + 1) == q && s[p29] == q[0]);
    assert(s.subrange(p29 + 1, p29 + 2) == rb && s[p29 + 1] == rb[0]);
    assert(p29 + 2 == i + decl_json(m).len());
}

/// Consumes `lit` at position `i`, character for character.
fn skip_literal(s: &str, i: usize, lit: &str) -> (r: Option<usize>)
    requires
        i <= s@.len(),
    ensures
        match r {
            Some(j) => lit_at(s@, i as int, lit@) && j == i + lit@.len(),
            None => !lit_at(s@, i as int, lit@),
        },
{
    let n = s.unicode_len();
    let m = lit.unicode_len();
    if n - i < m {
        return None;
    }
    let mut k: usize = 0;
    while k < m
        invariant
            0 <= k <= m,
            m <= n - i,
            i <= n == s@.len(),
            m == lit@.len(),
            forall|q: int| 0 <= q < k ==> s@[i + q] == lit@[q],
        decreases m - k,
    {
        if s.get_char(i + k) != lit.get_char(k) {
            proof {
                assert(s@.subrange(i as int, i + m as int)[k as int] == s@[i + k]);
            }
            return None;
        }
        k = k + 1;
    }
    proof {
        assert(s@.subrange(i as int, i + m as int) =~= lit@);
    }
    Some(i + m)
}

/// Reads up to the next double quote, consuming it.
fn read_quoted(s: &str, i: usize) -> (r: Option<(String, usize)>)
    requires
        i <= s@.len(),
    ensures
        match r {
            Some(p) => {
                &&& i < p.1 <= s@.len()
                &&& p.0@ == s@.subrange(i as int, p.1 - 1)
                &&& s@[p.1 - 1] == '"'
                &&& forall|k: int| i <= k < p.1 - 1 ==> s@[k] != '"'
            },
            None => forall|k: int| i <= k < s@.len() ==> s@[k] != '"',
        },
{
    let n = s.unicode_len();
    let mut out = String::new();
    let mut k = i;
    while k < n
        invariant
            i <= k <= n == s@.len(),
            out@ == s@.subrange(i as int, k as int),
            forall|q: int| i <= q < k ==> s@[q] != '"',
        decreases n - k,
    {
        let c = s.get_char(k);
        if c == '"' {
            return Some((out, k + 1));
        }
        out.push(c);
        proof {
            assert(out@ =~= s@.subrange(i as int, k + 1 as int));
        }
        k = k + 1;
    }
    None
}

/// Reads a run of decimal digits as a `u32`: at least one digit, value
/// below 2^32, ending at the first non-digit.
fn read_u32_digits(s: &str, i: usize) -> (r: Option<(u32, usize)>)
    requires
        i <= s@.len(),
    ensures
        match r {
            Some(p) => {
                &&& i < p.1 <= s@.len()
                &&& all_digits(s@.subrange(i as int, p.1 as int))
                &&& (p.1 < s@.len() ==> !is_digit_char(s@[p.1 as int]))
                &&& p.0 == digits_value(s@.subrange(i as int, p.1 as int))
            },
            None => (i == s@.len() || !is_digit_char(s@[i as int])) || exists|e: int|
                i < e <= s@.len() && all_digits(s@.subrange(i as int, e)) && digits_value(
                    #[trigger] s@.subrange(i as int, e),
                ) >= 0x1_0000_0000,
        },
{
    let _n = s.unicode_len();
    let (end, v) = crate::text::scan_digits_capped(s, i, 0x1_0000_0000u64);
    if end == i {
        proof {
            if i < s@.len() {
                assert(!is_digit_char(s@[i as int]));
            }
        }
        return None;
    }
    if v == 0x1_0000_0000u64 {
        proof {
            assert(digits_value(s@.subrange(i as int, end as int)) >= 0x1_0000_0000);
        }
        return None;
    }
    proof {
        assert(min_cap(digits_value(s@.subrange(i as int, end as int)), 0x1_0000_0000nat)
            == digits_value(s@.subrange(i as int, end as int)));
    }
    Some((v as u32, end))
}

/// Reads a boolean literal.
fn read_bool(s: &str, i: usize) -> (r: Option<(bool, usize)>)
    requires
        i <= s@.len(),
    ensures
        match r {
            Some(p) => {
                &&& lit_at(s@, i as int, bool_text(p.0))
                &&& p.1 == i + bool_text(p.0).len()
            },
            None => !lit_at(s@, i as int, "true"@) && !lit_at(s@, i as int, "false"@),
        },
{
    match skip_literal(s, i, "true") {
        Some(j) => Some((true, j)),
        None => match skip_literal(s, i, "false") {
            Some(j) => Some((false, j)),
            None => None,
        },
    }
}

/// Reads a column type tag followed by its closing quote.
fn read_column_type(s: &str, i: usize) -> (r: Option<(ColumnType, usize)>)
    requires
        i <= s@.len(),
    ensures
        match r {
            Some(p) => {
                &&& lit_at(s@, i as int, p.0.text())
                &&& lit_at(s@, i + p.0.text().len(), "\""@)
                &&& p.1 == i + p.0.text().len() + "\""@.len()
            },
            None => forall|t: ColumnType|
                !((#[trigger] lit_at(s@, i as int, t.text())) && lit_at(
                    s@,
                    i + t.text().len(),
                    "\""@,
                )),
        },
{
    if let Some(j) = skip_literal(s, i, "text") {
        if let Some(j2) = skip_literal(s, j, "\"") {
            return Some((ColumnType::TEXT, j2));
        }
        proof {
            assert forall|t: ColumnType|
                !((#[trigger] lit_at(s@, i as int, t.text())) && lit_at(
                    s@,
                    i + t.text().len(),
                    "\""@,
                )) by {
                if lit_at(s@, i as int, t.text()) {
                    lemma_tags_distinct(s@, i as int, t, ColumnType::TEXT);
                }
            }
        }
        return None;
    }
    if let Some(j) = skip_literal(s, i, "varchar") {
        if let Some(j2) = skip_literal(s, j, "\"") {
            return Some((ColumnType::VARCHAR, j2));
        }
        proof {
            assert forall|t: ColumnType|
                !((#[trigger] lit_at(s@, i as int, t.text())) && lit_at(
                    s@,
                    i + t.text().len(),
                    "\""@,
                )) by {
                if lit_at(s@, i as int, t.text()) {
                    lemma_tags_distinct(s@, i as int, t, ColumnType::VARCHAR);
                }
            }
        }
        return None;
    }
    if let Some(j) = skip_literal(s, i, "int") {
        if let Some(j2) = skip_literal(s, j, "\"") {
            return Some((ColumnType::INT, j2));
        }
        proof {
            assert forall|t: ColumnType|
                !((#[trigger] lit_at(s@, i as int, t.text())) && lit_at(
                    s@,
                    i + t.text().len(),
                    "\""@,
                )) by {
                if lit_at(s@, i as int, t.text()) {
                    lemma_tags_distinct(s@, i as int, t, ColumnType::INT);
                }
            }
        }
        return None;
    }
    if let Some(j) = skip_literal(s, i, "real") {
        if let Some(j2) = skip_literal(s, j, "\"") {
            return Some((ColumnType::REAL, j2));
        }
        proof {
            assert forall|t: ColumnType|
                !((#[trigger] lit_at(s@, i as int, t.text())) && lit_at(
                    s@,
                    i + t.text().len(),
                    "\""@,
                )) by {
                if lit_at(s@, i as int, t.text()) {
                    lemma_tags_distinct(s@, i as int, t, ColumnType::REAL);
                }
            }
        }
        return None;
    }
    if let Some(j) = skip_literal(s, i, "bool") {
        if let Some(j2) = skip_literal(s, j, "\"") {
            return Some((ColumnType::BOOL, j2));
        }
        proof {
            assert forall|t: ColumnType|
                !((#[trigger] lit_at(s@, i as int, t.text())) && lit_at(
                    s@,
                    i + t.text().len(),
                    "\""@,
                )) by {
                if lit_at(s@, i as int, t.text()) {
                    lemma_tags_distinct(s@, i as int, t, ColumnType::BOOL);
                }
            }
        }
        return None;
    }
    proof {
        assert forall|t: ColumnType| !(#[trigger] lit_at(s@, i as int, t.text())) by {
            match t {
                ColumnType::TEXT => {},
                ColumnType::VARCHAR => {},
                ColumnType::INT => {},
                ColumnType::REAL => {},
                ColumnType::BOOL => {},
            }
        }
    }
    None
}

/// Two different type tags cannot both stand at the same position.
proof fn lemma_tags_distinct(s: Seq<char>, i: int, t1: ColumnType, t2: ColumnType)
    requires
        lit_at(s, i, t1.text()),
        lit_at(s, i, t2.text()),
    ensures
        t1 == t2,
{
    reveal_strlit("text");
    reveal_strlit("varchar");
    reveal_strlit("int");
    reveal_strlit("real");
    reveal_strlit("bool");
    if t1 != t2 {
        assert(s.subrange(i, i + t1.text().len())[0] == s[i]);
        assert(s.subrange(i, i + t2.text().len())[0] == s[i]);
    }
}

/// Whether a persisted declaration of `m` stands at `i` and can be read
/// back: the object occurs there and its text fields are quote-free.
pub open spec fn hyp_decl(s: Seq<char>, i: int, m: DeclModel) -> bool {
    decl_json_safe(m) && lit_at(s, i, decl_json(m))
}

/// How many characters of a persisted declaration the text head occupies:
/// the opening brace through the uniqueness flag.
pub open spec fn decl_strings_len(m: DeclModel) -> int {
    "{\"name\":\""@.len() as int + m.name.len() + 1 + ",\"display_name\":\""@.len()
        + m.display_name.len() + 1 + ",\"unique\":"@.len() + bool_text(m.unique).len()
}

/// How many characters of a persisted declaration the leading fields
/// occupy, from the opening brace through the nullability flag.
pub open spec fn decl_head_len(m: DeclModel) -> int {
    decl_strings_len(m) + ",\"max_length\":"@.len() + dec_digits(m.max_length as nat).len()
        + ",\"min_length\":"@.len() + dec_digits(m.min_length as nat).len() + ",\"max\":"@.len()
        + dec_digits(m.max as nat).len() + ",\"min\":"@.len() + dec_digits(m.min as nat).len()
        + ",\"nullable\":"@.len() + bool_text(m.nullable).len()
}

/// Reads the name, the display name and the uniqueness flag.
#[verifier::rlimit(100)]
fn parse_decl_strings(s: &str, i: usize) -> (r: Option<(String, String, bool, usize)>)
    requires
        i <= s@.len(),
    ensures
        match r {
            Some(p) => i < p.3 <= s@.len(),
            None => true,
        },
        forall|m: DeclModel| #[trigger]
            hyp_decl(s@, i as int, m) ==> match r {
                Some(p) => p.0@ == m.name && p.1@ == m.display_name && p.2 == m.unique && p.3 == i
                    + decl_strings_len(m),
                None => false,
            },
{
    proof {
        reveal_strlit("\"");
        reveal_strlit("true");
        reveal_strlit("false");
    }
    let j0 = match skip_literal(s, i, "{\"name\":\"") {
        Some(j) => j,
        None => {
            proof {
                assert forall|m: DeclModel| !hyp_decl(s@, i as int, m) by {
                    if hyp_decl(s@, i as int, m) {
                        lemma_decl_layout(s@, i as int, m);
                    }
                }
            }
            return None;
        },
    };
    let (name, j1) = match read_quoted(s, j0) {
        Some(p) => p,
        None => {
            proof {
                assert forall|m: DeclModel| !hyp_decl(s@, i as int, m) by {
                    if hyp_decl(s@, i as int, m) {
                        lemma_decl_layout(s@, i as int, m);
                        assert(s@[j0 + m.name.len()] == '"');
                    }
                }
            }
            return None;
        },
    };
    proof {
        assert forall|m: DeclModel| #[trigger]
            hyp_decl(s@, i as int, m) implies name@ == m.name && j1 == j0 + m.name.len() + 1 by {
            lemma_decl_layout(s@, i as int, m);
            let oq = j0 + m.name.len();
            if j1 - 1 < oq {
                assert(s@[j1 - 1] == m.name[j1 - 1 - j0]);
            }
            if j1 - 1 > oq {
                assert(s@[oq] != '"');
            }
            assert(name@ =~= m.name);
        }
    }
    let j2 = match skip_literal(s, j1, ",\"display_name\":\"") {
        Some(j) => j,
        None => {
            proof {
                assert forall|m: DeclModel| !hyp_decl(s@, i as int, m) by {
                    if hyp_decl(s@, i as int, m) {
                        lemma_decl_layout(s@, i as int, m);
                    }
                }
            }
            return None;
        },
    };
    let (display_name, j3) = match read_quoted(s, j2) {
        Some(p) => p,
        None => {
            proof {
                assert forall|m: DeclModel| !hyp_decl(s@, i as int, m) by {
                    if hyp_decl(s@, i as int, m) {
                        lemma_decl_layout(s@, i as int, m);
                        assert(s@[j2 + m.display_name.len()] == '"');
                    }
                }
            }
            return None;
        },
    };
    proof {
        assert forall|m: DeclModel| #[trigger]
            hyp_decl(s@, i as int, m) implies display_name@ == m.display_name && j3 == j2
            + m.display_name.len() + 1 by {
            lemma_decl_layout(s@, i as int, m);
            let oq = j2 + m.display_name.len();
            if j3 - 1 < oq {
                assert(s@[j3 - 1] == m.display_name[j3 - 1 - j2]);
            }
            if j3 - 1 > oq {
                assert(s@[oq] != '"');
            }
            assert(display_name@ =~= m.display_name);
        }
    }
    let j4 = match skip_literal(s, j3, ",\"unique\":") {
        Some(j) => j,
        None => {
            proof {
                assert forall|m: DeclModel| !hyp_decl(s@, i as int, m) by {
                    if hyp_decl(s@, i as int, m) {
                        lemma_decl_layout(s@, i as int, m);
                    }
                }
            }
            return None;
        },
    };
    let (unique, j5) = match read_bool(s, j4) {
        Some(p) => p,
        None => {
            proof {
                assert forall|m: DeclModel| !hyp_decl(s@, i as int, m) by {
                    if hyp_decl(s@, i as int, m) {
                        lemma_decl_layout(s@, i as int, m);
                    }
                }
            }
            return None;
        },
    };
    proof {
        assert forall|m: DeclModel| #[trigger]
            hyp_decl(s@, i as int, m) implies unique == m.unique && j5 == i + decl_strings_len(
            m,
        ) by {
            lemma_decl_layout(s@, i as int, m);
            if unique != m.unique {
                assert(s@.subrange(j4 as int, j4 + bool_text(unique).len())[0] == s@[j4 as int]);
                assert(s@.subrange(j4 as int, j4 + bool_text(m.unique).len())[0] == s@[j4 as int]);
            }
        }
    }
    Some((name, display_name, unique, j5))
}

/// How many characters of a persisted declaration stand before its value
/// bounds.
pub open spec fn decl_lengths_len(m: DeclModel) -> int {
    decl_strings_len(m) + ",\"max_length\":"@.len() + dec_digits(m.max_length as nat).len()
        + ",\"min_length\":"@.len() + dec_digits(m.min_length as nat).len()
}

/// Reads the two length bounds.
#[verifier::rlimit(100)]
fn parse_decl_lengths(s: &str, anchor: Ghost<int>, j5: usize) -> (r: Option<(u32, u32, usize)>)
    requires
        j5 <= s@.len(),
        0 <= anchor@ <= j5,
        forall|m: DeclModel| #[trigger]
            hyp_decl(s@, anchor@, m) ==> j5 == anchor@ + decl_strings_len(m),
    ensures
        match r {
            Some(p) => j5 < p.2 <= s@.len(),
            None => true,
        },
        forall|m: DeclModel| #[trigger]
            hyp_decl(s@, anchor@, m) ==> match r {
                Some(p) => p.0 == m.max_length && p.1 == m.min_length && p.2 == anchor@
                    + decl_lengths_len(m),
                None => false,
            },
{
    let ghost i = anchor@;
    let j6 = match skip_literal(s, j5, ",\"max_length\":") {
        Some(j) => j,
        None => {
            proof {
                assert forall|m: DeclModel| !hyp_decl(s@, i, m) by {
                    if hyp_decl(s@, i, m) {
                        lemma_decl_layout(s@, i, m);
                    }
                }
            }
            return None;
        },
    };
    let (max_length, j7) = match read_u32_digits(s, j6) {
        Some(p) => p,
        None => {
            proof {
                assert forall|m: DeclModel| !hyp_decl(s@, i, m) by {
                    if hyp_decl(s@, i, m) {
                        lemma_decl_layout(s@, i, m);
                        lemma_num_at(s@, j6 as int, m.max_length);
                    }
                }
            }
            return None;
        },
    };
    proof {
        assert forall|m: DeclModel| #[trigger]
            hyp_decl(s@, i, m) implies max_length == m.max_length && j7 == j6 + dec_digits(
            m.max_length as nat,
        ).len() by {
            lemma_decl_layout(s@, i, m);
            lemma_num_read(s@, j6 as int, m.max_length, j7 as int, max_length);
        }
    }
    let j8 = match skip_literal(s, j7, ",\"min_length\":") {
        Some(j) => j,
        None => {
            proof {
                assert forall|m: DeclModel| !hyp_decl(s@, i, m) by {
                    if hyp_decl(s@, i, m) {
                        lemma_decl_layout(s@, i, m);
                    }
                }
            }
            return None;
        },
    };
    let (min_length, j9) = match read_u32_digits(s, j8) {
        Some(p) => p,
        None => {
            proof {
                assert forall|m: DeclModel| !hyp_decl(s@, i, m) by {
                    if hyp_decl(s@, i, m) {
                        lemma_decl_layout(s@, i, m);
                        lemma_num_at(s@, j8 as int, m.min_length);
                    }
                }
            }
            return None;
        },
    };
    proof {
        assert forall|m: DeclModel| #[trigger]
            hyp_decl(s@, i, m) implies min_length == m.min_length && j9 == i + decl_lengths_len(
            m,
        ) by {
            lemma_decl_layout(s@, i, m);
            lemma_num_read(s@, j8 as int, m.min_length, j9 as int, min_length);
        }
    }
    Some((max_length, min_length, j9))
}

/// Reads the two value bounds and the nullability flag.
#[verifier::rlimit(100)]
fn parse_decl_values(s: &str, anchor: Ghost<int>, j9: usize) -> (r: Option<(u32, u32, bool, usize)>)
    requires
        j9 <= s@.len(),
        0 <= anchor@ <= j9,
        forall|m: DeclModel| #[trigger]
            hyp_decl(s@, anchor@, m) ==> j9 == anchor@ + decl_lengths_len(m),
    ensures
        match r {
            Some(p) => j9 < p.3 <= s@.len(),
            None => true,
        },
        forall|m: DeclModel| #[trigger]
            hyp_decl(s@, anchor@, m) ==> match r {
                Some(p) => p.0 == m.max && p.1 == m.min && p.2 == m.nullable && p.3 == anchor@
                    + decl_head_len(m),
                None => false,
            },
{
    proof {
        reveal_strlit("true");
        reveal_strlit("false");
    }
    let ghost i = anchor@;
    let j10 = match skip_literal(s, j9, ",\"max\":") {
        Some(j) => j,
        None => {
            proof {
                assert forall|m: DeclModel| !hyp_decl(s@, i, m) by {
                    if hyp_decl(s@, i, m) {
                        lemma_decl_layout(s@, i, m);
                    }
                }
            }
            return None;
        },
    };
    let (max, j11) = match read_u32_digits(s, j10) {
        Some(p) => p,
        None => {
            proof {
                assert forall|m: DeclModel| !hyp_decl(s@, i, m) by {
                    if hyp_decl(s@, i, m) {
                        lemma_decl_layout(s@, i, m);
                        lemma_num_at(s@, j10 as int, m.max);
                    }
                }
            }
            return None;
        },
    };
    proof {
        assert forall|m: DeclModel| #[trigger]
            hyp_decl(s@, i, m) implies max == m.max && j11 == j10 + dec_digits(m.max as nat).len() by {
            lemma_decl_layout(s@, i, m);
            lemma_num_read(s@, j10 as int, m.max, j11 as int, max);
        }
    }
    let j12 = match skip_literal(s, j11, ",\"min\":") {
        Some(j) => j,
        None => {
            proof {
                assert forall|m: DeclModel| !hyp_decl(s@, i, m) by {
                    if hyp_decl(s@, i, m) {
                        lemma_decl_layout(s@, i, m);
                    }
                }
            }
            return None;
        },
    };
    let (min, j13) = match read_u32_digits(s, j12) {
        Some(p) => p,
        None => {
            proof {
                assert forall|m: DeclModel| !hyp_decl(s@, i, m) by {
                    if hyp_decl(s@, i, m) {
                        lemma_decl_layout(s@, i, m);
                        lemma_num_at(s@, j12 as int, m.min);
                    }
                }
            }
            return None;
        },
    };
    proof {
        assert forall|m: DeclModel| #[trigger]
            hyp_decl(s@, i, m) implies min == m.min && j13 == j12 + dec_digits(m.min as nat).len() by {
            lemma_decl_layout(s@, i, m);
            lemma_num_read(s@, j12 as int, m.min, j13 as int, min);
        }
    }
    let j14 = match skip_literal(s, j13, ",\"nullable\":") {
        Some(j) => j,
        None => {
            proof {
                assert forall|m: DeclModel| !hyp_decl(s@, i, m) by {
                    if hyp_decl(s@, i, m) {
                        lemma_decl_layout(s@, i, m);
                    }
                }
            }
            return None;
        },
    };
    let (nullable, j15) = match read_bool(s, j14) {
        Some(p) => p,
        None => {
            proof {
                assert forall|m: DeclModel| !hyp_decl(s@, i, m) by {
                    if hyp_decl(s@, i, m) {
                        lemma_decl_layout(s@, i, m);
                    }
                }
            }
            return None;
        },
    };
    proof {
        assert forall|m: DeclModel| #[trigger]
            hyp_decl(s@, i, m) implies nullable == m.nullable && j15 == i + decl_head_len(m) by {
            lemma_decl_layout(s@, i, m);
            if nullable != m.nullable {
                assert(s@.subrange(j14 as int, j14 + bool_text(nullable).len())[0] == s@[
                    j14 as int]);
                assert(s@.subrange(j14 as int, j14 + bool_text(m.nullable).len())[0] == s@[
                    j14 as int]);
            }
        }
    }
    Some((max, min, nullable, j15))
}

/// How many characters of a persisted declaration stand before its hint
/// field's opening delimiter.
pub open spec fn decl_typing_len(m: DeclModel) -> int {
    decl_head_len(m) + ",\"column_type\":\""@.len() + m.column_type.text().len() + 1
        + ",\"default\":\""@.len() + m.default.len() + 1
}

/// Reads the type tag and the default value.
#[verifier::rlimit(100)]
fn parse_decl_typing(s: &str, anchor: Ghost<int>, j15: usize) -> (r: Option<
    (ColumnType, String, usize),
>)
    requires
        j15 <= s@.len(),
        0 <= anchor@ <= j15,
        forall|m: DeclModel| #[trigger] hyp_decl(s@, anchor@, m) ==> j15 == anchor@ + decl_head_len(m),
    ensures
        match r {
            Some(p) => j15 < p.2 <= s@.len(),
            None => true,
        },
        forall|m: DeclModel| #[trigger]
            hyp_decl(s@, anchor@, m) ==> match r {
                Some(p) => p.0 == m.column_type && p.1@ == m.default && p.2 == anchor@
                    + decl_typing_len(m),
                None => false,
            },
{
    proof {
        reveal_strlit("\"");
    }
    let ghost i = anchor@;
    let j16 = match skip_literal(s, j15, ",\"column_type\":\"") {
        Some(j) => j,
        None => {
            proof {
                assert forall|m: DeclModel| !hyp_decl(s@, i, m) by {
                    if hyp_decl(s@, i, m) {
                        lemma_decl_layout(s@, i, m);
                    }
                }
            }
            return None;
        },
    };
    let (column_type, j17) = match read_column_type(s, j16) {
        Some(p) => p,
        None => {
            proof {
                assert forall|m: DeclModel| !hyp_decl(s@, i, m) by {
                    if hyp_decl(s@, i, m) {
                        lemma_decl_layout(s@, i, m);
                        assert(lit_at(s@, j16 as int, m.column_type.text()));
                    }
                }
            }
            return None;
        },
    };
    proof {
        assert forall|m: DeclModel| #[trigger]
            hyp_decl(s@, i, m) implies column_type == m.column_type && j17 == j16
            + m.column_type.text().len() + 1 by {
            lemma_decl_layout(s@, i, m);
            lemma_tags_distinct(s@, j16 as int, column_type, m.column_type);
        }
    }
    let j18 = match skip_literal(s, j17, ",\"default\":\"") {
        Some(j) => j,
        None => {
            proof {
                assert forall|m: DeclModel| !hyp_decl(s@, i, m) by {
                    if hyp_decl(s@, i, m) {
                        lemma_decl_layout(s@, i, m);
                    }
                }
            }
            return None;
        },
    };
    let (default, j19) = match read_quoted(s, j18) {
        Some(p) => p,
        None => {
            proof {
                assert forall|m: DeclModel| !hyp_decl(s@, i, m) by {
                    if hyp_decl(s@, i, m) {
                        lemma_decl_layout(s@, i, m);
                        assert(s@[j18 + m.default.len()] == '"');
                    }
                }
            }
            return None;
        },
    };
    proof {
        assert forall|m: DeclModel| #[trigger]
            hyp_decl(s@, i, m) implies default@ == m.default && j19 == i + decl_typing_len(m) by {
            lemma_decl_layout(s@, i, m);
            let oq = j18 + m.default.len();
            if j19 - 1 < oq {
                assert(s@[j19 - 1] == m.default[j19 - 1 - j18]);
            }
            if j19 - 1 > oq {
                assert(s@[oq] != '"');
            }
            assert(default@ =~= m.default);
        }
    }
    Some((column_type, default, j19))
}

/// Reads the display metadata and the closing brace.
#[verifier::rlimit(100)]
fn parse_decl_meta(s: &str, anchor: Ghost<int>, j19: usize) -> (r: Option<(String, String, usize)>)
    requires
        j19 <= s@.len(),
        0 <= anchor@ <= j19,
        forall|m: DeclModel| #[trigger] hyp_decl(s@, anchor@, m) ==> j19 == anchor@ + decl_typing_len(m),
    ensures
        match r {
            Some(p) => j19 < p.2 <= s@.len(),
            None => true,
        },
        forall|m: DeclModel| #[trigger]
            hyp_decl(s@, anchor@, m) ==> match r {
                Some(p) => p.0@ == m.hint && p.1@ == m.layout && p.2 == anchor@ + decl_json(
                    m,
                ).len(),
                None => false,
            },
{
    proof {
        reveal_strlit("\"");
        reveal_strlit("}");
    }
    let ghost i = anchor@;
    let j20 = match skip_literal(s, j19, ",\"hint\":\"") {
        Some(j) => j,
        None => {
            proof {
                assert forall|m: DeclModel| !hyp_decl(s@, i, m) by {
                    if hyp_decl(s@, i, m) {
                        lemma_decl_layout(s@, i, m);
                    }
                }
            }
            return None;
        },
    };
    let (hint, j21) = match read_quoted(s, j20) {
        Some(p) => p,
        None => {
            proof {
                assert forall|m: DeclModel| !hyp_decl(s@, i, m) by {
                    if hyp_decl(s@, i, m) {
                        lemma_decl_layout(s@, i, m);
                        assert(s@[j20 + m.hint.len()] == '"');
                    }
                }
            }
            return None;
        },
    };
    proof {
        assert forall|m: DeclModel| #[trigger]
            hyp_decl(s@, i, m) implies hint@ == m.hint && j21 == j20 + m.hint.len() + 1 by {
            lemma_decl_layout(s@, i, m);
            let oq = j20 + m.hint.len();
            if j21 - 1 < oq {
                assert(s@[j21 - 1] == m.hint[j21 - 1 - j20]);
            }
            if j21 - 1 > oq {
                assert(s@[oq] != '"');
            }
            assert(hint@ =~= m.hint);
        }
    }
    let j22 = match skip_literal(s, j21, ",\"layout\":\"") {
        Some(j) => j,
        None => {
            proof {
                assert forall|m: DeclModel| !hyp_decl(s@, i, m) by {
                    if hyp_decl(s@, i, m) {
                        lemma_decl_layout(s@, i, m);
                    }
                }
            }
            return None;
        },
    };
    let (layout, j23) = match read_quoted(s, j22) {
        Some(p) => p,
        None => {
            proof {
                assert forall|m: DeclModel| !hyp_decl(s@, i, m) by {
                    if hyp_decl(s@, i, m) {
                        lemma_decl_layout(s@, i, m);
                        assert(s@[j22 + m.layout.len()] == '"');
                    }
                }
            }
            return None;
        },
    };
    proof {
        assert forall|m: DeclModel| #[trigger]
            hyp_decl(s@, i, m) implies layout@ == m.layout && j23 == j22 + m.layout.len() + 1 by {
            lemma_decl_layout(s@, i, m);
            let oq = j22 + m.layout.len();
            if j23 - 1 < oq {
                assert(s@[j23 - 1] == m.layout[j23 - 1 - j22]);
            }
            if j23 - 1 > oq {
                assert(s@[oq] != '"');
            }
            assert(layout@ =~= m.layout);
        }
    }
    let j24 = match skip_literal(s, j23, "}") {
        Some(j) => j,
        None => {
            proof {
                assert forall|m: DeclModel| !hyp_decl(s@, i, m) by {
                    if hyp_decl(s@, i, m) {
                        lemma_decl_layout(s@, i, m);
                        assert(s@.subrange(j23 as int, j23 + 1) =~= "}"@);
                    }
                }
            }
            return None;
        },
    };
    proof {
        assert forall|m: DeclModel| #[trigger] hyp_decl(s@, i, m) implies j24 == i + decl_json(
            m,
        ).len() by {
            lemma_decl_layout(s@, i, m);
        }
    }
    Some((hint, layout, j24))
}

/// Reads one declaration object. Whenever the persisted form of some
/// quote-free declaration `m` stands at `i`, the read succeeds, returns
/// exactly `m`, and consumes exactly its characters.
fn parse_decl(s: &str, i: usize) -> (r: Option<(SchemaDeclaration, usize)>)
    requires
        i <= s@.len(),
    ensures
        match r {
            Some(p) => i < p.1 <= s@.len(),
            None => true,
        },
        forall|m: DeclModel| #[trigger]
            hyp_decl(s@, i as int, m) ==> match r {
                Some(p) => p.0@ == m && p.1 == i + decl_json(m).len(),
                None => false,
            },
{
    let (name, display_name, unique, j5) = match parse_decl_strings(s, i) {
        Some(p) => p,
        None => {
            return None;
        },
    };
    let (max_length, min_length, j9) = match parse_decl_lengths(s, Ghost(i as int), j5) {
        Some(p) => p,
        None => {
            return None;
        },
    };
    let (max, min, nullable, j15) = match parse_decl_values(s, Ghost(i as int), j9) {
        Some(p) => p,
        None => {
            return None;
        },
    };
    let (column_type, default, j19) = match parse_decl_typing(s, Ghost(i as int), j15) {
        Some(p) => p,
        None => {
            return None;
        },
    };
    let (hint, layout, j24) = match parse_decl_meta(s, Ghost(i as int), j19) {
        Some(p) => p,
        None => {
            return None;
        },
    };
    let d = SchemaDeclaration {
        name,
        display_name,
        unique,
        max_length,
        min_length,
        max,
        min,
        nullable,
        column_type,
        default,
        hint,
        layout,
    };
    proof {
        assert forall|m: DeclModel| #[trigger]
            hyp_decl(s@, i as int, m) implies d@ == m && j24 == i + decl_json(m).len() by {
            assert(d@ =~= m);
        }
    }
    Some((d, j24))
}

/// A persisted number is read back as itself: the digit run at its
/// position is exactly its canonical notation.
proof fn lemma_num_at(s: Seq<char>, p: int, n: u32)
    requires
        0 <= p,
        p + dec_digits(n as nat).len() < s.len(),
        s.subrange(p, p + dec_digits(n as nat).len()) == dec_digits(n as nat),
        s[p + dec_digits(n as nat).len()] == ',',
    ensures
        is_digit_char(s[p]),
        p < s.len(),
        forall|e: int|
            p < e <= s.len() && all_digits(#[trigger] s.subrange(p, e)) ==> e <= p + dec_digits(
                n as nat,
            ).len(),
        forall|e: int|
            p < e <= s.len() && all_digits(#[trigger] s.subrange(p, e)) ==> digits_value(
                s.subrange(p, e),
            ) < 0x1_0000_0000,
{
    let dd = dec_digits(n as nat);
    lemma_dec_digits_wf(n as nat);
    lemma_dec_digits_value(n as nat);
    assert(s[p] == dd[0]);
    assert forall|e: int| p < e <= s.len() && all_digits(#[trigger] s.subrange(p, e)) implies e <= p
        + dd.len() by {
        if e > p + dd.len() {
            assert(s.subrange(p, e)[p + dd.len() - p] == s[p + dd.len()]);
        }
    }
    assert forall|e: int| p < e <= s.len() && all_digits(#[trigger] s.subrange(p, e)) implies
        digits_value(s.subrange(p, e)) < 0x1_0000_0000 by {
        let part = s.subrange(p, e);
        assert(part =~= dd.subrange(0, e - p));
        crate::text::lemma_digits_value_prefix(dd, e - p);
    }
}

/// Reading the digit run at a persisted number's position yields that
/// number and stops exactly at its end.
proof fn lemma_num_read(s: Seq<char>, p: int, n: u32, e: int, v: u32)
    requires
        0 <= p,
        p + dec_digits(n as nat).len() < s.len(),
        s.subrange(p, p + dec_digits(n as nat).len()) == dec_digits(n as nat),
        s[p + dec_digits(n as nat).len()] == ',',
        p < e <= s.len(),
        all_digits(s.subrange(p, e)),
        e < s.len() ==> !is_digit_char(s[e]),
        v == digits_value(s.subrange(p, e)),
    ensures
        e == p + dec_digits(n as nat).len(),
        v == n,
{
    let dd = dec_digits(n as nat);
    lemma_dec_digits_wf(n as nat);
    lemma_dec_digits_value(n as nat);
    if e < p + dd.len() {
        assert(s[e] == dd[e - p]);
    }
    if e > p + dd.len() {
        assert(s.subrange(p, e)[p + dd.len() - p] == s[p + dd.len()]);
    }
    assert(s.subrange(p, e) == dd);
}

/// Whether the serialized form of safe collection `c` is exactly `s`.
pub open spec fn hyp_schema(s: Seq<char>, c: Seq<DeclModel>) -> bool {
    schema_json_safe(c) && s == schema_json(c)
}

/// Parses a persisted schema registry snapshot. The contract is the round
/// trip in both directions: an accepted snapshot re-serializes to exactly
/// the input, and the serialized form of any collection whose text fields
/// are quote-free is accepted and yields back that collection.
pub fn parse_schema_collection(s: &str) -> (r: Option<SchemaCollection>)
    ensures
        match r {
            Some(c) => s@ == schema_json(c@),
            None => true,
        },
        forall|c2: Seq<DeclModel>| #[trigger]
            hyp_schema(s@, c2) ==> match r {
                Some(c) => c@ == c2,
                None => false,
            },
{
    let candidate = parse_schema_body(s);
    match candidate {
        Some(col) => {
            let round = col.to_json();
            if str_eq(round.as_str(), s) {
                Some(col)
            } else {
                proof {
                    assert forall|c2: Seq<DeclModel>| !hyp_schema(s@, c2) by {
                        if hyp_schema(s@, c2) {
                            assert(col@ == c2);
                        }
                    }
                }
                None
            }
        },
        None => None,
    }
}

/// The loose parsing pass: structure and fields, no re-serialization
/// check. Whenever the input is the serialized form of a safe collection,
/// it returns exactly that collection.
fn parse_schema_body(s: &str) -> (r: Option<SchemaCollection>)
    ensures
        forall|c2: Seq<DeclModel>| #[trigger]
            hyp_schema(s@, c2) ==> match r {
                Some(c) => c@ == c2,
                None => false,
            },
{
    proof {
        reveal_strlit("[");
        reveal_strlit("]");
        reveal_strlit(",");
    }
    let n = s.unicode_len();
    let mut collection: Vec<SchemaDeclaration> = Vec::new();
    let start = match skip_literal(s, 0, "[") {
        Some(j) => j,
        None => {
            proof {
                assert forall|c2: Seq<DeclModel>| !hyp_schema(s@, c2) by {
                    if hyp_schema(s@, c2) {
                        lemma_schema_shape(s@, c2);
                    }
                }
            }
            return None;
        },
    };
    let mut i = start;
    let empty = match skip_literal(s, i, "]") {
        Some(j) => j == n,
        None => false,
    };
    if empty {
        let c = SchemaCollection { collection };
        proof {
            assert forall|c2: Seq<DeclModel>| #[trigger] hyp_schema(s@, c2) implies c@ =~= c2 by {
                lemma_schema_shape(s@, c2);
                if c2.len() > 0 {
                    reveal_strlit("{\"name\":\"");
                    lemma_rest_starts_with_decl(s@, c2, 1, 0);
                    lemma_decl_layout(s@, 1, c2[0]);
                    assert(s@.subrange(1, 1 + "{\"name\":\""@.len() as int).index(0) == s@[1]);
                    assert(s@.subrange(1, 2).index(0) == s@[1]);
                }
            }
        }
        return Some(c);
    }
    proof {
        assert forall|c2: Seq<DeclModel>| #[trigger] hyp_schema(s@, c2) implies c2.len() > 0 && 1
            + decls_json_from(c2, 0).len() + 1 == s@.len() && s@.subrange(1, s@.len() - 1)
            == decls_json_from(c2, 0) by {
            lemma_schema_shape(s@, c2);
            if c2.len() == 0 {
                assert(s@.len() == 2);
                assert(s@.subrange(1, 2) =~= "]"@);
                assert(lit_at(s@, 1, "]"@));
            }
        }
    }
    loop
        invariant_except_break
            1 <= i <= s@.len(),
            n == s@.len(),
            forall|c2: Seq<DeclModel>| #[trigger]
                hyp_schema(s@, c2) ==> {
                    &&& collection@.len() < c2.len()
                    &&& (forall|q: int|
                        0 <= q < collection@.len() ==> (#[trigger] collection@[q])@ == c2[q])
                    &&& i + decls_json_from(c2, collection@.len() as int).len() + 1 == s@.len()
                    &&& s@.subrange(i as int, s@.len() - 1) == decls_json_from(
                        c2,
                        collection@.len() as int,
                    )
                },
        ensures
            1 <= i <= s@.len(),
            n == s@.len(),
            forall|c2: Seq<DeclModel>| #[trigger]
                hyp_schema(s@, c2) ==> {
                    &&& collection@.len() == c2.len()
                    &&& (forall|q: int|
                        0 <= q < collection@.len() ==> (#[trigger] collection@[q])@ == c2[q])
                    &&& i + 1 == s@.len()
                },
        decreases s@.len() - i,
    {
        proof {
            reveal_strlit(",");
            reveal_strlit("]");
        }
        let ghost t = collection@.len() as int;
        let (decl, j) = match parse_decl(s, i) {
            Some(p) => p,
            None => {
                proof {
                    assert forall|c2: Seq<DeclModel>| !hyp_schema(s@, c2) by {
                        if hyp_schema(s@, c2) {
                            lemma_rest_starts_with_decl(s@, c2, i as int, t);
                        }
                    }
                }
                return None;
            },
        };
        let i_prev = i;
        collection.push(decl);
        proof {
            assert forall|c2: Seq<DeclModel>| #[trigger] hyp_schema(s@, c2) implies decl@ == c2[t]
                && j == i_prev + decl_json(c2[t]).len() by {
                lemma_rest_starts_with_decl(s@, c2, i_prev as int, t);
            }
        }
        i = j;
        match skip_literal(s, i, ",") {
            Some(j2) => {
                proof {
                    assert forall|c2: Seq<DeclModel>| #[trigger] hyp_schema(s@, c2) implies t + 1
                        < c2.len() && j2 + decls_json_from(c2, t + 1).len() + 1 == s@.len()
                        && s@.subrange(j2 as int, s@.len() - 1) == decls_json_from(c2, t + 1) by {
                        lemma_rest_starts_with_decl(s@, c2, i_prev as int, t);
                        lemma_after_decl(s@, c2, i_prev as int, t);
                        if t + 1 == c2.len() {
                            assert(s@.subrange(i as int, i + 1).index(0) == s@[i as int]);
                        }
                    }
                }
                i = j2;
            },
            None => {
                proof {
                    assert forall|c2: Seq<DeclModel>| #[trigger] hyp_schema(s@, c2) implies t + 1
                        == c2.len() && i + 1 == s@.len() by {
                        lemma_rest_starts_with_decl(s@, c2, i_prev as int, t);
                        lemma_after_decl(s@, c2, i_prev as int, t);
                        if t + 1 < c2.len() {
                            assert(lit_at(s@, i as int, ","@)) by {
                                assert(s@.subrange(i as int, i + 1) =~= ","@);
                            }
                        }
                    }
                }
                break ;
            },
        }
    }
    match skip_literal(s, i, "]") {
        Some(j) => {
            if j != n {
                proof {
                    reveal_strlit("]");
                    assert forall|c2: Seq<DeclModel>| !hyp_schema(s@, c2) by {}
                }
                return None;
            }
        },
        None => {
            proof {
                reveal_strlit("]");
                assert forall|c2: Seq<DeclModel>| !hyp_schema(s@, c2) by {
                    if hyp_schema(s@, c2) {
                        lemma_schema_shape(s@, c2);
                        assert(s@.subrange(i as int, i + 1) =~= "]"@);
                    }
                }
            }
            return None;
        },
    }
    let c = SchemaCollection { collection };
    proof {
        assert forall|c2: Seq<DeclModel>| #[trigger] hyp_schema(s@, c2) implies c@ =~= c2 by {}
    }
    Some(c)
}

/// The declarations from position `k` on, joined by commas.
pub open spec fn decls_json_from(c: Seq<DeclModel>, k: int) -> Seq<char>
    decreases c.len() - k,
{
    if k < 0 || k >= c.len() {
        Seq::<char>::empty()
    } else if k == c.len() - 1 {
        decl_json(c[k])
    } else {
        decl_json(c[k]) + (","@ + decls_json_from(c, k + 1))
    }
}

/// The serialized collection opens with a bracket, closes with one, and
/// carries the joined declarations in between.
proof fn lemma_schema_shape(s: Seq<char>, c: Seq<DeclModel>)
    requires
        s == schema_json(c),
    ensures
        lit_at(s, 0, "["@),
        s.len() >= 2,
        s[s.len() - 1] == ']',
        s.subrange(1, s.len() - 1) == decls_json_from(c, 0),
        1 + decls_json_from(c, 0).len() + 1 == s.len(),
{
    reveal_strlit("[");
    reveal_strlit("]");
    lemma_decls_json_agree(c);
    let inner = decls_json(c);
    assert(s =~= "["@ + (inner + "]"@));
    assert(s.subrange(0, s.len() as int) == s);
    lemma_peel(s, 0, "["@, inner + "]"@);
    lemma_peel(s, 1, inner, "]"@);
}

/// `decls_json` and the front-recursive `decls_json_from` agree.
proof fn lemma_decls_json_agree(c: Seq<DeclModel>)
    ensures
        decls_json(c) == decls_json_from(c, 0),
    decreases c.len(),
{
    reveal_strlit(",");
    if c.len() > 1 {
        lemma_decls_json_agree(c.drop_last());
        lemma_from_push(c, 0);
    }
}

/// Extending the collection by one declaration extends the front-recursive
/// join at its end.
proof fn lemma_from_push(c: Seq<DeclModel>, k: int)
    requires
        0 <= k < c.len() - 1 || (0 <= k && c.len() >= 1 && k <= c.len() - 1),
    ensures
        k < c.len() - 1 ==> decls_json_from(c.drop_last(), k) + (","@ + decl_json(c.last()))
            == decls_json_from(c, k),
        k == c.len() - 1 ==> decls_json_from(c, k) == decl_json(c[k]),
    decreases c.len() - k,
{
    if k < c.len() - 1 {
        if k == c.len() - 2 {
            assert(c.drop_last()[k] == c[k]);
            assert(decls_json_from(c.drop_last(), k) == decl_json(c[k]));
            assert(decls_json_from(c, k + 1) == decl_json(c[k + 1]));
            assert(decls_json_from(c, k) == decl_json(c[k]) + (","@ + decls_json_from(c, k + 1)));
            assert(decls_json_from(c.drop_last(), k) + (","@ + decl_json(c.last())) =~=
                decls_json_from(c, k));
        } else {
            lemma_from_push(c, k + 1);
            assert(c.drop_last()[k] == c[k]);
            assert(decls_json_from(c.drop_last(), k) + (","@ + decl_json(c.last())) =~=
                decls_json_from(c, k));
        }
    }
}

/// Under the collection hypothesis, the remaining input at `i` opens with
/// the `t`-th declaration's persisted form.
proof fn lemma_rest_starts_with_decl(s: Seq<char>, c: Seq<DeclModel>, i: int, t: int)
    requires
        hyp_schema(s, c),
        0 <= t < c.len(),
        0 <= i,
        i + decls_json_from(c, t).len() + 1 == s.len(),
        s.subrange(i, s.len() - 1) == decls_json_from(c, t),
    ensures
        hyp_decl(s, i, c[t]),
        t < c.len() - 1 ==> lit_at(s, i + decl_json(c[t]).len(), ","@) && (i + decl_json(
            c[t],
        ).len() + 1) + decls_json_from(c, t + 1).len() + 1 == s.len() && s.subrange(
            i + decl_json(c[t]).len() + 1,
            s.len() - 1,
        ) == decls_json_from(c, t + 1),
        t == c.len() - 1 ==> i + decl_json(c[t]).len() + 1 == s.len(),
{
    reveal_strlit(",");
    let rest = decls_json_from(c, t);
    if t == c.len() - 1 {
        assert(s.subrange(i, i + rest.len()) == decl_json(c[t]));
        assert(lit_at(s, i, decl_json(c[t])));
    } else {
        let tail = ","@ + decls_json_from(c, t + 1);
        assert(rest == decl_json(c[t]) + tail);
        lemma_peel(s, i, decl_json(c[t]), tail);
        let p = i + decl_json(c[t]).len();
        assert(s.subrange(p, p + tail.len()) == tail);
        lemma_peel(s, p, ","@, decls_json_from(c, t + 1));
        assert(s.subrange(p + 1, s.len() - 1) =~= decls_json_from(c, t + 1));
    }
}

/// Under the collection hypothesis, the character after the `t`-th
/// declaration is a comma before further declarations, else the closing
/// bracket.
proof fn lemma_after_decl(s: Seq<char>, c: Seq<DeclModel>, i: int, t: int)
    requires
        hyp_schema(s, c),
        0 <= t < c.len(),
        0 <= i,
        i + decls_json_from(c, t).len() + 1 == s.len(),
        s.subrange(i, s.len() - 1) == decls_json_from(c, t),
    ensures
        t < c.len() - 1 ==> s[i + decl_json(c[t]).len()] == ',',
        t == c.len() - 1 ==> s[i + decl_json(c[t]).len()] == ']',
{
    reveal_strlit(",");
    reveal_strlit("]");
    lemma_rest_starts_with_decl(s, c, i, t);
    lemma_schema_shape(s, c);
    if t < c.len() - 1 {
        assert(s.subrange(i + decl_json(c[t]).len(), i + decl_json(c[t]).len() + 1) == ","@);
        assert(s[i + decl_json(c[t]).len()] == ","@[0]);
    }
}

} // verus!
