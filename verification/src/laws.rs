//! The library's stated guarantees, proved once and for all over the spec
//! model: ordinal idempotence and stability, the token format, and the
//! pass-through behaviour of out-of-scope fields and boolean-looking strings.

use vstd::prelude::*;
use crate::classify::{GuestimatedType, in_scope, is_digit};
use crate::registry::{first_idx, lemma_first_idx, reg_insert_spec, reg_ordinal};
use crate::text::lower_of;
use crate::tokens::{dec_digits, digit_char, pad4, prefix_of, token_spec};
use crate::walk::{JsonV, mutate_field, walk_elems, walk_field, walk_fields, walk_node};

verus! {

/// A position holding `v`, before which `v` does not occur, is `first_idx`.
proof fn lemma_first_idx_at(s: Seq<Seq<char>>, v: Seq<char>, i: int)
    requires
        0 <= i < s.len(),
        s[i] == v,
        forall|j: int| 0 <= j < i ==> s[j] != v,
    ensures
        first_idx(s, v) == i,
    decreases s.len(),
{
    if i > 0 {
        assert forall|j: int| 0 <= j < i - 1 implies s.drop_first()[j] != v by {
            assert(s.drop_first()[j] == s[j + 1]);
        }
        assert(s.drop_first()[i - 1] == s[i]);
        lemma_first_idx_at(s.drop_first(), v, i - 1);
    }
}

/// Idempotence of the classification key: inserting a normalized value into
/// the registry twice yields the same ordinal both times.
pub proof fn lemma_ordinal_idempotent(s: Seq<Seq<char>>, v: Seq<char>)
    ensures
        reg_ordinal(reg_insert_spec(s, v), v) == reg_ordinal(s, v),
{
    lemma_first_idx(s, v);
    if s.contains(v) {
        assert(reg_insert_spec(s, v) == s);
    } else {
        let s2 = s.push(v);
        assert(s2[s.len() as int] == v);
        assert(s2.contains(v));
        assert forall|j: int| 0 <= j < s.len() implies s2[j] != v by {
            assert(s2[j] == s[j]);
            if s[j] == v {
                assert(s.contains(v));
            }
        }
        lemma_first_idx_at(s2, v, s.len() as int);
    }
}

/// A value already registered keeps its ordinal through any later insert.
pub proof fn lemma_ordinal_stable(s: Seq<Seq<char>>, v: Seq<char>, w: Seq<char>)
    requires
        s.contains(v),
    ensures
        reg_insert_spec(s, w).contains(v),
        reg_ordinal(reg_insert_spec(s, w), v) == reg_ordinal(s, v),
{
    assert(s.is_prefix_of(reg_insert_spec(s, w))) by {
        if s.contains(w) {
            assert(s.is_prefix_of(s));
        } else {
            assert(s =~= s.push(w).subrange(0, s.len() as int));
        }
    }
    lemma_prefix_ordinal(s, reg_insert_spec(s, w), v);
}

/// A registered value's ordinal is the same in any extension of the registry.
pub proof fn lemma_prefix_ordinal(s1: Seq<Seq<char>>, s2: Seq<Seq<char>>, v: Seq<char>)
    requires
        s1.is_prefix_of(s2),
        s1.contains(v),
    ensures
        s2.contains(v),
        reg_ordinal(s2, v) == reg_ordinal(s1, v),
{
    lemma_first_idx(s1, v);
    let fi = first_idx(s1, v);
    assert(s2[fi] == s1[fi]);
    assert(s2.contains(v));
    assert forall|j: int| 0 <= j < fi implies s2[j] != v by {
        assert(s2[j] == s1[j]);
    }
    lemma_first_idx_at(s2, v, fi);
}

proof fn lemma_prefix_trans(a: Seq<Seq<char>>, b: Seq<Seq<char>>, c: Seq<Seq<char>>)
    requires
        a.is_prefix_of(b),
        b.is_prefix_of(c),
    ensures
        a.is_prefix_of(c),
{
    assert(a =~= c.subrange(0, a.len() as int));
}

/// The field rule only ever appends to the registry.
pub proof fn lemma_mutate_field_extends(
    key: Seq<char>,
    v: JsonV,
    reg: Seq<Seq<char>>,
    log: Seq<Seq<char>>,
)
    ensures
        reg.is_prefix_of(mutate_field(key, v, reg, log).1),
{
    let reg2 = mutate_field(key, v, reg, log).1;
    assert(reg.is_prefix_of(reg));
    if in_scope(key) {
        match v {
            JsonV::String(s) => {
                let lower = lower_of(s);
                if lower == "true"@ || lower == "false"@ {
                } else {
                    let norm = crate::classify::classify_normalize(lower).1;
                    if !reg.contains(norm) {
                        assert(reg =~= reg.push(norm).subrange(0, reg.len() as int));
                    }
                }
            },
            JsonV::Number(ntext) => {
                if !reg.contains(ntext) {
                    assert(reg =~= reg.push(ntext).subrange(0, reg.len() as int));
                }
            },
            _ => {},
        }
    }
}

/// The walk only ever appends to the registry.
pub proof fn lemma_walk_node_extends(n: JsonV, reg: Seq<Seq<char>>, log: Seq<Seq<char>>)
    ensures
        reg.is_prefix_of(walk_node(n, reg, log).1),
    decreases n, 0int,
{
    assert(reg.is_prefix_of(reg));
    match n {
        JsonV::Array(elems) => {
            lemma_walk_elems_extends(elems, 0, reg, log);
        },
        JsonV::Object(fields) => {
            lemma_walk_fields_extends(fields, 0, reg, log);
        },
        _ => {},
    }
}

proof fn lemma_walk_elems_extends(
    elems: Seq<JsonV>,
    i: int,
    reg: Seq<Seq<char>>,
    log: Seq<Seq<char>>,
)
    ensures
        reg.is_prefix_of(walk_elems(elems, i, reg, log).1),
    decreases elems, elems.len() - i, 1int,
{
    assert(reg.is_prefix_of(reg));
    if 0 <= i < elems.len() {
        let h = walk_node(elems[i], reg, log);
        lemma_walk_node_extends(elems[i], reg, log);
        lemma_walk_elems_extends(elems, i + 1, h.1, h.2);
        lemma_prefix_trans(reg, h.1, walk_elems(elems, i + 1, h.1, h.2).1);
    }
}

proof fn lemma_walk_field_extends(
    key: Seq<char>,
    v: JsonV,
    reg: Seq<Seq<char>>,
    log: Seq<Seq<char>>,
)
    ensures
        reg.is_prefix_of(walk_field(key, v, reg, log).1),
    decreases v, 1int,
{
    match v {
        JsonV::Array(_) => {
            lemma_walk_node_extends(v, reg, log);
        },
        JsonV::Object(_) => {
            lemma_walk_node_extends(v, reg, log);
        },
        _ => {
            lemma_mutate_field_extends(key, v, reg, log);
        },
    }
}

proof fn lemma_walk_fields_extends(
    fields: Seq<(Seq<char>, JsonV)>,
    i: int,
    reg: Seq<Seq<char>>,
    log: Seq<Seq<char>>,
)
    ensures
        reg.is_prefix_of(walk_fields(fields, i, reg, log).1),
    decreases fields, fields.len() - i, 1int,
{
    assert(reg.is_prefix_of(reg));
    if 0 <= i < fields.len() {
        let m = walk_field(fields[i].0, fields[i].1, reg, log);
        lemma_walk_field_extends(fields[i].0, fields[i].1, reg, log);
        lemma_walk_fields_extends(fields, i + 1, m.1, m.2);
        lemma_prefix_trans(reg, m.1, walk_fields(fields, i + 1, m.1, m.2).1);
    }
}

/// Stability: once a normalized value is registered, walking any further part
/// of the document leaves its ordinal unchanged, so every field sharing that
/// normalized value (and category) receives a byte-identical token.
pub proof fn lemma_token_stable_across_walk(
    n: JsonV,
    reg: Seq<Seq<char>>,
    log: Seq<Seq<char>>,
    t: GuestimatedType,
    v: Seq<char>,
)
    requires
        reg.contains(v),
    ensures
        walk_node(n, reg, log).1.contains(v),
        token_spec(prefix_of(t), reg_ordinal(walk_node(n, reg, log).1, v) as nat) == token_spec(
            prefix_of(t),
            reg_ordinal(reg, v) as nat,
        ),
{
    lemma_walk_node_extends(n, reg, log);
    lemma_prefix_ordinal(reg, walk_node(n, reg, log).1, v);
}

/// Stability, field to field: two in-scope string fields that normalize to
/// the same value (and so the same category) receive byte-identical tokens,
/// wherever the second field is visited once the registry extends the state
/// left by the first.
pub proof fn lemma_matching_fields_same_token(
    key1: Seq<char>,
    s1: Seq<char>,
    key2: Seq<char>,
    s2: Seq<char>,
    reg1: Seq<Seq<char>>,
    log1: Seq<Seq<char>>,
    reg2: Seq<Seq<char>>,
    log2: Seq<Seq<char>>,
)
    requires
        in_scope(key1),
        in_scope(key2),
        lower_of(s1) != "true"@ && lower_of(s1) != "false"@,
        lower_of(s2) != "true"@ && lower_of(s2) != "false"@,
        crate::classify::classify_normalize(lower_of(s1)) == crate::classify::classify_normalize(
            lower_of(s2),
        ),
        mutate_field(key1, JsonV::String(s1), reg1, log1).1.is_prefix_of(reg2),
    ensures
        mutate_field(key2, JsonV::String(s2), reg2, log2).0 == mutate_field(
            key1,
            JsonV::String(s1),
            reg1,
            log1,
        ).0,
{
    let (t, norm) = crate::classify::classify_normalize(lower_of(s1));
    let reg1b = reg_insert_spec(reg1, norm);
    lemma_first_idx(reg1, norm);
    if !reg1.contains(norm) {
        assert(reg1b[reg1.len() as int] == norm);
        assert(reg1b.contains(norm));
    }
    lemma_ordinal_idempotent(reg1, norm);
    lemma_prefix_ordinal(reg1b, reg2, norm);
}

proof fn lemma_dec_digits_shape(n: nat)
    ensures
        1 <= dec_digits(n).len(),
        n < 10 ==> dec_digits(n).len() == 1,
        10 <= n < 100 ==> dec_digits(n).len() == 2,
        100 <= n < 1000 ==> dec_digits(n).len() == 3,
        1000 <= n < 10000 ==> dec_digits(n).len() == 4,
        forall|j: int| 0 <= j < dec_digits(n).len() ==> is_digit(#[trigger] dec_digits(n)[j]),
    decreases n,
{
    assert(is_digit(digit_char(n % 10))) by {
        let d = n % 10;
        assert(0 <= d < 10);
    }
    if n < 10 {
        assert(is_digit(digit_char(n)));
        assert(dec_digits(n) =~= seq![digit_char(n)]);
    } else {
        lemma_dec_digits_shape(n / 10);
        assert(dec_digits(n) == dec_digits(n / 10).push(digit_char(n % 10)));
    }
}

/// Token format: a token is its prefix, one underscore, and (for the ordinals
/// a run can reach before padding widens) exactly 4 decimal digits.
pub proof fn lemma_token_format(prefix: Seq<char>, n: nat)
    requires
        n < 10000,
    ensures
        token_spec(prefix, n).len() == prefix.len() + 5,
        forall|j: int| 0 <= j < prefix.len() ==> #[trigger] token_spec(prefix, n)[j] == prefix[j],
        token_spec(prefix, n)[prefix.len() as int] == '_',
        forall|j: int|
            prefix.len() + 1 <= j < prefix.len() + 5 ==> is_digit(
                #[trigger] token_spec(prefix, n)[j],
            ),
{
    lemma_dec_digits_shape(n);
    assert(pad4(n).len() == 4);
    assert forall|j: int| 0 <= j < 4 implies is_digit(#[trigger] pad4(n)[j]) by {
        let d = dec_digits(n);
        if n < 10 {
            assert(pad4(n) == seq!['0', '0', '0'] + d);
            if j < 3 {
                assert(pad4(n)[j] == '0');
            } else {
                assert(pad4(n)[j] == d[j - 3]);
            }
        } else if n < 100 {
            assert(pad4(n) == seq!['0', '0'] + d);
            if j < 2 {
                assert(pad4(n)[j] == '0');
            } else {
                assert(pad4(n)[j] == d[j - 2]);
            }
        } else if n < 1000 {
            assert(pad4(n) == seq!['0'] + d);
            if j < 1 {
                assert(pad4(n)[j] == '0');
            } else {
                assert(pad4(n)[j] == d[j - 1]);
            }
        } else {
            assert(pad4(n) == d);
        }
    }
}

/// Non-qualifying keys never produce token substitution: the value and the
/// registry are unchanged; at most an "unchanged" record is logged.
pub proof fn lemma_out_of_scope_unchanged(
    key: Seq<char>,
    v: JsonV,
    reg: Seq<Seq<char>>,
    log: Seq<Seq<char>>,
)
    requires
        !in_scope(key),
    ensures
        mutate_field(key, v, reg, log).0 == v,
        mutate_field(key, v, reg, log).1 == reg,
{
}

/// Boolean-looking strings under qualifying keys are passed through: the
/// field keeps its (lowercased) value, and neither the registry nor the log
/// changes.
pub proof fn lemma_boolean_passthrough(
    key: Seq<char>,
    s: Seq<char>,
    reg: Seq<Seq<char>>,
    log: Seq<Seq<char>>,
)
    requires
        in_scope(key),
        lower_of(s) == "true"@ || lower_of(s) == "false"@,
    ensures
        mutate_field(key, JsonV::String(s), reg, log).0 == JsonV::String(lower_of(s)),
        mutate_field(key, JsonV::String(s), reg, log).1 == reg,
        mutate_field(key, JsonV::String(s), reg, log).2 == log,
{
}

} // verus!
