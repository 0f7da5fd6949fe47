//! Token and audit-record formatting: zero-padded decimal ordinals, the
//! `{prefix}_{ordinal}` token shape, JSON string quoting as the serializer
//! emits it, and the audit-record line formats.

use vstd::prelude::*;
use vstd::string::*;
use crate::classify::GuestimatedType;
use crate::text::{from_char_vec, push_char};

verus! {

/// The ASCII character for a decimal digit value.
pub open spec fn digit_char(d: nat) -> char {
    if d == 0 {
        '0'
    } else if d == 1 {
        '1'
    } else if d == 2 {
        '2'
    } else if d == 3 {
        '3'
    } else if d == 4 {
        '4'
    } else if d == 5 {
        '5'
    } else if d == 6 {
        '6'
    } else if d == 7 {
        '7'
    } else if d == 8 {
        '8'
    } else {
        '9'
    }
}

/// The decimal digits of `n`, most significant first.
pub open spec fn dec_digits(n: nat) -> Seq<char>
    decreases n,
{
    if n < 10 {
        seq![digit_char(n)]
    } else {
        dec_digits(n / 10).push(digit_char(n % 10))
    }
}

/// The decimal digits of `n`, left-padded with `0` to a width of at least 4.
pub open spec fn pad4(n: nat) -> Seq<char> {
    if n < 10 {
        seq!['0', '0', '0'] + dec_digits(n)
    } else if n < 100 {
        seq!['0', '0'] + dec_digits(n)
    } else if n < 1000 {
        seq!['0'] + dec_digits(n)
    } else {
        dec_digits(n)
    }
}

/// A token: the category prefix, an underscore, and the padded ordinal.
pub open spec fn token_spec(prefix: Seq<char>, n: nat) -> Seq<char> {
    prefix + seq!['_'] + pad4(n)
}

/// The textual prefix of each category's tokens.
pub open spec fn prefix_of(t: GuestimatedType) -> Seq<char> {
    match t {
        GuestimatedType::Phone => "phone"@,
        GuestimatedType::Email => "email"@,
        GuestimatedType::Name => "name_"@,
        GuestimatedType::Dunno => "dunno"@,
    }
}

fn digit_char_exec(d: usize) -> (c: char)
    requires
        d < 10,
    ensures
        c == digit_char(d as nat),
{
    if d == 0 {
        '0'
    } else if d == 1 {
        '1'
    } else if d == 2 {
        '2'
    } else if d == 3 {
        '3'
    } else if d == 4 {
        '4'
    } else if d == 5 {
        '5'
    } else if d == 6 {
        '6'
    } else if d == 7 {
        '7'
    } else if d == 8 {
        '8'
    } else {
        '9'
    }
}

/// The decimal digits of `n`, most significant first.
pub fn dec_digits_vec(n: usize) -> (r: Vec<char>)
    ensures
        r@ == dec_digits(n as nat),
    decreases n,
{
    if n < 10 {
        let mut v: Vec<char> = Vec::new();
        v.push(digit_char_exec(n));
        proof {
            assert(v@ =~= seq![digit_char(n as nat)]);
        }
        v
    } else {
        let mut v = dec_digits_vec(n / 10);
        v.push(digit_char_exec(n % 10));
        v
    }
}

/// The decimal digits of `n`, left-padded with `0` to at least 4 places.
pub fn pad4_vec(n: usize) -> (r: Vec<char>)
    ensures
        r@ == pad4(n as nat),
{
    let mut v: Vec<char> = Vec::new();
    if n < 10 {
        v.push('0');
        v.push('0');
        v.push('0');
        proof {
            assert(v@ =~= seq!['0', '0', '0']);
        }
    } else if n < 100 {
        v.push('0');
        v.push('0');
        proof {
            assert(v@ =~= seq!['0', '0']);
        }
    } else if n < 1000 {
        v.push('0');
        proof {
            assert(v@ =~= seq!['0']);
        }
    }
    let mut d = dec_digits_vec(n);
    v.append(&mut d);
    proof {
        assert(v@ =~= pad4(n as nat));
    }
    v
}

/// Builds the token `{prefix}_{ordinal, zero-padded to width 4}`.
pub fn make_token(prefix: &str, ordinal: usize) -> (r: String)
    ensures
        r@ == token_spec(prefix@, ordinal as nat),
{
    let mut s = String::from_str(prefix);
    push_char(&mut s, '_');
    let digits = pad4_vec(ordinal);
    let ds = from_char_vec(&digits);
    s.append(ds.as_str());
    proof {
        assert(s@ =~= token_spec(prefix@, ordinal as nat));
    }
    s
}

/// The lowercase hex character for a nibble.
pub open spec fn hex_char(d: nat) -> char {
    if d < 10 {
        digit_char(d)
    } else if d == 10 {
        'a'
    } else if d == 11 {
        'b'
    } else if d == 12 {
        'c'
    } else if d == 13 {
        'd'
    } else if d == 14 {
        'e'
    } else {
        'f'
    }
}

/// How the JSON serializer escapes one character inside a string literal:
/// quote and backslash get a backslash; control characters use the short
/// escapes or `\u00XX` with lowercase hex; everything else stands as itself.
pub open spec fn esc_char(c: char) -> Seq<char> {
    if c == '"' {
        seq!['\\', '"']
    } else if c == '\\' {
        seq!['\\', '\\']
    } else if c == '\u{8}' {
        seq!['\\', 'b']
    } else if c == '\t' {
        seq!['\\', 't']
    } else if c == '\n' {
        seq!['\\', 'n']
    } else if c == '\u{c}' {
        seq!['\\', 'f']
    } else if c == '\r' {
        seq!['\\', 'r']
    } else if (c as u32) < 32 {
        seq!['\\', 'u', '0', '0', hex_char((c as u32 / 16) as nat), hex_char((c as u32 % 16) as nat)]
    } else {
        seq![c]
    }
}

/// The escaped form of a whole string body.
pub open spec fn esc_str(s: Seq<char>) -> Seq<char>
    decreases s.len(),
{
    if s.len() == 0 {
        Seq::<char>::empty()
    } else {
        esc_str(s.drop_last()) + esc_char(s.last())
    }
}

/// A string as the JSON serializer prints it: quoted and escaped.
pub open spec fn json_quote(s: Seq<char>) -> Seq<char> {
    seq!['"'] + esc_str(s) + seq!['"']
}

fn push_esc_char(out: &mut Vec<char>, c: char)
    ensures
        final(out)@ == old(out)@ + esc_char(c),
{
    let u = c as u32;
    if c == '"' {
        out.push('\\');
        out.push('"');
    } else if c == '\\' {
        out.push('\\');
        out.push('\\');
    } else if c == '\u{8}' {
        out.push('\\');
        out.push('b');
    } else if c == '\t' {
        out.push('\\');
        out.push('t');
    } else if c == '\n' {
        out.push('\\');
        out.push('n');
    } else if c == '\u{c}' {
        out.push('\\');
        out.push('f');
    } else if c == '\r' {
        out.push('\\');
        out.push('r');
    } else if u < 32 {
        out.push('\\');
        out.push('u');
        out.push('0');
        out.push('0');
        out.push(hex_char_exec(u / 16));
        out.push(hex_char_exec(u % 16));
    } else {
        out.push(c);
    }
    proof {
        assert(out@ =~= old(out)@ + esc_char(c));
    }
}

fn hex_char_exec(d: u32) -> (c: char)
    requires
        d < 16,
    ensures
        c == hex_char(d as nat),
{
    if d == 0 {
        '0'
    } else if d == 1 {
        '1'
    } else if d == 2 {
        '2'
    } else if d == 3 {
        '3'
    } else if d == 4 {
        '4'
    } else if d == 5 {
        '5'
    } else if d == 6 {
        '6'
    } else if d == 7 {
        '7'
    } else if d == 8 {
        '8'
    } else if d == 9 {
        '9'
    } else if d == 10 {
        'a'
    } else if d == 11 {
        'b'
    } else if d == 12 {
        'c'
    } else if d == 13 {
        'd'
    } else if d == 14 {
        'e'
    } else {
        'f'
    }
}

/// Quotes and escapes a string as the JSON serializer prints it.
pub fn json_quote_str(s: &str) -> (r: String)
    ensures
        r@ == json_quote(s@),
{
    let chars = crate::text::to_char_vec(s);
    let mut out: Vec<char> = Vec::new();
    out.push('"');
    proof {
        assert(out@ =~= seq!['"'] + esc_str(chars@.take(0)));
        assert(esc_str(chars@.take(0)) =~= Seq::<char>::empty());
    }
    let mut i: usize = 0;
    while i < chars.len()
        invariant
            i <= chars@.len(),
            chars@ == s@,
            out@ == seq!['"'] + esc_str(chars@.take(i as int)),
        decreases chars@.len() - i,
    {
        proof {
            let t1 = chars@.take((i + 1) as int);
            assert(t1.drop_last() =~= chars@.take(i as int));
            assert(t1.last() == chars@[i as int]);
        }
        push_esc_char(&mut out, chars[i]);
        i = i + 1;
    }
    out.push('"');
    proof {
        assert(chars@.take(chars@.len() as int) =~= chars@);
        assert(out@ =~= json_quote(s@));
    }
    from_char_vec(&out)
}

/// The audit-record line for a redacted field.
pub open spec fn changed_record(key: Seq<char>, original: Seq<char>, token: Seq<char>) -> Seq<
    char,
> {
    "key: "@ + key + " value: "@ + original + " -> "@ + json_quote(token)
}

/// The audit-record line for a visited field that was left unchanged, for a
/// string value (printed quoted and escaped) or a number (printed as is).
pub open spec fn unchanged_record(key: Seq<char>, shown: Seq<char>) -> Seq<char> {
    "Unchanged field \""@ + key + "\" value: "@ + shown
}

/// Builds the audit-record line for a redacted field.
pub fn changed_record_str(key: &String, original: &String, token: &String) -> (r: String)
    ensures
        r@ == changed_record(key@, original@, token@),
{
    let mut s = String::from_str("key: ");
    s.append(key.as_str());
    s.append(" value: ");
    s.append(original.as_str());
    s.append(" -> ");
    let q = json_quote_str(token.as_str());
    s.append(q.as_str());
    proof {
        assert(s@ =~= changed_record(key@, original@, token@));
    }
    s
}

/// Builds the audit-record line for an unchanged field; `shown` is the
/// value's printed form.
pub fn unchanged_record_str(key: &String, shown: &String) -> (r: String)
    ensures
        r@ == unchanged_record(key@, shown@),
{
    let mut s = String::from_str("Unchanged field \"");
    s.append(key.as_str());
    s.append("\" value: ");
    s.append(shown.as_str());
    proof {
        assert(s@ =~= unchanged_record(key@, shown@));
    }
    s
}

} // verus!
