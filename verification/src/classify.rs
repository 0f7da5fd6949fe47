//! The field-inclusion rule and the value classifier/normalizer: decides
//! whether a field key is in scope, lowercases the value, applies the layered
//! email / name / phone heuristics in order, and strips symbols, yielding the
//! normalized value (the deduplication key) and a best-guess category.

use vstd::prelude::*;
use crate::text::{is_ws, is_whitespace_char, starts_with, str_starts_with};

verus! {

/// The best-guess semantic category of a redacted value.
#[derive(Clone, Copy, PartialEq, Eq, Structural, Debug)]
pub enum GuestimatedType {
    Phone,
    Email,
    Name,
    Dunno,
}

/// A key is in scope iff it starts with one of the fixed prefixes.
pub open spec fn in_scope(key: Seq<char>) -> bool {
    ||| starts_with(key, "data"@)
    ||| starts_with(key, "display_name"@)
    ||| starts_with(key, "sort_key"@)
    ||| starts_with(key, "account_name"@)
    ||| starts_with(key, "sync"@)
    ||| starts_with(key, "lookup"@)
}

/// Decides the field-inclusion rule for a key.
pub fn key_in_scope(key: &str) -> (r: bool)
    ensures
        r == in_scope(key@),
{
    str_starts_with(key, "data") || str_starts_with(key, "display_name") || str_starts_with(
        key,
        "sort_key",
    ) || str_starts_with(key, "account_name") || str_starts_with(key, "sync") || str_starts_with(
        key,
        "lookup",
    )
}

/// The index of the first occurrence of `c` in `s`, or -1 if absent.
pub open spec fn find_char(s: Seq<char>, c: char) -> int
    decreases s.len(),
{
    if s.len() == 0 {
        -1
    } else if s[0] == c {
        0
    } else {
        let r = find_char(s.drop_first(), c);
        if r < 0 {
            -1
        } else {
            r + 1
        }
    }
}

/// `s` holds the character `c` somewhere.
pub open spec fn has_char(s: Seq<char>, c: char) -> bool {
    find_char(s, c) >= 0
}

/// `find_char` returns the position of the first occurrence, or -1.
pub proof fn lemma_find_char(s: Seq<char>, c: char)
    ensures
        -1 <= find_char(s, c) < s.len(),
        find_char(s, c) >= 0 ==> s[find_char(s, c)] == c,
        find_char(s, c) >= 0 ==> forall|j: int| 0 <= j < find_char(s, c) ==> s[j] != c,
        find_char(s, c) == -1 ==> forall|j: int| 0 <= j < s.len() ==> s[j] != c,
    decreases s.len(),
{
    if s.len() > 0 && s[0] != c {
        lemma_find_char(s.drop_first(), c);
        let r = find_char(s.drop_first(), c);
        if r >= 0 {
            assert(s[r + 1] == s.drop_first()[r]);
            assert forall|j: int| 0 <= j < r + 1 implies s[j] != c by {
                if j > 0 {
                    assert(s[j] == s.drop_first()[j - 1]);
                }
            }
        } else {
            assert forall|j: int| 0 <= j < s.len() implies s[j] != c by {
                if j > 0 {
                    assert(s[j] == s.drop_first()[j - 1]);
                }
            }
        }
    }
}

/// A position holding `c`, before which `c` does not occur, is `find_char`.
pub proof fn lemma_find_char_at(s: Seq<char>, c: char, i: int)
    requires
        0 <= i < s.len(),
        s[i] == c,
        forall|j: int| 0 <= j < i ==> s[j] != c,
    ensures
        find_char(s, c) == i,
    decreases s.len(),
{
    if i > 0 {
        assert forall|j: int| 0 <= j < i - 1 implies s.drop_first()[j] != c by {
            assert(s.drop_first()[j] == s[j + 1]);
        }
        assert(s.drop_first()[i - 1] == s[i]);
        lemma_find_char_at(s.drop_first(), c, i - 1);
    }
}

/// Finds the first occurrence of `c` in `v`.
pub fn find_char_vec(v: &Vec<char>, c: char) -> (r: Option<usize>)
    ensures
        match r {
            Some(i) => find_char(v@, c) == i,
            None => find_char(v@, c) == -1,
        },
{
    let mut i: usize = 0;
    while i < v.len()
        invariant
            i <= v@.len(),
            forall|j: int| 0 <= j < i ==> v@[j] != c,
        decreases v@.len() - i,
    {
        if v[i] == c {
            proof {
                lemma_find_char_at(v@, c, i as int);
            }
            return Some(i);
        }
        i = i + 1;
    }
    proof {
        lemma_find_char(v@, c);
    }
    None
}

/// The characters of `v` between positions `a` (inclusive) and `b` (exclusive).
pub fn vec_subrange(v: &Vec<char>, a: usize, b: usize) -> (r: Vec<char>)
    requires
        a <= b <= v@.len(),
    ensures
        r@ == v@.subrange(a as int, b as int),
{
    let mut r: Vec<char> = Vec::new();
    let mut i: usize = a;
    while i < b
        invariant
            a <= i <= b <= v@.len(),
            r@ == v@.subrange(a as int, i as int),
        decreases b - i,
    {
        r.push(v[i]);
        proof {
            assert(v@.subrange(a as int, (i + 1) as int) =~= v@.subrange(a as int, i as int).push(
                v@[i as int],
            ));
        }
        i = i + 1;
    }
    r
}

/// The email heuristic: the part of `s` before its first `@`, if any.
pub open spec fn email_step(s: Seq<char>) -> Seq<char> {
    if has_char(s, '@') {
        s.subrange(0, find_char(s, '@'))
    } else {
        s
    }
}

/// Applies the email truncation to `v`, reporting whether it fired.
pub fn email_step_vec(v: Vec<char>) -> (r: (Vec<char>, bool))
    ensures
        r.0@ == email_step(v@),
        r.1 == has_char(v@, '@'),
{
    proof {
        lemma_find_char(v@, '@');
    }
    match find_char_vec(&v, '@') {
        Some(i) => (vec_subrange(&v, 0, i), true),
        None => (v, false),
    }
}

/// The name heuristic: split on commas, reverse the parts, concatenate.
pub open spec fn comma_flip(s: Seq<char>) -> Seq<char>
    decreases s.len(),
    when -1 <= find_char(s, ',') < s.len()
{
    if !has_char(s, ',') {
        s
    } else {
        comma_flip(s.subrange(find_char(s, ',') + 1, s.len() as int)) + s.subrange(
            0,
            find_char(s, ','),
        )
    }
}

/// Applies the comma-flip to `v`.
pub fn comma_flip_vec(v: Vec<char>) -> (r: Vec<char>)
    ensures
        r@ == comma_flip(v@),
    decreases v@.len(),
{
    proof {
        lemma_find_char(v@, ',');
    }
    let n = v.len();
    match find_char_vec(&v, ',') {
        None => v,
        Some(i) => {
            proof {
                assert(i < n);
                lemma_find_char(v@.subrange(i + 1, v@.len() as int), ',');
            }
            let mut before = vec_subrange(&v, 0, i);
            let after = vec_subrange(&v, i + 1, n);
            let mut flipped = comma_flip_vec(after);
            flipped.append(&mut before);
            proof {
                assert(flipped@ == comma_flip(v@.subrange(i + 1, v@.len() as int)) + v@.subrange(
                    0,
                    i as int,
                ));
            }
            flipped
        },
    }
}

/// Drops leading characters with the Unicode `White_Space` property.
pub open spec fn trim_front(s: Seq<char>) -> Seq<char>
    decreases s.len(),
{
    if s.len() > 0 && is_ws(s[0]) {
        trim_front(s.drop_first())
    } else {
        s
    }
}

/// Drops trailing characters with the Unicode `White_Space` property.
pub open spec fn trim_back(s: Seq<char>) -> Seq<char>
    decreases s.len(),
{
    if s.len() > 0 && is_ws(s[s.len() - 1]) {
        trim_back(s.drop_last())
    } else {
        s
    }
}

/// Drops leading and trailing whitespace, as `str::trim` does.
pub open spec fn trim_spec(s: Seq<char>) -> Seq<char> {
    trim_back(trim_front(s))
}

proof fn lemma_trim_front_idx(s: Seq<char>, k: int)
    requires
        0 <= k <= s.len(),
        forall|j: int| 0 <= j < k ==> is_ws(s[j]),
        k < s.len() ==> !is_ws(s[k]),
    ensures
        trim_front(s) == s.skip(k),
    decreases k,
{
    if k == 0 {
        assert(s.skip(0) =~= s);
    } else {
        assert(is_ws(s[0]));
        assert forall|j: int| 0 <= j < k - 1 implies is_ws(s.drop_first()[j]) by {
            assert(s.drop_first()[j] == s[j + 1]);
        }
        if k - 1 < s.drop_first().len() {
            assert(s.drop_first()[k - 1] == s[k]);
        }
        lemma_trim_front_idx(s.drop_first(), k - 1);
        assert(s.drop_first().skip(k - 1) =~= s.skip(k));
    }
}

proof fn lemma_trim_back_idx(s: Seq<char>, k: int)
    requires
        0 <= k <= s.len(),
        forall|j: int| k <= j < s.len() ==> is_ws(s[j]),
        k > 0 ==> !is_ws(s[k - 1]),
    ensures
        trim_back(s) == s.take(k),
    decreases s.len(),
{
    if k == s.len() as int {
        if s.len() > 0 && is_ws(s[s.len() - 1]) {
            lemma_trim_back_idx(s.drop_last(), k - 1);
            assert(s.drop_last().take(k - 1) =~= s.take(k - 1));
            assert(false);
        } else {
            assert(s.take(k) =~= s);
        }
    } else {
        assert(is_ws(s[s.len() - 1]));
        assert forall|j: int| k <= j < s.drop_last().len() implies is_ws(s.drop_last()[j]) by {
            assert(s.drop_last()[j] == s[j]);
        }
        lemma_trim_back_idx(s.drop_last(), k);
        assert(s.drop_last().take(k) =~= s.take(k));
    }
}

/// Trims whitespace from both ends of `v`.
pub fn trim_vec(v: &Vec<char>) -> (r: Vec<char>)
    ensures
        r@ == trim_spec(v@),
{
    let n = v.len();
    let mut start: usize = 0;
    loop
        invariant_except_break
            n == v@.len(),
            start <= n,
            forall|j: int| 0 <= j < start ==> is_ws(v@[j]),
        ensures
            n == v@.len(),
            start <= n,
            forall|j: int| 0 <= j < start ==> is_ws(v@[j]),
            start == n || !is_ws(v@[start as int]),
        decreases n - start,
    {
        if start >= n {
            break ;
        }
        if !is_whitespace_char(v[start]) {
            break ;
        }
        start = start + 1;
    }
    let mut end: usize = n;
    loop
        invariant_except_break
            n == v@.len(),
            start <= end <= n,
            forall|j: int| 0 <= j < start ==> is_ws(v@[j]),
            start == n || !is_ws(v@[start as int]),
            forall|j: int| end <= j < n ==> is_ws(v@[j]),
        ensures
            start <= end <= n,
            forall|j: int| end <= j < n ==> is_ws(v@[j]),
            end == start || !is_ws(v@[end - 1]),
        decreases end,
    {
        if end <= start {
            break ;
        }
        if !is_whitespace_char(v[end - 1]) {
            break ;
        }
        end = end - 1;
    }
    proof {
        lemma_trim_front_idx(v@, start as int);
        let m = v@.skip(start as int);
        assert forall|j: int| (end - start) <= j < m.len() implies is_ws(m[j]) by {
            assert(m[j] == v@[j + start]);
        }
        if end > start {
            assert(m[end - start - 1] == v@[end - 1]);
        }
        lemma_trim_back_idx(m, end - start);
        assert(m.take(end - start) =~= v@.subrange(start as int, end as int));
    }
    vec_subrange(v, start, end)
}

/// A character removed by the symbol-stripping step.
pub open spec fn is_sym(c: char) -> bool {
    c == '.' || c == '\'' || c == '\n' || c == ' ' || c == '+' || c == '-' || c == '(' || c == ')'
}

/// Removes every occurrence of the stripped symbol characters.
pub open spec fn strip_syms(s: Seq<char>) -> Seq<char> {
    s.filter(|c: char| !is_sym(c))
}

/// Removes the stripped symbol characters from `v`.
pub fn strip_syms_vec(v: &Vec<char>) -> (r: Vec<char>)
    ensures
        r@ == strip_syms(v@),
{
    let mut r: Vec<char> = Vec::new();
    let mut i: usize = 0;
    proof {
        reveal_with_fuel(Seq::<_>::filter, 2);
        assert(strip_syms(v@.subrange(0, 0)) =~= Seq::<char>::empty());
    }
    while i < v.len()
        invariant
            i <= v@.len(),
            r@ == strip_syms(v@.subrange(0, i as int)),
        decreases v@.len() - i,
    {
        let c = v[i];
        proof {
            reveal_with_fuel(Seq::<_>::filter, 2);
            let s1 = v@.subrange(0, (i + 1) as int);
            assert(s1.drop_last() =~= v@.subrange(0, i as int));
            assert(s1.last() == v@[i as int]);
            assert(strip_syms(s1) == if !is_sym(v@[i as int]) {
                strip_syms(v@.subrange(0, i as int)).push(v@[i as int])
            } else {
                strip_syms(v@.subrange(0, i as int))
            });
        }
        let keep = !(c == '.' || c == '\'' || c == '\n' || c == ' ' || c == '+' || c == '-' || c
            == '(' || c == ')');
        if keep {
            r.push(c);
        }
        i = i + 1;
    }
    proof {
        assert(v@.subrange(0, v@.len() as int) =~= v@);
    }
    r
}

/// Removes remaining literal `+1` substrings, left to right, non-overlapping.
pub open spec fn remove_plus_one(s: Seq<char>) -> Seq<char>
    decreases s.len(),
{
    if s.len() >= 2 && s[0] == '+' && s[1] == '1' {
        remove_plus_one(s.skip(2))
    } else if s.len() > 0 {
        seq![s[0]] + remove_plus_one(s.drop_first())
    } else {
        s
    }
}

/// Removes remaining literal `+1` substrings from `v`.
pub fn remove_plus_one_vec(v: &Vec<char>) -> (r: Vec<char>)
    ensures
        r@ == remove_plus_one(v@),
    decreases v@.len(),
{
    let mut r: Vec<char> = Vec::new();
    let mut i: usize = 0;
    proof {
        assert(v@.skip(0) =~= v@);
        assert(Seq::<char>::empty() + remove_plus_one(v@) =~= remove_plus_one(v@));
    }
    while i < v.len()
        invariant
            i <= v@.len(),
            remove_plus_one(v@) == r@ + remove_plus_one(v@.skip(i as int)),
        decreases v@.len() - i,
    {
        let ghost pre = r@;
        let ghost m = v@.skip(i as int);
        if i + 1 < v.len() && v[i] == '+' && v[i + 1] == '1' {
            proof {
                assert(m[0] == v@[i as int]);
                assert(m[1] == v@[i + 1]);
                assert(m.skip(2) =~= v@.skip(i + 2));
            }
            i = i + 2;
        } else {
            proof {
                if m.len() > 0 {
                    assert(m[0] == v@[i as int]);
                    if m.len() >= 2 {
                        assert(m[1] == v@[i + 1]);
                    }
                    assert(m.drop_first() =~= v@.skip(i + 1));
                    assert(pre + (seq![m[0]] + remove_plus_one(m.drop_first())) =~= pre.push(m[0])
                        + remove_plus_one(v@.skip(i + 1)));
                }
            }
            r.push(v[i]);
            i = i + 1;
        }
    }
    proof {
        let tail = v@.skip(v@.len() as int);
        assert(tail.len() == 0);
        assert(remove_plus_one(tail) == tail);
        assert(r@ + remove_plus_one(tail) =~= r@);
    }
    r
}

/// Every character of `s` is an ASCII decimal digit.
pub open spec fn all_digits(s: Seq<char>) -> bool {
    forall|i: int| 0 <= i < s.len() ==> is_digit(s[i])
}

/// An ASCII decimal digit.
pub open spec fn is_digit(c: char) -> bool {
    48 <= (c as u32) <= 57
}

/// The phone heuristic on the fully stripped string: a clean run of 11 digits
/// starting with `1` loses that leading `1`; a clean run of exactly 10 digits
/// stays. Anything else does not match.
pub open spec fn phone_step(s: Seq<char>) -> (Seq<char>, bool) {
    if s.len() == 11 && s[0] == '1' && all_digits(s) {
        (s.drop_first(), true)
    } else if s.len() == 10 && all_digits(s) {
        (s, true)
    } else {
        (s, false)
    }
}

/// Checks that every character of `v` is an ASCII digit.
pub fn all_digits_vec(v: &Vec<char>) -> (r: bool)
    ensures
        r == all_digits(v@),
{
    let mut i: usize = 0;
    while i < v.len()
        invariant
            i <= v@.len(),
            forall|j: int| 0 <= j < i ==> is_digit(v@[j]),
        decreases v@.len() - i,
    {
        let u = v[i] as u32;
        if !(48 <= u && u <= 57) {
            return false;
        }
        i = i + 1;
    }
    true
}

/// Applies the phone heuristic to `v`, reporting whether it matched.
pub fn phone_step_vec(v: Vec<char>) -> (r: (Vec<char>, bool))
    ensures
        r.0@ == phone_step(v@).0,
        r.1 == phone_step(v@).1,
{
    if v.len() == 11 && v[0] == '1' && all_digits_vec(&v) {
        let r = vec_subrange(&v, 1, 11);
        proof {
            assert(v@.subrange(1, 11) =~= v@.drop_first());
        }
        (r, true)
    } else if v.len() == 10 && all_digits_vec(&v) {
        (v, true)
    } else {
        (v, false)
    }
}

/// The full normalization pipeline on an already-lowercased value, returning
/// the category and the normalized string used as the deduplication key.
pub open spec fn classify_normalize(lower: Seq<char>) -> (GuestimatedType, Seq<char>) {
    let v1 = email_step(lower);
    let t1 = if has_char(lower, '@') {
        GuestimatedType::Email
    } else {
        GuestimatedType::Dunno
    };
    let v2 = if has_char(v1, ',') {
        comma_flip(v1)
    } else {
        v1
    };
    let t2 = if has_char(v1, ',') {
        GuestimatedType::Name
    } else {
        t1
    };
    let v3 = remove_plus_one(strip_syms(trim_spec(v2)));
    let (v4, ph) = phone_step(v3);
    let t = if ph {
        GuestimatedType::Phone
    } else {
        t2
    };
    (t, v4)
}

/// Runs the normalization pipeline on an already-lowercased value.
pub fn classify_normalize_vec(lower: Vec<char>) -> (r: (GuestimatedType, Vec<char>))
    ensures
        r.0 == classify_normalize(lower@).0,
        r.1@ == classify_normalize(lower@).1,
{
    let ghost l0 = lower@;
    let (v1, emailed) = email_step_vec(lower);
    let has_comma = match find_char_vec(&v1, ',') {
        Some(_) => true,
        None => false,
    };
    proof {
        lemma_find_char(v1@, ',');
    }
    let v2 = if has_comma {
        comma_flip_vec(v1)
    } else {
        v1
    };
    let t2 = if has_comma {
        GuestimatedType::Name
    } else if emailed {
        GuestimatedType::Email
    } else {
        GuestimatedType::Dunno
    };
    let trimmed = trim_vec(&v2);
    let stripped = strip_syms_vec(&trimmed);
    let v3 = remove_plus_one_vec(&stripped);
    let (v4, phoned) = phone_step_vec(v3);
    let t = if phoned {
        GuestimatedType::Phone
    } else {
        t2
    };
    (t, v4)
}

} // verus!
