use vstd::prelude::*;
use vstd::string::*;

use crate::task::Task;

verus! {

/// Shortest accepted phone number, in digits.
pub const MIN_PHONE_LENGTH: usize = 8;

/// Longest accepted phone number, in digits.
pub const MAX_PHONE_LENGTH: usize = 15;

/// Index of the first character equal to `a` or `b`, or -1.
pub open spec fn first_of(s: Seq<char>, a: char, b: char) -> int
    decreases s.len(),
{
    if s.len() == 0 {
        -1
    } else if first_of(s.drop_last(), a, b) >= 0 {
        first_of(s.drop_last(), a, b)
    } else if s.last() == a || s.last() == b {
        s.len() - 1
    } else {
        -1
    }
}

/// A combo cut at its first `:` or `;` into identifier and secret.
pub open spec fn split_combo(s: Seq<char>) -> Option<(Seq<char>, Seq<char>)> {
    let i = first_of(s, ':', ';');
    if i < 0 {
        None
    } else {
        Some((s.subrange(0, i), s.subrange(i + 1, s.len() as int)))
    }
}

/// The identifier and secret of a combo, when both are non-empty.
pub open spec fn credentials(s: Seq<char>) -> Option<(Seq<char>, Seq<char>)> {
    match split_combo(s) {
        Some((id, secret)) => if id.len() > 0 && secret.len() > 0 {
            Some((id, secret))
        } else {
            None
        },
        None => None,
    }
}

/// The part of an identifier before its first `@`.
pub open spec fn user_part(id: Seq<char>) -> Seq<char> {
    let j = first_of(id, '@', '@');
    if j < 0 {
        id
    } else {
        id.subrange(0, j)
    }
}

/// A combo with the domain taken off its identifier.
pub open spec fn without_domain(s: Seq<char>) -> Option<Seq<char>> {
    match credentials(s) {
        Some((id, secret)) => Some(user_part(id) + seq![':'] + secret),
        None => None,
    }
}

/// The identifier (for logins) or the secret (otherwise) of a combo.
pub open spec fn combo_part(s: Seq<char>, logins: bool) -> Option<Seq<char>> {
    match credentials(s) {
        Some((id, secret)) => Some(
            if logins {
                id
            } else {
                secret
            },
        ),
        None => None,
    }
}

pub open spec fn is_digit(c: char) -> bool {
    '0' <= c <= '9'
}

/// The ASCII digits of a text, in order.
pub open spec fn digits(s: Seq<char>) -> Seq<char>
    decreases s.len(),
{
    if s.len() == 0 {
        Seq::empty()
    } else if is_digit(s.last()) {
        digits(s.drop_last()).push(s.last())
    } else {
        digits(s.drop_last())
    }
}

/// National prefixes completed to international form: ten digits starting
/// with 9 or 7 get a leading 7; eleven starting with 8 have it replaced by
/// 7; ten starting with 0 get a leading 38.
pub open spec fn international(d: Seq<char>) -> Seq<char> {
    if d.len() == 10 && (d[0] == '9' || d[0] == '7') {
        seq!['7'] + d
    } else if d.len() == 11 && d[0] == '8' {
        seq!['7'] + d.subrange(1, 11)
    } else if d.len() == 10 && d[0] == '0' {
        seq!['3', '8'] + d
    } else {
        d
    }
}

/// A number of a known country: Russian (7, eleven digits), Ukrainian
/// (380, twelve), Belarusian (375, twelve) or Moldovan (373, eleven).
pub open spec fn known_country(n: Seq<char>) -> bool {
    ||| n.len() == 11 && n[0] == '7'
    ||| n.len() == 12 && n[0] == '3' && n[1] == '8' && n[2] == '0'
    ||| n.len() == 12 && n[0] == '3' && n[1] == '7' && n[2] == '5'
    ||| n.len() == 11 && n[0] == '3' && n[1] == '7' && n[2] == '3'
}

/// A phone field normalized to its digits in international form; none for
/// an address (it holds `@`), for a digit count out of range, or for an
/// unknown country unless the field starts with `+`.
pub open spec fn normalized_phone(p: Seq<char>) -> Option<Seq<char>> {
    let d = digits(p);
    let n = international(d);
    if p.contains('@') {
        None
    } else if d.len() < MIN_PHONE_LENGTH || d.len() > MAX_PHONE_LENGTH {
        None
    } else if known_country(n) || (p.len() > 0 && p[0] == '+') {
        Some(n)
    } else {
        None
    }
}

/// A combo whose identifier is a phone number, with the number normalized.
pub open spec fn phone_combo(s: Seq<char>) -> Option<Seq<char>> {
    match credentials(s) {
        Some((phone, secret)) => match normalized_phone(phone) {
            Some(n) => Some(n + seq![':'] + secret),
            None => None,
        },
        None => None,
    }
}

/// The characters of a string, in a vector.
pub(crate) fn chars_of(s: &str) -> (r: Vec<char>)
    ensures
        r@ == s@,
{
    let mut r: Vec<char> = Vec::new();
    for c in it: s.chars()
        invariant
            r@ == it.seq().subrange(0, it.index() as int),
            it.seq() == s@,
    {
        r.push(c);
    }
    r
}

/// Relies on `String::push`, which appends one character.
#[verifier::external_body]
pub(crate) fn push_char(s: &mut String, c: char)
    ensures
        final(s)@ == old(s)@.push(c),
{
    s.push(c);
}

/// The characters `from..to` of `v`, as a string.
pub(crate) fn string_of(v: &Vec<char>, from: usize, to: usize) -> (r: String)
    requires
        from <= to <= v.len(),
    ensures
        r@ == v@.subrange(from as int, to as int),
{
    let mut r = String::new();
    for i in from..to
        invariant
            to <= v.len(),
            r@ == v@.subrange(from as int, i as int),
    {
        push_char(&mut r, v[i]);
        assert(r@ =~= v@.subrange(from as int, i + 1));
    }
    r
}

/// Index of the first of the first `end` characters equal to `a` or `b`.
fn find_first(v: &Vec<char>, end: usize, a: char, b: char) -> (r: Option<usize>)
    requires
        end <= v.len(),
    ensures
        match r {
            Some(j) => j as int == first_of(v@.subrange(0, end as int), a, b) && j < end,
            None => first_of(v@.subrange(0, end as int), a, b) < 0,
        },
{
    let mut i: usize = 0;
    while i < end
        invariant
            i <= end <= v.len(),
            first_of(v@.subrange(0, i as int), a, b) < 0,
        decreases end - i,
    {
        assert(v@.subrange(0, i + 1).drop_last() =~= v@.subrange(0, i as int));
        if v[i] == a || v[i] == b {
            proof {
                let s = v@.subrange(0, end as int);
                assert(s.subrange(0, i + 1) =~= v@.subrange(0, i + 1));
                lemma_first_of_prefix(s, a, b, i + 1);
            }
            return Some(i);
        }
        i = i + 1;
    }
    None
}

/// Lemma: the first match within a prefix that holds one is the first match.
proof fn lemma_first_of_prefix(s: Seq<char>, a: char, b: char, k: int)
    requires
        0 <= k <= s.len(),
        0 <= first_of(s.subrange(0, k), a, b),
    ensures
        first_of(s, a, b) == first_of(s.subrange(0, k), a, b),
    decreases s.len() - k,
{
    if k < s.len() {
        assert(s.subrange(0, k + 1).drop_last() =~= s.subrange(0, k));
        lemma_first_of_prefix(s, a, b, k + 1);
    } else {
        assert(s.subrange(0, k) =~= s);
    }
}

/// Cuts a combo into identifier and secret at its first `:` or `;`, both
/// non-empty.
fn credentials_of(v: &Vec<char>) -> (r: Option<(usize, usize)>)
    ensures
        match r {
            Some((i, n)) => {
                &&& n == v.len()
                &&& i < n
                &&& credentials(v@) == Some(
                    (v@.subrange(0, i as int), v@.subrange(i + 1, n as int)),
                )
            },
            None => credentials(v@) is None,
        },
{
    let n = v.len();
    assert(v@.subrange(0, n as int) =~= v@);
    match find_first(v, n, ':', ';') {
        Some(i) => {
            if i == 0 || i + 1 == n {
                None
            } else {
                Some((i, n))
            }
        },
        None => None,
    }
}

/// A combo with the domain taken off its identifier: `user@host:secret`
/// becomes `user:secret`. None when the combo has no separator or an empty
/// side.
pub fn remove_domain(combo: &str) -> (r: Option<String>)
    ensures
        match r {
            Some(s) => without_domain(combo@) == Some(s@),
            None => without_domain(combo@) is None,
        },
{
    let v = chars_of(combo);
    match credentials_of(&v) {
        Some((i, n)) => {
            let ghost id = v@.subrange(0, i as int);
            let end = match find_first(&v, i, '@', '@') {
                Some(j) => j,
                None => i,
            };
            assert(v@.subrange(0, i as int) =~= id);
            assert(user_part(id) =~= v@.subrange(0, end as int));
            let mut out = string_of(&v, 0, end);
            push_char(&mut out, ':');
            let secret = string_of(&v, i + 1, n);
            out.append(secret.as_str());
            Some(out)
        },
        None => None,
    }
}

/// The login (identifier) or the password (secret) of a combo.
pub fn extract(combo: &str, task: Task) -> (r: Option<String>)
    requires
        task == Task::ExtractLogins || task == Task::ExtractPasswords,
    ensures
        match r {
            Some(s) => combo_part(combo@, task == Task::ExtractLogins) == Some(s@),
            None => combo_part(combo@, task == Task::ExtractLogins) is None,
        },
{
    let v = chars_of(combo);
    match credentials_of(&v) {
        Some((i, n)) => {
            if task == Task::ExtractLogins {
                Some(string_of(&v, 0, i))
            } else {
                Some(string_of(&v, i + 1, n))
            }
        },
        None => None,
    }
}

/// The ASCII digits of `v`, in order.
fn digits_of(v: &Vec<char>) -> (r: Vec<char>)
    ensures
        r@ == digits(v@),
{
    let mut r: Vec<char> = Vec::new();
    for i in 0..v.len()
        invariant
            r@ == digits(v@.subrange(0, i as int)),
    {
        assert(v@.subrange(0, i + 1).drop_last() =~= v@.subrange(0, i as int));
        if '0' <= v[i] && v[i] <= '9' {
            r.push(v[i]);
        }
    }
    assert(v@.subrange(0, v.len() as int) =~= v@);
    r
}

/// Normalizes the phone field of `v` (its first `end` characters).
fn phone_of(v: &Vec<char>, end: usize) -> (r: Option<Vec<char>>)
    requires
        end <= v.len(),
    ensures
        match r {
            Some(n) => normalized_phone(v@.subrange(0, end as int)) == Some(n@),
            None => normalized_phone(v@.subrange(0, end as int)) is None,
        },
{
    let ghost p = v@.subrange(0, end as int);
    if find_first(v, end, '@', '@').is_some() {
        proof {
            let j = first_of(p, '@', '@');
            lemma_first_of_is_match(p, '@', '@');
            assert(p[j] == '@');
        }
        return None;
    }
    proof {
        lemma_no_match(p, '@', '@');
    }
    let mut field: Vec<char> = Vec::new();
    for i in 0..end
        invariant
            end <= v.len(),
            field@ == v@.subrange(0, i as int),
    {
        field.push(v[i]);
        assert(field@ =~= v@.subrange(0, i + 1));
    }
    let has_plus = end > 0 && v[0] == '+';
    let d = digits_of(&field);
    if d.len() < MIN_PHONE_LENGTH || d.len() > MAX_PHONE_LENGTH {
        return None;
    }
    let mut n: Vec<char> = Vec::new();
    let mut skip: usize = 0;
    if d.len() == 10 && (d[0] == '9' || d[0] == '7') {
        n.push('7');
    } else if d.len() == 11 && d[0] == '8' {
        n.push('7');
        skip = 1;
    } else if d.len() == 10 && d[0] == '0' {
        n.push('3');
        n.push('8');
    }
    let ghost lead = n@;
    for k in skip..d.len()
        invariant
            skip <= d.len(),
            n@ == lead + d@.subrange(skip as int, k as int),
    {
        n.push(d[k]);
        assert(n@ =~= lead + d@.subrange(skip as int, k + 1));
    }
    assert(n@ =~= international(d@));
    let known = (n.len() == 11 && n[0] == '7') || (n.len() == 12 && n[0] == '3' && n[1] == '8'
        && n[2] == '0') || (n.len() == 12 && n[0] == '3' && n[1] == '7' && n[2] == '5') || (
    n.len() == 11 && n[0] == '3' && n[1] == '7' && n[2] == '3');
    if known || has_plus {
        Some(n)
    } else {
        None
    }
}

proof fn lemma_first_of_is_match(s: Seq<char>, a: char, b: char)
    ensures
        first_of(s, a, b) >= 0 ==> first_of(s, a, b) < s.len() && (s[first_of(s, a, b)] == a
            || s[first_of(s, a, b)] == b),
    decreases s.len(),
{
    if s.len() > 0 {
        lemma_first_of_is_match(s.drop_last(), a, b);
    }
}

proof fn lemma_no_match(s: Seq<char>, a: char, b: char)
    requires
        first_of(s, a, b) < 0,
    ensures
        !s.contains(a),
        !s.contains(b),
    decreases s.len(),
{
    if s.len() > 0 {
        lemma_no_match(s.drop_last(), a, b);
        assert forall|i: int| 0 <= i < s.len() implies s[i] != a && s[i] != b by {
            if i < s.len() - 1 {
                assert(s[i] == s.drop_last()[i]);
            }
        }
    }
}

/// A phone field normalized to international digits: `+7 (912) 345-67-89`
/// becomes `79123456789`.
pub fn extract_phone(phone: &str) -> (r: Option<String>)
    ensures
        match r {
            Some(s) => normalized_phone(phone@) == Some(s@),
            None => normalized_phone(phone@) is None,
        },
{
    let v = chars_of(phone);
    assert(v@.subrange(0, v.len() as int) =~= v@);
    match phone_of(&v, v.len()) {
        Some(n) => Some(string_of(&n, 0, n.len())),
        None => None,
    }
}

/// A combo whose identifier is a phone number, with the number normalized:
/// `8 912 345-67-89:secret` becomes `79123456789:secret`.
pub fn normalize_phone_combo(combo: &str) -> (r: Option<String>)
    ensures
        match r {
            Some(s) => phone_combo(combo@) == Some(s@),
            None => phone_combo(combo@) is None,
        },
{
    let v = chars_of(combo);
    match credentials_of(&v) {
        Some((i, n)) => match phone_of(&v, i) {
            Some(digits) => {
                let mut out = string_of(&digits, 0, digits.len());
                push_char(&mut out, ':');
                let secret = string_of(&v, i + 1, n);
                out.append(secret.as_str());
                Some(out)
            },
            None => None,
        },
        None => None,
    }
}

} // verus!
