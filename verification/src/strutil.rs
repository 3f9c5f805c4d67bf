//! String utilities the core parses and prints with: decimal numbers and
//! separator-split fields, each specified against a mathematical view.

use vstd::prelude::*;

verus! {

/// An ASCII decimal digit.
pub open spec fn is_digit(c: char) -> bool {
    48 <= c as u32 && c as u32 <= 57
}

/// The numeric value of an ASCII decimal digit.
pub open spec fn digit_val(c: char) -> nat {
    (c as u32 - 48) as nat
}

/// Every character of the sequence is an ASCII decimal digit.
pub open spec fn all_digits(s: Seq<char>) -> bool {
    forall|i: int| 0 <= i < s.len() ==> is_digit(#[trigger] s[i])
}

/// The number denoted by a sequence of decimal digits, most significant
/// digit first.
pub open spec fn digits_val(s: Seq<char>) -> nat
    decreases s.len(),
{
    if s.len() == 0 {
        0
    } else {
        digits_val(s.drop_last()) * 10 + digit_val(s.last())
    }
}

/// A sequence of characters that denotes a `u32`: nonempty, all digits, and
/// within range.
pub open spec fn is_u32_string(s: Seq<char>) -> bool {
    s.len() > 0 && all_digits(s) && digits_val(s) <= u32::MAX
}

/// The value denoted by a prefix of a digit string never exceeds the value
/// of the whole string.
proof fn lemma_digits_val_prefix_le(s: Seq<char>, i: int)
    requires
        0 <= i <= s.len(),
    ensures
        digits_val(s.subrange(0, i)) <= digits_val(s),
    decreases s.len(),
{
    if i < s.len() {
        assert(s.drop_last().subrange(0, i) =~= s.subrange(0, i));
        lemma_digits_val_prefix_le(s.drop_last(), i);
        assert(digits_val(s) == digits_val(s.drop_last()) * 10 + digit_val(s.last()));
        assert(digits_val(s.drop_last()) * 10 >= digits_val(s.drop_last()));
    } else {
        assert(s.subrange(0, i) =~= s);
    }
}

/// Parses a decimal `u32`. Returns the denoted value exactly when the input
/// is nonempty, consists of digits only, and fits in a `u32`; returns
/// nothing otherwise.
pub fn parse_u32(s: &str) -> (r: Option<u32>)
    ensures
        r is Some <==> is_u32_string(s@),
        r is Some ==> r->0 as nat == digits_val(s@),
{
    let n = s.unicode_len();
    if n == 0 {
        return None;
    }
    let mut acc: u64 = 0;
    let mut i: usize = 0;
    while i < n
        invariant
            0 <= i <= n,
            n == s@.len(),
            all_digits(s@.subrange(0, i as int)),
            acc == digits_val(s@.subrange(0, i as int)),
            acc <= u32::MAX,
        decreases n - i,
    {
        let c = s.get_char(i);
        let code = c as u32;
        if code < 48 || code > 57 {
            assert(!all_digits(s@));
            return None;
        }
        let d: u64 = (code - 48) as u64;
        let next: u64 = acc * 10 + d;
        proof {
            assert(s@.subrange(0, i + 1).drop_last() =~= s@.subrange(0, i as int));
            assert(s@.subrange(0, i + 1).last() == s@[i as int]);
        }
        if next > 0xffff_ffffu64 {
            proof {
                lemma_digits_val_prefix_le(s@, i + 1);
            }
            return None;
        }
        acc = next;
        i = i + 1;
    }
    proof {
        assert(s@.subrange(0, n as int) =~= s@);
    }
    Some(acc as u32)
}

/// The character of a decimal digit.
pub open spec fn digit_char(d: nat) -> char {
    ((48 + d) as u8) as char
}

/// The decimal notation of a number: most significant digit first, no
/// leading zero except for the number zero itself.
pub open spec fn spec_decimal(n: nat) -> Seq<char>
    decreases n,
{
    if n < 10 {
        seq![digit_char(n)]
    } else {
        spec_decimal(n / 10).push(digit_char(n % 10))
    }
}

fn digit_str(d: u32) -> (r: &'static str)
    requires
        d < 10,
    ensures
        r@ =~= seq![digit_char(d as nat)],
{
    proof {
        reveal_strlit("0");
        reveal_strlit("1");
        reveal_strlit("2");
        reveal_strlit("3");
        reveal_strlit("4");
        reveal_strlit("5");
        reveal_strlit("6");
        reveal_strlit("7");
        reveal_strlit("8");
        reveal_strlit("9");
    }
    match d {
        0 => "0",
        1 => "1",
        2 => "2",
        3 => "3",
        4 => "4",
        5 => "5",
        6 => "6",
        7 => "7",
        8 => "8",
        _ => "9",
    }
}

/// Renders a `u32` in decimal notation.
pub fn u32_to_string(n: u32) -> (r: String)
    ensures
        r@ == spec_decimal(n as nat),
    decreases n,
{
    if n < 10 {
        digit_str(n).to_owned()
    } else {
        let mut r = u32_to_string(n / 10);
        r.append(digit_str(n % 10));
        proof {
            assert(spec_decimal((n / 10) as nat) + seq![digit_char((n % 10) as nat)]
                =~= spec_decimal((n / 10) as nat).push(digit_char((n % 10) as nat)));
        }
        r
    }
}

/// Printing and parsing agree: the decimal notation of a number is a valid
/// digit string denoting the number itself, so a rendered id is read back
/// unchanged.
pub proof fn lemma_decimal_round_trip(n: u32)
    ensures
        is_u32_string(spec_decimal(n as nat)),
        digits_val(spec_decimal(n as nat)) == n as nat,
    decreases n,
{
    reveal_with_fuel(digits_val, 3);
    let s = spec_decimal(n as nat);
    if n < 10 {
        assert(s =~= seq![digit_char(n as nat)]);
        assert(s.drop_last() =~= Seq::empty());
        assert(digits_val(s) == digit_val(digit_char(n as nat)));
        assert(digit_val(digit_char(n as nat)) == n as nat);
    } else {
        lemma_decimal_round_trip(n / 10);
        let head = spec_decimal((n / 10) as nat);
        assert(s == head.push(digit_char((n % 10) as nat)));
        assert(s.drop_last() =~= head);
        assert(s.last() == digit_char((n % 10) as nat));
        assert(digits_val(s) == digits_val(head) * 10 + digit_val(digit_char((n % 10) as nat)));
        assert(digit_val(digit_char((n % 10) as nat)) == (n % 10) as nat) by {
            assert(((n % 10) as nat) < 10);
            assert(forall|d: nat| d < 10 ==> digit_val(#[trigger] digit_char(d)) == d) by {
                assert forall|d: nat| d < 10 implies digit_val(#[trigger] digit_char(d)) == d by {
                    assert(((48 + d) as u8) as char as u32 == 48 + d);
                }
            }
        }
        assert(((n / 10) as nat) * 10 + ((n % 10) as nat) == n as nat) by (nonlinear_arith);
        assert forall|i: int| 0 <= i < s.len() implies is_digit(#[trigger] s[i]) by {
            if i < s.len() - 1 {
                assert(s[i] == head[i]);
            } else {
                assert(s[i] == digit_char((n % 10) as nat));
                assert(is_digit(digit_char((n % 10) as nat)));
            }
        }
    }
}

/// The pieces of a sequence cut at every occurrence of the separator: one
/// more piece than separators, pieces in order, separators dropped. An
/// empty input yields one empty piece.
pub open spec fn spec_split(s: Seq<char>, sep: char) -> Seq<Seq<char>>
    decreases s.len(),
{
    if s.len() == 0 {
        seq![Seq::empty()]
    } else if s[0] == sep {
        seq![Seq::<char>::empty()] + spec_split(s.drop_first(), sep)
    } else {
        let rest = spec_split(s.drop_first(), sep);
        seq![seq![s[0]] + rest[0]] + rest.drop_first()
    }
}

/// A split has at least one piece.
pub proof fn lemma_split_len(s: Seq<char>, sep: char)
    ensures
        spec_split(s, sep).len() >= 1,
    decreases s.len(),
{
    if s.len() > 0 {
        lemma_split_len(s.drop_first(), sep);
    }
}

/// Extending the input by one character extends the last piece, or opens a
/// fresh empty piece when the character is the separator.
proof fn lemma_split_push(s: Seq<char>, sep: char, c: char)
    ensures
        c == sep ==> spec_split(s.push(c), sep) == spec_split(s, sep).push(Seq::empty()),
        c != sep ==> spec_split(s.push(c), sep) == spec_split(s, sep).update(
            spec_split(s, sep).len() - 1,
            spec_split(s, sep).last().push(c),
        ),
    decreases s.len(),
{
    reveal_with_fuel(spec_split, 3);
    lemma_split_len(s, sep);
    if s.len() == 0 {
        if c == sep {
            assert(s.push(c)[0] == sep);
            assert(s.push(c).drop_first() =~= Seq::<char>::empty());
            assert(spec_split(s.push(c), sep) =~~= spec_split(s, sep).push(Seq::empty()));
        } else {
            assert(s.push(c)[0] == c);
            assert(s.push(c).drop_first() =~= Seq::<char>::empty());
            assert(seq![c] + Seq::<char>::empty() =~= Seq::empty().push(c));
            assert(spec_split(s.push(c), sep) =~~= spec_split(s, sep).update(
                0,
                spec_split(s, sep).last().push(c),
            ));
        }
    } else {
        let t = s.drop_first();
        lemma_split_len(t, sep);
        lemma_split_push(t, sep, c);
        assert(s.push(c)[0] == s[0]);
        assert(s.push(c).drop_first() =~= t.push(c));
        if s[0] == sep {
            if c == sep {
                assert(spec_split(s.push(c), sep) =~~= spec_split(s, sep).push(Seq::empty()));
            } else {
                assert(spec_split(s, sep).last() == spec_split(t, sep).last());
                assert(spec_split(s.push(c), sep) =~~= spec_split(s, sep).update(
                    spec_split(s, sep).len() - 1,
                    spec_split(s, sep).last().push(c),
                ));
            }
        } else {
            let rest = spec_split(t, sep);
            let restc = spec_split(t.push(c), sep);
            if c == sep {
                assert(restc == rest.push(Seq::empty()));
                assert(restc[0] == rest[0]);
                assert(restc.drop_first() =~~= rest.drop_first().push(Seq::empty()));
                assert(spec_split(s.push(c), sep) =~~= spec_split(s, sep).push(Seq::empty()));
            } else {
                assert(restc == rest.update(rest.len() - 1, rest.last().push(c)));
                if rest.len() == 1 {
                    assert(restc[0] == rest.last().push(c));
                    assert(seq![s[0]] + rest[0].push(c) =~= (seq![s[0]] + rest[0]).push(c));
                    assert(restc.drop_first() =~~= rest.drop_first());
                    assert(spec_split(s, sep).last() == seq![s[0]] + rest[0]);
                    assert(spec_split(s.push(c), sep) =~~= spec_split(s, sep).update(
                        spec_split(s, sep).len() - 1,
                        spec_split(s, sep).last().push(c),
                    ));
                } else {
                    assert(restc[0] == rest[0]);
                    assert(restc.drop_first() =~~= rest.drop_first().update(
                        rest.drop_first().len() - 1,
                        rest.drop_first().last().push(c),
                    ));
                    assert(spec_split(s, sep).last() == rest.last());
                    assert(spec_split(s.push(c), sep) =~~= spec_split(s, sep).update(
                        spec_split(s, sep).len() - 1,
                        spec_split(s, sep).last().push(c),
                    ));
                }
            }
        }
    }
}

/// Splits a string at every occurrence of the separator.
pub fn split_str(s: &str, sep: char) -> (r: Vec<String>)
    ensures
        r@.map_values(|p: String| p@) == spec_split(s@, sep),
{
    let n = s.unicode_len();
    let mut pieces: Vec<String> = Vec::new();
    let mut start: usize = 0;
    let mut i: usize = 0;
    proof {
        reveal_with_fuel(spec_split, 2);
        assert(s@.subrange(0, 0) =~= Seq::<char>::empty());
        assert(spec_split(s@.subrange(0, 0), sep) =~~= pieces@.map_values(|p: String| p@).push(
            s@.subrange(0, 0),
        ));
    }
    while i < n
        invariant
            0 <= start <= i <= n,
            n == s@.len(),
            spec_split(s@.subrange(0, i as int), sep) == pieces@.map_values(|p: String| p@).push(
                s@.subrange(start as int, i as int),
            ),
        decreases n - i,
    {
        let ghost views = pieces@.map_values(|p: String| p@);
        let c = s.get_char(i);
        proof {
            assert(s@.subrange(0, i + 1) =~= s@.subrange(0, i as int).push(s@[i as int]));
            lemma_split_push(s@.subrange(0, i as int), sep, c);
        }
        if c == sep {
            let piece = s.substring_char(start, i).to_owned();
            pieces.push(piece);
            proof {
                assert(pieces@.map_values(|p: String| p@) =~~= views.push(
                    s@.subrange(start as int, i as int),
                ));
                assert(spec_split(s@.subrange(0, i + 1), sep) =~~= pieces@.map_values(
                    |p: String| p@,
                ).push(Seq::empty()));
                assert(s@.subrange(i + 1, i + 1) =~= Seq::<char>::empty());
            }
            start = i + 1;
        } else {
            proof {
                let old_split = spec_split(s@.subrange(0, i as int), sep);
                assert(old_split.last() == s@.subrange(start as int, i as int));
                assert(s@.subrange(start as int, i as int).push(s@[i as int]) =~= s@.subrange(
                    start as int,
                    i + 1,
                ));
                assert(old_split.update(old_split.len() - 1, s@.subrange(start as int, i + 1))
                    =~~= views.push(s@.subrange(start as int, i + 1)));
            }
        }
        i = i + 1;
    }
    let last = s.substring_char(start, n).to_owned();
    pieces.push(last);
    proof {
        assert(s@.subrange(0, n as int) =~= s@);
        assert(pieces@.map_values(|p: String| p@) =~~= spec_split(s@, sep));
    }
    pieces
}

/// Compares the characters of `s` starting at `at` with `t`.
pub fn substr_eq_at(s: &str, at: usize, t: &str) -> (b: bool)
    requires
        at + t@.len() <= s@.len(),
    ensures
        b == (s@.subrange(at as int, at as int + t@.len()) == t@),
{
    let n = s.unicode_len();
    let tl = t.unicode_len();
    let ghost sub = s@.subrange(at as int, at as int + t@.len());
    let mut k: usize = 0;
    while k < tl
        invariant
            k <= tl,
            tl == t@.len(),
            n == s@.len(),
            at + t@.len() <= s@.len(),
            sub == s@.subrange(at as int, at as int + t@.len()),
            forall|m: int| 0 <= m < k ==> sub[m] == t@[m],
        decreases tl - k,
    {
        if s.get_char(at + k) != t.get_char(k) {
            assert(sub[k as int] != t@[k as int]);
            return false;
        }
        k = k + 1;
    }
    proof {
        assert(sub =~= t@);
    }
    true
}

/// The sequence ends with the suffix.
pub open spec fn spec_ends_with(s: Seq<char>, t: Seq<char>) -> bool {
    t.len() <= s.len() && s.subrange(s.len() - t.len(), s.len() as int) == t
}

/// Whether the string ends with the suffix.
pub fn ends_with_str(s: &str, suffix: &str) -> (b: bool)
    ensures
        b == spec_ends_with(s@, suffix@),
{
    let n = s.unicode_len();
    let tl = suffix.unicode_len();
    if tl > n {
        return false;
    }
    substr_eq_at(s, n - tl, suffix)
}

/// The sequence starts with the prefix.
pub open spec fn spec_starts_with(s: Seq<char>, t: Seq<char>) -> bool {
    t.len() <= s.len() && s.subrange(0, t.len() as int) == t
}

/// Whether the string starts with the prefix.
pub fn starts_with_str(s: &str, prefix: &str) -> (b: bool)
    ensures
        b == spec_starts_with(s@, prefix@),
{
    let n = s.unicode_len();
    let tl = prefix.unicode_len();
    if tl > n {
        return false;
    }
    substr_eq_at(s, 0, prefix)
}

/// Whether a name occurs in a list of names.
pub open spec fn name_in(names: Seq<Seq<char>>, name: Seq<char>) -> bool {
    exists|i: int| 0 <= i < names.len() && names[i] == name
}

/// An ASCII whitespace character.
pub open spec fn is_space(c: char) -> bool {
    c == ' ' || c == '\t' || c == '\n' || c == '\r'
}

/// The sequence without its leading whitespace.
pub open spec fn spec_trim_start(s: Seq<char>) -> Seq<char>
    decreases s.len(),
{
    if s.len() == 0 || !is_space(s[0]) {
        s
    } else {
        spec_trim_start(s.drop_first())
    }
}

/// The sequence without its trailing whitespace.
pub open spec fn spec_trim_end(s: Seq<char>) -> Seq<char>
    decreases s.len(),
{
    if s.len() == 0 || !is_space(s.last()) {
        s
    } else {
        spec_trim_end(s.drop_last())
    }
}

/// The sequence without leading and trailing whitespace.
pub open spec fn spec_trim(s: Seq<char>) -> Seq<char> {
    spec_trim_end(spec_trim_start(s))
}

proof fn lemma_trim_start_skip(s: Seq<char>, k: int)
    requires
        0 <= k <= s.len(),
        forall|m: int| 0 <= m < k ==> is_space(#[trigger] s[m]),
    ensures
        spec_trim_start(s) == spec_trim_start(s.subrange(k, s.len() as int)),
    decreases k,
{
    if k > 0 {
        assert(is_space(s[0]));
        assert(spec_trim_start(s) == spec_trim_start(s.drop_first()));
        assert(s.drop_first() =~= s.subrange(1, s.len() as int));
        let t = s.subrange(1, s.len() as int);
        assert(forall|m: int| 0 <= m < k - 1 ==> is_space(#[trigger] t[m]));
        lemma_trim_start_skip(t, k - 1);
        assert(t.subrange(k - 1, t.len() as int) =~= s.subrange(k, s.len() as int));
    } else {
        assert(s.subrange(0, s.len() as int) =~= s);
    }
}

proof fn lemma_trim_end_skip(s: Seq<char>, k: int)
    requires
        0 <= k <= s.len(),
        forall|m: int| s.len() - k <= m < s.len() ==> is_space(#[trigger] s[m]),
    ensures
        spec_trim_end(s) == spec_trim_end(s.subrange(0, s.len() - k)),
    decreases k,
{
    if k > 0 {
        assert(is_space(s.last()));
        assert(spec_trim_end(s) == spec_trim_end(s.drop_last()));
        assert(s.drop_last() =~= s.subrange(0, s.len() - 1));
        let t = s.subrange(0, s.len() - 1);
        assert(forall|m: int| t.len() - (k - 1) <= m < t.len() ==> is_space(#[trigger] t[m]));
        lemma_trim_end_skip(t, k - 1);
        assert(t.subrange(0, t.len() - (k - 1)) =~= s.subrange(0, s.len() - k));
    } else {
        assert(s.subrange(0, s.len() as int) =~= s);
    }
}

fn is_space_char(c: char) -> (b: bool)
    ensures
        b == is_space(c),
{
    c == ' ' || c == '\t' || c == '\n' || c == '\r'
}

/// Strips leading and trailing ASCII whitespace, as subprocess output is
/// stripped before use.
pub fn trim_str(s: &str) -> (r: String)
    ensures
        r@ == spec_trim(s@),
{
    let n = s.unicode_len();
    let mut a: usize = 0;
    while a < n && is_space_char(s.get_char(a))
        invariant
            a <= n,
            n == s@.len(),
            forall|m: int| 0 <= m < a ==> is_space(#[trigger] s@[m]),
        decreases n - a,
    {
        a = a + 1;
    }
    proof {
        lemma_trim_start_skip(s@, a as int);
    }
    let mut b: usize = n;
    while b > a && is_space_char(s.get_char(b - 1))
        invariant
            a <= b <= n,
            n == s@.len(),
            spec_trim_start(s@) == spec_trim_start(s@.subrange(a as int, n as int)),
            a < n ==> !is_space(s@[a as int]),
            forall|m: int| b <= m < n ==> is_space(#[trigger] s@[m]),
        decreases b,
    {
        b = b - 1;
    }
    let piece = s.substring_char(a, b).to_owned();
    proof {
        let mid = s@.subrange(a as int, n as int);
        if a < n && b > a {
            assert(!is_space(mid[0]));
            assert(spec_trim_start(mid) == mid);
            assert(forall|m: int|
                mid.len() - (n - b) <= m < mid.len() ==> is_space(#[trigger] mid[m]));
            lemma_trim_end_skip(mid, n - b);
            assert(mid.subrange(0, mid.len() - (n - b)) =~= s@.subrange(a as int, b as int));
            assert(b > a);
            assert(!is_space(s@[b - 1]));
            assert(s@.subrange(a as int, b as int).last() == s@[b - 1]);
            assert(spec_trim_end(s@.subrange(a as int, b as int)) == s@.subrange(
                a as int,
                b as int,
            ));
        } else {
            assert(a == b);
            assert(mid =~= s@.subrange(a as int, n as int));
            if a < n {
                assert(spec_trim_start(mid) == mid);
                assert(forall|m: int| 0 <= m < mid.len() ==> is_space(#[trigger] mid[m]));
                lemma_trim_end_skip(mid, mid.len() as int);
                assert(mid.subrange(0, 0) =~= s@.subrange(a as int, b as int));
            } else {
                assert(mid.len() == 0);
                assert(mid =~= s@.subrange(a as int, b as int));
            }
        }
    }
    piece
}

/// Whether the name equals one of the listed names.
pub fn contains_name(names: &Vec<String>, name: &String) -> (r: bool)
    ensures
        r == name_in(names@.map_values(|s: String| s@), name@),
{
    let ghost views = names@.map_values(|s: String| s@);
    let mut i: usize = 0;
    while i < names.len()
        invariant
            i <= names.len(),
            views == names@.map_values(|s: String| s@),
            forall|k: int| 0 <= k < i ==> views[k] != name@,
        decreases names.len() - i,
    {
        if names[i] == *name {
            assert(views[i as int] == name@);
            return true;
        }
        i = i + 1;
    }
    false
}

} // verus!
