//! Small verified text utilities: whitespace tokenization, splitting on a
//! separator, decimal numbers, and lexicographic comparison.

use vstd::prelude::*;

verus! {

/// The whitespace characters recognized when a line is split into columns
/// (the ASCII whitespace set).
pub open spec fn is_ws(c: char) -> bool {
    c == ' ' || c == '\t' || c == '\n' || c == '\r' || c == '\u{b}' || c == '\u{c}'
}

/// Length of the leading run of non-whitespace characters.
pub open spec fn token_len(s: Seq<char>) -> nat
    decreases s.len(),
{
    if s.len() == 0 || is_ws(s[0]) {
        0
    } else {
        1 + token_len(s.drop_first())
    }
}

pub proof fn lemma_token_len(s: Seq<char>)
    ensures
        token_len(s) <= s.len(),
        forall|j: int| 0 <= j < token_len(s) ==> !is_ws(#[trigger] s[j]),
        token_len(s) < s.len() ==> is_ws(s[token_len(s) as int]),
    decreases s.len(),
{
    if s.len() == 0 || is_ws(s[0]) {
    } else {
        lemma_token_len(s.drop_first());
        assert forall|j: int| 0 <= j < token_len(s) implies !is_ws(#[trigger] s[j]) by {
            if j > 0 {
                assert(s.drop_first()[j - 1] == s[j]);
            }
        }
        if token_len(s) < s.len() {
            assert(s.drop_first()[token_len(s) as int - 1] == s[token_len(s) as int]);
        }
    }
}

/// The columns of a line: maximal runs of non-whitespace characters.
pub open spec fn ws_split(s: Seq<char>) -> Seq<Seq<char>>
    decreases s.len(),
    via ws_split_decreases
{
    if s.len() == 0 {
        Seq::empty()
    } else if is_ws(s[0]) {
        ws_split(s.drop_first())
    } else {
        seq![s.take(token_len(s) as int)] + ws_split(s.skip(token_len(s) as int))
    }
}

#[via_fn]
proof fn ws_split_decreases(s: Seq<char>) {
    lemma_token_len(s);
}

/// Whether `c` is in the recognized whitespace set.
pub fn is_ws_exec(c: char) -> (r: bool)
    ensures
        r == is_ws(c),
{
    c == ' ' || c == '\t' || c == '\n' || c == '\r' || c == '\u{b}' || c == '\u{c}'
}

/// Splits a string into whitespace-separated columns.
pub fn split_ws(s: &str) -> (r: Vec<String>)
    ensures
        r.deep_view() == ws_split(s@),
    decreases s@.len(),
{
    let n = s.unicode_len();
    if n == 0 {
        let r: Vec<String> = Vec::new();
        proof {
            assert(r.deep_view() =~~= ws_split(s@));
        }
        return r;
    }
    if is_ws_exec(s.get_char(0)) {
        let tail = s.substring_char(1, n);
        let rest = split_ws(tail);
        proof {
            assert(tail@ =~= s@.drop_first());
        }
        return rest;
    }
    let mut i: usize = 1;
    while i < n && !is_ws_exec(s.get_char(i))
        invariant
            1 <= i <= n,
            n == s@.len(),
            forall|j: int| 0 <= j < i ==> !is_ws(#[trigger] s@[j]),
        decreases n - i,
    {
        i = i + 1;
    }
    proof {
        lemma_token_len(s@);
        assert(token_len(s@) == i as int) by {
            let tl = token_len(s@) as int;
            if tl < i as int {
                assert(is_ws(s@[tl]));
            } else if tl > i as int {
                assert(!is_ws(s@[i as int]));
            }
        }
    }
    let tok = s.substring_char(0, i);
    let tail = s.substring_char(i, n);
    let mut rest = split_ws(tail);
    rest.insert(0, String::from_str(tok));
    proof {
        assert(tok@ =~= s@.take(i as int));
        assert(tail@ =~= s@.skip(i as int));
        assert(rest.deep_view() =~~= ws_split(s@));
    }
    rest
}

/// Three-way lexicographic comparison of character sequences: -1, 0 or 1.
pub open spec fn chars_cmp(a: Seq<char>, b: Seq<char>) -> int
    decreases a.len(),
{
    if a.len() == 0 && b.len() == 0 {
        0
    } else if a.len() == 0 {
        -1
    } else if b.len() == 0 {
        1
    } else if (a[0] as int) < (b[0] as int) {
        -1
    } else if (a[0] as int) > (b[0] as int) {
        1
    } else {
        chars_cmp(a.drop_first(), b.drop_first())
    }
}

pub proof fn lemma_chars_cmp_props(a: Seq<char>, b: Seq<char>)
    ensures
        -1 <= chars_cmp(a, b) <= 1,
        chars_cmp(a, b) == -chars_cmp(b, a),
        chars_cmp(a, b) == 0 ==> a == b,
    decreases a.len() + b.len(),
{
    if a.len() > 0 && b.len() > 0 && a[0] == b[0] {
        lemma_chars_cmp_props(a.drop_first(), b.drop_first());
        if chars_cmp(a, b) == 0 {
            assert(a =~= seq![a[0]] + a.drop_first());
            assert(b =~= seq![b[0]] + b.drop_first());
        }
    } else if a.len() > 0 && b.len() > 0 {
        assert((a[0] as int) != (b[0] as int)) by {
            if a[0] == b[0] {
            }
        }
    }
}

pub proof fn lemma_chars_cmp_trans(a: Seq<char>, b: Seq<char>, c: Seq<char>)
    requires
        chars_cmp(a, b) <= 0,
        chars_cmp(b, c) <= 0,
    ensures
        chars_cmp(a, c) <= 0,
    decreases a.len(),
{
    if a.len() == 0 {
    } else {
        // a is non-empty, so b and c are non-empty too
        if a[0] == b[0] && b[0] == c[0] {
            lemma_chars_cmp_trans(a.drop_first(), b.drop_first(), c.drop_first());
        }
    }
}

/// Three-way lexicographic comparison of segment sequences, segments
/// compared by `chars_cmp`.
pub open spec fn segs_cmp(a: Seq<Seq<char>>, b: Seq<Seq<char>>) -> int
    decreases a.len(),
{
    if a.len() == 0 && b.len() == 0 {
        0
    } else if a.len() == 0 {
        -1
    } else if b.len() == 0 {
        1
    } else {
        let c = chars_cmp(a[0], b[0]);
        if c != 0 {
            c
        } else {
            segs_cmp(a.drop_first(), b.drop_first())
        }
    }
}

pub proof fn lemma_segs_cmp_props(a: Seq<Seq<char>>, b: Seq<Seq<char>>)
    ensures
        -1 <= segs_cmp(a, b) <= 1,
        segs_cmp(a, b) == -segs_cmp(b, a),
        segs_cmp(a, b) == 0 ==> a == b,
    decreases a.len() + b.len(),
{
    if a.len() > 0 && b.len() > 0 {
        lemma_chars_cmp_props(a[0], b[0]);
        if chars_cmp(a[0], b[0]) == 0 {
            lemma_segs_cmp_props(a.drop_first(), b.drop_first());
            if segs_cmp(a, b) == 0 {
                assert(a =~= seq![a[0]] + a.drop_first());
                assert(b =~= seq![b[0]] + b.drop_first());
            }
        }
    }
}

pub proof fn lemma_segs_cmp_trans(a: Seq<Seq<char>>, b: Seq<Seq<char>>, c: Seq<Seq<char>>)
    requires
        segs_cmp(a, b) <= 0,
        segs_cmp(b, c) <= 0,
    ensures
        segs_cmp(a, c) <= 0,
    decreases a.len(),
{
    if a.len() == 0 {
    } else {
        lemma_chars_cmp_props(a[0], b[0]);
        lemma_chars_cmp_props(b[0], c[0]);
        lemma_chars_cmp_props(a[0], c[0]);
        if chars_cmp(a[0], b[0]) == 0 && chars_cmp(b[0], c[0]) == 0 {
            lemma_segs_cmp_trans(a.drop_first(), b.drop_first(), c.drop_first());
        } else {
            lemma_chars_cmp_trans(a[0], b[0], c[0]);
        }
    }
}

/// Three-way comparison of strings by character.
pub fn str_cmp(a: &str, b: &str) -> (r: i32)
    ensures
        r as int == chars_cmp(a@, b@),
{
    let na = a.unicode_len();
    let nb = b.unicode_len();
    let mut i: usize = 0;
    proof {
        assert(a@.skip(0) =~= a@);
        assert(b@.skip(0) =~= b@);
    }
    loop
        invariant
            0 <= i <= na,
            i <= nb,
            na == a@.len(),
            nb == b@.len(),
            chars_cmp(a@, b@) == chars_cmp(a@.skip(i as int), b@.skip(i as int)),
        decreases na - i,
    {
        if i == na && i == nb {
            return 0;
        }
        if i == na {
            return -1;
        }
        if i == nb {
            return 1;
        }
        let ca = a.get_char(i) as u32;
        let cb = b.get_char(i) as u32;
        if ca < cb {
            return -1;
        }
        if ca > cb {
            return 1;
        }
        proof {
            assert(a@.skip(i as int).drop_first() =~= a@.skip(i + 1));
            assert(b@.skip(i as int).drop_first() =~= b@.skip(i + 1));
        }
        i = i + 1;
    }
}

/// Three-way comparison of segment lists (relative paths) by segment.
pub fn segs_cmp_exec(a: &Vec<String>, b: &Vec<String>) -> (r: i32)
    ensures
        r as int == segs_cmp(a.deep_view(), b.deep_view()),
{
    let na = a.len();
    let nb = b.len();
    let mut i: usize = 0;
    proof {
        assert(a.deep_view().skip(0) =~= a.deep_view());
        assert(b.deep_view().skip(0) =~= b.deep_view());
    }
    loop
        invariant
            0 <= i <= na,
            i <= nb,
            na == a@.len(),
            nb == b@.len(),
            a.deep_view().len() == na,
            b.deep_view().len() == nb,
            segs_cmp(a.deep_view(), b.deep_view()) == segs_cmp(
                a.deep_view().skip(i as int),
                b.deep_view().skip(i as int),
            ),
        decreases na - i,
    {
        if i == na && i == nb {
            return 0;
        }
        if i == na {
            return -1;
        }
        if i == nb {
            return 1;
        }
        let c = str_cmp(a[i].as_str(), b[i].as_str());
        proof {
            assert(a.deep_view().skip(i as int)[0] == a.deep_view()[i as int]);
            assert(b.deep_view().skip(i as int)[0] == b.deep_view()[i as int]);
        }
        if c != 0 {
            return c;
        }
        proof {
            assert(a.deep_view().skip(i as int).drop_first() =~= a.deep_view().skip(i + 1));
            assert(b.deep_view().skip(i as int).drop_first() =~= b.deep_view().skip(i + 1));
        }
        i = i + 1;
    }
}

/// Index of the first occurrence of `c` in `s`, or -1 if it does not occur.
pub open spec fn first_index(s: Seq<char>, c: char) -> int
    decreases s.len(),
{
    if s.len() == 0 {
        -1
    } else if s[0] == c {
        0
    } else {
        let r = first_index(s.drop_first(), c);
        if r < 0 {
            -1
        } else {
            r + 1
        }
    }
}

pub proof fn lemma_first_index(s: Seq<char>, c: char)
    ensures
        first_index(s, c) == -1 ==> forall|j: int| 0 <= j < s.len() ==> #[trigger] s[j] != c,
        first_index(s, c) >= 0 ==> {
            &&& first_index(s, c) < s.len()
            &&& s[first_index(s, c)] == c
            &&& forall|j: int| 0 <= j < first_index(s, c) ==> #[trigger] s[j] != c
        },
    decreases s.len(),
{
    if s.len() == 0 {
    } else if s[0] == c {
    } else {
        lemma_first_index(s.drop_first(), c);
        let r = first_index(s.drop_first(), c);
        if r < 0 {
            assert forall|j: int| 0 <= j < s.len() implies #[trigger] s[j] != c by {
                if j > 0 {
                    assert(s.drop_first()[j - 1] == s[j]);
                }
            }
        } else {
            assert(s.drop_first()[r] == s[r + 1]);
            assert forall|j: int| 0 <= j < r + 1 implies #[trigger] s[j] != c by {
                if j > 0 {
                    assert(s.drop_first()[j - 1] == s[j]);
                }
            }
        }
    }
}

/// The pieces of `s` between occurrences of the separator `c`.  Splitting
/// never yields an empty sequence: a string without the separator is a
/// single piece.
pub open spec fn split_on(s: Seq<char>, c: char) -> Seq<Seq<char>>
    decreases s.len(),
    via split_on_decreases
{
    let i = first_index(s, c);
    if i < 0 {
        seq![s]
    } else {
        seq![s.take(i)] + split_on(s.skip(i + 1), c)
    }
}

#[via_fn]
proof fn split_on_decreases(s: Seq<char>, c: char) {
    lemma_first_index(s, c);
}

/// A string without the separator splits into itself alone.
pub proof fn lemma_split_on_whole(s: Seq<char>, c: char)
    requires
        forall|j: int| 0 <= j < s.len() ==> #[trigger] s[j] != c,
    ensures
        split_on(s, c) == seq![s],
{
    lemma_first_index(s, c);
    if first_index(s, c) >= 0 {
        assert(s[first_index(s, c)] == c);
    }
}

/// Splitting takes a separator-free piece off the front.
pub proof fn lemma_split_on_prepend(a: Seq<char>, b: Seq<char>, c: char)
    requires
        forall|j: int| 0 <= j < a.len() ==> #[trigger] a[j] != c,
    ensures
        split_on(a + seq![c] + b, c) == seq![a] + split_on(b, c),
{
    let s = a + seq![c] + b;
    lemma_first_index(s, c);
    assert(s[a.len() as int] == c);
    assert(first_index(s, c) == a.len()) by {
        let fi = first_index(s, c);
        if fi < 0 {
            assert(s[a.len() as int] != c);
        } else if fi < a.len() {
            assert(s[fi] == a[fi]);
        } else if fi > a.len() {
            assert(s[a.len() as int] != c);
        }
    }
    assert(s.take(a.len() as int) =~= a);
    assert(s.skip(a.len() as int + 1) =~= b);
}

/// Splits a string on a separator character, as the splitting of its view.
pub fn split_sep(s: &str, sep: char) -> (r: Vec<String>)
    ensures
        r.deep_view() == split_on(s@, sep),
    decreases s@.len(),
{
    let n = s.unicode_len();
    let mut i: usize = 0;
    while i < n && s.get_char(i) != sep
        invariant
            0 <= i <= n,
            n == s@.len(),
            forall|j: int| 0 <= j < i ==> #[trigger] s@[j] != sep,
        decreases n - i,
    {
        i = i + 1;
    }
    proof {
        lemma_first_index(s@, sep);
    }
    if i == n {
        // no separator: one piece
        let r = vec![String::from_str(s)];
        proof {
            assert(first_index(s@, sep) == -1) by {
                if first_index(s@, sep) >= 0 {
                    assert(s@[first_index(s@, sep)] == sep);
                }
            }
            assert(r.deep_view() =~~= split_on(s@, sep));
        }
        r
    } else {
        proof {
            assert(first_index(s@, sep) == i as int) by {
                let f = first_index(s@, sep);
                if f < 0 {
                    assert(s@[i as int] != sep);
                } else if f < i as int {
                    assert(s@[f] == sep);
                } else if f > i as int {
                    assert(s@[i as int] != sep);
                }
            }
        }
        let head = s.substring_char(0, i);
        let tail = s.substring_char(i + 1, n);
        let mut rest = split_sep(tail, sep);
        rest.insert(0, String::from_str(head));
        proof {
            assert(tail@ =~= s@.skip(i + 1));
            assert(head@ =~= s@.take(i as int));
            assert(rest.deep_view() =~~= split_on(s@, sep));
        }
        rest
    }
}

/// Decimal digit characters.
pub open spec fn is_digit(c: char) -> bool {
    48 <= c as int <= 57
}

pub open spec fn digit_val(c: char) -> int {
    c as int - 48
}

pub open spec fn all_digits(s: Seq<char>) -> bool {
    forall|i: int| 0 <= i < s.len() ==> is_digit(#[trigger] s[i])
}

/// The value of a digit string read as a decimal number.
pub open spec fn str_val(s: Seq<char>) -> int
    decreases s.len(),
{
    if s.len() == 0 {
        0
    } else {
        str_val(s.drop_last()) * 10 + digit_val(s.last())
    }
}

pub proof fn lemma_str_val_nonneg(s: Seq<char>)
    requires
        all_digits(s),
    ensures
        str_val(s) >= 0,
    decreases s.len(),
{
    if s.len() > 0 {
        assert(all_digits(s.drop_last()));
        lemma_str_val_nonneg(s.drop_last());
    }
}

/// A digit string is worth at least any of its prefixes.
pub proof fn lemma_str_val_prefix_ge(s: Seq<char>, k: int)
    requires
        all_digits(s),
        0 <= k <= s.len(),
    ensures
        str_val(s) >= str_val(s.take(k)),
    decreases s.len() - k,
{
    if k < s.len() {
        assert(all_digits(s.drop_last()));
        assert(s.drop_last().take(k) =~= s.take(k));
        lemma_str_val_prefix_ge(s.drop_last(), k);
        lemma_str_val_nonneg(s.drop_last());
    } else {
        assert(s.take(k) =~= s);
    }
}

/// Parses a decimal unsigned integer: succeeds exactly on non-empty
/// all-digit strings whose value fits in `usize`.
pub fn parse_usize(s: &str) -> (r: Option<usize>)
    ensures
        (r is Some) == (s@.len() > 0 && all_digits(s@) && str_val(s@) <= usize::MAX as int),
        r matches Some(v) ==> v as int == str_val(s@),
{
    let n = s.unicode_len();
    if n == 0 {
        return None;
    }
    let mut i: usize = 0;
    let mut acc: usize = 0;
    while i < n
        invariant
            0 <= i <= n,
            n == s@.len(),
            all_digits(s@.take(i as int)),
            acc as int == str_val(s@.take(i as int)),
        decreases n - i,
    {
        let c = s.get_char(i);
        let u = c as u32;
        if u < 48 || u > 57 {
            proof {
                assert(!is_digit(s@[i as int]));
            }
            return None;
        }
        let d = (u - 48) as usize;
        proof {
            assert(s@.take(i + 1).drop_last() =~= s@.take(i as int));
            assert(s@.take(i + 1).last() == s@[i as int]);
        }
        let next = match acc.checked_mul(10) {
            Some(m) => m.checked_add(d),
            None => None,
        };
        match next {
            Some(v) => {
                acc = v;
            }
            None => {
                proof {
                    if all_digits(s@) {
                        lemma_str_val_prefix_ge(s@, i + 1);
                    }
                }
                return None;
            }
        }
        i = i + 1;
    }
    proof {
        assert(s@.take(n as int) =~= s@);
    }
    Some(acc)
}

/// The character for one decimal digit.
pub open spec fn digit_char(d: int) -> char {
    if d == 0 {
        '0'
    } else if d == 1 {
        '1'
    } else if d == 2 {
        '2'
    } else if d == 3 {
        '3'
    } else if d == 4 {
        '4'
    } else if d == 5 {
        '5'
    } else if d == 6 {
        '6'
    } else if d == 7 {
        '7'
    } else if d == 8 {
        '8'
    } else {
        '9'
    }
}

/// The decimal representation of a non-negative number, most significant
/// digit first.
pub open spec fn dec_rep(n: int) -> Seq<char>
    decreases n,
{
    if n < 10 {
        seq![digit_char(n)]
    } else {
        dec_rep(n / 10).push(digit_char(n % 10))
    }
}

pub proof fn lemma_digit_char_val(d: int)
    requires
        0 <= d <= 9,
    ensures
        is_digit(digit_char(d)),
        digit_val(digit_char(d)) == d,
{
    assert('0' as int == 48 && '1' as int == 49 && '2' as int == 50 && '3' as int == 51
        && '4' as int == 52 && '5' as int == 53 && '6' as int == 54 && '7' as int == 55
        && '8' as int == 56 && '9' as int == 57);
}

pub proof fn lemma_dec_rep_val(n: int)
    requires
        n >= 0,
    ensures
        all_digits(dec_rep(n)),
        str_val(dec_rep(n)) == n,
        dec_rep(n).len() > 0,
    decreases n,
{
    if n < 10 {
        lemma_digit_char_val(n);
        assert(dec_rep(n) =~= seq![digit_char(n)]);
        assert(dec_rep(n).drop_last() =~= Seq::<char>::empty());
        assert(str_val(Seq::<char>::empty()) == 0);
        assert(dec_rep(n).last() == digit_char(n));
    } else {
        lemma_dec_rep_val(n / 10);
        lemma_digit_char_val(n % 10);
        assert(dec_rep(n).drop_last() =~= dec_rep(n / 10));
        assert(dec_rep(n).last() == digit_char(n % 10));
        assert(n == (n / 10) * 10 + n % 10) by (nonlinear_arith)
            requires n >= 10;
        assert(str_val(dec_rep(n)) == str_val(dec_rep(n / 10)) * 10 + digit_val(
            digit_char(n % 10),
        ));
    }
}

/// Relies on `String::push`: appends the character to the string.
pub assume_specification[ String::push ](s: &mut String, c: char)
    ensures
        final(s)@ == old(s)@.push(c),
;

fn digit_char_exec(d: usize) -> (c: char)
    requires
        d < 10,
    ensures
        c == digit_char(d as int),
{
    match d {
        0 => '0',
        1 => '1',
        2 => '2',
        3 => '3',
        4 => '4',
        5 => '5',
        6 => '6',
        7 => '7',
        8 => '8',
        _ => '9',
    }
}

fn push_dec(n: usize, out: &mut String)
    ensures
        final(out)@ == old(out)@ + dec_rep(n as int),
    decreases n,
{
    if n >= 10 {
        push_dec(n / 10, out);
    }
    out.push(digit_char_exec(n % 10));
    proof {
        if n < 10 {
            assert(old(out)@ + dec_rep(n as int) =~= old(out)@.push(digit_char(n as int)));
        } else {
            assert(old(out)@ + dec_rep(n as int) =~= (old(out)@ + dec_rep(n as int / 10)).push(
                digit_char(n as int % 10),
            ));
        }
    }
}

/// Writes a number in decimal.
pub fn usize_to_string(n: usize) -> (r: String)
    ensures
        r@ == dec_rep(n as int),
{
    let mut s = String::new();
    push_dec(n, &mut s);
    proof {
        assert(s@ =~= dec_rep(n as int));
    }
    s
}

/// Copies a vector of strings.
pub fn clone_strings(v: &Vec<String>) -> (r: Vec<String>)
    ensures
        r.deep_view() == v.deep_view(),
{
    let mut out: Vec<String> = Vec::new();
    let n = v.len();
    let mut i: usize = 0;
    while i < n
        invariant
            0 <= i <= n,
            n == v@.len(),
            out@.len() == i,
            out.deep_view() =~~= v.deep_view().take(i as int),
        decreases n - i,
    {
        let s = String::from_str(v[i].as_str());
        proof {
            assert(s.deep_view() == v.deep_view()[i as int]);
        }
        out.push(s);
        proof {
            assert forall|j: int| 0 <= j < i + 1 implies out.deep_view()[j] == v.deep_view().take(
                i + 1,
            )[j] by {
                if j < i {
                    assert(out.deep_view()[j] == out@[j].deep_view());
                }
            }
            assert(out.deep_view() =~= v.deep_view().take(i + 1));
        }
        i = i + 1;
    }
    proof {
        assert(v.deep_view().take(n as int) =~= v.deep_view());
    }
    out
}

} // verus!
