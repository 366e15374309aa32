//! Text foundations: decimal digit strings, separator splitting and joining,
//! ASCII case folding and trimming. The dotted identifier syntax and every
//! user-facing message in this crate are specified with these functions.
use vstd::prelude::*;

verus! {

/// True for the ten ASCII digit characters.
pub open spec fn is_digit(c: char) -> bool {
    48 <= c as u32 <= 57
}

/// Numeric value of an ASCII digit character.
pub open spec fn digit_val(c: char) -> int {
    c as u32 - 48
}

/// The ASCII digit character for a value in 0..=9.
pub open spec fn digit_char(d: int) -> char {
    (48 + d) as char
}

/// Canonical decimal digit string of a non-negative integer: no sign, no
/// leading zero except for the number zero itself.
pub open spec fn dec_digits(n: int) -> Seq<char>
    decreases n,
{
    if n < 10 {
        seq![digit_char(n)]
    } else {
        dec_digits(n / 10).push(digit_char(n % 10))
    }
}

/// Value of a digit string read as a decimal number.
pub open spec fn dec_val(s: Seq<char>) -> int
    decreases s.len(),
{
    if s.len() == 0 {
        0
    } else {
        dec_val(s.drop_last()) * 10 + digit_val(s.last())
    }
}

/// True when every character of the string is an ASCII digit.
pub open spec fn all_digits(s: Seq<char>) -> bool {
    forall|i: int| 0 <= i < s.len() ==> is_digit(#[trigger] s[i])
}

/// A digit string is canonical when it is non-empty and carries no redundant
/// leading zero.
pub open spec fn canonical_dec(s: Seq<char>) -> bool {
    &&& s.len() > 0
    &&& all_digits(s)
    &&& (s.len() > 1 ==> s[0] != digit_char(0))
}

pub proof fn lemma_digit_char_val(d: int)
    requires
        0 <= d <= 9,
    ensures
        is_digit(digit_char(d)),
        digit_val(digit_char(d)) == d,
{
    assert(digit_char(d) as u32 == 48 + d);
}

/// The canonical digit string of `n` is canonical and evaluates back to `n`.
pub proof fn lemma_dec_digits_val(n: int)
    requires
        n >= 0,
    ensures
        canonical_dec(dec_digits(n)),
        dec_val(dec_digits(n)) == n,
        n >= 1 ==> dec_digits(n)[0] != digit_char(0),
    decreases n,
{
    if n < 10 {
        lemma_digit_char_val(n);
        assert(dec_digits(n) =~= seq![digit_char(n)]);
        assert(dec_val(dec_digits(n)) == dec_val(seq![digit_char(n)].drop_last()) * 10
            + digit_val(digit_char(n)));
        assert(seq![digit_char(n)].drop_last() =~= Seq::<char>::empty());
        if n >= 1 {
            assert(digit_char(n) as u32 == 48 + n);
            assert(digit_char(0) as u32 == 48);
        }
    } else {
        lemma_dec_digits_val(n / 10);
        lemma_digit_char_val(n % 10);
        let prefix = dec_digits(n / 10);
        let whole = prefix.push(digit_char(n % 10));
        assert(whole.drop_last() =~= prefix);
        assert(whole.last() == digit_char(n % 10));
        assert(dec_val(whole) == (n / 10) * 10 + (n % 10));
        assert((n / 10) * 10 + (n % 10) == n) by (nonlinear_arith)
            requires
                n >= 0,
        ;
        assert(whole[0] == prefix[0]);
        assert(n / 10 >= 1);
    }
}

/// Reading one more digit multiplies the value by ten and adds the digit.
pub proof fn lemma_dec_val_push(s: Seq<char>, c: char)
    ensures
        dec_val(s.push(c)) == dec_val(s) * 10 + digit_val(c),
{
    assert(s.push(c).drop_last() =~= s);
    assert(s.push(c).last() == c);
}

/// A digit string evaluates to a non-negative number.
pub proof fn lemma_dec_val_nonneg(s: Seq<char>)
    requires
        all_digits(s),
    ensures
        dec_val(s) >= 0,
    decreases s.len(),
{
    if s.len() > 0 {
        assert(all_digits(s.drop_last())) by {
            assert(forall|i: int| 0 <= i < s.len() - 1 ==> s.drop_last()[i] == s[i]);
        }
        lemma_dec_val_nonneg(s.drop_last());
        assert(is_digit(s.last()));
    }
}

/// Extending a digit string with further digits never decreases its value.
pub proof fn lemma_dec_val_prefix_le(s: Seq<char>, t: Seq<char>)
    requires
        all_digits(t),
        s.len() <= t.len(),
        s =~= t.subrange(0, s.len() as int),
        all_digits(s),
    ensures
        dec_val(s) <= dec_val(t),
    decreases t.len() - s.len(),
{
    if s.len() < t.len() {
        let s2 = t.subrange(0, s.len() as int + 1);
        assert(s2.drop_last() =~= s);
        assert(is_digit(s2.last()));
        lemma_dec_val_nonneg(s);
        assert(dec_val(s2) == dec_val(s) * 10 + digit_val(s2.last()));
        assert(all_digits(s2)) by {
            assert(forall|i: int| 0 <= i < s2.len() ==> s2[i] == t[i]);
        }
        assert(s2 =~= t.subrange(0, s2.len() as int));
        lemma_dec_val_prefix_le(s2, t);
        assert(dec_val(s) <= dec_val(s) * 10) by (nonlinear_arith)
            requires
                dec_val(s) >= 0,
        ;
        assert(digit_val(s2.last()) >= 0);
    } else {
        assert(s =~= t);
    }
}

/// Split a string at every occurrence of the separator. The result always
/// holds one more part than there are separators, so it is never empty.
pub open spec fn split(s: Seq<char>, sep: char) -> Seq<Seq<char>>
    decreases s.len(),
{
    if s.len() == 0 {
        seq![Seq::<char>::empty()]
    } else if s[0] == sep {
        seq![Seq::<char>::empty()] + split(s.drop_first(), sep)
    } else {
        let rest = split(s.drop_first(), sep);
        seq![seq![s[0]] + rest[0]] + rest.drop_first()
    }
}

/// Join parts with a single separator between neighbours.
pub open spec fn join(parts: Seq<Seq<char>>, sep: char) -> Seq<char>
    decreases parts.len(),
{
    if parts.len() == 0 {
        Seq::<char>::empty()
    } else if parts.len() == 1 {
        parts[0]
    } else {
        parts[0] + seq![sep] + join(parts.drop_first(), sep)
    }
}

pub proof fn lemma_split_len(s: Seq<char>, sep: char)
    ensures
        split(s, sep).len() >= 1,
    decreases s.len(),
{
    if s.len() > 0 {
        lemma_split_len(s.drop_first(), sep);
    }
}

/// A string free of the separator splits into itself alone.
pub proof fn lemma_split_no_sep(s: Seq<char>, sep: char)
    requires
        forall|i: int| 0 <= i < s.len() ==> s[i] != sep,
    ensures
        split(s, sep) =~~= seq![s],
    decreases s.len(),
{
    if s.len() > 0 {
        lemma_split_no_sep(s.drop_first(), sep);
        assert(seq![s[0]] + s.drop_first() =~= s);
    }
}

/// Splitting `p ++ sep ++ t` peels off `p` as the first part when `p` itself
/// is free of the separator.
pub proof fn lemma_split_peel(p: Seq<char>, t: Seq<char>, sep: char)
    requires
        forall|i: int| 0 <= i < p.len() ==> p[i] != sep,
    ensures
        split(p + seq![sep] + t, sep) =~~= seq![p] + split(t, sep),
    decreases p.len(),
{
    let s = p + seq![sep] + t;
    lemma_split_len(t, sep);
    if p.len() == 0 {
        assert(s[0] == sep);
        assert(s.drop_first() =~= t);
        assert(p =~= Seq::<char>::empty());
    } else {
        lemma_split_peel(p.drop_first(), t, sep);
        assert(s[0] == p[0]);
        assert(s[0] != sep);
        assert(s.drop_first() =~= p.drop_first() + seq![sep] + t);
        let rest = split(s.drop_first(), sep);
        assert(rest =~~= seq![p.drop_first()] + split(t, sep));
        assert(rest[0] =~= p.drop_first());
        assert(seq![s[0]] + rest[0] =~= p);
        assert(rest.drop_first() =~= split(t, sep));
    }
}

/// Characterizes a split by its first separator: everything before the first
/// separator is the first part, and the rest splits on its own.
pub proof fn lemma_split_first_sep(s: Seq<char>, sep: char, k: int)
    requires
        0 <= k <= s.len(),
        forall|j: int| 0 <= j < k ==> s[j] != sep,
    ensures
        k == s.len() ==> split(s, sep) =~~= seq![s],
        k < s.len() && s[k] == sep ==> split(s, sep) =~~= seq![s.take(k)] + split(
            s.skip(k + 1),
            sep,
        ),
{
    if k == s.len() {
        lemma_split_no_sep(s, sep);
    } else if s[k] == sep {
        assert(s =~= s.take(k) + seq![sep] + s.skip(k + 1));
        assert(forall|j: int| 0 <= j < k ==> s.take(k)[j] == s[j]);
        lemma_split_peel(s.take(k), s.skip(k + 1), sep);
    }
}

/// Joining after appending one more part appends a separator and that part.
pub proof fn lemma_join_push(parts: Seq<Seq<char>>, p: Seq<char>, sep: char)
    requires
        parts.len() >= 1,
    ensures
        join(parts.push(p), sep) =~= join(parts, sep) + seq![sep] + p,
    decreases parts.len(),
{
    let w = parts.push(p);
    assert(w.len() == parts.len() + 1);
    assert(w[0] == parts[0]);
    assert(join(w, sep) == w[0] + seq![sep] + join(w.drop_first(), sep));
    if parts.len() == 1 {
        assert(w.drop_first() =~= seq![p]);
        assert(join(w.drop_first(), sep) == w.drop_first()[0]);
        assert(w.drop_first()[0] == p);
        assert(join(parts, sep) == parts[0]);
        assert(parts[0] + seq![sep] + p =~= (join(parts, sep)) + seq![sep] + p);
    } else {
        lemma_join_push(parts.drop_first(), p, sep);
        assert(w.drop_first() =~= parts.drop_first().push(p));
        assert(join(w.drop_first(), sep) =~= join(parts.drop_first(), sep) + seq![sep] + p);
        assert(join(parts, sep) == parts[0] + seq![sep] + join(parts.drop_first(), sep));
        assert(parts[0] + seq![sep] + (join(parts.drop_first(), sep) + seq![sep] + p) =~= (
        parts[0] + seq![sep] + join(parts.drop_first(), sep)) + seq![sep] + p);
    }
}

/// Split a string at every character the predicate accepts.
pub open spec fn split_pred(s: Seq<char>, sep: spec_fn(char) -> bool) -> Seq<Seq<char>>
    decreases s.len(),
{
    if s.len() == 0 {
        seq![Seq::<char>::empty()]
    } else if sep(s[0]) {
        seq![Seq::<char>::empty()] + split_pred(s.drop_first(), sep)
    } else {
        let rest = split_pred(s.drop_first(), sep);
        seq![seq![s[0]] + rest[0]] + rest.drop_first()
    }
}

pub proof fn lemma_split_pred_len(s: Seq<char>, sep: spec_fn(char) -> bool)
    ensures
        split_pred(s, sep).len() >= 1,
    decreases s.len(),
{
    if s.len() > 0 {
        lemma_split_pred_len(s.drop_first(), sep);
    }
}

proof fn lemma_split_pred_no_sep(s: Seq<char>, sep: spec_fn(char) -> bool)
    requires
        forall|i: int| 0 <= i < s.len() ==> !sep(#[trigger] s[i]),
    ensures
        split_pred(s, sep) =~~= seq![s],
    decreases s.len(),
{
    if s.len() > 0 {
        lemma_split_pred_no_sep(s.drop_first(), sep);
        assert(seq![s[0]] + s.drop_first() =~= s);
    }
}

proof fn lemma_split_pred_peel(p: Seq<char>, t: Seq<char>, c: char, sep: spec_fn(char) -> bool)
    requires
        forall|i: int| 0 <= i < p.len() ==> !sep(#[trigger] p[i]),
        sep(c),
    ensures
        split_pred(p + seq![c] + t, sep) =~~= seq![p] + split_pred(t, sep),
    decreases p.len(),
{
    let s = p + seq![c] + t;
    lemma_split_pred_len(t, sep);
    if p.len() == 0 {
        assert(s[0] == c);
        assert(s.drop_first() =~= t);
        assert(p =~= Seq::<char>::empty());
    } else {
        lemma_split_pred_peel(p.drop_first(), t, c, sep);
        assert(s[0] == p[0]);
        assert(!sep(s[0]));
        assert(s.drop_first() =~= p.drop_first() + seq![c] + t);
        let rest = split_pred(s.drop_first(), sep);
        assert(rest =~~= seq![p.drop_first()] + split_pred(t, sep));
        assert(rest[0] =~= p.drop_first());
        assert(seq![s[0]] + rest[0] =~= p);
        assert(rest.drop_first() =~= split_pred(t, sep));
    }
}

/// Characterizes a predicate split by its first separator.
pub proof fn lemma_split_pred_first(s: Seq<char>, sep: spec_fn(char) -> bool, k: int)
    requires
        0 <= k <= s.len(),
        forall|j: int| 0 <= j < k ==> !sep(#[trigger] s[j]),
    ensures
        k == s.len() ==> split_pred(s, sep) =~~= seq![s],
        k < s.len() && sep(s[k]) ==> split_pred(s, sep) =~~= seq![s.take(k)] + split_pred(
            s.skip(k + 1),
            sep,
        ),
{
    if k == s.len() {
        lemma_split_pred_no_sep(s, sep);
    } else if sep(s[k]) {
        assert(s =~= s.take(k) + seq![s[k]] + s.skip(k + 1));
        assert(forall|j: int| 0 <= j < k ==> s.take(k)[j] == s[j]);
        lemma_split_pred_peel(s.take(k), s.skip(k + 1), s[k], sep);
    }
}

/// Join parts with a separator string between neighbours.
pub open spec fn join_with(parts: Seq<Seq<char>>, sep: Seq<char>) -> Seq<char>
    decreases parts.len(),
{
    if parts.len() == 0 {
        Seq::<char>::empty()
    } else if parts.len() == 1 {
        parts[0]
    } else {
        parts[0] + sep + join_with(parts.drop_first(), sep)
    }
}

/// Joining after appending one more part appends a separator and that part.
pub proof fn lemma_join_with_push(parts: Seq<Seq<char>>, p: Seq<char>, sep: Seq<char>)
    requires
        parts.len() >= 1,
    ensures
        join_with(parts.push(p), sep) =~= join_with(parts, sep) + sep + p,
    decreases parts.len(),
{
    let w = parts.push(p);
    assert(w.len() == parts.len() + 1);
    assert(w[0] == parts[0]);
    assert(join_with(w, sep) == w[0] + sep + join_with(w.drop_first(), sep));
    if parts.len() == 1 {
        assert(w.drop_first() =~= seq![p]);
        assert(join_with(w.drop_first(), sep) == w.drop_first()[0]);
        assert(w.drop_first()[0] == p);
        assert(join_with(parts, sep) == parts[0]);
        assert(parts[0] + sep + p =~= (join_with(parts, sep)) + sep + p);
    } else {
        lemma_join_with_push(parts.drop_first(), p, sep);
        assert(w.drop_first() =~= parts.drop_first().push(p));
        assert(join_with(w.drop_first(), sep) =~= join_with(parts.drop_first(), sep) + sep + p);
        assert(join_with(parts, sep) == parts[0] + sep + join_with(parts.drop_first(), sep));
        assert(parts[0] + sep + (join_with(parts.drop_first(), sep) + sep + p) =~= (parts[0] + sep
            + join_with(parts.drop_first(), sep)) + sep + p);
    }
}

/// Splitting a join recovers the parts, provided no part holds the separator.
pub proof fn lemma_split_join(parts: Seq<Seq<char>>, sep: char)
    requires
        parts.len() >= 1,
        forall|i: int, j: int|
            0 <= i < parts.len() && 0 <= j < parts[i].len() ==> #[trigger] parts[i][j] != sep,
    ensures
        split(join(parts, sep), sep) =~~= parts,
    decreases parts.len(),
{
    if parts.len() == 1 {
        assert(forall|j: int| 0 <= j < parts[0].len() ==> parts[0][j] != sep);
        lemma_split_no_sep(parts[0], sep);
    } else {
        lemma_split_join(parts.drop_first(), sep);
        assert(forall|j: int| 0 <= j < parts[0].len() ==> parts[0][j] != sep);
        lemma_split_peel(parts[0], join(parts.drop_first(), sep), sep);
        assert(seq![parts[0]] + parts.drop_first() =~= parts);
    }
}

/// ASCII lower-casing of a single character; other characters are unchanged.
pub open spec fn lower_char(c: char) -> char {
    if 65 <= c as u32 <= 90 {
        (c as u32 + 32) as char
    } else {
        c
    }
}

/// Equality of two strings up to ASCII case.
pub open spec fn ci_eq_seq(a: Seq<char>, b: Seq<char>) -> bool {
    a.len() == b.len() && forall|i: int|
        0 <= i < a.len() ==> lower_char(#[trigger] a[i]) == lower_char(b[i])
}

/// The needle matches, up to ASCII case, at offset `k` of the string.
pub open spec fn ci_match_at(s: Seq<char>, needle: Seq<char>, k: int) -> bool {
    0 <= k && k + needle.len() <= s.len() && ci_eq_seq(
        s.subrange(k, k + needle.len() as int),
        needle,
    )
}

/// The string holds the needle somewhere, up to ASCII case.
pub open spec fn contains_ci(s: Seq<char>, needle: Seq<char>) -> bool {
    exists|k: int| ci_match_at(s, needle, k)
}

/// The string starts with the prefix, character for character.
pub open spec fn starts_with(s: Seq<char>, prefix: Seq<char>) -> bool {
    prefix.len() <= s.len() && s.subrange(0, prefix.len() as int) == prefix
}

/// ASCII whitespace: space, tab, and the line-break control characters.
pub open spec fn is_space(c: char) -> bool {
    c as u32 == 32 || (9 <= c as u32 <= 13)
}

/// The string without its leading whitespace.
pub open spec fn trim_front(s: Seq<char>) -> Seq<char>
    decreases s.len(),
{
    if s.len() > 0 && is_space(s[0]) {
        trim_front(s.drop_first())
    } else {
        s
    }
}

/// The string without its trailing whitespace.
pub open spec fn trim_back(s: Seq<char>) -> Seq<char>
    decreases s.len(),
{
    if s.len() > 0 && is_space(s.last()) {
        trim_back(s.drop_last())
    } else {
        s
    }
}

/// The string without leading and trailing whitespace.
pub open spec fn trim_spec(s: Seq<char>) -> Seq<char> {
    trim_back(trim_front(s))
}

proof fn lemma_trim_front_skip(s: Seq<char>, k: int)
    requires
        0 <= k <= s.len(),
        forall|j: int| 0 <= j < k ==> is_space(#[trigger] s[j]),
    ensures
        trim_front(s) == trim_front(s.skip(k)),
    decreases k,
{
    if k > 0 {
        assert(is_space(s[0]));
        lemma_trim_front_skip(s.drop_first(), k - 1);
        assert(s.drop_first().skip(k - 1) =~= s.skip(k));
    } else {
        assert(s.skip(0) =~= s);
    }
}

proof fn lemma_trim_back_take(s: Seq<char>, m: int)
    requires
        0 <= m <= s.len(),
        forall|j: int| m <= j < s.len() ==> is_space(#[trigger] s[j]),
    ensures
        trim_back(s) == trim_back(s.take(m)),
    decreases s.len() - m,
{
    if m < s.len() {
        assert(is_space(s.last()));
        lemma_trim_back_take(s.drop_last(), m);
        assert(s.drop_last().take(m) =~= s.take(m));
    } else {
        assert(s.take(m) =~= s);
    }
}

/// Characterizes `trim_spec` by the first and last non-whitespace positions.
pub proof fn lemma_trim_bounds(s: Seq<char>, start: int, end: int)
    requires
        0 <= start <= end <= s.len(),
        forall|j: int| 0 <= j < start ==> is_space(#[trigger] s[j]),
        start < s.len() ==> !is_space(s[start]),
        forall|j: int| end <= j < s.len() ==> is_space(#[trigger] s[j]),
        end > start ==> !is_space(s[end - 1]),
        start == end ==> end == s.len() || start == 0,
        start == s.len() ==> end == s.len(),
    ensures
        trim_spec(s) == s.subrange(start, end),
{
    lemma_trim_front_skip(s, start);
    let t = s.skip(start);
    if t.len() == 0 {
        assert(trim_front(s) == t);
        assert(trim_back(t) == t);
        assert(t =~= s.subrange(start, end));
    } else {
        assert(!is_space(t[0]));
        assert(trim_front(s) == t);
        lemma_trim_back_take(t, end - start);
        let u = t.take(end - start);
        if u.len() == 0 {
            assert(trim_back(u) == u);
        } else {
            assert(u.last() == s[end - 1]);
            assert(!is_space(u.last()));
            assert(trim_back(u) == u);
        }
        assert(u =~= s.subrange(start, end));
    }
}

/// The one-character string for a decimal digit value.
pub fn digit_str(d: u64) -> (r: &'static str)
    requires
        d < 10,
    ensures
        r@ =~= seq![digit_char(d as int)],
{
    proof {
        reveal_strlit("0");
        reveal_strlit("1");
        reveal_strlit("2");
        reveal_strlit("3");
        reveal_strlit("4");
        reveal_strlit("5");
        reveal_strlit("6");
        reveal_strlit("7");
        reveal_strlit("8");
        reveal_strlit("9");
    }
    match d {
        0 => "0",
        1 => "1",
        2 => "2",
        3 => "3",
        4 => "4",
        5 => "5",
        6 => "6",
        7 => "7",
        8 => "8",
        _ => "9",
    }
}

/// Renders a number as its canonical decimal digit string.
pub fn u64_dec(n: u64) -> (r: String)
    ensures
        r@ == dec_digits(n as int),
    decreases n,
{
    if n < 10 {
        let r = digit_str(n).to_owned();
        proof {
            assert(r@ =~= dec_digits(n as int));
        }
        r
    } else {
        let mut r = u64_dec(n / 10);
        r.append(digit_str(n % 10));
        proof {
            assert(r@ =~= dec_digits((n / 10) as int).push(digit_char((n % 10) as int)));
            assert((n / 10) as int == n as int / 10);
            assert((n % 10) as int == n as int % 10);
        }
        r
    }
}

/// Compares two characters up to ASCII case.
pub fn eq_ci(a: char, b: char) -> (r: bool)
    ensures
        r == (lower_char(a) == lower_char(b)),
{
    let au = a as u32;
    let bu = b as u32;
    let al = if 65 <= au && au <= 90 {
        au + 32
    } else {
        au
    };
    let bl = if 65 <= bu && bu <= 90 {
        bu + 32
    } else {
        bu
    };
    proof {
        assert(lower_char(a) as u32 == al);
        assert(lower_char(b) as u32 == bl);
    }
    al == bl
}

/// Compares two strings character for character.
pub fn str_eq(a: &str, b: &str) -> (r: bool)
    ensures
        r == (a@ == b@),
{
    let alen = a.unicode_len();
    let blen = b.unicode_len();
    if alen != blen {
        proof {
            assert(a@ != b@);
        }
        return false;
    }
    let mut i: usize = 0;
    while i < alen
        invariant
            0 <= i <= alen,
            alen == a@.len(),
            alen == b@.len(),
            forall|j: int| 0 <= j < i ==> a@[j] == b@[j],
        decreases alen - i,
    {
        if a.get_char(i) != b.get_char(i) {
            proof {
                assert(a@[i as int] != b@[i as int]);
            }
            return false;
        }
        i += 1;
    }
    proof {
        assert(a@ =~= b@);
    }
    true
}

/// Tests whether the string starts with the prefix, character for character.
pub fn has_prefix(s: &str, prefix: &str) -> (r: bool)
    ensures
        r == starts_with(s@, prefix@),
{
    let slen = s.unicode_len();
    let plen = prefix.unicode_len();
    if plen > slen {
        return false;
    }
    let mut i: usize = 0;
    while i < plen
        invariant
            0 <= i <= plen,
            plen == prefix@.len(),
            plen <= s@.len(),
            slen == s@.len(),
            forall|j: int| 0 <= j < i ==> s@[j] == prefix@[j],
        decreases plen - i,
    {
        if s.get_char(i) != prefix.get_char(i) {
            proof {
                assert(s@.subrange(0, plen as int)[i as int] != prefix@[i as int]);
            }
            return false;
        }
        i += 1;
    }
    proof {
        assert(s@.subrange(0, plen as int) =~= prefix@);
    }
    true
}

/// Tests whether the needle matches at offset `k`, up to ASCII case.
fn ci_matches_at(s: &str, needle: &str, k: usize) -> (r: bool)
    requires
        k + needle@.len() <= s@.len(),
        s@.len() <= usize::MAX,
    ensures
        r == ci_match_at(s@, needle@, k as int),
{
    let nlen = needle.unicode_len();
    let mut i: usize = 0;
    while i < nlen
        invariant
            0 <= i <= nlen,
            nlen == needle@.len(),
            k + nlen <= s@.len(),
            s@.len() <= usize::MAX,
            forall|j: int|
                0 <= j < i ==> lower_char(#[trigger] s@[k + j]) == lower_char(needle@[j]),
        decreases nlen - i,
    {
        if !eq_ci(s.get_char(k + i), needle.get_char(i)) {
            proof {
                let sub = s@.subrange(k as int, k as int + needle@.len() as int);
                assert(sub[i as int] == s@[k + i]);
            }
            return false;
        }
        i += 1;
    }
    proof {
        let sub = s@.subrange(k as int, k as int + needle@.len() as int);
        assert(forall|j: int| 0 <= j < sub.len() ==> #[trigger] sub[j] == s@[k + j]);
        assert(ci_eq_seq(sub, needle@));
    }
    true
}

/// Finds the first offset where the needle matches, up to ASCII case.
pub fn find_ci(s: &str, needle: &str) -> (r: Option<usize>)
    ensures
        match r {
            Some(k) => ci_match_at(s@, needle@, k as int) && forall|k2: int|
                0 <= k2 < k ==> !ci_match_at(s@, needle@, k2),
            None => !contains_ci(s@, needle@),
        },
{
    let slen = s.unicode_len();
    let nlen = needle.unicode_len();
    if nlen > slen {
        proof {
            assert(forall|k: int| !ci_match_at(s@, needle@, k));
        }
        return None;
    }
    let mut k: usize = 0;
    while k <= slen - nlen
        invariant
            0 <= k <= slen - nlen + 1,
            nlen <= slen,
            slen == s@.len(),
            nlen == needle@.len(),
            forall|k2: int| 0 <= k2 < k ==> !ci_match_at(s@, needle@, k2),
        decreases slen + 1 - k,
    {
        if ci_matches_at(s, needle, k) {
            return Some(k);
        }
        k += 1;
    }
    proof {
        assert(forall|k2: int| ci_match_at(s@, needle@, k2) ==> 0 <= k2 <= slen - nlen);
    }
    None
}

/// Tests whether the string holds the needle anywhere, up to ASCII case.
pub fn contains_ci_str(s: &str, needle: &str) -> (r: bool)
    ensures
        r == contains_ci(s@, needle@),
{
    find_ci(s, needle).is_some()
}

/// Tests whether the string starts with the prefix, up to ASCII case.
pub fn has_prefix_ci(s: &str, prefix: &str) -> (r: bool)
    ensures
        r == ci_match_at(s@, prefix@, 0),
{
    let slen = s.unicode_len();
    let plen = prefix.unicode_len();
    if plen > slen {
        return false;
    }
    ci_matches_at(s, prefix, 0)
}

/// Removes leading and trailing ASCII whitespace.
pub fn trim(s: &str) -> (r: &str)
    ensures
        r@ == trim_spec(s@),
{
    let len = s.unicode_len();
    let mut start: usize = 0;
    while start < len && is_space_char(s.get_char(start))
        invariant
            0 <= start <= len,
            len == s@.len(),
            forall|j: int| 0 <= j < start ==> is_space(#[trigger] s@[j]),
        decreases len - start,
    {
        start += 1;
    }
    if start == len {
        let r = s.substring_char(len, len);
        proof {
            lemma_trim_bounds(s@, len as int, len as int);
            assert(r@ =~= s@.subrange(len as int, len as int));
        }
        return r;
    }
    let mut end: usize = len;
    while end > start && is_space_char(s.get_char(end - 1))
        invariant
            start <= end <= len,
            len == s@.len(),
            start < len,
            !is_space(s@[start as int]),
            forall|j: int| end <= j < len ==> is_space(#[trigger] s@[j]),
        decreases end,
    {
        end -= 1;
    }
    let r = s.substring_char(start, end);
    proof {
        assert(end > start);
        lemma_trim_bounds(s@, start as int, end as int);
    }
    r
}

/// ASCII whitespace test on a single character.
pub fn is_space_char(c: char) -> (r: bool)
    ensures
        r == is_space(c),
{
    let u = c as u32;
    u == 32 || (9 <= u && u <= 13)
}

} // verus!
