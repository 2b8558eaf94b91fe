//! Numeric literals, kept as exact decimal text in canonical form.

use vstd::prelude::*;
use crate::text::{is_digit, spec_is_digit, to_chars, to_text};

verus! {

/// A well-formed numeric literal: it opens with a digit, holds only digits and decimal points,
/// and has at most one decimal point.
pub open spec fn is_literal(s: Seq<char>) -> bool {
    &&& s.len() > 0
    &&& spec_is_digit(s[0])
    &&& forall|i: int| 0 <= i < s.len() ==> spec_is_digit(#[trigger] s[i]) || s[i] == '.'
    &&& forall|i: int, j: int|
        0 <= i < j < s.len() ==> !(#[trigger] s[i] == '.' && #[trigger] s[j] == '.')
}

/// The index of the first decimal point at or after `from`, or the length where there is none.
pub open spec fn point_index(s: Seq<char>, from: int) -> int
    decreases s.len() - from,
{
    if from < 0 || from >= s.len() {
        s.len() as int
    } else if s[from] == '.' {
        from
    } else {
        point_index(s, from + 1)
    }
}

/// Drops leading zeros, keeping the last character in any case.
pub open spec fn trim_leading_zeros(s: Seq<char>) -> Seq<char>
    decreases s.len(),
{
    if s.len() > 1 && s[0] == '0' {
        trim_leading_zeros(s.skip(1))
    } else {
        s
    }
}

/// Drops trailing zeros.
pub open spec fn trim_trailing_zeros(s: Seq<char>) -> Seq<char>
    decreases s.len(),
{
    if s.len() > 0 && s.last() == '0' {
        trim_trailing_zeros(s.drop_last())
    } else {
        s
    }
}

/// The digits before the decimal point, without leading zeros.
pub open spec fn whole_part(s: Seq<char>) -> Seq<char> {
    trim_leading_zeros(s.take(point_index(s, 0)))
}

/// The digits after the decimal point, without trailing zeros.
pub open spec fn fraction_part(s: Seq<char>) -> Seq<char> {
    let p = point_index(s, 0);
    if p < s.len() {
        trim_trailing_zeros(s.skip(p + 1))
    } else {
        Seq::empty()
    }
}

/// The canonical text of a literal: the whole part, then a point and the fraction where the
/// fraction is not zero. Two literals that denote the same number have the same canonical text.
pub open spec fn canonical(s: Seq<char>) -> Seq<char> {
    if fraction_part(s).len() > 0 {
        whole_part(s).push('.') + fraction_part(s)
    } else {
        whole_part(s)
    }
}

/// The text of the number zero.
pub open spec fn zero_text() -> Seq<char> {
    seq!['0']
}

/// What a run of digits and points stands for: its canonical text where it is a literal,
/// and zero where it is malformed.
pub open spec fn run_value(s: Seq<char>) -> Seq<char> {
    if is_literal(s) {
        canonical(s)
    } else {
        zero_text()
    }
}

/// A non-negative decimal number, held exactly as the canonical text of a literal.
#[derive(Debug, PartialEq, Eq)]
pub struct Number {
    text: String,
}

/// Whether a text is the canonical text of a literal.
pub open spec fn is_canonical(s: Seq<char>) -> bool {
    is_literal(s) && canonical(s) == s
}

impl View for Number {
    type V = Seq<char>;

    /// The canonical decimal text of the number.
    closed spec fn view(&self) -> Seq<char> {
        self.text@
    }
}

impl Clone for Number {
    fn clone(&self) -> (r: Self)
        ensures
            r@ == self@,
    {
        proof {
            use_type_invariant(self);
        }
        Number { text: self.text.clone() }
    }
}

/// The first decimal point is where no earlier character is one.
proof fn lemma_point_index_is(s: Seq<char>, from: int, p: int)
    requires
        0 <= from <= p <= s.len(),
        forall|k: int| from <= k < p ==> s[k] != '.',
        p < s.len() ==> s[p] == '.',
    ensures
        point_index(s, from) == p,
    decreases p - from,
{
    if from < p {
        lemma_point_index_is(s, from + 1, p);
    }
}

/// Trimming leading zeros leaves the text from the first character that is kept.
proof fn lemma_trim_leading(s: Seq<char>, k: int)
    requires
        0 <= k < s.len(),
        forall|j: int| 0 <= j < k ==> s[j] == '0',
        k == s.len() - 1 || s[k] != '0',
    ensures
        trim_leading_zeros(s) == s.skip(k),
    decreases k,
{
    if k == 0 {
        assert(s.skip(0) =~= s);
    } else {
        lemma_trim_leading(s.skip(1), k - 1);
        assert(s.skip(1).skip(k - 1) =~= s.skip(k));
    }
}

/// Trimming trailing zeros leaves the text up to the last character that is kept.
proof fn lemma_trim_trailing(s: Seq<char>, k: int)
    requires
        0 <= k <= s.len(),
        forall|j: int| k <= j < s.len() ==> s[j] == '0',
        k == 0 || s[k - 1] != '0',
    ensures
        trim_trailing_zeros(s) == s.take(k),
    decreases s.len() - k,
{
    if k == s.len() {
        assert(s.take(k) =~= s);
    } else {
        lemma_trim_trailing(s.drop_last(), k);
        assert(s.drop_last().take(k) =~= s.take(k));
    }
}

impl Number {
    /// Every number holds the canonical text of a literal.
    #[verifier::type_invariant]
    closed spec fn well_formed(&self) -> bool {
        is_canonical(self.text@)
    }

    /// The number zero.
    pub fn zero() -> (n: Number)
        ensures
            n@ == zero_text(),
    {
        let mut text = String::new();
        text.push('0');
        proof {
            lemma_zero_is_canonical();
        }
        Number { text }
    }

    /// Reads a literal. Text that is no literal gives `None`.
    pub fn parse(text: &str) -> (r: Option<Number>)
        ensures
            match r {
                Some(n) => is_literal(text@) && n@ == canonical(text@),
                None => !is_literal(text@),
            },
    {
        let chars = to_chars(text);
        let n = chars.len();
        if n == 0 || !is_digit(chars[0]) {
            return None;
        }
        // Find the decimal point, checking every character on the way.
        let mut point: usize = n;
        let mut i: usize = 0;
        while i < n
            invariant
                n == chars.len(),
                chars@ == text@,
                i <= n,
                point == n || point < i,
                point < n ==> chars@[point as int] == '.',
                forall|k: int| 0 <= k < i && k != point ==> chars@[k] != '.',
                forall|k: int|
                    0 <= k < i ==> spec_is_digit(#[trigger] chars@[k]) || chars@[k] == '.',
            decreases n - i,
        {
            let c = chars[i];
            if c == '.' {
                if point < n {
                    assert(text@[point as int] == '.' && text@[i as int] == '.');
                    return None;
                }
                point = i;
            } else if !is_digit(c) {
                assert(!(spec_is_digit(text@[i as int]) || text@[i as int] == '.'));
                return None;
            }
            i += 1;
        }
        assert(is_literal(text@));
        // Skip the zeros that lead the whole part and those that trail the fraction.
        let mut first: usize = 0;
        while first + 1 < point && chars[first] == '0'
            invariant
                first < point <= n == chars.len(),
                forall|j: int| 0 <= j < first ==> chars@[j] == '0',
            decreases point - first,
        {
            first += 1;
        }
        let mut last: usize = n;
        if point < n {
            while last > point + 1 && chars[last - 1] == '0'
                invariant
                    point < last <= n == chars.len(),
                    forall|j: int| last <= j < n ==> chars@[j] == '0',
                decreases last,
            {
                last -= 1;
            }
        }
        let mut out = to_text(&chars, first, point);
        if point < n && last > point + 1 {
            out.push('.');
            let fraction = to_text(&chars, point + 1, last);
            out.append(fraction.as_str());
        }
        proof {
            let s = text@;
            lemma_point_index_is(s, 0, point as int);
            let whole = s.take(point as int);
            lemma_trim_leading(whole, first as int);
            assert(whole.skip(first as int) =~= s.subrange(first as int, point as int));
            if point < n {
                let rest = s.skip(point + 1);
                lemma_trim_trailing(rest, last - point - 1);
                assert(rest.take(last - point - 1) =~= s.subrange(point + 1, last as int));
            }
        }
        proof {
            lemma_canonical_is_canonical(text@);
        }
        Some(Number { text: out })
    }

    /// The canonical decimal text.
    pub fn as_str(&self) -> (s: &str)
        ensures
            s@ == self@,
            is_canonical(self@),
    {
        proof {
            use_type_invariant(self);
        }
        self.text.as_str()
    }
}

/// Ten to the power `n`.
pub open spec fn pow10(n: nat) -> nat
    decreases n,
{
    if n == 0 {
        1
    } else {
        10 * pow10((n - 1) as nat)
    }
}

/// The digit that a character stands for.
pub open spec fn digit_value(c: char) -> nat {
    (c as int - '0' as int) as nat
}

/// The natural number that a run of digits denotes.
pub open spec fn digits_value(s: Seq<char>) -> nat
    decreases s.len(),
{
    if s.len() == 0 {
        0
    } else {
        digits_value(s.drop_last()) * 10 + digit_value(s.last())
    }
}

/// The digits of a literal before its decimal point.
pub open spec fn whole_digits(s: Seq<char>) -> Seq<char> {
    s.take(point_index(s, 0))
}

/// The digits of a literal after its decimal point.
pub open spec fn fraction_digits(s: Seq<char>) -> Seq<char> {
    let p = point_index(s, 0);
    if p < s.len() {
        s.skip(p + 1)
    } else {
        Seq::empty()
    }
}

/// The number that a literal denotes, times ten to the power `k`. It is a natural number for
/// every `k` that is at least the number of digits after the decimal point.
pub open spec fn scaled_value(s: Seq<char>, k: nat) -> nat {
    digits_value(whole_digits(s)) * pow10(k) + digits_value(fraction_digits(s)) * pow10(
        (k - fraction_digits(s).len()) as nat,
    )
}

/// Trimming leaves a piece of the text: some zeros go at the front, and the rest stays.
proof fn lemma_trim_leading_shape(s: Seq<char>)
    requires
        s.len() > 0,
    ensures
        trim_leading_zeros(s).len() > 0,
        trim_leading_zeros(s).len() <= s.len(),
        trim_leading_zeros(s) == s.skip(s.len() - trim_leading_zeros(s).len()),
        trim_leading_zeros(s).len() == 1 || trim_leading_zeros(s)[0] != '0',
        digits_value(trim_leading_zeros(s)) == digits_value(s),
    decreases s.len(),
{
    if s.len() > 1 && s[0] == '0' {
        let rest = s.skip(1);
        lemma_trim_leading_shape(rest);
        let t = trim_leading_zeros(rest);
        assert(rest.skip(rest.len() - t.len()) =~= s.skip(s.len() - t.len()));
        lemma_leading_zero_counts_nothing(s);
    } else {
        assert(s.skip(0) =~= s);
    }
}

/// A zero in front of a run of digits does not change the number.
proof fn lemma_leading_zero_counts_nothing(s: Seq<char>)
    requires
        s.len() > 0,
        s[0] == '0',
    ensures
        digits_value(s) == digits_value(s.skip(1)),
    decreases s.len(),
{
    if s.len() == 1 {
        assert(digits_value(s.drop_last()) == 0);
        assert(digits_value(s.skip(1)) == 0);
    } else {
        lemma_leading_zero_counts_nothing(s.drop_last());
        assert(s.drop_last().skip(1) =~= s.skip(1).drop_last());
        assert(s.skip(1).last() == s.last());
    }
}

/// Trimming leaves the front of the text, which does not end in a zero; and each zero that goes
/// takes a factor of ten with it.
proof fn lemma_trim_trailing_shape(s: Seq<char>, k: nat)
    requires
        k >= s.len(),
    ensures
        trim_trailing_zeros(s).len() <= s.len(),
        trim_trailing_zeros(s) == s.take(trim_trailing_zeros(s).len() as int),
        trim_trailing_zeros(s).len() == 0 || trim_trailing_zeros(s).last() != '0',
        digits_value(trim_trailing_zeros(s)) * pow10((k - trim_trailing_zeros(s).len()) as nat)
            == digits_value(s) * pow10((k - s.len()) as nat),
    decreases s.len(),
{
    if s.len() > 0 && s.last() == '0' {
        let front = s.drop_last();
        lemma_trim_trailing_shape(front, k);
        let t = trim_trailing_zeros(front);
        assert(front.take(t.len() as int) =~= s.take(t.len() as int));
        let a = digits_value(front);
        let e = (k - s.len()) as nat;
        assert(pow10((k - front.len()) as nat) == 10 * pow10(e));
        assert(a * (10 * pow10(e)) == (a * 10) * pow10(e)) by (nonlinear_arith);
    } else {
        assert(s.take(s.len() as int) =~= s);
    }
}

/// The first decimal point of a text that opens with a run without one.
proof fn lemma_point_after(front: Seq<char>, rest: Seq<char>)
    requires
        forall|i: int| 0 <= i < front.len() ==> front[i] != '.',
        rest.len() == 0 || rest[0] == '.',
    ensures
        point_index(front + rest, 0) == front.len(),
{
    let s = front + rest;
    assert forall|k: int| 0 <= k < front.len() implies s[k] != '.' by {
        assert(s[k] == front[k]);
    }
    if rest.len() > 0 {
        assert(s[front.len() as int] == rest[0]);
    }
    lemma_point_index_is(s, 0, front.len() as int);
}

/// The parts of a canonical text are the parts that it was made of.
proof fn lemma_canonical_parts(d: Seq<char>)
    requires
        is_literal(d),
    ensures
        whole_digits(canonical(d)) == whole_part(d),
        fraction_digits(canonical(d)) == fraction_part(d),
        whole_part(d).len() > 0,
        whole_part(d).len() == 1 || whole_part(d)[0] != '0',
        fraction_part(d).len() == 0 || fraction_part(d).last() != '0',
        forall|i: int| 0 <= i < whole_part(d).len() ==> spec_is_digit(#[trigger] whole_part(d)[i]),
        forall|i: int|
            0 <= i < fraction_part(d).len() ==> spec_is_digit(#[trigger] fraction_part(d)[i]),
{
    let p = point_index(d, 0);
    lemma_point_index_bounds(d, 0);
    assert(p > 0);
    let whole = d.take(p);
    lemma_trim_leading_shape(whole);
    let w = whole_part(d);
    let f = fraction_part(d);
    assert forall|i: int| 0 <= i < w.len() implies spec_is_digit(#[trigger] w[i]) by {
        let j = whole.len() - w.len() + i;
        assert(w[i] == whole[j]);
        assert(whole[j] == d[j]);
        assert(spec_is_digit(d[j]) || d[j] == '.');
    }
    if p < d.len() {
        let tail = d.skip(p + 1);
        lemma_trim_trailing_shape(tail, tail.len());
        assert forall|i: int| 0 <= i < f.len() implies spec_is_digit(#[trigger] f[i]) by {
            assert(f[i] == tail[i]);
            assert(tail[i] == d[p + 1 + i]);
            assert(spec_is_digit(d[p + 1 + i]) || d[p + 1 + i] == '.');
            assert(d[p] == '.');
        }
    }
    let c = canonical(d);
    if f.len() > 0 {
        let rest = seq!['.'] + f;
        assert(c =~= w + rest);
        lemma_point_after(w, rest);
        assert(c.take(w.len() as int) =~= w);
        assert(c.skip(w.len() as int + 1) =~= f);
    } else {
        assert(c =~= w + Seq::<char>::empty());
        lemma_point_after(w, Seq::empty());
        assert(c.take(w.len() as int) =~= w);
    }
}

/// Where the first decimal point lies, and that nothing before it is one.
proof fn lemma_point_index_bounds(s: Seq<char>, from: int)
    requires
        0 <= from <= s.len(),
    ensures
        from <= point_index(s, from) <= s.len(),
        point_index(s, from) < s.len() ==> s[point_index(s, from)] == '.',
        forall|i: int| from <= i < point_index(s, from) ==> s[i] != '.',
    decreases s.len() - from,
{
    if from < s.len() && s[from] != '.' {
        lemma_point_index_bounds(s, from + 1);
    }
}

/// The text of zero is canonical.
pub proof fn lemma_zero_is_canonical()
    ensures
        is_canonical(zero_text()),
{
    let z = zero_text();
    assert(z.len() == 1 && z[0] == '0');
    lemma_point_index_is(z, 0, 1);
    assert(z.take(1) =~= z);
    assert(trim_leading_zeros(z) == z);
    assert(canonical(z) == z);
}

/// The canonical text of a literal is a literal, and it is its own canonical text.
pub proof fn lemma_canonical_is_canonical(d: Seq<char>)
    requires
        is_literal(d),
    ensures
        is_canonical(canonical(d)),
{
    lemma_canonical_parts(d);
    let c = canonical(d);
    let w = whole_part(d);
    let f = fraction_part(d);
    if f.len() > 0 {
        assert(c =~= w + (seq!['.'] + f));
    } else {
        assert(c =~= w);
    }
    assert(c[0] == w[0]);
    assert forall|i: int| 0 <= i < c.len() implies spec_is_digit(#[trigger] c[i]) || c[i]
        == '.' by {
        if i < w.len() {
            assert(c[i] == w[i]);
        } else if i > w.len() {
            assert(c[i] == f[i - w.len() - 1]);
        }
    }
    assert forall|i: int, j: int| 0 <= i < j < c.len() implies !(#[trigger] c[i] == '.'
        && #[trigger] c[j] == '.') by {
        if i < w.len() {
            assert(c[i] == w[i]);
        } else {
            assert(c[j] == f[j - w.len() - 1]);
        }
    }
    // Trimming what is trimmed changes nothing.
    assert(trim_leading_zeros(w) == w);
    assert(trim_trailing_zeros(f) == f);
    assert(whole_part(c) == w);
    if point_index(c, 0) < c.len() {
        assert(fraction_part(c) == f);
    } else {
        assert(f.len() == 0);
    }
}

/// The canonical text of a literal denotes the number that the literal denotes.
pub proof fn lemma_canonical_keeps_value(d: Seq<char>, k: nat)
    requires
        is_literal(d),
        k >= fraction_digits(d).len(),
    ensures
        fraction_digits(canonical(d)).len() <= fraction_digits(d).len(),
        scaled_value(canonical(d), k) == scaled_value(d, k),
{
    lemma_canonical_parts(d);
    let p = point_index(d, 0);
    lemma_point_index_bounds(d, 0);
    lemma_trim_leading_shape(d.take(p));
    if p < d.len() {
        lemma_trim_trailing_shape(d.skip(p + 1), k);
    }
}

} // verus!
