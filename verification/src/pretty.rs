//! Amounts of money as text.
use vstd::prelude::*;
use vstd::string::*;

verus! {

/// The character of a decimal digit.
pub open spec fn digit_char(d: int) -> char {
    (48 + d) as char
}

/// The decimal digits of a number, most significant first, with no leading zero.
pub open spec fn decimal(n: nat) -> Seq<char>
    decreases n,
{
    if n < 10 {
        seq![digit_char(n as int)]
    } else {
        decimal(n / 10).push(digit_char((n % 10) as int))
    }
}

/// Digits with a comma before each group of three, counted from the right.
pub open spec fn group_thousands(d: Seq<char>) -> Seq<char>
    decreases d.len(),
{
    if d.len() <= 3 {
        d
    } else {
        group_thousands(d.subrange(0, d.len() - 3)) + seq![','] + d.subrange(
            d.len() - 3,
            d.len() as int,
        )
    }
}

/// A number of cents below one hundred, written with two digits.
pub open spec fn two_digits(c: nat) -> Seq<char> {
    if c < 10 {
        seq!['0', digit_char(c as int)]
    } else {
        decimal(c)
    }
}

/// An amount of cents as dollars: `$`, the grouped dollars, `.`, two digits of cents.
pub open spec fn cents_text(total: u64) -> Seq<char> {
    seq!['$'] + group_thousands(decimal((total / 100) as nat)) + seq!['.'] + two_digits(
        (total % 100) as nat,
    )
}

proof fn lemma_decimal_len(n: nat)
    ensures
        decimal(n).len() >= 1,
    decreases n,
{
    if n >= 10 {
        lemma_decimal_len(n / 10);
    }
}

/// Calls `ToString::to_string` on a `u64`.
///
/// Trusted: std writes an unsigned integer as its decimal digits, with no sign,
/// padding or leading zero.
#[verifier::external_body]
pub(crate) fn u64_to_string(i: u64) -> (r: String)
    ensures
        r@ == decimal(i as nat),
{
    i.to_string()
}

/// Writes an amount of cents as dollars, such as `$1,234.05`.
pub fn pretty_print_cents(total_cents: u64) -> (r: String)
    ensures
        r@ == cents_text(total_cents),
{
    let dollars = total_cents / 100;
    let cents = total_cents % 100;
    let mut s = String::from_str("$");
    let grouped = pretty_print_u64(dollars);
    s.append(grouped.as_str());
    s.append(".");
    if cents < 10 {
        s.append("0");
    }
    let c = u64_to_string(cents);
    s.append(c.as_str());
    proof {
        reveal_strlit("$");
        reveal_strlit(".");
        reveal_strlit("0");
        if cents >= 10 {
            assert(two_digits(cents as nat) == decimal(cents as nat));
        }
    }
    assert(s@ =~= cents_text(total_cents));
    s
}

/// Writes a number with its digits grouped by three, such as `1,234,567`.
pub fn pretty_print_u64(i: u64) -> (r: String)
    ensures
        r@ == group_thousands(decimal(i as nat)),
{
    let digits = u64_to_string(i);
    let d = digits.as_str();
    let n = d.unicode_len();
    proof {
        lemma_decimal_len(i as nat);
    }
    let first = (n - 1) % 3 + 1;
    let mut s = String::new();
    s.append(d.substring_char(0, first));
    assert(s@ =~= d@.subrange(0, first as int));
    assert(group_thousands(d@.subrange(0, first as int)) == d@.subrange(0, first as int));
    let mut k = first;
    while k < n
        invariant
            n == d@.len(),
            d@ == decimal(i as nat),
            1 <= first <= k <= n,
            (n - k) % 3 == 0,
            s@ == group_thousands(d@.subrange(0, k as int)),
        decreases n - k,
    {
        let ghost before = s@;
        assert(k + 3 <= n);
        s.append(",");
        s.append(d.substring_char(k, k + 3));
        proof {
            reveal_strlit(",");
            let p = d@.subrange(0, k + 3);
            assert(p.len() == k + 3);
            assert(p.len() > 3);
            assert(p.subrange(0, p.len() - 3) =~= d@.subrange(0, k as int));
            assert(p.subrange(p.len() - 3, p.len() as int) =~= d@.subrange(k as int, k + 3));
            assert(group_thousands(p) == group_thousands(d@.subrange(0, k as int)) + seq![',']
                + d@.subrange(k as int, k + 3));
            assert(s@ =~= before + seq![','] + d@.subrange(k as int, k + 3));
        }
        k = k + 3;
        assert(s@ =~= group_thousands(d@.subrange(0, k as int)));
    }
    assert(d@.subrange(0, n as int) =~= d@);
    s
}

/// Whether a character is one of the signs an amount is written with: `$`,
/// `,` or `.`.
pub open spec fn is_sign(c: char) -> bool {
    c == '$' || c == ',' || c == '.'
}

/// A text with its signs removed.
pub open spec fn without_signs(s: Seq<char>) -> Seq<char>
    decreases s.len(),
{
    if s.len() == 0 {
        s
    } else if is_sign(s.last()) {
        without_signs(s.drop_last())
    } else {
        without_signs(s.drop_last()).push(s.last())
    }
}

/// The number that decimal digits write.
pub open spec fn digits_value(s: Seq<char>) -> int
    decreases s.len(),
{
    if s.len() == 0 {
        0
    } else {
        digits_value(s.drop_last()) * 10 + (s.last() as int - 48)
    }
}

/// A digit is no sign, and its character stands for its value.
proof fn lemma_digit_char(d: int)
    requires
        0 <= d < 10,
    ensures
        digit_char(d) as int == 48 + d,
        !is_sign(digit_char(d)),
{
    assert(('$' as int) == 36 && (',' as int) == 44 && ('.' as int) == 46);
}

/// A sign alone is removed whole; a digit alone stays.
proof fn lemma_single(c: char)
    ensures
        is_sign(c) ==> without_signs(seq![c]) == Seq::<char>::empty(),
        !is_sign(c) ==> without_signs(seq![c]) == seq![c],
        digits_value(seq![c]) == c as int - 48,
{
    let s = seq![c];
    assert(s.drop_last() =~= Seq::<char>::empty());
    assert(s.last() == c);
    assert(without_signs(Seq::<char>::empty()) == Seq::<char>::empty());
    assert(digits_value(Seq::<char>::empty()) == 0);
    assert(Seq::<char>::empty().push(c) =~= s);
}

/// Removing the signs of two texts one after the other removes those of both.
proof fn lemma_without_signs_concat(a: Seq<char>, b: Seq<char>)
    ensures
        without_signs(a + b) == without_signs(a) + without_signs(b),
    decreases b.len(),
{
    if b.len() == 0 {
        assert(a + b =~= a);
        assert(without_signs(a) + without_signs(b) =~= without_signs(a));
    } else {
        lemma_without_signs_concat(a, b.drop_last());
        assert((a + b).drop_last() =~= a + b.drop_last());
        assert((a + b).last() == b.last());
        if !is_sign(b.last()) {
            assert(without_signs(a) + without_signs(b.drop_last()).push(b.last()) =~= (without_signs(a)
                + without_signs(b.drop_last())).push(b.last()));
        }
    }
}

/// The decimal digits of a number hold no sign and write the number.
proof fn lemma_decimal_value(n: nat)
    ensures
        without_signs(decimal(n)) == decimal(n),
        digits_value(decimal(n)) == n,
    decreases n,
{
    if n < 10 {
        lemma_digit_char(n as int);
        lemma_single(digit_char(n as int));
    } else {
        lemma_decimal_value(n / 10);
        let d = decimal(n);
        let c = digit_char((n % 10) as int);
        lemma_digit_char((n % 10) as int);
        assert(d == decimal(n / 10).push(c));
        assert(d.drop_last() =~= decimal(n / 10));
        assert(d.last() == c);
        assert(n == (n / 10) * 10 + n % 10);
    }
}

/// Grouping digits by three adds only signs.
proof fn lemma_grouping_adds_signs(d: Seq<char>)
    requires
        without_signs(d) == d,
    ensures
        without_signs(group_thousands(d)) == d,
    decreases d.len(),
{
    if d.len() > 3 {
        let p = d.subrange(0, d.len() - 3);
        let q = d.subrange(d.len() - 3, d.len() as int);
        assert(p + q =~= d);
        lemma_without_signs_concat(p, q);
        assert(without_signs(p).len() <= p.len()) by {
            lemma_without_signs_shorter(p);
        }
        assert(without_signs(q).len() <= q.len()) by {
            lemma_without_signs_shorter(q);
        }
        assert(without_signs(p) == p && without_signs(q) == q);
        lemma_grouping_adds_signs(p);
        lemma_without_signs_concat(group_thousands(p), seq![',']);
        lemma_single(',');
        lemma_without_signs_concat(group_thousands(p) + seq![','], q);
        assert(group_thousands(p) + seq![','] + q == group_thousands(d));
        assert(p + Seq::<char>::empty() =~= p);
    }
}

/// Removing signs never lengthens a text, and keeps it only where it holds none.
proof fn lemma_without_signs_shorter(s: Seq<char>)
    ensures
        without_signs(s).len() <= s.len(),
        without_signs(s).len() == s.len() ==> without_signs(s) == s,
    decreases s.len(),
{
    if s.len() > 0 {
        lemma_without_signs_shorter(s.drop_last());
        if !is_sign(s.last()) && without_signs(s).len() == s.len() {
            assert(s.drop_last().push(s.last()) =~= s);
        }
    }
}

/// An amount written as dollars gives back its number of cents once its
/// signs are removed.
pub proof fn law_cents_text_gives_back_the_cents(total: u64)
    ensures
        digits_value(without_signs(cents_text(total))) == total,
{
    let dollars = (total / 100) as nat;
    let cents = (total % 100) as nat;
    let d = decimal(dollars);
    lemma_decimal_value(dollars);
    lemma_grouping_adds_signs(d);
    let t = two_digits(cents);
    let c1 = digit_char((cents / 10) as int);
    let c2 = digit_char((cents % 10) as int);
    assert(t == seq![c1, c2]) by {
        if cents >= 10 {
            let x = (cents / 10) as nat;
            assert(x < 10);
            assert(decimal(x) == seq![digit_char(x as int)]);
        }
    }
    let g = group_thousands(d);
    lemma_without_signs_concat(seq!['$'], g);
    lemma_without_signs_concat(seq!['$'] + g, seq!['.']);
    lemma_without_signs_concat(seq!['$'] + g + seq!['.'], t);
    lemma_single('$');
    lemma_single('.');
    lemma_single(c1);
    lemma_digit_char((cents / 10) as int);
    lemma_digit_char((cents % 10) as int);
    assert(seq![c1, c2].drop_last() =~= seq![c1]);
    assert(seq![c1, c2].last() == c2);
    assert(seq![c1].push(c2) =~= seq![c1, c2]);
    assert(without_signs(t) =~= t);
    let w = d + t;
    assert(without_signs(cents_text(total)) =~= w);
    assert(w.drop_last() =~= d.push(c1));
    assert(d.push(c1).drop_last() =~= d);
    assert(w.last() == c2);
    assert(d.push(c1).last() == c1);
    assert(digits_value(d.push(c1)) == dollars * 10 + cents / 10);
    assert(digits_value(w) == digits_value(d.push(c1)) * 10 + cents % 10);
    assert(digits_value(w) == (dollars * 10 + cents / 10) * 10 + cents % 10);
    assert((dollars * 10 + cents / 10) * 10 + cents % 10 == dollars * 100 + (cents / 10) * 10
        + cents % 10) by (nonlinear_arith);
    assert(total == dollars * 100 + cents);
}

/// Grouping puts a comma exactly before each group of three digits counted
/// from the right: the text grows by one comma for every full group of three
/// after the first digit, and a character is a comma exactly where a multiple
/// of four characters follow it, so the leading group holds one to three
/// digits and every comma is followed by three digits.
pub proof fn law_grouping_puts_commas_every_three_digits(d: Seq<char>)
    requires
        d.len() >= 1,
        forall|i: int| 0 <= i < d.len() ==> d[i] != ',',
    ensures
        group_thousands(d).len() == d.len() + (d.len() - 1) / 3,
        forall|j: int|
            0 <= j < group_thousands(d).len() ==> (#[trigger] group_thousands(d)[j] == ',' <==> (
            group_thousands(d).len() - j) % 4 == 0),
    decreases d.len(),
{
    let r = group_thousands(d);
    if d.len() > 3 {
        let p = d.subrange(0, d.len() - 3);
        let q = d.subrange(d.len() - 3, d.len() as int);
        law_grouping_puts_commas_every_three_digits(p);
        let g = group_thousands(p);
        assert(r == g + seq![','] + q);
        assert forall|j: int| 0 <= j < r.len() implies (#[trigger] r[j] == ',' <==> (r.len() - j) % 4
            == 0) by {
            if j < g.len() {
                assert(r[j] == g[j]);
                assert((r.len() - j) % 4 == (g.len() - j) % 4);
            } else if j == g.len() {
                assert(r[j] == ',');
            } else {
                assert(r[j] == q[j - g.len() - 1]);
                assert(q[j - g.len() - 1] == d[d.len() - 3 + j - g.len() - 1]);
            }
        }
    }
}

/// The decimal digits of a number hold no comma.
pub proof fn lemma_decimal_has_no_comma(n: nat)
    ensures
        decimal(n).len() >= 1,
        forall|i: int| 0 <= i < decimal(n).len() ==> decimal(n)[i] != ',',
    decreases n,
{
    if n < 10 {
        lemma_digit_char(n as int);
    } else {
        lemma_decimal_has_no_comma(n / 10);
        lemma_digit_char((n % 10) as int);
        assert forall|i: int| 0 <= i < decimal(n).len() implies decimal(n)[i] != ',' by {
            if i < decimal(n / 10).len() {
                assert(decimal(n)[i] == decimal(n / 10)[i]);
            }
        }
    }
}

/// Written out, a number has a comma exactly before each group of three digits
/// counted from the right.
pub proof fn law_written_numbers_group_by_three(i: u64)
    ensures
        group_thousands(decimal(i as nat)).len() == decimal(i as nat).len() + (decimal(i as nat).len()
            - 1) / 3,
        forall|j: int|
            0 <= j < group_thousands(decimal(i as nat)).len() ==> (#[trigger] group_thousands(
                decimal(i as nat),
            )[j] == ',' <==> (group_thousands(decimal(i as nat)).len() - j) % 4 == 0),
{
    lemma_decimal_has_no_comma(i as nat);
    law_grouping_puts_commas_every_three_digits(decimal(i as nat));
}

} // verus!
