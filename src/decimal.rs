//! Decimal digit strings: their numeric value and the canonical rendering of a number.
use vstd::prelude::*;

verus! {

pub open spec fn is_digit(c: char) -> bool {
    '0' <= c && c <= '9'
}

pub open spec fn digit_val(c: char) -> int {
    (c as u32) as int - ('0' as u32) as int
}

pub open spec fn all_digits(d: Seq<char>) -> bool {
    forall|i: int| 0 <= i < d.len() ==> is_digit(#[trigger] d[i])
}

/// The numeric value of a string of decimal digits, most significant first.
pub open spec fn value_of(d: Seq<char>) -> int
    decreases d.len(),
{
    if d.len() == 0 {
        0
    } else {
        value_of(d.drop_last()) * 10 + digit_val(d.last())
    }
}

pub open spec fn digit_char(n: int) -> char {
    if n <= 0 {
        '0'
    } else if n == 1 {
        '1'
    } else if n == 2 {
        '2'
    } else if n == 3 {
        '3'
    } else if n == 4 {
        '4'
    } else if n == 5 {
        '5'
    } else if n == 6 {
        '6'
    } else if n == 7 {
        '7'
    } else if n == 8 {
        '8'
    } else {
        '9'
    }
}

/// The shortest decimal representation of `n`.
pub open spec fn digits_of(n: nat) -> Seq<char>
    decreases n,
{
    if n < 10 {
        seq![digit_char(n as int)]
    } else {
        digits_of(n / 10).push(digit_char((n % 10) as int))
    }
}

/// The decimal representation of `n`, left-padded with `0` to at least two digits.
pub open spec fn padded_digits_of(n: nat) -> Seq<char> {
    if n < 10 {
        seq!['0'].add(digits_of(n))
    } else {
        digits_of(n)
    }
}

/// A digit string written the way `digits_of` writes its value: no leading zero
/// unless it is the single digit `0`.
pub open spec fn is_shortest(d: Seq<char>) -> bool {
    all_digits(d) && d.len() >= 1 && (d.len() == 1 || d[0] != '0')
}

/// A digit string written the way `padded_digits_of` writes its value.
pub open spec fn is_padded(d: Seq<char>) -> bool {
    all_digits(d) && d.len() >= 2 && (d.len() == 2 || d[0] != '0')
}

pub proof fn lemma_digit_char(n: int)
    requires
        0 <= n < 10,
    ensures
        is_digit(digit_char(n)),
        digit_val(digit_char(n)) == n,
{
}

pub proof fn lemma_value_nonneg(d: Seq<char>)
    requires
        all_digits(d),
    ensures
        value_of(d) >= 0,
    decreases d.len(),
{
    if d.len() > 0 {
        lemma_value_nonneg(d.drop_last());
    }
}

/// Appending digits never lowers the value.
pub proof fn lemma_value_prefix(d: Seq<char>, k: int)
    requires
        all_digits(d),
        0 <= k <= d.len(),
    ensures
        value_of(d.subrange(0, k)) <= value_of(d),
    decreases d.len(),
{
    if k < d.len() {
        let p = d.drop_last();
        assert(p.subrange(0, k) =~= d.subrange(0, k));
        lemma_value_prefix(p, k);
        lemma_value_nonneg(p);
    } else {
        assert(d.subrange(0, k) =~= d);
    }
}

proof fn lemma_value_positive(d: Seq<char>)
    requires
        all_digits(d),
        d.len() >= 1,
        d[0] != '0',
    ensures
        value_of(d) >= 1,
    decreases d.len(),
{
    let p = d.drop_last();
    assert(is_digit(d[d.len() - 1]));
    if d.len() > 1 {
        assert(p[0] == d[0]);
        assert(all_digits(p)) by {
            assert forall|i: int| 0 <= i < p.len() implies is_digit(#[trigger] p[i]) by {
                assert(p[i] == d[i]);
            }
        }
        lemma_value_positive(p);
    } else {
        assert(p.len() == 0);
        assert(value_of(p) == 0);
    }
}

/// A shortest digit string is the rendering of its own value.
pub proof fn lemma_shortest_round_trip(d: Seq<char>)
    requires
        is_shortest(d),
    ensures
        digits_of(value_of(d) as nat) == d,
    decreases d.len(),
{
    if d.len() == 1 {
        assert(value_of(d.drop_last()) == 0);
        assert(digits_of(value_of(d) as nat) =~= d);
    } else {
        let p = d.drop_last();
        lemma_value_positive(p);
        lemma_shortest_round_trip(p);
        let n = value_of(d);
        assert(n >= 10);
        assert((n / 10) == value_of(p));
        assert(digits_of(n as nat) =~= d);
    }
}

/// A padded digit string is the padded rendering of its own value.
pub proof fn lemma_padded_round_trip(d: Seq<char>)
    requires
        is_padded(d),
    ensures
        padded_digits_of(value_of(d) as nat) == d,
{
    if d.len() == 2 && d[0] == '0' {
        let t = d.subrange(1, 2);
        assert(t.drop_last().len() == 0);
        assert(d.drop_last() =~= seq!['0']);
        assert(t.drop_last().len() == 0);
        assert(value_of(t.drop_last()) == 0);
        assert(value_of(d.drop_last().drop_last()) == 0);
        assert(value_of(d.drop_last()) == 0);
        assert(value_of(d) == value_of(t));
        lemma_shortest_round_trip(t);
        assert(seq!['0'].add(t) =~= d);
    } else {
        lemma_shortest_round_trip(d);
        lemma_value_positive(d);
        let p = d.drop_last();
        lemma_value_positive(p);
    }
}

pub fn digit_char_exec(n: u32) -> (c: char)
    requires
        n < 10,
    ensures
        c == digit_char(n as int),
{
    if n == 0 {
        '0'
    } else if n == 1 {
        '1'
    } else if n == 2 {
        '2'
    } else if n == 3 {
        '3'
    } else if n == 4 {
        '4'
    } else if n == 5 {
        '5'
    } else if n == 6 {
        '6'
    } else if n == 7 {
        '7'
    } else if n == 8 {
        '8'
    } else {
        '9'
    }
}

/// Appends the shortest decimal representation of `n` to `out`.
pub fn push_digits(n: u32, out: &mut Vec<char>)
    ensures
        final(out)@ == old(out)@ + digits_of(n as nat),
    decreases n,
{
    if n >= 10 {
        push_digits(n / 10, out);
    }
    out.push(digit_char_exec(n % 10));
    proof {
        if n >= 10 {
            assert(old(out)@ + digits_of(n as nat) =~= old(out)@ + digits_of((n / 10) as nat) + seq![digit_char((n % 10) as int)]);
        }
    }
}

/// Reads the digits `s[start..end]` as a number, or `None` when it exceeds `u32::MAX`.
pub fn read_value(s: &Vec<char>, start: usize, end: usize) -> (r: Option<u32>)
    requires
        start <= end <= s@.len(),
        all_digits(s@.subrange(start as int, end as int)),
    ensures
        r is Some <==> value_of(s@.subrange(start as int, end as int)) <= u32::MAX,
        r is Some ==> r->0 == value_of(s@.subrange(start as int, end as int)),
{
    let ghost d = s@.subrange(start as int, end as int);
    let mut acc: u32 = 0;
    let mut i: usize = start;
    assert(s@.subrange(start as int, start as int).len() == 0);
    while i < end
        invariant
            start <= i <= end <= s@.len(),
            d == s@.subrange(start as int, end as int),
            all_digits(d),
            acc == value_of(s@.subrange(start as int, i as int)),
        decreases end - i,
    {
        let c = s[i];
        assert(d[i - start] == c);
        let dv: u32 = (c as u32) - ('0' as u32);
        assert(s@.subrange(start as int, i + 1).drop_last() =~= s@.subrange(start as int, i as int));
        if acc > (u32::MAX - dv) / 10 {
            proof {
                assert(d.subrange(0, i + 1 - start) =~= s@.subrange(start as int, i + 1));
                lemma_value_prefix(d, i + 1 - start);
            }
            return None;
        }
        acc = acc * 10 + dv;
        i = i + 1;
    }
    Some(acc)
}

} // verus!
