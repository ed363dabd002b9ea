//! Small pieces of text: decimal numbers and substrings.
use vstd::prelude::*;

verus! {

/// `c` is one of `0` to `9`.
pub open spec fn is_digit(c: char) -> bool {
    '0' <= c <= '9'
}

/// `s` holds digits only.
pub open spec fn all_digits(s: Seq<char>) -> bool {
    forall|i: int| 0 <= i < s.len() ==> is_digit(#[trigger] s[i])
}

/// The number that the digits `s` write in base ten; 0 for no digits.
pub open spec fn decimal_value(s: Seq<char>) -> int
    decreases s.len(),
{
    if s.len() == 0 {
        0
    } else {
        10 * decimal_value(s.drop_last()) + (s.last() as int - '0' as int)
    }
}

/// The digit for a number below ten.
pub open spec fn digit(d: int) -> char {
    ('0' as int + d) as char
}

/// `n` in base ten, without leading zeros.
pub open spec fn decimal(n: nat) -> Seq<char>
    decreases n,
{
    if n < 10 {
        seq![digit(n as int)]
    } else {
        decimal(n / 10).push(digit((n % 10) as int))
    }
}

/// `pattern` stands somewhere in `s`.
pub open spec fn occurs(pattern: Seq<char>, s: Seq<char>) -> bool {
    exists|i: int| occurs_at(pattern, s, i)
}

/// `pattern` stands in `s` from `i` on.
pub open spec fn occurs_at(pattern: Seq<char>, s: Seq<char>, i: int) -> bool {
    0 <= i <= s.len() - pattern.len() && s.subrange(i, i + pattern.len()) == pattern
}

/// The characters of a text.
pub(crate) fn chars_of(s: &str) -> (chars: Vec<char>)
    ensures
        chars@ == s@,
{
    let mut chars: Vec<char> = Vec::new();
    for c in it: s.chars()
        invariant
            it.seq() == s@,
            chars@ == s@.take(it.index()),
    {
        proof {
            assert(s@.take(it.index()).push(c) =~= s@.take(it.index() + 1));
        }
        chars.push(c);
    }
    assert(s@.take(s@.len() as int) =~= s@);
    chars
}

/// Whether `pattern` stands somewhere in `text`.
pub(crate) fn contains(text: &Vec<char>, pattern: &str) -> (found: bool)
    ensures
        found == occurs(pattern@, text@),
{
    let wanted = chars_of(pattern);
    if wanted.len() > text.len() {
        return false;
    }
    let size: usize = text.len();
    let last: usize = size - wanted.len();
    let mut i: usize = 0;
    loop
        invariant
            wanted@ == pattern@,
            size == text@.len(),
            last == size - wanted@.len(),
            i <= last,
            forall|j: int| 0 <= j < i ==> !occurs_at(pattern@, text@, j),
        decreases last - i,
    {
        let mut k: usize = 0;
        while k < wanted.len() && text[i + k] == wanted[k]
            invariant
                wanted@ == pattern@,
                size == text@.len(),
                last == size - wanted@.len(),
                i <= last,
                k <= wanted@.len(),
                forall|j: int| 0 <= j < k ==> text@[i + j] == wanted@[j],
            decreases wanted@.len() - k,
        {
            k += 1;
        }
        if k == wanted.len() {
            assert(text@.subrange(i as int, i + wanted@.len()) =~= wanted@);
            assert(occurs_at(pattern@, text@, i as int));
            return true;
        }
        proof {
            if occurs_at(pattern@, text@, i as int) {
                assert(text@.subrange(i as int, i + wanted@.len())[k as int] == wanted@[k as int]);
            }
        }
        if i == last {
            return false;
        }
        i += 1;
    }
}

fn digit_text(d: u16) -> (s: &'static str)
    requires
        d < 10,
    ensures
        s@ == seq![digit(d as int)],
{
    proof {
        reveal_strlit("0");
        reveal_strlit("1");
        reveal_strlit("2");
        reveal_strlit("3");
        reveal_strlit("4");
        reveal_strlit("5");
        reveal_strlit("6");
        reveal_strlit("7");
        reveal_strlit("8");
        reveal_strlit("9");
    }
    let s = match d {
        0 => "0",
        1 => "1",
        2 => "2",
        3 => "3",
        4 => "4",
        5 => "5",
        6 => "6",
        7 => "7",
        8 => "8",
        _ => "9",
    };
    assert(s@ =~= seq![digit(d as int)]);
    s
}

/// Writes a number in base ten.
pub fn decimal_text(n: u16) -> (s: String)
    ensures
        s@ == decimal(n as nat),
    decreases n,
{
    if n < 10 {
        digit_text(n).to_owned()
    } else {
        let mut s = decimal_text(n / 10);
        let ghost front = s@;
        s.append(digit_text(n % 10));
        assert(s@ =~= front.push(digit((n % 10) as int)));
        s
    }
}

/// A longer run of digits writes no smaller number.
pub(crate) proof fn lemma_prefix_value(s: Seq<char>, i: int, j: int)
    requires
        0 <= i <= j <= s.len(),
        all_digits(s.take(j)),
    ensures
        0 <= decimal_value(s.take(i)) <= decimal_value(s.take(j)),
    decreases j,
{
    let t = s.take(j);
    if j > 0 {
        assert(t.drop_last() =~= s.take(j - 1));
        assert(is_digit(t[j - 1]));
        assert forall|k: int| 0 <= k < j - 1 implies is_digit(#[trigger] s.take(j - 1)[k]) by {
            assert(is_digit(t[k]));
        }
        if i < j {
            lemma_prefix_value(s, i, j - 1);
        } else {
            lemma_prefix_value(s, j - 1, j - 1);
        }
    }
}

/// A number written in base ten reads back as itself.
pub proof fn law_decimal_reads_back(n: nat)
    ensures
        decimal(n).len() > 0,
        all_digits(decimal(n)),
        decimal_value(decimal(n)) == n,
    decreases n,
{
    let s = decimal(n);
    if n < 10 {
        assert(s.drop_last() =~= Seq::<char>::empty());
        assert(decimal_value(s.drop_last()) == 0);
    } else {
        law_decimal_reads_back(n / 10);
        assert(s.drop_last() =~= decimal(n / 10));
    }
}

/// How decimal texts grow: a number below ten is one digit, and another digit
/// behind a number stands for ten times the number plus the digit.
pub proof fn law_decimal_text_by_digits(n: u16, d: u16, front: String, text: String)
    requires
        call_ensures(decimal_text, (n,), front),
        n * 10 + d <= u16::MAX,
        d <= 9,
        call_ensures(decimal_text, ((n * 10 + d) as u16,), text),
    ensures
        n == 0 ==> text@ == seq![('0' as int + d) as char],
        n > 0 ==> text@ == front@ + seq![('0' as int + d) as char],
{
    let m = (n * 10 + d) as nat;
    if n > 0 {
        assert(m / 10 == n && m % 10 == d);
    }
}

/// A text holds another if and only if it is made of something, the other, and
/// something.
pub proof fn law_occurs(pattern: Seq<char>, s: Seq<char>)
    ensures
        occurs(pattern, s) <==> exists|a: Seq<char>, b: Seq<char>| s == #[trigger] (a + pattern + b),
{
    if occurs(pattern, s) {
        let i = choose|i: int| occurs_at(pattern, s, i);
        let a = s.take(i);
        let b = s.skip(i + pattern.len());
        assert(s =~= a + pattern + b) by {
            assert forall|k: int| 0 <= k < s.len() implies s[k] == (a + pattern + b)[k] by {
                if i <= k < i + pattern.len() {
                    assert(s.subrange(i, i + pattern.len())[k - i] == s[k]);
                }
            }
        }
    }
    if exists|a: Seq<char>, b: Seq<char>| s == #[trigger] (a + pattern + b) {
        let (a, b) = choose|a: Seq<char>, b: Seq<char>| s == #[trigger] (a + pattern + b);
        assert(s.subrange(a.len() as int, (a.len() + pattern.len()) as int) =~= pattern);
        assert(occurs_at(pattern, s, a.len() as int));
    }
}

} // verus!
