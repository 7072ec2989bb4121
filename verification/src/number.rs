//! Numbers written in digits.

use vstd::prelude::*;

use crate::text;
use crate::text::chars_of;

verus! {

/// Why a text is not read as a number.
#[derive(Debug, Clone, Copy, PartialEq, Eq, Structural)]
pub enum NumberProblem {
    Empty,
    InvalidDigit,
    TooLarge,
}

impl NumberProblem {
    /// The problem for people.
    pub open spec fn spelled(&self) -> Seq<char> {
        match *self {
            NumberProblem::Empty => "cannot parse integer from empty string"@,
            NumberProblem::InvalidDigit => "invalid digit found in string"@,
            NumberProblem::TooLarge => "number too large to fit in target type"@,
        }
    }

    /// The problem for people.
    pub fn message(&self) -> (s: String)
        ensures
            s@ == self.spelled(),
    {
        match self {
            NumberProblem::Empty => "cannot parse integer from empty string".to_owned(),
            NumberProblem::InvalidDigit => "invalid digit found in string".to_owned(),
            NumberProblem::TooLarge => "number too large to fit in target type".to_owned(),
        }
    }
}

/// Whether a character is a digit.
pub open spec fn is_digit(c: char) -> bool {
    '0' <= c <= '9'
}

/// The number that a digit stands for.
pub open spec fn digit_value(c: char) -> nat {
    ((c as u32) - 48) as nat
}

/// The number that digits stand for, read from the left, as long as it is not
/// larger than allowed.
pub open spec fn read_digits(s: Seq<char>, most: nat) -> Result<nat, NumberProblem>
    decreases s.len(),
{
    if s.len() == 0 {
        Ok(0)
    } else {
        match read_digits(s.drop_last(), most) {
            Err(problem) => Err(problem),
            Ok(n) => if !is_digit(s.last()) {
                Err(NumberProblem::InvalidDigit)
            } else if 10 * n + digit_value(s.last()) > most {
                Err(NumberProblem::TooLarge)
            } else {
                Ok(10 * n + digit_value(s.last()))
            },
        }
    }
}

/// The number that a text stands for: digits, with or without a plus before
/// them.
pub open spec fn read_number(s: Seq<char>, most: nat) -> Result<nat, NumberProblem> {
    if s.len() == 0 {
        Err(NumberProblem::Empty)
    } else if s.len() == 1 && (s[0] == '+' || s[0] == '-') {
        Err(NumberProblem::InvalidDigit)
    } else if s[0] == '+' {
        read_digits(s.skip(1), most)
    } else {
        read_digits(s, most)
    }
}

proof fn lemma_problem_kept(s: Seq<char>, n: int, most: nat)
    requires
        0 <= n <= s.len(),
        read_digits(s.take(n), most) is Err,
    ensures
        read_digits(s, most) == read_digits(s.take(n), most),
    decreases s.len(),
{
    if n < s.len() {
        assert(s.drop_last().take(n) =~= s.take(n));
        lemma_problem_kept(s.drop_last(), n, most);
    } else {
        assert(s.take(n) =~= s);
    }
}

/// Reads a number that is not larger than allowed.
pub fn parse_number(s: &str, most: u64) -> (read: Result<u64, NumberProblem>)
    ensures
        match read_number(s@, most as nat) {
            Ok(n) => read matches Ok(m) && m == n,
            Err(problem) => read == Err::<u64, NumberProblem>(problem),
        },
{
    let chars = chars_of(s);
    let length = chars.len();
    if length == 0 {
        return Err(NumberProblem::Empty);
    }
    if length == 1 && (chars[0] == '+' || chars[0] == '-') {
        return Err(NumberProblem::InvalidDigit);
    }
    let start: usize = if chars[0] == '+' {
        1
    } else {
        0
    };
    let ghost digits = s@.skip(start as int);
    proof {
        assert(s@.skip(0) =~= s@);
        assert(digits.take(0) =~= Seq::<char>::empty());
    }
    let mut n: u64 = 0;
    let mut i: usize = start;
    while i < length
        invariant
            start <= i <= length,
            length == chars@.len(),
            chars@ == s@,
            digits == s@.skip(start as int),
            read_digits(digits.take(i - start), most as nat) == Ok::<nat, NumberProblem>(n as nat),
            read_number(s@, most as nat) == read_digits(digits, most as nat),
            n <= most,
        decreases length - i,
    {
        let c = chars[i];
        proof {
            assert(digits.take(i - start + 1).drop_last() =~= digits.take(i - start));
            assert(digits.take(i - start + 1).last() == c);
        }
        if c < '0' || c > '9' {
            proof {
                lemma_problem_kept(digits, i - start + 1, most as nat);
            }
            return Err(NumberProblem::InvalidDigit);
        }
        let d = (c as u32 - 48) as u64;
        let more: u128 = 10 * (n as u128) + (d as u128);
        if more > most as u128 {
            proof {
                lemma_problem_kept(digits, i - start + 1, most as nat);
            }
            return Err(NumberProblem::TooLarge);
        }
        n = more as u64;
        i += 1;
    }
    proof {
        assert(digits.take(length - start) =~= digits);
    }
    Ok(n)
}

proof fn lemma_zeros_do_not_count(s: Seq<char>, most: nat)
    ensures
        read_digits(seq!['0'] + s, most) == read_digits(s, most),
    decreases s.len(),
{
    if s.len() == 0 {
        assert((seq!['0'] + s).drop_last() =~= Seq::<char>::empty());
        assert(read_digits(Seq::<char>::empty(), most) == Ok::<nat, NumberProblem>(0));
    } else {
        assert((seq!['0'] + s).drop_last() =~= seq!['0'] + s.drop_last());
        assert((seq!['0'] + s).last() == s.last());
        lemma_zeros_do_not_count(s.drop_last(), most);
    }
}

proof fn lemma_decimal_is_read(n: nat, most: nat)
    ensures
        read_digits(text::decimal(n), most) == if n <= most {
            Ok::<nat, NumberProblem>(n)
        } else {
            Err::<nat, NumberProblem>(NumberProblem::TooLarge)
        },
        text::decimal(n).len() > 0,
        forall|i: int|
            0 <= i < text::decimal(n).len() ==> '0' <= (#[trigger] text::decimal(n)[i]) <= '9',
        n > 0 ==> text::decimal(n)[0] != '0',
    decreases n,
{
    let s = text::decimal(n);
    if n < 10 {
        assert(s.drop_last() =~= Seq::<char>::empty());
        assert(read_digits(s.drop_last(), most) == Ok::<nat, NumberProblem>(0));
    } else {
        let head = text::decimal(n / 10);
        lemma_decimal_is_read(n / 10, most);
        assert(s.drop_last() =~= head);
        assert forall|i: int| 0 <= i < s.len() implies '0' <= (#[trigger] s[i]) <= '9' by {
            if i < head.len() {
                assert(s[i] == head[i]);
            }
        }
        assert(s[0] == head[0]);
    }
}

/// What is written in decimal can be read back: the number comes out where it is
/// not larger than allowed, with or without a plus or zeros before it, and where
/// it is, that is what is said. Nothing but digits is written, and no zero comes
/// first but that of zero itself.
pub proof fn law_decimals_are_read_back(n: nat, most: nat)
    ensures
        n <= most ==> read_number(text::decimal(n), most) == Ok::<nat, NumberProblem>(n),
        n > most ==> read_number(text::decimal(n), most) == Err::<nat, NumberProblem>(
            NumberProblem::TooLarge,
        ),
        read_number(seq!['+'] + text::decimal(n), most) == read_number(text::decimal(n), most),
        read_number(seq!['0'] + text::decimal(n), most) == read_number(text::decimal(n), most),
        forall|i: int|
            0 <= i < text::decimal(n).len() ==> '0' <= (#[trigger] text::decimal(n)[i]) <= '9',
        text::decimal(n).len() > 0,
        text::decimal(n)[0] == '0' <==> n == 0,
        n < 10 ==> text::decimal(n).len() == 1,
{
    lemma_decimal_is_read(n, most);
    lemma_zeros_do_not_count(text::decimal(n), most);
    assert('0' <= text::decimal(n)[0] <= '9');
    assert((seq!['+'] + text::decimal(n)).skip(1) =~= text::decimal(n));
    assert((seq!['+'] + text::decimal(n))[0] == '+');
    assert((seq!['0'] + text::decimal(n))[0] == '0');
}

proof fn lemma_read_digits_are_digits(s: Seq<char>, most: nat)
    requires
        read_digits(s, most) is Ok,
    ensures
        read_digits(s, most)->Ok_0 <= most,
        forall|i: int| 0 <= i < s.len() ==> '0' <= (#[trigger] s[i]) <= '9',
    decreases s.len(),
{
    if s.len() > 0 {
        let front = s.drop_last();
        lemma_read_digits_are_digits(front, most);
        assert forall|i: int| 0 <= i < s.len() implies '0' <= (#[trigger] s[i]) <= '9' by {
            if i < front.len() {
                assert(s[i] == front[i]);
            }
        }
    }
}

/// Nothing is read as a number but digits behind at most one plus, and never a
/// number that is larger than allowed.
pub proof fn law_only_digits_are_numbers(s: Seq<char>, most: nat)
    ensures
        read_number(s, most) matches Ok(n) ==> {
            &&& n <= most
            &&& s.len() > 0
            &&& forall|i: int| 1 <= i < s.len() ==> '0' <= (#[trigger] s[i]) <= '9'
            &&& '0' <= s[0] <= '9' || (s[0] == '+' && s.len() > 1)
        },
        read_number(s, most) == Err::<nat, NumberProblem>(NumberProblem::Empty) <==> s.len() == 0,
{
    if read_number(s, most) is Ok {
        if s[0] == '+' {
            lemma_read_digits_are_digits(s.skip(1), most);
            assert forall|i: int| 1 <= i < s.len() implies '0' <= (#[trigger] s[i]) <= '9' by {
                assert(s.skip(1)[i - 1] == s[i]);
            }
        } else {
            lemma_read_digits_are_digits(s, most);
        }
    } else if s.len() > 0 {
        lemma_never_empty(s, most);
        lemma_never_empty(s.skip(1), most);
    }
}

proof fn lemma_never_empty(s: Seq<char>, most: nat)
    ensures
        read_digits(s, most) != Err::<nat, NumberProblem>(NumberProblem::Empty),
    decreases s.len(),
{
    if s.len() > 0 {
        lemma_never_empty(s.drop_last(), most);
    }
}

/// A number has the value that its digits have in their places: one more digit
/// makes it ten times as large and adds the digit.
pub proof fn law_digits_count_by_their_place(s: Seq<char>, d: char, most: nat)
    requires
        '0' <= d <= '9',
        read_number(s, most) is Ok,
    ensures
        ({
            let more = 10 * read_number(s, most)->Ok_0 + (d as u32 - '0' as u32);
            if more <= most {
                read_number(s.push(d), most) == Ok::<nat, NumberProblem>(more as nat)
            } else {
                read_number(s.push(d), most) == Err::<nat, NumberProblem>(NumberProblem::TooLarge)
            }
        }),
{
    law_only_digits_are_numbers(s, most);
    assert(s.push(d).drop_last() =~= s);
    assert(s.push(d)[0] == s[0]);
    assert(s.push(d).skip(1) =~= s.skip(1).push(d));
    assert(s.skip(1).push(d).drop_last() =~= s.skip(1));
}

/// Zeros before a number do not change it, however many there are.
pub proof fn law_padded_numbers_are_read_back(n: nat, width: nat, most: nat)
    requires
        n <= most,
    ensures
        read_number(text::zero_padded(text::decimal(n), width), most) == Ok::<nat, NumberProblem>(n),
    decreases width,
{
    let s = text::decimal(n);
    law_decimals_are_read_back(n, most);
    assert('0' <= s[0] <= '9');
    if s.len() < width {
        let less = text::zero_padded(s, (width - 1) as nat);
        let more = text::zero_padded(s, width);
        law_padded_numbers_are_read_back(n, (width - 1) as nat, most);
        assert(more =~= seq!['0'] + less);
        lemma_zeros_do_not_count(less, most);
        assert(less[0] == '0' || less[0] == s[0]);
        assert(more[0] == '0');
    }
}

/// Each problem with a number is told in words of its own.
pub proof fn law_number_problems_are_told_apart(problem: NumberProblem, told: String)
    requires
        call_ensures(NumberProblem::message, (&problem,), told),
    ensures
        told@ == "cannot parse integer from empty string"@ <==> problem is Empty,
        told@ == "invalid digit found in string"@ <==> problem is InvalidDigit,
        told@ == "number too large to fit in target type"@ <==> problem is TooLarge,
{
    reveal_strlit("cannot parse integer from empty string");
    reveal_strlit("invalid digit found in string");
    reveal_strlit("number too large to fit in target type");
    assert("cannot parse integer from empty string"@[0] == 'c');
    assert("invalid digit found in string"@[0] == 'i');
    assert("number too large to fit in target type"@[0] == 'n');
}

} // verus!
