//! The integer and text parts of the user interface: the loading caption and
//! the length of the loading bar.

use vstd::prelude::*;
use vstd::string::StringExecFns;

verus! {

/// The character of the decimal digit `d`.
pub open spec fn digit_char(d: nat) -> char {
    (48 + d) as char
}

/// The decimal notation of `n`, without leading zeros.
pub open spec fn decimal_chars(n: nat) -> Seq<char>
    decreases n,
{
    if n < 10 {
        seq![digit_char(n)]
    } else {
        decimal_chars(n / 10).push(digit_char(n % 10))
    }
}

fn digit_str(d: u32) -> (s: &'static str)
    requires
        d < 10,
    ensures
        s@ == seq![digit_char(d as nat)],
{
    proof {
        reveal_strlit("0");
        reveal_strlit("1");
        reveal_strlit("2");
        reveal_strlit("3");
        reveal_strlit("4");
        reveal_strlit("5");
        reveal_strlit("6");
        reveal_strlit("7");
        reveal_strlit("8");
        reveal_strlit("9");
    }
    match d {
        0 => "0",
        1 => "1",
        2 => "2",
        3 => "3",
        4 => "4",
        5 => "5",
        6 => "6",
        7 => "7",
        8 => "8",
        _ => "9",
    }
}

fn append_decimal(s: &mut String, n: u32)
    ensures
        final(s)@ == old(s)@ + decimal_chars(n as nat),
    decreases n,
{
    if n >= 10 {
        append_decimal(s, n / 10);
    }
    s.append(digit_str(n % 10));
    assert(s@ =~= old(s)@ + decimal_chars(n as nat)) by {
        if n >= 10 {
            assert(decimal_chars(n as nat) == decimal_chars((n / 10) as nat).push(digit_char((n % 10) as nat)));
        }
    }
}

/// The caption of the loading screen: "Loading " and the percentage.
pub fn loading_label(progress: u32) -> (label: String)
    ensures
        label@ == "Loading "@ + decimal_chars(progress as nat) + "%"@,
{
    let mut label = String::from_str("Loading ");
    append_decimal(&mut label, progress);
    label.append("%");
    label
}

/// The length of the loading bar for a percentage: two units per percent.
pub fn progress_bar_length(progress: u32) -> (length: u32)
    requires
        progress * 2 <= u32::MAX,
    ensures
        length == progress * 2,
{
    progress * 2
}

/// The number that the decimal digits `s` stand for, read the usual way,
/// each character standing for its code less that of '0'.
pub open spec fn decimal_value(s: Seq<char>) -> int
    decreases s.len(),
{
    if s.len() == 0 {
        0
    } else {
        decimal_value(s.drop_last()) * 10 + (s.last() as int - 48)
    }
}

/// Each digit's character is the ASCII digit of its value: '0' to '9'.
pub proof fn lemma_digit_chars(d: nat)
    requires
        d < 10,
    ensures
        digit_char(d) as u32 == 48 + d,
        digit_char(d) as int == 48 + d,
        '0' <= digit_char(d) <= '9',
{
}

/// The decimal notation of `n` is made of the ASCII digits '0' to '9', does
/// not start with a zero unless it is "0", and reads back as `n`.
pub proof fn lemma_decimal_reads_back(n: nat)
    ensures
        decimal_value(decimal_chars(n)) == n,
        decimal_chars(n).len() >= 1,
        forall|i: int| 0 <= i < decimal_chars(n).len() ==> '0' <= #[trigger] decimal_chars(n)[i] <= '9',
        n >= 10 ==> decimal_chars(n)[0] != '0',
    decreases n,
{
    if n >= 10 {
        lemma_decimal_reads_back(n / 10);
        let s = decimal_chars(n);
        let prev = decimal_chars(n / 10);
        assert(s == prev.push(digit_char(n % 10)));
        assert(s.drop_last() == prev);
        lemma_digit_chars(n % 10);
        assert forall|i: int| 0 <= i < s.len() implies '0' <= #[trigger] s[i] <= '9' by {
            if i < prev.len() {
                assert(s[i] == prev[i]);
            }
        }
        assert(s[0] == prev[0]);
        assert(s.last() == digit_char(n % 10));
        assert(decimal_value(s) == decimal_value(prev) * 10 + (s.last() as int - 48));
        assert(n == (n / 10) * 10 + n % 10);
        if n / 10 < 10 {
            lemma_digit_chars(n / 10);
        }
    } else {
        lemma_digit_chars(n);
        let s = decimal_chars(n);
        assert(s.drop_last() =~= Seq::<char>::empty());
        assert(decimal_value(s.drop_last()) == 0);
        assert(s.last() == digit_char(n));
    }
}

/// The loading caption is "Loading ", the percentage and "%", and the
/// characters between them read back as the percentage.
pub proof fn lemma_loading_label_reads_back(progress: u32)
    ensures
        ({
            let label = "Loading "@ + decimal_chars(progress as nat) + "%"@;
            &&& label.subrange(0, 8) == "Loading "@
            &&& label.last() == '%'
            &&& decimal_value(label.subrange(8, label.len() - 1)) == progress
        }),
{
    reveal_strlit("Loading ");
    reveal_strlit("%");
    let digits = decimal_chars(progress as nat);
    let label = "Loading "@ + digits + "%"@;
    lemma_decimal_reads_back(progress as nat);
    assert(label.subrange(8, label.len() - 1) =~= digits);
    assert(label.subrange(0, 8) =~= "Loading "@);
}

} // verus!
