//! Text that the broker builds: decimal numbers and segment keys.

use vstd::prelude::*;
use vstd::string::*;
use vstd::arithmetic::div_mod::lemma_fundamental_div_mod;

verus! {

/// The character of a decimal digit.
pub open spec fn digit_char(d: nat) -> char
    recommends
        d < 10,
{
    if d == 0 {
        '0'
    } else if d == 1 {
        '1'
    } else if d == 2 {
        '2'
    } else if d == 3 {
        '3'
    } else if d == 4 {
        '4'
    } else if d == 5 {
        '5'
    } else if d == 6 {
        '6'
    } else if d == 7 {
        '7'
    } else if d == 8 {
        '8'
    } else {
        '9'
    }
}

/// The decimal digits of `n`, most significant first, without leading zeros.
pub open spec fn decimal(n: nat) -> Seq<char>
    decreases n,
{
    if n < 10 {
        seq![digit_char(n)]
    } else {
        decimal(n / 10).push(digit_char(n % 10))
    }
}

/// How Rust displays the integer `n`: a minus sign for a negative number,
/// then the decimal digits of its magnitude.
pub open spec fn int_text(n: int) -> Seq<char> {
    if n < 0 {
        seq!['-'] + decimal((-n) as nat)
    } else {
        decimal(n as nat)
    }
}

/// The key under which the segment of a topic partition is stored:
/// `segments/{topic}/segment_{partition}.log`.
pub open spec fn segment_key_text(topic: Seq<char>, partition: int) -> Seq<char> {
    "segments/"@ + topic + "/segment_"@ + int_text(partition) + ".log"@
}

fn digit_str(d: u32) -> (s: &'static str)
    requires
        d < 10,
    ensures
        s@ == seq![digit_char(d as nat)],
{
    if d == 0 {
        proof {
            reveal_strlit("0");
        }
        "0"
    } else if d == 1 {
        proof {
            reveal_strlit("1");
        }
        "1"
    } else if d == 2 {
        proof {
            reveal_strlit("2");
        }
        "2"
    } else if d == 3 {
        proof {
            reveal_strlit("3");
        }
        "3"
    } else if d == 4 {
        proof {
            reveal_strlit("4");
        }
        "4"
    } else if d == 5 {
        proof {
            reveal_strlit("5");
        }
        "5"
    } else if d == 6 {
        proof {
            reveal_strlit("6");
        }
        "6"
    } else if d == 7 {
        proof {
            reveal_strlit("7");
        }
        "7"
    } else if d == 8 {
        proof {
            reveal_strlit("8");
        }
        "8"
    } else {
        proof {
            reveal_strlit("9");
        }
        "9"
    }
}

fn push_decimal(s: &mut String, n: u32)
    ensures
        final(s)@ == old(s)@ + decimal(n as nat),
    decreases n,
{
    if n >= 10 {
        push_decimal(s, n / 10);
    }
    let ghost mid = s@;
    s.append(digit_str(n % 10));
    proof {
        if n >= 10 {
            assert(old(s)@ + decimal(n as nat) =~= mid + seq![digit_char((n % 10) as nat)]);
        } else {
            assert(mid == old(s)@);
            assert(n % 10 == n);
        }
    }
}

/// Appends how Rust displays `n` to `s`.
fn push_int(s: &mut String, n: i32)
    ensures
        final(s)@ == old(s)@ + int_text(n as int),
{
    if n < 0 {
        let magnitude: i64 = 0 - (n as i64);
        let ghost start = s@;
        s.append("-");
        proof {
            reveal_strlit("-");
        }
        push_decimal(s, magnitude as u32);
        assert(s@ =~= start + int_text(n as int));
    } else {
        push_decimal(s, n as u32);
    }
}

/// How Rust displays the integer `n` (`n.to_string()`).
pub fn int_to_text(n: i32) -> (s: String)
    ensures
        s@ == int_text(n as int),
{
    let mut s = String::new();
    push_int(&mut s, n);
    assert(s@ =~= int_text(n as int));
    s
}

/// The key under which the segment of partition `partition` of `topic` is
/// stored: `segments/{topic}/segment_{partition}.log`.
pub fn segment_key(topic: &str, partition: i32) -> (key: String)
    ensures
        key@ == segment_key_text(topic@, partition as int),
{
    let mut key = String::from_str("segments/");
    key.append(topic);
    key.append("/segment_");
    push_int(&mut key, partition);
    key.append(".log");
    key
}


/// The number that a string of decimal digits denotes, read the usual way:
/// each character counts as its distance from `'0'`.
pub open spec fn decimal_value(s: Seq<char>) -> int
    decreases s.len(),
{
    if s.len() == 0 {
        0
    } else {
        decimal_value(s.drop_last()) * 10 + (s.last() as int - '0' as int)
    }
}

/// The integer that a text denotes: an optional leading minus sign, then
/// decimal digits.
pub open spec fn int_value(s: Seq<char>) -> int {
    if s.len() > 0 && s[0] == '-' {
        -decimal_value(s.drop_first())
    } else {
        decimal_value(s)
    }
}

/// Every character of the text is an ASCII digit (code 48 to 57) or `-`.
pub open spec fn digits_or_minus(s: Seq<char>) -> bool {
    forall|i: int| 0 <= i < s.len() ==> (48 <= (#[trigger] s[i]) as int <= 57 || s[i] == '-')
}

proof fn lemma_digit_char(d: nat)
    requires
        d < 10,
    ensures
        digit_char(d) as int == 48 + d,
{
}

proof fn lemma_decimal(n: nat)
    ensures
        decimal_value(decimal(n)) == n,
        decimal(n).len() > 0,
        decimal(n)[0] != '-',
        forall|i: int| 0 <= i < decimal(n).len() ==> 48 <= (#[trigger] decimal(n)[i]) as int <= 57,
    decreases n,
{
    if n >= 10 {
        lemma_decimal(n / 10);
        lemma_fundamental_div_mod(n as int, 10);
        lemma_digit_char(n % 10);
        let d = decimal(n);
        assert(d.drop_last() =~= decimal(n / 10));
        assert(d.last() == digit_char(n % 10));
        assert(decimal_value(d) == (n / 10) * 10 + n % 10);
        assert forall|i: int| 0 <= i < d.len() implies 48 <= (#[trigger] d[i]) as int <= 57 by {
            if i < d.len() - 1 {
                assert(d[i] == decimal(n / 10)[i]);
            }
        }
    } else {
        lemma_digit_char(n);
        assert(decimal(n).drop_last() =~= Seq::<char>::empty());
        assert(decimal_value(Seq::<char>::empty()) == 0);
    }
}

/// Reading back how an integer is displayed gives the integer, and the text
/// holds only digits and the minus sign.
pub proof fn law_int_text_reads_back(n: int)
    ensures
        int_value(int_text(n)) == n,
        digits_or_minus(int_text(n)),
{
    if n < 0 {
        let m = (-n) as nat;
        lemma_decimal(m);
        assert(int_text(n).drop_first() =~= decimal(m));
        assert forall|i: int| 0 <= i < int_text(n).len() implies (48 <= (
        #[trigger] int_text(n)[i]) as int <= 57 || int_text(n)[i] == '-') by {
            if i > 0 {
                assert(int_text(n)[i] == decimal(m)[i - 1]);
            }
        }
    } else {
        lemma_decimal(n as nat);
    }
}

/// Different integers are displayed differently.
pub proof fn law_int_text_injective(a: int, b: int)
    requires
        int_text(a) == int_text(b),
    ensures
        a == b,
{
    law_int_text_reads_back(a);
    law_int_text_reads_back(b);
}

proof fn lemma_key_shape(topic: Seq<char>, partition: int)
    ensures
        ({
            let k = segment_key_text(topic, partition);
            let q: int = 9 + topic.len() as int;
            &&& k.len() == q + 13 + int_text(partition).len()
            &&& k.subrange(9, q) == topic
            &&& k[q] == '/'
            &&& forall|j: int| q < j < k.len() ==> #[trigger] k[j] != '/'
            &&& k.subrange(q + 9, k.len() - 4) == int_text(partition)
        }),
{
    reveal_strlit("segments/");
    reveal_strlit("/segment_");
    reveal_strlit(".log");
    law_int_text_reads_back(partition);
    let a = "segments/"@;
    let b = "/segment_"@;
    let c = ".log"@;
    let d = int_text(partition);
    let k = segment_key_text(topic, partition);
    let q: int = 9 + topic.len() as int;
    assert(k == a + topic + b + d + c);
    assert(k.subrange(9, q) =~= topic);
    assert(k[q] == b[0]);
    assert(k.subrange(q + 9, k.len() - 4) =~= d);
    assert forall|j: int| q < j < k.len() implies #[trigger] k[j] != '/' by {
        if j < q + 9 {
            assert(k[j] == b[j - q]);
        } else if j < q + 9 + d.len() {
            assert(k[j] == d[j - q - 9]);
        } else {
            assert(k[j] == c[j - q - 9 - d.len()]);
        }
    }
}

/// Segment keys name their topic partition: two keys are the same only for
/// the same topic and the same partition.
pub proof fn law_segment_keys_distinct(t1: Seq<char>, p1: int, t2: Seq<char>, p2: int)
    requires
        segment_key_text(t1, p1) == segment_key_text(t2, p2),
    ensures
        t1 == t2,
        p1 == p2,
{
    lemma_key_shape(t1, p1);
    lemma_key_shape(t2, p2);
    let k = segment_key_text(t1, p1);
    if t1.len() < t2.len() {
        assert(k[9 + t2.len() as int] == '/');
        assert(false);
    } else if t2.len() < t1.len() {
        assert(k[9 + t1.len() as int] == '/');
        assert(false);
    }
    law_int_text_injective(p1, p2);
}

} // verus!
