//! Conversions between strings and their characters.
use vstd::prelude::*;

verus! {

broadcast use vstd::string::group_string_axioms;

/// The string made of the given characters (`FromIterator<&char>` for `String`,
/// which std documents as concatenating the characters in order).
#[verifier::external_body]
pub(crate) fn string_of(chars: &[char]) -> (text: String)
    ensures
        text@ == chars@,
{
    String::from_iter(chars)
}

/// The characters of a string, in order.
pub fn chars_of(text: &str) -> (chars: Vec<char>)
    ensures
        chars@ == text@,
{
    let mut chars: Vec<char> = Vec::new();
    for c in iter: text.chars()
        invariant
            chars@ == iter.seq().take(iter.index() as int),
    {
        chars.push(c);
        assert(chars@ =~= iter.seq().take(iter.index() + 1));
    }
    assert(chars@ =~= text@);
    chars
}


/// The decimal digit for `d` (between 0 and 9).
pub open spec fn digit_char(d: int) -> char {
    seq!['0', '1', '2', '3', '4', '5', '6', '7', '8', '9'][d]
}

/// The decimal digits of `n`, most significant first, without leading zeros.
pub open spec fn digits(n: nat) -> Seq<char>
    decreases n,
{
    if n < 10 {
        seq![digit_char(n as int)]
    } else {
        digits(n / 10).push(digit_char((n % 10) as int))
    }
}

/// The number that a run of decimal digits stands for.
pub open spec fn digits_value(s: Seq<char>) -> int
    decreases s.len(),
{
    if s.len() == 0 {
        0
    } else {
        digits_value(s.drop_last()) * 10 + (s.last() as int - '0' as int)
    }
}

proof fn lemma_digit_char(d: int)
    requires
        0 <= d < 10,
    ensures
        digit_char(d) as int == '0' as int + d,
{
    if d == 0 {
    } else if d == 1 {
    } else if d == 2 {
    } else if d == 3 {
    } else if d == 4 {
    } else if d == 5 {
    } else if d == 6 {
    } else if d == 7 {
    } else if d == 8 {
    } else {
    }
}

/// The decimal digits of `n` are digits, without a leading zero (but for
/// zero itself), and they stand for `n`.
pub proof fn law_digits(n: nat)
    ensures
        digits(n).len() >= 1,
        forall|k: int| 0 <= k < digits(n).len() ==> '0' <= #[trigger] digits(n)[k] <= '9',
        digits(n).len() > 1 ==> digits(n)[0] != '0',
        digits_value(digits(n)) == n,
    decreases n,
{
    if n < 10 {
        lemma_digit_char(n as int);
        assert(digits(n).drop_last() =~= Seq::<char>::empty());
        assert(digits(n).last() == digit_char(n as int));
        assert(digits_value(digits(n)) == digits_value(Seq::<char>::empty()) * 10 + (digit_char(
            n as int,
        ) as int - '0' as int));
    } else {
        let m = n / 10;
        law_digits(m);
        lemma_digit_char((n % 10) as int);
        let d = digits(n);
        assert(d.drop_last() =~= digits(m));
        assert(d[0] == digits(m)[0]);
        if digits(m).len() == 1 {
            assert(m < 10) by {
                if m >= 10 {
                    law_digits(m / 10);
                }
            }
            lemma_digit_char(m as int);
        }
        assert(forall|k: int| 0 <= k < digits(m).len() ==> d[k] == digits(m)[k]);
        assert(d.last() == digit_char((n % 10) as int));
        assert(digits_value(d) == digits_value(digits(m)) * 10 + (d.last() as int - '0' as int));
        assert(m * 10 + n % 10 == n);
    }
}

/// `n` written in decimal, with a leading `-` when it is negative.
pub open spec fn decimal(n: int) -> Seq<char> {
    if n < 0 {
        seq!['-'] + digits((-n) as nat)
    } else {
        digits(n as nat)
    }
}

pub(crate) fn push_digits(v: &mut Vec<char>, n: u64)
    ensures
        final(v)@ == old(v)@ + digits(n as nat),
    decreases n,
{
    if n >= 10 {
        push_digits(v, n / 10);
    }
    let table: [char; 10] = ['0', '1', '2', '3', '4', '5', '6', '7', '8', '9'];
    assert(table@ =~= seq!['0', '1', '2', '3', '4', '5', '6', '7', '8', '9']);
    let ghost before = v@;
    v.push(table[(n % 10) as usize]);
    assert(v@ =~= old(v)@ + digits(n as nat));
}

/// Appends `n`, written in decimal, to `v`.
pub fn push_decimal(v: &mut Vec<char>, n: i32)
    ensures
        final(v)@ == old(v)@ + decimal(n as int),
{
    if n < 0 {
        v.push('-');
        let m: i64 = -(n as i64);
        push_digits(v, m as u64);
        assert(v@ =~= old(v)@ + decimal(n as int));
    } else {
        push_digits(v, n as u64);
    }
}

/// Appends the characters of `t` to `v`.
pub fn push_str(v: &mut Vec<char>, t: &str)
    ensures
        final(v)@ == old(v)@ + t@,
{
    let chars = chars_of(t);
    let mut k: usize = 0;
    while k < chars.len()
        invariant
            k <= chars@.len(),
            chars@ == t@,
            v@ == old(v)@ + t@.take(k as int),
        decreases chars@.len() - k,
    {
        v.push(chars[k]);
        k = k + 1;
        assert(v@ =~= old(v)@ + t@.take(k as int));
    }
    assert(t@.take(k as int) =~= t@);
}


/// Whether `a` holds exactly the characters of `b`.
pub fn same_text(a: &Vec<char>, b: &str) -> (r: bool)
    ensures
        r == (a@ == b@),
{
    let bc = chars_of(b);
    if a.len() != bc.len() {
        return false;
    }
    let mut k: usize = 0;
    while k < a.len()
        invariant
            k <= a@.len(),
            a@.len() == bc@.len(),
            bc@ == b@,
            forall|m: int| 0 <= m < k ==> a@[m] == bc@[m],
        decreases a@.len() - k,
    {
        if a[k] != bc[k] {
            return false;
        }
        k = k + 1;
    }
    assert(a@ =~= bc@);
    true
}


/// `prefix`, the characters of `body`, then a closing `"`.
pub fn quoted_message(prefix: &str, body: &Vec<char>) -> (msg: Vec<char>)
    ensures
        msg@ == prefix@ + body@ + "\""@,
{
    let mut msg: Vec<char> = Vec::new();
    push_str(&mut msg, prefix);
    let ghost m0 = msg@;
    let mut q: usize = 0;
    while q < body.len()
        invariant
            q <= body@.len(),
            msg@ == m0 + body@.take(q as int),
        decreases body@.len() - q,
    {
        msg.push(body[q]);
        q = q + 1;
        assert(msg@ =~= m0 + body@.take(q as int));
    }
    assert(body@.take(q as int) =~= body@);
    push_str(&mut msg, "\"");
    msg
}

} // verus!
