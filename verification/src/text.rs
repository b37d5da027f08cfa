use vstd::prelude::*;
use vstd::string::StringExecFns;
use vstd::string::StrSliceExecFns;

verus! {

/// The decimal digit character for `d` (expected in `0..10`).
pub open spec fn digit_char(d: nat) -> char {
    (48 + d) as char
}

/// The decimal representation of a natural number, most significant digit first.
pub open spec fn nat_digits(n: nat) -> Seq<char>
    decreases n,
{
    if n < 10 {
        seq![digit_char(n)]
    } else {
        nat_digits(n / 10).push(digit_char(n % 10))
    }
}

/// The decimal representation of an integer, with a leading `-` when negative.
pub open spec fn int_digits(n: int) -> Seq<char> {
    if n < 0 {
        seq!['-'] + nat_digits((-n) as nat)
    } else {
        nat_digits(n as nat)
    }
}

/// Appends one character to a string (`String::push`).
#[verifier::external_body]
pub(crate) fn push_char(s: &mut String, c: char)
    ensures
        final(s)@ == old(s)@.push(c),
{
    s.push(c);
}

/// Appends every character of `s` to `out`.
pub fn push_str(out: &mut String, s: &str)
    ensures
        final(out)@ == old(out)@ + s@,
{
    out.append(s);
}

/// Builds a `String` from a sequence of characters.
pub fn string_from_chars(cs: &Vec<char>) -> (r: String)
    ensures
        r@ == cs@,
{
    let mut r = String::new();
    let mut i: usize = 0;
    while i < cs.len()
        invariant
            i <= cs.len(),
            r@ == cs@.take(i as int),
        decreases cs.len() - i,
    {
        push_char(&mut r, cs[i]);
        i += 1;
        assert(r@ =~= cs@.take(i as int));
    }
    assert(cs@.take(i as int) =~= cs@);
    r
}

/// The characters of a string slice, in order.
pub fn str_to_chars(s: &str) -> (r: Vec<char>)
    ensures
        r@ == s@,
{
    let n = s.unicode_len();
    let mut r: Vec<char> = Vec::new();
    let mut i: usize = 0;
    while i < n
        invariant
            n == s@.len(),
            i <= n,
            r@ == s@.take(i as int),
        decreases n - i,
    {
        r.push(s.get_char(i));
        i += 1;
        assert(r@ =~= s@.take(i as int));
    }
    assert(s@.take(n as int) =~= s@);
    r
}

/// A copy of a string slice as an owned `String`.
pub fn to_owned_string(s: &str) -> (r: String)
    ensures
        r@ == s@,
{
    s.to_owned()
}

proof fn lemma_nat_digits_len(n: nat)
    ensures
        nat_digits(n).len() >= 1,
    decreases n,
{
    if n >= 10 {
        lemma_nat_digits_len(n / 10);
    }
}

/// The number a text of decimal digits denotes, most significant digit first.
pub open spec fn digits_value(s: Seq<char>) -> int
    decreases s.len(),
{
    if s.len() == 0 {
        0
    } else {
        digits_value(s.drop_last()) * 10 + (s.last() as int - '0' as int)
    }
}

/// The decimal text of `n` is made of the digits `0` to `9` and denotes `n`.
pub proof fn lemma_nat_digits_value(n: nat)
    ensures
        digits_value(nat_digits(n)) == n,
        forall|i: int| 0 <= i < nat_digits(n).len() ==> '0' <= #[trigger] nat_digits(n)[i] <= '9',
    decreases n,
{
    if n < 10 {
        assert(nat_digits(n).drop_last() =~= Seq::<char>::empty());
        assert(digit_char(n) as int == 48 + n);
        assert('0' as int == 48);
        assert(digits_value(nat_digits(n).drop_last()) == 0);
    } else {
        lemma_nat_digits_value(n / 10);
        let s = nat_digits(n);
        assert(s.last() == digit_char(n % 10));
        assert(digit_char(n % 10) as int == 48 + n % 10);
        assert('0' as int == 48);
        assert(digits_value(s) == digits_value(s.drop_last()) * 10 + (s.last() as int - '0' as int));
        assert(s.drop_last() =~= nat_digits(n / 10));
        assert(n == (n / 10) * 10 + n % 10) by (nonlinear_arith);
        assert forall|i: int| 0 <= i < s.len() implies '0' <= #[trigger] s[i] <= '9' by {
            if i < s.len() - 1 {
                assert(s[i] == nat_digits(n / 10)[i]);
            }
        }
    }
}

/// The decimal text of an integer denotes it: a leading `-` for a negative
/// number, then the digits of its magnitude.
pub proof fn lemma_int_digits_value(n: int)
    ensures
        n >= 0 ==> digits_value(int_digits(n)) == n,
        n < 0 ==> int_digits(n)[0] == '-' && digits_value(int_digits(n).drop_first()) == -n,
{
    if n >= 0 {
        lemma_nat_digits_value(n as nat);
    } else {
        lemma_nat_digits_value((-n) as nat);
        assert(int_digits(n).drop_first() =~= nat_digits((-n) as nat));
    }
}

/// Different numbers have different decimal texts.
pub proof fn lemma_nat_digits_injective(a: nat, b: nat)
    requires
        a != b,
    ensures
        nat_digits(a) != nat_digits(b),
    decreases a,
{
    if a < 10 && b < 10 {
        assert(nat_digits(a)[0] != nat_digits(b)[0]);
    } else if a < 10 {
        lemma_nat_digits_len(b / 10);
        assert(nat_digits(b).len() >= 2);
    } else if b < 10 {
        lemma_nat_digits_len(a / 10);
        assert(nat_digits(a).len() >= 2);
    } else if a % 10 != b % 10 {
        assert(nat_digits(a).last() != nat_digits(b).last());
    } else {
        lemma_nat_digits_injective(a / 10, b / 10);
        assert(nat_digits(a).drop_last() =~= nat_digits(a / 10));
        assert(nat_digits(b).drop_last() =~= nat_digits(b / 10));
    }
}

/// The decimal text of `n`.
pub fn usize_to_string(n: usize) -> (r: String)
    ensures
        r@ == nat_digits(n as nat),
{
    let mut out = String::new();
    append_usize(&mut out, n);
    out
}

/// Appends the decimal text of `n`.
pub fn append_usize(out: &mut String, n: usize)
    ensures
        final(out)@ == old(out)@ + nat_digits(n as nat),
    decreases n,
{
    if n < 10 {
        let c = ((n as u8) + 48u8) as char;
        assert(c == digit_char(n as nat)) by {
            assert((n as u8 + 48u8) as char == (48 + n) as char);
        }
        push_char(out, c);
        assert(seq![digit_char(n as nat)] =~= seq![c]);
        assert(old(out)@.push(c) =~= old(out)@ + nat_digits(n as nat));
    } else {
        append_usize(out, n / 10);
        let d = n % 10;
        let c = ((d as u8) + 48u8) as char;
        assert(c == digit_char(d as nat));
        let ghost mid = out@;
        push_char(out, c);
        assert(out@ =~= old(out)@ + nat_digits(n as nat));
    }
}

/// Appends the decimal text of `n`, with a leading `-` when negative.
pub fn append_i64(out: &mut String, n: i64)
    ensures
        final(out)@ == old(out)@ + int_digits(n as int),
{
    if n < 0 {
        push_char(out, '-');
        let m: u64 = if n == i64::MIN {
            9223372036854775808u64
        } else {
            (-n) as u64
        };
        append_u64(out, m);
        assert(out@ =~= old(out)@ + int_digits(n as int));
    } else {
        append_u64(out, n as u64);
    }
}

/// Appends the decimal text of `n`.
pub fn append_u64(out: &mut String, n: u64)
    ensures
        final(out)@ == old(out)@ + nat_digits(n as nat),
    decreases n,
{
    if n < 10 {
        let c = ((n as u8) + 48u8) as char;
        push_char(out, c);
        assert(old(out)@.push(c) =~= old(out)@ + nat_digits(n as nat));
    } else {
        append_u64(out, n / 10);
        let d = n % 10;
        let c = ((d as u8) + 48u8) as char;
        push_char(out, c);
        assert(out@ =~= old(out)@ + nat_digits(n as nat));
    }
}

/// The strings joined with `sep` between each two of them.
pub fn join_strings(parts: &Vec<String>, sep: &str) -> (r: String)
    ensures
        r@ == crate::parsing::ast::join_texts(crate::utils::strings_view(parts@), sep@),
{
    let mut out = String::new();
    let mut i: usize = 0;
    while i < parts.len()
        invariant
            i <= parts@.len(),
            out@ == crate::parsing::ast::join_texts(
                crate::utils::strings_view(parts@.subrange(0, i as int)),
                sep@,
            ),
        decreases parts@.len() - i,
    {
        if i > 0 {
            push_str(&mut out, sep);
        }
        push_str(&mut out, parts[i].as_str());
        proof {
            let prev = crate::utils::strings_view(parts@.subrange(0, i as int));
            let next = crate::utils::strings_view(parts@.subrange(0, i + 1));
            assert(next =~= prev.push(parts@[i as int]@));
            assert(next.drop_last() =~= prev);
            if i == 0 {
                assert(out@ =~= parts@[0]@);
            }
        }
        i += 1;
    }
    assert(parts@.subrange(0, i as int) =~= parts@);
    out
}

/// Whether two string slices hold the same characters.
pub fn str_eq(a: &str, b: &str) -> (r: bool)
    ensures
        r == (a@ == b@),
{
    let n = b.unicode_len();
    if a.unicode_len() != n {
        return false;
    }
    let mut i: usize = 0;
    while i < n
        invariant
            n == b@.len(),
            a@.len() == n,
            i <= n,
            forall|j: int| 0 <= j < i ==> a@[j] == b@[j],
        decreases n - i,
    {
        if a.get_char(i) != b.get_char(i) {
            return false;
        }
        i += 1;
    }
    assert(a@ =~= b@);
    true
}

} // verus!
