//! Text that the library's rules compare and build.
use vstd::prelude::*;
use vstd::std_specs::iter::IteratorSpec;

verus! {

/// Whether two string slices hold the same characters.
pub fn str_eq(a: &str, b: &str) -> (r: bool)
    ensures
        r == (a@ == b@),
{
    broadcast use vstd::string::axiom_spec_iter, vstd::string::next_postcondition;

    let mut x = a.chars();
    let mut y = b.chars();
    let ghost mut k: int = 0;
    loop
        invariant
            0 <= k <= a@.len(),
            k <= b@.len(),
            x.remaining() == a@.skip(k),
            y.remaining() == b@.skip(k),
            a@.take(k) == b@.take(k),
        decreases a@.len() - k,
    {
        let p = x.next();
        let q = y.next();
        match (p, q) {
            (None, None) => {
                proof {
                    assert(a@ =~= a@.take(k));
                    assert(b@ =~= b@.take(k));
                }
                return true;
            },
            (Some(c), Some(d)) => {
                if c != d {
                    proof {
                        assert(a@[k] == c && b@[k] == d);
                    }
                    return false;
                }
                proof {
                    assert(a@.take(k + 1) =~= a@.take(k).push(c));
                    assert(b@.take(k + 1) =~= b@.take(k).push(d));
                    assert(a@.skip(k).drop_first() =~= a@.skip(k + 1));
                    assert(b@.skip(k).drop_first() =~= b@.skip(k + 1));
                    k = k + 1;
                }
            },
            _ => {
                proof {
                    assert(a@.len() != b@.len());
                }
                return false;
            },
        }
    }
}

/// Calls `str::rsplit_once` from std with the delimiter `'.'`: `None` when
/// `s` holds no `.`, else the text before and after its last `.`.
#[verifier::external_body]
pub fn rsplit_once_dot(s: &str) -> (r: Option<(&str, &str)>)
    ensures
        r is None <==> forall|i: int| 0 <= i < s@.len() ==> s@[i] != '.',
        r matches Some((a, b)) ==> s@ == a@ + seq!['.'] + b@ && forall|i: int| 0 <= i < b@.len() ==> b@[i] != '.',
{
    s.rsplit_once('.')
}

/// The character of a decimal digit.
pub open spec fn digit_char(d: int) -> char {
    if d == 0 { '0' } else if d == 1 { '1' } else if d == 2 { '2' } else if d == 3 { '3' } else if d == 4 {
        '4'
    } else if d == 5 { '5' } else if d == 6 { '6' } else if d == 7 { '7' } else if d == 8 { '8' } else { '9' }
}

/// The decimal digits of `n`, most significant first, without leading zeros.
pub open spec fn decimal_text(n: nat) -> Seq<char>
    decreases n,
{
    if n < 10 {
        seq![digit_char(n as int)]
    } else {
        decimal_text(n / 10).push(digit_char((n % 10) as int))
    }
}

/// Calls std's `format!` on `prefix`, the `Display` of `n` and `suffix`:
/// the three pieces in a row, `n` in decimal digits.
#[verifier::external_body]
pub fn with_decimal(prefix: &str, n: u64, suffix: &str) -> (r: String)
    ensures
        r@ == prefix@ + decimal_text(n as nat) + suffix@,
{
    format!("{prefix}{n}{suffix}")
}

/// The three pieces in a row.
pub fn concat3(a: &str, b: &str, c: &str) -> (r: String)
    ensures
        r@ == a@ + b@ + c@,
{
    let mut r = String::from_str(a);
    r.append(b);
    r.append(c);
    r
}

} // verus!
