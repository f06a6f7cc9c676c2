//! The key under which a row's nested cell map holds the cell of a column:
//! `c` followed by the column id in lower-case hexadecimal.
use vstd::prelude::*;
use vstd::string::StringExecFns;

verus! {

pub open spec fn hex_digit(d: nat) -> char {
    if d == 0 { '0' } else if d == 1 { '1' } else if d == 2 { '2' } else if d == 3 { '3' }
    else if d == 4 { '4' } else if d == 5 { '5' } else if d == 6 { '6' } else if d == 7 { '7' }
    else if d == 8 { '8' } else if d == 9 { '9' } else if d == 10 { 'a' } else if d == 11 { 'b' }
    else if d == 12 { 'c' } else if d == 13 { 'd' } else if d == 14 { 'e' } else { 'f' }
}

/// The lower-case hexadecimal digits of `n`, without leading zeros.
pub open spec fn hex_of(n: nat) -> Seq<char>
    decreases n,
{
    if n < 16 {
        seq![hex_digit(n)]
    } else {
        hex_of(n / 16).push(hex_digit(n % 16))
    }
}

/// The cell key of a column id; a negative id is written as its 64-bit two's
/// complement.
pub open spec fn cell_key(id: i64) -> Seq<char> {
    seq!['c'] + hex_of(twos_complement(id))
}

/// The 64-bit two's complement of an id, read as an unsigned number.
pub open spec fn twos_complement(id: i64) -> nat {
    if id >= 0 { id as nat } else { (id + 0x1_0000_0000_0000_0000) as nat }
}

proof fn lemma_hex_len(n: nat)
    ensures
        hex_of(n).len() >= 1,
        n >= 16 ==> hex_of(n).len() >= 2,
    decreases n,
{
    if n >= 16 {
        lemma_hex_len(n / 16);
    }
}

/// Different numbers have different hexadecimal digits.
pub proof fn lemma_hex_injective(a: nat, b: nat)
    requires
        hex_of(a) == hex_of(b),
    ensures
        a == b,
    decreases a,
{
    lemma_hex_len(a);
    lemma_hex_len(b);
    if a >= 16 && b >= 16 {
        let ha = hex_of(a / 16);
        let hb = hex_of(b / 16);
        assert(hex_of(a).drop_last() == ha);
        assert(hex_of(b).drop_last() == hb);
        assert(hex_of(a).last() == hex_digit(a % 16));
        lemma_hex_injective(a / 16, b / 16);
        assert(a == 16 * (a / 16) + a % 16) by (nonlinear_arith);
        assert(b == 16 * (b / 16) + b % 16) by (nonlinear_arith);
    } else if a < 16 && b < 16 {
        assert(hex_of(a)[0] == hex_digit(a));
        assert(hex_of(b)[0] == hex_digit(b));
    }
}

/// Columns with different ids have different cell keys.
pub proof fn lemma_cell_key_injective(a: i64, b: i64)
    requires
        a != b,
    ensures
        cell_key(a) != cell_key(b),
{
    if cell_key(a) == cell_key(b) {
        assert(hex_of(twos_complement(a)) == cell_key(a).drop_first());
        assert(hex_of(twos_complement(b)) == cell_key(b).drop_first());
        lemma_hex_injective(twos_complement(a), twos_complement(b));
    }
}

/// Relies on `format!` with `{:x}`, which writes an `i64` as the lower-case
/// hexadecimal digits of its 64-bit two's complement.
#[verifier::external_body]
fn hex_text(id: i64) -> (r: String)
    ensures
        r@ == hex_of(twos_complement(id)),
{
    format!("{:x}", id)
}

/// The cell key of a column id.
pub fn cell_key_of(id: i64) -> (r: String)
    ensures
        r@ == cell_key(id),
{
    let digits = hex_text(id);
    let mut r = <String as StringExecFns>::from_str("c");
    r.append(digits.as_str());
    proof {
        reveal_strlit("c");
    }
    r
}

} // verus!
