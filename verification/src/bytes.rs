//! Byte-sequence building blocks for the XML and archive generators: pushing
//! literals, decimal and column-letter rendering, XML escaping, and
//! case-insensitive comparison. Every generated part is a `Vec<u8>` whose
//! contents these functions pin down exactly.

use vstd::prelude::*;
use vstd::string::StringSliceAdditionalSpecFns;

verus! {

/// The UTF-8 bytes of a string literal, as written in a contract.
pub open spec fn lit(s: &str) -> Seq<u8> {
    s.spec_bytes()
}

/// Appends a byte slice.
pub fn push_bytes(out: &mut Vec<u8>, s: &[u8])
    ensures
        final(out)@ == old(out)@ + s@,
{
    let ghost base = out@;
    let mut i: usize = 0;
    while i < s.len()
        invariant
            i <= s@.len(),
            out@ == base + s@.take(i as int),
        decreases s@.len() - i,
    {
        out.push(s[i]);
        proof {
            assert(base + s@.take(i + 1) =~= (base + s@.take(i as int)).push(s@[i as int]));
        }
        i = i + 1;
    }
    proof {
        assert(s@.take(s@.len() as int) =~= s@);
    }
}

/// Appends the UTF-8 bytes of a string slice.
pub fn push_lit(out: &mut Vec<u8>, s: &str)
    ensures
        final(out)@ == old(out)@ + lit(s),
{
    push_bytes(out, s.as_bytes());
}

/// The decimal digits of `n`, most significant first, no sign and no
/// leading zero (a single `0` for zero).
pub open spec fn dec_of(n: nat) -> Seq<u8>
    decreases n,
{
    if n < 10 {
        seq![(48 + n) as u8]
    } else {
        dec_of(n / 10) + seq![(48 + n % 10) as u8]
    }
}

/// Appends the decimal rendering of `n`.
pub fn push_dec(out: &mut Vec<u8>, n: u64)
    ensures
        final(out)@ == old(out)@ + dec_of(n as nat),
{
    let mut tmp: Vec<u8> = Vec::new();
    let d0: u8 = (n % 10) as u8 + 48;
    tmp.push(d0);
    let mut m: u64 = n / 10;
    proof {
        if n >= 10 {
            assert(dec_of(n as nat) == dec_of((n / 10) as nat) + seq![d0]);
        }
        assert(dec_of(n as nat) == (if m > 0 {
            dec_of(m as nat)
        } else {
            Seq::<u8>::empty()
        }) + tmp@);
    }
    while m > 0
        invariant
            dec_of(n as nat) == (if m > 0 {
                dec_of(m as nat)
            } else {
                Seq::<u8>::empty()
            }) + tmp@,
        decreases m,
    {
        let ghost pre_m = m as nat;
        let ghost pre_tmp = tmp@;
        let d: u8 = (m % 10) as u8 + 48;
        tmp.insert(0, d);
        proof {
            assert(tmp@ =~= seq![d] + pre_tmp);
        }
        m = m / 10;
        proof {
            if m > 0 {
                assert(dec_of(pre_m) == dec_of(m as nat) + seq![d]);
                assert((dec_of(m as nat) + seq![d]) + pre_tmp =~= dec_of(m as nat) + tmp@);
            } else {
                assert(dec_of(pre_m) == seq![d]);
                assert(seq![d] + pre_tmp =~= tmp@);
            }
        }
    }
    push_bytes(out, tmp.as_slice());
}

/// The spreadsheet letter name of a zero-based column index: `A` for 0,
/// `Z` for 25, `AA` for 26, and so on (bijective base 26).
pub open spec fn col_letters(c: nat) -> Seq<u8>
    decreases c,
{
    if c < 26 {
        seq![(65 + c) as u8]
    } else {
        col_letters((c / 26 - 1) as nat) + seq![(65 + c % 26) as u8]
    }
}

/// Appends the column letters of a zero-based column index.
pub fn push_col(out: &mut Vec<u8>, c: u16)
    ensures
        final(out)@ == old(out)@ + col_letters(c as nat),
{
    let mut tmp: Vec<u8> = Vec::new();
    let d0: u8 = (c % 26) as u8 + 65;
    tmp.push(d0);
    let mut m: u16 = c / 26;
    proof {
        if c >= 26 {
            assert(dec_of(0) == seq![48u8]);
            assert(col_letters(c as nat) == col_letters((c / 26 - 1) as nat) + seq![d0]);
        }
        assert(col_letters(c as nat) == (if m > 0 {
            col_letters((m - 1) as nat)
        } else {
            Seq::<u8>::empty()
        }) + tmp@);
    }
    while m > 0
        invariant
            col_letters(c as nat) == (if m > 0 {
                col_letters((m - 1) as nat)
            } else {
                Seq::<u8>::empty()
            }) + tmp@,
        decreases m,
    {
        let ghost pre_tmp = tmp@;
        let k: u16 = m - 1;
        let d: u8 = (k % 26) as u8 + 65;
        tmp.insert(0, d);
        proof {
            assert(tmp@ =~= seq![d] + pre_tmp);
        }
        m = k / 26;
        proof {
            if m > 0 {
                assert(col_letters(k as nat) == col_letters((k / 26 - 1) as nat) + seq![d]);
                assert((col_letters((m - 1) as nat) + seq![d]) + pre_tmp =~= col_letters(
                    (m - 1) as nat,
                ) + tmp@);
            } else {
                assert(col_letters(k as nat) == seq![d]);
                assert(seq![d] + pre_tmp =~= tmp@);
            }
        }
    }
    push_bytes(out, tmp.as_slice());
}

/// The `A1`-style reference of a zero-based (row, column) pair.
pub open spec fn cell_ref(row: nat, col: nat) -> Seq<u8> {
    col_letters(col) + dec_of(row + 1)
}

/// Appends the `A1`-style reference of a zero-based (row, column) pair.
pub fn push_cell_ref(out: &mut Vec<u8>, row: u32, col: u16)
    ensures
        final(out)@ == old(out)@ + cell_ref(row as nat, col as nat),
{
    push_col(out, col);
    push_dec(out, row as u64 + 1);
    proof {
        assert(old(out)@ + (col_letters(col as nat) + dec_of(row as nat + 1)) =~= (old(out)@
            + col_letters(col as nat)) + dec_of(row as nat + 1));
    }
}

/// An uppercase hexadecimal digit.
pub open spec fn hex_digit(n: u8) -> u8 {
    if n < 10 {
        (48 + n) as u8
    } else {
        (55 + n) as u8
    }
}

/// How one byte of text is rendered inside XML: the five special characters
/// become entities, control bytes become two-digit character references,
/// anything else stands as itself.
pub open spec fn esc_byte(b: u8) -> Seq<u8> {
    if b == 60 {
        lit("&lt;")
    } else if b == 62 {
        lit("&gt;")
    } else if b == 38 {
        lit("&amp;")
    } else if b == 34 {
        lit("&quot;")
    } else if b == 39 {
        lit("&apos;")
    } else if b < 32 {
        lit("&#x") + seq![hex_digit(b / 16), hex_digit(b % 16)] + lit(";")
    } else {
        seq![b]
    }
}

/// The XML escaping of a byte sequence, byte by byte.
pub open spec fn esc_bytes(s: Seq<u8>) -> Seq<u8>
    decreases s.len(),
{
    if s.len() == 0 {
        Seq::empty()
    } else {
        esc_byte(s[0]) + esc_bytes(s.skip(1))
    }
}

/// Escaping distributes over concatenation.
pub proof fn lemma_esc_app(a: Seq<u8>, b: Seq<u8>)
    ensures
        esc_bytes(a + b) == esc_bytes(a) + esc_bytes(b),
    decreases a.len(),
{
    if a.len() == 0 {
        assert(a + b =~= b);
        assert(esc_bytes(a) + esc_bytes(b) =~= esc_bytes(b));
    } else {
        assert((a + b).skip(1) =~= a.skip(1) + b);
        lemma_esc_app(a.skip(1), b);
        assert(esc_bytes(a + b) == esc_byte(a[0]) + (esc_bytes(a.skip(1)) + esc_bytes(b)));
        assert(esc_byte(a[0]) + (esc_bytes(a.skip(1)) + esc_bytes(b)) =~= (esc_byte(a[0])
            + esc_bytes(a.skip(1))) + esc_bytes(b));
    }
}

/// Appends the XML escaping of `s`.
pub fn push_esc(out: &mut Vec<u8>, s: &[u8])
    ensures
        final(out)@ == old(out)@ + esc_bytes(s@),
{
    let ghost base = out@;
    let mut i: usize = 0;
    while i < s.len()
        invariant
            i <= s@.len(),
            out@ == base + esc_bytes(s@.take(i as int)),
        decreases s@.len() - i,
    {
        let ghost pre = out@;
        let b = s[i];
        if b == 60 {
            push_lit(out, "&lt;");
        } else if b == 62 {
            push_lit(out, "&gt;");
        } else if b == 38 {
            push_lit(out, "&amp;");
        } else if b == 34 {
            push_lit(out, "&quot;");
        } else if b == 39 {
            push_lit(out, "&apos;");
        } else if b < 32 {
            push_lit(out, "&#x");
            let hi: u8 = b / 16;
            let lo: u8 = b % 16;
            out.push(if hi < 10 { 48 + hi } else { 55 + hi });
            out.push(if lo < 10 { 48 + lo } else { 55 + lo });
            push_lit(out, ";");
            proof {
                assert(out@ =~= pre + esc_byte(b));
            }
        } else {
            out.push(b);
            proof {
                assert(out@ =~= pre + esc_byte(b));
            }
        }
        proof {
            assert(s@.take(i + 1) =~= s@.take(i as int) + seq![s@[i as int]]);
            lemma_esc_app(s@.take(i as int), seq![s@[i as int]]);
            assert(esc_bytes(seq![b]) == esc_byte(b) + esc_bytes(Seq::<u8>::empty())) by {
                assert(seq![b].skip(1) =~= Seq::<u8>::empty());
            }
            assert(esc_bytes(seq![b]) =~= esc_byte(b));
            assert(base + esc_bytes(s@.take(i + 1)) =~= (base + esc_bytes(s@.take(i as int)))
                + esc_byte(b));
        }
        i = i + 1;
    }
    proof {
        assert(s@.take(s@.len() as int) =~= s@);
    }
}

/// Whether two byte slices hold the same bytes.
pub fn bytes_eq(a: &[u8], b: &[u8]) -> (r: bool)
    ensures
        r == (a@ == b@),
{
    if a.len() != b.len() {
        return false;
    }
    let mut i: usize = 0;
    while i < a.len()
        invariant
            a@.len() == b@.len(),
            i <= a@.len(),
            forall|j: int| 0 <= j < i ==> a@[j] == b@[j],
        decreases a@.len() - i,
    {
        if a[i] != b[i] {
            return false;
        }
        i = i + 1;
    }
    proof {
        assert(a@ =~= b@);
    }
    true
}

/// ASCII case folding of one byte: uppercase letters become lowercase.
pub open spec fn fold_byte(b: u8) -> u8 {
    if 65 <= b && b <= 90 {
        (b + 32) as u8
    } else {
        b
    }
}

/// ASCII case folding of a byte sequence.
pub open spec fn fold_bytes(s: Seq<u8>) -> Seq<u8> {
    s.map_values(|b: u8| fold_byte(b))
}

/// Whether two byte sequences are equal up to ASCII case.
pub fn eq_case_insensitive(a: &[u8], b: &[u8]) -> (r: bool)
    ensures
        r == (fold_bytes(a@) == fold_bytes(b@)),
{
    if a.len() != b.len() {
        proof {
            assert(fold_bytes(a@).len() == a@.len());
            assert(fold_bytes(b@).len() == b@.len());
        }
        return false;
    }
    let mut i: usize = 0;
    while i < a.len()
        invariant
            a@.len() == b@.len(),
            i <= a@.len(),
            forall|j: int| 0 <= j < i ==> fold_byte(a@[j]) == fold_byte(b@[j]),
        decreases a@.len() - i,
    {
        let x = a[i];
        let y = b[i];
        let fx: u8 = if 65 <= x && x <= 90 { x + 32 } else { x };
        let fy: u8 = if 65 <= y && y <= 90 { y + 32 } else { y };
        if fx != fy {
            proof {
                assert(fold_bytes(a@)[i as int] == fold_byte(a@[i as int]));
                assert(fold_bytes(b@)[i as int] == fold_byte(b@[i as int]));
            }
            return false;
        }
        i = i + 1;
    }
    proof {
        assert(fold_bytes(a@) =~= fold_bytes(b@));
    }
    true
}

/// Every byte of a decimal rendering is a digit.
pub proof fn lemma_dec_of_digits(n: nat)
    ensures
        forall|i: int| 0 <= i < dec_of(n).len() ==> 48 <= #[trigger] dec_of(n)[i] <= 57,
    decreases n,
{
    if n < 10 {
    } else {
        lemma_dec_of_digits(n / 10);
        assert forall|i: int| 0 <= i < dec_of(n).len() implies 48 <= #[trigger] dec_of(n)[i]
            <= 57 by {
            if i < dec_of(n / 10).len() {
                assert(dec_of(n)[i] == dec_of(n / 10)[i]);
            } else {
                assert(dec_of(n)[i] == (48 + n % 10) as u8);
            }
        }
    }
}

/// Distinct numbers render to distinct decimal digit strings.
pub proof fn lemma_dec_of_inj(a: nat, b: nat)
    requires
        dec_of(a) == dec_of(b),
    ensures
        a == b,
    decreases a,
{
    if a < 10 && b < 10 {
        assert(dec_of(a) == seq![(48 + a) as u8]);
        assert(dec_of(b) == seq![(48 + b) as u8]);
        assert(dec_of(a)[0] == (48 + a) as u8);
        assert(dec_of(b)[0] == (48 + b) as u8);
        assert(dec_of(a)[0] == dec_of(b)[0]);
        assert((48 + a) as u8 == (48 + b) as u8);
    } else if a < 10 {
        assert(dec_of(b) == dec_of(b / 10) + seq![(48 + b % 10) as u8]);
        assert(dec_of(b / 10).len() >= 1);
        assert(dec_of(a).len() == 1 && dec_of(b).len() >= 2);
    } else if b < 10 {
        assert(dec_of(a) == dec_of(a / 10) + seq![(48 + a % 10) as u8]);
        assert(dec_of(a / 10).len() >= 1);
        assert(dec_of(b).len() == 1 && dec_of(a).len() >= 2);
    } else {
        assert(dec_of(a) == dec_of(a / 10) + seq![(48 + a % 10) as u8]);
        assert(dec_of(b) == dec_of(b / 10) + seq![(48 + b % 10) as u8]);
        assert(dec_of(a).last() == (48 + a % 10) as u8);
        assert(dec_of(b).last() == (48 + b % 10) as u8);
        assert((48 + a % 10) as u8 == (48 + b % 10) as u8);
        assert(dec_of(a).drop_last() =~= dec_of(a / 10));
        assert(dec_of(b).drop_last() =~= dec_of(b / 10));
        lemma_dec_of_inj(a / 10, b / 10);
        assert(a == 10 * (a / 10) + a % 10) by (nonlinear_arith);
        assert(b == 10 * (b / 10) + b % 10) by (nonlinear_arith);
    }
}

/// Powers of ten, for bounding the length of a rendering.
pub open spec fn pow10(d: nat) -> nat
    decreases d,
{
    if d == 0 {
        1
    } else {
        10 * pow10((d - 1) as nat)
    }
}

/// A number below `pow10(d)` renders in at most `d` digits.
pub proof fn lemma_dec_of_len(n: nat, d: nat)
    requires
        d >= 1,
        n < pow10(d),
    ensures
        dec_of(n).len() <= d,
    decreases d,
{
    if n < 10 {
    } else {
        assert(pow10(d) == 10 * pow10((d - 1) as nat));
        if d == 1 {
            assert(pow10(0) == 1);
            assert(pow10(1) == 10);
        } else {
            assert(n / 10 < pow10((d - 1) as nat)) by (nonlinear_arith)
                requires
                    n < 10 * pow10((d - 1) as nat),
            ;
            lemma_dec_of_len(n / 10, (d - 1) as nat);
        }
    }
}

/// Case folding distributes over concatenation.
pub proof fn lemma_fold_app(a: Seq<u8>, b: Seq<u8>)
    ensures
        fold_bytes(a + b) == fold_bytes(a) + fold_bytes(b),
{
    assert(fold_bytes(a + b) =~= fold_bytes(a) + fold_bytes(b));
}

/// Digit strings are unchanged by case folding.
pub proof fn lemma_fold_digits(n: nat)
    ensures
        fold_bytes(dec_of(n)) == dec_of(n),
{
    lemma_dec_of_digits(n);
    assert(fold_bytes(dec_of(n)) =~= dec_of(n));
}

} // verus!
