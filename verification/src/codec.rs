//! The wire encoding of an expression tree.
//!
//! A tree is a self-describing byte string: each operation node is a one-byte
//! tag followed by the encodings of its two sides, and a literal is `V`, the
//! decimal digits of its value (with a leading `-` when negative), and a
//! closing `;`.  The decimal form is canonical — no leading zeros, no `-0` —
//! so every tree has exactly one encoding, [`decode`] accepts exactly the
//! encodings, and `decode(encode(e))` gives back `e` for every finite tree.

use crate::parse::MathAST;
use vstd::prelude::*;

verus! {

/// Tag of a literal node.
pub const TAG_VALUE: u8 = 86;

/// Tag of an addition node.
pub const TAG_ADD: u8 = 65;

/// Tag of a subtraction node.
pub const TAG_SUBTRACT: u8 = 83;

/// Tag of a multiplication node.
pub const TAG_MULTIPLY: u8 = 77;

/// Tag of a division node.
pub const TAG_DIVIDE: u8 = 68;

/// The minus sign before the digits of a negative literal.
pub const BYTE_MINUS: u8 = 45;

/// The terminator after the digits of a literal.
pub const BYTE_END: u8 = 59;

/// Whether `b` is a decimal digit byte.
pub open spec fn is_digit(b: u8) -> bool {
    48 <= b <= 57
}

/// Whether every byte of `s` is a decimal digit.
pub open spec fn all_digits(s: Seq<u8>) -> bool {
    forall|k: int| 0 <= k < s.len() ==> is_digit(#[trigger] s[k])
}

/// The decimal digit bytes of `n`, most significant first.
pub open spec fn spec_digits(n: nat) -> Seq<u8>
    decreases n,
{
    if n < 10 {
        seq![(48 + n) as u8]
    } else {
        spec_digits(n / 10).push((48 + n % 10) as u8)
    }
}

/// The value of a string of decimal digit bytes.
pub open spec fn digits_val(s: Seq<u8>) -> int
    decreases s.len(),
{
    if s.len() == 0 {
        0
    } else {
        digits_val(s.drop_last()) * 10 + (s.last() - 48)
    }
}

/// The canonical sign-and-digits form of `v`.
pub open spec fn spec_encode_int(v: int) -> Seq<u8> {
    if v < 0 {
        seq![BYTE_MINUS] + spec_digits((-v) as nat)
    } else {
        spec_digits(v as nat)
    }
}

impl MathAST {
    /// The encoded form of the tree.
    pub open spec fn spec_encode(self) -> Seq<u8>
        decreases self,
    {
        match self {
            MathAST::Value(v) => seq![TAG_VALUE] + spec_encode_int(v as int) + seq![BYTE_END],
            MathAST::Add(l, r) => seq![TAG_ADD] + l.spec_encode() + r.spec_encode(),
            MathAST::Subtract(l, r) => seq![TAG_SUBTRACT] + l.spec_encode() + r.spec_encode(),
            MathAST::Multiply(l, r) => seq![TAG_MULTIPLY] + l.spec_encode() + r.spec_encode(),
            MathAST::Divide(l, r) => seq![TAG_DIVIDE] + l.spec_encode() + r.spec_encode(),
        }
    }
}

/// The digits of `n` are digits, start without a leading zero whenever
/// `n >= 1` or there is more than one of them, and read back as `n`.
proof fn lemma_digits_shape(n: nat)
    ensures
        spec_digits(n).len() >= 1,
        all_digits(spec_digits(n)),
        n >= 1 ==> spec_digits(n)[0] != 48,
        spec_digits(n).len() > 1 ==> spec_digits(n)[0] != 48,
        digits_val(spec_digits(n)) == n,
    decreases n,
{
    if n < 10 {
        let d = spec_digits(n);
        assert(d == seq![(48 + n) as u8]);
        assert(d.drop_last() =~= Seq::<u8>::empty());
        assert(digits_val(Seq::<u8>::empty()) == 0);
        assert(digits_val(d) == d.last() - 48);
    } else {
        lemma_digits_shape(n / 10);
        let prefix = spec_digits(n / 10);
        let whole = spec_digits(n);
        assert(whole == prefix.push((48 + n % 10) as u8));
        assert(whole.drop_last() == prefix);
        assert(whole.last() == (48 + n % 10) as u8);
        assert(digits_val(whole) == digits_val(prefix) * 10 + n % 10);
        assert(n / 10 * 10 + n % 10 == n);
        assert(whole[0] == prefix[0]);
        assert(forall|k: int| 0 <= k < whole.len() ==> is_digit(#[trigger] whole[k]));
    }
}

/// A digit string has a non-negative value, positive when it does not start
/// with a zero.
proof fn lemma_digits_val_bounds(d: Seq<u8>)
    requires
        all_digits(d),
    ensures
        digits_val(d) >= 0,
        d.len() >= 1 && d[0] != 48 ==> digits_val(d) >= 1,
    decreases d.len(),
{
    if d.len() > 0 {
        lemma_digits_val_bounds(d.drop_last());
        if d.len() > 1 {
            assert(d.drop_last()[0] == d[0]);
        }
    }
}

/// A canonical digit string — non-empty, digits only, no leading zero — is
/// exactly the digit string of its value.
proof fn lemma_digits_canonical(d: Seq<u8>)
    requires
        d.len() >= 1,
        all_digits(d),
        d.len() > 1 ==> d[0] != 48,
    ensures
        spec_digits(digits_val(d) as nat) == d,
    decreases d.len(),
{
    lemma_digits_val_bounds(d);
    if d.len() == 1 {
        assert(d.drop_last() =~= Seq::<u8>::empty());
        assert(digits_val(Seq::<u8>::empty()) == 0);
        assert(d.last() == d[0]);
        assert(digits_val(d) == d[0] - 48);
        assert(spec_digits((d[0] - 48) as nat) =~= d);
    } else {
        let dd = d.drop_last();
        assert(dd[0] == d[0]);
        lemma_digits_canonical(dd);
        lemma_digits_val_bounds(dd);
        let n = digits_val(d);
        assert(n == digits_val(dd) * 10 + (d.last() - 48));
        assert(digits_val(dd) >= 1);
        assert(n >= 10);
        assert(n / 10 == digits_val(dd) && n % 10 == d.last() - 48) by {
            assert(0 <= d.last() - 48 < 10);
        }
        assert(spec_digits(n as nat) == spec_digits(digits_val(dd) as nat).push(
            (48 + n % 10) as u8,
        ));
        assert(spec_digits(n as nat) =~= d);
    }
}

/// The value of a prefix of a digit string is at most the value of the whole.
proof fn lemma_digits_val_prefix(d: Seq<u8>, k: int)
    requires
        all_digits(d),
        0 <= k <= d.len(),
    ensures
        digits_val(d.subrange(0, k)) <= digits_val(d),
    decreases d.len() - k,
{
    if k == d.len() {
        assert(d.subrange(0, k) =~= d);
    } else {
        lemma_digits_val_prefix(d, k + 1);
        let shorter = d.subrange(0, k);
        let longer = d.subrange(0, k + 1);
        assert(longer.drop_last() =~= shorter);
        assert(longer.last() == d[k]);
        lemma_digits_val_bounds(shorter);
        assert(digits_val(longer) == digits_val(shorter) * 10 + (d[k] - 48));
        assert(digits_val(shorter) <= digits_val(longer));
    }
}

/// Append the digits of `n` to `out`.
fn push_digits(n: u32, out: &mut Vec<u8>)
    ensures
        final(out)@ == old(out)@ + spec_digits(n as nat),
    decreases n,
{
    if n < 10 {
        out.push(48 + n as u8);
        assert(out@ =~= old(out)@ + spec_digits(n as nat));
    } else {
        push_digits(n / 10, out);
        out.push(48 + (n % 10) as u8);
        assert(out@ =~= old(out)@ + spec_digits(n as nat));
    }
}

/// Append the sign-and-digits form of `v` to `out`.
fn push_int(v: i32, out: &mut Vec<u8>)
    ensures
        final(out)@ == old(out)@ + spec_encode_int(v as int),
{
    if v < 0 {
        out.push(BYTE_MINUS);
        let m: u32 = (-(v as i64)) as u32;
        assert(m == -(v as int));
        push_digits(m, out);
        assert(out@ =~= old(out)@ + spec_encode_int(v as int));
    } else {
        push_digits(v as u32, out);
    }
}

/// Append the encoding of `ast` to `out`.
fn encode_into(ast: &MathAST, out: &mut Vec<u8>)
    ensures
        final(out)@ == old(out)@ + ast.spec_encode(),
    decreases ast,
{
    match ast {
        MathAST::Value(v) => {
            out.push(TAG_VALUE);
            push_int(*v, out);
            out.push(BYTE_END);
            assert(out@ =~= old(out)@ + ast.spec_encode());
        },
        MathAST::Add(l, r) => {
            out.push(TAG_ADD);
            encode_into(&**l, out);
            encode_into(&**r, out);
            assert(out@ =~= old(out)@ + ast.spec_encode());
        },
        MathAST::Subtract(l, r) => {
            out.push(TAG_SUBTRACT);
            encode_into(&**l, out);
            encode_into(&**r, out);
            assert(out@ =~= old(out)@ + ast.spec_encode());
        },
        MathAST::Multiply(l, r) => {
            out.push(TAG_MULTIPLY);
            encode_into(&**l, out);
            encode_into(&**r, out);
            assert(out@ =~= old(out)@ + ast.spec_encode());
        },
        MathAST::Divide(l, r) => {
            out.push(TAG_DIVIDE);
            encode_into(&**l, out);
            encode_into(&**r, out);
            assert(out@ =~= old(out)@ + ast.spec_encode());
        },
    }
}

/// Encode `ast` as its unique byte string.
pub fn encode(ast: &MathAST) -> (out: Vec<u8>)
    ensures
        out@ == ast.spec_encode(),
{
    let mut out: Vec<u8> = Vec::new();
    encode_into(ast, &mut out);
    out
}

/// The magnitude of `v`.
spec fn int_mag(v: i32) -> nat {
    if v < 0 {
        (-(v as int)) as nat
    } else {
        v as nat
    }
}

/// Whether the sign-and-digits form of `v` sits at position `i` of `s`,
/// followed by a non-digit or the end — the way an integer always appears
/// inside an encoded tree.
spec fn int_at(s: Seq<u8>, i: int, v: i32) -> bool {
    let enc = spec_encode_int(v as int);
    &&& 0 <= i
    &&& i + enc.len() <= s.len()
    &&& s.subrange(i, i + enc.len()) == enc
    &&& i + enc.len() < s.len() ==> !is_digit(s[i + enc.len()])
}

/// The first byte at `i` tells the sign of `v`, and the digits of `v`'s
/// magnitude fill the range after the optional sign.
proof fn lemma_int_at_sign(s: Seq<u8>, i: int, v: i32)
    requires
        int_at(s, i, v),
    ensures
        v < 0 <==> s[i] == BYTE_MINUS,
        ({
            let sgn: int = if v < 0 {
                1
            } else {
                0
            };
            let m = int_mag(v);
            &&& spec_encode_int(v as int).len() == sgn + spec_digits(m).len()
            &&& i + sgn + spec_digits(m).len() <= s.len()
            &&& s.subrange(i + sgn, i + sgn + spec_digits(m).len()) == spec_digits(m)
            &&& i + sgn < s.len()
        }),
{
    let m = int_mag(v);
    let enc = spec_encode_int(v as int);
    lemma_digits_shape(m);
    if v < 0 {
        assert(enc == seq![BYTE_MINUS] + spec_digits(m));
        assert(enc[0] == BYTE_MINUS);
        assert(s[i] == s.subrange(i, i + enc.len())[0]);
        assert forall|k: int| 0 <= k < spec_digits(m).len() implies s[i + 1 + k] == spec_digits(m)[k] by {
            assert(s[i + 1 + k] == s.subrange(i, i + enc.len())[1 + k]);
            assert(enc[1 + k] == spec_digits(m)[k]);
        }
        assert(s.subrange(i + 1, i + 1 + spec_digits(m).len()) =~= spec_digits(m));
    } else {
        assert(enc == spec_digits(m));
        assert(enc[0] == spec_digits(m)[0]);
        assert(is_digit(enc[0]));
        assert(s[i] == s.subrange(i, i + enc.len())[0]);
        assert(s[i] != BYTE_MINUS);
        assert(s.subrange(i, i + spec_digits(m).len()) =~= spec_digits(m));
    }
}

/// A maximal digit run that starts where the digits of `v` start ends where
/// they end, and reads back as `v`'s magnitude.
proof fn lemma_int_at_run(s: Seq<u8>, i: int, v: i32, ds: int, j: int)
    requires
        int_at(s, i, v),
        ds == if s[i] == BYTE_MINUS {
            i + 1
        } else {
            i
        },
        ds <= j <= s.len(),
        all_digits(s.subrange(ds, j)),
        j == s.len() || !is_digit(s[j]),
    ensures
        j == i + spec_encode_int(v as int).len(),
        s.subrange(ds, j) == spec_digits(int_mag(v)),
        digits_val(s.subrange(ds, j)) == int_mag(v),
{
    let m = int_mag(v);
    lemma_int_at_sign(s, i, v);
    lemma_digits_shape(m);
    let sgn: int = if v < 0 {
        1
    } else {
        0
    };
    let hi = i + sgn + spec_digits(m).len();
    assert(hi == i + spec_encode_int(v as int).len());
    assert(ds == i + sgn);
    if j < hi {
        assert(s[j] == s.subrange(ds, hi)[j - ds]);
        assert(is_digit(s[j]));
        assert(false);
    }
    if j > hi {
        assert(s[hi] == s.subrange(ds, j)[hi - ds]);
        assert(is_digit(s[hi]));
        assert(false);
    }
    assert(s.subrange(ds, j) == spec_digits(m));
}

/// Parse a sign-and-digits integer at position `i`, greedily taking every
/// digit, and accept exactly the canonical forms that fit in an `i32`.
fn decode_int_at(s: &Vec<u8>, i: usize) -> (r: Option<(i32, usize)>)
    requires
        i <= s@.len(),
    ensures
        r matches Some((v, end)) ==> i < end <= s@.len() && s@.subrange(i as int, end as int)
            == spec_encode_int(v as int),
        forall|v: i32|
            int_at(s@, i as int, v) ==> (r matches Some((w, end)) && w == v && end == i
                + spec_encode_int(v as int).len()),
{
    let n = s.len();
    if i == n {
        proof {
            assert forall|v: i32| !int_at(s@, i as int, v) by {
                if int_at(s@, i as int, v) {
                    lemma_int_at_sign(s@, i as int, v);
                }
            }
        }
        return None;
    }
    let neg = s[i] == BYTE_MINUS;
    let ds: usize = if neg {
        i + 1
    } else {
        i
    };
    let limit: u32 = if neg {
        2147483648
    } else {
        2147483647
    };
    let mut j: usize = ds;
    let mut acc: u32 = 0;
    proof {
        assert(s@.subrange(ds as int, ds as int) =~= Seq::<u8>::empty());
    }
    while j < n && 48 <= s[j] && s[j] <= 57
        invariant
            i <= s@.len(),
            n == s@.len(),
            i < n,
            neg <==> s@[i as int] == BYTE_MINUS,
            ds == if neg {
                i + 1
            } else {
                i as int
            },
            ds <= j <= n,
            limit == if neg {
                2147483648u32
            } else {
                2147483647u32
            },
            all_digits(s@.subrange(ds as int, j as int)),
            acc == digits_val(s@.subrange(ds as int, j as int)),
            acc <= limit,
        decreases n - j,
    {
        let d: u8 = s[j] - 48;
        let next: u64 = acc as u64 * 10 + d as u64;
        proof {
            let run = s@.subrange(ds as int, j as int);
            let run1 = s@.subrange(ds as int, j as int + 1);
            assert(run1.drop_last() =~= run);
            assert(run1.last() == s@[j as int]);
            assert(digits_val(run1) == digits_val(run) * 10 + (s@[j as int] - 48));
            assert(all_digits(run1));
        }
        if next > limit as u64 {
            proof {
                assert forall|v: i32| !int_at(s@, i as int, v) by {
                    if int_at(s@, i as int, v) {
                        let m = int_mag(v);
                        lemma_int_at_sign(s@, i as int, v);
                        lemma_digits_shape(m);
                        let sgn: int = if v < 0 {
                            1int
                        } else {
                            0int
                        };
                        let hi = i + sgn + spec_digits(m).len();
                        // The scan is still inside the digits of `v`, so the
                        // value so far cannot exceed the magnitude of `v`.
                        if j + 1 > hi {
                            if j as int == hi {
                                assert(!is_digit(s@[j as int]));
                            } else {
                                assert(s@[hi] == s@.subrange(ds as int, j as int)[hi - ds]);
                            }
                            assert(false);
                        }
                        let digits = s@.subrange(ds as int, hi);
                        assert(digits == spec_digits(m));
                        lemma_digits_val_prefix(digits, j + 1 - ds);
                        assert(digits.subrange(0, j + 1 - ds) =~= s@.subrange(
                            ds as int,
                            j as int + 1,
                        ));
                        assert(digits_val(s@.subrange(ds as int, j as int + 1)) <= m);
                        assert(m <= limit);
                        assert(false);
                    }
                }
            }
            return None;
        }
        acc = next as u32;
        j = j + 1;
    }
    if j == ds {
        proof {
            assert forall|v: i32| !int_at(s@, i as int, v) by {
                if int_at(s@, i as int, v) {
                    let m = int_mag(v);
                    lemma_int_at_sign(s@, i as int, v);
                    lemma_digits_shape(m);
                    assert(s@[ds as int] == spec_digits(m)[0]);
                    assert(is_digit(s@[ds as int]));
                    assert(false);
                }
            }
        }
        return None;
    }
    if j > ds + 1 && s[ds] == 48 {
        proof {
            assert forall|v: i32| !int_at(s@, i as int, v) by {
                if int_at(s@, i as int, v) {
                    let m = int_mag(v);
                    lemma_int_at_run(s@, i as int, v, ds as int, j as int);
                    lemma_digits_shape(m);
                    assert(s@[ds as int] == spec_digits(m)[0]);
                    assert(false);
                }
            }
        }
        return None;
    }
    if neg && acc == 0 {
        proof {
            assert forall|v: i32| !int_at(s@, i as int, v) by {
                if int_at(s@, i as int, v) {
                    lemma_int_at_sign(s@, i as int, v);
                    assert(v < 0);
                    lemma_int_at_run(s@, i as int, v, ds as int, j as int);
                    assert(acc == int_mag(v));
                    assert(int_mag(v) >= 1);
                    assert(false);
                }
            }
        }
        return None;
    }
    let v: i32 = if neg {
        proof {
            assert(1 <= acc <= 2147483648);
        }
        (-(acc as i64)) as i32
    } else {
        acc as i32
    };
    proof {
        let run = s@.subrange(ds as int, j as int);
        lemma_digits_val_bounds(run);
        lemma_digits_canonical(run);
        assert(run == spec_digits(acc as nat));
        if neg {
            assert(v as int == -(acc as int));
            assert(int_mag(v) == acc);
            assert(spec_encode_int(v as int) == seq![BYTE_MINUS] + spec_digits(acc as nat));
            assert(s@.subrange(i as int, j as int) =~= seq![BYTE_MINUS] + run);
        } else {
            assert(v as int == acc as int);
            assert(spec_encode_int(v as int) == spec_digits(acc as nat));
            assert(s@.subrange(i as int, j as int) =~= run);
        }
        assert forall|u: i32|
            int_at(s@, i as int, u) implies v == u && j == i + spec_encode_int(u as int).len() by {
            lemma_int_at_run(s@, i as int, u, ds as int, j as int);
            assert(digits_val(run) == int_mag(u));
            assert(acc == int_mag(u));
            if u < 0 {
                assert(s@[i as int] == BYTE_MINUS);
                assert(neg);
                assert(v as int == -(int_mag(u) as int));
                assert(v == u);
            } else {
                assert(s@[i as int] != BYTE_MINUS);
                assert(!neg);
                assert(v as int == int_mag(u) as int);
                assert(v == u);
            }
        }
    }
    Some((v, j))
}

/// Whether the encoding of `e` sits at position `i` of `s`.
spec fn tree_at(s: Seq<u8>, i: int, e: MathAST) -> bool {
    let enc = e.spec_encode();
    &&& 0 <= i
    &&& i + enc.len() <= s.len()
    &&& s.subrange(i, i + enc.len()) == enc
}

/// Every encoding is non-empty and starts with the tag of its root.
proof fn lemma_encode_tree_shape(e: MathAST)
    ensures
        e.spec_encode().len() >= 1,
        e matches MathAST::Value(v) ==> e.spec_encode()[0] == TAG_VALUE,
        e matches MathAST::Add(l, r) ==> e.spec_encode()[0] == TAG_ADD,
        e matches MathAST::Subtract(l, r) ==> e.spec_encode()[0] == TAG_SUBTRACT,
        e matches MathAST::Multiply(l, r) ==> e.spec_encode()[0] == TAG_MULTIPLY,
        e matches MathAST::Divide(l, r) ==> e.spec_encode()[0] == TAG_DIVIDE,
{
}

/// Parse one encoded tree at position `i`: a tag byte, then for a literal a
/// sign-and-digits integer closed by the terminator, and for an operation the
/// encodings of its two sides.
fn decode_at(s: &Vec<u8>, i: usize) -> (r: Option<(MathAST, usize)>)
    requires
        i <= s@.len(),
    ensures
        r matches Some((ast, end)) ==> i < end <= s@.len() && s@.subrange(i as int, end as int)
            == ast.spec_encode(),
        forall|e: MathAST|
            tree_at(s@, i as int, e) ==> (r matches Some((ast, end)) && ast == e && end == i
                + e.spec_encode().len()),
    decreases s@.len() - i,
{
    let n = s.len();
    if i == n {
        proof {
            assert forall|e: MathAST| !tree_at(s@, i as int, e) by {
                if tree_at(s@, i as int, e) {
                    lemma_encode_tree_shape(e);
                }
            }
        }
        return None;
    }
    let tag = s[i];
    if tag == TAG_VALUE {
        match decode_int_at(s, i + 1) {
            Some((v, j)) => {
                if j < n && s[j] == BYTE_END {
                    let ast = MathAST::Value(v);
                    proof {
                        let enc = ast.spec_encode();
                        let ienc = spec_encode_int(v as int);
                        assert(enc == seq![TAG_VALUE] + ienc + seq![BYTE_END]);
                        assert(s@.subrange(i as int + 1, j as int) == ienc);
                        assert forall|k: int| 0 <= k < enc.len() implies s@.subrange(
                            i as int,
                            j as int + 1,
                        )[k] == enc[k] by {
                            if 1 <= k < enc.len() - 1 {
                                assert(enc[k] == ienc[k - 1]);
                                assert(s@[i + k] == s@.subrange(i as int + 1, j as int)[k - 1]);
                            }
                        }
                        assert(s@.subrange(i as int, j as int + 1) =~= enc);
                        assert forall|e: MathAST|
                            tree_at(s@, i as int, e) implies e == ast && i + e.spec_encode().len()
                            == j + 1 by {
                            lemma_value_tree_at(s@, i as int, e, v as i32, j as int);
                        }
                    }
                    Some((ast, j + 1))
                } else {
                    proof {
                        assert forall|e: MathAST| !tree_at(s@, i as int, e) by {
                            if tree_at(s@, i as int, e) {
                                lemma_value_int_at(s@, i as int, e);
                                if let MathAST::Value(w) = e {
                                    assert(int_at(s@, i as int + 1, w));
                                    assert(j == i + 1 + spec_encode_int(w as int).len());
                                    assert(s@[j as int] == e.spec_encode()[j - i]);
                                    assert(false);
                                }
                            }
                        }
                    }
                    None
                }
            },
            None => {
                proof {
                    assert forall|e: MathAST| !tree_at(s@, i as int, e) by {
                        if tree_at(s@, i as int, e) {
                            lemma_value_int_at(s@, i as int, e);
                        }
                    }
                }
                None
            },
        }
    } else if tag == TAG_ADD || tag == TAG_SUBTRACT || tag == TAG_MULTIPLY || tag == TAG_DIVIDE {
        match decode_at(s, i + 1) {
            Some((left, j)) => {
                match decode_at(s, j) {
                    Some((right, k)) => {
                        let ast = if tag == TAG_ADD {
                            MathAST::Add(Box::new(left), Box::new(right))
                        } else if tag == TAG_SUBTRACT {
                            MathAST::Subtract(Box::new(left), Box::new(right))
                        } else if tag == TAG_MULTIPLY {
                            MathAST::Multiply(Box::new(left), Box::new(right))
                        } else {
                            MathAST::Divide(Box::new(left), Box::new(right))
                        };
                        proof {
                            let enc = ast.spec_encode();
                            let lenc = left.spec_encode();
                            let renc = right.spec_encode();
                            assert(enc == seq![tag] + lenc + renc);
                            assert forall|q: int| 0 <= q < enc.len() implies s@.subrange(
                                i as int,
                                k as int,
                            )[q] == enc[q] by {
                                if 1 <= q < 1 + lenc.len() {
                                    assert(enc[q] == lenc[q - 1]);
                                    assert(s@[i + q] == s@.subrange(i as int + 1, j as int)[q - 1]);
                                } else if q >= 1 + lenc.len() {
                                    assert(enc[q] == renc[q - 1 - lenc.len()]);
                                    assert(s@[i + q] == s@.subrange(j as int, k as int)[i + q - j]);
                                }
                            }
                            assert(s@.subrange(i as int, k as int) =~= enc);
                            assert forall|e: MathAST|
                                tree_at(s@, i as int, e) implies e == ast && i
                                + e.spec_encode().len() == k by {
                                lemma_op_tree_at(s@, i as int, e, left, right, j as int, k as int);
                            }
                        }
                        Some((ast, k))
                    },
                    None => {
                        proof {
                            assert forall|e: MathAST| !tree_at(s@, i as int, e) by {
                                if tree_at(s@, i as int, e) {
                                    lemma_op_children_at(s@, i as int, e);
                                    let (l2, r2) = e.children();
                                    assert(tree_at(s@, i as int + 1, l2));
                                    assert(j == i + 1 + l2.spec_encode().len());
                                    assert(tree_at(s@, j as int, r2));
                                    assert(false);
                                }
                            }
                        }
                        None
                    },
                }
            },
            None => {
                proof {
                    assert forall|e: MathAST| !tree_at(s@, i as int, e) by {
                        if tree_at(s@, i as int, e) {
                            lemma_op_children_at(s@, i as int, e);
                            let (l2, r2) = e.children();
                            assert(tree_at(s@, i as int + 1, l2));
                            assert(false);
                        }
                    }
                }
                None
            },
        }
    } else {
        proof {
            assert forall|e: MathAST| !tree_at(s@, i as int, e) by {
                if tree_at(s@, i as int, e) {
                    lemma_encode_tree_shape(e);
                    assert(s@[i as int] == e.spec_encode()[0]);
                }
            }
        }
        None
    }
}

/// A tree whose encoding starts with the literal tag is a literal, and its
/// integer sits right after the tag, closed by the terminator.
proof fn lemma_value_int_at(s: Seq<u8>, i: int, e: MathAST)
    requires
        tree_at(s, i, e),
        s[i] == TAG_VALUE,
    ensures
        e matches MathAST::Value(w) ==> int_at(s, i + 1, w),
        e is Value,
{
    lemma_encode_tree_shape(e);
    let enc = e.spec_encode();
    assert(s[i] == s.subrange(i, i + enc.len())[0]);
    if let MathAST::Value(w) = e {
        let ienc = spec_encode_int(w as int);
        assert(enc == seq![TAG_VALUE] + ienc + seq![BYTE_END]);
        assert forall|k: int| 0 <= k < ienc.len() implies s[i + 1 + k] == ienc[k] by {
            assert(s[i + 1 + k] == s.subrange(i, i + enc.len())[1 + k]);
            assert(enc[1 + k] == ienc[k]);
        }
        assert(s.subrange(i + 1, i + 1 + ienc.len()) =~= ienc);
        assert(s[i + 1 + ienc.len()] == s.subrange(i, i + enc.len())[enc.len() - 1]);
        assert(s[i + 1 + ienc.len()] == BYTE_END);
        assert(!is_digit(BYTE_END));
    }
}

/// In the literal branch, the parsed integer and its terminator pin the whole
/// literal: the tree at `i` is exactly the parsed one.
proof fn lemma_value_tree_at(s: Seq<u8>, i: int, e: MathAST, v: i32, j: int)
    requires
        tree_at(s, i, e),
        s[i] == TAG_VALUE,
        int_at(s, i + 1, v) ==> j == i + 1 + spec_encode_int(v as int).len(),
        0 <= i < j < s.len(),
        s.subrange(i + 1, j) == spec_encode_int(v as int),
        j + 1 <= s.len(),
        j == s.len() || !is_digit(s[j]),
        forall|u: i32|
            int_at(s, i + 1, u) ==> u == v && i + 1 + spec_encode_int(u as int).len() == j,
    ensures
        e == MathAST::Value(v),
        i + e.spec_encode().len() == j + 1,
{
    lemma_value_int_at(s, i, e);
    if let MathAST::Value(w) = e {
        assert(int_at(s, i + 1, w));
        assert(w == v);
        assert(e.spec_encode().len() == 1 + spec_encode_int(w as int).len() + 1);
    }
}

/// A tree whose encoding starts with an operation tag is that operation, and
/// its two sides' encodings sit back to back after the tag.
proof fn lemma_op_children_at(s: Seq<u8>, i: int, e: MathAST)
    requires
        tree_at(s, i, e),
        s[i] == TAG_ADD || s[i] == TAG_SUBTRACT || s[i] == TAG_MULTIPLY || s[i] == TAG_DIVIDE,
    ensures
        !(e is Value),
        e matches MathAST::Add(l, r) ==> s[i] == TAG_ADD,
        e matches MathAST::Subtract(l, r) ==> s[i] == TAG_SUBTRACT,
        e matches MathAST::Multiply(l, r) ==> s[i] == TAG_MULTIPLY,
        e matches MathAST::Divide(l, r) ==> s[i] == TAG_DIVIDE,
        tree_at(s, i + 1, e.children().0),
        tree_at(s, i + 1 + e.children().0.spec_encode().len(), e.children().1),
        i + e.spec_encode().len() == i + 1 + e.children().0.spec_encode().len()
            + e.children().1.spec_encode().len(),
{
    lemma_encode_tree_shape(e);
    let enc = e.spec_encode();
    assert(s[i] == s.subrange(i, i + enc.len())[0]);
    let (l2, r2) = e.children();
    let lenc = l2.spec_encode();
    let renc = r2.spec_encode();
    assert(enc == seq![enc[0]] + lenc + renc);
    assert forall|k: int| 0 <= k < lenc.len() implies s[i + 1 + k] == lenc[k] by {
        assert(s[i + 1 + k] == s.subrange(i, i + enc.len())[1 + k]);
        assert(enc[1 + k] == lenc[k]);
    }
    assert(s.subrange(i + 1, i + 1 + lenc.len()) =~= lenc);
    assert forall|k: int| 0 <= k < renc.len() implies s[i + 1 + lenc.len() + k] == renc[k] by {
        assert(s[i + 1 + lenc.len() + k] == s.subrange(i, i + enc.len())[1 + lenc.len() + k]);
        assert(enc[1 + lenc.len() + k] == renc[k]);
    }
    assert(s.subrange(i + 1 + lenc.len(), i + 1 + lenc.len() + renc.len()) =~= renc);
}

/// In an operation branch, the two parsed sides pin the whole node: the tree
/// at `i` is exactly the reassembled one.
proof fn lemma_op_tree_at(s: Seq<u8>, i: int, e: MathAST, left: MathAST, right: MathAST, j: int, k: int)
    requires
        tree_at(s, i, e),
        s[i] == TAG_ADD || s[i] == TAG_SUBTRACT || s[i] == TAG_MULTIPLY || s[i] == TAG_DIVIDE,
        forall|c: MathAST|
            tree_at(s, i + 1, c) ==> c == left && i + 1 + c.spec_encode().len() == j,
        forall|c: MathAST| tree_at(s, j, c) ==> c == right && j + c.spec_encode().len() == k,
    ensures
        e.children() == (left, right),
        i + e.spec_encode().len() == k,
        e matches MathAST::Add(l, r) ==> s[i] == TAG_ADD,
        e matches MathAST::Subtract(l, r) ==> s[i] == TAG_SUBTRACT,
        e matches MathAST::Multiply(l, r) ==> s[i] == TAG_MULTIPLY,
        e matches MathAST::Divide(l, r) ==> s[i] == TAG_DIVIDE,
        !(e is Value),
{
    lemma_op_children_at(s, i, e);
    let (l2, r2) = e.children();
    assert(l2 == left && i + 1 + l2.spec_encode().len() == j);
    assert(r2 == right && j + r2.spec_encode().len() == k);
}

/// The tree a byte string encodes, if any.
pub open spec fn spec_decode(s: Seq<u8>) -> Option<MathAST> {
    if exists|e: MathAST| s == e.spec_encode() {
        Some(choose|e: MathAST| s == e.spec_encode())
    } else {
        None
    }
}

/// Decode a byte string back into the one tree it encodes.
///
/// This accepts exactly the image of [`encode`]: the result is `Some(ast)`
/// precisely when the whole input is the encoding of `ast`.  In particular,
/// for every finite tree `e`, decoding `encode(e)` gives back `Some(e)`.
pub fn decode(s: &Vec<u8>) -> (r: Option<MathAST>)
    ensures
        r matches Some(ast) ==> s@ == ast.spec_encode(),
        forall|e: MathAST| s@ == e.spec_encode() ==> r == Some(e),
        r == spec_decode(s@),
{
    match decode_at(s, 0) {
        Some((ast, end)) => {
            if end == s.len() {
                proof {
                    assert(s@.subrange(0, s@.len() as int) =~= s@);
                    assert forall|e: MathAST| s@ == e.spec_encode() implies ast == e by {
                        assert(tree_at(s@, 0, e));
                    }
                    assert(spec_decode(s@) == Some(ast)) by {
                        assert(s@ == ast.spec_encode());
                        let chosen = choose|e: MathAST| s@ == e.spec_encode();
                        assert(chosen == ast);
                    }
                }
                Some(ast)
            } else {
                proof {
                    assert forall|e: MathAST| s@ != e.spec_encode() by {
                        if s@ == e.spec_encode() {
                            assert(s@.subrange(0, s@.len() as int) =~= s@);
                            assert(tree_at(s@, 0, e));
                            assert(false);
                        }
                    }
                }
                None
            }
        },
        None => {
            proof {
                assert forall|e: MathAST| s@ != e.spec_encode() by {
                    if s@ == e.spec_encode() {
                        assert(s@.subrange(0, s@.len() as int) =~= s@);
                        assert(tree_at(s@, 0, e));
                        assert(false);
                    }
                }
            }
            None
        },
    }
}

} // verus!
