//! Lowercase hexadecimal rendering of unsigned values.
use vstd::prelude::*;
use vstd::string::*;

verus! {

/// The digit of value `d` (below 16), in lowercase.
pub open spec fn hex_char(d: nat) -> char {
    seq!['0', '1', '2', '3', '4', '5', '6', '7', '8', '9', 'a', 'b', 'c', 'd', 'e', 'f'][d as int]
}

/// `v` in lowercase hexadecimal, padded on the left with zeros to at least
/// `width` digits (as `{:0width$x}` prints it).
pub open spec fn hex_padded(v: nat, width: nat) -> Seq<char>
    decreases v + width,
{
    if v < 16 && width <= 1 {
        seq![hex_char(v)]
    } else {
        hex_padded(v / 16, if width > 0 { (width - 1) as nat } else { 0 }).push(hex_char(v % 16))
    }
}

/// Sixteen to the power `w`.
pub open spec fn pow16(w: nat) -> nat
    decreases w,
{
    if w == 0 {
        1
    } else {
        16 * pow16((w - 1) as nat)
    }
}

/// A value below `16^w` takes exactly `w` digits.
pub proof fn lemma_hex_padded_len(v: nat, w: nat)
    requires
        1 <= w,
        v < pow16(w),
    ensures
        hex_padded(v, w).len() == w,
    decreases w,
{
    if w >= 2 {
        let p = pow16((w - 1) as nat);
        assert(v / 16 < p) by (nonlinear_arith)
            requires
                v < 16 * p,
        ;
        lemma_hex_padded_len(v / 16, (w - 1) as nat);
    } else {
        assert(pow16(1) == 16 * pow16(0));
    }
}

/// Appends the digit of value `d`.
fn push_hex_digit(s: &mut String, d: u8)
    requires
        d < 16,
    ensures
        final(s)@ == old(s)@.push(hex_char(d as nat)),
{
    let digits = "0123456789abcdef";
    proof {
        reveal_strlit("0123456789abcdef");
    }
    let c = digits.substring_char(d as usize, d as usize + 1);
    assert(c@ =~= seq![hex_char(d as nat)]);
    s.append(c);
    assert(s@ =~= old(s)@.push(hex_char(d as nat)));
}

/// Appends `v` in lowercase hexadecimal, zero-padded to at least `width` digits.
pub fn push_hex(s: &mut String, v: u64, width: usize)
    ensures
        final(s)@ == old(s)@ + hex_padded(v as nat, width as nat),
    decreases v + width,
{
    if v < 16 && width <= 1 {
        push_hex_digit(s, v as u8);
        assert(final(s)@ =~= old(s)@ + hex_padded(v as nat, width as nat));
    } else {
        let w: usize = if width > 0 { width - 1 } else { 0 };
        push_hex(s, v / 16, w);
        push_hex_digit(s, (v % 16) as u8);
        assert(final(s)@ =~= old(s)@ + hex_padded(v as nat, width as nat));
    }
}

} // verus!
